use hope_core::provider::ensure_codex_provider;
use hope_core::provider::{proxy_choice, proxy_choice_for_url, ProxyChoice, ProxyConfig};
use hope_core::provider::{
    format_model_ref, mask_api_key, parse_model_ref, resolve_model_chain, ActiveModel, ApiType,
    ShortcutBinding, ShortcutConfig,
};
use hope_core::proxy::{parse_scutil_proxy, resolve_proxy_for_container, should_bypass_proxy};
use hope_core::provider::ProxyMode;

#[test]
fn loopback_hosts_bypass_proxy() {
    assert!(should_bypass_proxy("http://localhost:8080/search?q=test"));
    assert!(should_bypass_proxy("http://127.0.0.1:8080/search?q=test"));
    assert!(should_bypass_proxy("http://[::1]:9222/json/version"));
}

#[test]
fn remote_hosts_keep_proxy() {
    assert!(!should_bypass_proxy("https://duckduckgo.com/?q=test"));
    assert!(!should_bypass_proxy("http://192.168.1.10:8080"));
    assert!(!should_bypass_proxy("not-a-url"));
}

#[test]
fn masked_key_counts_characters() {
    let masked = mask_api_key("密钥🔑abcdef");
    assert!(masked.contains("..."));
    assert_eq!(masked, "密钥🔑a...cdef");
    assert_eq!(mask_api_key("12345678"), "****");
    assert_eq!(mask_api_key(""), "");
}

#[test]
fn model_refs_parse_and_format() {
    let m = parse_model_ref("prov::model-x").unwrap();
    assert_eq!(m.provider_id, "prov");
    assert_eq!(m.model_id, "model-x");
    assert_eq!(format_model_ref(&m), "prov::model-x");
    assert!(parse_model_ref("no-separator").is_none());
    assert!(parse_model_ref("::model").is_none());
    assert!(parse_model_ref("prov::").is_none());
    let odd = parse_model_ref("a::b::c").unwrap();
    assert_eq!(odd.provider_id, "a");
    assert_eq!(odd.model_id, "b::c");
}

#[test]
fn model_chain_prefers_agent_settings() {
    let active = Some(ActiveModel { provider_id: "g".into(), model_id: "m".into() });
    let global = vec![ActiveModel { provider_id: "f".into(), model_id: "1".into() }];
    let (p, f) = resolve_model_chain(&Some("a::x".into()), &vec!["bad".into(), "b::y".into()], &active, &global);
    assert_eq!(format_model_ref(&p.unwrap()), "a::x");
    assert_eq!(f.len(), 1);
    assert_eq!(format_model_ref(&f[0]), "b::y");
    let (p, f) = resolve_model_chain(&Some("bad".into()), &vec![], &active, &global);
    assert_eq!(format_model_ref(&p.unwrap()), "g::m");
    assert_eq!(format_model_ref(&f[0]), "f::1");
}

#[test]
fn api_types_and_shortcuts() {
    assert_eq!(ApiType::Codex.default_base_url(), "https://chatgpt.com/backend-api/codex");
    assert_eq!(ApiType::OpenaiChat.display_name(), "OpenAI Chat Completions");
    let b = ShortcutBinding { id: "x".into(), keys: "CommandOrControl+K  CommandOrControl+C".into(), enabled: true };
    assert!(b.is_chord());
    assert_eq!(b.chord_parts(), vec!["CommandOrControl+K".to_string(), "CommandOrControl+C".to_string()]);
    let d = ShortcutConfig::default();
    assert_eq!(d.bindings[0].keys, "Alt+Space");
    assert!(!d.bindings[0].is_chord());
}

#[test]
fn scutil_output_gives_system_proxy() {
    let out = "<dictionary> {\n  HTTPEnable : 1\n  HTTPPort : 8080\n  HTTPProxy : 10.0.0.1\n  HTTPSEnable : 1\n  HTTPSPort : 1082\n  HTTPSProxy : 127.0.0.1\n}\n";
    assert_eq!(parse_scutil_proxy(out), Some("http://127.0.0.1:1082".to_string()));
    let http_only = "  HTTPEnable : 1\n  HTTPPort : 8080\n  HTTPProxy : 10.0.0.1\n  HTTPSEnable : 0\n";
    assert_eq!(parse_scutil_proxy(http_only), Some("http://10.0.0.1:8080".to_string()));
    assert_eq!(parse_scutil_proxy("HTTPEnable : 0\n"), None);
}

#[test]
fn container_proxy_rewrites_loopback() {
    let env = vec![None, Some("http://localhost:7890".to_string()), None, None, None, None];
    assert_eq!(
        resolve_proxy_for_container(true, ProxyMode::System, &None, &env, &None),
        Some("http://host.docker.internal:7890".to_string())
    );
    assert_eq!(
        resolve_proxy_for_container(true, ProxyMode::Custom, &Some("http://127.0.0.1:1".to_string()), &vec![], &None),
        Some("http://host.docker.internal:1".to_string())
    );
    assert_eq!(resolve_proxy_for_container(false, ProxyMode::Custom, &Some("x".into()), &vec![], &None), None);
    assert_eq!(resolve_proxy_for_container(true, ProxyMode::Direct, &None, &vec![], &None), None);
    let empty_env = vec![Some(String::new()), None, None, None, None, None];
    assert_eq!(
        resolve_proxy_for_container(true, ProxyMode::System, &None, &empty_env, &Some("http://10.1.1.1:3".into())),
        Some("http://10.1.1.1:3".to_string())
    );
}

#[test]
fn proxy_choices() {
    let none_set: Vec<Option<String>> = vec![None, Some(String::new()), None, None, None, None];
    let one_set: Vec<Option<String>> = vec![None, Some("http://p:1".to_string()), None, None, None, None];
    let sys = ProxyConfig { mode: ProxyMode::System, url: None };
    let os = Some("http://127.0.0.1:1082".to_string());
    assert!(matches!(proxy_choice(&sys, &none_set, &os), ProxyChoice::Via(u) if u == "http://127.0.0.1:1082"));
    assert!(matches!(proxy_choice(&sys, &one_set, &os), ProxyChoice::Unchanged));
    assert!(matches!(proxy_choice(&sys, &none_set, &None), ProxyChoice::Unchanged));
    let direct = ProxyConfig { mode: ProxyMode::Direct, url: Some("http://x".to_string()) };
    assert!(matches!(proxy_choice(&direct, &none_set, &os), ProxyChoice::Direct));
    let custom = ProxyConfig { mode: ProxyMode::Custom, url: Some("http://c:2".to_string()) };
    assert!(matches!(proxy_choice(&custom, &one_set, &None), ProxyChoice::Via(u) if u == "http://c:2"));
    let custom_empty = ProxyConfig { mode: ProxyMode::Custom, url: Some(String::new()) };
    assert!(matches!(proxy_choice(&custom_empty, &none_set, &None), ProxyChoice::Unchanged));
    assert!(matches!(proxy_choice_for_url("http://localhost:8080", &custom, &none_set, &None), ProxyChoice::Direct));
    assert!(matches!(proxy_choice_for_url("https://example.com", &custom, &none_set, &None), ProxyChoice::Via(_)));
}

#[test]
fn provider_masked_api_key_keeps_utf8_boundaries() {
    let key = "密钥🔑abcdef".to_string();
    let masked = mask_api_key(&key);
    assert!(masked.contains("..."));
    assert_ne!(masked, key);
}

#[test]
fn types_masked_api_key_keeps_utf8_boundaries() {
    let key = "密钥🔑abcdef".to_string();
    let masked = mask_api_key(&key);
    assert!(masked.contains("..."));
    assert_ne!(masked, key);
}

#[test]
fn codex_provider_is_added_once() {
    let mut providers = Vec::new();
    let id = ensure_codex_provider(&mut providers, "agent/1.0");
    assert_eq!(id.len(), 36);
    assert_eq!(providers.len(), 1);
    let p = &providers[0];
    assert_eq!(p.id, id);
    assert_eq!(p.name, "ChatGPT (Codex)");
    assert_eq!(p.api_type, ApiType::Codex);
    assert_eq!(p.base_url, "https://chatgpt.com/backend-api/codex");
    assert_eq!(p.api_key, "");
    assert!(p.enabled);
    assert_eq!(p.user_agent, "agent/1.0");
    assert_eq!(p.models.len(), 8);
    assert_eq!(p.models[0].id, "gpt-5.4");
    let again = ensure_codex_provider(&mut providers, "agent/1.0");
    assert_eq!(again, id);
    assert_eq!(providers.len(), 1);
}

//! Proxy discovery: the macOS system proxy from `scutil --proxy` output, and the
//! proxy handed to the search container (with host loopback names rewritten).
use vstd::prelude::*;
use crate::memory::{replace_all, replace_str};
use crate::provider::ProxyMode;
use crate::text::{
    chars_of, contains, contains_str, eq_str, extend_chars, extend_str, lines, lines_exec, seqs_of,
    split_char, split_char_exec, starts_with, starts_with_exec, string_of, trim, trim_exec,
};

verus! {

// ───────────────────────────── scutil output ─────────────────────────────

/// Which `scutil` line is sought: 0 the `Enable` flag, 1 the host, 2 the port.
pub open spec fn scutil_line(l: Seq<char>, prefix: Seq<char>, kind: int) -> bool {
    if kind == 0 {
        starts_with(trim(l), prefix + "Enable"@)
    } else if kind == 1 {
        starts_with(trim(l), prefix + "Proxy"@) && !contains(l, "Enable"@) && !contains(l, "Port"@)
    } else {
        starts_with(trim(l), prefix + "Port"@)
    }
}

/// The first of the first `n` lines of that kind.
pub open spec fn first_scutil_line(ls: Seq<Seq<char>>, prefix: Seq<char>, kind: int, n: int) -> Option<
    Seq<char>,
>
    decreases n,
{
    if n <= 0 {
        None
    } else {
        match first_scutil_line(ls, prefix, kind, n - 1) {
            Some(l) => Some(l),
            None => if scutil_line(ls[n - 1], prefix, kind) {
                Some(ls[n - 1])
            } else {
                None
            },
        }
    }
}

/// The trimmed text after the first `:` of a line (up to a second `:`), if any.
pub open spec fn scutil_value(l: Seq<char>) -> Option<Seq<char>> {
    let parts = split_char(l, ':');
    if parts.len() > 1 {
        Some(trim(parts[1]))
    } else {
        None
    }
}

/// The value of the first line of that kind in the output.
pub open spec fn scutil_field(out: Seq<char>, prefix: Seq<char>, kind: int) -> Option<Seq<char>> {
    let ls = lines(out);
    match first_scutil_line(ls, prefix, kind, ls.len() as int) {
        Some(l) => scutil_value(l),
        None => None,
    }
}

/// The proxy of one protocol (`HTTPS` or `HTTP`) when it is enabled and has a
/// non-empty host and port: `http://host:port`.
pub open spec fn scutil_proxy_for(out: Seq<char>, prefix: Seq<char>) -> Option<Seq<char>> {
    let enabled = scutil_field(out, prefix, 0) == Some("1"@);
    let host = scutil_field(out, prefix, 1);
    let port = scutil_field(out, prefix, 2);
    match (host, port) {
        (Some(h), Some(p)) => if enabled && h.len() > 0 && p.len() > 0 {
            Some("http://"@ + h + ":"@ + p)
        } else {
            None
        },
        _ => None,
    }
}

/// The system proxy in `scutil --proxy` output: HTTPS preferred, then HTTP.
pub open spec fn scutil_proxy(out: Seq<char>) -> Option<Seq<char>> {
    match scutil_proxy_for(out, "HTTPS"@) {
        Some(u) => Some(u),
        None => scutil_proxy_for(out, "HTTP"@),
    }
}

proof fn lemma_first_stays(ls: Seq<Seq<char>>, prefix: Seq<char>, kind: int, a: int, b: int)
    requires
        0 <= a <= b,
        first_scutil_line(ls, prefix, kind, a) is Some,
    ensures
        first_scutil_line(ls, prefix, kind, b) == first_scutil_line(ls, prefix, kind, a),
    decreases b - a,
{
    if b > a {
        lemma_first_stays(ls, prefix, kind, a, b - 1);
    }
}

fn concat(a: &str, b: &str) -> (r: Vec<char>)
    ensures
        r@ == a@ + b@,
{
    let mut out: Vec<char> = Vec::new();
    extend_str(&mut out, a);
    extend_str(&mut out, b);
    out
}

fn scutil_field_exec(ls: &Vec<Vec<char>>, prefix: &str, kind: u8) -> (r: Option<Vec<char>>)
    requires
        kind <= 2,
    ensures
        match r {
            Some(v) => scutil_field_lines(seqs_of(ls@), prefix@, kind as int) == Some(v@),
            None => scutil_field_lines(seqs_of(ls@), prefix@, kind as int) is None,
        },
{
    let ghost all = seqs_of(ls@);
    let enable = concat(prefix, "Enable");
    let proxy = concat(prefix, "Proxy");
    let port = concat(prefix, "Port");
    let mut i: usize = 0;
    while i < ls.len()
        invariant
            i <= ls@.len(),
            kind <= 2,
            all == seqs_of(ls@),
            enable@ == prefix@ + "Enable"@,
            proxy@ == prefix@ + "Proxy"@,
            port@ == prefix@ + "Port"@,
            first_scutil_line(all, prefix@, kind as int, i as int) is None,
        decreases ls@.len() - i,
    {
        let l = ls[i].as_slice();
        assert(all[i as int] == l@);
        let t = trim_exec(l);
        let hit = if kind == 0 {
            starts_with_exec(t.as_slice(), enable.as_slice())
        } else if kind == 1 {
            starts_with_exec(t.as_slice(), proxy.as_slice()) && !contains_str(l, "Enable")
                && !contains_str(l, "Port")
        } else {
            starts_with_exec(t.as_slice(), port.as_slice())
        };
        if hit {
            assert(first_scutil_line(all, prefix@, kind as int, i + 1) == Some(l@));
            proof {
                lemma_first_stays(all, prefix@, kind as int, i + 1, all.len() as int);
            }
            let parts = split_char_exec(l, ':');
            assert(seqs_of(parts@).len() == parts@.len());
            if parts.len() > 1 {
                return Some(trim_exec(parts[1].as_slice()));
            } else {
                return None;
            }
        }
        i += 1;
    }
    None
}

/// `scutil_field` over the lines of the output.
pub open spec fn scutil_field_lines(ls: Seq<Seq<char>>, prefix: Seq<char>, kind: int) -> Option<Seq<char>> {
    match first_scutil_line(ls, prefix, kind, ls.len() as int) {
        Some(l) => scutil_value(l),
        None => None,
    }
}

fn scutil_proxy_for_exec(ls: &Vec<Vec<char>>, out: Ghost<Seq<char>>, prefix: &str) -> (r: Option<String>)
    requires
        seqs_of(ls@) == lines(out@),
    ensures
        r.deep_view() == scutil_proxy_for(out@, prefix@),
{
    let enabled = match scutil_field_exec(ls, prefix, 0) {
        Some(v) => eq_str(v.as_slice(), "1"),
        None => false,
    };
    if !enabled {
        return None;
    }
    let host = scutil_field_exec(ls, prefix, 1);
    let port = scutil_field_exec(ls, prefix, 2);
    match (host, port) {
        (Some(h), Some(p)) => {
            if h.len() > 0 && p.len() > 0 {
                let mut u: Vec<char> = Vec::new();
                extend_str(&mut u, "http://");
                extend_chars(&mut u, h.as_slice());
                extend_str(&mut u, ":");
                extend_chars(&mut u, p.as_slice());
                Some(string_of(u.as_slice()))
            } else {
                None
            }
        },
        _ => None,
    }
}

/// The system proxy in `scutil --proxy` output (see `scutil_proxy`).
pub fn parse_scutil_proxy(out: &str) -> (r: Option<String>)
    ensures
        r.deep_view() == scutil_proxy(out@),
{
    let c = chars_of(out);
    let ls = lines_exec(c.as_slice());
    match scutil_proxy_for_exec(&ls, Ghost(out@), "HTTPS") {
        Some(u) => Some(u),
        None => scutil_proxy_for_exec(&ls, Ghost(out@), "HTTP"),
    }
}

// ───────────────────────────── the search container's proxy ─────────────────────────────

/// A proxy address as seen from inside a container: `127.0.0.1`, then `localhost`,
/// replaced by `host.docker.internal`.
pub open spec fn container_address(u: Seq<char>) -> Seq<char> {
    replace_all(
        replace_all(u, "127.0.0.1"@, "host.docker.internal"@),
        "localhost"@,
        "host.docker.internal"@,
    )
}

/// The first set value among the first `n` proxy variables.
pub open spec fn first_set(vars: Seq<Option<Seq<char>>>, n: int) -> Option<Seq<char>>
    decreases n,
{
    if n <= 0 {
        None
    } else {
        match first_set(vars, n - 1) {
            Some(v) => Some(v),
            None => vars[n - 1],
        }
    }
}

/// The proxy for the search container: none when disabled or in direct mode;
/// the configured URL (when non-empty) in custom mode; in system mode the first
/// set proxy variable (`HTTPS_PROXY`, `HTTP_PROXY`, `ALL_PROXY` and their
/// lowercase forms) when non-empty, else the macOS system proxy. Loopback
/// addresses are rewritten for the container.
pub open spec fn container_proxy(
    use_proxy: bool,
    mode: ProxyMode,
    url: Option<Seq<char>>,
    env: Seq<Option<Seq<char>>>,
    system: Option<Seq<char>>,
) -> Option<Seq<char>> {
    if !use_proxy {
        None
    } else {
        let raw = match mode {
            ProxyMode::Custom => match url {
                Some(u) => if u.len() > 0 {
                    Some(u)
                } else {
                    None
                },
                None => None,
            },
            ProxyMode::System => match first_set(env, env.len() as int) {
                Some(v) => if v.len() > 0 {
                    Some(v)
                } else {
                    system
                },
                None => system,
            },
            ProxyMode::Direct => None,
        };
        match raw {
            Some(u) => Some(container_address(u)),
            None => None,
        }
    }
}

pub open spec fn opt_views(v: Seq<Option<String>>) -> Seq<Option<Seq<char>>> {
    Seq::new(v.len(), |i: int| v[i].deep_view())
}

/// The proxy for the search container (see `container_proxy`), given the
/// setting, the proxy variables in order (`HTTPS_PROXY`, `HTTP_PROXY`,
/// `ALL_PROXY`, `https_proxy`, `http_proxy`, `all_proxy`) and the macOS
/// system proxy when known.
pub fn resolve_proxy_for_container(
    use_proxy: bool,
    mode: ProxyMode,
    url: &Option<String>,
    env: &Vec<Option<String>>,
    system: &Option<String>,
) -> (r: Option<String>)
    ensures
        r.deep_view() == container_proxy(use_proxy, mode, url.deep_view(), opt_views(env@), system.deep_view()),
{
    if !use_proxy {
        return None;
    }
    let ghost ev = opt_views(env@);
    let raw: Option<Vec<char>> = match mode {
        ProxyMode::Custom => match url {
            Some(u) => {
                let c = chars_of(u.as_str());
                if c.len() > 0 {
                    Some(c)
                } else {
                    None
                }
            },
            None => None,
        },
        ProxyMode::System => {
            let mut found: Option<Vec<char>> = None;
            let mut i: usize = 0;
            while i < env.len()
                invariant
                    i <= env@.len(),
                    ev == opt_views(env@),
                    match found {
                        Some(v) => first_set(ev, i as int) == Some(v@),
                        None => first_set(ev, i as int) is None,
                    },
                decreases env@.len() - i,
            {
                if found.is_none() {
                    match &env[i] {
                        Some(v) => {
                            found = Some(chars_of(v.as_str()));
                        },
                        None => {},
                    }
                }
                i += 1;
            }
            match found {
                Some(v) => if v.len() > 0 {
                    Some(v)
                } else {
                    match system {
                        Some(s) => Some(chars_of(s.as_str())),
                        None => None,
                    }
                },
                None => match system {
                    Some(s) => Some(chars_of(s.as_str())),
                    None => None,
                },
            }
        },
        ProxyMode::Direct => None,
    };
    match raw {
        Some(u) => {
            proof {
                reveal_strlit("127.0.0.1");
                reveal_strlit("localhost");
            }
            let a = replace_str(u.as_slice(), "127.0.0.1", "host.docker.internal");
            let b = replace_str(a.as_slice(), "localhost", "host.docker.internal");
            Some(string_of(b.as_slice()))
        },
        None => None,
    }
}

// ───────────────────────────── loopback destinations ─────────────────────────────

/// The host of a URL as `url::Url::parse` and `Url::host` give it.
#[derive(Debug, Clone)]
pub enum UrlHost {
    /// The text does not parse as a URL.
    Invalid,
    /// The URL has no host.
    NoHost,
    /// A domain name (as serialized by the parser).
    Domain(String),
    /// An IPv4 address, by its four octets.
    Ipv4([u8; 4]),
    /// An IPv6 address, by its eight 16-bit segments.
    Ipv6([u16; 8]),
}

/// The contents of a `UrlHost`.
pub enum UrlHostView {
    Invalid,
    NoHost,
    Domain(Seq<char>),
    Ipv4([u8; 4]),
    Ipv6([u16; 8]),
}

impl View for UrlHost {
    type V = UrlHostView;

    open spec fn view(&self) -> UrlHostView {
        match self {
            UrlHost::Invalid => UrlHostView::Invalid,
            UrlHost::NoHost => UrlHostView::NoHost,
            UrlHost::Domain(d) => UrlHostView::Domain(d@),
            UrlHost::Ipv4(a) => UrlHostView::Ipv4(*a),
            UrlHost::Ipv6(a) => UrlHostView::Ipv6(*a),
        }
    }
}

/// The host that `url::Url::parse` finds in a URL (WHATWG URL parsing).
pub uninterp spec fn url_host(url: Seq<char>) -> UrlHostView;

/// `url::Url::parse(target)` followed by `Url::host()`: the result is named by
/// `url_host`; the URL grammar behind it stays unsaid here.
#[verifier::external_body]
fn parse_url_host(target: &str) -> (r: UrlHost)
    ensures
        r@ == url_host(target@),
{
    match url::Url::parse(target) {
        Ok(u) => match u.host() {
            Some(url::Host::Domain(d)) => UrlHost::Domain(d.to_string()),
            Some(url::Host::Ipv4(a)) => UrlHost::Ipv4(a.octets()),
            Some(url::Host::Ipv6(a)) => UrlHost::Ipv6(a.segments()),
            None => UrlHost::NoHost,
        },
        Err(_) => UrlHost::Invalid,
    }
}

/// ASCII letters lowercased; other characters unchanged.
pub open spec fn ascii_lower(c: char) -> char {
    if 'A' <= c && c <= 'Z' {
        ((c as u32) + 32) as char
    } else {
        c
    }
}

/// Equal up to ASCII case (`str::eq_ignore_ascii_case`).
pub open spec fn eq_ignore_ascii_case(a: Seq<char>, b: Seq<char>) -> bool {
    a.len() == b.len() && forall|i: int| 0 <= i < a.len() ==> ascii_lower(#[trigger] a[i]) == ascii_lower(b[i])
}

/// A loopback host: the domain `localhost` (any ASCII case), an IPv4 address in
/// 127.0.0.0/8, or the IPv6 address `::1`.
pub open spec fn loopback_host(h: UrlHostView) -> bool {
    match h {
        UrlHostView::Domain(d) => eq_ignore_ascii_case(d, "localhost"@),
        UrlHostView::Ipv4(o) => o[0] == 127,
        UrlHostView::Ipv6(s) => s[0] == 0 && s[1] == 0 && s[2] == 0 && s[3] == 0 && s[4] == 0 && s[5]
            == 0 && s[6] == 0 && s[7] == 1,
        _ => false,
    }
}

fn lower_ascii(c: char) -> (r: char)
    ensures
        r == ascii_lower(c),
{
    if 'A' <= c && c <= 'Z' {
        ((c as u8) + 32) as char
    } else {
        c
    }
}

/// Whether a parsed host is a loopback host (see `loopback_host`).
pub fn is_loopback_host(h: &UrlHost) -> (r: bool)
    ensures
        r == loopback_host(h@),
{
    match h {
        UrlHost::Domain(d) => {
            let a = chars_of(d.as_str());
            let b = chars_of("localhost");
            if a.len() != b.len() {
                return false;
            }
            let mut i: usize = 0;
            while i < a.len()
                invariant
                    i <= a@.len(),
                    a@.len() == b@.len(),
                    a@ == d@,
                    b@ == "localhost"@,
                    h@ == UrlHostView::Domain(d@),
                    forall|j: int| 0 <= j < i ==> ascii_lower(#[trigger] a@[j]) == ascii_lower(b@[j]),
                decreases a@.len() - i,
            {
                if lower_ascii(a[i]) != lower_ascii(b[i]) {
                    assert(!eq_ignore_ascii_case(a@, b@));
                    return false;
                }
                i += 1;
            }
            true
        },
        UrlHost::Ipv4(o) => o[0] == 127,
        UrlHost::Ipv6(s) => s[0] == 0 && s[1] == 0 && s[2] == 0 && s[3] == 0 && s[4] == 0 && s[5] == 0
            && s[6] == 0 && s[7] == 1,
        _ => false,
    }
}

/// Whether requests to `target_url` skip the proxy: its host is a loopback
/// host; text that does not parse as a URL keeps the proxy.
pub fn should_bypass_proxy(target_url: &str) -> (r: bool)
    ensures
        r == loopback_host(url_host(target_url@)),
{
    let h = parse_url_host(target_url);
    is_loopback_host(&h)
}

} // verus!

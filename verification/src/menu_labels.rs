//! Localized labels of the tray menu and the macOS application menu, and the
//! language code picked from an OS locale.
use vstd::prelude::*;
use crate::text::{chars_of, split_char, split_char_exec, starts_with, starts_with_str, str_eq, string_of, seqs_of, slice_of, lines, lines_exec, trim, trim_exec, is_ws, char_is_ws, has_char, has_char_exec};

verus! {

/// Labels of the tray menu.
pub struct TrayLabels {
    pub show_main: &'static str,
    pub quick_chat: &'static str,
    pub new_session: &'static str,
    pub settings: &'static str,
    pub quit: &'static str,
}

/// Labels of the macOS application menu.
pub struct MacosAppMenuLabels {
    pub about: &'static str,
    pub settings: &'static str,
    pub hide: &'static str,
}

/// Which label set a language code selects: 0 Simplified Chinese (`zh`,
/// `zh-CN`), 1 Traditional Chinese (`zh-TW`), then `ja`, `ko`, `es`, `pt`,
/// `ru`, `ar`, `tr`, `vi`, `ms`, and 11 English for anything else.
pub open spec fn label_set_of(lang: Seq<char>) -> int {
    if lang == "zh"@ || lang == "zh-CN"@ {
        0
    } else if lang == "zh-TW"@ {
        1
    } else if lang == "ja"@ {
        2
    } else if lang == "ko"@ {
        3
    } else if lang == "es"@ {
        4
    } else if lang == "pt"@ {
        5
    } else if lang == "ru"@ {
        6
    } else if lang == "ar"@ {
        7
    } else if lang == "tr"@ {
        8
    } else if lang == "vi"@ {
        9
    } else if lang == "ms"@ {
        10
    } else {
        11
    }
}

/// Tray labels by label set: show main window, quick chat, new session, settings, quit.
pub open spec fn tray_text(k: int) -> (Seq<char>, Seq<char>, Seq<char>, Seq<char>, Seq<char>) {
    if k == 0 {
        ("显示主窗口"@, "快捷对话"@, "新建对话"@, "设置"@, "退出 Hope Agent"@)
    } else if k == 1 {
        ("顯示主視窗"@, "快捷對話"@, "新建對話"@, "設定"@, "退出 Hope Agent"@)
    } else if k == 2 {
        ("メインウィンドウを表示"@, "クイックチャット"@, "新しいセッション"@, "設定"@, "Hope Agent を終了"@)
    } else if k == 3 {
        ("메인 창 표시"@, "빠른 채팅"@, "새 세션"@, "설정"@, "Hope Agent 종료"@)
    } else if k == 4 {
        ("Mostrar ventana principal"@, "Chat rápido"@, "Nueva sesión"@, "Configuración"@, "Salir de Hope Agent"@)
    } else if k == 5 {
        ("Mostrar janela principal"@, "Chat rápido"@, "Nova sessão"@, "Configurações"@, "Sair do Hope Agent"@)
    } else if k == 6 {
        ("Показать главное окно"@, "Быстрый чат"@, "Новый сеанс"@, "Настройки"@, "Выход из Hope Agent"@)
    } else if k == 7 {
        ("إظهار النافذة الرئيسية"@, "محادثة سريعة"@, "جلسة جديدة"@, "الإعدادات"@, "إنهاء Hope Agent"@)
    } else if k == 8 {
        ("Ana pencereyi göster"@, "Hızlı sohbet"@, "Yeni oturum"@, "Ayarlar"@, "Hope Agent'dan çık"@)
    } else if k == 9 {
        ("Hiển thị cửa sổ chính"@, "Trò chuyện nhanh"@, "Phiên mới"@, "Cài đặt"@, "Thoát Hope Agent"@)
    } else if k == 10 {
        ("Tunjukkan tetingkap utama"@, "Sembang pantas"@, "Sesi baharu"@, "Tetapan"@, "Keluar Hope Agent"@)
    } else {
        ("Show Main Window"@, "Quick Chat"@, "New Session"@, "Settings"@, "Quit Hope Agent"@)
    }
}

/// Application menu labels by label set: about, settings, hide.
pub open spec fn app_menu_text(k: int) -> (Seq<char>, Seq<char>, Seq<char>) {
    if k == 0 {
        ("关于 Hope Agent"@, "设置..."@, "隐藏 Hope Agent"@)
    } else if k == 1 {
        ("關於 Hope Agent"@, "設定..."@, "隱藏 Hope Agent"@)
    } else if k == 2 {
        ("Hope Agent について"@, "設定..."@, "Hope Agent を非表示"@)
    } else if k == 3 {
        ("Hope Agent 정보"@, "설정..."@, "Hope Agent 숨기기"@)
    } else if k == 4 {
        ("Acerca de Hope Agent"@, "Configuración..."@, "Ocultar Hope Agent"@)
    } else if k == 5 {
        ("Sobre o Hope Agent"@, "Configurações..."@, "Ocultar Hope Agent"@)
    } else if k == 6 {
        ("О Hope Agent"@, "Настройки..."@, "Скрыть Hope Agent"@)
    } else if k == 7 {
        ("حول Hope Agent"@, "الإعدادات..."@, "إخفاء Hope Agent"@)
    } else if k == 8 {
        ("Hope Agent Hakkında"@, "Ayarlar..."@, "Hope Agent'ı Gizle"@)
    } else if k == 9 {
        ("Giới thiệu Hope Agent"@, "Cài đặt..."@, "Ẩn Hope Agent"@)
    } else if k == 10 {
        ("Perihal Hope Agent"@, "Tetapan..."@, "Sembunyikan Hope Agent"@)
    } else {
        ("About Hope Agent"@, "Settings..."@, "Hide Hope Agent"@)
    }
}

/// The tray menu labels for a language code (see `label_set_of`).
pub fn tray_labels(lang: &str) -> (r: TrayLabels)
    ensures
        r.show_main@ == tray_text(label_set_of(lang@)).0,
        r.quick_chat@ == tray_text(label_set_of(lang@)).1,
        r.new_session@ == tray_text(label_set_of(lang@)).2,
        r.settings@ == tray_text(label_set_of(lang@)).3,
        r.quit@ == tray_text(label_set_of(lang@)).4,
{
    if str_eq(lang, "zh") || str_eq(lang, "zh-CN") {
        TrayLabels { show_main: "显示主窗口", quick_chat: "快捷对话", new_session: "新建对话", settings: "设置", quit: "退出 Hope Agent" }
    } else if str_eq(lang, "zh-TW") {
        TrayLabels { show_main: "顯示主視窗", quick_chat: "快捷對話", new_session: "新建對話", settings: "設定", quit: "退出 Hope Agent" }
    } else if str_eq(lang, "ja") {
        TrayLabels { show_main: "メインウィンドウを表示", quick_chat: "クイックチャット", new_session: "新しいセッション", settings: "設定", quit: "Hope Agent を終了" }
    } else if str_eq(lang, "ko") {
        TrayLabels { show_main: "메인 창 표시", quick_chat: "빠른 채팅", new_session: "새 세션", settings: "설정", quit: "Hope Agent 종료" }
    } else if str_eq(lang, "es") {
        TrayLabels { show_main: "Mostrar ventana principal", quick_chat: "Chat rápido", new_session: "Nueva sesión", settings: "Configuración", quit: "Salir de Hope Agent" }
    } else if str_eq(lang, "pt") {
        TrayLabels { show_main: "Mostrar janela principal", quick_chat: "Chat rápido", new_session: "Nova sessão", settings: "Configurações", quit: "Sair do Hope Agent" }
    } else if str_eq(lang, "ru") {
        TrayLabels { show_main: "Показать главное окно", quick_chat: "Быстрый чат", new_session: "Новый сеанс", settings: "Настройки", quit: "Выход из Hope Agent" }
    } else if str_eq(lang, "ar") {
        TrayLabels { show_main: "إظهار النافذة الرئيسية", quick_chat: "محادثة سريعة", new_session: "جلسة جديدة", settings: "الإعدادات", quit: "إنهاء Hope Agent" }
    } else if str_eq(lang, "tr") {
        TrayLabels { show_main: "Ana pencereyi göster", quick_chat: "Hızlı sohbet", new_session: "Yeni oturum", settings: "Ayarlar", quit: "Hope Agent'dan çık" }
    } else if str_eq(lang, "vi") {
        TrayLabels { show_main: "Hiển thị cửa sổ chính", quick_chat: "Trò chuyện nhanh", new_session: "Phiên mới", settings: "Cài đặt", quit: "Thoát Hope Agent" }
    } else if str_eq(lang, "ms") {
        TrayLabels { show_main: "Tunjukkan tetingkap utama", quick_chat: "Sembang pantas", new_session: "Sesi baharu", settings: "Tetapan", quit: "Keluar Hope Agent" }
    } else {
        TrayLabels { show_main: "Show Main Window", quick_chat: "Quick Chat", new_session: "New Session", settings: "Settings", quit: "Quit Hope Agent" }
    }
}

/// The macOS application menu labels for a language code (see `label_set_of`).
pub fn macos_app_menu_labels(lang: &str) -> (r: MacosAppMenuLabels)
    ensures
        r.about@ == app_menu_text(label_set_of(lang@)).0,
        r.settings@ == app_menu_text(label_set_of(lang@)).1,
        r.hide@ == app_menu_text(label_set_of(lang@)).2,
{
    if str_eq(lang, "zh") || str_eq(lang, "zh-CN") {
        MacosAppMenuLabels { about: "关于 Hope Agent", settings: "设置...", hide: "隐藏 Hope Agent" }
    } else if str_eq(lang, "zh-TW") {
        MacosAppMenuLabels { about: "關於 Hope Agent", settings: "設定...", hide: "隱藏 Hope Agent" }
    } else if str_eq(lang, "ja") {
        MacosAppMenuLabels { about: "Hope Agent について", settings: "設定...", hide: "Hope Agent を非表示" }
    } else if str_eq(lang, "ko") {
        MacosAppMenuLabels { about: "Hope Agent 정보", settings: "설정...", hide: "Hope Agent 숨기기" }
    } else if str_eq(lang, "es") {
        MacosAppMenuLabels { about: "Acerca de Hope Agent", settings: "Configuración...", hide: "Ocultar Hope Agent" }
    } else if str_eq(lang, "pt") {
        MacosAppMenuLabels { about: "Sobre o Hope Agent", settings: "Configurações...", hide: "Ocultar Hope Agent" }
    } else if str_eq(lang, "ru") {
        MacosAppMenuLabels { about: "О Hope Agent", settings: "Настройки...", hide: "Скрыть Hope Agent" }
    } else if str_eq(lang, "ar") {
        MacosAppMenuLabels { about: "حول Hope Agent", settings: "الإعدادات...", hide: "إخفاء Hope Agent" }
    } else if str_eq(lang, "tr") {
        MacosAppMenuLabels { about: "Hope Agent Hakkında", settings: "Ayarlar...", hide: "Hope Agent'ı Gizle" }
    } else if str_eq(lang, "vi") {
        MacosAppMenuLabels { about: "Giới thiệu Hope Agent", settings: "Cài đặt...", hide: "Ẩn Hope Agent" }
    } else if str_eq(lang, "ms") {
        MacosAppMenuLabels { about: "Perihal Hope Agent", settings: "Tetapan...", hide: "Sembunyikan Hope Agent" }
    } else {
        MacosAppMenuLabels { about: "About Hope Agent", settings: "Settings...", hide: "Hide Hope Agent" }
    }
}

// ───────────────────────────── language from the OS locale ─────────────────────────────

/// `_` written as `-`.
pub open spec fn dashes(s: Seq<char>) -> Seq<char> {
    Seq::new(s.len(), |i: int| if s[i] == '_' { '-' } else { s[i] })
}

/// The supported language code for an OS locale such as `zh_CN.UTF-8` or `pt-BR`:
/// the part before the first `.`, with `_` read as `-`, matched by prefix;
/// `en` when none matches.
pub open spec fn language_code(sys: Seq<char>) -> Seq<char> {
    let p = dashes(split_char(sys, '.')[0]);
    if starts_with(p, "zh-TW"@) || starts_with(p, "zh-Hant"@) || p == "zh-HK"@ {
        "zh-TW"@
    } else if starts_with(p, "zh"@) {
        "zh"@
    } else if starts_with(p, "ja"@) {
        "ja"@
    } else if starts_with(p, "ko"@) {
        "ko"@
    } else if starts_with(p, "es"@) {
        "es"@
    } else if starts_with(p, "pt"@) {
        "pt"@
    } else if starts_with(p, "ru"@) {
        "ru"@
    } else if starts_with(p, "ar"@) {
        "ar"@
    } else if starts_with(p, "tr"@) {
        "tr"@
    } else if starts_with(p, "vi"@) {
        "vi"@
    } else if starts_with(p, "ms"@) {
        "ms"@
    } else {
        "en"@
    }
}

fn dashes_exec(s: &[char]) -> (r: Vec<char>)
    ensures
        r@ == dashes(s@),
{
    let mut out: Vec<char> = Vec::new();
    let mut i: usize = 0;
    while i < s.len()
        invariant
            i <= s@.len(),
            out@ == dashes(s@).take(i as int),
        decreases s@.len() - i,
    {
        let c = if s[i] == '_' {
            '-'
        } else {
            s[i]
        };
        out.push(c);
        assert(out@ =~= dashes(s@).take(i + 1));
        i += 1;
    }
    assert(dashes(s@).take(s@.len() as int) =~= dashes(s@));
    out
}

proof fn lemma_split_nonempty(s: Seq<char>, c: char)
    ensures
        split_char(s, c).len() > 0,
    decreases s.len(),
{
    crate::text::lemma_first_index_bound(s, c);
}

/// The supported language code for an OS locale (see `language_code`).
pub fn language_from_locale(sys: &str) -> (r: String)
    ensures
        r@ == language_code(sys@),
{
    let c = chars_of(sys);
    let parts = split_char_exec(c.as_slice(), '.');
    proof {
        lemma_split_nonempty(c@, '.');
    }
    assert(seqs_of(parts@).len() == parts@.len());
    let p = dashes_exec(parts[0].as_slice());
    assert(p@ == dashes(split_char(sys@, '.')[0]));
    let ps = p.as_slice();
    let code = if starts_with_str(ps, "zh-TW") || starts_with_str(ps, "zh-Hant") || crate::text::eq_str(
        ps,
        "zh-HK",
    ) {
        "zh-TW"
    } else if starts_with_str(ps, "zh") {
        "zh"
    } else if starts_with_str(ps, "ja") {
        "ja"
    } else if starts_with_str(ps, "ko") {
        "ko"
    } else if starts_with_str(ps, "es") {
        "es"
    } else if starts_with_str(ps, "pt") {
        "pt"
    } else if starts_with_str(ps, "ru") {
        "ru"
    } else if starts_with_str(ps, "ar") {
        "ar"
    } else if starts_with_str(ps, "tr") {
        "tr"
    } else if starts_with_str(ps, "vi") {
        "vi"
    } else if starts_with_str(ps, "ms") {
        "ms"
    } else {
        "en"
    };
    string_of(chars_of(code).as_slice())
}

/// Characters stripped around a language entry of the `AppleLanguages` list.
pub open spec fn list_noise(c: char) -> bool {
    c == '"' || c == ',' || is_ws(c)
}

/// Leading noise characters.
pub open spec fn lead_noise(s: Seq<char>) -> nat
    decreases s.len(),
{
    if s.len() > 0 && list_noise(s[0]) {
        1 + lead_noise(s.skip(1))
    } else {
        0
    }
}

/// Trailing noise characters.
pub open spec fn trail_noise(s: Seq<char>) -> nat
    decreases s.len(),
{
    if s.len() > 0 && list_noise(s.last()) {
        1 + trail_noise(s.drop_last())
    } else {
        0
    }
}

/// `s` with quotes, commas and whitespace removed at both ends.
pub open spec fn strip_noise(s: Seq<char>) -> Seq<char> {
    let a = s.skip(lead_noise(s) as int);
    a.take(a.len() - trail_noise(a))
}

/// A line of `defaults read NSGlobalDomain AppleLanguages` output naming a
/// language: a quoted entry, or a non-blank line outside the list brackets.
pub open spec fn is_language_line(l: Seq<char>) -> bool {
    starts_with(trim(l), "\""@) || (trim(l).len() > 0 && !has_char(l, '(') && !has_char(l, ')'))
}

/// The first language line among the first `n` lines, if any.
pub open spec fn first_language_line(ls: Seq<Seq<char>>, n: int) -> Option<Seq<char>>
    decreases n,
{
    if n <= 0 {
        None
    } else {
        match first_language_line(ls, n - 1) {
            Some(l) => Some(l),
            None => if is_language_line(ls[n - 1]) {
                Some(ls[n - 1])
            } else {
                None
            },
        }
    }
}

/// The preferred language in the output of `defaults read NSGlobalDomain
/// AppleLanguages`: the first language line, trimmed and unquoted.
pub open spec fn preferred_language(out: Seq<char>) -> Option<Seq<char>> {
    let ls = lines(out);
    match first_language_line(ls, ls.len() as int) {
        Some(l) => Some(strip_noise(trim(l))),
        None => None,
    }
}

proof fn lemma_lead_noise(s: Seq<char>, k: int)
    requires
        0 <= k <= s.len(),
        forall|j: int| 0 <= j < k ==> list_noise(#[trigger] s[j]),
        k == s.len() || !list_noise(s[k]),
    ensures
        lead_noise(s) == k,
    decreases k,
{
    if k > 0 {
        assert forall|j: int| 0 <= j < k - 1 implies list_noise(#[trigger] s.skip(1)[j]) by {
            assert(s.skip(1)[j] == s[j + 1]);
        }
        if k < s.len() {
            assert(s.skip(1)[k - 1] == s[k]);
        }
        lemma_lead_noise(s.skip(1), k - 1);
    }
}

proof fn lemma_trail_noise(s: Seq<char>, k: int)
    requires
        0 <= k <= s.len(),
        forall|j: int| s.len() - k <= j < s.len() ==> list_noise(#[trigger] s[j]),
        k == s.len() || !list_noise(s[s.len() - 1 - k]),
    ensures
        trail_noise(s) == k,
    decreases k,
{
    if k > 0 {
        let d = s.drop_last();
        assert forall|j: int| d.len() - (k - 1) <= j < d.len() implies list_noise(#[trigger] d[j]) by {
            assert(d[j] == s[j]);
        }
        if k < s.len() {
            assert(d[d.len() - 1 - (k - 1)] == s[s.len() - 1 - k]);
        }
        lemma_trail_noise(d, k - 1);
    }
}

fn is_noise(c: char) -> (r: bool)
    ensures
        r == list_noise(c),
{
    c == '"' || c == ',' || char_is_ws(c)
}

fn strip_noise_exec(s: &[char]) -> (r: Vec<char>)
    ensures
        r@ == strip_noise(s@),
{
    let mut a: usize = 0;
    while a < s.len() && is_noise(s[a])
        invariant
            a <= s@.len(),
            forall|j: int| 0 <= j < a ==> list_noise(#[trigger] s@[j]),
        decreases s@.len() - a,
    {
        a += 1;
    }
    proof {
        lemma_lead_noise(s@, a as int);
    }
    let rest = slice_of(s, a, s.len());
    assert(rest@ =~= s@.skip(a as int));
    let mut k: usize = 0;
    while k < rest.len() && is_noise(rest[rest.len() - 1 - k])
        invariant
            k <= rest@.len(),
            forall|j: int| rest@.len() - k <= j < rest@.len() ==> list_noise(#[trigger] rest@[j]),
        decreases rest@.len() - k,
    {
        k += 1;
    }
    proof {
        lemma_trail_noise(rest@, k as int);
    }
    let out = slice_of(rest.as_slice(), 0, rest.len() - k);
    assert(out@ =~= rest@.take(rest@.len() - k));
    out
}

/// The preferred language in `defaults` output (see `preferred_language`).
pub fn parse_preferred_language(out: &str) -> (r: Option<String>)
    ensures
        r.deep_view() == preferred_language(out@),
{
    let c = chars_of(out);
    let ls = lines_exec(c.as_slice());
    let ghost all = seqs_of(ls@);
    let mut i: usize = 0;
    while i < ls.len()
        invariant
            i <= ls@.len(),
            all == seqs_of(ls@),
            all == lines(out@),
            first_language_line(all, i as int) is None,
        decreases ls@.len() - i,
    {
        let l = ls[i].as_slice();
        let t = trim_exec(l);
        assert(all[i as int] == l@);
        let hit = starts_with_str(t.as_slice(), "\"") || (t.len() > 0 && !has_char_exec(l, '(')
            && !has_char_exec(l, ')'));
        if hit {
            assert(first_language_line(all, i + 1) == Some(l@));
            proof {
                lemma_first_line_stays(all, i + 1, ls@.len() as int);
            }
            let s = strip_noise_exec(t.as_slice());
            return Some(string_of(s.as_slice()));
        }
        i += 1;
    }
    None
}

proof fn lemma_first_line_stays(ls: Seq<Seq<char>>, a: int, b: int)
    requires
        0 <= a <= b,
        first_language_line(ls, a) is Some,
    ensures
        first_language_line(ls, b) == first_language_line(ls, a),
    decreases b - a,
{
    if b > a {
        lemma_first_line_stays(ls, a, b - 1);
    }
}

/// The effective language: the stored setting unless it is `auto`; otherwise the
/// OS preference (from `defaults` output, else the `LANG` variable, else `en`)
/// reduced to a supported code.
pub open spec fn effective_language(
    stored: Seq<char>,
    defaults_out: Option<Seq<char>>,
    lang_env: Option<Seq<char>>,
) -> Seq<char> {
    if stored != "auto"@ {
        stored
    } else {
        let from_defaults = match defaults_out {
            Some(o) => preferred_language(o),
            None => None,
        };
        let sys = match from_defaults {
            Some(l) => l,
            None => match lang_env {
                Some(e) => e,
                None => "en"@,
            },
        };
        language_code(sys)
    }
}

/// The effective language (see `effective_language`), given the stored setting,
/// the output of `defaults read NSGlobalDomain AppleLanguages` when it ran, and
/// the `LANG` variable when set.
pub fn resolve_language_from(
    stored: &str,
    defaults_out: &Option<String>,
    lang_env: &Option<String>,
) -> (r: String)
    ensures
        r@ == effective_language(stored@, defaults_out.deep_view(), lang_env.deep_view()),
{
    if !str_eq(stored, "auto") {
        return string_of(chars_of(stored).as_slice());
    }
    let from_defaults = match defaults_out {
        Some(o) => parse_preferred_language(o.as_str()),
        None => None,
    };
    let sys = match from_defaults {
        Some(l) => l,
        None => match lang_env {
            Some(e) => string_of(chars_of(e.as_str()).as_slice()),
            None => string_of(chars_of("en").as_slice()),
        },
    };
    language_from_locale(sys.as_str())
}

} // verus!

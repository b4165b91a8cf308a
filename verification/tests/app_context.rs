use handy::app_context::{
    capture, char_before_caret, describe, extract_domain, find_site, friendly_app_name, is_browser,
    last_context, wait_deadline, AppContext, CaptureState, ForegroundWindow, CAPTURE_WAIT, CONTEXT_TTL,
};

fn window(stem: Option<&str>, url: Option<&str>) -> ForegroundWindow {
    ForegroundWindow {
        hwnd: 7,
        title: "Inbox".to_string(),
        pid: 42,
        exe_stem: stem.map(str::to_string),
        url: url.map(str::to_string),
    }
}

fn named(app_name: &str) -> AppContext {
    AppContext { app_name: app_name.to_string(), ..AppContext::default() }
}

#[test]
fn extract_domain_handles_common_forms() {
    assert_eq!(
        extract_domain("https://mail.google.com/mail/u/0/#inbox"),
        Some("mail.google.com".to_string())
    );
    assert_eq!(
        extract_domain("http://www.reddit.com/r/rust"),
        Some("reddit.com".to_string())
    );
    assert_eq!(
        extract_domain("discord.com/channels/123"),
        Some("discord.com".to_string())
    );
    assert_eq!(
        extract_domain("https://user@example.com:8080/path"),
        Some("example.com".to_string())
    );
    assert_eq!(extract_domain(""), None);
    assert_eq!(extract_domain("New Tab"), None);
    assert_eq!(extract_domain("localhost"), None);
}

#[test]
fn extract_domain_handles_odd_forms() {
    assert_eq!(extract_domain("  HTTPS://WWW.Example.COM "), Some("example.com".to_string()));
    assert_eq!(extract_domain("https://wWw.Example.com/"), Some("example.com".to_string()));
    assert_eq!(extract_domain("wwwx.example.com"), Some("wwwx.example.com".to_string()));
    assert_eq!(extract_domain("www.example.com?q=1"), Some("example.com".to_string()));
    assert_eq!(extract_domain("https://a@b@c.d#x"), Some("c.d".to_string()));
    assert_eq!(extract_domain("https://www./"), None);
    assert_eq!(extract_domain("https://"), None);
    assert_eq!(extract_domain("my site.com"), None);
    assert_eq!(extract_domain("https://x.y/http://z.w"), Some("x.y".to_string()));
    assert_eq!(
        extract_domain("example.com/?next=https://evil.org/"),
        Some("example.com".to_string())
    );
    assert_eq!(extract_domain("example.com#a://b.c"), Some("example.com".to_string()));
    assert_eq!(extract_domain("https://ÄÖ.de"), Some("äö.de".to_string()));
}

#[test]
fn friendly_names_cover_browsers() {
    assert_eq!(friendly_app_name("vivaldi"), Some("Vivaldi (web browser)"));
    assert_eq!(friendly_app_name("unknown_app"), None);
}

#[test]
fn friendly_names_cover_the_known_applications() {
    let names = [
        ("chrome", "Google Chrome (web browser)"),
        ("msedge", "Microsoft Edge (web browser)"),
        ("firefox", "Firefox (web browser)"),
        ("brave", "Brave (web browser)"),
        ("opera", "Opera (web browser)"),
        ("opera_gx", "Opera (web browser)"),
        ("discord", "Discord"),
        ("slack", "Slack"),
        ("code", "Visual Studio Code"),
        ("cursor", "Cursor"),
        ("windowsterminal", "Windows Terminal"),
        ("wt", "Windows Terminal"),
        ("notepad", "Notepad"),
        ("obsidian", "Obsidian"),
        ("outlook", "Microsoft Outlook"),
        ("olk", "Microsoft Outlook"),
        ("thunderbird", "Thunderbird"),
        ("teams", "Microsoft Teams"),
        ("ms-teams", "Microsoft Teams"),
        ("telegram", "Telegram"),
        ("whatsapp", "WhatsApp"),
        ("signal", "Signal"),
        ("winword", "Microsoft Word"),
        ("excel", "Microsoft Excel"),
        ("powerpnt", "Microsoft PowerPoint"),
        ("onenote", "Microsoft OneNote"),
        ("explorer", "File Explorer"),
    ];
    for (stem, name) in names {
        assert_eq!(friendly_app_name(stem), Some(name));
    }
    assert_eq!(friendly_app_name("Chrome"), None);
}

#[test]
fn browsers_are_known_by_their_stem() {
    for stem in [
        "vivaldi", "chrome", "msedge", "firefox", "brave", "opera", "opera_gx", "arc", "zen",
        "librewolf", "thorium", "chromium", "waterfox", "iron",
    ] {
        assert!(is_browser(stem));
    }
    assert!(!is_browser("discord"));
    assert!(!is_browser(""));
}

#[test]
fn a_browser_is_captured_with_its_site() {
    let ctx = capture(Some(window(Some("Vivaldi"), Some("https://www.notion.so/x")))).unwrap();
    assert_eq!(ctx.app_name, "Vivaldi (web browser)");
    assert_eq!(ctx.process_name, "vivaldi");
    assert_eq!(ctx.domain.as_deref(), Some("notion.so"));
    assert_eq!(ctx.window_title, "Inbox");
    assert_eq!(ctx.hwnd, 7);
}

#[test]
fn other_applications_have_no_site() {
    let ctx = capture(Some(window(Some("MyTool"), Some("https://notion.so")))).unwrap();
    assert_eq!(ctx.app_name, "mytool");
    assert_eq!(ctx.domain, None);
}

#[test]
fn nothing_is_captured_without_an_owner() {
    assert!(capture(None).is_none());
    assert!(capture(Some(window(None, None))).is_none());
    assert!(capture(Some(window(Some(""), None))).is_none());
    let mut orphan = window(Some("code"), None);
    orphan.pid = 0;
    assert!(capture(Some(orphan)).is_none());
}

#[test]
fn the_character_before_the_caret_is_the_first_one_read() {
    assert_eq!(char_before_caret(-1, Some("é.")), Some('é'));
    assert_eq!(char_before_caret(-1, Some("")), None);
    assert_eq!(char_before_caret(-1, None), None);
}

#[test]
fn nothing_stands_before_a_caret_at_the_start() {
    assert_eq!(char_before_caret(0, Some("Hello")), None);
    assert_eq!(char_before_caret(0, None), None);
}

#[test]
fn the_later_capture_wins() {
    let mut state = CaptureState::new();
    let start = state.begin_capture();
    let stop = state.begin_capture();
    assert!(stop > start);
    state.finish_capture(start, Some(named("start")), 10);
    state.finish_capture(stop, Some(named("stop")), 20);
    assert_eq!(state.pending, 0);
    assert_eq!(last_context(&state, 30).unwrap().app_name, "stop");
}

#[test]
fn the_capture_begun_last_wins_even_if_it_ends_first() {
    let mut state = CaptureState::new();
    let start = state.begin_capture();
    let stop = state.begin_capture();
    state.finish_capture(stop, Some(named("stop")), 10);
    state.finish_capture(start, Some(named("start")), 20);
    assert_eq!(state.pending, 0);
    assert_eq!(last_context(&state, 30).unwrap().app_name, "stop");
    let next = state.begin_capture();
    state.finish_capture(next, Some(named("next")), 40);
    assert_eq!(last_context(&state, 50).unwrap().app_name, "next");
}

#[test]
fn a_failed_capture_keeps_the_previous_one() {
    let mut state = CaptureState::new();
    let start = state.begin_capture();
    state.finish_capture(start, Some(named("start")), 10);
    let stop = state.begin_capture();
    state.finish_capture(stop, None, 20);
    assert_eq!(last_context(&state, 30).unwrap().app_name, "start");
    state.finish_capture(stop, None, 25);
    assert_eq!(state.pending, 0);
}

#[test]
fn stale_captures_are_not_read() {
    let mut state = CaptureState::new();
    assert!(last_context(&state, 0).is_none());
    let number = state.begin_capture();
    state.finish_capture(number, Some(named("old")), 5);
    assert!(last_context(&state, 5 + CONTEXT_TTL - 1).is_some());
    assert!(last_context(&state, 5 + CONTEXT_TTL).is_none());
    assert!(last_context(&state, 0).is_some());
}

#[test]
fn readers_wait_for_captures_in_flight_until_the_deadline() {
    let mut state = CaptureState::new();
    let deadline = wait_deadline(1_000);
    assert_eq!(deadline, 1_000 + CAPTURE_WAIT);
    assert_eq!(state.remaining_wait(1_000, deadline), None);
    state.begin_capture();
    assert_eq!(state.remaining_wait(1_000, deadline), Some(CAPTURE_WAIT));
    assert_eq!(state.remaining_wait(deadline - 1, deadline), Some(1));
    assert_eq!(state.remaining_wait(deadline, deadline), None);
}

#[test]
fn the_focus_goes_back_to_the_captured_window() {
    let mut state = CaptureState::new();
    assert_eq!(state.last_target(), None);
    let number = state.begin_capture();
    state.finish_capture(number, Some(AppContext { hwnd: 99, ..named("code") }), 1);
    assert_eq!(state.last_target(), Some(99));
}

#[test]
fn sites_keep_their_case() {
    assert_eq!(find_site(" https://www.Example.com/x "), Some("Example.com".to_string()));
    assert_eq!(find_site("Example"), None);
}

#[test]
fn windows_are_described_by_process_and_page() {
    let page = || Some("notion.so".to_string());
    let ctx = describe(window(None, None), "arc".to_string(), page()).unwrap();
    assert_eq!(ctx.app_name, "arc");
    assert_eq!(ctx.domain, page());
    let ctx = describe(window(None, None), "slack".to_string(), page()).unwrap();
    assert_eq!(ctx.app_name, "Slack");
    assert_eq!(ctx.domain, None);
    assert!(describe(window(None, None), String::new(), None).is_none());
}

//! The foreground application, and for browsers the website, that a dictation
//! goes to.

use crate::text;
use vstd::prelude::*;
use vstd::slice::slice_subrange;

verus! {

/// Where a dictation goes.
#[derive(Debug)]
pub struct AppContext {
    /// Friendly application name (for example "Discord"), or the executable stem.
    pub app_name: String,
    /// Title of the foreground window at capture time.
    pub window_title: String,
    /// Website domain (for example "mail.google.com") when the foreground
    /// application is a known browser and its address could be read.
    pub domain: Option<String>,
    /// Lowercased executable stem (for example "vivaldi").
    pub process_name: String,
    /// Handle of the foreground window, to hand the focus back to.
    pub hwnd: isize,
}

impl Clone for AppContext {
    fn clone(&self) -> (r: Self)
        ensures
            r == *self,
    {
        AppContext {
            app_name: self.app_name.clone(),
            window_title: self.window_title.clone(),
            domain: match &self.domain {
                Some(d) => Some(d.clone()),
                None => None,
            },
            process_name: self.process_name.clone(),
            hwnd: self.hwnd,
        }
    }
}

impl Default for AppContext {
    fn default() -> (r: Self)
        ensures
            r.app_name@.len() == 0,
            r.window_title@.len() == 0,
            r.domain is None,
            r.process_name@.len() == 0,
            r.hwnd == 0,
    {
        AppContext {
            app_name: String::new(),
            window_title: String::new(),
            domain: None,
            process_name: String::new(),
            hwnd: 0,
        }
    }
}

/// The friendly name of a well-known executable stem.
pub open spec fn friendly_name(p: Seq<char>) -> Option<Seq<char>> {
    if p == "vivaldi"@ {
        Some("Vivaldi (web browser)"@)
    } else if p == "chrome"@ {
        Some("Google Chrome (web browser)"@)
    } else if p == "msedge"@ {
        Some("Microsoft Edge (web browser)"@)
    } else if p == "firefox"@ {
        Some("Firefox (web browser)"@)
    } else if p == "brave"@ {
        Some("Brave (web browser)"@)
    } else if p == "opera"@ || p == "opera_gx"@ {
        Some("Opera (web browser)"@)
    } else if p == "discord"@ {
        Some("Discord"@)
    } else if p == "slack"@ {
        Some("Slack"@)
    } else if p == "code"@ {
        Some("Visual Studio Code"@)
    } else if p == "cursor"@ {
        Some("Cursor"@)
    } else if p == "windowsterminal"@ || p == "wt"@ {
        Some("Windows Terminal"@)
    } else if p == "notepad"@ {
        Some("Notepad"@)
    } else if p == "obsidian"@ {
        Some("Obsidian"@)
    } else if p == "outlook"@ || p == "olk"@ {
        Some("Microsoft Outlook"@)
    } else if p == "thunderbird"@ {
        Some("Thunderbird"@)
    } else if p == "teams"@ || p == "ms-teams"@ {
        Some("Microsoft Teams"@)
    } else if p == "telegram"@ {
        Some("Telegram"@)
    } else if p == "whatsapp"@ {
        Some("WhatsApp"@)
    } else if p == "signal"@ {
        Some("Signal"@)
    } else if p == "winword"@ {
        Some("Microsoft Word"@)
    } else if p == "excel"@ {
        Some("Microsoft Excel"@)
    } else if p == "powerpnt"@ {
        Some("Microsoft PowerPoint"@)
    } else if p == "onenote"@ {
        Some("Microsoft OneNote"@)
    } else if p == "explorer"@ {
        Some("File Explorer"@)
    } else {
        None
    }
}

/// Whether an executable stem is that of a browser whose address can be read.
pub open spec fn browser(p: Seq<char>) -> bool {
    ||| p == "vivaldi"@
    ||| p == "chrome"@
    ||| p == "msedge"@
    ||| p == "firefox"@
    ||| p == "brave"@
    ||| p == "opera"@
    ||| p == "opera_gx"@
    ||| p == "arc"@
    ||| p == "zen"@
    ||| p == "librewolf"@
    ||| p == "thorium"@
    ||| p == "chromium"@
    ||| p == "waterfox"@
    ||| p == "iron"@
}

/// The friendly name of a well-known executable stem.
pub fn friendly_app_name(process_name: &str) -> (r: Option<&'static str>)
    ensures
        match r {
            Some(name) => friendly_name(process_name@) == Some(name@),
            None => friendly_name(process_name@) is None,
        },
{
    if text::same_text(process_name, "vivaldi") {
        Some("Vivaldi (web browser)")
    } else if text::same_text(process_name, "chrome") {
        Some("Google Chrome (web browser)")
    } else if text::same_text(process_name, "msedge") {
        Some("Microsoft Edge (web browser)")
    } else if text::same_text(process_name, "firefox") {
        Some("Firefox (web browser)")
    } else if text::same_text(process_name, "brave") {
        Some("Brave (web browser)")
    } else if text::same_text(process_name, "opera") || text::same_text(process_name, "opera_gx") {
        Some("Opera (web browser)")
    } else if text::same_text(process_name, "discord") {
        Some("Discord")
    } else if text::same_text(process_name, "slack") {
        Some("Slack")
    } else if text::same_text(process_name, "code") {
        Some("Visual Studio Code")
    } else if text::same_text(process_name, "cursor") {
        Some("Cursor")
    } else if text::same_text(process_name, "windowsterminal") || text::same_text(process_name, "wt") {
        Some("Windows Terminal")
    } else if text::same_text(process_name, "notepad") {
        Some("Notepad")
    } else if text::same_text(process_name, "obsidian") {
        Some("Obsidian")
    } else if text::same_text(process_name, "outlook") || text::same_text(process_name, "olk") {
        Some("Microsoft Outlook")
    } else if text::same_text(process_name, "thunderbird") {
        Some("Thunderbird")
    } else if text::same_text(process_name, "teams") || text::same_text(process_name, "ms-teams") {
        Some("Microsoft Teams")
    } else if text::same_text(process_name, "telegram") {
        Some("Telegram")
    } else if text::same_text(process_name, "whatsapp") {
        Some("WhatsApp")
    } else if text::same_text(process_name, "signal") {
        Some("Signal")
    } else if text::same_text(process_name, "winword") {
        Some("Microsoft Word")
    } else if text::same_text(process_name, "excel") {
        Some("Microsoft Excel")
    } else if text::same_text(process_name, "powerpnt") {
        Some("Microsoft PowerPoint")
    } else if text::same_text(process_name, "onenote") {
        Some("Microsoft OneNote")
    } else if text::same_text(process_name, "explorer") {
        Some("File Explorer")
    } else {
        None
    }
}

/// Whether an executable stem is that of a browser whose address can be read.
pub fn is_browser(process_name: &str) -> (r: bool)
    ensures
        r == browser(process_name@),
{
    text::same_text(process_name, "vivaldi")
        || text::same_text(process_name, "chrome")
        || text::same_text(process_name, "msedge")
        || text::same_text(process_name, "firefox")
        || text::same_text(process_name, "brave")
        || text::same_text(process_name, "opera")
        || text::same_text(process_name, "opera_gx")
        || text::same_text(process_name, "arc")
        || text::same_text(process_name, "zen")
        || text::same_text(process_name, "librewolf")
        || text::same_text(process_name, "thorium")
        || text::same_text(process_name, "chromium")
        || text::same_text(process_name, "waterfox")
        || text::same_text(process_name, "iron")
}

/// Whether a text holds a character that ends the authority of an address.
pub open spec fn holds_path_mark(s: Seq<char>) -> bool {
    s.contains('/') || s.contains('?') || s.contains('#')
}

/// The part of an address after its scheme. A `://` ends a scheme only where no
/// path, query or fragment has begun before it.
pub open spec fn after_scheme(s: Seq<char>) -> Seq<char> {
    match text::find(s, "://"@) {
        Some(i) => if holds_path_mark(s.take(i)) {
            s
        } else {
            s.skip(i + 3)
        },
        None => s,
    }
}

/// The host and port in an address without surrounding white space: without
/// scheme, path, query, fragment and user.
pub open spec fn host_and_port_in(s: Seq<char>) -> Seq<char> {
    text::after_last(text::before_marks(after_scheme(s), seq!['/', '?', '#']), '@')
}

/// A host without a leading `www.`, in any case.
pub open spec fn without_www(host: Seq<char>) -> Seq<char> {
    if host.len() >= 4 && text::ascii_lowered(host.take(4)) == "www."@ {
        host.skip(4)
    } else {
        host
    }
}

/// The host in an address without surrounding white space: without scheme, path,
/// query, fragment, user, port and a leading `www.`.
pub open spec fn host_in(s: Seq<char>) -> Seq<char> {
    without_www(text::before_marks(host_and_port_in(s), seq![':']))
}

/// The host in an address, where it has a dot and no space.
pub open spec fn site_in(url: Seq<char>) -> Option<Seq<char>> {
    let host = host_in(text::trimmed(url));
    if host.contains('.') && !host.contains(' ') {
        Some(host)
    } else {
        None
    }
}

/// The domain in an address: its host in lower case.
pub open spec fn domain_in(url: Seq<char>) -> Option<Seq<char>> {
    match site_in(url) {
        Some(host) => Some(text::lowercase(host)),
        None => None,
    }
}

/// The host and port of an address without surrounding white space.
pub fn find_host_and_port<'a>(s: &'a [char]) -> (r: &'a [char])
    ensures
        r@ == host_and_port_in(s@),
{
    let total: usize = s.len();
    let scheme_end = text::chars_of("://");
    proof {
        reveal_strlit("://");
        text::lemma_find(s@, "://"@);
    }
    let rest = match text::find_chars(s, scheme_end.as_slice()) {
        Some(i) => {
            assert(s@.subrange(i + 3, s@.len() as int) =~= s@.skip(i + 3));
            assert(s@.subrange(0, i as int) =~= s@.take(i as int));
            let scheme = slice_subrange(s, 0, i);
            if text::has_char(scheme, '/') || text::has_char(scheme, '?') || text::has_char(
                scheme,
                '#',
            ) {
                s
            } else {
                slice_subrange(s, i + 3, total)
            }
        },
        None => s,
    };
    let path_marks: Vec<char> = vec!['/', '?', '#'];
    assert(path_marks@ =~= seq!['/', '?', '#']);
    let authority = text::before_any(rest, path_marks.as_slice());
    text::after_last_mark(authority, '@')
}

fn strip_www(host: &[char]) -> (r: &[char])
    ensures
        r@ == without_www(host@),
{
    let n: usize = host.len();
    if n < 4 {
        return host;
    }
    let ghost head = text::ascii_lowered(host@.take(4));
    assert(head.len() == 4);
    assert(head[0] == text::ascii_lower(host@[0]) && head[1] == text::ascii_lower(host@[1])
        && head[2] == text::ascii_lower(host@[2]) && head[3] == text::ascii_lower(host@[3]));
    proof {
        reveal_strlit("www.");
    }
    if (host[0] == 'w' || host[0] == 'W') && (host[1] == 'w' || host[1] == 'W') && (host[2] == 'w'
        || host[2] == 'W') && host[3] == '.' {
        assert(head =~= "www."@);
        assert(host@.subrange(4, n as int) =~= host@.skip(4));
        slice_subrange(host, 4, n)
    } else {
        assert(head != "www."@) by {
            if head == "www."@ {
                assert(head[0] == 'w' && head[1] == 'w' && head[2] == 'w' && head[3] == '.');
            }
        }
        host
    }
}

/// The host (without `www.`) of an address-like text, where it has a dot and no
/// space.
pub fn find_site(url: &str) -> (r: Option<String>)
    ensures
        text::opt_text(r) == site_in(url@),
{
    let all = text::chars_of(url);
    let trimmed = text::trim_chars(all.as_slice());
    let host_and_port = find_host_and_port(trimmed);
    let port_mark: Vec<char> = vec![':'];
    assert(port_mark@ =~= seq![':']);
    let host = strip_www(text::before_any(host_and_port, port_mark.as_slice()));
    if !text::has_char(host, '.') || text::has_char(host, ' ') {
        return None;
    }
    Some(text::string_of(host))
}

/// The lowercased host (without `www.`) of an address-like text.
pub fn extract_domain(url: &str) -> (r: Option<String>)
    ensures
        text::opt_text(r) == domain_in(url@),
        site_in(url@) matches Some(host) ==> (vstd::utf8::is_ascii_chars(host) ==> text::opt_text(r)
            == Some(text::ascii_lowered(host))),
{
    match find_site(url) {
        Some(host) => Some(host.as_str().to_lowercase()),
        None => None,
    }
}

/// What the operating system says of the foreground window.
#[derive(Debug)]
pub struct ForegroundWindow {
    pub hwnd: isize,
    pub title: String,
    /// Owner process, zero where it could not be told.
    pub pid: u32,
    /// File stem of the owner's executable, where it has one in Unicode.
    pub exe_stem: Option<String>,
    /// Address of the open page, where the window is a browser's and it could be
    /// read.
    pub url: Option<String>,
}

impl ForegroundWindow {
    /// The lowercased executable stem; none reads as empty.
    pub open spec fn process(self) -> Seq<char> {
        match self.exe_stem {
            Some(stem) => text::lowercase(stem@),
            None => text::lowercase(Seq::empty()),
        }
    }

    /// The lowercased executable stem; none reads as empty.
    pub fn process_name(&self) -> (r: String)
        ensures
            r@ == self.process(),
    {
        match &self.exe_stem {
            Some(stem) => stem.as_str().to_lowercase(),
            None => String::new().as_str().to_lowercase(),
        }
    }

    /// The domain of the open page.
    pub open spec fn page_domain(self) -> Option<Seq<char>> {
        match self.url {
            Some(url) => domain_in(url@),
            None => None,
        }
    }
}

/// The application name for the prompt.
pub open spec fn shown_name(process: Seq<char>) -> Seq<char> {
    match friendly_name(process) {
        Some(name) => name,
        None => process,
    }
}

/// Whether a destination is that of a window whose process and page are known: none
/// without an owner process or an executable name. Only a browser has a page.
pub open spec fn describes(
    ctx: Option<AppContext>,
    window: ForegroundWindow,
    process: Seq<char>,
    page: Option<Seq<char>>,
) -> bool {
    match ctx {
        Some(c) => {
            &&& window.pid != 0 && process.len() > 0
            &&& c.app_name@ == shown_name(process)
            &&& c.window_title == window.title
            &&& text::opt_text(c.domain) == (if browser(process) {
                page
            } else {
                None
            })
            &&& c.process_name@ == process
            &&& c.hwnd == window.hwnd
        },
        None => window.pid == 0 || process.len() == 0,
    }
}

/// The destination that a window is, given its lowercased executable stem and the
/// domain of its page.
pub fn describe(window: ForegroundWindow, process_name: String, page: Option<String>) -> (r: Option<
    AppContext,
>)
    ensures
        describes(r, window, process_name@, text::opt_text(page)),
{
    if window.pid == 0 || process_name.as_str().is_empty() {
        return None;
    }
    let domain = if is_browser(process_name.as_str()) {
        page
    } else {
        None
    };
    let app_name = match friendly_app_name(process_name.as_str()) {
        Some(name) => name.to_string(),
        None => process_name.clone(),
    };
    Some(
        AppContext {
            app_name,
            window_title: window.title,
            domain,
            process_name,
            hwnd: window.hwnd,
        },
    )
}

/// The destination that the foreground window is.
pub fn capture(window: Option<ForegroundWindow>) -> (r: Option<AppContext>)
    ensures
        match window {
            Some(w) => describes(r, w, w.process(), w.page_domain()),
            None => r is None,
        },
{
    match window {
        Some(window) => {
            let process_name = window.process_name();
            let page = match &window.url {
                Some(url) => extract_domain(url.as_str()),
                None => None,
            };
            describe(window, process_name, page)
        },
        None => None,
    }
}

/// The character to the left of the caret, given how far the start of the range at
/// the caret could be moved back and the text that was then read there; nothing where
/// it could not be moved, or no text could be read.
pub fn char_before_caret(moved: i32, probed: Option<&str>) -> (r: Option<char>)
    ensures
        moved == 0 ==> r is None,
        moved != 0 ==> r == (match probed {
            Some(t) => if t@.len() > 0 {
                Some(t@[0])
            } else {
                None
            },
            None => None,
        }),
{
    if moved == 0 {
        return None;
    }
    match probed {
        Some(t) => if t.is_empty() {
            None
        } else {
            Some(text::chars_of(t)[0])
        },
        None => None,
    }
}

/// How long a reader waits for a capture in flight, in nanoseconds.
pub const CAPTURE_WAIT: u64 = 600_000_000;

/// The age from which a capture is stale, in nanoseconds.
pub const CONTEXT_TTL: u64 = 120_000_000_000;

/// A stored capture with the clock reading at which it was taken, in
/// nanoseconds since a fixed origin.
#[derive(Debug)]
pub struct StoredContext {
    pub context: AppContext,
    pub captured_at: u64,
    /// The number of the capture.
    pub number: u64,
}

/// The successful capture that was begun last, and the captures still in flight.
/// Captures are numbered in the order in which they are begun.
#[derive(Debug)]
pub struct CaptureState {
    pub stored: Option<StoredContext>,
    pub pending: u32,
    /// How many captures were begun.
    pub begun: u64,
}

/// What is stored after a capture has ended: a successful one replaces what an
/// earlier begun one stored, and a failed one nothing.
pub open spec fn stored_after(
    stored: Option<StoredContext>,
    number: u64,
    captured: Option<AppContext>,
    now: u64,
) -> Option<StoredContext> {
    match captured {
        Some(context) => if stored matches Some(s) && s.number > number {
            stored
        } else {
            Some(StoredContext { context, captured_at: now, number })
        },
        None => stored,
    }
}

/// The state after a capture has begun.
pub open spec fn after_begin(state: CaptureState) -> CaptureState {
    CaptureState {
        stored: state.stored,
        pending: (state.pending + 1) as u32,
        begun: (state.begun + 1) as u64,
    }
}

/// The state after a capture has ended.
pub open spec fn after_capture(
    state: CaptureState,
    number: u64,
    captured: Option<AppContext>,
    now: u64,
) -> CaptureState {
    CaptureState {
        stored: stored_after(state.stored, number, captured, now),
        pending: if state.pending > 0 {
            (state.pending - 1) as u32
        } else {
            0
        },
        begun: state.begun,
    }
}

/// How much longer a reader waits for captures in flight; nothing where none is
/// in flight or the deadline has passed.
pub open spec fn wait_left(state: CaptureState, now: u64, deadline: u64) -> Option<u64> {
    if state.pending > 0 && now < deadline {
        Some((deadline - now) as u64)
    } else {
        None
    }
}

/// How old a capture is at a clock reading.
pub open spec fn age(captured_at: u64, now: u64) -> int {
    if now >= captured_at {
        now - captured_at
    } else {
        0
    }
}

/// The stored capture, unless it is stale.
pub open spec fn fresh_context(state: CaptureState, now: u64) -> Option<AppContext> {
    match state.stored {
        Some(stored) => if age(stored.captured_at, now) < CONTEXT_TTL {
            Some(stored.context)
        } else {
            None
        },
        None => None,
    }
}

impl CaptureState {
    /// No stored capture has a number that was not given out.
    pub open spec fn wf(self) -> bool {
        self.stored matches Some(s) ==> 0 < s.number <= self.begun
    }

    /// Nothing captured, nothing in flight.
    pub fn new() -> (r: Self)
        ensures
            r.wf(),
            r.stored is None,
            r.pending == 0,
            r.begun == 0,
    {
        CaptureState { stored: None, pending: 0, begun: 0 }
    }

    /// A capture starts. Its number is above those of all captures begun before.
    pub fn begin_capture(&mut self) -> (number: u64)
        requires
            old(self).pending < u32::MAX,
            old(self).begun < u64::MAX,
        ensures
            number == old(self).begun + 1,
            *final(self) == after_begin(*old(self)),
            old(self).wf() ==> final(self).wf(),
    {
        self.pending = self.pending + 1;
        self.begun = self.begun + 1;
        self.begun
    }

    /// The capture with a number ends: a successful one replaces what is stored,
    /// unless that was begun later; a failed one keeps it.
    pub fn finish_capture(&mut self, number: u64, captured: Option<AppContext>, now: u64)
        ensures
            *final(self) == after_capture(*old(self), number, captured, now),
            final(self).stored == stored_after(old(self).stored, number, captured, now),
            old(self).wf() && 0 < number <= old(self).begun ==> final(self).wf(),
    {
        if self.pending > 0 {
            self.pending = self.pending - 1;
        }
        match captured {
            Some(context) => {
                let superseded: bool = match &self.stored {
                    Some(stored) => stored.number > number,
                    None => false,
                };
                if !superseded {
                    self.stored = Some(StoredContext { context, captured_at: now, number });
                }
            },
            None => {},
        }
    }

    /// How much longer a reader waits for captures in flight, at most until
    /// `deadline`; nothing where it stops waiting.
    pub fn remaining_wait(&self, now: u64, deadline: u64) -> (r: Option<u64>)
        ensures
            r == wait_left(*self, now, deadline),
    {
        if self.pending > 0 && now < deadline {
            Some(deadline - now)
        } else {
            None
        }
    }

    /// The window to hand the focus back to.
    pub fn last_target(&self) -> (r: Option<isize>)
        ensures
            r == (match self.stored {
                Some(stored) => Some(stored.context.hwnd),
                None => None,
            }),
    {
        match &self.stored {
            Some(stored) => Some(stored.context.hwnd),
            None => None,
        }
    }
}

/// Until when a reader that starts waiting at `now` waits.
pub fn wait_deadline(now: u64) -> (r: u64)
    requires
        now <= u64::MAX - CAPTURE_WAIT,
    ensures
        r == now + CAPTURE_WAIT,
{
    now + CAPTURE_WAIT
}

/// The most recent capture, unless it is stale.
pub fn last_context(state: &CaptureState, now: u64) -> (r: Option<AppContext>)
    ensures
        r == fresh_context(*state, now),
{
    match &state.stored {
        Some(stored) => {
            let elapsed: u64 = if now >= stored.captured_at {
                now - stored.captured_at
            } else {
                0
            };
            if elapsed < CONTEXT_TTL {
                Some(stored.context.clone())
            } else {
                None
            }
        },
        None => None,
    }
}

/// What happens to captures: one is begun, or one ends, with its number, what it
/// captured, and when.
pub enum CaptureStep {
    Begun,
    Ended { number: u64, captured: Option<AppContext>, at: u64 },
}

impl CaptureStep {
    /// Whether a capture ends successfully.
    pub open spec fn succeeds(self) -> bool {
        self matches CaptureStep::Ended { captured, .. } && captured is Some
    }
}

/// The state after some captures were begun and have ended, in the order given.
pub open spec fn after_steps(state: CaptureState, steps: Seq<CaptureStep>) -> CaptureState
    decreases steps.len(),
{
    if steps.len() == 0 {
        state
    } else {
        let before = after_steps(state, steps.drop_last());
        match steps.last() {
            CaptureStep::Begun => after_begin(before),
            CaptureStep::Ended { number, captured, at } => after_capture(
                before,
                number,
                captured,
                at,
            ),
        }
    }
}

/// Whether the capture that ends at a place succeeds and was begun after every other
/// that succeeds, and after the one that was stored before.
pub open spec fn begun_last(state: CaptureState, steps: Seq<CaptureStep>, winner: int) -> bool {
    &&& 0 <= winner < steps.len()
    &&& steps[winner].succeeds()
    &&& state.stored matches Some(s) ==> s.number < steps[winner]->number
    &&& forall|i: int|
        0 <= i < steps.len() && i != winner && (#[trigger] steps[i]).succeeds()
            ==> steps[i]->number < steps[winner]->number
}

proof fn lemma_stored_below(state: CaptureState, steps: Seq<CaptureStep>, number: u64)
    requires
        state.stored matches Some(s) ==> s.number < number,
        forall|i: int|
            0 <= i < steps.len() && (#[trigger] steps[i]).succeeds() ==> steps[i]->number < number,
    ensures
        after_steps(state, steps).stored matches Some(s) ==> s.number < number,
    decreases steps.len(),
{
    if steps.len() > 0 {
        let front = steps.drop_last();
        assert forall|i: int| 0 <= i < front.len() && (#[trigger] front[i]).succeeds() implies
            front[i]->number < number by {
            assert(front[i] == steps[i]);
        }
        lemma_stored_below(state, front, number);
        assert(steps.last() == steps[steps.len() - 1]);
    }
}

/// Of captures that succeed, the one begun last is the one that is read, whatever
/// the order in which they end: a capture at the stop of a dictation wins over the
/// one at its start.
pub proof fn law_capture_begun_last_wins(
    state: CaptureState,
    steps: Seq<CaptureStep>,
    winner: int,
    now: u64,
)
    requires
        begun_last(state, steps, winner),
    ensures
        after_steps(state, steps).stored == Some(
            StoredContext {
                context: steps[winner]->captured->0,
                captured_at: steps[winner]->at,
                number: steps[winner]->number,
            },
        ),
        age(steps[winner]->at, now) < CONTEXT_TTL ==> fresh_context(
            after_steps(state, steps),
            now,
        ) == steps[winner]->captured,
    decreases steps.len(),
{
    let front = steps.drop_last();
    let last = steps.len() - 1;
    assert(steps.last() == steps[last]);
    if winner == last {
        assert forall|i: int| 0 <= i < front.len() && (#[trigger] front[i]).succeeds() implies
            front[i]->number < steps[winner]->number by {
            assert(front[i] == steps[i]);
        }
        lemma_stored_below(state, front, steps[winner]->number);
    } else {
        assert(front[winner] == steps[winner]);
        assert forall|i: int|
            0 <= i < front.len() && i != winner && (#[trigger] front[i]).succeeds() implies
            front[i]->number < front[winner]->number by {
            assert(front[i] == steps[i]);
        }
        law_capture_begun_last_wins(state, front, winner, now);
    }
}

/// Captures are numbered in the order in which they are begun: whatever captures are
/// begun and end in between, the next one begun has a number above all that were given
/// out before.
pub proof fn law_captures_are_numbered_in_order(state: CaptureState, steps: Seq<CaptureStep>)
    requires
        state.begun + steps.len() < u64::MAX,
    ensures
        state.begun <= after_steps(state, steps).begun <= state.begun + steps.len(),
        after_begin(after_steps(state, steps)).begun > state.begun,
    decreases steps.len(),
{
    if steps.len() > 0 {
        law_captures_are_numbered_in_order(state, steps.drop_last());
    }
}

/// A capture that fails keeps what an earlier one stored.
pub proof fn law_failed_capture_keeps_the_previous(
    state: CaptureState,
    number: u64,
    ended_at: u64,
    now: u64,
)
    ensures
        fresh_context(after_capture(state, number, None, ended_at), now) == fresh_context(
            state,
            now,
        ),
{
}

/// No capture is read once it has reached the age limit.
pub proof fn law_stale_captures_are_not_read(state: CaptureState, now: u64)
    requires
        state.stored is Some,
        age(state.stored->0.captured_at, now) >= CONTEXT_TTL,
    ensures
        fresh_context(state, now) is None,
{
}

/// A reader that starts waiting at `start` never waits past `CAPTURE_WAIT`.
pub proof fn law_waiting_is_bounded(state: CaptureState, start: u64, now: u64)
    requires
        start <= now,
        start <= u64::MAX - CAPTURE_WAIT,
    ensures
        wait_left(state, now, (start + CAPTURE_WAIT) as u64) matches Some(left) ==> left
            <= CAPTURE_WAIT - (now - start),
        now - start >= CAPTURE_WAIT ==> wait_left(state, now, (start + CAPTURE_WAIT) as u64) is None,
{
}

proof fn lemma_marks_gone(s: Seq<char>, marks: Seq<char>)
    ensures
        text::before_marks(s, marks).len() <= s.len(),
        text::before_marks(s, marks) == s.take(text::before_marks(s, marks).len() as int),
        forall|c: char| marks.contains(c) ==> !(#[trigger] text::before_marks(s, marks).contains(c)),
{
    let stop = |c: char| marks.contains(c);
    text::lemma_before_first(s, stop);
    let head = text::before_marks(s, marks);
    assert forall|c: char| marks.contains(c) implies !(#[trigger] head.contains(c)) by {
        if head.contains(c) {
            let i = choose|i: int| 0 <= i < head.len() && head[i] == c;
            assert(!stop(s[i]));
        }
    }
}

/// A host never holds a delimiter of the address it was taken from.
pub proof fn law_hosts_hold_no_delimiter(s: Seq<char>)
    ensures
        !host_in(s).contains('/'),
        !host_in(s).contains('?'),
        !host_in(s).contains('#'),
        !host_in(s).contains('@'),
        !host_in(s).contains(':'),
{
    let path_marks = seq!['/', '?', '#'];
    let rest = after_scheme(s);
    let authority = text::before_marks(rest, path_marks);
    lemma_marks_gone(rest, path_marks);
    assert(path_marks[0] == '/' && path_marks[1] == '?' && path_marks[2] == '#');
    assert(path_marks.contains('/') && path_marks.contains('?') && path_marks.contains('#'));
    let tail = text::after_last(authority, '@');
    text::lemma_after_last(authority, '@');
    let port_mark = seq![':'];
    lemma_marks_gone(tail, port_mark);
    assert(port_mark[0] == ':');
    assert(port_mark.contains(':'));
    let host = text::before_marks(tail, port_mark);
    let bare = host_in(s);
    assert forall|i: int| 0 <= i < bare.len() implies bare[i] != '/' && bare[i] != '?' && bare[i]
        != '#' && bare[i] != '@' && bare[i] != ':' by {
        let k = i + host.len() - bare.len();
        assert(bare[i] == host[k]);
        assert(host.contains(host[k]));
        assert(host[k] == tail[k]);
        assert(tail.contains(tail[k]));
        let a = k + authority.len() - tail.len();
        assert(tail[k] == authority[a]);
        assert(authority.contains(authority[a]));
    }
}

/// Whether a text holds none of the characters that end a host.
pub open spec fn bare_host(host: Seq<char>) -> bool {
    !host.contains('/') && !host.contains('?') && !host.contains('#') && !host.contains('@')
        && !host.contains(':')
}

/// Whether a text is empty or starts a path, a query or a fragment.
pub open spec fn starts_tail(tail: Seq<char>) -> bool {
    tail.len() == 0 || tail[0] == '/' || tail[0] == '?' || tail[0] == '#'
}

/// Of an address with a scheme, the authority decides on host and port: neither the
/// scheme, nor the user, nor anything from the path on does.
pub proof fn law_authority_gives_host_and_port(
    scheme: Seq<char>,
    authority: Seq<char>,
    tail: Seq<char>,
)
    requires
        !scheme.contains(':') && !holds_path_mark(scheme),
        !holds_path_mark(authority),
        starts_tail(tail),
    ensures
        host_and_port_in(scheme + "://"@ + authority + tail) == text::after_last(authority, '@'),
{
    reveal_strlit("://");
    let mark = "://"@;
    let s = scheme + mark + authority + tail;
    let n = scheme.len() as int;
    assert(s.subrange(n, n + 3) =~= mark);
    assert forall|j: int| 0 <= j < n implies !text::occurs_at(s, mark, j) by {
        assert(s[j] == scheme[j]);
        assert(scheme.contains(scheme[j]));
        if text::occurs_at(s, mark, j) {
            assert(s.subrange(j, j + 3)[0] == s[j]);
        }
    }
    text::lemma_find_is(s, mark, n);
    let rest = after_scheme(s);
    assert(s.take(n) =~= scheme);
    assert(rest =~= authority + tail);
    let path_marks = seq!['/', '?', '#'];
    assert(path_marks[0] == '/' && path_marks[1] == '?' && path_marks[2] == '#');
    assert forall|i: int| 0 <= i < authority.len() implies !path_marks.contains(
        #[trigger] rest[i],
    ) by {
        assert(rest[i] == authority[i]);
        assert(authority.contains(authority[i]));
    }
    if tail.len() > 0 {
        assert(rest[authority.len() as int] == tail[0]);
    }
    text::lemma_before_first_is(
        rest,
        |c: char| path_marks.contains(c),
        authority.len() as int,
    );
    assert(rest.take(authority.len() as int) =~= authority);
}

/// Scheme, user, port and everything from the path on leave the host as it is,
/// but for a leading `www.`.
pub proof fn law_host_is_found_in_full_addresses(
    scheme: Seq<char>,
    user: Seq<char>,
    host: Seq<char>,
    port: Seq<char>,
    tail: Seq<char>,
)
    requires
        !scheme.contains(':') && !holds_path_mark(scheme),
        !holds_path_mark(user),
        bare_host(host),
        !holds_path_mark(port) && !port.contains('@'),
        starts_tail(tail),
    ensures
        host_in(scheme + "://"@ + user + seq!['@'] + host + seq![':'] + port + tail)
            == without_www(host),
{
    let s = scheme + "://"@ + user + seq!['@'] + host + seq![':'] + port + tail;
    let authority = user + seq!['@'] + host + seq![':'] + port;
    assert forall|i: int| 0 <= i < authority.len() implies authority[i] != '/' && authority[i] != '?'
        && authority[i] != '#' by {
        if i < user.len() {
            assert(user.contains(user[i]));
        } else if i == user.len() {
        } else if i < user.len() + 1 + host.len() {
            assert(authority[i] == host[i - user.len() - 1]);
            assert(host.contains(host[i - user.len() - 1]));
        } else if i == user.len() + 1 + host.len() {
        } else {
            assert(authority[i] == port[i - user.len() - 2 - host.len()]);
            assert(port.contains(port[i - user.len() - 2 - host.len()]));
        }
    }
    law_authority_gives_host_and_port(scheme, authority, tail);
    assert(scheme + "://"@ + authority + tail =~= s);
    let host_and_port = host + seq![':'] + port;
    assert forall|i: int| 0 <= i < host_and_port.len() implies #[trigger] host_and_port[i] != '@' by {
        if i < host.len() {
            assert(host.contains(host[i]));
        } else if i > host.len() {
            assert(host_and_port[i] == port[i - host.len() - 1]);
            assert(port.contains(port[i - host.len() - 1]));
        }
    }
    lemma_after_last_is(user, host_and_port);
    assert(user + seq!['@'] + host_and_port =~= authority);
    let port_mark = seq![':'];
    assert(port_mark[0] == ':');
    assert forall|i: int| 0 <= i < host.len() implies !port_mark.contains(
        #[trigger] host_and_port[i],
    ) by {
        assert(host_and_port[i] == host[i]);
        assert(host.contains(host[i]));
    }
    text::lemma_before_first_is(host_and_port, |c: char| port_mark.contains(c), host.len() as int);
    assert(host_and_port.take(host.len() as int) =~= host);
}

/// An address that starts with its host gives that host, but for a leading
/// `www.`.
pub proof fn law_host_is_found_in_bare_addresses(host: Seq<char>, tail: Seq<char>)
    requires
        bare_host(host),
        starts_tail(tail),
    ensures
        host_in(host + tail) == without_www(host),
{
    let s = host + tail;
    reveal_strlit("://");
    text::lemma_find(s, "://"@);
    if text::find(s, "://"@) is Some {
        let i = text::find(s, "://"@)->0;
        assert(s.subrange(i, i + 3)[0] == s[i]);
        if i < host.len() {
            assert(host.contains(host[i]));
        } else {
            assert(s[host.len() as int] == tail[0]);
            assert(s.take(i)[host.len() as int] == tail[0]);
        }
    }
    assert(after_scheme(s) == s);
    let path_marks = seq!['/', '?', '#'];
    assert(path_marks[0] == '/' && path_marks[1] == '?' && path_marks[2] == '#');
    assert forall|i: int| 0 <= i < host.len() implies !path_marks.contains(#[trigger] s[i]) by {
        assert(s[i] == host[i]);
        assert(host.contains(host[i]));
    }
    if tail.len() > 0 {
        assert(s[host.len() as int] == tail[0]);
    }
    text::lemma_before_first_is(s, |c: char| path_marks.contains(c), host.len() as int);
    assert(s.take(host.len() as int) =~= host);
    text::lemma_after_last(host, '@');
    let found = text::after_last(host, '@');
    if found.len() < host.len() {
        assert(host.contains(host[host.len() - found.len() - 1]));
    }
    assert(host.skip(0) =~= host);
    let port_mark = seq![':'];
    assert(port_mark[0] == ':');
    assert forall|i: int| 0 <= i < host.len() implies !port_mark.contains(#[trigger] host[i]) by {
        assert(host.contains(host[i]));
    }
    text::lemma_before_first_is(host, |c: char| port_mark.contains(c), host.len() as int);
    assert(host.take(host.len() as int) =~= host);
}

proof fn lemma_after_last_is(head: Seq<char>, tail: Seq<char>)
    requires
        forall|i: int| 0 <= i < tail.len() ==> #[trigger] tail[i] != '@',
    ensures
        text::after_last(head + seq!['@'] + tail, '@') == tail,
    decreases tail.len(),
{
    let s = head + seq!['@'] + tail;
    if tail.len() == 0 {
        assert(s.last() == '@');
        assert(tail =~= Seq::<char>::empty());
    } else {
        let front = tail.drop_last();
        assert(s.last() == tail.last());
        assert(s.drop_last() =~= head + seq!['@'] + front);
        lemma_after_last_is(head, front);
        assert(front.push(tail.last()) =~= tail);
    }
}

/// No stem has a friendly name but those listed.
pub proof fn law_only_listed_stems_have_names(p: Seq<char>)
    requires
        p != "vivaldi"@ && p != "chrome"@ && p != "msedge"@ && p != "firefox"@ && p != "brave"@,
        p != "opera"@ && p != "opera_gx"@ && p != "discord"@ && p != "slack"@ && p != "code"@,
        p != "cursor"@ && p != "windowsterminal"@ && p != "wt"@ && p != "notepad"@,
        p != "obsidian"@ && p != "outlook"@ && p != "olk"@ && p != "thunderbird"@ && p != "teams"@,
        p != "ms-teams"@ && p != "telegram"@ && p != "whatsapp"@ && p != "signal"@,
        p != "winword"@ && p != "excel"@ && p != "powerpnt"@ && p != "onenote"@ && p != "explorer"@,
    ensures
        friendly_name(p) is None,
        shown_name(p) == p,
{
}

/// A browser is one of those listed.
pub proof fn law_only_listed_stems_are_browsers(p: Seq<char>)
    ensures
        browser(p) <==> seq![
            "vivaldi"@,
            "chrome"@,
            "msedge"@,
            "firefox"@,
            "brave"@,
            "opera"@,
            "opera_gx"@,
            "arc"@,
            "zen"@,
            "librewolf"@,
            "thorium"@,
            "chromium"@,
            "waterfox"@,
            "iron"@,
        ].contains(p),
{
    let all = seq![
        "vivaldi"@,
        "chrome"@,
        "msedge"@,
        "firefox"@,
        "brave"@,
        "opera"@,
        "opera_gx"@,
        "arc"@,
        "zen"@,
        "librewolf"@,
        "thorium"@,
        "chromium"@,
        "waterfox"@,
        "iron"@,
    ];
    assert(all[0] == "vivaldi"@ && all[1] == "chrome"@ && all[2] == "msedge"@);
    assert(all[3] == "firefox"@ && all[4] == "brave"@ && all[5] == "opera"@);
    assert(all[6] == "opera_gx"@ && all[7] == "arc"@ && all[8] == "zen"@);
    assert(all[9] == "librewolf"@ && all[10] == "thorium"@ && all[11] == "chromium"@);
    assert(all[12] == "waterfox"@ && all[13] == "iron"@);
}

/// A destination tells of its window the title and the handle, of its process the stem and
/// its friendly name, or the stem itself, and of a browser the page. A window without an
/// owner or an executable name is no destination; every other is one.
pub proof fn law_destinations_describe_their_window(
    ctx: Option<AppContext>,
    window: ForegroundWindow,
    process: Seq<char>,
    page: Option<Seq<char>>,
)
    requires
        describes(ctx, window, process, page),
    ensures
        ctx is None <==> window.pid == 0 || process.len() == 0,
        ctx matches Some(c) ==> {
            &&& c.window_title@ == window.title@ && c.hwnd == window.hwnd
            &&& c.process_name@ == process
            &&& friendly_name(process) matches Some(name) ==> c.app_name@ == name
            &&& friendly_name(process) is None ==> c.app_name@ == process
            &&& !browser(process) || page is None ==> c.domain is None
            &&& browser(process) && page is Some ==> c.domain is Some && c.domain->0@ == page->0
        },
{
}

/// The process of a window is its executable stem in lower case, and its page the domain of
/// its address.
pub proof fn law_windows_tell_process_and_page(window: ForegroundWindow)
    ensures
        window.exe_stem matches Some(stem) ==> window.process() == text::lowercase(stem@),
        window.url matches Some(url) ==> window.page_domain() == domain_in(url@),
        window.url is None ==> window.page_domain() is None,
{
}

/// An address is a site exactly where its host has a dot and no space; its domain is then
/// that host in lower case. White space around the address does not matter.
pub proof fn law_sites_have_a_dot_and_no_space(url: Seq<char>)
    ensures
        ({
            let host = host_in(text::trimmed(url));
            let dotted = exists|i: int| 0 <= i < host.len() && #[trigger] host[i] == '.';
            let spaced = exists|i: int| 0 <= i < host.len() && #[trigger] host[i] == ' ';
            &&& dotted && !spaced ==> site_in(url) == Some(host) && domain_in(url) == Some(
                text::lowercase(host),
            )
            &&& !dotted || spaced ==> site_in(url) is None && domain_in(url) is None
        }),
{
    let host = host_in(text::trimmed(url));
    if exists|i: int| 0 <= i < host.len() && #[trigger] host[i] == '.' {
        let i = choose|i: int| 0 <= i < host.len() && #[trigger] host[i] == '.';
        assert(host.contains(host[i]));
    }
    if exists|i: int| 0 <= i < host.len() && #[trigger] host[i] == ' ' {
        let i = choose|i: int| 0 <= i < host.len() && #[trigger] host[i] == ' ';
        assert(host.contains(host[i]));
    }
}

/// A leading `www.`, in any case, is cut from a host, once; every other host stays.
pub proof fn law_hosts_lose_a_leading_www(host: Seq<char>)
    ensures
        ({
            let led = host.len() >= 4 && (host[0] == 'w' || host[0] == 'W') && (host[1] == 'w'
                || host[1] == 'W') && (host[2] == 'w' || host[2] == 'W') && host[3] == '.';
            &&& led ==> without_www(host) == host.skip(4)
            &&& !led ==> without_www(host) == host
        }),
{
    reveal_strlit("www.");
    if host.len() >= 4 {
        let head = text::ascii_lowered(host.take(4));
        assert(head.len() == 4);
        assert(head[0] == text::ascii_lower(host[0]) && head[1] == text::ascii_lower(host[1])
            && head[2] == text::ascii_lower(host[2]) && head[3] == text::ascii_lower(host[3]));
        if (host[0] == 'w' || host[0] == 'W') && (host[1] == 'w' || host[1] == 'W') && (host[2]
            == 'w' || host[2] == 'W') && host[3] == '.' {
            assert(head =~= "www."@);
        }
        if head == "www."@ {
            assert(head[0] == 'w' && head[1] == 'w' && head[2] == 'w' && head[3] == '.');
        }
    }
}

/// An address with a scheme and a host, with or without a port, gives that host, but for a
/// leading `www.`, whatever follows.
pub proof fn law_host_is_found_behind_a_scheme(
    scheme: Seq<char>,
    host: Seq<char>,
    port: Seq<char>,
    tail: Seq<char>,
)
    requires
        !scheme.contains(':') && !holds_path_mark(scheme),
        bare_host(host),
        port.len() > 0 ==> port[0] == ':',
        !holds_path_mark(port) && !port.contains('@'),
        starts_tail(tail),
    ensures
        host_in(scheme + "://"@ + host + port + tail) == without_www(host),
{
    let authority = host + port;
    assert forall|i: int| 0 <= i < authority.len() implies authority[i] != '/' && authority[i] != '?'
        && authority[i] != '#' && authority[i] != '@' by {
        if i < host.len() {
            assert(host.contains(host[i]));
        } else {
            assert(authority[i] == port[i - host.len()]);
            assert(port.contains(port[i - host.len()]));
        }
    }
    law_authority_gives_host_and_port(scheme, authority, tail);
    assert(scheme + "://"@ + authority + tail =~= scheme + "://"@ + host + port + tail);
    text::lemma_after_last(authority, '@');
    let found = text::after_last(authority, '@');
    if found.len() < authority.len() {
        assert(authority[authority.len() - found.len() - 1] == '@');
    }
    assert(authority.skip(0) =~= authority);
    let port_mark = seq![':'];
    assert(port_mark[0] == ':');
    assert forall|i: int| 0 <= i < host.len() implies !port_mark.contains(
        #[trigger] authority[i],
    ) by {
        assert(authority[i] == host[i]);
        assert(host.contains(host[i]));
    }
    if port.len() > 0 {
        assert(authority[host.len() as int] == port[0]);
    }
    text::lemma_before_first_is(authority, |c: char| port_mark.contains(c), host.len() as int);
    assert(authority.take(host.len() as int) =~= host);
}

/// A stored capture is read until it is two minutes old; without one nothing is read.
pub proof fn law_captures_are_read_for_two_minutes(state: CaptureState, now: u64)
    ensures
        state.stored is None ==> fresh_context(state, now) is None,
        state.stored matches Some(s) ==> {
            &&& now - s.captured_at < 120_000_000_000 ==> fresh_context(state, now) == Some(
                s.context,
            )
            &&& now - s.captured_at >= 120_000_000_000 ==> fresh_context(state, now) is None
        },
{
}

/// A reader that starts waiting at `start` waits exactly while a capture is in flight and
/// less than 600 milliseconds have passed, and then for the rest of them.
pub proof fn law_readers_wait_for_captures_in_flight(state: CaptureState, start: u64, now: u64)
    requires
        start <= now,
        start + 600_000_000 <= u64::MAX,
    ensures
        CAPTURE_WAIT == 600_000_000,
        ({
            let left = wait_left(state, now, (start + 600_000_000) as u64);
            &&& state.pending == 0 || now - start >= 600_000_000 ==> left is None
            &&& state.pending > 0 && now - start < 600_000_000 ==> left is Some && left->0
                == 600_000_000 - (now - start)
        }),
        forall|deadline: u64| #[trigger]
            wait_left(state, now, deadline) == (if state.pending > 0 && deadline > now {
                Some((deadline - now) as u64)
            } else {
                None
            }),
{
}

/// A capture that ends counts as no longer in flight, and what it captured is stored with
/// the time, unless it failed or a capture begun later is stored already; one that begins
/// counts as in flight and stores nothing.
pub proof fn law_captures_are_counted_and_stored(
    state: CaptureState,
    number: u64,
    captured: Option<AppContext>,
    now: u64,
)
    requires
        state.pending < u32::MAX,
        state.begun < u64::MAX,
    ensures
        ({
            let begun = after_begin(state);
            let ended = after_capture(state, number, captured, now);
            &&& begun.pending == state.pending + 1 && begun.begun == state.begun + 1
            &&& begun.stored == state.stored
            &&& state.pending > 0 ==> ended.pending == state.pending - 1
            &&& state.pending == 0 ==> ended.pending == 0
            &&& ended.begun == state.begun
            &&& captured is None ==> ended.stored == state.stored
            &&& captured is Some && state.stored is Some && state.stored->0.number > number
                ==> ended.stored == state.stored
            &&& captured is Some && (state.stored is None || state.stored->0.number <= number)
                ==> ended.stored is Some && ended.stored->0.context == captured->0
                && ended.stored->0.captured_at == now && ended.stored->0.number == number
        }),
{
}

/// An address without a scheme starts with its authority, which gives host and port: neither
/// the user nor anything from the path on does.
pub proof fn law_bare_authority_gives_host_and_port(authority: Seq<char>, tail: Seq<char>)
    requires
        !holds_path_mark(authority),
        authority.len() > 0 ==> authority.last() != ':',
        starts_tail(tail),
    ensures
        host_and_port_in(authority + tail) == text::after_last(authority, '@'),
{
    let s = authority + tail;
    let n = authority.len() as int;
    reveal_strlit("://");
    text::lemma_find(s, "://"@);
    if let Some(i) = text::find(s, "://"@) {
        let found = s.subrange(i, i + 3);
        assert(found[0] == s[i] && found[1] == s[i + 1]);
        if i < n {
            if i + 1 < n {
                assert(authority.contains(authority[i + 1]));
            } else {
                assert(authority.last() == s[i]);
            }
        } else {
            assert(s[n] == tail[0]);
            if i > n {
                assert(s.take(i)[n] == tail[0]);
            }
        }
    }
    assert(after_scheme(s) == s);
    let path_marks = seq!['/', '?', '#'];
    assert(path_marks[0] == '/' && path_marks[1] == '?' && path_marks[2] == '#');
    assert forall|i: int| 0 <= i < n implies !path_marks.contains(#[trigger] authority[i]) by {
        assert(authority.contains(authority[i]));
    }
    text::law_the_first_mark_ends_a_part(authority, tail, path_marks);
}

/// The port, with its colon, is cut from a host.
pub proof fn law_ports_are_cut(s: Seq<char>, host: Seq<char>, port: Seq<char>)
    requires
        host_and_port_in(s) == host + port,
        !host.contains(':'),
        port.len() > 0 ==> port[0] == ':',
    ensures
        host_in(s) == without_www(host),
{
    let mark = seq![':'];
    assert(mark[0] == ':');
    assert forall|i: int| 0 <= i < host.len() implies !mark.contains(#[trigger] host[i]) by {
        assert(host.contains(host[i]));
    }
    text::law_the_first_mark_ends_a_part(host, port, mark);
}

} // verus!

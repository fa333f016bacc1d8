use vstd::prelude::*;
use crate::composer::{composed, Renderer};
use crate::manifest::Page;
use crate::parser::{parse_manifest, Strictness};
use crate::json::json_parse;

verus! {

/// Where the fragment resource is determined: from the request, so that
/// its fetch is issued before the content fetch, or from a header of the
/// content response.
#[derive(Clone, Copy, Debug, PartialEq, Eq, Structural)]
pub enum ResourceMode {
    Uri,
    Header,
}

/// How the fragment-manifest fetch ended.
pub enum FragmentOutcome {
    /// Transport error or timeout.
    Failed,
    /// A response arrived with this status and body.
    Received { status: u16, body: String },
}

/// The body to send and whether composition ran.
pub struct Merged {
    pub body: String,
    pub rewritten: bool,
}

/// The media type of a content-type value: everything before the first `;`.
pub open spec fn media_type(ct: Seq<char>) -> Seq<char>
    decreases ct.len(),
{
    if ct.len() == 0 || ct[0] == ';' {
        Seq::empty()
    } else {
        seq![ct[0]] + media_type(ct.drop_first())
    }
}

proof fn lemma_media_type(ct: Seq<char>, k: int)
    requires
        0 <= k <= ct.len(),
        forall|j: int| 0 <= j < k ==> ct[j] != ';',
        k == ct.len() || ct[k] == ';',
    ensures
        media_type(ct) == ct.take(k),
    decreases ct.len(),
{
    if ct.len() == 0 || ct[0] == ';' {
        assert(ct.take(k) =~= Seq::<char>::empty());
    } else {
        lemma_media_type(ct.drop_first(), k - 1);
        assert(ct.take(k) =~= seq![ct[0]] + ct.drop_first().take(k - 1));
    }
}

/// Whether a content-type value declares HTML, parameters ignored.
pub open spec fn html_content(ct: Seq<char>) -> bool {
    media_type(ct) == "text/html"@
}

/// Whether the content response is to be composed at all.
pub fn is_html_content_type(content_type: &str) -> (r: bool)
    ensures
        r == html_content(content_type@),
{
    let n = content_type.unicode_len();
    let mut k: usize = 0;
    while k < n && content_type.get_char(k) != ';'
        invariant
            n == content_type@.len(),
            k <= n,
            forall|j: int| 0 <= j < k ==> content_type@[j] != ';',
        decreases n - k,
    {
        k = k + 1;
    }
    proof { lemma_media_type(content_type@, k as int); }
    let html = "text/html";
    if k != html.unicode_len() {
        return false;
    }
    let mut j: usize = 0;
    while j < k
        invariant
            html@ == "text/html"@,
            k == html@.len(),
            k <= content_type@.len(),
            media_type(content_type@) == content_type@.take(k as int),
            j <= k,
            forall|m: int| 0 <= m < j ==> content_type@[m] == html@[m],
        decreases k - j,
    {
        if content_type.get_char(j) != html.get_char(j) {
            assert(content_type@.take(k as int)[j as int] != html@[j as int]);
            return false;
        }
        j = j + 1;
    }
    assert(content_type@.take(k as int) =~= html@);
    true
}

/// A path ending in a file extension: a dot and one or more word
/// characters at its end.
pub const FILE_EXTENSION_PATTERN: &'static str = "\\.[\\w]+$";

/// Whether the regular expression `pattern` matches somewhere in `text`;
/// `None` where the pattern does not compile.
pub uninterp spec fn pattern_match(pattern: Seq<char>, text: Seq<char>) -> Option<bool>;

/// Relies on `regex::Regex::new` and `regex::Regex::is_match`: compiling
/// the pattern either fails or gives a matcher, and the match depends on
/// the pattern and the text alone.
#[verifier::external_body]
fn find_pattern(pattern: &str, text: &str) -> (r: Option<bool>)
    ensures
        r == pattern_match(pattern@, text@),
{
    regex::Regex::new(pattern).ok().map(|re| re.is_match(text))
}

/// Whether a request path is composed: paths that end in a file extension
/// (assets) are passed straight to the content origin.
pub fn path_is_composed(path: &str) -> (r: bool)
    ensures
        r == (pattern_match(FILE_EXTENSION_PATTERN@, path@) != Some(true)),
{
    match find_pattern(FILE_EXTENSION_PATTERN, path) {
        Some(found) => !found,
        None => true,
    }
}

/// Only GET and HEAD requests are served.
pub fn method_allowed(method: &str) -> (r: bool)
    ensures
        r == (method@ == "GET"@ || method@ == "HEAD"@),
{
    let m = String::from_str(method);
    m == String::from_str("GET") || m == String::from_str("HEAD")
}

/// Whether the fragment fetch is dispatched before the content fetch.
pub fn fetch_fragment_first(mode: ResourceMode) -> (r: bool)
    ensures
        r == (mode == ResourceMode::Uri),
{
    match mode {
        ResourceMode::Uri => true,
        ResourceMode::Header => false,
    }
}

/// Whether the fragment fetch is dispatched once an HTML content response
/// has named a fragment resource in its header (empty when absent).
pub fn fetch_fragment_after_content(mode: ResourceMode, resource_header: &str) -> (r: bool)
    ensures
        r == (mode == ResourceMode::Header && resource_header@.len() > 0),
{
    match mode {
        ResourceMode::Uri => false,
        ResourceMode::Header => !resource_header.is_empty(),
    }
}

/// What composing a fragment outcome into HTML content yields, or `None`
/// where the unmodified content is to be sent.
pub open spec fn merged(content: Seq<char>, fragment: FragmentOutcome) -> Option<Seq<char>> {
    match fragment {
        FragmentOutcome::Failed => None,
        FragmentOutcome::Received { status, body } => if status != 200 {
            None
        } else {
            match parse_manifest(body@, Strictness::Lenient) {
                Err(_) => None,
                Ok(page) => composed(content, page),
            }
        },
    }
}

/// Merges the fragment outcome into HTML content: only a 200 response whose
/// manifest parses and composes rewrites the content; every other outcome
/// sends the content unmodified.
pub fn merge(content: String, fragment: FragmentOutcome) -> (r: Merged)
    ensures
        match merged(content@, fragment) {
            Some(o) => r.rewritten && r.body@ == o,
            None => !r.rewritten && r.body == content,
        },
{
    match fragment {
        FragmentOutcome::Failed => Merged { body: content, rewritten: false },
        FragmentOutcome::Received { status, body } => {
            if status != 200 {
                return Merged { body: content, rewritten: false };
            }
            let page = match Page::from_json_str(body.as_str()) {
                Ok(page) => page,
                Err(_) => {
                    return Merged { body: content, rewritten: false };
                },
            };
            let mut renderer = Renderer::new(page);
            match renderer.render(content.as_str()) {
                Ok(o) => Merged { body: o, rewritten: true },
                Err(_) => Merged { body: content, rewritten: false },
            }
        },
    }
}

/// Where one request's handling stands.
#[derive(Clone, Copy, Debug, PartialEq, Eq, Structural)]
pub enum Stage {
    /// Nothing has happened yet.
    Idle,
    /// The content fetch is under way, and maybe the fragment fetch.
    AwaitingContent,
    /// HTML content is at hand; the fragment fetch is being waited for.
    AwaitingFragment,
    /// The response has been decided.
    Done,
}

/// What the surrounding service observed.
pub enum Event {
    /// The request arrived with this method.
    Start { method: String },
    /// The content response arrived with this content type and this
    /// fragment-resource header (empty when absent).
    ContentArrived { content_type: String, resource: String },
    /// The fragment fetch ended; `content` is the content body.
    FragmentResolved { content: String, outcome: FragmentOutcome },
}

/// What the surrounding service is to do next.
pub enum Action {
    /// Answer "method not allowed".
    Reject,
    /// Fetch the content, dispatching the fragment fetch first (without
    /// waiting for it) where `dispatch_fragment` holds.
    FetchContent { dispatch_fragment: bool },
    /// Wait, within the response-time budget, for the fragment fetch,
    /// dispatching it first where `dispatch_fragment` holds.
    AwaitFragment { dispatch_fragment: bool },
    /// Send the content response unmodified, abandoning any pending
    /// fragment fetch.
    SendContent,
    /// Send this body in the content response, marked when rewritten.
    Send(Merged),
}

/// The decisions of one request: issue the fragment fetch so that it
/// overlaps the content fetch, compose only HTML content, and fall back to
/// the unmodified content on any failure of the fragment side.
pub struct Orchestrator {
    pub mode: ResourceMode,
    pub stage: Stage,
    pub fragment_dispatched: bool,
}

impl Orchestrator {
    pub fn new(mode: ResourceMode) -> (r: Orchestrator)
        ensures
            r.mode == mode,
            r.stage == Stage::Idle,
            !r.fragment_dispatched,
    {
        Orchestrator { mode, stage: Stage::Idle, fragment_dispatched: false }
    }

    /// Takes the next event and says what to do. An event that does not
    /// fit the stage ends the request with the unmodified content.
    pub fn step(&mut self, event: Event) -> (a: Action)
        ensures
            final(self).mode == old(self).mode,
            match (old(self).stage, event) {
                (Stage::Idle, Event::Start { method }) => if method@ == "GET"@ || method@ == "HEAD"@ {
                    &&& final(self).stage == Stage::AwaitingContent
                    &&& final(self).fragment_dispatched == (old(self).mode == ResourceMode::Uri)
                    &&& a == Action::FetchContent { dispatch_fragment: old(self).mode == ResourceMode::Uri }
                } else {
                    final(self).stage == Stage::Done && a is Reject
                },
                (Stage::AwaitingContent, Event::ContentArrived { content_type, resource }) => {
                    let late = old(self).mode == ResourceMode::Header && resource@.len() > 0;
                    if html_content(content_type@) && (old(self).fragment_dispatched || late) {
                        &&& final(self).stage == Stage::AwaitingFragment
                        &&& final(self).fragment_dispatched
                        &&& a == Action::AwaitFragment { dispatch_fragment: late }
                    } else {
                        final(self).stage == Stage::Done && a is SendContent
                    }
                },
                (Stage::AwaitingFragment, Event::FragmentResolved { content, outcome }) => {
                    &&& final(self).stage == Stage::Done
                    &&& match a {
                        Action::Send(m) => match merged(content@, outcome) {
                            Some(o) => m.rewritten && m.body@ == o,
                            None => !m.rewritten && m.body == content,
                        },
                        _ => false,
                    }
                },
                _ => final(self).stage == Stage::Done && a is SendContent,
            },
    {
        let stage = self.stage;
        match (stage, event) {
            (Stage::Idle, Event::Start { method }) => {
                if method_allowed(method.as_str()) {
                    let first = fetch_fragment_first(self.mode);
                    self.stage = Stage::AwaitingContent;
                    self.fragment_dispatched = first;
                    Action::FetchContent { dispatch_fragment: first }
                } else {
                    self.stage = Stage::Done;
                    Action::Reject
                }
            },
            (Stage::AwaitingContent, Event::ContentArrived { content_type, resource }) => {
                let late = fetch_fragment_after_content(self.mode, resource.as_str());
                if is_html_content_type(content_type.as_str()) && (self.fragment_dispatched || late) {
                    self.stage = Stage::AwaitingFragment;
                    self.fragment_dispatched = true;
                    Action::AwaitFragment { dispatch_fragment: late }
                } else {
                    self.stage = Stage::Done;
                    Action::SendContent
                }
            },
            (Stage::AwaitingFragment, Event::FragmentResolved { content, outcome }) => {
                self.stage = Stage::Done;
                Action::Send(merge(content, outcome))
            },
            _ => {
                self.stage = Stage::Done;
                Action::SendContent
            },
        }
    }
}

/// Malformed manifest JSON never fails the request: the content is sent
/// unmodified.
pub proof fn lemma_malformed_manifest_falls_back(content: Seq<char>, body: String)
    requires
        json_parse(body@) is None,
    ensures
        merged(content, FragmentOutcome::Received { status: 200, body }) is None,
{
}

/// A fragment response with any status but 200 leaves the content
/// unmodified.
pub proof fn lemma_non_ok_status_falls_back(content: Seq<char>, status: u16, body: String)
    requires
        status != 200,
    ensures
        merged(content, FragmentOutcome::Received { status, body }) is None,
{
}

} // verus!

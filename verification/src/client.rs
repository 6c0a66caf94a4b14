//! The web session with the panel: URLs, form bodies, the session token and when it is lost.
//!
//! The HTTP exchanges themselves are made by the caller; this type decides what to send
//! and what a response means.

use vstd::prelude::*;

use crate::config::Credentials;
use crate::text::{
    contains, contains_str, find, find_chars, from_chars, lemma_find_from, occurs_at, push_str,
    to_chars,
    trim_end_char, trim_end_char_chars,
};

verus! {

/// A delimiter that ends a session token in a page: `&`, `"`, `'`, space or `<`.
pub open spec fn is_token_end(c: char) -> bool {
    c == '&' || c == '"' || c == '\'' || c == ' ' || c == '<'
}

/// Index of the first token delimiter at or after `i`, or the length.
pub open spec fn token_end(s: Seq<char>, i: nat) -> nat
    decreases s.len() - i,
{
    if i >= s.len() {
        s.len()
    } else if is_token_end(s[i as int]) {
        i
    } else {
        token_end(s, i + 1)
    }
}

/// The session token of a page: what follows the first `session=`, up to a delimiter;
/// `None` when there is no `session=` or the token is empty.
pub open spec fn session_token(html: Seq<char>) -> Option<Seq<char>> {
    match find(html, "session="@) {
        None => None,
        Some(pos) => {
            let rest = html.skip(pos + 8 as int);
            let token = rest.take(token_end(rest, 0) as int);
            if token.len() == 0 {
                None
            } else {
                Some(token)
            }
        },
    }
}

proof fn lemma_token_end(s: Seq<char>, i: nat)
    requires
        i <= s.len(),
    ensures
        i <= token_end(s, i) <= s.len(),
    decreases s.len() - i,
{
    if i < s.len() && !is_token_end(s[i as int]) {
        lemma_token_end(s, i + 1);
    }
}

/// Extracts the session token (`session=0x<HEX>` or `session=<TOKEN>`) from a page.
pub fn extract_session_token(html: &str) -> (r: Option<String>)
    ensures
        match r {
            Some(t) => session_token(html@) == Some(t@),
            None => session_token(html@) is None,
        },
{
    let h = to_chars(html);
    let hn = h.len();
    let marker = to_chars("session=");
    let pos = match find_chars(h.as_slice(), marker.as_slice()) {
        Some(p) => p,
        None => return None,
    };
    proof {
        reveal_strlit("session=");
        lemma_find_from(h@, "session="@, 0);
    }
    let start = pos + 8;
    let ghost rest = h@.skip(start as int);
    let mut end = start;
    while end < hn
        invariant
            hn == h@.len(),
            start <= end <= hn,
            rest == h@.skip(start as int),
            token_end(rest, 0) == token_end(rest, (end - start) as nat),
        ensures
            start <= end <= hn,
            token_end(rest, 0) == token_end(rest, (end - start) as nat),
            end < hn ==> is_token_end(h@[end as int]),
        decreases hn - end,
    {
        let c = h[end];
        assert(rest[end - start] == c);
        if c == '&' || c == '"' || c == '\'' || c == ' ' || c == '<' {
            break ;
        }
        end = end + 1;
    }
    proof {
        lemma_token_end(rest, 0);
        if end < hn {
            assert(rest[end - start] == h@[end as int]);
        }
        assert(token_end(rest, 0) == end - start);
    }
    if end == start {
        return None;
    }
    let token = vstd::slice::slice_to_vec(&h.as_slice()[start..end]);
    assert(token@ =~= rest.take(token_end(rest, 0) as int));
    Some(from_chars(token.as_slice()))
}

/// The message of a failed login.
pub open spec fn no_token_message() -> Seq<char> {
    "no session token found in login response"@
}

/// The web session state: where the panel is, who logs in, and the current token.
pub struct SpcSession {
    pub base_url: String,
    pub user_id: String,
    pub password: String,
    pub session: Option<String>,
}

impl SpcSession {
    /// A session without a token for the panel at `url` (trailing slashes dropped).
    pub fn new(url: &str, creds: &Credentials) -> (s: SpcSession)
        ensures
            s.base_url@ == trim_end_char(url@, '/'),
            s.user_id@ == creds.login@,
            s.password@ == creds.password@,
            s.session is None,
    {
        let v = to_chars(url);
        let base = trim_end_char_chars(v.as_slice(), '/');
        SpcSession {
            base_url: from_chars(base.as_slice()),
            user_id: creds.login.clone(),
            password: creds.password.clone(),
            session: None,
        }
    }

    /// Whether a login must come before the next request.
    pub fn needs_login(&self) -> (b: bool)
        ensures
            b == (self.session is None),
    {
        self.session.is_none()
    }

    /// The URL the login form is posted to.
    pub fn login_url(&self) -> (s: String)
        ensures
            s@ == self.base_url@ + "/login.htm?action=login&language=0"@,
    {
        let mut t = to_chars(self.base_url.as_str());
        push_str(&mut t, "/login.htm?action=login&language=0");
        from_chars(t.as_slice())
    }

    /// The login form body.
    pub fn login_body(&self) -> (s: String)
        ensures
            s@ == "userid="@ + self.user_id@ + "&password="@ + self.password@,
    {
        let mut t = to_chars("userid=");
        push_str(&mut t, self.user_id.as_str());
        push_str(&mut t, "&password=");
        push_str(&mut t, self.password.as_str());
        from_chars(t.as_slice())
    }

    /// Takes the token from the login response; the session is unchanged when there is none.
    pub fn accept_login(&mut self, html: &str) -> (r: Result<(), String>)
        ensures
            match session_token(html@) {
                Some(t) => r is Ok && (final(self).session matches Some(s) && s@ == t),
                None => (r matches Err(e) && e@ == no_token_message()) && final(self).session
                    == old(self).session,
            },
            final(self).base_url == old(self).base_url,
            final(self).user_id == old(self).user_id,
            final(self).password == old(self).password,
    {
        match extract_session_token(html) {
            Some(t) => {
                self.session = Some(t);
                Ok(())
            },
            None => Err(String::from_str("no session token found in login response")),
        }
    }

    /// Forgets the token, so that the next request logs in again.
    pub fn invalidate(&mut self)
        ensures
            final(self).session is None,
            final(self).base_url == old(self).base_url,
            final(self).user_id == old(self).user_id,
            final(self).password == old(self).password,
    {
        self.session = None;
    }

    /// The URL of a page in the current session; `None` without a token.
    pub fn page_url(&self, page: &str) -> (r: Option<String>)
        ensures
            match self.session {
                Some(s) => r matches Some(u) && u@ == self.base_url@ + "/secure.htm?session="@
                    + s@ + "&page="@ + page@,
                None => r is None,
            },
    {
        match &self.session {
            Some(s) => {
                let mut t = to_chars(self.base_url.as_str());
                push_str(&mut t, "/secure.htm?session=");
                push_str(&mut t, s.as_str());
                push_str(&mut t, "&page=");
                push_str(&mut t, page);
                Some(from_chars(t.as_slice()))
            },
            None => None,
        }
    }

    /// The URL a command on a page is posted to; `None` without a token.
    pub fn command_url(&self, page: &str) -> (r: Option<String>)
        ensures
            match self.session {
                Some(s) => r matches Some(u) && u@ == self.base_url@ + "/secure.htm?session="@
                    + s@ + "&page="@ + page@ + "&action=update"@,
                None => r is None,
            },
    {
        match &self.session {
            Some(s) => {
                let mut t = to_chars(self.base_url.as_str());
                push_str(&mut t, "/secure.htm?session=");
                push_str(&mut t, s.as_str());
                push_str(&mut t, "&page=");
                push_str(&mut t, page);
                push_str(&mut t, "&action=update");
                Some(from_chars(t.as_slice()))
            },
            None => None,
        }
    }

    /// The form body that presses a button.
    pub fn command_body(button: &str) -> (s: String)
        ensures
            s@ == button@ + "="@,
    {
        let mut t = to_chars(button);
        push_str(&mut t, "=");
        from_chars(t.as_slice())
    }

    /// A page response shows that the session has expired: a client error status, or a
    /// page without any `session=` link (the login page).
    pub fn response_needs_login(status: u16, html: &str) -> (b: bool)
        ensures
            b == ((400 <= status <= 499) || !contains(html@, "session="@)),
    {
        if 400 <= status && status <= 499 {
            return true;
        }
        let h = to_chars(html);
        !contains_str(h.as_slice(), "session=")
    }

    /// The panel accepted a command: a success or redirection status.
    pub fn command_accepted(status: u16) -> (b: bool)
        ensures
            b == (200 <= status <= 399),
    {
        200 <= status && status <= 399
    }
}

/// How far a page fetch has come.
#[derive(Debug, Clone, Copy, PartialEq, Eq, Structural)]
pub enum FetchPhase {
    /// Nothing sent yet.
    Start,
    /// The page was requested once.
    Requested,
    /// The session had expired; logging in again.
    Relogin,
    /// The page was requested again after the new login.
    Retried,
    /// The page is there.
    Done,
}

/// What happened since the last step of a page fetch.
#[derive(Debug)]
pub enum FetchEvent {
    /// The fetch begins.
    Begin,
    /// A login succeeded.
    LoggedIn,
    /// The page request was answered.
    Response { status: u16, html: String },
}

/// What the caller does next for a page fetch.
#[derive(Debug)]
pub enum FetchAction {
    /// Log in (a failed login ends the fetch with its error).
    Login,
    /// Request the page at this URL and report the response.
    Get(String),
    /// The fetch is over: the last response's page is the result.
    Finish,
    /// The event does not fit the phase (no such step is ever asked for).
    Invalid,
}

/// The next phase and action of a page fetch, over views: log in first when there is no
/// session; request the page; on an expired-session response forget the token, log in
/// again and request the page once more, whose response is then the result.
pub open spec fn fetch_next(
    has_session: bool,
    phase: FetchPhase,
    event: FetchEvent,
) -> (FetchPhase, FetchActionKind) {
    match phase {
        FetchPhase::Start => match event {
            FetchEvent::Begin => if has_session {
                (FetchPhase::Requested, FetchActionKind::Get)
            } else {
                (FetchPhase::Start, FetchActionKind::Login)
            },
            FetchEvent::LoggedIn => (FetchPhase::Requested, get_or_invalid(has_session)),
            _ => (phase, FetchActionKind::Invalid),
        },
        FetchPhase::Requested => match event {
            FetchEvent::Response { status, html } => if (400 <= status <= 499) || !contains(
                html@,
                "session="@,
            ) {
                (FetchPhase::Relogin, FetchActionKind::Login)
            } else {
                (FetchPhase::Done, FetchActionKind::Finish)
            },
            _ => (phase, FetchActionKind::Invalid),
        },
        FetchPhase::Relogin => match event {
            FetchEvent::LoggedIn => (FetchPhase::Retried, get_or_invalid(has_session)),
            _ => (phase, FetchActionKind::Invalid),
        },
        FetchPhase::Retried => match event {
            FetchEvent::Response { .. } => (FetchPhase::Done, FetchActionKind::Finish),
            _ => (phase, FetchActionKind::Invalid),
        },
        FetchPhase::Done => (phase, FetchActionKind::Invalid),
    }
}

/// A page request needs a session.
pub open spec fn get_or_invalid(has_session: bool) -> FetchActionKind {
    if has_session {
        FetchActionKind::Get
    } else {
        FetchActionKind::Invalid
    }
}

/// The kind of a `FetchAction`.
pub enum FetchActionKind {
    Login,
    Get,
    Finish,
    Invalid,
}

pub open spec fn action_kind(a: FetchAction) -> FetchActionKind {
    match a {
        FetchAction::Login => FetchActionKind::Login,
        FetchAction::Get(_) => FetchActionKind::Get,
        FetchAction::Finish => FetchActionKind::Finish,
        FetchAction::Invalid => FetchActionKind::Invalid,
    }
}

impl SpcSession {
    /// One step of fetching `page` (the decisions of a page fetch): the new phase, and
    /// the action to perform. A response that shows an expired session forgets the token.
    pub fn fetch_step(&mut self, phase: FetchPhase, page: &str, event: FetchEvent) -> (r: (
        FetchPhase,
        FetchAction,
    ))
        ensures
            (r.0, action_kind(r.1)) == fetch_next(old(self).session is Some, phase, event),
            r.1 matches FetchAction::Get(url) ==> (final(self).session matches Some(s) && url@
                == final(self).base_url@ + "/secure.htm?session="@ + s@ + "&page="@ + page@),
            final(self).session == (if phase == FetchPhase::Requested && fetch_next(
                old(self).session is Some,
                phase,
                event,
            ).0 == FetchPhase::Relogin {
                None
            } else {
                old(self).session
            }),
            final(self).base_url == old(self).base_url,
            final(self).user_id == old(self).user_id,
            final(self).password == old(self).password,
    {
        match phase {
            FetchPhase::Start => match event {
                FetchEvent::Begin => {
                    if self.needs_login() {
                        (FetchPhase::Start, FetchAction::Login)
                    } else {
                        self.get_step(FetchPhase::Requested, page)
                    }
                },
                FetchEvent::LoggedIn => self.get_step(FetchPhase::Requested, page),
                _ => (phase, FetchAction::Invalid),
            },
            FetchPhase::Requested => match event {
                FetchEvent::Response { status, html } => {
                    if SpcSession::response_needs_login(status, html.as_str()) {
                        self.invalidate();
                        (FetchPhase::Relogin, FetchAction::Login)
                    } else {
                        (FetchPhase::Done, FetchAction::Finish)
                    }
                },
                _ => (phase, FetchAction::Invalid),
            },
            FetchPhase::Relogin => match event {
                FetchEvent::LoggedIn => self.get_step(FetchPhase::Retried, page),
                _ => (phase, FetchAction::Invalid),
            },
            FetchPhase::Retried => match event {
                FetchEvent::Response { .. } => (FetchPhase::Done, FetchAction::Finish),
                _ => (phase, FetchAction::Invalid),
            },
            FetchPhase::Done => (phase, FetchAction::Invalid),
        }
    }

    /// Requests the page when there is a session (there always is where this is used).
    fn get_step(&self, next: FetchPhase, page: &str) -> (r: (FetchPhase, FetchAction))
        ensures
            self.session is Some ==> r.0 == next && (r.1 matches FetchAction::Get(url) && url@
                == self.base_url@ + "/secure.htm?session="@ + self.session->0@ + "&page="@
                + page@),
            self.session is None ==> r.0 == next && r.1 is Invalid,
    {
        match self.page_url(page) {
            Some(url) => (next, FetchAction::Get(url)),
            None => (next, FetchAction::Invalid),
        }
    }
}

// ---------------------------------------------------------------------------
// Laws: the session token, and the steps of a page fetch
// ---------------------------------------------------------------------------

/// A character that ends a session token in a page.
pub open spec fn ends_token(c: char) -> bool {
    c == '&' || c == '"' || c == '\'' || c == ' ' || c == '<'
}

proof fn lemma_token_end_first(s: Seq<char>, i: nat)
    requires
        i <= s.len(),
        forall|j: int| 0 <= j < i ==> !ends_token(#[trigger] s[j]),
    ensures
        forall|j: int| 0 <= j < token_end(s, i) ==> !ends_token(#[trigger] s[j]),
        token_end(s, i) < s.len() ==> ends_token(s[token_end(s, i) as int]),
        token_end(s, i) <= s.len(),
    decreases s.len() - i,
{
    if i < s.len() && !is_token_end(s[i as int]) {
        lemma_token_end_first(s, i + 1);
    }
}

/// The session token of a page is what follows its first `session=`: not empty, free
/// of the delimiters `&`, `"`, `'`, space and `<`, and followed by one of them or by the
/// end of the page. `p` is where that `session=` stands.
pub proof fn lemma_session_token_found(html: Seq<char>) -> (p: int)
    requires
        session_token(html) is Some,
    ensures
        ({
            let t = session_token(html)->Some_0;
            &&& t.len() > 0
            &&& occurs_at(html, "session="@ + t, p)
            &&& forall|j: int| 0 <= j < p ==> !occurs_at(html, "session="@, j)
            &&& forall|i: int| 0 <= i < t.len() ==> !ends_token(#[trigger] t[i])
            &&& p + 8 + t.len() == html.len() || ends_token(html[p + 8 + t.len()])
        }),
{
    reveal_strlit("session=");
    lemma_find_from(html, "session="@, 0);
    let pos: int = find(html, "session="@)->Some_0 as int;
    let rest = html.skip(pos + 8);
    let t = session_token(html)->Some_0;
    lemma_token_end_first(rest, 0);
    assert(t == rest.take(token_end(rest, 0) as int));
    assert forall|i: int| 0 <= i < t.len() implies !ends_token(#[trigger] t[i]) by {
        assert(t[i] == rest[i]);
    }
    assert(html.subrange(pos, pos + 8 + t.len()) =~= "session="@ + t) by {
        assert(html.subrange(pos, pos + 8) == "session="@);
        assert forall|i: int| 0 <= i < 8 + t.len() implies html.subrange(pos, pos + 8 + t.len())[i] == ("session="@ + t)[i] by {
            if i < 8 {
                assert(html.subrange(pos, pos + 8)[i] == html[pos + i]);
            } else {
                assert(t[i - 8] == rest[i - 8]);
            }
        }
    }
    if pos + 8 + t.len() < html.len() {
        assert(html[pos + 8 + t.len()] == rest[t.len() as int]);
    }
    pos
}

/// A page without `session=`, or whose first `session=` is directly followed by a
/// delimiter or by the end of the page, has no session token.
pub proof fn lemma_session_token_absent(html: Seq<char>)
    ensures
        (forall|j: int| 0 <= j ==> !occurs_at(html, "session="@, j)) ==> session_token(html)
            is None,
        (forall|p: int|
            occurs_at(html, "session="@, p) && (forall|j: int|
                0 <= j < p ==> !occurs_at(html, "session="@, j)) && (p + 8 == html.len()
                || p + 8 < html.len() && ends_token(html[p + 8])) ==> session_token(html)
                is None),
{
    reveal_strlit("session=");
    lemma_find_from(html, "session="@, 0);
    if let Some(pos) = find(html, "session="@) {
        let rest = html.skip(pos + 8 as int);
        assert forall|p: int|
            occurs_at(html, "session="@, p) && (forall|j: int|
                0 <= j < p ==> !occurs_at(html, "session="@, j)) && (p + 8 == html.len()
                || p + 8 < html.len() && ends_token(html[p + 8])) implies session_token(html)
            is None by {
            if p < pos {
            } else if p > pos {
                assert(!occurs_at(html, "session="@, pos as int));
            } else {
                if rest.len() > 0 {
                    assert(rest[0] == html[p + 8]);
                }
                assert(token_end(rest, 0) == 0);
            }
        }
    }
}

/// The steps of a page fetch: log in first without a session, then request the page;
/// a client error or a page without `session=` means the session expired, so log in
/// again and request once more; the second response ends the fetch whatever it says.
pub proof fn lemma_fetch_protocol(has_session: bool, status: u16, html: String)
    ensures
        fetch_next(false, FetchPhase::Start, FetchEvent::Begin) == (
            FetchPhase::Start,
            FetchActionKind::Login,
        ),
        fetch_next(true, FetchPhase::Start, FetchEvent::Begin) == (
            FetchPhase::Requested,
            FetchActionKind::Get,
        ),
        fetch_next(true, FetchPhase::Start, FetchEvent::LoggedIn) == (
            FetchPhase::Requested,
            FetchActionKind::Get,
        ),
        (400 <= status <= 499 || !contains(html@, "session="@)) ==> fetch_next(
            has_session,
            FetchPhase::Requested,
            FetchEvent::Response { status, html },
        ) == (FetchPhase::Relogin, FetchActionKind::Login),
        !(400 <= status <= 499 || !contains(html@, "session="@)) ==> fetch_next(
            has_session,
            FetchPhase::Requested,
            FetchEvent::Response { status, html },
        ) == (FetchPhase::Done, FetchActionKind::Finish),
        fetch_next(true, FetchPhase::Relogin, FetchEvent::LoggedIn) == (
            FetchPhase::Retried,
            FetchActionKind::Get,
        ),
        fetch_next(has_session, FetchPhase::Retried, FetchEvent::Response { status, html }) == (
            FetchPhase::Done,
            FetchActionKind::Finish,
        ),
        fetch_next(has_session, FetchPhase::Done, FetchEvent::Begin).1 == FetchActionKind::Invalid,
{
}

} // verus!

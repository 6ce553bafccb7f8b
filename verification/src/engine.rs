//! The navigation engine: a state machine over the current location, the
//! displayed document and a bounded history.  The caller performs the
//! transport round trip and hands the raw bytes (or the transport failure)
//! back; the engine classifies the response and decides how the state
//! moves: commit and render on success, roll back on a recoverable
//! failure, resolve and refetch on a permanent redirection, and surface
//! everything else.

use crate::gemtext::{parse_gemtext_spec, EntryModel, Gemtext};
use crate::resolve::{redirect, resolve_spec};
use crate::response::{
    parse_response_spec, GeminiResponse, PermanentFailureKind, RedirectionKind, ResponseModel,
};
use crate::text::{
    chars_to_string, find_from, lemma_find_from, sub_vec, to_chars, trim_end_spec, trim_end_vec,
};
use vstd::prelude::*;

verus! {

/// The location used when nothing else is known: a fixed public server.
pub open spec fn default_server_spec() -> Seq<char> {
    "geminiprotocol.net"@
}

pub open spec fn default_url_spec() -> Seq<char> {
    "gemini://geminiprotocol.net/"@
}

pub fn default_server() -> (r: String)
    ensures
        r@ == default_server_spec(),
{
    "geminiprotocol.net".to_owned()
}

pub fn default_url() -> (r: String)
    ensures
        r@ == default_url_spec(),
{
    "gemini://geminiprotocol.net/".to_owned()
}

/// What one engine step reports to the caller.
#[derive(Clone, Copy, PartialEq, Eq, Structural, Debug)]
pub enum NavOutcome {
    /// A successful response was parsed and the document replaced.
    Rendered,
    /// A permanent redirection was resolved; fetch again.
    Redirected,
    /// The location was rolled back after a not-found failure.
    NotFound,
    /// A permanent redirection whose target could not be resolved.
    RedirectRejected,
    /// The response bytes could not be parsed; surfaced, not retried.
    ParseFailed,
    /// A response category with no automatic policy; surfaced.
    Unsupported,
    /// A transport failure with no history seeded the default location;
    /// fetch again.
    Retrying,
    /// A transport failure was answered by rolling back to history.
    RolledBack,
}

/// Mathematical model of the engine state.
pub struct NavModel {
    pub server: Seq<char>,
    pub request: Seq<char>,
    pub doc: Seq<EntryModel>,
    pub moving: bool,
    pub history: Seq<(Seq<char>, Seq<char>)>,
    pub index: int,
    pub pending: bool,
}

pub open spec fn hist_view(h: Seq<(String, String)>) -> Seq<(Seq<char>, Seq<char>)> {
    h.map_values(|p: (String, String)| (p.0@, p.1@))
}

/// The engine. `server_name` is always the host-and-port part of
/// `request_data`; `history` records committed locations and
/// `history_index` the current one; `redir` is set exactly when a fetch is
/// owed; `moving_in_history` marks a replay, which must not mutate the
/// history structure.
pub struct Nav {
    pub server_name: String,
    pub request_data: String,
    pub gemtext: Gemtext,
    pub moving_in_history: bool,
    pub history: Vec<(String, String)>,
    pub history_index: usize,
    pub redir: bool,
}

impl View for Nav {
    type V = NavModel;

    open spec fn view(&self) -> NavModel {
        NavModel {
            server: self.server_name@,
            request: self.request_data@,
            doc: self.gemtext@,
            moving: self.moving_in_history,
            history: hist_view(self.history@),
            index: self.history_index as int,
            pending: self.redir,
        }
    }
}

/// The history invariant: the index addresses an entry whenever the
/// history is non-empty, and rests at zero while it is empty.
pub open spec fn nav_wf(m: NavModel) -> bool {
    &&& m.history.len() > 0 ==> 0 <= m.index < m.history.len()
    &&& m.history.len() == 0 ==> m.index == 0
}

pub open spec fn min_int(a: int, b: int) -> int {
    if a <= b {
        a
    } else {
        b
    }
}

proof fn lemma_hist_push(h: Seq<(String, String)>, p: (String, String))
    ensures
        hist_view(h.push(p)) == hist_view(h).push((p.0@, p.1@)),
{
    assert(hist_view(h.push(p)) =~= hist_view(h).push((p.0@, p.1@)));
}

proof fn lemma_hist_take(h: Seq<(String, String)>, n: int)
    requires
        0 <= n <= h.len(),
    ensures
        hist_view(h.subrange(0, n)) == hist_view(h).take(n),
{
    assert(hist_view(h.subrange(0, n)) =~= hist_view(h).take(n));
}

impl Nav {
    /// A fresh engine at the default location, with a fetch owed, no
    /// history and an empty document.
    pub fn new() -> (r: Nav)
        ensures
            r@.server == default_server_spec(),
            r@.request == default_url_spec(),
            r@.doc == Seq::<EntryModel>::empty(),
            !r@.moving,
            r@.history == Seq::<(Seq<char>, Seq<char>)>::empty(),
            r@.index == 0,
            r@.pending,
            nav_wf(r@),
    {
        let r = Nav {
            server_name: default_server(),
            request_data: default_url(),
            gemtext: Gemtext { data: Vec::new() },
            moving_in_history: false,
            history: Vec::new(),
            history_index: 0,
            redir: true,
        };
        proof {
            assert(r@.doc =~= Seq::<EntryModel>::empty());
            assert(r@.history =~= Seq::<(Seq<char>, Seq<char>)>::empty());
        }
        r
    }

    /// Whether the history invariant holds; lets an unverified caller
    /// check it before driving the engine.
    pub fn invariant_holds(&self) -> (b: bool)
        ensures
            b == nav_wf(self@),
    {
        if self.history.len() == 0 {
            self.history_index == 0
        } else {
            self.history_index < self.history.len()
        }
    }

    /// An external trigger: resolves `target` against the current
    /// location and owes a fetch exactly when resolution is accepted; a
    /// rejected target leaves the whole state unchanged but clears the
    /// owed fetch.
    pub fn navigate(&mut self, target: &str) -> (r: bool)
        ensures
            final(self)@.doc == old(self)@.doc,
            final(self)@.history == old(self)@.history,
            final(self)@.index == old(self)@.index,
            final(self)@.moving == old(self)@.moving,
            final(self)@.pending == r,
            match resolve_spec(old(self)@.server, old(self)@.request, target@) {
                Some(pair) => r && final(self)@.server == pair.0 && final(self)@.request
                    == pair.1,
                None => !r && final(self)@.server == old(self)@.server && final(self)@.request
                    == old(self)@.request,
            },
            nav_wf(old(self)@) ==> nav_wf(final(self)@),
    {
        let r = redirect(&mut self.server_name, &mut self.request_data, target);
        self.redir = r;
        r
    }

    /// Answer to a transport failure: with no history, seed the default
    /// location and owe a retry against it; otherwise roll the location
    /// back to the current history entry without refetching.
    pub fn handle_transport_error(&mut self) -> (r: NavOutcome)
        requires
            nav_wf(old(self)@),
        ensures
            nav_wf(final(self)@),
            final(self)@.doc == old(self)@.doc,
            final(self)@.moving == old(self)@.moving,
            final(self)@.index == old(self)@.index,
            old(self)@.history.len() == 0 ==> {
                &&& final(self)@.history == seq![
                    (default_server_spec(), default_url_spec()),
                ]
                &&& final(self)@.pending
                &&& r == NavOutcome::Retrying
                &&& final(self)@.server == default_server_spec()
                &&& final(self)@.request == default_url_spec()
            },
            old(self)@.history.len() > 0 ==> {
                &&& final(self)@.history == old(self)@.history
                &&& !final(self)@.pending
                &&& r == NavOutcome::RolledBack
                &&& final(self)@.server == old(self)@.history[old(self)@.index].0
                &&& final(self)@.request == old(self)@.history[old(self)@.index].1
            },
    {
        let r;
        if self.history.len() == 0 {
            let p = (default_server(), default_url());
            proof {
                lemma_hist_push(self.history@, p);
            }
            self.history.push(p);
            self.redir = true;
            r = NavOutcome::Retrying;
        } else {
            self.redir = false;
            r = NavOutcome::RolledBack;
        }
        let entry = &self.history[self.history_index];
        self.server_name = entry.0.clone();
        self.request_data = entry.1.clone();
        r
    }

    /// Classifies a raw response and advances the state: a success
    /// replaces the document and, unless this fetch replayed history,
    /// truncates the entries beyond the current one and appends the
    /// location; a not-found failure rolls the location back to the
    /// current entry without refetching; a permanent redirection resolves
    /// its target and owes another fetch; a parse failure and every
    /// category without an automatic policy are surfaced with the state
    /// otherwise unchanged.
    pub fn handle_response(&mut self, bytes: &[u8]) -> (r: NavOutcome)
        requires
            nav_wf(old(self)@),
        ensures
            nav_wf(final(self)@),
            ({
                let m0 = old(self)@;
                let m1 = final(self)@;
                match parse_response_spec(bytes@) {
                    None => r == NavOutcome::ParseFailed && only_pending_cleared(m0, m1),
                    Some(resp) => match resp {
                        ResponseModel::Success { body } => {
                            &&& r == NavOutcome::Rendered
                            &&& m1.doc == parse_gemtext_spec(body)
                            &&& m1.server == m0.server && m1.request == m0.request
                            &&& !m1.pending && !m1.moving
                            &&& !m0.moving ==> {
                                &&& m1.history == m0.history.take(
                                    min_int(m0.index + 1, m0.history.len() as int),
                                ).push((m0.server, m0.request))
                                &&& m1.index == m1.history.len() - 1
                            }
                            &&& m0.moving ==> m1.history == m0.history && m1.index == m0.index
                        },
                        ResponseModel::PermanentFailure { kind, msg } => if kind
                            == PermanentFailureKind::NotFound {
                            &&& r == NavOutcome::NotFound
                            &&& m1.doc == m0.doc && !m1.moving && !m1.pending
                            &&& m1.history == m0.history && m1.index == m0.index
                            &&& m0.history.len() > 0 ==> m1.server == m0.history[m0.index].0
                                && m1.request == m0.history[m0.index].1
                            &&& m0.history.len() == 0 ==> m1.server == m0.server && m1.request
                                == m0.request
                        } else {
                            r == NavOutcome::Unsupported && only_pending_cleared(m0, m1)
                        },
                        ResponseModel::Redirection { kind, to } => if kind
                            == RedirectionKind::Permanent {
                            match resolve_spec(m0.server, m0.request, to) {
                                Some(pair) => {
                                    &&& r == NavOutcome::Redirected
                                    &&& m1.server == pair.0 && m1.request == pair.1
                                    &&& m1.pending
                                    &&& m1.doc == m0.doc && m1.moving == m0.moving
                                    &&& m1.history == m0.history && m1.index == m0.index
                                },
                                None => r == NavOutcome::RedirectRejected
                                    && only_pending_cleared(m0, m1),
                            }
                        } else {
                            r == NavOutcome::Unsupported && only_pending_cleared(m0, m1)
                        },
                        _ => r == NavOutcome::Unsupported && only_pending_cleared(m0, m1),
                    },
                }
            }),
    {
        self.redir = false;
        let resp = match GeminiResponse::from_bytes(bytes) {
            Ok(resp) => resp,
            Err(_) => {
                return NavOutcome::ParseFailed;
            },
        };
        match resp {
            GeminiResponse::Success { body } => {
                self.gemtext = Gemtext::from_str(body.as_str());
                if !self.moving_in_history {
                    let ghost h0 = self.history@;
                    let hist_len = self.history.len();
                    proof {
                        assert(hist_view(h0).len() == h0.len());
                        assert(old(self)@.index + 1 <= hist_len || hist_len == 0);
                    }
                    self.history.truncate(self.history_index + 1);
                    let p = (self.server_name.clone(), self.request_data.clone());
                    proof {
                        if self.history_index + 1 <= h0.len() {
                            lemma_hist_take(h0, self.history_index + 1);
                        } else {
                            assert(hist_view(h0).take(min_int(old(self)@.index + 1, h0.len() as int))
                                =~= hist_view(h0));
                        }
                        lemma_hist_push(self.history@, p);
                    }
                    self.history.push(p);
                    self.history_index = self.history.len() - 1;
                } else {
                    self.moving_in_history = false;
                }
                NavOutcome::Rendered
            },
            GeminiResponse::PermanentFailure { kind, msg: _ } => {
                if kind == PermanentFailureKind::NotFound {
                    self.moving_in_history = false;
                    if self.history.len() > 0 {
                        let entry = &self.history[self.history_index];
                        self.server_name = entry.0.clone();
                        self.request_data = entry.1.clone();
                    }
                    NavOutcome::NotFound
                } else {
                    NavOutcome::Unsupported
                }
            },
            GeminiResponse::Redirection { kind, to } => {
                if kind == RedirectionKind::Permanent {
                    let ok = redirect(&mut self.server_name, &mut self.request_data, to.as_str());
                    self.redir = ok;
                    if ok {
                        NavOutcome::Redirected
                    } else {
                        NavOutcome::RedirectRejected
                    }
                } else {
                    NavOutcome::Unsupported
                }
            },
            _ => NavOutcome::Unsupported,
        }
    }

    /// Moves one entry back in history, marking a replay and owing a
    /// fetch of that entry; at the oldest entry nothing changes.
    pub fn history_back(&mut self) -> (moved: bool)
        requires
            nav_wf(old(self)@),
        ensures
            nav_wf(final(self)@),
            final(self)@.doc == old(self)@.doc,
            final(self)@.history == old(self)@.history,
            moved == (old(self)@.index > 0),
            !moved ==> final(self)@ == old(self)@,
            moved ==> {
                &&& final(self)@.index == old(self)@.index - 1
                &&& final(self)@.moving && final(self)@.pending
                &&& final(self)@.server == old(self)@.history[old(self)@.index - 1].0
                &&& final(self)@.request == old(self)@.history[old(self)@.index - 1].1
            },
    {
        if self.history_index > 0 {
            self.history_index = self.history_index - 1;
            self.moving_in_history = true;
            let entry = &self.history[self.history_index];
            self.server_name = entry.0.clone();
            self.request_data = entry.1.clone();
            self.redir = true;
            true
        } else {
            false
        }
    }

    /// Moves one entry forward in history, marking a replay and owing a
    /// fetch of that entry; at the newest entry nothing changes.
    pub fn history_forward(&mut self) -> (moved: bool)
        requires
            nav_wf(old(self)@),
        ensures
            nav_wf(final(self)@),
            final(self)@.doc == old(self)@.doc,
            final(self)@.history == old(self)@.history,
            moved == (old(self)@.index + 1 < old(self)@.history.len()),
            !moved ==> final(self)@ == old(self)@,
            moved ==> {
                &&& final(self)@.index == old(self)@.index + 1
                &&& final(self)@.moving && final(self)@.pending
                &&& final(self)@.server == old(self)@.history[old(self)@.index + 1].0
                &&& final(self)@.request == old(self)@.history[old(self)@.index + 1].1
            },
    {
        let n = self.history.len();
        proof {
            assert(hist_view(self.history@).len() == self.history@.len());
        }
        if self.history_index + 1 < n {
            self.history_index = self.history_index + 1;
            self.moving_in_history = true;
            let entry = &self.history[self.history_index];
            self.server_name = entry.0.clone();
            self.request_data = entry.1.clone();
            self.redir = true;
            true
        } else {
            false
        }
    }
}

/// Everything of the state that must survive a surfaced failure: only the
/// owed fetch is cleared.
pub open spec fn only_pending_cleared(m0: NavModel, m1: NavModel) -> bool {
    &&& m1.server == m0.server
    &&& m1.request == m0.request
    &&& m1.doc == m0.doc
    &&& m1.moving == m0.moving
    &&& m1.history == m0.history
    &&& m1.index == m0.index
    &&& !m1.pending
}

/// The exact wire payload for a request: the request string without its
/// trailing whitespace, terminated by a carriage return and line feed.
pub fn build_request(request: &str) -> (r: String)
    ensures
        r@ == trim_end_spec(request@) + "\r\n"@,
{
    let chars = to_chars(request);
    let trimmed = trim_end_vec(&chars);
    let mut r = chars_to_string(&trimmed);
    r.append("\r\n");
    r
}

/// Splits a `host:port` pair on its first colon; without a colon the
/// default port 1965 applies.
pub fn split_host_port(server: &str) -> (r: (String, String))
    ensures
        ({
            let p = find_from(server@, ':', 0);
            if p >= 0 {
                r.0@ == server@.subrange(0, p) && r.1@ == server@.skip(p + 1)
            } else {
                r.0@ == server@ && r.1@ == "1965"@
            }
        }),
{
    let v = to_chars(server);
    let mut i: usize = 0;
    while i < v.len() && v[i] != ':'
        invariant
            i <= v@.len(),
            forall|j: int| 0 <= j < i ==> v@[j] != ':',
        decreases v@.len() - i,
    {
        i = i + 1;
    }
    proof {
        lemma_find_from(v@, ':', 0, i as int);
    }
    if i < v.len() {
        let host = chars_to_string(&sub_vec(&v, 0, i));
        let port = chars_to_string(&sub_vec(&v, i + 1, v.len()));
        proof {
            assert(v@.subrange(i + 1, v@.len() as int) =~= v@.skip(i + 1));
        }
        (host, port)
    } else {
        (server.to_owned(), "1965".to_owned())
    }
}

} // verus!

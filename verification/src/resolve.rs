//! Resolution of a navigation target against the current location: an
//! absolute target replaces host and request, a rooted path keeps the host,
//! a document-suffixed target replaces the last path segment of a
//! document-suffixed request, and any other target is appended to the
//! request as a further segment.

use crate::text::{
    chars_to_string, find_from, lemma_find_from, lemma_find_from_bounds, sub_vec, to_chars,
};
use vstd::prelude::*;

verus! {

use vstd::string::StringExecFns;

pub open spec fn scheme_sep_at(t: Seq<char>, i: int) -> bool {
    0 <= i && i + 3 <= t.len() && t[i] == ':' && t[i + 1] == '/' && t[i + 2] == '/'
}

/// Whether the target carries a scheme separator anywhere.
pub open spec fn has_scheme_sep(t: Seq<char>) -> bool {
    exists|i: int| scheme_sep_at(t, i)
}

/// The one supported scheme prefix.
pub open spec fn gemini_prefix() -> Seq<char> {
    seq!['g', 'e', 'm', 'i', 'n', 'i', ':', '/', '/']
}

pub open spec fn starts_gemini(t: Seq<char>) -> bool {
    t.len() >= 9 && t.subrange(0, 9) == gemini_prefix()
}

/// Whether `s` ends with the document suffix `.gmi`.
pub open spec fn ends_gmi(s: Seq<char>) -> bool {
    s.len() >= 4 && s[s.len() - 4] == '.' && s[s.len() - 3] == 'g' && s[s.len() - 2] == 'm' && s[s.len()
        - 1] == 'i'
}

/// Position of the last occurrence of `c` in `s`, or `-1` if there is none.
pub open spec fn rfind(s: Seq<char>, c: char) -> int
    decreases s.len(),
{
    if s.len() == 0 {
        -1
    } else if s.last() == c {
        s.len() - 1
    } else {
        rfind(s.drop_last(), c)
    }
}

pub proof fn lemma_rfind(s: Seq<char>, c: char, k: int)
    requires
        -1 <= k < s.len(),
        forall|j: int| k < j < s.len() ==> s[j] != c,
        k >= 0 ==> s[k] == c,
    ensures
        rfind(s, c) == k,
    decreases s.len(),
{
    if s.len() > 0 && s.last() != c {
        lemma_rfind(s.drop_last(), c, k);
    }
}

/// What resolving `target` against the location `(host, req)` yields: the
/// new `(host, request)` pair, or `None` when the target is rejected.  Only
/// an absolute target changes the host, to everything between the scheme
/// prefix and the first slash after it.
pub open spec fn resolve_spec(host: Seq<char>, req: Seq<char>, target: Seq<char>) -> Option<
    (Seq<char>, Seq<char>),
> {
    if has_scheme_sep(target) {
        if starts_gemini(target) && target.len() > 9 {
            let h = find_from(target, '/', 9);
            let new_host = if h < 0 {
                target.skip(9)
            } else {
                target.subrange(9, h)
            };
            Some((new_host, target))
        } else {
            None
        }
    } else if target.len() > 0 && target[0] == '/' {
        Some((host, gemini_prefix() + host + target))
    } else if ends_gmi(target) {
        let base = if ends_gmi(req) {
            req.subrange(0, rfind(req, '/') + 1)
        } else {
            req
        };
        Some((host, base + target))
    } else {
        let base = if req.len() > 0 && req.last() == '/' {
            req
        } else {
            req.push('/')
        };
        Some((host, base + target))
    }
}

fn has_sep_exec(t: &Vec<char>) -> (r: bool)
    ensures
        r == has_scheme_sep(t@),
{
    let n = t.len();
    if n < 3 {
        return false;
    }
    let mut i: usize = 0;
    while i <= n - 3
        invariant
            3 <= n == t@.len(),
            i <= n - 2,
            forall|j: int| 0 <= j < i ==> !scheme_sep_at(t@, j),
        decreases n - i,
    {
        if t[i] == ':' && t[i + 1] == '/' && t[i + 2] == '/' {
            proof {
                assert(scheme_sep_at(t@, i as int));
            }
            return true;
        }
        i = i + 1;
    }
    proof {
        assert forall|j: int| !scheme_sep_at(t@, j) by {
            if 0 <= j && j + 3 <= t@.len() {
                assert(j < i);
            }
        }
    }
    false
}

fn ends_gmi_exec(v: &Vec<char>) -> (r: bool)
    ensures
        r == ends_gmi(v@),
{
    let n = v.len();
    n >= 4 && v[n - 4] == '.' && v[n - 3] == 'g' && v[n - 2] == 'm' && v[n - 1] == 'i'
}

fn starts_gemini_exec(t: &Vec<char>) -> (r: bool)
    ensures
        r == starts_gemini(t@),
{
    let r = t.len() >= 9 && t[0] == 'g' && t[1] == 'e' && t[2] == 'm' && t[3] == 'i' && t[4] == 'n'
        && t[5] == 'i' && t[6] == ':' && t[7] == '/' && t[8] == '/';
    proof {
        if t@.len() >= 9 {
            if r {
                assert(t@.subrange(0, 9) =~= gemini_prefix());
            } else {
                assert(t@.subrange(0, 9) != gemini_prefix()) by {
                    if t@.subrange(0, 9) == gemini_prefix() {
                        assert(t@[0] == 'g' && t@[1] == 'e' && t@[2] == 'm' && t@[3] == 'i' && t@[4]
                            == 'n' && t@[5] == 'i' && t@[6] == ':' && t@[7] == '/' && t@[8] == '/')
                            by {
                            assert forall|k: int| 0 <= k < 9 implies t@[k] == gemini_prefix()[k] by {
                                assert(t@.subrange(0, 9)[k] == t@[k]);
                            }
                        }
                    }
                }
            }
        }
    }
    r
}

/// The length of the prefix of `v` that ends with its last `/`; zero when
/// `v` has no `/` at all.
fn cut_after_last_slash(v: &Vec<char>) -> (r: usize)
    ensures
        r == rfind(v@, '/') + 1,
        r <= v@.len(),
{
    let mut j: usize = v.len();
    while j > 0 && v[j - 1] != '/'
        invariant
            j <= v@.len(),
            forall|i: int| j <= i < v@.len() ==> v@[i] != '/',
        decreases j,
    {
        j = j - 1;
    }
    proof {
        lemma_rfind(v@, '/', j - 1);
    }
    j
}

fn gemini_prefix_string() -> (r: String)
    ensures
        r@ == gemini_prefix(),
{
    let r = "gemini://".to_owned();
    proof {
        reveal_strlit("gemini://");
        assert(r@ =~= gemini_prefix());
    }
    r
}

/// Resolves `url` against the location held in `server_name` and
/// `request_data`, updating both in place exactly when resolution is
/// accepted; a rejected target leaves them unchanged.
pub fn redirect(server_name: &mut String, request_data: &mut String, url: &str) -> (r: bool)
    ensures
        match resolve_spec(old(server_name)@, old(request_data)@, url@) {
            Some(pair) => r && final(server_name)@ == pair.0 && final(request_data)@ == pair.1,
            None => !r && final(server_name)@ == old(server_name)@ && final(request_data)@ == old(
                request_data,
            )@,
        },
{
    let t = to_chars(url);
    if has_sep_exec(&t) {
        if starts_gemini_exec(&t) && t.len() > 9 {
            let mut h: usize = 9;
            while h < t.len() && t[h] != '/'
                invariant
                    9 <= h <= t@.len(),
                    forall|j: int| 9 <= j < h ==> t@[j] != '/',
                decreases t@.len() - h,
            {
                h = h + 1;
            }
            proof {
                lemma_find_from(t@, '/', 9, h as int);
            }
            let host_chars = sub_vec(&t, 9, h);
            *server_name = chars_to_string(&host_chars);
            *request_data = url.to_owned();
            proof {
                if h == t@.len() {
                    assert(t@.subrange(9, h as int) =~= t@.skip(9));
                }
            }
            true
        } else {
            false
        }
    } else if t.len() > 0 && t[0] == '/' {
        let mut req = gemini_prefix_string();
        req.append(server_name.as_str());
        req.append(url);
        *request_data = req;
        true
    } else if ends_gmi_exec(&t) {
        let rv = to_chars(request_data.as_str());
        if ends_gmi_exec(&rv) {
            let cut = cut_after_last_slash(&rv);
            let base = sub_vec(&rv, 0, cut);
            let mut req = chars_to_string(&base);
            req.append(url);
            *request_data = req;
        } else {
            request_data.append(url);
        }
        true
    } else {
        let rv = to_chars(request_data.as_str());
        if rv.len() == 0 || rv[rv.len() - 1] != '/' {
            request_data.append("/");
            proof {
                reveal_strlit("/");
                assert(request_data@ =~= old(request_data)@.push('/'));
            }
        }
        request_data.append(url);
        true
    }
}

/// Pure form of [`redirect`]: yields the new `(host, request)` pair or
/// `None` when the target is rejected.
pub fn resolve(host: &str, request: &str, target: &str) -> (r: Option<(String, String)>)
    ensures
        match r {
            Some(pair) => resolve_spec(host@, request@, target@) == Some((pair.0@, pair.1@)),
            None => resolve_spec(host@, request@, target@) is None,
        },
{
    let mut h = host.to_owned();
    let mut q = request.to_owned();
    if redirect(&mut h, &mut q, target) {
        Some((h, q))
    } else {
        None
    }
}

proof fn lemma_rfind_bounds(s: Seq<char>, c: char)
    ensures
        rfind(s, c) < s.len(),
        rfind(s, c) >= 0 ==> s[rfind(s, c)] == c,
    decreases s.len(),
{
    if s.len() > 0 && s.last() != c {
        lemma_rfind_bounds(s.drop_last(), c);
    }
}

proof fn lemma_rfind_ge(s: Seq<char>, c: char, idx: int)
    requires
        0 <= idx < s.len(),
        s[idx] == c,
    ensures
        rfind(s, c) >= idx,
    decreases s.len(),
{
    if s.last() != c {
        assert(idx < s.len() - 1);
        lemma_rfind_ge(s.drop_last(), c, idx);
    }
}

/// A location whose request names the supported scheme, an authority and
/// a path, the host being exactly that authority.
pub open spec fn location_in_sync(host: Seq<char>, req: Seq<char>) -> bool {
    &&& starts_gemini(req)
    &&& find_from(req, '/', 9) >= 0
    &&& host == req.subrange(9, find_from(req, '/', 9))
}

proof fn lemma_sync_of(host: Seq<char>, req: Seq<char>, r2: Seq<char>, p: int)
    requires
        location_in_sync(host, req),
        p == find_from(req, '/', 9),
        r2.len() > p,
        forall|j: int| 0 <= j < p ==> r2[j] == req[j],
        r2[p] == '/',
    ensures
        location_in_sync(host, r2),
{
    lemma_find_from_bounds(req, '/', 9);
    assert(r2.subrange(0, 9) =~= gemini_prefix()) by {
        assert(forall|j: int|
            0 <= j < 9 ==> req.subrange(0, 9)[j] == req[j] && gemini_prefix()[j] == req.subrange(
                0,
                9,
            )[j]);
    }
    assert(forall|j: int| 9 <= j < p ==> r2[j] != '/');
    lemma_find_from(r2, '/', 9, p);
    assert(r2.subrange(9, p) =~= req.subrange(9, p));
}

/// Law: the host stays the authority of the request across resolution.
/// From a location in sync, any accepted target yields a location in
/// sync again; an absolute target must itself carry a path, since the
/// new host is read back from the new request.
pub proof fn lemma_resolution_keeps_sync(host: Seq<char>, req: Seq<char>, target: Seq<char>)
    requires
        location_in_sync(host, req),
        has_scheme_sep(target) ==> find_from(target, '/', 9) >= 0,
    ensures
        resolve_spec(host, req, target) matches Some(pair) ==> location_in_sync(pair.0, pair.1),
{
    let p = find_from(req, '/', 9);
    lemma_find_from_bounds(req, '/', 9);
    if has_scheme_sep(target) {
        if starts_gemini(target) && target.len() > 9 {
            lemma_find_from_bounds(target, '/', 9);
        }
    } else if target.len() > 0 && target[0] == '/' {
        let r2 = gemini_prefix() + host + target;
        assert(host.len() == p - 9);
        assert(forall|j: int|
            0 <= j < p ==> r2[j] == req[j]) by {
            assert(forall|j: int| 0 <= j < 9 ==> req.subrange(0, 9)[j] == req[j]);
            assert(forall|j: int| 9 <= j < p ==> host[j - 9] == req[j]);
        }
        assert(r2[p] == target[0]);
        lemma_sync_of(host, req, r2, p);
    } else if ends_gmi(target) {
        if ends_gmi(req) {
            lemma_rfind_bounds(req, '/');
            lemma_rfind_ge(req, '/', p);
            let cut = rfind(req, '/') + 1;
            let base = req.subrange(0, cut);
            let r2 = base + target;
            assert(forall|j: int| 0 <= j < p ==> r2[j] == req[j]);
            assert(r2[p] == req[p]);
            lemma_sync_of(host, req, r2, p);
        } else {
            let r2 = req + target;
            lemma_sync_of(host, req, r2, p);
        }
    } else {
        if req.len() > 0 && req.last() == '/' {
            lemma_sync_of(host, req, req + target, p);
        } else {
            let r2 = req.push('/') + target;
            assert(forall|j: int| 0 <= j < p ==> r2[j] == req[j]);
            assert(r2[p] == req[p]);
            lemma_sync_of(host, req, r2, p);
        }
    }
}

/// Law: resolution is a pure function of its three inputs — resolving the
/// same host, request and target twice yields the same outcome.
pub proof fn lemma_resolve_deterministic(
    h1: Seq<char>,
    r1: Seq<char>,
    t1: Seq<char>,
    h2: Seq<char>,
    r2: Seq<char>,
    t2: Seq<char>,
)
    requires
        h1 == h2,
        r1 == r2,
        t1 == t2,
    ensures
        resolve_spec(h1, r1, t1) == resolve_spec(h2, r2, t2),
{
}

} // verus!

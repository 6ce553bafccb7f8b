//! Character-level helpers shared by the parsers: whitespace classification,
//! conversion between `&str`, `Vec<char>` and `String`, and searches over
//! character sequences.

use vstd::prelude::*;

verus! {

broadcast use vstd::string::group_string_axioms;

use vstd::std_specs::iter::IteratorSpec;

/// The Unicode `White_Space` characters, exactly those that Rust's
/// `char::is_whitespace` accepts.
pub open spec fn is_wspace(c: char) -> bool {
    ||| c == '\u{0009}'
    ||| c == '\u{000A}'
    ||| c == '\u{000B}'
    ||| c == '\u{000C}'
    ||| c == '\u{000D}'
    ||| c == ' '
    ||| c == '\u{0085}'
    ||| c == '\u{00A0}'
    ||| c == '\u{1680}'
    ||| ('\u{2000}' <= c && c <= '\u{200A}')
    ||| c == '\u{2028}'
    ||| c == '\u{2029}'
    ||| c == '\u{202F}'
    ||| c == '\u{205F}'
    ||| c == '\u{3000}'
}

pub fn white_space(c: char) -> (r: bool)
    ensures
        r == is_wspace(c),
{
    c == '\u{0009}' || c == '\u{000A}' || c == '\u{000B}' || c == '\u{000C}' || c == '\u{000D}'
        || c == ' ' || c == '\u{0085}' || c == '\u{00A0}' || c == '\u{1680}' || ('\u{2000}' <= c
        && c <= '\u{200A}') || c == '\u{2028}' || c == '\u{2029}' || c == '\u{202F}' || c
        == '\u{205F}' || c == '\u{3000}'
}

/// The characters of `s`, in order, as a vector.
pub fn to_chars(s: &str) -> (r: Vec<char>)
    ensures
        r@ == s@,
{
    let mut it = s.chars();
    let mut r: Vec<char> = Vec::new();
    loop
        invariant
            it.decrease() is Some,
            r@ + it.remaining() == s@,
        ensures
            r@ == s@,
        decreases it.decrease()->0,
    {
        let ghost prev_r = r@;
        let ghost prev_rem = it.remaining();
        match it.next() {
            Some(c) => {
                r.push(c);
                proof {
                    assert(r@ + it.remaining() =~= prev_r + prev_rem);
                }
            },
            None => {
                proof {
                    assert(r@ =~= s@);
                }
                break ;
            },
        }
    }
    r
}

/// Relies on `Iterator::collect` building a `String` from characters: the
/// collected string holds exactly the characters of `v`, in order.
#[verifier::external_body]
pub fn chars_to_string(v: &Vec<char>) -> (r: String)
    ensures
        r@ == v@,
{
    v.iter().collect()
}

/// The elements of `v` from position `a` (inclusive) to `b` (exclusive).
pub fn sub_vec<T: Copy>(v: &Vec<T>, a: usize, b: usize) -> (r: Vec<T>)
    requires
        a <= b <= v@.len(),
    ensures
        r@ == v@.subrange(a as int, b as int),
{
    let mut r: Vec<T> = Vec::new();
    let mut i: usize = a;
    while i < b
        invariant
            a <= i <= b <= v@.len(),
            r@ == v@.subrange(a as int, i as int),
        decreases b - i,
    {
        r.push(v[i]);
        i = i + 1;
        proof {
            assert(r@ =~= v@.subrange(a as int, i as int));
        }
    }
    r
}

/// Position of the first occurrence of `c` in `s` at or after `i`, or `-1`
/// if there is none.
pub open spec fn find_from(s: Seq<char>, c: char, i: int) -> int
    decreases s.len() - i,
{
    if i < 0 || i >= s.len() {
        -1
    } else if s[i] == c {
        i
    } else {
        find_from(s, c, i + 1)
    }
}

pub proof fn lemma_find_from(s: Seq<char>, c: char, i: int, k: int)
    requires
        0 <= i <= k <= s.len(),
        forall|j: int| i <= j < k ==> s[j] != c,
        k < s.len() ==> s[k] == c,
    ensures
        find_from(s, c, i) == if k < s.len() {
            k
        } else {
            -1
        },
    decreases k - i,
{
    if i < k {
        lemma_find_from(s, c, i + 1, k);
    }
}

pub proof fn lemma_find_from_bounds(s: Seq<char>, c: char, i: int)
    requires
        0 <= i <= s.len(),
    ensures
        ({
            let p = find_from(s, c, i);
            &&& p == -1 || (i <= p < s.len() && s[p] == c)
            &&& forall|j: int|
                i <= j < (if p == -1 {
                    s.len() as int
                } else {
                    p
                }) ==> s[j] != c
        }),
    decreases s.len() - i,
{
    if i < s.len() && s[i] != c {
        lemma_find_from_bounds(s, c, i + 1);
    }
}

/// Position of the first whitespace character at or after `i`, or `s.len()`
/// if there is none.
pub open spec fn first_ws_from(s: Seq<char>, i: int) -> int
    decreases s.len() - i,
{
    if i < 0 || i >= s.len() {
        s.len() as int
    } else if is_wspace(s[i]) {
        i
    } else {
        first_ws_from(s, i + 1)
    }
}

pub proof fn lemma_first_ws_from(s: Seq<char>, i: int, k: int)
    requires
        0 <= i <= k <= s.len(),
        forall|j: int| i <= j < k ==> !is_wspace(s[j]),
        k < s.len() ==> is_wspace(s[k]),
    ensures
        first_ws_from(s, i) == k,
    decreases k - i,
{
    if i < k {
        lemma_first_ws_from(s, i + 1, k);
    }
}

/// Position of the first non-whitespace character at or after `i`, or
/// `s.len()` if there is none.
pub open spec fn first_non_ws_from(s: Seq<char>, i: int) -> int
    decreases s.len() - i,
{
    if i < 0 || i >= s.len() {
        s.len() as int
    } else if !is_wspace(s[i]) {
        i
    } else {
        first_non_ws_from(s, i + 1)
    }
}

pub proof fn lemma_first_non_ws_from(s: Seq<char>, i: int, k: int)
    requires
        0 <= i <= k <= s.len(),
        forall|j: int| i <= j < k ==> is_wspace(s[j]),
        k < s.len() ==> !is_wspace(s[k]),
    ensures
        first_non_ws_from(s, i) == k,
    decreases k - i,
{
    if i < k {
        lemma_first_non_ws_from(s, i + 1, k);
    }
}

/// `s` without its leading whitespace.
pub open spec fn trim_start_spec(s: Seq<char>) -> Seq<char> {
    s.skip(first_non_ws_from(s, 0))
}

/// Exec counterpart of [`first_non_ws_from`] starting at `from`.
pub fn first_non_ws(v: &Vec<char>, from: usize) -> (r: usize)
    requires
        from <= v@.len(),
    ensures
        r == first_non_ws_from(v@, from as int),
        from <= r <= v@.len(),
{
    let mut i: usize = from;
    while i < v.len() && white_space(v[i])
        invariant
            from <= i <= v@.len(),
            forall|j: int| from <= j < i ==> is_wspace(v@[j]),
        decreases v@.len() - i,
    {
        i = i + 1;
    }
    proof {
        lemma_first_non_ws_from(v@, from as int, i as int);
    }
    i
}

/// Exec counterpart of [`first_ws_from`] starting at `from`.
pub fn first_ws(v: &Vec<char>, from: usize) -> (r: usize)
    requires
        from <= v@.len(),
    ensures
        r == first_ws_from(v@, from as int),
        from <= r <= v@.len(),
{
    let mut i: usize = from;
    while i < v.len() && !white_space(v[i])
        invariant
            from <= i <= v@.len(),
            forall|j: int| from <= j < i ==> !is_wspace(v@[j]),
        decreases v@.len() - i,
    {
        i = i + 1;
    }
    proof {
        lemma_first_ws_from(v@, from as int, i as int);
    }
    i
}

/// `s` without its trailing whitespace.
pub open spec fn trim_end_spec(s: Seq<char>) -> Seq<char>
    decreases s.len(),
{
    if s.len() > 0 && is_wspace(s.last()) {
        trim_end_spec(s.drop_last())
    } else {
        s
    }
}

pub proof fn lemma_trim_end_take(s: Seq<char>, k: int)
    requires
        -1 <= k < s.len(),
        forall|j: int| k < j < s.len() ==> is_wspace(s[j]),
        k >= 0 ==> !is_wspace(s[k]),
    ensures
        trim_end_spec(s) == s.subrange(0, k + 1),
    decreases s.len(),
{
    if s.len() as int == k + 1 {
        assert(trim_end_spec(s) == s);
        assert(s.subrange(0, k + 1) =~= s);
    } else {
        assert(is_wspace(s.last()));
        lemma_trim_end_take(s.drop_last(), k);
        assert(s.drop_last().subrange(0, k + 1) =~= s.subrange(0, k + 1));
    }
}

/// The input without its trailing whitespace.
pub fn trim_end_vec(v: &Vec<char>) -> (r: Vec<char>)
    ensures
        r@ == trim_end_spec(v@),
{
    let mut j: usize = v.len();
    while j > 0 && white_space(v[j - 1])
        invariant
            j <= v@.len(),
            forall|i: int| j <= i < v@.len() ==> is_wspace(v@[i]),
        decreases j,
    {
        j = j - 1;
    }
    proof {
        lemma_trim_end_take(v@, j - 1);
    }
    sub_vec(v, 0, j)
}

} // verus!

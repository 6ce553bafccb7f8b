//! The lightweight markup parser: a text body becomes an ordered sequence
//! of typed blocks.  Lines are classified by their left-trimmed prefix;
//! consecutive list lines merge into one block; a pair of fence lines
//! delimits a preformatted block whose content is kept verbatim.

use crate::text::{
    chars_to_string, find_from, first_non_ws, first_non_ws_from, first_ws, first_ws_from,
    is_wspace, lemma_find_from, lemma_find_from_bounds, sub_vec, to_chars, trim_start_spec,
};
use vstd::prelude::*;

verus! {

#[derive(Debug)]
pub struct Gemtext {
    pub data: Vec<GemtextEntry>,
}

#[derive(Debug)]
pub enum GemtextEntry {
    Text(String),
    Link { url: String, label: String },
    MinorHeading(String),
    MediumHeading(String),
    MajorHeading(String),
    List(Vec<String>),
    Quote(String),
    Preformatted { alt_text: String, body: String },
}

#[derive(Debug)]
pub struct GemtextParseError {
    pub line: String,
    pub msg: String,
}

impl GemtextParseError {
    pub fn new(line: &str, msg: &str) -> (r: Self)
        ensures
            r.line@ == line@,
            r.msg@ == msg@,
    {
        Self { line: line.to_owned(), msg: msg.to_owned() }
    }

    /// A human-readable description of the failure.
    pub fn message(&self) -> (r: String)
        ensures
            r@ == "'"@ + self.msg@ + "' in line:\n    "@ + self.line@,
    {
        let mut r = "'".to_owned();
        r.append(self.msg.as_str());
        r.append("' in line:\n    ");
        r.append(self.line.as_str());
        r
    }
}

/// Mathematical model of a block: the same shape with the payloads as
/// character sequences.
pub enum EntryModel {
    Text(Seq<char>),
    Link { url: Seq<char>, label: Seq<char> },
    MinorHeading(Seq<char>),
    MediumHeading(Seq<char>),
    MajorHeading(Seq<char>),
    List(Seq<Seq<char>>),
    Quote(Seq<char>),
    Preformatted { alt_text: Seq<char>, body: Seq<char> },
}

pub open spec fn strings_view(s: Seq<String>) -> Seq<Seq<char>> {
    s.map_values(|x: String| x@)
}

impl View for GemtextEntry {
    type V = EntryModel;

    open spec fn view(&self) -> EntryModel {
        match self {
            GemtextEntry::Text(t) => EntryModel::Text(t@),
            GemtextEntry::Link { url, label } => EntryModel::Link { url: url@, label: label@ },
            GemtextEntry::MinorHeading(t) => EntryModel::MinorHeading(t@),
            GemtextEntry::MediumHeading(t) => EntryModel::MediumHeading(t@),
            GemtextEntry::MajorHeading(t) => EntryModel::MajorHeading(t@),
            GemtextEntry::List(items) => EntryModel::List(strings_view(items@)),
            GemtextEntry::Quote(t) => EntryModel::Quote(t@),
            GemtextEntry::Preformatted { alt_text, body } => EntryModel::Preformatted {
                alt_text: alt_text@,
                body: body@,
            },
        }
    }
}

pub open spec fn entries_view(s: Seq<GemtextEntry>) -> Seq<EntryModel> {
    s.map_values(|e: GemtextEntry| e@)
}

impl View for Gemtext {
    type V = Seq<EntryModel>;

    open spec fn view(&self) -> Seq<EntryModel> {
        entries_view(self.data@)
    }
}

// ---------------------------------------------------------------------
// Splitting the input into lines: split at every line feed, dropping one
// carriage return straight before it; the final line needs no terminator,
// and a terminator on the last line adds no empty line after it.
// ---------------------------------------------------------------------
pub open spec fn lines_spec(s: Seq<char>) -> Seq<Seq<char>>
    decreases s.len(),
{
    if s.len() == 0 {
        Seq::empty()
    } else {
        let p = find_from(s, '\n', 0);
        if p < 0 || p >= s.len() {
            seq![s]
        } else {
            let raw = s.subrange(0, p);
            let line = if raw.len() > 0 && raw.last() == '\r' {
                raw.drop_last()
            } else {
                raw
            };
            seq![line] + lines_spec(s.skip(p + 1))
        }
    }
}

// ---------------------------------------------------------------------
// Line classification, on the left-trimmed line.
// ---------------------------------------------------------------------
pub open spec fn is_fence(t: Seq<char>) -> bool {
    t.len() >= 3 && t[0] == '`' && t[1] == '`' && t[2] == '`'
}

pub open spec fn is_link(t: Seq<char>) -> bool {
    t.len() >= 2 && t[0] == '=' && t[1] == '>'
}

pub open spec fn is_minor(t: Seq<char>) -> bool {
    t.len() >= 4 && t[0] == '#' && t[1] == '#' && t[2] == '#' && t[3] == ' '
}

pub open spec fn is_medium(t: Seq<char>) -> bool {
    t.len() >= 3 && t[0] == '#' && t[1] == '#' && t[2] == ' '
}

pub open spec fn is_major(t: Seq<char>) -> bool {
    t.len() >= 2 && t[0] == '#' && t[1] == ' '
}

pub open spec fn is_item(t: Seq<char>) -> bool {
    t.len() >= 2 && t[0] == '*' && t[1] == ' '
}

pub open spec fn is_quote(t: Seq<char>) -> bool {
    t.len() >= 1 && t[0] == '>'
}

/// A line that joins no other block: not a link, heading, list item, quote
/// or fence line.
pub open spec fn is_plain(t: Seq<char>) -> bool {
    !is_link(t) && !is_minor(t) && !is_medium(t) && !is_major(t) && !is_item(t) && !is_quote(t)
        && !is_fence(t)
}

/// The first whitespace-delimited token after the link prefix.
pub open spec fn link_url(rest: Seq<char>) -> Seq<char> {
    let i = first_non_ws_from(rest, 0);
    let j = first_ws_from(rest, i);
    rest.subrange(i, j)
}

/// Everything after the token and the whitespace that follows it.
pub open spec fn link_label(rest: Seq<char>) -> Seq<char> {
    let i = first_non_ws_from(rest, 0);
    let j = first_ws_from(rest, i);
    let k = first_non_ws_from(rest, j);
    rest.subrange(k, rest.len() as int)
}

// ---------------------------------------------------------------------
// One pass over the lines with an explicit parser state.
// ---------------------------------------------------------------------
pub struct ParseState {
    pub pre: bool,
    pub alt: Seq<char>,
    pub buf: Seq<char>,
    pub started: bool,
    pub out: Seq<EntryModel>,
}

pub open spec fn init_state() -> ParseState {
    ParseState { pre: false, alt: Seq::empty(), buf: Seq::empty(), started: false, out: Seq::empty() }
}

/// How one raw line `l` advances the parser state.  In preformatted mode a
/// fence line closes and emits the block and anything else is captured
/// verbatim, joined with single line breaks; in normal mode the trimmed
/// line is classified by its prefix, a list line extends a directly
/// preceding list block, and a plain line keeps its original untrimmed
/// text.
pub open spec fn step_line(st: ParseState, l: Seq<char>) -> ParseState {
    let t = trim_start_spec(l);
    if st.pre {
        if is_fence(t) {
            ParseState {
                pre: false,
                alt: Seq::empty(),
                buf: Seq::empty(),
                started: false,
                out: st.out.push(EntryModel::Preformatted { alt_text: st.alt, body: st.buf }),
            }
        } else {
            ParseState {
                buf: if st.started {
                    st.buf + seq!['\n'] + l
                } else {
                    l
                },
                started: true,
                ..st
            }
        }
    } else if is_link(t) {
        let rest = t.skip(2);
        ParseState {
            out: st.out.push(EntryModel::Link { url: link_url(rest), label: link_label(rest) }),
            ..st
        }
    } else if is_minor(t) {
        ParseState { out: st.out.push(EntryModel::MinorHeading(t.skip(4))), ..st }
    } else if is_medium(t) {
        ParseState { out: st.out.push(EntryModel::MediumHeading(t.skip(3))), ..st }
    } else if is_major(t) {
        ParseState { out: st.out.push(EntryModel::MajorHeading(t.skip(2))), ..st }
    } else if is_item(t) {
        let item = t.skip(2);
        if st.out.len() == 0 {
            ParseState { out: st.out.push(EntryModel::List(seq![item])), ..st }
        } else {
            match st.out.last() {
                EntryModel::List(items) => ParseState {
                    out: st.out.update(st.out.len() - 1, EntryModel::List(items.push(item))),
                    ..st
                },
                _ => ParseState { out: st.out.push(EntryModel::List(seq![item])), ..st },
            }
        }
    } else if is_quote(t) {
        ParseState { out: st.out.push(EntryModel::Quote(t.skip(1))), ..st }
    } else if is_fence(t) {
        ParseState { pre: true, alt: t.skip(3), ..st }
    } else {
        ParseState { out: st.out.push(EntryModel::Text(l)), ..st }
    }
}

pub open spec fn run_lines(st: ParseState, lines: Seq<Seq<char>>) -> ParseState
    decreases lines.len(),
{
    if lines.len() == 0 {
        st
    } else {
        run_lines(step_line(st, lines[0]), lines.drop_first())
    }
}

/// What parsing a body yields: the blocks after all lines are processed.
/// A preformatted block still open at end of input is dropped.
pub open spec fn parse_gemtext_spec(s: Seq<char>) -> Seq<EntryModel> {
    run_lines(init_state(), lines_spec(s)).out
}

pub open spec fn views_of(s: Seq<Vec<char>>) -> Seq<Seq<char>> {
    s.map_values(|l: Vec<char>| l@)
}

proof fn lemma_views_push(s: Seq<Vec<char>>, x: Vec<char>)
    ensures
        views_of(s.push(x)) == views_of(s).push(x@),
{
    assert(views_of(s.push(x)) =~= views_of(s).push(x@));
}

proof fn lemma_entries_push(s: Seq<GemtextEntry>, e: GemtextEntry)
    ensures
        entries_view(s.push(e)) == entries_view(s).push(e@),
{
    assert(entries_view(s.push(e)) =~= entries_view(s).push(e@));
}

proof fn lemma_strings_push(s: Seq<String>, x: String)
    ensures
        strings_view(s.push(x)) == strings_view(s).push(x@),
{
    assert(strings_view(s.push(x)) =~= strings_view(s).push(x@));
}

/// Splits the input into its lines, as [`lines_spec`] describes.
pub fn split_lines(v: &Vec<char>) -> (r: Vec<Vec<char>>)
    ensures
        views_of(r@) == lines_spec(v@),
{
    let mut r: Vec<Vec<char>> = Vec::new();
    let mut start: usize = 0;
    let mut i: usize = 0;
    let n = v.len();
    proof {
        assert(v@.skip(0) =~= v@);
        assert(views_of(r@) + lines_spec(v@) =~= lines_spec(v@));
    }
    while i < n
        invariant
            start <= i <= n == v@.len(),
            forall|j: int| start <= j < i ==> v@[j] != '\n',
            lines_spec(v@) == views_of(r@) + lines_spec(v@.skip(start as int)),
        decreases n - i,
    {
        if v[i] == '\n' {
            let line = if i > start && v[i - 1] == '\r' {
                sub_vec(v, start, i - 1)
            } else {
                sub_vec(v, start, i)
            };
            proof {
                let tail = v@.skip(start as int);
                let p = i - start as int;
                assert(forall|j: int| 0 <= j < p ==> tail[j] != '\n');
                assert(tail[p] == '\n');
                lemma_find_from(tail, '\n', 0, p);
                let raw = tail.subrange(0, p);
                assert(raw =~= v@.subrange(start as int, i as int));
                if i > start && v@[i - 1] == '\r' {
                    assert(raw.len() > 0 && raw.last() == '\r');
                    assert(raw.drop_last() =~= v@.subrange(start as int, i - 1));
                    assert(line@ == raw.drop_last());
                } else {
                    assert(!(raw.len() > 0 && raw.last() == '\r'));
                    assert(line@ == raw);
                }
                assert(tail.skip(p + 1) =~= v@.skip(i + 1));
                assert(lines_spec(tail) == seq![line@] + lines_spec(v@.skip(i + 1)));
                lemma_views_push(r@, line);
                assert(views_of(r@.push(line)) + lines_spec(v@.skip(i + 1)) =~= views_of(r@) + (
                seq![line@] + lines_spec(v@.skip(i + 1))));
            }
            r.push(line);
            start = i + 1;
        }
        i = i + 1;
    }
    if start < n {
        let line = sub_vec(v, start, n);
        proof {
            let tail = v@.skip(start as int);
            assert(forall|j: int| 0 <= j < tail.len() ==> tail[j] != '\n');
            lemma_find_from(tail, '\n', 0, tail.len() as int);
            assert(tail.len() > 0);
            assert(lines_spec(tail) == seq![tail]);
            assert(line@ =~= tail);
            lemma_views_push(r@, line);
            assert(views_of(r@.push(line)) =~= views_of(r@) + seq![tail]);
        }
        r.push(line);
    } else {
        proof {
            assert(v@.skip(start as int).len() == 0);
            assert(lines_spec(v@.skip(start as int)) == Seq::<Seq<char>>::empty());
            assert(views_of(r@) + Seq::<Seq<char>>::empty() =~= views_of(r@));
        }
    }
    r
}

pub proof fn lemma_run_lines_snoc(st: ParseState, lines: Seq<Seq<char>>, l: Seq<char>)
    ensures
        run_lines(st, lines.push(l)) == step_line(run_lines(st, lines), l),
    decreases lines.len(),
{
    if lines.len() == 0 {
        assert(lines.push(l)[0] == l);
        assert(lines.push(l).drop_first() =~= Seq::<Seq<char>>::empty());
        assert(run_lines(st, lines.push(l)) == run_lines(
            step_line(st, l),
            Seq::<Seq<char>>::empty(),
        ));
        assert(run_lines(step_line(st, l), Seq::<Seq<char>>::empty()) == step_line(st, l));
        assert(run_lines(st, lines) == st);
    } else {
        assert(lines.push(l)[0] == lines[0]);
        assert(lines.push(l).drop_first() =~= lines.drop_first().push(l));
        assert(run_lines(st, lines.push(l)) == run_lines(
            step_line(st, lines[0]),
            lines.drop_first().push(l),
        ));
        assert(run_lines(st, lines) == run_lines(step_line(st, lines[0]), lines.drop_first()));
        lemma_run_lines_snoc(step_line(st, lines[0]), lines.drop_first(), l);
    }
}

// ---------------------------------------------------------------------
// Laws.
// ---------------------------------------------------------------------
/// The lines joined again with a line break between consecutive lines.
pub open spec fn join_lines(lines: Seq<Seq<char>>) -> Seq<char>
    decreases lines.len(),
{
    if lines.len() == 0 {
        Seq::empty()
    } else if lines.len() == 1 {
        lines[0]
    } else {
        lines[0] + seq!['\n'] + join_lines(lines.drop_first())
    }
}

proof fn lemma_run_plain(st: ParseState, lines: Seq<Seq<char>>)
    requires
        !st.pre,
        forall|i: int| 0 <= i < lines.len() ==> is_plain(trim_start_spec(#[trigger] lines[i])),
    ensures
        run_lines(st, lines).out == st.out + lines.map_values(|l: Seq<char>| EntryModel::Text(l)),
    decreases lines.len(),
{
    let f = |l: Seq<char>| EntryModel::Text(l);
    if lines.len() == 0 {
        assert(st.out + lines.map_values(f) =~= st.out);
    } else {
        let st1 = step_line(st, lines[0]);
        assert(is_plain(trim_start_spec(lines[0])));
        assert(st1.out == st.out.push(EntryModel::Text(lines[0])));
        assert(!st1.pre);
        let df = lines.drop_first();
        assert forall|i: int| 0 <= i < df.len() implies is_plain(
            trim_start_spec(#[trigger] df[i]),
        ) by {
            assert(df[i] == lines[i + 1]);
        }
        lemma_run_plain(st1, df);
        assert(st.out.push(EntryModel::Text(lines[0])) + df.map_values(f) =~= st.out
            + lines.map_values(f));
    }
}

proof fn lemma_join_lines(s: Seq<char>)
    requires
        !s.contains('\r'),
        s.len() > 0 ==> s.last() != '\n',
    ensures
        join_lines(lines_spec(s)) == s,
    decreases s.len(),
{
    if s.len() > 0 {
        lemma_find_from_bounds(s, '\n', 0);
        let p = find_from(s, '\n', 0);
        if p < 0 {
            assert(lines_spec(s) == seq![s]);
            assert(join_lines(seq![s]) == s);
        } else {
            assert(s[p] == '\n');
            assert(p < s.len() - 1) by {
                assert(s.last() != '\n');
            }
            let raw = s.subrange(0, p);
            assert(!(raw.len() > 0 && raw.last() == '\r')) by {
                if raw.len() > 0 && raw.last() == '\r' {
                    assert(s[p - 1] == '\r');
                    assert(s.contains('\r'));
                }
            }
            let rest = s.skip(p + 1);
            assert(rest.len() > 0);
            assert(rest.last() == s.last());
            assert(!rest.contains('\r')) by {
                if rest.contains('\r') {
                    let i = choose|i: int| 0 <= i < rest.len() && rest[i] == '\r';
                    assert(s[p + 1 + i] == '\r');
                    assert(s.contains('\r'));
                }
            }
            lemma_join_lines(rest);
            assert(lines_spec(s) == seq![raw] + lines_spec(rest));
            let tail_lines = lines_spec(rest);
            assert(tail_lines.len() >= 1) by {
                lemma_find_from_bounds(rest, '\n', 0);
            }
            let all = seq![raw] + tail_lines;
            assert(all.len() >= 2);
            assert(all[0] == raw);
            assert(all.drop_first() =~= tail_lines);
            assert(join_lines(all) == raw + seq!['\n'] + rest);
            assert(raw + seq!['\n'] + rest =~= s);
        }
    }
}

/// Law: a body whose every line is plain text parses to exactly one
/// `Text` block per line, and joining those lines with line breaks
/// reproduces the body.  Bodies holding a carriage return or ending with
/// a line feed are left out: line splitting normalises those.
pub proof fn lemma_text_round_trip(s: Seq<char>)
    requires
        !s.contains('\r'),
        s.len() > 0 ==> s.last() != '\n',
        forall|i: int|
            0 <= i < lines_spec(s).len() ==> is_plain(
                trim_start_spec(#[trigger] lines_spec(s)[i]),
            ),
    ensures
        parse_gemtext_spec(s) == lines_spec(s).map_values(|l: Seq<char>| EntryModel::Text(l)),
        join_lines(lines_spec(s)) == s,
{
    lemma_run_plain(init_state(), lines_spec(s));
    assert(Seq::<EntryModel>::empty() + lines_spec(s).map_values(
        |l: Seq<char>| EntryModel::Text(l),
    ) =~= lines_spec(s).map_values(|l: Seq<char>| EntryModel::Text(l)));
    lemma_join_lines(s);
}

pub proof fn lemma_run_lines_concat(st: ParseState, l1: Seq<Seq<char>>, l2: Seq<Seq<char>>)
    ensures
        run_lines(st, l1 + l2) == run_lines(run_lines(st, l1), l2),
    decreases l1.len(),
{
    if l1.len() == 0 {
        assert(l1 + l2 =~= l2);
        assert(run_lines(st, l1) == st);
    } else {
        assert((l1 + l2)[0] == l1[0]);
        assert((l1 + l2).drop_first() =~= l1.drop_first() + l2);
        assert(run_lines(st, l1 + l2) == run_lines(step_line(st, l1[0]), l1.drop_first() + l2));
        lemma_run_lines_concat(step_line(st, l1[0]), l1.drop_first(), l2);
    }
}

proof fn lemma_run_no_fence_normal(st: ParseState, lines: Seq<Seq<char>>)
    requires
        !st.pre,
        forall|i: int| 0 <= i < lines.len() ==> !is_fence(trim_start_spec(#[trigger] lines[i])),
        forall|i: int| 0 <= i < st.out.len() ==> !(#[trigger] st.out[i] is Preformatted),
    ensures
        !run_lines(st, lines).pre,
        forall|i: int|
            0 <= i < run_lines(st, lines).out.len() ==> !(#[trigger] run_lines(st, lines).out[i]
                is Preformatted),
    decreases lines.len(),
{
    if lines.len() > 0 {
        let st1 = step_line(st, lines[0]);
        assert(!is_fence(trim_start_spec(lines[0])));
        assert(!st1.pre);
        assert(forall|i: int| 0 <= i < st1.out.len() ==> !(#[trigger] st1.out[i] is Preformatted));
        let df = lines.drop_first();
        assert forall|i: int| 0 <= i < df.len() implies !is_fence(
            trim_start_spec(#[trigger] df[i]),
        ) by {
            assert(df[i] == lines[i + 1]);
        }
        lemma_run_no_fence_normal(st1, df);
    }
}

proof fn lemma_run_no_fence_pre(st: ParseState, lines: Seq<Seq<char>>)
    requires
        st.pre,
        forall|i: int| 0 <= i < lines.len() ==> !is_fence(trim_start_spec(#[trigger] lines[i])),
    ensures
        run_lines(st, lines).out == st.out,
    decreases lines.len(),
{
    if lines.len() > 0 {
        let st1 = step_line(st, lines[0]);
        assert(!is_fence(trim_start_spec(lines[0])));
        assert(st1.pre && st1.out == st.out);
        let df = lines.drop_first();
        assert forall|i: int| 0 <= i < df.len() implies !is_fence(
            trim_start_spec(#[trigger] df[i]),
        ) by {
            assert(df[i] == lines[i + 1]);
        }
        lemma_run_no_fence_pre(st1, df);
    }
}

/// Law: an opening fence with no later fence line before end of input
/// yields a document without any preformatted block — the buffered
/// section is dropped.  `k` is the position of the only fence line.
pub proof fn lemma_unterminated_fence_drops(s: Seq<char>, k: int)
    requires
        0 <= k < lines_spec(s).len(),
        is_fence(trim_start_spec(lines_spec(s)[k])),
        forall|j: int|
            0 <= j < lines_spec(s).len() && j != k ==> !is_fence(
                trim_start_spec(#[trigger] lines_spec(s)[j]),
            ),
    ensures
        forall|i: int|
            0 <= i < parse_gemtext_spec(s).len() ==> !(#[trigger] parse_gemtext_spec(s)[i]
                is Preformatted),
{
    let lines = lines_spec(s);
    let before = lines.take(k);
    let at = lines.subrange(k, k + 1);
    let after = lines.skip(k + 1);
    assert(lines =~= before + (at + after));
    lemma_run_lines_concat(init_state(), before, at + after);
    assert forall|i: int| 0 <= i < before.len() implies !is_fence(
        trim_start_spec(#[trigger] before[i]),
    ) by {
        assert(before[i] == lines[i]);
    }
    lemma_run_no_fence_normal(init_state(), before);
    let st_a = run_lines(init_state(), before);
    lemma_run_lines_concat(st_a, at, after);
    assert(at[0] == lines[k]);
    assert(at.drop_first() =~= Seq::<Seq<char>>::empty());
    let st_f = step_line(st_a, lines[k]);
    assert(run_lines(st_a, at) == run_lines(st_f, at.drop_first()));
    assert(run_lines(st_f, Seq::<Seq<char>>::empty()) == st_f);
    assert(run_lines(st_a, at) == st_f);
    assert(st_f.pre && st_f.out == st_a.out);
    assert forall|i: int| 0 <= i < after.len() implies !is_fence(
        trim_start_spec(#[trigger] after[i]),
    ) by {
        assert(after[i] == lines[k + 1 + i]);
    }
    lemma_run_no_fence_pre(st_f, after);
    assert(run_lines(init_state(), lines).out == st_a.out);
}

/// Law: consecutive list lines merge — a body of exactly three list lines
/// parses to a single list block holding the three items in order.
pub proof fn lemma_three_list_lines_one_block(s: Seq<char>, a: Seq<char>, b: Seq<char>, c: Seq<
    char,
>)
    requires
        lines_spec(s) == seq![
            seq!['*', ' '] + a,
            seq!['*', ' '] + b,
            seq!['*', ' '] + c,
        ],
    ensures
        parse_gemtext_spec(s) == seq![EntryModel::List(seq![a, b, c])],
{
    let lines = lines_spec(s);
    let la = seq!['*', ' '] + a;
    let lb = seq!['*', ' '] + b;
    let lc = seq!['*', ' '] + c;
    assert(!is_wspace('*'));
    assert(trim_start_spec(la) == la && trim_start_spec(lb) == lb && trim_start_spec(lc) == lc);
    assert(la.skip(2) =~= a && lb.skip(2) =~= b && lc.skip(2) =~= c);
    let st1 = step_line(init_state(), la);
    assert(st1.out =~= seq![EntryModel::List(seq![a])]);
    let st2 = step_line(st1, lb);
    assert(st2.out =~= seq![EntryModel::List(seq![a, b])]) by {
        assert(st1.out.last() == EntryModel::List(seq![a]));
        assert(seq![a].push(b) =~= seq![a, b]);
        assert(st1.out.update(0, EntryModel::List(seq![a, b])) =~= seq![
            EntryModel::List(seq![a, b]),
        ]);
    }
    let st3 = step_line(st2, lc);
    assert(st3.out =~= seq![EntryModel::List(seq![a, b, c])]) by {
        assert(st2.out.last() == EntryModel::List(seq![a, b]));
        assert(seq![a, b].push(c) =~= seq![a, b, c]);
        assert(st2.out.update(0, EntryModel::List(seq![a, b, c])) =~= seq![
            EntryModel::List(seq![a, b, c]),
        ]);
    }
    assert(lines[0] == la && lines[1] == lb && lines[2] == lc);
    assert(lines.drop_first() =~= seq![lb, lc]);
    assert(run_lines(init_state(), lines) == run_lines(st1, seq![lb, lc]));
    assert(seq![lb, lc][0] == lb && seq![lb, lc].drop_first() =~= seq![lc]);
    assert(run_lines(st1, seq![lb, lc]) == run_lines(st2, seq![lc]));
    assert(seq![lc][0] == lc && seq![lc].drop_first() =~= Seq::<Seq<char>>::empty());
    assert(run_lines(st2, seq![lc]) == run_lines(st3, Seq::<Seq<char>>::empty()));
    assert(run_lines(st3, Seq::<Seq<char>>::empty()) == st3);
}

/// Law: a plain line between two list lines keeps the lists apart — the
/// body parses to two single-item list blocks around one text block.
pub proof fn lemma_list_lines_kept_apart(s: Seq<char>, a: Seq<char>, t: Seq<char>, b: Seq<char>)
    requires
        lines_spec(s) == seq![seq!['*', ' '] + a, t, seq!['*', ' '] + b],
        is_plain(trim_start_spec(t)),
    ensures
        parse_gemtext_spec(s) == seq![
            EntryModel::List(seq![a]),
            EntryModel::Text(t),
            EntryModel::List(seq![b]),
        ],
{
    let lines = lines_spec(s);
    let la = seq!['*', ' '] + a;
    let lb = seq!['*', ' '] + b;
    assert(!is_wspace('*'));
    assert(trim_start_spec(la) == la && trim_start_spec(lb) == lb);
    assert(la.skip(2) =~= a && lb.skip(2) =~= b);
    let st1 = step_line(init_state(), la);
    assert(st1.out =~= seq![EntryModel::List(seq![a])]);
    let st2 = step_line(st1, t);
    assert(st2.out =~= seq![EntryModel::List(seq![a]), EntryModel::Text(t)]);
    let st3 = step_line(st2, lb);
    assert(st3.out =~= seq![
        EntryModel::List(seq![a]),
        EntryModel::Text(t),
        EntryModel::List(seq![b]),
    ]) by {
        assert(st2.out.last() == EntryModel::Text(t));
    }
    assert(lines[0] == la && lines[1] == t && lines[2] == lb);
    assert(lines.drop_first() =~= seq![t, lb]);
    assert(run_lines(init_state(), lines) == run_lines(st1, seq![t, lb]));
    assert(seq![t, lb][0] == t && seq![t, lb].drop_first() =~= seq![lb]);
    assert(run_lines(st1, seq![t, lb]) == run_lines(st2, seq![lb]));
    assert(seq![lb][0] == lb && seq![lb].drop_first() =~= Seq::<Seq<char>>::empty());
    assert(run_lines(st2, seq![lb]) == run_lines(st3, Seq::<Seq<char>>::empty()));
    assert(run_lines(st3, Seq::<Seq<char>>::empty()) == st3);
}

impl Gemtext {
    /// Parses a body into its blocks; the result is exactly what
    /// [`parse_gemtext_spec`] yields on it.  Parsing never fails.
    pub fn from_str(s: &str) -> (r: Gemtext)
        ensures
            r@ == parse_gemtext_spec(s@),
    {
        let chars = to_chars(s);
        let lines = split_lines(&chars);
        let mut out: Vec<GemtextEntry> = Vec::new();
        let mut pre = false;
        let mut started = false;
        let mut alt: Vec<char> = Vec::new();
        let mut buf: Vec<char> = Vec::new();
        let mut k: usize = 0;
        proof {
            assert(lines_spec(s@).take(0) =~= Seq::<Seq<char>>::empty());
        }
        while k < lines.len()
            invariant
                k <= lines@.len(),
                views_of(lines@) == lines_spec(s@),
                ({
                    let st = run_lines(init_state(), lines_spec(s@).take(k as int));
                    &&& st.pre == pre
                    &&& st.started == started
                    &&& st.alt == alt@
                    &&& st.buf == buf@
                    &&& st.out == entries_view(out@)
                }),
            decreases lines@.len() - k,
        {
            let ghost st = run_lines(init_state(), lines_spec(s@).take(k as int));
            let l = &lines[k];
            proof {
                assert(lines_spec(s@)[k as int] == l@);
                assert(lines_spec(s@).take(k + 1) =~= lines_spec(s@).take(k as int).push(l@));
                lemma_run_lines_snoc(init_state(), lines_spec(s@).take(k as int), l@);
            }
            let tstart = first_non_ws(l, 0);
            let tv = sub_vec(l, tstart, l.len());
            proof {
                assert(tv@ =~= trim_start_spec(l@));
            }
            if pre {
                if tv.len() >= 3 && tv[0] == '`' && tv[1] == '`' && tv[2] == '`' {
                    let e = GemtextEntry::Preformatted {
                        alt_text: chars_to_string(&alt),
                        body: chars_to_string(&buf),
                    };
                    proof {
                        lemma_entries_push(out@, e);
                    }
                    out.push(e);
                    alt = Vec::new();
                    buf = Vec::new();
                    started = false;
                    pre = false;
                } else {
                    if started {
                        let ghost buf0 = buf@;
                        buf.push('\n');
                        buf.extend_from_slice(l.as_slice());
                        proof {
                            assert(buf@ =~= buf0 + seq!['\n'] + l@);
                        }
                    } else {
                        buf.clear();
                        buf.extend_from_slice(l.as_slice());
                        proof {
                            assert(buf@ =~= l@);
                        }
                    }
                    started = true;
                }
            } else if tv.len() >= 2 && tv[0] == '=' && tv[1] == '>' {
                let rest = sub_vec(&tv, 2, tv.len());
                proof {
                    assert(rest@ =~= tv@.skip(2));
                }
                let i0 = first_non_ws(&rest, 0);
                let j0 = first_ws(&rest, i0);
                let k0 = first_non_ws(&rest, j0);
                let url = chars_to_string(&sub_vec(&rest, i0, j0));
                let label = chars_to_string(&sub_vec(&rest, k0, rest.len()));
                let e = GemtextEntry::Link { url, label };
                proof {
                    assert(e@ == EntryModel::Link {
                        url: link_url(rest@),
                        label: link_label(rest@),
                    });
                    lemma_entries_push(out@, e);
                }
                out.push(e);
            } else if tv.len() >= 4 && tv[0] == '#' && tv[1] == '#' && tv[2] == '#' && tv[3]
                == ' ' {
                let e = GemtextEntry::MinorHeading(chars_to_string(&sub_vec(&tv, 4, tv.len())));
                proof {
                    assert(tv@.subrange(4, tv@.len() as int) =~= tv@.skip(4));
                    lemma_entries_push(out@, e);
                }
                out.push(e);
            } else if tv.len() >= 3 && tv[0] == '#' && tv[1] == '#' && tv[2] == ' ' {
                let e = GemtextEntry::MediumHeading(chars_to_string(&sub_vec(&tv, 3, tv.len())));
                proof {
                    assert(tv@.subrange(3, tv@.len() as int) =~= tv@.skip(3));
                    lemma_entries_push(out@, e);
                }
                out.push(e);
            } else if tv.len() >= 2 && tv[0] == '#' && tv[1] == ' ' {
                let e = GemtextEntry::MajorHeading(chars_to_string(&sub_vec(&tv, 2, tv.len())));
                proof {
                    assert(tv@.subrange(2, tv@.len() as int) =~= tv@.skip(2));
                    lemma_entries_push(out@, e);
                }
                out.push(e);
            } else if tv.len() >= 2 && tv[0] == '*' && tv[1] == ' ' {
                let item_s = chars_to_string(&sub_vec(&tv, 2, tv.len()));
                proof {
                    assert(tv@.subrange(2, tv@.len() as int) =~= tv@.skip(2));
                }
                if out.len() > 0 && matches!(&out[out.len() - 1], GemtextEntry::List(_)) {
                    let ghost prev = out@;
                    let popped = match out.pop() {
                        Some(p) => p,
                        None => {
                            proof {
                                assert(false);
                            }
                            GemtextEntry::Text(item_s.clone())
                        },
                    };
                    match popped {
                        GemtextEntry::List(mut items) => {
                            proof {
                                assert(entries_view(prev).last() == popped@);
                                lemma_strings_push(items@, item_s);
                            }
                            items.push(item_s);
                            let e = GemtextEntry::List(items);
                            proof {
                                assert(entries_view(prev.drop_last().push(e)) =~= entries_view(
                                    prev,
                                ).update(prev.len() - 1, e@));
                            }
                            out.push(e);
                        },
                        _ => {
                            proof {
                                assert(false);
                            }
                        },
                    }
                } else {
                    let mut items: Vec<String> = Vec::new();
                    items.push(item_s);
                    let e = GemtextEntry::List(items);
                    proof {
                        assert(strings_view(items@) =~= seq![items@[0]@]);
                        lemma_entries_push(out@, e);
                    }
                    out.push(e);
                }
            } else if tv.len() >= 1 && tv[0] == '>' {
                let e = GemtextEntry::Quote(chars_to_string(&sub_vec(&tv, 1, tv.len())));
                proof {
                    assert(tv@.subrange(1, tv@.len() as int) =~= tv@.skip(1));
                    lemma_entries_push(out@, e);
                }
                out.push(e);
            } else if tv.len() >= 3 && tv[0] == '`' && tv[1] == '`' && tv[2] == '`' {
                alt = sub_vec(&tv, 3, tv.len());
                proof {
                    assert(tv@.subrange(3, tv@.len() as int) =~= tv@.skip(3));
                }
                pre = true;
            } else {
                let e = GemtextEntry::Text(chars_to_string(l));
                proof {
                    lemma_entries_push(out@, e);
                }
                out.push(e);
            }
            k = k + 1;
        }
        proof {
            assert(lines_spec(s@).take(lines@.len() as int) =~= lines_spec(s@));
        }
        Gemtext { data: out }
    }
}

} // verus!

//! Parsing of marker-delimited highlight strings.
//!
//! A `*` toggles the highlight state. The markers are removed from the text;
//! each closed run is reported as a half-open range of character positions in
//! the text that remains.
use vstd::prelude::*;

verus! {

/// The toggle character that opens and closes a highlighted run.
pub const MARKER: char = '*';

/// The parser's state after consuming a prefix of the input.
pub struct ParseState {
    /// Characters copied so far (every input character but the markers).
    pub plain: Seq<char>,
    /// Closed runs, in order.
    pub ranges: Seq<(int, int)>,
    /// Whether a run is currently open.
    pub open: bool,
    /// Where the open (or most recently opened) run starts.
    pub start: int,
}

/// The state before any input: nothing copied, no run open.
pub open spec fn initial_state() -> ParseState {
    ParseState { plain: Seq::empty(), ranges: Seq::empty(), open: false, start: 0 }
}

/// One parser step on character `c`.
pub open spec fn step(st: ParseState, c: char) -> ParseState {
    if c == MARKER {
        if st.open {
            ParseState {
                ranges: st.ranges.push((st.start, st.plain.len() as int)),
                open: false,
                ..st
            }
        } else {
            ParseState { open: true, start: st.plain.len() as int, ..st }
        }
    } else {
        ParseState { plain: st.plain.push(c), ..st }
    }
}

/// The state reached from `st` after consuming all of `s`, left to right.
pub open spec fn run(st: ParseState, s: Seq<char>) -> ParseState
    decreases s.len(),
{
    if s.len() == 0 {
        st
    } else {
        step(run(st, s.drop_last()), s.last())
    }
}

/// The parse of a whole marked string.
pub open spec fn parse(s: Seq<char>) -> ParseState {
    run(initial_state(), s)
}

/// Ranges of machine integers seen as ranges of mathematical integers.
pub open spec fn ranges_view(v: Seq<(usize, usize)>) -> Seq<(int, int)> {
    v.map_values(|r: (usize, usize)| (r.0 as int, r.1 as int))
}

/// Splits `highlighted_text` into its plain text and its highlighted ranges.
///
/// Markers never reach the plain text. Ranges are counted in characters of the
/// plain text; only runs that are closed by a second marker are reported, and
/// two adjacent markers give an empty range.
pub fn parse_highlight_text(highlighted_text: &str) -> (r: (String, Vec<(usize, usize)>))
    ensures
        r.0@ == parse(highlighted_text@).plain,
        ranges_view(r.1@) == parse(highlighted_text@).ranges,
{
    let n = highlighted_text.unicode_len();
    let mut plain_text = String::new();
    let mut ranges: Vec<(usize, usize)> = Vec::new();
    let mut highlight_start: usize = 0;
    let mut plain_len: usize = 0;
    let mut in_highlight = false;
    let ghost s = highlighted_text@;
    for c in it: highlighted_text.chars()
        invariant
            n == s.len(),
            s == highlighted_text@,
            it.seq() == s,
            plain_len == plain_text@.len(),
            plain_len <= it.index(),
            plain_text@ == run(initial_state(), s.take(it.index() as int)).plain,
            ranges_view(ranges@) == run(initial_state(), s.take(it.index() as int)).ranges,
            in_highlight == run(initial_state(), s.take(it.index() as int)).open,
            highlight_start as int == run(initial_state(), s.take(it.index() as int)).start,
    {
        let ghost i = it.index();
        proof {
            assert(s.take(i + 1).drop_last() == s.take(i as int));
        }
        if c == MARKER {
            if in_highlight {
                let ghost before = ranges@;
                ranges.push((highlight_start, plain_len));
                in_highlight = false;
                proof {
                    assert(ranges_view(ranges@) =~= ranges_view(before).push(
                        (highlight_start as int, plain_len as int),
                    ));
                }
            } else {
                highlight_start = plain_len;
                in_highlight = true;
            }
        } else {
            plain_text.push(c);
            plain_len = plain_len + 1;
        }
    }
    proof {
        assert(s.take(n as int) == s);
    }
    (plain_text, ranges)
}

/// Whether `s` holds no marker.
pub open spec fn marker_free(s: Seq<char>) -> bool {
    forall|i: int| 0 <= i < s.len() ==> s[i] != MARKER
}

/// Whether `rs` are sorted, non-overlapping ranges of a text of length `len`,
/// none of them starting before `from`.
pub open spec fn well_placed(rs: Seq<(int, int)>, from: int, len: int) -> bool {
    &&& forall|k: int| 0 <= k < rs.len() ==> from <= #[trigger] rs[k].0 <= rs[k].1 <= len
    &&& forall|k: int| 0 <= k < rs.len() - 1 ==> #[trigger] rs[k].1 <= rs[k + 1].0
}

/// The text of `t` from position `from` on, with each range of `rs` enclosed
/// in a pair of markers.
pub open spec fn wrap(t: Seq<char>, rs: Seq<(int, int)>, from: int) -> Seq<char>
    decreases rs.len(),
{
    if rs.len() == 0 {
        t.subrange(from, t.len() as int)
    } else {
        t.subrange(from, rs[0].0) + seq![MARKER] + t.subrange(rs[0].0, rs[0].1) + seq![MARKER]
            + wrap(t, rs.drop_first(), rs[0].1)
    }
}

proof fn lemma_run_concat(st: ParseState, a: Seq<char>, b: Seq<char>)
    ensures
        run(st, a + b) == run(run(st, a), b),
    decreases b.len(),
{
    if b.len() == 0 {
        assert(a + b == a);
    } else {
        assert((a + b).drop_last() == a + b.drop_last());
        lemma_run_concat(st, a, b.drop_last());
    }
}

proof fn lemma_run_plain(st: ParseState, u: Seq<char>)
    requires
        marker_free(u),
    ensures
        run(st, u) == (ParseState { plain: st.plain + u, ..st }),
    decreases u.len(),
{
    if u.len() == 0 {
        assert(st.plain + u =~= st.plain);
    } else {
        lemma_run_plain(st, u.drop_last());
        assert(u.last() == u[u.len() - 1]);
        assert((st.plain + u.drop_last()).push(u.last()) =~= st.plain + u);
    }
}

proof fn lemma_run_marker(st: ParseState)
    ensures
        run(st, seq![MARKER]) == step(st, MARKER),
{
    assert(seq![MARKER].drop_last() =~= Seq::<char>::empty());
    assert(seq![MARKER].last() == MARKER);
    assert(run(st, Seq::<char>::empty()) == st);
}

proof fn lemma_first_end_precedes(rs: Seq<(int, int)>, from: int, len: int, k: int)
    requires
        well_placed(rs, from, len),
        1 <= k < rs.len(),
    ensures
        rs[0].1 <= rs[k].0,
    decreases k,
{
    if k > 1 {
        lemma_first_end_precedes(rs, from, len, k - 1);
        assert(rs[k - 1].0 <= rs[k - 1].1);
        assert(rs[k - 1].1 <= rs[k].0);
    } else {
        assert(rs[0].1 <= rs[1].0);
    }
}

proof fn lemma_run_wrap(t: Seq<char>, rs: Seq<(int, int)>, from: int, st: ParseState)
    requires
        marker_free(t),
        well_placed(rs, from, t.len() as int),
        0 <= from <= t.len(),
        st.plain == t.take(from),
        !st.open,
    ensures
        run(st, wrap(t, rs, from)).plain == t,
        run(st, wrap(t, rs, from)).ranges == st.ranges + rs,
        !run(st, wrap(t, rs, from)).open,
    decreases rs.len(),
{
    if rs.len() == 0 {
        let u = t.subrange(from, t.len() as int);
        lemma_run_plain(st, u);
        assert(t.take(from) + u == t);
        assert(st.ranges + rs == st.ranges);
    } else {
        let a = rs[0].0;
        let b = rs[0].1;
        let m = seq![MARKER];
        let w1 = t.subrange(from, a);
        let w2 = t.subrange(a, b);
        let rest = rs.drop_first();
        assert(marker_free(w1));
        assert(marker_free(w2));
        lemma_run_plain(st, w1);
        let st1 = run(st, w1);
        assert(st1.plain == t.take(a));
        lemma_run_concat(st, w1, m);
        lemma_run_marker(st1);
        let st2 = run(st, w1 + m);
        lemma_run_concat(st, w1 + m, w2);
        lemma_run_plain(st2, w2);
        let st3 = run(st, w1 + m + w2);
        assert(st3.plain == t.take(b));
        lemma_run_concat(st, w1 + m + w2, m);
        lemma_run_marker(st3);
        let st4 = run(st, w1 + m + w2 + m);
        assert(st4.ranges == st.ranges.push((a, b)));
        assert(well_placed(rest, b, t.len() as int)) by {
            assert forall|k: int| 0 <= k < rest.len() implies b <= #[trigger] rest[k].0 by {
                lemma_first_end_precedes(rs, from, t.len() as int, k + 1);
            }
            assert forall|k: int| 0 <= k < rest.len() - 1 implies #[trigger] rest[k].1 <= rest[k
                + 1].0 by {
                assert(rs[k + 1].1 <= rs[k + 2].0);
            }
        }
        lemma_run_wrap(t, rest, b, st4);
        lemma_run_concat(st, w1 + m + w2 + m, wrap(t, rest, b));
        assert(st.ranges.push((a, b)) + rest == st.ranges + rs);
    }
}

/// Round trip: enclosing sorted, non-overlapping ranges of a marker-free text in
/// pairs of markers and parsing the result gives back the text and exactly
/// those ranges.
pub proof fn lemma_parse_round_trip(t: Seq<char>, rs: Seq<(int, int)>)
    requires
        marker_free(t),
        well_placed(rs, 0, t.len() as int),
    ensures
        parse(wrap(t, rs, 0)).plain == t,
        parse(wrap(t, rs, 0)).ranges == rs,
{
    assert(t.take(0) =~= Seq::<char>::empty());
    lemma_run_wrap(t, rs, 0, initial_state());
    assert(Seq::<(int, int)>::empty() + rs == rs);
}

} // verus!

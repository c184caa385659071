//! Layout of a partly highlighted line of text within a width budget.
//!
//! The text is cut so that an ellipsis fits behind it when not all of it fits,
//! and what remains is split into runs of equal highlight state, each placed at
//! the pixel offset that the cumulative width table gives it.
use vstd::prelude::*;

verus! {

/// One drawn run of characters, as mathematical values.
pub struct SegmentModel {
    pub text: Seq<char>,
    pub start: int,
    pub end: int,
    pub highlighted: bool,
    pub x: int,
    pub width: int,
}

/// A whole layout, as mathematical values.
pub struct LayoutModel {
    pub segments: Seq<SegmentModel>,
    /// Length of the longest prefix that fits the budget.
    pub max_fit: int,
    /// Whether the whole text does not fit.
    pub truncated: bool,
    /// Length of the prefix that is laid out.
    pub effective: int,
    /// Length of the prefix that the segments cover.
    pub drawn: int,
    /// Pixel offset just after the last segment.
    pub cursor: int,
    pub ellipsis_x: Option<int>,
}

/// A run of characters to draw in one state.
pub struct Segment {
    pub text: String,
    /// Position of its first character in the laid-out text.
    pub start: usize,
    /// Position just after its last character.
    pub end: usize,
    pub highlighted: bool,
    /// Pixel offset at which it is drawn.
    pub x: i32,
    /// Pixel width that it may take, clipped to the budget.
    pub width: i32,
}

impl View for Segment {
    type V = SegmentModel;

    open spec fn view(&self) -> SegmentModel {
        SegmentModel {
            text: self.text@,
            start: self.start as int,
            end: self.end as int,
            highlighted: self.highlighted,
            x: self.x as int,
            width: self.width as int,
        }
    }
}

/// The result of laying out one line.
pub struct TextLayout {
    pub segments: Vec<Segment>,
    pub max_fit: usize,
    pub truncated: bool,
    pub effective: usize,
    pub drawn: usize,
    pub cursor: i32,
    /// Where the ellipsis is drawn, if it is drawn at all.
    pub ellipsis_x: Option<i32>,
}

/// An optional machine integer as an optional mathematical integer.
pub open spec fn option_int(o: Option<i32>) -> Option<int> {
    match o {
        Some(v) => Some(v as int),
        None => None,
    }
}

impl View for TextLayout {
    type V = LayoutModel;

    open spec fn view(&self) -> LayoutModel {
        LayoutModel {
            segments: self.segments@.map_values(|s: Segment| s@),
            max_fit: self.max_fit as int,
            truncated: self.truncated,
            effective: self.effective as int,
            drawn: self.drawn as int,
            cursor: self.cursor as int,
            ellipsis_x: option_int(self.ellipsis_x),
        }
    }
}

/// Whether character position `p` lies in one of `ranges`.
pub open spec fn highlighted_at(ranges: Seq<(usize, usize)>, p: int) -> bool {
    exists|k: int| 0 <= k < ranges.len() && #[trigger] ranges[k].0 <= p < ranges[k].1
}

/// The first position from `i` on whose cumulative width exceeds `limit`, or
/// the length of the table if there is none.
pub open spec fn fit_from(widths: Seq<i32>, limit: int, i: int) -> int
    decreases widths.len() - i,
{
    if i < 0 || i >= widths.len() || widths[i] > limit {
        i
    } else {
        fit_from(widths, limit, i + 1)
    }
}

/// Length of the longest prefix whose cumulative widths all stay within `limit`.
pub open spec fn fit_count(widths: Seq<i32>, limit: int) -> int {
    fit_from(widths, limit, 0)
}

/// Length of the prefix that is laid out: all of it when it fits, else the
/// longest prefix that leaves room for the ellipsis.
pub open spec fn effective_count(widths: Seq<i32>, budget: int, ellipsis_width: int) -> int {
    let max_fit = fit_count(widths, budget);
    if max_fit < widths.len() {
        let available = budget - ellipsis_width;
        if available > 0 {
            let fit = fit_count(widths, available);
            if fit < max_fit {
                fit
            } else {
                max_fit
            }
        } else {
            0
        }
    } else {
        max_fit
    }
}

/// End of the run that starts before `e` in state `hl`: the first position from
/// `e` on whose state differs, but no further than `limit`.
pub open spec fn next_boundary(ranges: Seq<(usize, usize)>, limit: int, hl: bool, e: int) -> int
    decreases limit - e,
{
    if e >= limit {
        limit
    } else if highlighted_at(ranges, e) != hl {
        e
    } else {
        next_boundary(ranges, limit, hl, e + 1)
    }
}

/// Pixel offset at which character `pos` starts.
pub open spec fn start_offset(widths: Seq<i32>, pos: int) -> int {
    if pos == 0 {
        0
    } else {
        widths[pos - 1] as int
    }
}

/// A run ends after it starts and no further than `limit`; it ends at `limit`
/// or where the state changes, and every position inside it has state `hl`.
pub proof fn lemma_next_boundary(ranges: Seq<(usize, usize)>, limit: int, hl: bool, e: int)
    requires
        e <= limit,
    ensures
        e <= next_boundary(ranges, limit, hl, e) <= limit,
        next_boundary(ranges, limit, hl, e) == limit || highlighted_at(
            ranges,
            next_boundary(ranges, limit, hl, e),
        ) != hl,
        forall|p: int|
            e <= p < next_boundary(ranges, limit, hl, e) ==> highlighted_at(ranges, p) == hl,
    decreases limit - e,
{
    if e < limit && highlighted_at(ranges, e) == hl {
        lemma_next_boundary(ranges, limit, hl, e + 1);
    }
}

/// The segments laid out from position `pos` and pixel offset `x` on, with the
/// offset and position reached at the end.
///
/// A run whose clipped width is not positive, or that would start at or past
/// the budget, ends the walk.
pub open spec fn walk(
    text: Seq<char>,
    ranges: Seq<(usize, usize)>,
    widths: Seq<i32>,
    budget: int,
    effective: int,
    pos: int,
    x: int,
) -> (Seq<SegmentModel>, int, int)
    decreases effective - pos,
{
    if pos >= effective {
        (Seq::empty(), x, pos)
    } else {
        let hl = highlighted_at(ranges, pos);
        let end = next_boundary(ranges, effective, hl, pos + 1);
        let run_width = widths[end - 1] - start_offset(widths, pos);
        let actual = if run_width < budget - x {
            run_width
        } else {
            budget - x
        };
        if actual <= 0 || x >= budget {
            (Seq::empty(), x, pos)
        } else {
            proof {
                lemma_next_boundary(ranges, effective, hl, pos + 1);
            }
            let seg = SegmentModel {
                text: text.subrange(pos, end),
                start: pos,
                end,
                highlighted: hl,
                x,
                width: actual,
            };
            let rest = walk(text, ranges, widths, budget, effective, end, x + actual);
            (seq![seg] + rest.0, rest.1, rest.2)
        }
    }
}

/// The layout of `text`, highlighted over `ranges`, with cumulative widths
/// `widths`, in `budget` pixels, with an ellipsis `ellipsis_width` pixels wide.
pub open spec fn layout_model(
    text: Seq<char>,
    ranges: Seq<(usize, usize)>,
    widths: Seq<i32>,
    budget: int,
    ellipsis_width: int,
) -> LayoutModel {
    let max_fit = fit_count(widths, budget);
    let truncated = max_fit < widths.len();
    let effective = effective_count(widths, budget, ellipsis_width);
    let w = walk(text, ranges, widths, budget, effective, 0, 0);
    LayoutModel {
        segments: w.0,
        max_fit,
        truncated,
        effective,
        drawn: w.2,
        cursor: w.1,
        ellipsis_x: if truncated && w.2 < text.len() && w.1 + ellipsis_width <= budget {
            Some(w.1)
        } else {
            None
        },
    }
}

proof fn lemma_fit_from(widths: Seq<i32>, limit: int, i: int)
    requires
        0 <= i <= widths.len(),
    ensures
        i <= fit_from(widths, limit, i) <= widths.len(),
        forall|j: int| i <= j < fit_from(widths, limit, i) ==> widths[j] <= limit,
        fit_from(widths, limit, i) < widths.len() ==> widths[fit_from(widths, limit, i)] > limit,
    decreases widths.len() - i,
{
    if i < widths.len() && widths[i] <= limit {
        lemma_fit_from(widths, limit, i + 1);
    }
}

proof fn lemma_effective_bounds(widths: Seq<i32>, budget: int, ellipsis_width: int)
    ensures
        0 <= effective_count(widths, budget, ellipsis_width) <= fit_count(widths, budget)
            <= widths.len(),
        forall|j: int|
            0 <= j < fit_count(widths, budget) ==> widths[j] <= budget,
{
    lemma_fit_from(widths, budget, 0);
    lemma_fit_from(widths, budget - ellipsis_width, 0);
}

/// Number of leading entries of `widths` that stay within `limit`.
fn fit_count_of(widths: &Vec<i32>, limit: i64) -> (r: usize)
    ensures
        r as int == fit_count(widths@, limit as int),
{
    let n = widths.len();
    let mut i: usize = 0;
    while i < n && widths[i] as i64 <= limit
        invariant
            n == widths@.len(),
            i <= n,
            fit_from(widths@, limit as int, i as int) == fit_count(widths@, limit as int),
        decreases n - i,
    {
        i = i + 1;
    }
    i
}

/// Whether character position `p` lies in one of `ranges`.
fn is_highlighted(ranges: &Vec<(usize, usize)>, p: usize) -> (r: bool)
    ensures
        r == highlighted_at(ranges@, p as int),
{
    let mut k: usize = 0;
    while k < ranges.len()
        invariant
            k <= ranges@.len(),
            forall|j: int| 0 <= j < k ==> !(#[trigger] ranges@[j].0 <= p < ranges@[j].1),
        decreases ranges@.len() - k,
    {
        if ranges[k].0 <= p && p < ranges[k].1 {
            return true;
        }
        k = k + 1;
    }
    false
}

/// End of the run that starts before `e` in state `hl`, no further than `limit`.
fn run_end(ranges: &Vec<(usize, usize)>, limit: usize, hl: bool, e: usize) -> (r: usize)
    requires
        e <= limit,
    ensures
        r as int == next_boundary(ranges@, limit as int, hl, e as int),
{
    let mut end = e;
    while end < limit && is_highlighted(ranges, end) == hl
        invariant
            e <= end <= limit,
            next_boundary(ranges@, limit as int, hl, end as int) == next_boundary(
                ranges@,
                limit as int,
                hl,
                e as int,
            ),
        decreases limit - end,
    {
        end = end + 1;
    }
    end
}

/// The characters of `chars` from `start` up to `end`, as a string.
fn collect_range(chars: &Vec<char>, start: usize, end: usize) -> (r: String)
    requires
        start <= end <= chars@.len(),
    ensures
        r@ == chars@.subrange(start as int, end as int),
{
    let mut s = String::new();
    let mut i = start;
    while i < end
        invariant
            start <= i <= end,
            end <= chars@.len(),
            s@ == chars@.subrange(start as int, i as int),
        decreases end - i,
    {
        s.push(chars[i]);
        i = i + 1;
        assert(s@ =~= chars@.subrange(start as int, i as int));
    }
    s
}

/// Number of UTF-16 code units that encode `c`.
pub open spec fn utf16_len(c: char) -> int {
    if c >= '\u{10000}' {
        2
    } else {
        1
    }
}

/// Number of UTF-16 code units that encode `s`.
pub open spec fn utf16_units(s: Seq<char>) -> int
    decreases s.len(),
{
    if s.len() == 0 {
        0
    } else {
        utf16_units(s.drop_last()) + utf16_len(s.last())
    }
}

proof fn lemma_utf16_units_prefix(s: Seq<char>, k: int)
    requires
        0 <= k <= s.len(),
    ensures
        k <= utf16_units(s.take(k)) <= utf16_units(s),
    decreases s.len() - k,
{
    if k < s.len() {
        lemma_utf16_units_prefix(s, k + 1);
        assert(s.take(k + 1).drop_last() =~= s.take(k));
        lemma_utf16_units_len(s.take(k));
    } else {
        assert(s.take(k) =~= s);
        lemma_utf16_units_len(s);
    }
}

proof fn lemma_utf16_units_len(s: Seq<char>)
    ensures
        s.len() <= utf16_units(s),
    decreases s.len(),
{
    if s.len() > 0 {
        lemma_utf16_units_len(s.drop_last());
    }
}

/// Cumulative widths per character of `text` from cumulative widths per UTF-16
/// code unit: each character gets the extent after its last code unit.
pub fn code_point_widths(text: &str, unit_widths: &Vec<i32>) -> (r: Vec<i32>)
    requires
        unit_widths@.len() == utf16_units(text@),
    ensures
        r@.len() == text@.len(),
        forall|i: int|
            0 <= i < text@.len() ==> #[trigger] r@[i] == unit_widths@[utf16_units(
                text@.take(i + 1),
            ) - 1],
{
    let ghost t = text@;
    let mut widths: Vec<i32> = Vec::new();
    let mut units: usize = 0;
    let total_units = unit_widths.len();
    for c in it: text.chars()
        invariant
            it.seq() == t,
            total_units == unit_widths@.len(),
            unit_widths@.len() == utf16_units(t),
            widths@.len() == it.index(),
            units as int == utf16_units(t.take(it.index() as int)),
            forall|i: int|
                0 <= i < widths@.len() ==> #[trigger] widths@[i] == unit_widths@[utf16_units(
                    t.take(i + 1),
                ) - 1],
    {
        let ghost k = it.index();
        proof {
            assert(t.take(k + 1).drop_last() =~= t.take(k as int));
            lemma_utf16_units_prefix(t, k + 1);
        }
        proof {
            assert(t.take(k + 1).last() == c);
        }
        let step: usize = if c >= '\u{10000}' {
            2
        } else {
            1
        };
        units = units + step;
        widths.push(unit_widths[units - 1]);
    }
    widths
}

/// Lays out `text` in `budget` pixels.
///
/// `widths[i]` is the pixel width of the first `i + 1` characters of `text`, and
/// `ranges` are the highlighted character ranges. When the whole text does not
/// fit, it is cut to the longest prefix that leaves `ellipsis_width` pixels
/// free; the prefix is split into runs of equal highlight state, and the
/// ellipsis position is given when characters were left out and it fits.
pub fn layout_text(
    text: &str,
    ranges: &Vec<(usize, usize)>,
    widths: &Vec<i32>,
    budget: i32,
    ellipsis_width: i32,
) -> (r: TextLayout)
    requires
        widths@.len() == text@.len(),
    ensures
        r@ == layout_model(text@, ranges@, widths@, budget as int, ellipsis_width as int),
{
    let ghost t = text@;
    let ghost w = widths@;
    let mut chars: Vec<char> = Vec::new();
    for c in it: text.chars()
        invariant
            it.seq() == t,
            chars@ == t.take(it.index() as int),
    {
        chars.push(c);
        assert(chars@ =~= t.take(it.index() + 1));
    }
    assert(chars@ =~= t);
    let n = chars.len();

    let max_fit = fit_count_of(widths, budget as i64);
    let truncated = max_fit < n;
    let effective = if truncated {
        let available = budget as i64 - ellipsis_width as i64;
        if available > 0 {
            let fit = fit_count_of(widths, available);
            if fit < max_fit {
                fit
            } else {
                max_fit
            }
        } else {
            0
        }
    } else {
        max_fit
    };
    proof {
        lemma_effective_bounds(w, budget as int, ellipsis_width as int);
    }
    let ghost total = walk(t, ranges@, w, budget as int, effective as int, 0, 0);

    let mut segments: Vec<Segment> = Vec::new();
    let mut pos: usize = 0;
    let mut x: i64 = 0;
    let mut stop = false;
    while !stop && pos < effective
        invariant
            chars@ == t,
            n == t.len(),
            w.len() == n,
            widths@ == w,
            effective <= n,
            pos <= effective,
            0 <= x <= budget || (x == 0 && pos == 0),
            total == walk(t, ranges@, w, budget as int, effective as int, 0, 0),
            total.0 == segments@.map_values(|s: Segment| s@) + walk(
                t,
                ranges@,
                w,
                budget as int,
                effective as int,
                pos as int,
                x as int,
            ).0,
            total.1 == walk(t, ranges@, w, budget as int, effective as int, pos as int, x as int).1,
            total.2 == walk(t, ranges@, w, budget as int, effective as int, pos as int, x as int).2,
            stop ==> walk(t, ranges@, w, budget as int, effective as int, pos as int, x as int)
                == (Seq::<SegmentModel>::empty(), x as int, pos as int),
        decreases 2 * (effective - pos) + if stop { 0int } else { 1int },
    {
        let ghost rest = walk(t, ranges@, w, budget as int, effective as int, pos as int, x as int);
        let hl = is_highlighted(ranges, pos);
        let end = run_end(ranges, effective, hl, pos + 1);
        proof {
            lemma_next_boundary(ranges@, effective as int, hl, pos + 1);
        }
        let start_x: i64 = if pos == 0 {
            0
        } else {
            widths[pos - 1] as i64
        };
        let run_width: i64 = widths[end - 1] as i64 - start_x;
        let available: i64 = budget as i64 - x;
        let actual: i64 = if run_width < available {
            run_width
        } else {
            available
        };
        if actual <= 0 || x >= budget as i64 {
            stop = true;
        } else {
            let seg = Segment {
                text: collect_range(&chars, pos, end),
                start: pos,
                end,
                highlighted: hl,
                x: x as i32,
                width: actual as i32,
            };
            let ghost before = segments@;
            segments.push(seg);
            proof {
                let next = walk(
                    t,
                    ranges@,
                    w,
                    budget as int,
                    effective as int,
                    end as int,
                    x + actual,
                );
                assert(rest.0 == seq![seg@] + next.0);
                assert(segments@.map_values(|s: Segment| s@) =~= before.map_values(
                    |s: Segment| s@,
                ).push(seg@));
                assert(before.map_values(|s: Segment| s@) + rest.0 =~= before.map_values(
                    |s: Segment| s@,
                ).push(seg@) + next.0);
            }
            x = x + actual;
            pos = end;
            if x >= budget as i64 {
                stop = true;
            }
        }
    }
    proof {
        let rest = walk(t, ranges@, w, budget as int, effective as int, pos as int, x as int);
        assert(rest == (Seq::<SegmentModel>::empty(), x as int, pos as int));
        assert(total.0 =~= segments@.map_values(|s: Segment| s@));
    }
    let ellipsis_x = if truncated && pos < n && x + (ellipsis_width as i64) <= budget as i64 {
        Some(x as i32)
    } else {
        None
    };
    TextLayout {
        segments,
        max_fit,
        truncated,
        effective,
        drawn: pos,
        cursor: x as i32,
        ellipsis_x,
    }
}

/// The texts of `segs`, one after another.
pub open spec fn joined_text(segs: Seq<SegmentModel>) -> Seq<char>
    decreases segs.len(),
{
    if segs.len() == 0 {
        Seq::empty()
    } else {
        segs[0].text + joined_text(segs.drop_first())
    }
}

/// Whether every character adds a positive width: the cumulative widths start
/// above zero and strictly increase.
pub open spec fn positive_advances(widths: Seq<i32>) -> bool {
    &&& widths.len() > 0 ==> widths[0] > 0
    &&& forall|i: int, j: int| 0 <= i < j < widths.len() ==> widths[i] < widths[j]
}

/// Whether consecutive segments differ in highlight state.
pub open spec fn alternating(segs: Seq<SegmentModel>) -> bool {
    forall|k: int|
        0 <= k < segs.len() - 1 ==> #[trigger] segs[k].highlighted != segs[k + 1].highlighted
}

proof fn lemma_walk(
    text: Seq<char>,
    ranges: Seq<(usize, usize)>,
    widths: Seq<i32>,
    budget: int,
    effective: int,
    pos: int,
    x: int,
)
    requires
        0 <= pos <= effective <= text.len(),
        widths.len() == text.len(),
    ensures
        pos <= walk(text, ranges, widths, budget, effective, pos, x).2 <= effective,
        joined_text(walk(text, ranges, widths, budget, effective, pos, x).0) == text.subrange(
            pos,
            walk(text, ranges, widths, budget, effective, pos, x).2,
        ),
        alternating(walk(text, ranges, widths, budget, effective, pos, x).0),
        walk(text, ranges, widths, budget, effective, pos, x).0.len() > 0 ==> walk(
            text,
            ranges,
            widths,
            budget,
            effective,
            pos,
            x,
        ).0[0].highlighted == highlighted_at(ranges, pos),
        positive_advances(widths) && x == start_offset(widths, pos) && (forall|j: int|
            0 <= j < effective ==> widths[j] <= budget) ==> walk(
            text,
            ranges,
            widths,
            budget,
            effective,
            pos,
            x,
        ).2 == effective,
    decreases effective - pos,
{
    let w = walk(text, ranges, widths, budget, effective, pos, x);
    if pos >= effective {
        assert(text.subrange(pos, pos) =~= Seq::<char>::empty());
    } else {
        let hl = highlighted_at(ranges, pos);
        let end = next_boundary(ranges, effective, hl, pos + 1);
        lemma_next_boundary(ranges, effective, hl, pos + 1);
        let run_width = widths[end - 1] - start_offset(widths, pos);
        let actual = if run_width < budget - x {
            run_width
        } else {
            budget - x
        };
        if positive_advances(widths) && x == start_offset(widths, pos) && (forall|j: int|
            0 <= j < effective ==> widths[j] <= budget) {
            if pos > 0 {
                assert(widths[pos - 1] < widths[end - 1]);
            } else if end - 1 > 0 {
                assert(widths[0] < widths[end - 1]);
            }
            assert(widths[end - 1] <= budget);
            assert(actual == run_width);
            assert(x + actual == start_offset(widths, end));
        }
        if actual <= 0 || x >= budget {
            assert(text.subrange(pos, pos) =~= Seq::<char>::empty());
        } else {
            let seg = w.0[0];
            let rest = walk(text, ranges, widths, budget, effective, end, x + actual);
            lemma_walk(text, ranges, widths, budget, effective, end, x + actual);
            assert(w.0.drop_first() =~= rest.0);
            assert(text.subrange(pos, end) + text.subrange(end, rest.2) =~= text.subrange(
                pos,
                rest.2,
            ));
            assert forall|k: int| 0 <= k < w.0.len() - 1 implies #[trigger] w.0[k].highlighted
                != w.0[k + 1].highlighted by {
                if k == 0 {
                    assert(rest.0.len() > 0);
                    assert(end < effective);
                    assert(w.0[1] == rest.0[0]);
                } else {
                    assert(w.0[k] == rest.0[k - 1]);
                    assert(w.0[k + 1] == rest.0[k]);
                }
            }
        }
    }
}

/// Conservation: the segments of a layout spell out a prefix of the text in
/// order, with no character repeated or skipped, no two consecutive segments
/// share a highlight state, and the prefix is no longer than the laid-out
/// prefix. When every character adds a positive width, the segments cover the
/// whole laid-out prefix.
pub proof fn lemma_layout_conservation(
    text: Seq<char>,
    ranges: Seq<(usize, usize)>,
    widths: Seq<i32>,
    budget: int,
    ellipsis_width: int,
)
    requires
        widths.len() == text.len(),
    ensures
        joined_text(layout_model(text, ranges, widths, budget, ellipsis_width).segments)
            == text.take(layout_model(text, ranges, widths, budget, ellipsis_width).drawn),
        layout_model(text, ranges, widths, budget, ellipsis_width).drawn <= layout_model(
            text,
            ranges,
            widths,
            budget,
            ellipsis_width,
        ).effective <= text.len(),
        alternating(layout_model(text, ranges, widths, budget, ellipsis_width).segments),
        positive_advances(widths) ==> layout_model(text, ranges, widths, budget, ellipsis_width).drawn
            == layout_model(text, ranges, widths, budget, ellipsis_width).effective,
{
    let effective = effective_count(widths, budget, ellipsis_width);
    lemma_effective_bounds(widths, budget, ellipsis_width);
    lemma_walk(text, ranges, widths, budget, effective, 0, 0);
    let w = walk(text, ranges, widths, budget, effective, 0, 0);
    assert(text.subrange(0, w.2) =~= text.take(w.2));
}

} // verus!

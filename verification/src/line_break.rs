//! Line breaking over shaped advances and soft-wrap opportunities.
//!
//! Unicode break opportunities come from the outside break iterator
//! through one trusted wrapper; everything that decides where a line
//! ends is verified: a line never breaks where there is no
//! opportunity, never overshoots the available inline size while a
//! valid opportunity exists, and a line is only ever cut on
//! overflow, at the last opportunity that still fits: stretching any
//! cut line to the next opportunity past its cut would overshoot.
//!
//! A shaped advance is a glyph width, taken to be non-negative: the
//! shaping collaborator hands widths, not arbitrary offsets.

use vstd::prelude::*;
use vstd::string::StringSliceAdditionalSpecFns;

use crate::geometry::Au;

verus! {

#[verifier::external_type_specification]
#[verifier::external_body]
pub struct ExSmallBitVec(smallbitvec::SmallBitVec);

/// The bits a `SmallBitVec` holds, in order.
pub uninterp spec fn sbv_bits(v: smallbitvec::SmallBitVec) -> Seq<bool>;

/// Relies on smallbitvec's `SmallBitVec::new`: an empty vector.
#[verifier::external_body]
fn sbv_new() -> (r: smallbitvec::SmallBitVec)
    ensures
        sbv_bits(r).len() == 0,
{
    smallbitvec::SmallBitVec::new()
}

/// Relies on smallbitvec's `SmallBitVec::resize`: truncates to `len`
/// bits, or appends `value` until `len` bits are held.
#[verifier::external_body]
fn sbv_resize(v: &mut smallbitvec::SmallBitVec, len: usize, value: bool)
    ensures
        sbv_bits(*final(v)).len() == len,
        forall|i: int|
            0 <= i < len ==> sbv_bits(*final(v))[i] == (if i < sbv_bits(*old(v)).len() {
                sbv_bits(*old(v))[i]
            } else {
                value
            }),
{
    v.resize(len, value)
}

/// Relies on smallbitvec's `SmallBitVec::set`: writes the nth bit.
/// Out-of-bounds indices panic there, so they are excluded here.
#[verifier::external_body]
fn sbv_set(v: &mut smallbitvec::SmallBitVec, n: usize, val: bool)
    requires
        n < sbv_bits(*old(v)).len(),
    ensures
        sbv_bits(*final(v)) == sbv_bits(*old(v)).update(n as int, val),
{
    v.set(n, val)
}

/// Relies on smallbitvec's `SmallBitVec::get`: the nth bit, or
/// `None` past the end.
#[verifier::external_body]
fn sbv_get(v: &smallbitvec::SmallBitVec, n: usize) -> (r: Option<bool>)
    ensures
        r == (if n < sbv_bits(*v).len() {
            Some(sbv_bits(*v)[n as int])
        } else {
            None::<bool>
        }),
{
    v.get(n)
}

/// Relies on smallbitvec's `SmallBitVec::len`: the number of bits.
#[verifier::external_body]
fn sbv_len(v: &smallbitvec::SmallBitVec) -> (r: usize)
    ensures
        r == sbv_bits(*v).len(),
{
    v.len()
}

/// The byte offsets at which Unicode allows a soft wrap in `s`,
/// strictly increasing, ending with the text's byte length. A pure
/// function of the characters alone.
pub uninterp spec fn break_opportunities_of(s: Seq<char>) -> Seq<usize>;

/// Relies on xi-unicode's line break iterator: the yielded positions
/// depend on the text alone, never exceed its byte length, and grow
/// strictly.
#[verifier::external_body]
fn break_opportunities(text: &str) -> (r: Vec<usize>)
    ensures
        r@ == break_opportunities_of(text@),
        forall|k: int|
            0 <= k < r@.len() ==> (#[trigger] r@[k]) <= vstd::utf8::encode_utf8(text@).len(),
        forall|k1: int, k2: int| 0 <= k1 < k2 < r@.len() ==> r@[k1] < r@[k2],
{
    let mut out = Vec::new();
    for (offset, _is_hard) in xi_unicode::LineBreakIterator::new(text) {
        out.push(offset);
    }
    out
}

/// The soft-wrap map of a text: one flag per byte position, true
/// where Unicode allows a break strictly inside the text.
pub fn soft_break_flags(text: &str) -> (r: smallbitvec::SmallBitVec)
    ensures
        sbv_bits(r).len() == text.spec_bytes().len(),
        forall|k: int|
            0 <= k < sbv_bits(r).len() ==> (#[trigger] sbv_bits(r)[k]
                == break_opportunities_of(text@).contains(k as usize)),
{
    let n = text.as_bytes().len();
    let breaks = break_opportunities(text);
    let mut flags = sbv_new();
    sbv_resize(&mut flags, n, false);
    proof {
        assert(forall|k: int| 0 <= k < n ==> !(#[trigger] sbv_bits(flags)[k]));
    }
    let mut j: usize = 0;
    while j < breaks.len()
        invariant
            sbv_bits(flags).len() == n,
            j <= breaks@.len(),
            breaks@ == break_opportunities_of(text@),
            forall|k: int|
                0 <= k < breaks@.len() ==> (#[trigger] breaks@[k]) <= n,
            forall|k: int|
                0 <= k < n ==> ((#[trigger] sbv_bits(flags)[k]) == exists|m: int|
                    0 <= m < j && breaks@[m] == k as usize),
        decreases breaks@.len() - j,
    {
        let o = breaks[j];
        if o < n {
            sbv_set(&mut flags, o, true);
        }
        proof {
            assert forall|k: int|
                0 <= k < n implies ((#[trigger] sbv_bits(flags)[k]) == exists|m: int|
                0 <= m < j + 1 && breaks@[m] == k as usize) by {
                if k == breaks@[j as int] as int {
                    assert(breaks@[j as int] == k as usize);
                } else {
                    assert(forall|m: int|
                        0 <= m < j + 1 && #[trigger] breaks@[m] == k as usize ==> m < j);
                }
            }
        }
        j = j + 1;
    }
    proof {
        assert forall|k: int|
            0 <= k < n implies ((#[trigger] sbv_bits(flags)[k]) == break_opportunities_of(
            text@,
        ).contains(k as usize)) by {
            if sbv_bits(flags)[k] {
                let m = choose|m: int|
                    0 <= m < breaks@.len() && #[trigger] breaks@[m] == k as usize;
                assert(break_opportunities_of(text@).contains(k as usize));
            }
            if break_opportunities_of(text@).contains(k as usize) {
                let m = choose|m: int|
                    0 <= m < breaks@.len() && #[trigger] breaks@[m] == k as usize;
            }
        }
    }
    flags
}

/// The total advance of the glyph range `[from, to)`.
pub open spec fn advance_sum(advances: Seq<Au>, from: int, to: int) -> int
    decreases to - from,
{
    if from >= to {
        0
    } else {
        advances[from].0 + advance_sum(advances, from + 1, to)
    }
}

proof fn lemma_advance_sum_extend(advances: Seq<Au>, from: int, to: int)
    requires
        0 <= from <= to < advances.len(),
    ensures
        advance_sum(advances, from, to + 1) == advance_sum(advances, from, to) + advances[to].0,
    decreases to - from,
{
    assert(advance_sum(advances, to + 1, to + 1) == 0);
    if from < to {
        lemma_advance_sum_extend(advances, from + 1, to);
    } else {
        assert(advance_sum(advances, to, to + 1) == advances[to].0 + advance_sum(
            advances,
            to + 1,
            to + 1,
        ));
    }
}

/// Splits one range sum at a midpoint.
proof fn lemma_advance_sum_split(advances: Seq<Au>, a: int, b: int, c: int)
    requires
        0 <= a <= b <= c <= advances.len(),
    ensures
        advance_sum(advances, a, c) == advance_sum(advances, a, b) + advance_sum(advances, b, c),
    decreases b - a,
{
    if a < b {
        lemma_advance_sum_split(advances, a + 1, b, c);
    }
}

/// The first soft-wrap opportunity strictly after `j`, or the run's
/// length when none is left.
pub open spec fn next_opportunity(can_break: Seq<bool>, j: int) -> int
    decreases can_break.len() - j,
{
    if j + 1 >= can_break.len() {
        can_break.len() as int
    } else if can_break[j + 1] {
        j + 1
    } else {
        next_opportunity(can_break, j + 1)
    }
}

proof fn lemma_next_opportunity_bounds(can_break: Seq<bool>, j: int)
    requires
        0 <= j < can_break.len(),
    ensures
        j < next_opportunity(can_break, j) <= can_break.len(),
    decreases can_break.len() - j,
{
    if j + 1 < can_break.len() && !can_break[j + 1] {
        lemma_next_opportunity_bounds(can_break, j + 1);
    }
}

/// With no opportunity in `(j, g]`, the next one lies past `g`.
proof fn lemma_next_opportunity_past(can_break: Seq<bool>, j: int, g: int)
    requires
        0 <= j <= g < can_break.len(),
        forall|m: int| j < m <= g ==> !(#[trigger] can_break[m]),
    ensures
        next_opportunity(can_break, j) > g,
    decreases g - j,
{
    if j + 1 >= can_break.len() {
    } else if j < g {
        assert(!can_break[j + 1]);
        lemma_next_opportunity_past(can_break, j + 1, g);
    } else {
        lemma_next_opportunity_bounds(can_break, j);
    }
}

/// The shape of a valid cut list: cuts are sorted soft-wrap
/// positions; a cut line overshoots the available size only when no
/// opportunity lies strictly inside it; and a cut happens only on
/// overflow, at the last opportunity that fits: stretching a cut
/// line to the next opportunity past its cut would overshoot.
pub open spec fn lines_ok(
    advances: Seq<Au>,
    can_break: Seq<bool>,
    avail: int,
    cuts: Seq<usize>,
) -> bool {
    &&& forall|k1: int, k2: int| 0 <= k1 < k2 < cuts.len() ==> cuts[k1] < cuts[k2]
    &&& forall|k: int|
        0 <= k < cuts.len() ==> 0 < (#[trigger] cuts[k]) < advances.len() && can_break[cuts[k] as int]
    &&& forall|k: int|
        0 <= k < cuts.len() ==> advance_sum(
            advances,
            (if k == 0 {
                0int
            } else {
                cuts[k - 1] as int
            }),
            #[trigger] cuts[k] as int,
        ) <= avail || (forall|m: int|
            (if k == 0 {
                0int
            } else {
                cuts[k - 1] as int
            }) < m < cuts[k] as int ==> !(#[trigger] can_break[m]))
    &&& forall|k: int|
        0 <= k < cuts.len() ==> advance_sum(
            advances,
            (if k == 0 {
                0int
            } else {
                cuts[k - 1] as int
            }),
            next_opportunity(can_break, #[trigger] cuts[k] as int),
        ) > avail
}

/// A line that overflows right after `g`, with no opportunity in
/// `(cut, g]`, cannot stretch to the opportunity after `cut`.
proof fn lemma_cut_overshoots(
    advances: Seq<Au>,
    can_break: Seq<bool>,
    start: int,
    cut: int,
    g: int,
    avail: int,
)
    requires
        advances.len() == can_break.len(),
        0 <= start <= cut <= g < advances.len(),
        forall|k: int| 0 <= k < advances.len() ==> (#[trigger] advances[k]).0 >= 0,
        forall|m: int| cut < m <= g ==> !(#[trigger] can_break[m]),
        advance_sum(advances, start, g + 1) > avail,
    ensures
        advance_sum(advances, start, next_opportunity(can_break, cut)) > avail,
{
    lemma_next_opportunity_past(can_break, cut, g);
    lemma_next_opportunity_bounds(can_break, cut);
    let nopp = next_opportunity(can_break, cut);
    lemma_advance_sum_split(advances, start, g + 1, nopp);
    lemma_advance_sum_bound(advances, g + 1, nopp);
}

/// Breaks a shaped run into lines.
///
/// `advances` holds one non-negative advance per glyph (a width, by
/// the shaping collaborator's contract) and `can_break_before[k]`
/// says a soft wrap may fall right before glyph `k`. The result is
/// the list of line starts after the first:
/// a cut falls only on a soft-wrap opportunity; no line -- the
/// final one included -- overshoots the available inline size unless
/// it holds no opportunity strictly inside it; and a cut happens
/// only on overflow, at the last opportunity that fits: stretching
/// any cut line to the next opportunity past its cut (or to the end
/// of the run) would exceed the available size.
#[verifier::spinoff_prover]
#[verifier::rlimit(100)]
pub fn break_into_lines(
    advances: &Vec<Au>,
    can_break_before: &smallbitvec::SmallBitVec,
    available: Au,
) -> (r: Vec<usize>)
    requires
        advances@.len() == sbv_bits(*can_break_before).len(),
        advances@.len() < 0x1000_0000,
        forall|k: int| 0 <= k < advances@.len() ==> (#[trigger] advances@[k]).0 >= 0,
    ensures
        lines_ok(advances@, sbv_bits(*can_break_before), available.0 as int, r@),
        advance_sum(
            advances@,
            (if r@.len() == 0 {
                0int
            } else {
                r@[r@.len() - 1] as int
            }),
            advances@.len() as int,
        ) <= available.0 || (forall|m: int|
            (if r@.len() == 0 {
                0int
            } else {
                r@[r@.len() - 1] as int
            }) < m < advances@.len() ==> !(#[trigger] sbv_bits(*can_break_before)[m])),
{
    let n = advances.len();
    let mut cuts: Vec<usize> = Vec::new();
    let mut line_start: usize = 0;
    let mut last_opportunity: usize = 0;  // 0 means none in this line
    let mut used: i64 = 0;
    let mut g: usize = 0;
    while g < n
        invariant
            advances@.len() == n,
            sbv_bits(*can_break_before).len() == n,
            n < 0x1000_0000,
            forall|k: int| 0 <= k < n ==> (#[trigger] advances@[k]).0 >= 0,
            g <= n,
            line_start <= g,
            used == advance_sum(advances@, line_start as int, g as int),
            0 <= used <= 0x1000_0000i64 * 0x8000_0000i64,
            used <= available.0 as i64 || last_opportunity == 0,
            last_opportunity == 0 || (line_start < last_opportunity < n && last_opportunity <= g
                && sbv_bits(*can_break_before)[last_opportunity as int]),
            last_opportunity == 0 ==> forall|m: int|
                line_start < m < g ==> !(#[trigger] sbv_bits(*can_break_before)[m]),
            last_opportunity != 0 ==> forall|m: int|
                last_opportunity < m < g ==> !(#[trigger] sbv_bits(*can_break_before)[m]),
            last_opportunity != 0 ==> advance_sum(
                advances@,
                line_start as int,
                last_opportunity as int,
            ) <= available.0 || (forall|m: int|
                line_start < m < last_opportunity ==> !(#[trigger] sbv_bits(*can_break_before)[m])),
            lines_ok(advances@, sbv_bits(*can_break_before), available.0 as int, cuts@),
            forall|k: int|
                0 <= k < cuts@.len() ==> 0 < (#[trigger] cuts@[k]) < n,
            cuts@.len() > 0 ==> cuts@[cuts@.len() - 1] == line_start,
            cuts@.len() == 0 ==> line_start == 0,
        decreases n - g,
    {
        let here_breaks = match sbv_get(can_break_before, g) {
            Some(b) => b,
            None => false,
        };
        if g > line_start && here_breaks {
            last_opportunity = g;
        }
        let a = advances[g];
        proof {
            lemma_advance_sum_extend(advances@, line_start as int, g as int);
            lemma_advance_sum_bound(advances@, line_start as int, g as int + 1);
        }
        let new_used: i64 = used + a.0 as i64;
        if new_used > available.0 as i64 && last_opportunity != 0 {
            // Overshoot with a known opportunity: end the line at the
            // last opportunity and restart there.
            let cut = last_opportunity;
            let ghost old_cuts = cuts@;
            let ghost old_start = line_start;
            proof {
                // No opportunity sits in (cut, g], so the next one is
                // past g; the advances up to there already overshoot.
                assert(forall|m: int| cut < m <= g ==> !(#[trigger] sbv_bits(*can_break_before)[m])) by {
                    if sbv_bits(*can_break_before)[g as int] && cut != g {
                        assert(last_opportunity == g);
                    }
                }
                lemma_cut_overshoots(
                    advances@,
                    sbv_bits(*can_break_before),
                    line_start as int,
                    cut as int,
                    g as int,
                    available.0 as int,
                );
            }
            cuts.push(cut);
            // Recompute the used advance of the restarted line.
            let mut resum: i64 = 0;
            let mut t: usize = cut;
            while t < g
                invariant
                    cut <= t <= g,
                    g < n,
                    advances@.len() == n,
                    n < 0x1000_0000,
                    forall|k: int| 0 <= k < n ==> (#[trigger] advances@[k]).0 >= 0,
                    resum == advance_sum(advances@, cut as int, t as int),
                    0 <= resum <= 0x1000_0000i64 * 0x8000_0000i64,
                decreases g - t,
            {
                proof {
                    lemma_advance_sum_extend(advances@, cut as int, t as int);
                    lemma_advance_sum_bound(advances@, cut as int, t as int + 1);
                }
                resum = resum + advances[t].0 as i64;
                t = t + 1;
            }
            proof {
                assert(cuts@ =~= old_cuts.push(cut));
            }
            line_start = cut;
            last_opportunity = 0;
            proof {
                lemma_advance_sum_extend(advances@, line_start as int, g as int);
                lemma_advance_sum_bound(advances@, line_start as int, g as int + 1);
            }
            used = resum + a.0 as i64;
            if g > line_start && here_breaks {
                last_opportunity = g;
                proof {
                    lemma_advance_sum_split(
                        advances@,
                        line_start as int,
                        g as int,
                        g as int + 1,
                    );
                }
            }
            proof {
                if used > available.0 as i64 && last_opportunity != 0 {
                    // A fresh line can only have its opportunity at
                    // its own end so far.
                    assert(last_opportunity == g);
                }
            }
        } else {
            used = new_used;
        }
        g = g + 1;
    }
    cuts
}

/// The advance of a range is bounded by its width times the largest
/// single advance bound.
proof fn lemma_advance_sum_bound(advances: Seq<Au>, from: int, to: int)
    requires
        0 <= from <= to <= advances.len(),
        forall|k: int| 0 <= k < advances.len() ==> (#[trigger] advances[k]).0 >= 0,
    ensures
        0 <= advance_sum(advances, from, to) <= (to - from) * 0x8000_0000,
    decreases to - from,
{
    if from < to {
        lemma_advance_sum_bound(advances, from + 1, to);
        assert((to - from) * 0x8000_0000 == (to - from - 1) * 0x8000_0000 + 0x8000_0000)
            by (nonlinear_arith);
    }
}

} // verus!

//! White-space collapsing for inline content.
//!
//! The collapser rewrites one text item at a time; the two state
//! flags (after a segment break, after a collapsible space) thread
//! across the whole item sequence of an inline formatting context,
//! so collapsing works across item boundaries. A run of collapsible
//! spaces that crosses an item boundary leaves a zero-width space
//! marker, which keeps its soft-wrap opportunity without adding
//! advance width.

use vstd::prelude::*;

use crate::geometry::Au;

verus! {

/// The zero-width space marker left by a collapsed run of spaces
/// that started in an earlier item.
pub const ZERO_WIDTH_SPACE: char = '\u{200B}';

/// Whether a character belongs to the space-discarding scripts: a
/// collapsible segment break between two such characters vanishes.
pub open spec fn spec_is_space_discarding(c: char) -> bool {
    ||| ('\u{2E80}' <= c && c <= '\u{2EFF}')
    ||| ('\u{2F00}' <= c && c <= '\u{2FDD}')
    ||| ('\u{2FF0}' <= c && c <= '\u{2FFF}')
    ||| ('\u{3000}' <= c && c <= '\u{303F}')
    ||| ('\u{3040}' <= c && c <= '\u{309F}')
    ||| ('\u{30A0}' <= c && c <= '\u{30FF}')
    ||| ('\u{3130}' <= c && c <= '\u{318F}')
    ||| ('\u{3190}' <= c && c <= '\u{319F}')
    ||| ('\u{31C0}' <= c && c <= '\u{31EF}')
    ||| ('\u{31F0}' <= c && c <= '\u{31FF}')
    ||| ('\u{3300}' <= c && c <= '\u{33FF}')
    ||| ('\u{3400}' <= c && c <= '\u{4DBF}')
    ||| ('\u{4E00}' <= c && c <= '\u{9FFF}')
    ||| ('\u{A000}' <= c && c <= '\u{A48F}')
    ||| ('\u{A490}' <= c && c <= '\u{A4CF}')
    ||| ('\u{F900}' <= c && c <= '\u{FAFF}')
    ||| ('\u{FE10}' <= c && c <= '\u{FE1F}')
    ||| ('\u{FE30}' <= c && c <= '\u{FE4F}')
    ||| ('\u{FE50}' <= c && c <= '\u{FE6F}')
    ||| ('\u{FF00}' <= c && c <= '\u{FFEF}')
    ||| ('\u{1B000}' <= c && c <= '\u{1B0FF}')
    ||| ('\u{1B100}' <= c && c <= '\u{1B12F}')
    ||| ('\u{1B130}' <= c && c <= '\u{1B16F}')
    ||| ('\u{20000}' <= c && c <= '\u{2A6DF}')
    ||| ('\u{2A700}' <= c && c <= '\u{2B73F}')
    ||| ('\u{2B740}' <= c && c <= '\u{2B81F}')
    ||| ('\u{2B820}' <= c && c <= '\u{2CEAF}')
    ||| ('\u{2CEB0}' <= c && c <= '\u{2EBEF}')
    ||| ('\u{2F800}' <= c && c <= '\u{2FA1F}')
    ||| ('\u{30000}' <= c && c <= '\u{3134F}')
}

pub fn is_space_discarding(c: char) -> (r: bool)
    ensures
        r == spec_is_space_discarding(c),
{
    (c >= '\u{2E80}' && c <= '\u{2EFF}') || (c >= '\u{2F00}' && c <= '\u{2FDD}') || (c >= '\u{2FF0}'
        && c <= '\u{2FFF}') || (c >= '\u{3000}' && c <= '\u{303F}') || (c >= '\u{3040}' && c
        <= '\u{309F}') || (c >= '\u{30A0}' && c <= '\u{30FF}') || (c >= '\u{3130}' && c
        <= '\u{318F}') || (c >= '\u{3190}' && c <= '\u{319F}') || (c >= '\u{31C0}' && c
        <= '\u{31EF}') || (c >= '\u{31F0}' && c <= '\u{31FF}') || (c >= '\u{3300}' && c
        <= '\u{33FF}') || (c >= '\u{3400}' && c <= '\u{4DBF}') || (c >= '\u{4E00}' && c
        <= '\u{9FFF}') || (c >= '\u{A000}' && c <= '\u{A48F}') || (c >= '\u{A490}' && c
        <= '\u{A4CF}') || (c >= '\u{F900}' && c <= '\u{FAFF}') || (c >= '\u{FE10}' && c
        <= '\u{FE1F}') || (c >= '\u{FE30}' && c <= '\u{FE4F}') || (c >= '\u{FE50}' && c
        <= '\u{FE6F}') || (c >= '\u{FF00}' && c <= '\u{FFEF}') || (c >= '\u{1B000}' && c
        <= '\u{1B0FF}') || (c >= '\u{1B100}' && c <= '\u{1B12F}') || (c >= '\u{1B130}' && c
        <= '\u{1B16F}') || (c >= '\u{20000}' && c <= '\u{2A6DF}') || (c >= '\u{2A700}' && c
        <= '\u{2B73F}') || (c >= '\u{2B740}' && c <= '\u{2B81F}') || (c >= '\u{2B820}' && c
        <= '\u{2CEAF}') || (c >= '\u{2CEB0}' && c <= '\u{2EBEF}') || (c >= '\u{2F800}' && c
        <= '\u{2FA1F}') || (c >= '\u{30000}' && c <= '\u{3134F}')
}

/// The white-space collapser's running state.
#[derive(Debug, Copy, Clone, PartialEq, Eq, Structural)]
pub struct CollapseState {
    /// A collapsible space is pending.
    pub after_space: bool,
    /// The last significant character was a segment break.
    pub after_break: bool,
    /// The last non-collapsible character emitted in this item, for
    /// the segment-break transformation rules.
    pub last_kept: Option<char>,
}

/// One collapser step: the state change and the characters emitted
/// for `c`. `marker_is_zwsp` says a pending space materializes as the
/// zero-width marker (the pending run started in an earlier item).
pub open spec fn spec_collapse_char(
    st: CollapseState,
    c: char,
    collapses_newlines: bool,
    marker_is_zwsp: bool,
) -> (CollapseState, Seq<char>) {
    if c == '\t' || c == ' ' {
        (
            CollapseState {
                after_space: if !st.after_break {
                    true
                } else {
                    st.after_space
                },
                ..st
            },
            Seq::empty(),
        )
    } else if c == '\n' {
        (
            CollapseState { after_space: false, after_break: true, ..st },
            if collapses_newlines {
                Seq::empty()
            } else {
                seq!['\n']
            },
        )
    } else {
        let suppress = !collapses_newlines || c == ZERO_WIDTH_SPACE || (match st.last_kept {
            Some(last) => last == ZERO_WIDTH_SPACE || (spec_is_space_discarding(last)
                && spec_is_space_discarding(c)),
            None => false,
        });
        let pending = if st.after_break {
            !suppress
        } else {
            st.after_space
        };
        let emitted = if pending {
            seq![
                if marker_is_zwsp {
                    ZERO_WIDTH_SPACE
                } else {
                    ' '
                },
            ].push(c)
        } else {
            seq![c]
        };
        (
            CollapseState { after_space: false, after_break: false, last_kept: Some(c) },
            emitted,
        )
    }
}

/// The collapser folded over a whole text, front to back.
pub open spec fn spec_collapse_text(
    text: Seq<char>,
    st: CollapseState,
    collapses_newlines: bool,
    marker_is_zwsp: bool,
) -> (CollapseState, Seq<char>)
    decreases text.len(),
{
    if text.len() == 0 {
        (st, Seq::empty())
    } else {
        let first = spec_collapse_char(st, text[0], collapses_newlines, marker_is_zwsp);
        let rest = spec_collapse_text(
            text.drop_first(),
            first.0,
            collapses_newlines,
            marker_is_zwsp,
        );
        (rest.0, first.1 + rest.1)
    }
}

/// Splitting a text splits the fold.
pub proof fn lemma_collapse_text_append(
    a: Seq<char>,
    b: Seq<char>,
    st: CollapseState,
    collapses_newlines: bool,
    marker_is_zwsp: bool,
)
    ensures
        ({
            let whole = spec_collapse_text(a + b, st, collapses_newlines, marker_is_zwsp);
            let left = spec_collapse_text(a, st, collapses_newlines, marker_is_zwsp);
            let right = spec_collapse_text(b, left.0, collapses_newlines, marker_is_zwsp);
            whole.0 == right.0 && whole.1 == left.1 + right.1
        }),
    decreases a.len(),
{
    if a.len() == 0 {
        assert(a + b =~= b);
        let left = spec_collapse_text(a, st, collapses_newlines, marker_is_zwsp);
        let right = spec_collapse_text(b, left.0, collapses_newlines, marker_is_zwsp);
        assert(spec_collapse_text(a + b, st, collapses_newlines, marker_is_zwsp).1 =~= left.1
            + right.1);
    } else {
        let first = spec_collapse_char(st, a[0], collapses_newlines, marker_is_zwsp);
        assert((a + b).drop_first() =~= a.drop_first() + b);
        lemma_collapse_text_append(
            a.drop_first(),
            b,
            first.0,
            collapses_newlines,
            marker_is_zwsp,
        );
        let whole = spec_collapse_text(a + b, st, collapses_newlines, marker_is_zwsp);
        let left = spec_collapse_text(a, st, collapses_newlines, marker_is_zwsp);
        let right = spec_collapse_text(b, left.0, collapses_newlines, marker_is_zwsp);
        assert(whole.1 =~= left.1 + right.1);
    }
}

/// Collapses white space in one text item, per the item's policy.
///
/// Runs of spaces and tabs collapse to one pending space; spaces
/// around a segment break are removed; a collapsible segment break is
/// transformed away (kept verbatim when the policy keeps newlines); a
/// pending space materializes before the next kept character, as a
/// plain space, or as the zero-width marker when the run began in an
/// earlier item. The two flags thread across the whole item sequence
/// of an inline formatting context.
pub fn collapse_spaces_in_string(
    text: &Vec<char>,
    collapses_newlines: bool,
    after_collapsible_space: &mut bool,
    after_break: &mut bool,
) -> (r: Vec<char>)
    ensures
        ({
            let st0 = CollapseState {
                after_space: *old(after_collapsible_space),
                after_break: *old(after_break),
                last_kept: None,
            };
            let done = spec_collapse_text(
                text@,
                st0,
                collapses_newlines,
                *old(after_collapsible_space),
            );
            &&& r@ == done.1
            &&& *final(after_collapsible_space) == done.0.after_space
            &&& *final(after_break) == done.0.after_break
        }),
{
    let marker_is_zwsp = *after_collapsible_space;
    let mut st = CollapseState {
        after_space: *after_collapsible_space,
        after_break: *after_break,
        last_kept: None,
    };
    let ghost st0 = st;
    let mut out: Vec<char> = Vec::new();
    let mut i: usize = 0;
    while i < text.len()
        invariant
            i <= text@.len(),
            ({
                let done = spec_collapse_text(
                    text@.take(i as int),
                    st0,
                    collapses_newlines,
                    marker_is_zwsp,
                );
                st == done.0 && out@ == done.1
            }),
        decreases text@.len() - i,
    {
        let c = text[i];
        let ghost stepped = spec_collapse_char(st, text@[i as int], collapses_newlines, marker_is_zwsp);
        proof {
            assert(text@.take(i + 1 as int) =~= text@.take(i as int) + seq![text@[i as int]]);
            lemma_collapse_text_append(
                text@.take(i as int),
                seq![text@[i as int]],
                st0,
                collapses_newlines,
                marker_is_zwsp,
            );
            assert(seq![text@[i as int]].drop_first() =~= Seq::<char>::empty());
            assert(spec_collapse_text(
                Seq::<char>::empty(),
                stepped.0,
                collapses_newlines,
                marker_is_zwsp,
            ) == (stepped.0, Seq::<char>::empty()));
            assert(spec_collapse_text(
                seq![text@[i as int]],
                st,
                collapses_newlines,
                marker_is_zwsp,
            ).1 =~= stepped.1);
        }
        if c == '\t' || c == ' ' {
            if !st.after_break {
                st.after_space = true;
            }
        } else if c == '\n' {
            if !collapses_newlines {
                out.push('\n');
            }
            st.after_break = true;
            st.after_space = false;
        } else {
            let last_is_joining = match st.last_kept {
                Some(last) => last == ZERO_WIDTH_SPACE || (is_space_discarding(last)
                    && is_space_discarding(c)),
                None => false,
            };
            let suppress = !collapses_newlines || c == ZERO_WIDTH_SPACE || last_is_joining;
            let pending = if st.after_break {
                !suppress
            } else {
                st.after_space
            };
            if pending {
                if marker_is_zwsp {
                    out.push(ZERO_WIDTH_SPACE);
                } else {
                    out.push(' ');
                }
            }
            out.push(c);
            st.after_space = false;
            st.after_break = false;
            st.last_kept = Some(c);
        }
        proof {
            assert(st == stepped.0);
            assert(out@ =~= spec_collapse_text(
                text@.take(i + 1 as int),
                st0,
                collapses_newlines,
                marker_is_zwsp,
            ).1);
        }
        i = i + 1;
    }
    proof {
        assert(text@.take(text@.len() as int) =~= text@);
    }
    *after_collapsible_space = st.after_space;
    *after_break = st.after_break;
    out
}

} // verus!

use nglayoutng::geometry::Au;
use nglayoutng::inline_layout::{collapse_spaces_in_string, is_space_discarding, ZERO_WIDTH_SPACE};
use nglayoutng::line_break::{break_into_lines, soft_break_flags};
use smallbitvec::SmallBitVec;

fn bitvec(bits: &[bool]) -> SmallBitVec {
    let mut v = SmallBitVec::new();
    for b in bits {
        v.push(*b);
    }
    v
}

fn collapse(text: &str, collapses_newlines: bool, asp: &mut bool, ab: &mut bool) -> String {
    let chars: Vec<char> = text.chars().collect();
    collapse_spaces_in_string(&chars, collapses_newlines, asp, ab)
        .into_iter()
        .collect()
}

#[test]
fn collapse_within_one_item() {
    let mut asp = false;
    let mut ab = false;
    let out = collapse("a  b", true, &mut asp, &mut ab);
    assert_eq!(out, "a b");
    assert!(!asp && !ab);
}

#[test]
fn collapse_across_item_boundary_leaves_one_marker() {
    // Two text items under the default collapsing policy: the run of
    // collapsible spaces crossing the boundary collapses to a single
    // zero-width space marker between the words.
    let mut asp = false;
    let mut ab = false;
    let out1 = collapse("a ", true, &mut asp, &mut ab);
    assert_eq!(out1, "a");
    assert!(asp, "the trailing space is pending across the boundary");
    let out2 = collapse("  b", true, &mut asp, &mut ab);
    let combined: String = format!("{}{}", out1, out2);
    let expected: String = vec!['a', ZERO_WIDTH_SPACE, 'b'].into_iter().collect();
    assert_eq!(combined, expected);
    let separators = combined
        .chars()
        .filter(|c| *c == ' ' || *c == ZERO_WIDTH_SPACE)
        .count();
    assert_eq!(separators, 1, "exactly one collapsed space between a and b");
}

#[test]
fn collapse_removes_spaces_around_segment_break() {
    let mut asp = false;
    let mut ab = false;
    let out = collapse("a \n b", true, &mut asp, &mut ab);
    assert_eq!(out, "a b");
}

#[test]
fn collapse_keeps_newlines_under_preline_policy() {
    let mut asp = false;
    let mut ab = false;
    let out = collapse("a \n b", false, &mut asp, &mut ab);
    assert_eq!(out, "a\nb");
}

#[test]
fn segment_break_between_ideographs_is_discarded() {
    let mut asp = false;
    let mut ab = false;
    let out = collapse("\u{4E00}\n\u{4E8C}", true, &mut asp, &mut ab);
    assert_eq!(out, "\u{4E00}\u{4E8C}");
    assert!(is_space_discarding('\u{4E00}'));
    assert!(!is_space_discarding('a'));
}

#[test]
fn soft_break_flags_mark_word_boundaries() {
    let flags = soft_break_flags("hello world");
    assert_eq!(flags.len(), 11);
    assert_eq!(flags.get(6), Some(true), "a soft wrap is allowed before 'world'");
    let count = (0..flags.len()).filter(|k| flags.get(*k) == Some(true)).count();
    assert_eq!(count, 1, "no other soft wrap inside the two words");
}

#[test]
fn line_breaks_at_last_opportunity_before_overflow() {
    // Four glyphs of 100 app units; a soft wrap is allowed before
    // the third; 250 units available: the line must break exactly
    // at the opportunity, not mid-run and not past it.
    let advances = vec![Au(100), Au(100), Au(100), Au(100)];
    let can_break = bitvec(&[false, false, true, false]);
    let cuts = break_into_lines(&advances, &can_break, Au(250));
    assert_eq!(cuts, vec![2]);
}

#[test]
fn line_never_breaks_without_opportunity() {
    let advances = vec![Au(200), Au(200), Au(200)];
    let can_break = bitvec(&[false, false, false]);
    let cuts = break_into_lines(&advances, &can_break, Au(100));
    assert!(cuts.is_empty(), "an undividable run overflows in one line");
}

#[test]
fn oversized_head_breaks_at_first_opportunity() {
    let advances = vec![Au(400), Au(50)];
    let can_break = bitvec(&[false, true]);
    let cuts = break_into_lines(&advances, &can_break, Au(300));
    assert_eq!(cuts, vec![1]);
}

#[test]
fn everything_fits_on_one_line() {
    let advances = vec![Au(50), Au(50), Au(50)];
    let can_break = bitvec(&[false, true, true]);
    let cuts = break_into_lines(&advances, &can_break, Au(300));
    assert!(cuts.is_empty());
}

#[test]
fn line_break_never_cuts_without_overflow() {
    // Opportunities everywhere, but everything fits: no cut at all
    // may be made, since a cut is only allowed on overflow.
    let advances = vec![Au(10), Au(10), Au(10), Au(10)];
    let can_break = bitvec(&[false, true, true, true]);
    let cuts = break_into_lines(&advances, &can_break, Au(100));
    assert!(cuts.is_empty());
}

#[test]
fn line_break_picks_last_fitting_opportunity() {
    // Two opportunities; the later one still fits, so the cut must
    // fall there, not at the earlier one.
    let advances = vec![Au(100), Au(100), Au(100), Au(100)];
    let can_break = bitvec(&[false, true, true, false]);
    let cuts = break_into_lines(&advances, &can_break, Au(250));
    assert_eq!(cuts, vec![2]);
}

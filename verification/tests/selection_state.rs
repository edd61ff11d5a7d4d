//! Tests for the selection head and tail rules.

use markdown::selection::Selection;

#[test]
fn default_selection_is_empty_caret() {
    let s = Selection::default();
    assert_eq!(s.start, 0);
    assert_eq!(s.end, 0);
    assert!(!s.reversed);
    assert!(!s.pending);
}

#[test]
fn set_head_extends_forward() {
    let mut s = Selection { start: 5, end: 5, reversed: false, pending: true };
    s.set_head(9);
    assert_eq!((s.start, s.end, s.reversed), (5, 9, false));
    assert_eq!(s.tail(), 5);
}

#[test]
fn set_head_extends_backward_and_swaps() {
    let mut s = Selection { start: 5, end: 5, reversed: false, pending: true };
    s.set_head(2);
    assert_eq!((s.start, s.end, s.reversed), (2, 5, true));
    assert_eq!(s.tail(), 5);
}

#[test]
fn set_head_crossing_tail_keeps_anchor() {
    let mut s = Selection { start: 5, end: 9, reversed: false, pending: true };
    s.set_head(3);
    assert_eq!((s.start, s.end, s.reversed), (3, 5, true));
    s.set_head(12);
    assert_eq!((s.start, s.end, s.reversed), (5, 12, false));
    assert_eq!(s.tail(), 5);
}

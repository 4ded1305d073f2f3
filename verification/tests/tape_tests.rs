use std::collections::HashMap;
use tapevm::tape::{Tape, TapeModel};

fn both() -> Vec<Tape> {
    vec![Tape::new(TapeModel::Sparse), Tape::new(TapeModel::Dense)]
}

#[test]
fn new_tape_reads_zero_everywhere() {
    for t in both() {
        assert_eq!(t.read(0), 0);
        assert_eq!(t.read(12345), 0);
        assert_eq!(t.read(usize::MAX), 0);
        assert!(t.contents().is_empty());
    }
}

#[test]
fn tape_remembers_its_model() {
    assert_eq!(Tape::new(TapeModel::Sparse).model(), TapeModel::Sparse);
    assert_eq!(Tape::new(TapeModel::Dense).model(), TapeModel::Dense);
}

#[test]
fn write_then_read_returns_the_value() {
    for mut t in both() {
        t.write(3, 77);
        assert_eq!(t.read(3), 77);
        assert_eq!(t.read(2), 0);
        assert_eq!(t.read(4), 0);
        t.write(3, 9);
        assert_eq!(t.read(3), 9);
    }
}

#[test]
fn writing_zero_removes_the_entry() {
    for mut t in both() {
        t.write(5, 1);
        t.write(8, 2);
        t.write(5, 0);
        assert_eq!(t.read(5), 0);
        let mut want = HashMap::new();
        want.insert(8usize, 2u8);
        assert_eq!(t.contents(), want);
    }
}

#[test]
fn writing_zero_far_away_changes_nothing() {
    for mut t in both() {
        t.write(usize::MAX, 0);
        assert_eq!(t.read(usize::MAX), 0);
        assert!(t.contents().is_empty());
    }
}

#[test]
fn increment_wraps_from_255_to_zero() {
    for mut t in both() {
        t.write(1, 254);
        t.increment(1);
        assert_eq!(t.read(1), 255);
        t.increment(1);
        assert_eq!(t.read(1), 0);
        assert!(t.contents().is_empty());
    }
}

#[test]
fn increment_of_an_untouched_cell_gives_one() {
    for mut t in both() {
        t.increment(40);
        assert_eq!(t.read(40), 1);
    }
}

#[test]
fn decrement_wraps_from_zero_to_255() {
    for mut t in both() {
        t.decrement(2);
        assert_eq!(t.read(2), 255);
        t.decrement(2);
        assert_eq!(t.read(2), 254);
    }
}

#[test]
fn decrement_to_zero_leaves_no_entry() {
    for mut t in both() {
        t.write(6, 1);
        t.decrement(6);
        assert_eq!(t.read(6), 0);
        assert!(t.contents().is_empty());
    }
}

#[test]
fn contents_hold_exactly_the_nonzero_cells() {
    for mut t in both() {
        t.write(0, 10);
        t.write(4, 0);
        t.write(9, 30);
        t.write(2, 20);
        let mut want = HashMap::new();
        want.insert(0usize, 10u8);
        want.insert(2usize, 20u8);
        want.insert(9usize, 30u8);
        assert_eq!(t.contents(), want);
    }
}

use panko::diff_view::{LineKind, TextSegment};
use panko::row_layout::{fit_pieces, split_row, unified_row, visible_rows, PaneRow, Tint};

fn seg(text: &str, is_changed: bool) -> TextSegment {
    TextSegment { text: text.to_string(), is_changed }
}

#[test]
fn numbers_are_right_aligned_in_four_columns() {
    let row = unified_row(LineKind::Addition, None, Some(7), 80);
    assert_eq!(row.old_num, "    ");
    assert_eq!(row.new_num, "   7");
    assert_eq!(row.tint, Tint::Added);
    assert_eq!(row.text_width, 66);
    let wide = unified_row(LineKind::Context, Some(12345), Some(42), 10);
    assert_eq!(wide.old_num, "12345");
    assert_eq!(wide.new_num, "  42");
    assert_eq!(wide.tint, Tint::Plain);
    assert_eq!(wide.text_width, 0);
}

#[test]
fn split_row_tints_lone_and_changed_sides() {
    let lone = split_row(Some(3), &vec![seg("gone", false)], None, &vec![], 40);
    assert_eq!(lone.old_num, "   3 ");
    assert_eq!(lone.new_num, "     ");
    assert_eq!((lone.old_tint, lone.new_tint), (Tint::Deleted, Tint::Plain));
    assert_eq!(lone.side_width, 33);

    let changed = split_row(
        Some(1),
        &vec![seg("let ", false), seg("a", true)],
        Some(1),
        &vec![seg("let ", false), seg("b", true)],
        5,
    );
    assert_eq!((changed.old_tint, changed.new_tint), (Tint::Deleted, Tint::Added));
    assert_eq!(changed.side_width, 0);

    let same = split_row(Some(2), &vec![seg("x", false)], Some(2), &vec![seg("x", false)], 40);
    assert_eq!((same.old_tint, same.new_tint), (Tint::Plain, Tint::Plain));
}

#[test]
fn pieces_are_cut_at_the_width_and_padded() {
    assert_eq!(fit_pieces(&vec![3, 4], 10), (vec![3, 4], 3));
    assert_eq!(fit_pieces(&vec![3, 4, 5], 5), (vec![3, 2], 0));
    assert_eq!(fit_pieces(&vec![5, 1], 5), (vec![5], 0));
    assert_eq!(fit_pieces(&vec![2], 0), (vec![], 0));
    assert_eq!(fit_pieces(&vec![], 4), (vec![], 4));
}

#[test]
fn boxes_follow_their_line_and_the_pane_is_cut_at_its_height() {
    // Line 10 has a box two rows high under it; line 11 has none.
    let below = vec![vec![2], vec![], vec![1]];
    assert_eq!(
        visible_rows(10, 10, &below),
        vec![
            PaneRow::Line(10),
            PaneRow::Boxed { line: 10, item: 0, row: 0 },
            PaneRow::Boxed { line: 10, item: 0, row: 1 },
            PaneRow::Line(11),
            PaneRow::Line(12),
            PaneRow::Boxed { line: 12, item: 0, row: 0 },
        ]
    );
    assert_eq!(
        visible_rows(10, 2, &below),
        vec![PaneRow::Line(10), PaneRow::Boxed { line: 10, item: 0, row: 0 }]
    );
    assert_eq!(visible_rows(0, 0, &below), vec![]);
}

use dutree::bar::fmt_bar;

#[test]
fn bar_of_a_child_of_the_root() {
    // ten cells; the child is half of the largest: the right part is solid
    assert_eq!(fmt_bar(&vec![100, 50], 100, 17, false), "│      ████│  50%");
    assert_eq!(fmt_bar(&vec![100, 50], 100, 17, true), "│      ####│  50%");
}

#[test]
fn bar_of_the_largest_child() {
    assert_eq!(fmt_bar(&vec![100, 100], 100, 17, false), "│ █████████│ 100%");
}

#[test]
fn bar_of_a_grandchild_has_a_shade_per_level() {
    assert_eq!(fmt_bar(&vec![100, 50, 25], 50, 17, false), "│ ░░░░░████│  50%");
    assert_eq!(fmt_bar(&vec![100, 50, 25], 50, 17, true), "│ #########│  50%");
}

#[test]
fn bar_four_levels_down_uses_every_shade() {
    let bar = fmt_bar(&vec![1000, 1000, 800, 600, 400], 1000, 27, false);
    // twenty cells: 1000 of 1000 leaves all twenty, 800 of 1000 sixteen of
    // them, 600 of 800 twelve, 400 of 600 eight
    assert_eq!(bar, "│ ░░░░▒▒▒▒▓▓▓▓███████│  66%");
}

#[test]
fn bar_of_nothing() {
    assert_eq!(fmt_bar(&vec![0, 0], 0, 17, false), "│          │   0%");
}

#[test]
fn bar_without_room_for_cells() {
    assert_eq!(fmt_bar(&vec![10, 5], 10, 7, false), "││  50%");
    assert_eq!(fmt_bar(&vec![10, 5], 10, 0, false), "││  50%");
}

#[test]
fn percentage_is_rounded_down_and_may_pass_three_digits() {
    assert_eq!(fmt_bar(&vec![3, 2], 3, 7, false), "││  66%");
    assert_eq!(fmt_bar(&vec![1, 50], 50, 7, false), "││ 5000%");
    assert_eq!(fmt_bar(&vec![1, u64::MAX], u64::MAX, 7, false), "││ 1844674407370955161500%");
}

#[test]
fn a_part_above_the_whole_fills_the_bar() {
    assert_eq!(fmt_bar(&vec![10, 50], 10, 12, false), "│ ████│ 500%");
}

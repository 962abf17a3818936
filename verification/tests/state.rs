use pretty_format::BufPrinter;
use pretty_format::INFINITY;

fn printer(margin: i32) -> BufPrinter {
    BufPrinter::new(margin, 10, 68, 10)
}

fn check_state(f: &BufPrinter) {
    // The difference of the totals is the width of the queue.
    assert_eq!(f.right_total() - f.left_total(), f.pending_width());
    // The scanning pile is in the order of its totals, above the sentinel.
    let totals = f.scan_totals();
    assert!(!totals.is_empty());
    assert_eq!(totals[0], -1);
    for pair in totals.windows(2) {
        assert!(pair[0] <= pair[1]);
    }
    for total in &totals[1..] {
        assert!(*total >= 1 && *total <= f.right_total());
    }
    // The root box is never closed.
    assert!(f.curr_depth() >= 1);
}

fn check_rest(f: &BufPrinter, margin: i32) {
    assert_eq!(f.queue_len(), 1);
    assert_eq!(f.format_depth(), 0);
    assert_eq!(f.scan_totals(), vec![-1, 1]);
    assert_eq!(f.curr_depth(), 1);
    assert_eq!(f.space_left(), margin as i64);
    assert_eq!(f.current_indent(), 0);
    assert_eq!(f.left_total(), 1);
    assert_eq!(f.right_total(), 1);
    assert_eq!(f.pending_width(), 0);
}

#[test]
fn totals_pile_and_depth_hold_at_every_step() {
    let mut f = printer(12);
    check_state(&f);
    check_rest(&f, 12);
    f.open_hovbox(0);
    check_state(&f);
    assert_eq!(f.scan_totals(), vec![-1, 1, 1]);
    f.print_string("one");
    check_state(&f);
    assert_eq!((f.left_total(), f.right_total(), f.queue_len()), (1, 4, 3));
    f.print_space();
    check_state(&f);
    assert_eq!(f.scan_totals(), vec![-1, 1, 1, 4]);
    f.print_string("two");
    check_state(&f);
    f.print_space();
    check_state(&f);
    assert_eq!(f.scan_totals(), vec![-1, 1, 1, 8]);
    assert_eq!((f.left_total(), f.right_total(), f.queue_len()), (1, 9, 6));
    assert_eq!(f.out_buf, "");
    f.print_string("three");
    check_state(&f);
    assert_eq!(f.out_buf, "one two\nthree");
    assert_eq!((f.left_total(), f.right_total(), f.queue_len()), (14, 14, 0));
    assert_eq!((f.space_left(), f.format_depth()), (7, 2));
    f.print_space();
    check_state(&f);
    assert_eq!(f.scan_totals(), vec![-1, 14]);
    assert_eq!((f.left_total(), f.right_total(), f.queue_len()), (14, 15, 1));
    f.print_string("four");
    check_state(&f);
    assert_eq!((f.left_total(), f.right_total(), f.queue_len()), (14, 19, 2));
    f.close_box();
    check_state(&f);
    assert_eq!(f.out_buf, "one two\nthree four");
    assert_eq!((f.curr_depth(), f.format_depth(), f.space_left()), (1, 1, 2));
    f.close_box();
    check_state(&f);
    assert_eq!(f.curr_depth(), 1);
    f.print_flush();
    check_state(&f);
    check_rest(&f, 12);
    assert_eq!(f.out_buf, "one two\nthree four");
}

#[test]
fn flush_comes_to_rest() {
    let mut f = printer(20);
    f.open_vbox(3);
    f.open_hbox();
    f.print_string("abc");
    f.print_space();
    f.print_string("def");
    assert_eq!(f.curr_depth(), 3);
    f.print_flush();
    check_rest(&f, 20);
    assert_eq!(f.out_buf, "abc def");
}

#[test]
fn newline_comes_to_rest() {
    let mut f = printer(20);
    f.print_string("ab");
    f.print_newline();
    check_rest(&f, 20);
    f.print_string("cd");
    f.print_newline();
    check_rest(&f, 20);
    assert_eq!(f.out_buf, "ab\ncd\n");
}

#[test]
fn flush_twice_is_flush_once() {
    let mut f = printer(12);
    f.open_hovbox(1);
    f.print_string("alpha");
    f.print_space();
    f.print_string("beta");
    f.print_space();
    f.print_string("gamma");
    f.print_flush();
    let once = f.out_buf.clone();
    assert_eq!(once, "alpha beta\n gamma");
    f.print_flush();
    assert_eq!(f.out_buf, once);
    check_rest(&f, 12);
    f.print_flush();
    assert_eq!(f.out_buf, once);
}

#[test]
fn flush_of_a_new_printer_prints_nothing() {
    let mut f = printer(20);
    f.print_flush();
    assert_eq!(f.out_buf, "");
    check_rest(&f, 20);
}

#[test]
fn flush_with_negative_largest_indent_ends_a_line_each_time() {
    // The root box opens to the right of the largest indentation, and
    // with no box around it that forces a line end.
    let mut f = BufPrinter::new(20, 10, -1, 10);
    f.print_flush();
    assert_eq!(f.out_buf, "\n");
    f.print_flush();
    assert_eq!(f.out_buf, "\n\n");
}

#[test]
fn break_indent_is_margin_less_width_plus_offset() {
    // The box opens at column 0 with offset 2: its width is 1, and a
    // break of offset 3 starts the next line at 3 - 1 + 3.
    let mut f = printer(3);
    f.open_vbox(2);
    f.print_string("a");
    f.print_break(1, 3);
    f.print_string("b");
    assert_eq!(f.out_buf, "a\n     b");
    assert_eq!(f.current_indent(), 5);
    assert_eq!(f.space_left(), 3 - 5 - 1);
    f.close_box();
    f.print_flush();
    assert_eq!(f.out_buf, "a\n     b");
}

#[test]
fn break_indent_is_no_more_than_the_largest_indent() {
    // The width of the box is 3 - 8, so the break asks for 3 + 5 columns
    // of indentation and gets the largest, 3.
    let mut f = BufPrinter::new(3, 10, 3, 10);
    f.open_vbox(8);
    f.print_string("a");
    f.print_space();
    f.print_string("b");
    assert_eq!(f.current_indent(), 3);
    assert_eq!(f.space_left(), 3 - 3 - 1);
    f.close_box();
    f.print_flush();
    assert_eq!(f.out_buf, "a\n   b");
}

#[test]
fn hbox_never_breaks_however_wide() {
    let mut f = printer(10);
    f.open_hbox();
    f.print_string("aaaaaaaa");
    f.print_space();
    f.print_string("bbbbbbbb");
    f.print_cut();
    f.print_string("cccccccc");
    assert_eq!(f.space_left(), -15);
    f.close_box();
    f.print_flush();
    assert_eq!(f.out_buf, "aaaaaaaa bbbbbbbbcccccccc");
    assert!(!f.out_buf.contains('\n'));
}

#[test]
fn vbox_breaks_at_space_and_at_cut() {
    let mut f = printer(40);
    f.open_vbox(1);
    f.print_string("a");
    f.print_space();
    f.print_string("b");
    f.print_cut();
    f.print_string("c");
    f.close_box();
    f.print_flush();
    assert_eq!(f.out_buf, "a\n b\n c");
    assert_eq!(f.out_buf.matches('\n').count(), 2);
}

fn four_words(margin: i32) -> String {
    let mut f = printer(margin);
    f.open_hovbox(1);
    for word in ["alpha", "beta", "gamma", "delta"] {
        f.print_string(word);
        f.print_space();
    }
    f.close_box();
    f.print_flush();
    f.out_buf
}

#[test]
fn narrower_margin_breaks_no_less_for_plain_words() {
    assert_eq!(four_words(20), "alpha beta gamma\n delta ");
    assert_eq!(four_words(10), "alpha\n beta\n gamma\n delta ");
    assert_eq!(four_words(6), "alpha\n beta\n gamma\n delta\n ");
    let counts: Vec<usize> =
        [20, 10, 6, 3].iter().map(|m| four_words(*m).matches('\n').count()).collect();
    assert_eq!(counts, vec![1, 3, 4, 4]);
}

fn hints_with_offsets(margin: i32) -> String {
    let mut f = printer(margin);
    f.print_string("xxxxxx");
    f.print_break(0, 0);
    f.print_break(0, 3);
    f.print_string("xxxx");
    f.print_break(0, 3);
    f.print_break(0, 0);
    f.print_flush();
    f.out_buf
}

#[test]
fn an_indented_line_can_cost_a_break_that_a_narrower_margin_saves() {
    // At margin 7 the second hint breaks and indents by 3, so the third
    // hint finds the line full; at margin 6 the first hint breaks with no
    // indent and the line has room.
    assert_eq!(hints_with_offsets(7), "xxxxxx\n   xxxx\n   \n");
    assert_eq!(hints_with_offsets(6), "xxxxxx\nxxxx\n");
}

#[test]
fn margin_of_infinity_keeps_the_root_box_waiting() {
    // Nothing queued can reach a line that long, so nothing is ever ready
    // to print, and a flush forgets it.
    let mut f = printer(INFINITY);
    f.print_string("abc");
    f.print_flush();
    assert_eq!(f.out_buf, "");
    let mut g = printer(INFINITY - 1);
    g.print_string("abc");
    g.print_flush();
    assert_eq!(g.out_buf, "abc");
}

fn one_box(margin: i32, vertical: bool) -> String {
    let mut f = printer(margin);
    if vertical {
        f.open_vbox(1);
    } else {
        f.open_hbox();
    }
    for word in ["alpha", "beta", "gamma"] {
        f.print_string(word);
        f.print_space();
        f.print_cut();
    }
    f.close_box();
    f.print_flush();
    f.out_buf
}

#[test]
fn margin_is_no_matter_to_a_horizontal_or_vertical_box() {
    for margin in [1, 5, 12, 50] {
        assert_eq!(one_box(margin, false), "alpha beta gamma ");
        assert_eq!(one_box(margin, true), "alpha\n \n beta\n \n gamma\n \n ");
    }
}

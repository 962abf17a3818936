use pretty_format::printer::BufPrinter;
use pretty_format::token::{PpBox, PpQueueT, PpScanT, PpToken, Size, INFINITY};

fn printer(margin: i32) -> BufPrinter {
    BufPrinter::new(margin, 10, 68, 10)
}

#[test]
fn new_printer_is_empty_with_root_box_open() {
    let f = BufPrinter::new(78, 10, 68, 10);
    assert_eq!(f.out_buf, "");
    assert_eq!(f.output(), "");
    assert_eq!(f.margin(), 78);
    assert_eq!(f.max_boxes(), 10);
    assert_eq!(f.curr_depth(), 1);
    assert_eq!(f.space_left(), 78);
    assert_eq!(f.queue_len(), 1);
    assert_eq!(f.scan_totals(), vec![-1, 1]);
}

#[test]
fn close_box_without_an_open_box_is_ignored() {
    let mut f = printer(20);
    f.close_box();
    f.close_box();
    assert_eq!(f.curr_depth(), 1);
    assert_eq!(f.queue_len(), 1);
    f.print_string("x");
    f.close_box();
    f.print_flush();
    assert_eq!(f.out_buf, "x");
}

#[test]
fn open_and_close_count_the_depth() {
    let mut f = BufPrinter::new(20, 10, 68, 3);
    f.open_box(0);
    assert_eq!(f.curr_depth(), 2);
    f.open_box(0);
    assert_eq!(f.curr_depth(), 3);
    f.open_box(0);
    assert_eq!(f.curr_depth(), 4);
    f.close_box();
    f.close_box();
    assert_eq!(f.curr_depth(), 2);
    f.close_box();
    f.close_box();
    assert_eq!(f.curr_depth(), 1);
}

#[test]
fn empty_text_puts_out_nothing() {
    let mut f = printer(20);
    f.print_string("");
    f.print_string("x");
    f.print_string("");
    assert_eq!(f.right_total(), 2);
    f.print_flush();
    assert_eq!(f.out_buf, "x");
}

#[test]
fn unboxed_text_wraps_in_the_root_box() {
    let mut f = printer(10);
    for word in ["aaaa", "bbbb", "cccc", "dddd"] {
        f.print_string(word);
        f.print_space();
    }
    f.print_flush();
    assert_eq!(f.out_buf, "aaaa bbbb\ncccc dddd\n");
}

#[test]
fn unboxed_text_wraps_after_a_flush_too() {
    let mut f = printer(10);
    f.print_string("zz");
    f.print_flush();
    for word in ["aaaa", "bbbb", "cccc", "dddd"] {
        f.print_string(word);
        f.print_space();
    }
    f.print_flush();
    assert_eq!(f.out_buf, "zzaaaa bbbb\ncccc dddd\n");
}

#[test]
fn print_as_counts_the_declared_width() {
    let mut f = printer(6);
    f.open_hovbox(0);
    f.print_as("aaaa".to_string(), 1);
    f.print_space();
    f.print_as("bbbb".to_string(), 1);
    assert_eq!(f.right_total(), 4);
    f.close_box();
    f.print_flush();
    assert_eq!(f.out_buf, "aaaa bbbb");
}

#[test]
fn print_string_counts_the_bytes() {
    let mut f = printer(6);
    f.open_hovbox(0);
    f.print_string("aaaa");
    f.print_space();
    f.print_string("bbbb");
    f.close_box();
    f.print_flush();
    assert_eq!(f.out_buf, "aaaa\nbbbb");
}

fn custom(margin: i32) -> String {
    let mut f = printer(margin);
    f.open_hovbox(2);
    f.print_string("aaa");
    f.print_custom_break(
        ("<".to_string(), 1, ">".to_string()),
        ("[".to_string(), 1, "]".to_string()),
    );
    f.print_string("bbb");
    f.close_box();
    f.print_flush();
    f.out_buf
}

#[test]
fn custom_break_that_fits_uses_its_first_triple() {
    assert_eq!(custom(20), "aaa< >bbb");
}

#[test]
fn custom_break_that_splits_uses_its_second_triple() {
    assert_eq!(custom(6), "aaa[\n   ]bbb");
}

#[test]
fn custom_break_length_is_that_of_its_first_triple() {
    let mut f = printer(40);
    f.print_custom_break(
        ("ab".to_string(), 3, "c".to_string()),
        ("wxyz".to_string(), 7, "wxyz".to_string()),
    );
    assert_eq!(f.right_total(), 7);
    assert_eq!(f.pending_width(), 6);
}

#[test]
fn print_break_gives_width_or_offset() {
    let mut f = printer(20);
    f.open_hovbox(0);
    f.print_string("a");
    f.print_break(3, 1);
    f.print_string("b");
    f.close_box();
    f.print_flush();
    assert_eq!(f.out_buf, "a   b");
    let mut g = printer(3);
    g.open_hovbox(0);
    g.print_string("a");
    g.print_break(3, 1);
    g.print_string("b");
    g.close_box();
    g.print_flush();
    assert_eq!(g.out_buf, "a\n b");
}

fn outdent(kind: PpBox) -> String {
    let mut f = printer(40);
    match kind {
        PpBox::Box() => f.open_box(0),
        _ => f.open_hovbox(0),
    }
    f.print_string("aaaaaaaaaaaaaaaaaaaa");
    f.print_break(1, 8);
    f.print_string("bbbbbbbbbbbbbbbbbbbbbbbbb");
    f.print_break(1, 0);
    f.print_string("cc");
    f.print_break(1, 0);
    f.print_string("dd");
    f.close_box();
    f.print_flush();
    f.out_buf
}

#[test]
fn hovbox_packs_the_line() {
    assert_eq!(
        outdent(PpBox::Hovbox()),
        "aaaaaaaaaaaaaaaaaaaa\n        bbbbbbbbbbbbbbbbbbbbbbbbb cc dd"
    );
}

#[test]
fn box_breaks_where_that_moves_back_to_its_column() {
    assert_eq!(
        outdent(PpBox::Box()),
        "aaaaaaaaaaaaaaaaaaaa\n        bbbbbbbbbbbbbbbbbbbbbbbbb\ncc dd"
    );
}

#[test]
fn box_opening_beyond_the_largest_indent_starts_a_line() {
    let mut f = BufPrinter::new(20, 10, 4, 10);
    f.open_hovbox(0);
    f.print_string("aaaaaaaa");
    f.print_space();
    f.open_hovbox(0);
    f.print_string("bbbbbbbb");
    f.print_space();
    f.print_string("cccccccc");
    f.close_box();
    f.close_box();
    f.print_flush();
    assert_eq!(f.out_buf, "aaaaaaaa\nbbbbbbbb cccccccc");
}

#[test]
fn set_margin_is_used_from_the_next_line_on() {
    let mut f = printer(20);
    f.set_margin(8);
    assert_eq!(f.margin(), 8);
    assert_eq!(f.space_left(), 20);
    f.open_hovbox(0);
    f.print_string("aaaa");
    f.print_space();
    f.print_string("bbbb");
    f.print_space();
    f.print_string("cccc");
    f.close_box();
    f.print_flush();
    assert_eq!(f.out_buf, "aaaa bbbb cccc");
    assert_eq!(f.space_left(), 8);
    f.open_hovbox(0);
    f.print_string("aaaa");
    f.print_space();
    f.print_string("bbbb");
    f.print_space();
    f.print_string("cccc");
    f.close_box();
    f.print_flush();
    assert_eq!(f.out_buf, "aaaa bbbb ccccaaaa\nbbbb\ncccc");
}

#[test]
fn set_margin_stops_at_infinity() {
    let mut f = printer(20);
    f.set_margin(0);
    assert_eq!(f.margin(), 0);
    f.set_margin(1000000009);
    assert_eq!(f.margin(), 1000000009);
    f.set_margin(1000000010);
    assert_eq!(f.margin(), INFINITY);
    f.set_margin(usize::MAX);
    assert_eq!(f.margin(), INFINITY);
}

#[test]
fn set_max_boxes_takes_more_than_one_only() {
    let mut f = printer(20);
    f.set_max_boxes(0);
    assert_eq!(f.max_boxes(), 10);
    f.set_max_boxes(1);
    assert_eq!(f.max_boxes(), 10);
    f.set_max_boxes(2);
    assert_eq!(f.max_boxes(), 2);
    f.open_box(0);
    f.print_string("hidden");
    f.close_box();
    f.print_flush();
    assert_eq!(f.out_buf, ".");
}

#[test]
fn print_newline_ends_the_line() {
    let mut f = printer(20);
    f.open_hbox();
    f.print_string("ab");
    f.print_newline();
    assert_eq!(f.out_buf, "ab\n");
    assert_eq!(f.curr_depth(), 1);
    f.print_newline();
    assert_eq!(f.out_buf, "ab\n\n");
}

#[test]
fn output_newline_and_indent_write_to_the_buffer() {
    let mut f = printer(20);
    f.output_indent(3);
    f.output_newline();
    f.output_indent(0);
    f.output_indent(-4);
    f.output_indent(1);
    assert_eq!(f.out_buf, "   \n ");
    assert_eq!(f.output(), "   \n ");
    assert_eq!(f.space_left(), 20);
}

#[test]
fn fprintf_runs_the_function_on_the_printer() {
    let mut f = printer(20);
    f.fprintf(
        |p: &mut BufPrinter, words: Vec<&str>| {
            p.open_vbox(1);
            for word in words {
                p.print_string(word);
                p.print_space();
            }
            p.close_box();
        },
        vec!["a", "b"],
    );
    f.print_flush();
    assert_eq!(f.out_buf, "a\n b\n ");
}

#[test]
fn size_is_known_when_not_negative() {
    assert!(Size(0).is_known());
    assert!(Size(7).is_known());
    assert!(Size(INFINITY).is_known());
    assert!(!Size(-1).is_known());
    assert!(!Size(-INFINITY).is_known());
}

#[test]
fn token_len_is_the_length_of_its_text() {
    assert_eq!(PpToken::Text("abc".to_string()).len(), 3);
    assert_eq!(PpToken::Text(String::new()).len(), 0);
    assert_eq!(PpToken::Begin(4, PpBox::Vbox()).len(), 0);
    assert_eq!(PpToken::End().len(), 0);
    assert_eq!(PpToken::Newline().len(), 0);
    let hint = PpToken::Break {
        fits: ("ab".to_string(), 1, "".to_string()),
        breaks: ("".to_string(), 0, "".to_string()),
    };
    assert_eq!(hint.len(), 0);
    assert_eq!(hint.clone().len(), 0);
    assert_eq!(PpToken::Text("abc".to_string()).clone().len(), 3);
}

#[test]
fn queue_and_pile_elements_hold_a_token_identity() {
    let q = PpQueueT(3);
    assert_eq!(q.0, 3);
    let s = PpScanT { left_total: 5, token_idx: 3 };
    assert_eq!((s.left_total, s.token_idx), (5, 3));
    assert!(matches!(PpBox::Hvbox().clone(), PpBox::Hvbox()));
}

#[test]
fn has_room_says_when_text_can_be_printed() {
    let mut f = BufPrinter::new(20, 10, 68, 2);
    assert!(f.has_room(0));
    assert!(f.has_room(1000000009));
    assert!(!f.has_room(1000000010));
    f.print_string("abc");
    assert!(f.has_room(1000000006));
    assert!(!f.has_room(1000000007));
    assert!(!f.has_room(usize::MAX));
    // At the depth limit text is dropped, so any width will do.
    f.open_box(0);
    assert_eq!(f.right_total(), 5);
    assert!(f.has_room(usize::MAX));
    f.print_as("dropped".to_string(), usize::MAX);
    assert_eq!(f.right_total(), 5);
    f.print_flush();
    assert_eq!(f.out_buf, "abc.");
}

#[test]
fn can_open_says_when_a_box_can_be_opened() {
    let mut f = BufPrinter::new(20, 10, 68, 3);
    assert!(f.can_open());
    f.open_box(0);
    f.print_as("wide".to_string(), 1000000007);
    assert_eq!(f.right_total(), INFINITY - 2);
    f.print_string("x");
    f.print_string("y");
    assert_eq!(f.right_total(), INFINITY);
    // The next box would be the ellipsis, and there is no room for it.
    assert!(!f.can_open());
    f.print_flush();
    assert!(f.can_open());
}

#[test]
fn print_cut_is_nothing_or_a_line_break() {
    let mut f = printer(20);
    f.open_hovbox(0);
    f.print_string("ab");
    f.print_cut();
    f.print_string("cd");
    f.close_box();
    f.print_flush();
    assert_eq!(f.out_buf, "abcd");
    let mut g = printer(3);
    g.open_hovbox(0);
    g.print_string("ab");
    g.print_cut();
    g.print_string("cd");
    g.close_box();
    g.print_flush();
    assert_eq!(g.out_buf, "ab\ncd");
}

#[test]
fn size_orders_by_its_number() {
    assert!(Size(-1) < Size(0));
    assert!(Size(3) == Size(3));
    assert_eq!(Size(5).clone(), Size(5));
    assert_eq!(PpQueueT(2).clone().0, 2);
}

use pretty_format::BufPrinter;

fn printer(margin: i32) -> BufPrinter {
    BufPrinter::new(margin, 10, 68, 10)
}

#[test]
fn test_simple() {
    let mut f = BufPrinter::new(78, 10, 68, 10000000);
    f.open_box(2);
    f.print_string("hello world, this is my very long sentence");
    f.print_space();
    f.print_string("Test sentence 1.");
    f.print_space();
    f.print_string("Test sentence 2.");
    f.print_space();
    f.print_string("Test sentence 3.");
    f.print_space();
    f.print_string("Test sentence 4.");
    f.print_space();
    f.print_string("Test sentence 5.");
    f.print_space();
    f.print_string("Test sentence 6.");
    f.print_space();
    f.print_string("Test sentence 7.");
    f.close_box();
    f.print_flush();

    println!("{}", f.out_buf)
}

#[test]
fn long_sentence_wraps_at_the_margin() {
    let mut f = BufPrinter::new(78, 10, 68, 10000000);
    f.open_box(2);
    f.print_string("hello world, this is my very long sentence");
    for k in 1..8 {
        f.print_space();
        f.print_string(&format!("Test sentence {}.", k));
    }
    f.close_box();
    f.print_flush();
    assert_eq!(
        f.out_buf,
        "hello world, this is my very long sentence Test sentence 1. Test sentence 2.\n  \
         Test sentence 3. Test sentence 4. Test sentence 5. Test sentence 6.\n  Test sentence 7."
    );
    for line in f.out_buf.lines() {
        assert!(line.len() < 78);
    }
}

#[test]
fn hbox_keeps_text_on_one_line() {
    let mut f = printer(20);
    f.open_hbox();
    f.print_string("aaaa");
    f.print_space();
    f.print_string("bbbb");
    f.close_box();
    f.print_flush();
    assert_eq!(f.out_buf, "aaaa bbbb");
}

#[test]
fn vbox_breaks_at_every_hint() {
    let mut f = printer(20);
    f.open_vbox(2);
    f.print_string("aa");
    f.print_space();
    f.print_string("bb");
    f.print_space();
    f.print_string("cc");
    f.close_box();
    f.print_flush();
    assert_eq!(f.out_buf, "aa\n  bb\n  cc");
}

#[test]
fn hovbox_breaks_only_where_needed() {
    let mut f = printer(12);
    f.open_hovbox(0);
    f.print_string("one");
    f.print_space();
    f.print_string("two");
    f.print_space();
    f.print_string("three");
    f.print_space();
    f.print_string("four");
    f.print_space();
    f.print_string("fivefive");
    f.print_space();
    f.print_string("sixsixsix");
    f.close_box();
    f.print_flush();
    assert_eq!(f.out_buf, "one two\nthree four\nfivefive\nsixsixsix");
    let lines: Vec<&str> = f.out_buf.lines().collect();
    for line in &lines {
        assert!(line.len() <= 12);
        assert!(!line.starts_with(' '));
    }
    // No two neighbouring lines would have fitted on one.
    for pair in lines.windows(2) {
        assert!(pair[0].len() + 1 + pair[1].len() > 12);
    }
}

#[test]
fn hvbox_that_fits_stays_on_the_line() {
    let mut f = printer(20);
    f.open_hvbox(2);
    f.print_string("a");
    f.print_space();
    f.print_string("b");
    f.close_box();
    f.print_flush();
    assert_eq!(f.out_buf, "a b");
}

#[test]
fn hvbox_that_does_not_fit_goes_vertical() {
    let mut f = printer(2);
    f.open_hvbox(2);
    f.print_string("a");
    f.print_space();
    f.print_string("b");
    f.close_box();
    f.print_flush();
    assert_eq!(f.out_buf, "a\n  b");
}

fn two_long_words_and_a_short_one(margin: i32) -> String {
    let mut f = printer(margin);
    f.open_box(2);
    f.print_string("aaaaaaaaaa");
    f.print_space();
    f.print_string("bbbbbbbbbb");
    f.print_space();
    f.print_string("cc");
    f.close_box();
    f.print_flush();
    f.out_buf
}

#[test]
fn box_breaks_at_the_first_space_with_indent_two() {
    let out = two_long_words_and_a_short_one(15);
    let lines: Vec<&str> = out.lines().collect();
    assert_eq!(lines[0], "aaaaaaaaaa");
    assert!(lines[1].starts_with("  bbbbbbbbbb"));
    // What is queued behind the second space fills the line to its last
    // column, so the space cannot wait for its size and ends the line.
    assert_eq!(out, "aaaaaaaaaa\n  bbbbbbbbbb\n  cc");
}

#[test]
fn box_keeps_the_short_word_on_the_second_line_with_a_column_to_spare() {
    assert_eq!(two_long_words_and_a_short_one(16), "aaaaaaaaaa\n  bbbbbbbbbb cc");
}

#[test]
fn boxes_beyond_the_depth_limit_become_one_ellipsis() {
    let mut f = BufPrinter::new(20, 10, 68, 2);
    f.open_box(0);
    f.open_box(0);
    f.open_box(0);
    f.print_string("x");
    f.close_box();
    f.close_box();
    f.close_box();
    f.print_flush();
    assert_eq!(f.out_buf, ".");
}

#[test]
fn text_goes_on_after_the_box_at_the_limit_is_closed() {
    let mut f = BufPrinter::new(20, 10, 68, 3);
    f.open_hovbox(0);
    f.print_string("a");
    f.open_hovbox(0);
    f.print_string("b");
    f.print_space();
    f.open_hovbox(0);
    f.print_string("c");
    f.close_box();
    f.close_box();
    f.print_string("d");
    f.close_box();
    f.close_box();
    assert_eq!(f.curr_depth(), 1);
    f.print_flush();
    assert_eq!(f.out_buf, "a.d");
}

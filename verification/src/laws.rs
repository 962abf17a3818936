//! What holds of the engine as a whole, stated over the model and proved.

use vstd::prelude::*;
use crate::bounds::{
    balanced, inv, lemma_add_token, lemma_advance_left, lemma_close_box, lemma_close_boxes,
    lemma_enqueue, lemma_enqueue_string_as, lemma_fresh, lemma_open_box_gen,
    lemma_print_custom_break, lemma_queue_width_nonneg, lemma_scan_push, lemma_set_size,
    lemma_set_size_keeps, lemma_token_off_pile,
};
use crate::model::{
    add_token, admits, admits_all, advance_left, advance_one, at_rest, blanks, break_indent,
    break_length, break_new_line, break_same_line, close_boxes, drained, emits, enqueue,
    flush_queue, format_pp_token, format_string, head_ready, least, newline, opened_kind,
    output_newline, print_flush, queue_width, rinit, run, scan_push, set_size, step, user_boxes,
    Cursor, Entry, Layout, Op,
};
use crate::token::{text_width, PpBox, Tok, Triple, INFINITY};

verus! {

/// The number of line ends in a text.
pub open spec fn newlines(s: Seq<char>) -> nat
    decreases s.len(),
{
    if s.len() == 0 {
        0
    } else {
        newlines(s.drop_last()) + if s.last() == '\n' {
            1nat
        } else {
            0nat
        }
    }
}

/// The line ends of two texts in a row are those of the one and those
/// of the other.
pub proof fn lemma_newlines_concat(a: Seq<char>, b: Seq<char>)
    ensures
        newlines(a + b) == newlines(a) + newlines(b),
    decreases b.len(),
{
    if b.len() > 0 {
        lemma_newlines_concat(a, b.drop_last());
        assert((a + b).drop_last() =~= a + b.drop_last());
    }
}

/// A run of blanks holds no line end.
pub proof fn lemma_newlines_blanks(n: int)
    ensures
        newlines(blanks(n)) == 0,
    decreases n,
{
    if n > 0 {
        lemma_newlines_blanks(n - 1);
        assert(blanks(n).drop_last() =~= blanks(n - 1));
    }
}

/// The text that ends a line holds one line end.
pub proof fn lemma_newlines_newline()
    ensures
        newlines(newline()) == 1,
{
    assert(newlines(newline().drop_last()) == 0);
}

/// Every operation that a state admits keeps the invariant of the engine:
/// the difference of the two totals is the width of the queue, the
/// scanning pile is in the order of the totals it recorded, above a
/// sentinel that stays, and the root box is never closed.
pub proof fn law_step_keeps_invariant(m: Layout, op: Op)
    requires
        inv(m),
        balanced(m),
        admits(m, op),
    ensures
        inv(step(m, op)),
        balanced(step(m, op)),
        step(m, op).curr_depth >= 1,
{
    match op {
        Op::Open(indent, kind) => {
            lemma_open_box_gen(m, indent, kind);
        },
        Op::Close => {
            lemma_close_box(m);
        },
        Op::Text(s, w) => {
            if m.curr_depth < m.max_boxes {
                lemma_enqueue_string_as(m, s, w);
            }
        },
        Op::Break(fits, breaks) => {
            lemma_print_custom_break(m, fits, breaks);
        },
        Op::Flush => {
            law_flush_comes_to_rest(m, false);
        },
        Op::Newline => {
            law_flush_comes_to_rest(m, true);
        },
        Op::Margin(n) => {},
        Op::MaxBoxes(n) => {},
    }
}

/// The three parts of the invariant that speak of the totals, the
/// scanning pile and the depth, each as it stands.
pub proof fn law_invariant_says(m: Layout, i: int, j: int)
    requires
        inv(m),
        balanced(m),
        0 <= i <= j < m.scan.len(),
    ensures
        m.right_total - m.left_total == queue_width(m.tokens, m.queue),
        m.scan[i].left_total <= m.scan[j].left_total,
        m.scan[0].left_total == -1,
        0 < j ==> m.scan[0].left_total < m.scan[j].left_total <= m.right_total,
        m.curr_depth >= 1,
{
}

/// Nothing that is ready is left waiting: after an operation that puts a
/// token in the queue, the queue is empty, or the size of its head is not
/// known and what is queued takes less than the room left on the line.
pub proof fn law_head_waits_for_its_size_only(m: Layout, op: Op)
    requires
        inv(m),
        admits(m, op),
        emits(m, op),
    ensures
        !head_ready(step(m, op)),
        step(m, op).queue.len() > 0 ==> {
            &&& step(m, op).tokens[step(m, op).queue[0]].size < 0
            &&& step(m, op).right_total - step(m, op).left_total < step(m, op).cursor.space_left
        },
{
    lemma_queue_width_nonneg(m.tokens, m.queue);
    match op {
        Op::Open(indent, kind) => {
            let m1 = Layout { curr_depth: m.curr_depth + 1, ..m };
            if m1.curr_depth < m1.max_boxes {
                let id = m1.tokens.len() as int;
                let tok = Tok::Begin(indent, kind);
                lemma_add_token(m1, tok, 0, -m1.right_total);
                lemma_token_off_pile(m1, tok, 0, -m1.right_total);
                let m2 = add_token(m1, tok, 0, -m1.right_total);
                lemma_scan_push(m2, false, id);
                lemma_enqueue(scan_push(m2, false, id), id);
                lemma_advance_left(enqueue(scan_push(m2, false, id), id));
            } else {
                let s = crate::model::ellipsis();
                lemma_add_token(m1, Tok::Text(s), 1, 1);
                lemma_enqueue(add_token(m1, Tok::Text(s), 1, 1), m1.tokens.len() as int);
                lemma_advance_left(
                    enqueue(add_token(m1, Tok::Text(s), 1, 1), m1.tokens.len() as int),
                );
            }
        },
        Op::Close => {
            let id = m.tokens.len() as int;
            lemma_add_token(m, Tok::End, 0, 0);
            lemma_token_off_pile(m, Tok::End, 0, 0);
            let m2 = add_token(m, Tok::End, 0, 0);
            lemma_set_size(m2, true);
            lemma_set_size_keeps(m2, true, id);
            let m3 = set_size(m2, true);
            lemma_set_size(m3, false);
            lemma_set_size_keeps(m3, false, id);
            let m4 = set_size(m3, false);
            lemma_enqueue(m4, id);
            lemma_advance_left(enqueue(m4, id));
        },
        Op::Text(s, w) => {
            lemma_add_token(m, Tok::Text(s), w, w);
            lemma_enqueue(add_token(m, Tok::Text(s), w, w), m.tokens.len() as int);
            lemma_advance_left(enqueue(add_token(m, Tok::Text(s), w, w), m.tokens.len() as int));
        },
        Op::Break(fits, breaks) => {
            let id = m.tokens.len() as int;
            let tok = Tok::Break { fits, breaks };
            lemma_add_token(m, tok, break_length(fits), -m.right_total);
            lemma_token_off_pile(m, tok, break_length(fits), -m.right_total);
            let m1 = add_token(m, tok, break_length(fits), -m.right_total);
            lemma_scan_push(m1, true, id);
            lemma_enqueue(scan_push(m1, true, id), id);
            lemma_advance_left(enqueue(scan_push(m1, true, id), id));
        },
        _ => {},
    }
}

/// The same of a stream of operations.
pub proof fn law_run_keeps_invariant(m: Layout, ops: Seq<Op>)
    requires
        inv(m),
        balanced(m),
        admits_all(m, ops),
    ensures
        inv(run(m, ops)),
        balanced(run(m, ops)),
        run(m, ops).curr_depth >= 1,
    decreases ops.len(),
{
    if ops.len() > 0 {
        law_step_keeps_invariant(m, ops[0]);
        law_run_keeps_invariant(step(m, ops[0]), ops.drop_first());
    }
}

/// After a flush the printer is at rest: only the opening of the root box
/// is queued, it alone is on the scanning pile above the sentinel, no box
/// is being printed, the depth is one, the whole line is free and the
/// indentation is zero. The settings and the output are those the flush
/// ended with.
pub proof fn law_flush_comes_to_rest(m: Layout, end_with_newline: bool)
    requires
        inv(m),
    ensures
        at_rest(flush_queue(m, end_with_newline)),
        inv(flush_queue(m, end_with_newline)),
        balanced(flush_queue(m, end_with_newline)),
        flush_queue(m, end_with_newline).cursor.margin == m.cursor.margin,
        flush_queue(m, end_with_newline).cursor.max_indent == m.cursor.max_indent,
        flush_queue(m, end_with_newline).max_boxes == m.max_boxes,
        flush_queue(m, end_with_newline).min_space_left == m.min_space_left,
{
    let m1 = close_boxes(m, user_boxes(m));
    lemma_close_boxes(m, user_boxes(m));
    lemma_close_boxes_frame(m, user_boxes(m));
    let m2 = Layout { right_total: INFINITY as int, ..m1 };
    lemma_advance_left(m2);
    let m3 = drained(m);
    lemma_fresh(
        m3.cursor.margin,
        m3.min_space_left,
        m3.cursor.max_indent,
        m3.max_boxes,
        m3.cursor.is_new_line,
        output_newline(m3.cursor).out,
    );
    lemma_fresh(
        m3.cursor.margin,
        m3.min_space_left,
        m3.cursor.max_indent,
        m3.max_boxes,
        m3.cursor.is_new_line,
        m3.cursor.out,
    );
    lemma_fresh_at_rest(flush_queue(m, end_with_newline));
}

/// Closing boxes leaves the settings alone.
pub proof fn lemma_close_boxes_frame(m: Layout, n: nat)
    requires
        inv(m),
    ensures
        close_boxes(m, n).cursor.margin == m.cursor.margin,
        close_boxes(m, n).cursor.max_indent == m.cursor.max_indent,
        close_boxes(m, n).min_space_left == m.min_space_left,
        close_boxes(m, n).max_boxes == m.max_boxes,
    decreases n,
{
    if n > 0 {
        lemma_close_box(m);
        lemma_close_box_frame(m);
        lemma_close_boxes_frame(crate::model::close_box(m), (n - 1) as nat);
    }
}

/// Closing a box leaves the settings alone.
pub proof fn lemma_close_box_frame(m: Layout)
    requires
        inv(m),
    ensures
        crate::model::close_box(m).cursor.margin == m.cursor.margin,
        crate::model::close_box(m).cursor.max_indent == m.cursor.max_indent,
        crate::model::close_box(m).min_space_left == m.min_space_left,
{
    if m.curr_depth > 1 && m.curr_depth < m.max_boxes {
        let id = m.tokens.len() as int;
        crate::bounds::lemma_add_token(m, Tok::End, 0, 0);
        let m2 = crate::model::add_token(m, Tok::End, 0, 0);
        crate::bounds::lemma_set_size(m2, true);
        let m3 = crate::model::set_size(m2, true);
        crate::bounds::lemma_set_size(m3, false);
        let m4 = crate::model::set_size(m3, false);
        crate::bounds::lemma_token_off_pile(m, Tok::End, 0, 0);
        crate::bounds::lemma_set_size_keeps(m2, true, id);
        crate::bounds::lemma_set_size_keeps(m3, false, id);
        crate::bounds::lemma_enqueue(m4, id);
        lemma_advance_left(crate::model::enqueue(m4, id));
    }
}

/// A printer that has just started afresh is at rest.
pub proof fn lemma_fresh_at_rest(m: Layout)
    requires
        m == rinit(m),
    ensures
        at_rest(m),
{
}

/// A break hint rendered as a line break, with offset `t.n` under a box
/// of width `w`, starts a line indented by the lesser of the largest
/// indentation and `margin - w + t.n`, and leaves on it the margin less
/// that indentation and less the text after the break.
pub proof fn law_break_indent(c: Cursor, t: Triple, w: int)
    ensures
        break_new_line(c, t, w).current_indent == least(c.max_indent, c.margin - w + t.n),
        break_new_line(c, t, w).is_new_line == (t.post.len() == 0),
        break_new_line(c, t, w).space_left == format_string(
            Cursor { space_left: c.margin - break_indent(c, t.n, w), ..c },
            t.post,
        ).space_left,
        break_new_line(c, t, w).out == format_string(c, t.pre).out + newline() + blanks(
            break_indent(c, t.n, w),
        ) + format_string(Cursor { out: Seq::empty(), ..c }, t.post).out,
{
    let indent = break_indent(c, t.n, w);
    assert(break_new_line(c, t, w).out =~= format_string(c, t.pre).out + newline() + blanks(indent)
        + format_string(Cursor { out: Seq::empty(), ..c }, t.post).out);
}

/// Two flushes in a row leave the printer, and so its output, as one
/// flush does, where the largest indentation is not negative.
pub proof fn law_flush_twice(m: Layout)
    requires
        inv(m),
        m.cursor.max_indent >= 0,
    ensures
        print_flush(print_flush(m)) == print_flush(m),
{
    law_flush_comes_to_rest(m, false);
    let f = print_flush(m);
    let g = Layout { right_total: INFINITY as int, ..f };
    if head_ready(g) {
        let h = advance_one(g);
        assert(advance_left(h) == h);
    }
}

/// Whether the text a token can put out holds no line end. For a break
/// hint this is asked of the rendering that does not split the line.
pub open spec fn quiet(tok: Tok) -> bool {
    match tok {
        Tok::Text(s) => newlines(s) == 0,
        Tok::Break { fits, breaks } => newlines(fits.pre) == 0 && newlines(fits.post) == 0,
        Tok::Begin(off, kind) => true,
        Tok::End => true,
        Tok::Newline => false,
    }
}

/// A box whose content takes no more than the line has left is printed
/// as one that fits, unless it is vertical; any other box is printed with
/// the flavor it was asked for. So a box asked for as horizontal is
/// printed as horizontal or as one that fits, and a box asked for as
/// vertical is printed as vertical.
pub proof fn law_opened_kind(kind: PpBox, size: int, space_left: int)
    ensures
        opened_kind(kind, size, space_left) == if !(kind is Vbox) && size <= space_left {
            PpBox::Fits()
        } else {
            kind
        },
        kind is Hbox ==> opened_kind(kind, size, space_left) is Hbox || opened_kind(
            kind,
            size,
            space_left,
        ) is Fits,
        kind is Vbox ==> opened_kind(kind, size, space_left) is Vbox,
{
}

/// What each flavor makes of a break hint of resolved size `e.size`, with
/// a box of that flavor innermost: a horizontal box and one that fits
/// never split the line; a vertical box and a horizontal/vertical box that
/// did not fit always do; a compacting box does when the hint and what
/// follows it up to the next hint do not fit on the line any more; the box
/// with enhanced structure does so too, and also when the line break moves
/// the text back to the left of the current indentation, but not on a line
/// that has just been broken.
pub proof fn law_break_decision(c: Cursor, e: Entry)
    requires
        c.frames.len() > 0,
        e.tok is Break,
    ensures
        e.tok matches Tok::Break { fits, breaks } ==> {
            let f = c.frames.last();
            let overflows = e.size + text_width(fits.pre) > c.space_left;
            let splits = match f.kind {
                PpBox::Hbox() => false,
                PpBox::Fits() => false,
                PpBox::Vbox() => true,
                PpBox::Hvbox() => true,
                PpBox::Hovbox() => overflows,
                PpBox::Box() => !c.is_new_line && (overflows || c.current_indent > c.margin
                    - f.width + breaks.n),
            };
            format_pp_token(c, e) == if splits {
                break_new_line(c, breaks, f.width)
            } else {
                break_same_line(c, fits)
            }
        },
{
}

/// Directly inside a horizontal box no token ends the line, whatever the
/// widths: a break hint is rendered as the spacing of its first triple,
/// and printing a token that is no forced line end and carries no line
/// end of its own leaves the number of line ends in the output as it was.
pub proof fn law_hbox_suppresses_breaks(c: Cursor, e: Entry)
    requires
        c.frames.len() > 0,
        c.frames.last().kind is Hbox || c.frames.last().kind is Fits,
        quiet(e.tok),
    ensures
        newlines(format_pp_token(c, e).out) == newlines(c.out),
        e.tok matches Tok::Break { fits, breaks } ==> format_pp_token(c, e) == break_same_line(
            c,
            fits,
        ),
{
    match e.tok {
        Tok::Text(s) => {
            lemma_newlines_concat(c.out, s);
        },
        Tok::Break { fits, breaks } => {
            lemma_break_same_line_out(c, fits);
        },
        _ => {},
    }
}

/// Spacing on the current line adds the two texts of the triple and the
/// blanks between them, and no line end of its own.
pub proof fn lemma_break_same_line_out(c: Cursor, t: Triple)
    ensures
        break_same_line(c, t).out == c.out + t.pre + blanks(t.n) + t.post,
        newlines(break_same_line(c, t).out) == newlines(c.out) + newlines(t.pre) + newlines(
            t.post,
        ),
        break_same_line(c, t).frames == c.frames,
        break_same_line(c, t).margin == c.margin,
        break_same_line(c, t).max_indent == c.max_indent,
{
    lemma_newlines_concat(c.out, t.pre);
    lemma_newlines_concat(c.out + t.pre, blanks(t.n));
    lemma_newlines_blanks(t.n);
    lemma_newlines_concat(c.out + t.pre + blanks(t.n), t.post);
}

/// A line break adds the two texts of the triple, one line end between
/// them and the blanks of the indentation.
pub proof fn lemma_break_new_line_out(c: Cursor, t: Triple, w: int)
    ensures
        break_new_line(c, t, w).out == c.out + t.pre + newline() + blanks(break_indent(c, t.n, w))
            + t.post,
        newlines(break_new_line(c, t, w).out) == newlines(c.out) + newlines(t.pre) + 1 + newlines(
            t.post,
        ),
        break_new_line(c, t, w).frames == c.frames,
        break_new_line(c, t, w).margin == c.margin,
        break_new_line(c, t, w).max_indent == c.max_indent,
{
    let indent = break_indent(c, t.n, w);
    lemma_newlines_concat(c.out, t.pre);
    lemma_newlines_concat(c.out + t.pre, newline());
    lemma_newlines_newline();
    lemma_newlines_concat(c.out + t.pre + newline(), blanks(indent));
    lemma_newlines_blanks(indent);
    lemma_newlines_concat(c.out + t.pre + newline() + blanks(indent), t.post);
}

/// Directly inside a vertical box every break hint ends the line: it is
/// rendered as the line break of its second triple, which puts out the
/// text before, one line end, the indentation and the text after.
pub proof fn law_vbox_forces_breaks(c: Cursor, e: Entry)
    requires
        c.frames.len() > 0,
        c.frames.last().kind is Vbox,
        e.tok is Break,
    ensures
        e.tok matches Tok::Break { fits, breaks } ==> {
            &&& format_pp_token(c, e) == break_new_line(c, breaks, c.frames.last().width)
            &&& format_pp_token(c, e).out == c.out + breaks.pre + newline() + blanks(
                break_indent(c, breaks.n, c.frames.last().width),
            ) + breaks.post
            &&& newlines(format_pp_token(c, e).out) == newlines(c.out) + newlines(breaks.pre) + 1
                + newlines(breaks.post)
        },
{
    match e.tok {
        Tok::Break { fits, breaks } => {
            lemma_break_new_line_out(c, breaks, c.frames.last().width);
        },
        _ => {},
    }
}

/// The line is tame: the largest indentation is not negative, the line
/// has no more room than the margin gives, and no box that is being
/// printed is wider than the margin. A printer is tame when it starts with
/// a largest indentation that is not negative, and stays so for as long as
/// the margin is not made smaller.
pub open spec fn tame(c: Cursor) -> bool {
    &&& c.max_indent >= 0
    &&& c.space_left <= c.margin
    &&& forall|i: int| 0 <= i < c.frames.len() ==> (#[trigger] c.frames[i]).width <= c.margin
}

/// A line break leaves a tame line tame.
pub proof fn lemma_tame_break_new_line(c: Cursor, t: Triple, w: int)
    requires
        tame(c),
        w <= c.margin,
        0 <= t.n,
    ensures
        tame(break_new_line(c, t, w)),
{
    let indent = break_indent(c, t.n, w);
    crate::bounds::lemma_format_string(
        Cursor {
            is_new_line: true,
            current_indent: indent,
            space_left: c.margin - indent,
            ..crate::model::output_spaces(output_newline(format_string(c, t.pre)), indent)
        },
        t.post,
    );
    crate::bounds::lemma_format_string(c, t.pre);
}

/// Printing a token leaves a tame line tame.
pub proof fn lemma_tame_format_pp_token(c: Cursor, e: Entry)
    requires
        tame(c),
        crate::bounds::entry_ok(e),
        e.tok is Text ==> e.size >= 0,
    ensures
        tame(format_pp_token(c, e)),
{
    let none = Triple { pre: Seq::empty(), n: 0, post: Seq::empty() };
    match e.tok {
        Tok::Text(s) => {},
        Tok::Begin(off, kind) => {
            if c.frames.len() > 0 {
                lemma_tame_break_new_line(c, none, c.frames.last().width);
            }
        },
        Tok::End => {},
        Tok::Newline => {
            if c.frames.len() > 0 {
                let c1 = Cursor { frames: c.frames.drop_last(), ..c };
                lemma_tame_break_new_line(c1, none, c.frames.last().width);
            }
        },
        Tok::Break { fits, breaks } => {
            if c.frames.len() > 0 {
                lemma_tame_break_new_line(c, breaks, c.frames.last().width);
                lemma_break_same_line_out(c, fits);
                crate::bounds::lemma_format_string(c, fits.pre);
                crate::bounds::lemma_format_string(
                    Cursor {
                        space_left: format_string(c, fits.pre).space_left - fits.n,
                        ..crate::model::output_spaces(format_string(c, fits.pre), fits.n)
                    },
                    fits.post,
                );
            }
        },
    }
}

/// Printing as far as the queue goes leaves a tame line tame.
pub proof fn lemma_tame_advance_left(m: Layout)
    requires
        inv(m),
        tame(m.cursor),
    ensures
        tame(advance_left(m).cursor),
    decreases m.queue.len(),
{
    if head_ready(m) {
        crate::bounds::lemma_advance_one(m);
        lemma_tame_format_pp_token(m.cursor, advance_one(m).tokens[m.queue[0]]);
        lemma_tame_advance_left(advance_one(m));
    }
}

/// Every operation but a change of the margin leaves a tame line tame, and
/// a flush makes the line tame if the largest indentation is not negative.
pub proof fn law_step_keeps_tame(m: Layout, op: Op)
    requires
        inv(m),
        balanced(m),
        admits(m, op),
        !(op is Margin),
        tame(m.cursor) || ((op is Flush || op is Newline) && m.cursor.max_indent >= 0),
    ensures
        tame(step(m, op).cursor),
{
    lemma_queue_width_nonneg(m.tokens, m.queue);
    match op {
        Op::Open(indent, kind) => {
            let m1 = Layout { curr_depth: m.curr_depth + 1, ..m };
            if m1.curr_depth < m1.max_boxes {
                let id = m1.tokens.len() as int;
                let tok = Tok::Begin(indent, kind);
                lemma_add_token(m1, tok, 0, -m1.right_total);
                lemma_token_off_pile(m1, tok, 0, -m1.right_total);
                let m2 = add_token(m1, tok, 0, -m1.right_total);
                lemma_scan_push(m2, false, id);
                lemma_enqueue(scan_push(m2, false, id), id);
                lemma_tame_advance_left(enqueue(scan_push(m2, false, id), id));
            } else if m1.curr_depth == m1.max_boxes {
                let s = crate::model::ellipsis();
                lemma_add_token(m1, Tok::Text(s), 1, 1);
                lemma_enqueue(add_token(m1, Tok::Text(s), 1, 1), m1.tokens.len() as int);
                lemma_tame_advance_left(
                    enqueue(add_token(m1, Tok::Text(s), 1, 1), m1.tokens.len() as int),
                );
            }
        },
        Op::Close => {
            lemma_tame_close_box(m);
        },
        Op::Text(s, w) => {
            if m.curr_depth < m.max_boxes {
                lemma_add_token(m, Tok::Text(s), w, w);
                lemma_enqueue(add_token(m, Tok::Text(s), w, w), m.tokens.len() as int);
                lemma_tame_advance_left(
                    enqueue(add_token(m, Tok::Text(s), w, w), m.tokens.len() as int),
                );
            }
        },
        Op::Break(fits, breaks) => {
            if m.curr_depth < m.max_boxes {
                let id = m.tokens.len() as int;
                let tok = Tok::Break { fits, breaks };
                lemma_add_token(m, tok, break_length(fits), -m.right_total);
                lemma_token_off_pile(m, tok, break_length(fits), -m.right_total);
                let m1 = add_token(m, tok, break_length(fits), -m.right_total);
                lemma_scan_push(m1, true, id);
                lemma_set_size(m1, true);
                lemma_enqueue(scan_push(m1, true, id), id);
                lemma_tame_advance_left(enqueue(scan_push(m1, true, id), id));
            }
        },
        Op::Flush => {
            law_flush_comes_to_rest(m, false);
        },
        Op::Newline => {
            law_flush_comes_to_rest(m, true);
        },
        _ => {},
    }
}

/// Closing a box leaves a tame line tame.
pub proof fn lemma_tame_close_box(m: Layout)
    requires
        inv(m),
        tame(m.cursor),
    ensures
        tame(crate::model::close_box(m).cursor),
{
    if m.curr_depth > 1 && m.curr_depth < m.max_boxes {
        let id = m.tokens.len() as int;
        lemma_add_token(m, Tok::End, 0, 0);
        lemma_token_off_pile(m, Tok::End, 0, 0);
        let m2 = add_token(m, Tok::End, 0, 0);
        lemma_set_size(m2, true);
        lemma_set_size_keeps(m2, true, id);
        let m3 = set_size(m2, true);
        lemma_set_size(m3, false);
        lemma_set_size_keeps(m3, false, id);
        let m4 = set_size(m3, false);
        lemma_enqueue(m4, id);
        lemma_tame_advance_left(enqueue(m4, id));
    }
}

/// Closing boxes any number of times leaves a tame line tame, and the
/// enqueued total as it was.
pub proof fn lemma_tame_close_boxes(m: Layout, n: nat)
    requires
        inv(m),
        tame(m.cursor),
    ensures
        tame(close_boxes(m, n).cursor),
        close_boxes(m, n).right_total == m.right_total,
    decreases n,
{
    if n > 0 {
        lemma_close_box(m);
        lemma_tame_close_box(m);
        lemma_tame_close_boxes(crate::model::close_box(m), (n - 1) as nat);
    }
}

/// With the enqueued total at `INFINITY`, a tame line, and room for one
/// more line beyond what is queued, printing empties the queue.
pub proof fn lemma_tame_drains(m: Layout)
    requires
        inv(m),
        tame(m.cursor),
        m.right_total == INFINITY,
        m.left_total + queue_width(m.tokens, m.queue) + m.cursor.margin <= INFINITY,
    ensures
        advance_left(m).queue.len() == 0,
    decreases m.queue.len(),
{
    if m.queue.len() > 0 {
        crate::bounds::lemma_queue_width_first(m.tokens, m.queue);
        lemma_queue_width_nonneg(m.tokens, m.queue.drop_first());
        crate::bounds::lemma_advance_one(m);
        lemma_tame_format_pp_token(m.cursor, advance_one(m).tokens[m.queue[0]]);
        crate::bounds::lemma_queue_width_same(
            m.tokens,
            advance_one(m).tokens,
            m.queue.drop_first(),
        );
        crate::bounds::lemma_advance_one_frame(m);
        lemma_tame_drains(advance_one(m));
    }
}

/// A flush prints the whole queue: where the line is tame and the
/// enqueued total leaves room for one more line below `INFINITY`, nothing
/// is queued any more when the flush forgets the tokens.
pub proof fn law_flush_prints_the_whole_queue(m: Layout)
    requires
        inv(m),
        balanced(m),
        tame(m.cursor),
        m.right_total + m.cursor.margin <= INFINITY,
    ensures
        drained(m).queue.len() == 0,
{
    let m1 = close_boxes(m, user_boxes(m));
    lemma_close_boxes(m, user_boxes(m));
    lemma_close_boxes_frame(m, user_boxes(m));
    lemma_tame_close_boxes(m, user_boxes(m));
    let m2 = Layout { right_total: INFINITY as int, ..m1 };
    lemma_tame_drains(m2);
}

} // verus!

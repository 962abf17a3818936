//! Laws of whole streams of operations: what a horizontal box and what a
//! vertical box make of the break hints inside them, from the opening of
//! the box to the flush.

use vstd::prelude::*;
use crate::bounds::{
    balanced, inv, lemma_add_token, lemma_advance_left, lemma_advance_one,
    lemma_enqueue, lemma_queue_width_nonneg, lemma_scan_push, lemma_set_size,
    lemma_set_size_keeps, lemma_token_off_pile, queue_ok,
};
use crate::laws::{
    law_step_keeps_invariant, lemma_break_new_line_out, lemma_break_same_line_out,
    lemma_newlines_concat, lemma_tame_drains, lemma_tame_format_pp_token, newlines, tame,
};
use crate::model::{
    add_token, admits, admits_all, advance_left, advance_one, at_rest, break_length, close_box,
    enqueue, head_ready, print_flush, run, scan_push, set_size, step, Entry, Frame, Layout, Op,
};
use crate::token::{PpBox, Tok, INFINITY};

verus! {

/// The line ends that a token puts out inside a box that is vertical or
/// horizontal: those of its text, and for a break hint those of the triple
/// that the box picks, with the line end of the break itself if the box is
/// vertical.
pub open spec fn line_ends(tok: Tok, vertical: bool) -> nat {
    match tok {
        Tok::Text(s) => newlines(s),
        Tok::Break { fits, breaks } => if vertical {
            newlines(breaks.pre) + 1 + newlines(breaks.post)
        } else {
            newlines(fits.pre) + newlines(fits.post)
        },
        _ => 0,
    }
}

/// The line ends of the queued tokens.
pub open spec fn queued_line_ends(tokens: Seq<Entry>, queue: Seq<int>, vertical: bool) -> nat
    decreases queue.len(),
{
    if queue.len() == 0 {
        0
    } else {
        queued_line_ends(tokens, queue.drop_last(), vertical) + line_ends(
            tokens[queue.last()].tok,
            vertical,
        )
    }
}

/// The line ends of the text and break hints of a stream.
pub open spec fn stream_line_ends(ops: Seq<Op>, vertical: bool) -> nat
    decreases ops.len(),
{
    if ops.len() == 0 {
        0
    } else {
        stream_line_ends(ops.drop_first(), vertical) + match ops[0] {
            Op::Text(s, w) => line_ends(Tok::Text(s), vertical),
            Op::Break(fits, breaks) => line_ends(Tok::Break { fits, breaks }, vertical),
            _ => 0,
        }
    }
}

/// The number of break hints in a stream.
pub open spec fn hints(ops: Seq<Op>) -> nat
    decreases ops.len(),
{
    if ops.len() == 0 {
        0
    } else {
        hints(ops.drop_first()) + if ops[0] is Break {
            1nat
        } else {
            0nat
        }
    }
}

/// The stream holds text and break hints only.
pub open spec fn plain(ops: Seq<Op>) -> bool {
    forall|i: int| 0 <= i < ops.len() ==> (#[trigger] ops[i]) is Text || ops[i] is Break
}

/// No text of the stream, and no text of a break hint, holds a line end.
pub open spec fn silent(ops: Seq<Op>) -> bool {
    forall|i: int|
        0 <= i < ops.len() ==> match #[trigger] ops[i] {
            Op::Text(s, w) => newlines(s) == 0,
            Op::Break(fits, breaks) => newlines(fits.pre) == 0 && newlines(fits.post) == 0
                && newlines(breaks.pre) == 0 && newlines(breaks.post) == 0,
            _ => true,
        }
}

/// The token at a place of the queue.
pub open spec fn queued(m: Layout, i: int) -> Tok {
    m.tokens[m.queue[i]].tok
}

/// The frame of a box of the given direction.
pub open spec fn framed(f: Frame, vertical: bool) -> bool {
    if vertical {
        f.kind is Vbox
    } else {
        f.kind is Hbox || f.kind is Fits
    }
}

/// The flavor asked for, for a box of the given direction.
pub open spec fn asked(vertical: bool) -> PpBox {
    if vertical {
        PpBox::Vbox()
    } else {
        PpBox::Hbox()
    }
}

/// The state of a printer that was at rest and has since been given one
/// box of the given direction and, inside it, text and break hints; with
/// `closed`, also the closing of the box. Of the two box openings, those
/// not printed yet stand at the head of the queue, and nothing has moved
/// the cursor before they are printed. `low` line ends were in the output
/// at rest; `total` is what the output has and the queue still holds.
pub open spec fn in_box(m: Layout, vertical: bool, closed: bool, low: int, total: int) -> bool {
    let c = m.cursor;
    let b = 2 - c.frames.len();
    let e: int = if closed {
        1
    } else {
        0
    };
    let n = m.queue.len() as int;
    &&& tame(c)
    &&& c.frames.len() <= 2
    &&& c.frames.len() < 2 && n > 0 ==> c.space_left == c.margin
    &&& c.frames.len() == 2 ==> framed(c.frames[1], vertical)
    &&& low <= newlines(c.out)
    &&& newlines(c.out) + queued_line_ends(m.tokens, m.queue, vertical) == total
    &&& if closed && n == 0 {
        c.frames.len() == 1
    } else {
        &&& n >= b + e
        &&& forall|i: int| 0 <= i < b ==> #[trigger] queued(m, i) is Begin
        &&& b >= 1 ==> (queued(m, b - 1) matches Tok::Begin(off, kind) && kind == asked(vertical))
        &&& forall|i: int| b <= i < n - e ==> #[trigger] queued(m, i) is Text || queued(m, i) is Break
        &&& closed ==> queued(m, n - 1) is End
    }
}

// ---------------------------------------------------------------------
// The line ends of the queue
// ---------------------------------------------------------------------

/// The line ends of the queue depend only on the kinds and texts of
/// the tokens it names.
pub proof fn lemma_queued_line_ends_same(t1: Seq<Entry>, t2: Seq<Entry>, q: Seq<int>, v: bool)
    requires
        forall|i: int|
            0 <= i < q.len() ==> 0 <= #[trigger] q[i] < t1.len() && q[i] < t2.len() && t1[q[i]].tok
                == t2[q[i]].tok,
    ensures
        queued_line_ends(t1, q, v) == queued_line_ends(t2, q, v),
    decreases q.len(),
{
    if q.len() > 0 {
        lemma_queued_line_ends_same(t1, t2, q.drop_last(), v);
    }
}

/// A token that joins the queue adds its line ends.
pub proof fn lemma_queued_line_ends_push(t: Seq<Entry>, q: Seq<int>, id: int, v: bool)
    ensures
        queued_line_ends(t, q.push(id), v) == queued_line_ends(t, q, v) + line_ends(t[id].tok, v),
{
    assert(q.push(id).drop_last() =~= q);
}

/// The line ends of the queue are those of its head and those of the
/// rest.
pub proof fn lemma_queued_line_ends_first(t: Seq<Entry>, q: Seq<int>, v: bool)
    requires
        q.len() > 0,
    ensures
        queued_line_ends(t, q, v) == line_ends(t[q[0]].tok, v) + queued_line_ends(
            t,
            q.drop_first(),
            v,
        ),
    decreases q.len(),
{
    if q.len() == 1 {
        assert(q.drop_last() =~= Seq::<int>::empty());
        assert(q.drop_first() =~= Seq::<int>::empty());
        assert(queued_line_ends(t, q.drop_last(), v) == 0);
    } else {
        lemma_queued_line_ends_first(t, q.drop_last(), v);
        assert(q.drop_last().drop_first() =~= q.drop_first().drop_last());
    }
}

/// A stream without line ends of its own has one line end for each break
/// hint in a vertical box, and none in a horizontal box.
pub proof fn lemma_silent_line_ends(ops: Seq<Op>, vertical: bool)
    requires
        silent(ops),
    ensures
        stream_line_ends(ops, vertical) == if vertical {
            hints(ops)
        } else {
            0
        },
    decreases ops.len(),
{
    if ops.len() > 0 {
        assert(silent(ops.drop_first())) by {
            assert forall|i: int| 0 <= i < ops.drop_first().len() implies match #[trigger] ops.drop_first()[i] {
                Op::Text(s, w) => newlines(s) == 0,
                Op::Break(fits, breaks) => newlines(fits.pre) == 0 && newlines(fits.post) == 0
                    && newlines(breaks.pre) == 0 && newlines(breaks.post) == 0,
                _ => true,
            } by {}
        }
        lemma_silent_line_ends(ops.drop_first(), vertical);
    }
}

// ---------------------------------------------------------------------
// What the steps of the engine make of a state inside a box
// ---------------------------------------------------------------------

/// A change that leaves the queue, the cursor and the kinds of the queued
/// tokens alone leaves the state inside its box.
pub proof fn lemma_in_box_same(m1: Layout, m2: Layout, v: bool, closed: bool, low: int, total: int)
    requires
        in_box(m1, v, closed, low, total),
        queue_ok(m1),
        m2.queue == m1.queue,
        m2.cursor == m1.cursor,
        m2.tokens.len() >= m1.tokens.len(),
        forall|id: int| 0 <= id < m1.tokens.len() ==> (#[trigger] m2.tokens[id]).tok == m1.tokens[id].tok,
    ensures
        in_box(m2, v, closed, low, total),
{
    lemma_queued_line_ends_same(m1.tokens, m2.tokens, m1.queue, v);
    assert forall|i: int| 0 <= i < m1.queue.len() implies queued(m2, i) == queued(m1, i) by {}
}

/// `set_size` touches neither the queue nor the cursor, nor the kind of a
/// stored token.
pub proof fn lemma_set_size_leaves(m: Layout, ty: bool)
    requires
        inv(m),
    ensures
        set_size(m, ty).queue == m.queue,
        set_size(m, ty).cursor == m.cursor,
        set_size(m, ty).curr_depth == m.curr_depth,
        set_size(m, ty).max_boxes == m.max_boxes,
        set_size(m, ty).right_total == m.right_total,
        set_size(m, ty).left_total == m.left_total,
        set_size(m, ty).tokens.len() >= m.tokens.len(),
        forall|id: int|
            0 <= id < m.tokens.len() ==> (#[trigger] set_size(m, ty).tokens[id]).tok
                == m.tokens[id].tok,
{
}

/// Text or a break hint that joins the queue of an open box adds its
/// line ends to what the queue holds.
pub proof fn lemma_in_box_enqueue(m: Layout, id: int, v: bool, low: int, total: int)
    requires
        in_box(m, v, false, low, total),
        0 <= id < m.tokens.len(),
        m.tokens[id].tok is Text || m.tokens[id].tok is Break,
    ensures
        in_box(enqueue(m, id), v, false, low, total + line_ends(m.tokens[id].tok, v)),
{
    let m1 = enqueue(m, id);
    lemma_queued_line_ends_push(m.tokens, m.queue, id, v);
    assert forall|i: int| 0 <= i < m.queue.len() implies queued(m1, i) == queued(m, i) by {}
}

/// The closing of the box joins the queue.
pub proof fn lemma_in_box_enqueue_end(m: Layout, id: int, v: bool, low: int, total: int)
    requires
        in_box(m, v, false, low, total),
        0 <= id < m.tokens.len(),
        m.tokens[id].tok is End,
    ensures
        in_box(enqueue(m, id), v, true, low, total),
{
    let m1 = enqueue(m, id);
    lemma_queued_line_ends_push(m.tokens, m.queue, id, v);
    assert forall|i: int| 0 <= i < m.queue.len() implies queued(m1, i) == queued(m, i) by {}
}

/// Printing the head of the queue keeps the state inside its box: a box
/// opening finds the cursor where the line starts and forces no line end,
/// and a break hint is rendered as the direction of the box has it.
pub proof fn lemma_in_box_advance_one(m: Layout, v: bool, closed: bool, low: int, total: int)
    requires
        inv(m),
        in_box(m, v, closed, low, total),
        m.queue.len() > 0,
    ensures
        in_box(advance_one(m), v, closed, low, total),
{
    let m1 = advance_one(m);
    let c = m.cursor;
    let e1 = m1.tokens[m.queue[0]];
    lemma_advance_one(m);
    lemma_tame_format_pp_token(c, e1);
    lemma_queued_line_ends_first(m.tokens, m.queue, v);
    lemma_queued_line_ends_same(m.tokens, m1.tokens, m.queue.drop_first(), v);
    assert forall|i: int| 0 <= i < m1.queue.len() implies queued(m1, i) == queued(m, i + 1) by {}
    if c.frames.len() == 2 && !(closed && m.queue.len() == 1) {
        // The head is text or a break hint, and the box of the stream is
        // the innermost.
        assert(queued(m, 0) is Text || queued(m, 0) is Break);
        match e1.tok {
            Tok::Text(s) => {
                lemma_newlines_concat(c.out, s);
            },
            Tok::Break { fits, breaks } => {
                lemma_break_same_line_out(c, fits);
                lemma_break_new_line_out(c, breaks, c.frames.last().width);
            },
            _ => {},
        }
    }
}

/// Printing as far as the queue goes keeps the state inside its box.
pub proof fn lemma_in_box_advance_left(m: Layout, v: bool, closed: bool, low: int, total: int)
    requires
        inv(m),
        in_box(m, v, closed, low, total),
    ensures
        in_box(advance_left(m), v, closed, low, total),
    decreases m.queue.len(),
{
    if head_ready(m) {
        lemma_advance_one(m);
        lemma_in_box_advance_one(m, v, closed, low, total);
        lemma_in_box_advance_left(advance_one(m), v, closed, low, total);
    }
}

// ---------------------------------------------------------------------
// The operations of the stream
// ---------------------------------------------------------------------

/// Opening a box on a printer at rest puts the printer inside that box.
pub proof fn lemma_open_at_rest(m: Layout, indent: int, v: bool)
    requires
        inv(m),
        balanced(m),
        at_rest(m),
        m.cursor.max_indent >= 0,
        m.max_boxes > 2,
        admits(m, Op::Open(indent, asked(v))),
    ensures
        in_box(
            step(m, Op::Open(indent, asked(v))),
            v,
            false,
            newlines(m.cursor.out) as int,
            newlines(m.cursor.out) as int,
        ),
        step(m, Op::Open(indent, asked(v))).curr_depth == 2,
        step(m, Op::Open(indent, asked(v))).max_boxes == m.max_boxes,
        step(m, Op::Open(indent, asked(v))).cursor.margin == m.cursor.margin,
{
    let kind = asked(v);
    let low = newlines(m.cursor.out) as int;
    let m1 = Layout { curr_depth: m.curr_depth + 1, ..m };
    let id = m1.tokens.len() as int;
    let m2 = add_token(m1, Tok::Begin(indent, kind), 0, -m1.right_total);
    let m3 = scan_push(m2, false, id);
    let m4 = enqueue(m3, id);
    lemma_add_token(m1, Tok::Begin(indent, kind), 0, -m1.right_total);
    lemma_token_off_pile(m1, Tok::Begin(indent, kind), 0, -m1.right_total);
    lemma_scan_push(m2, false, id);
    lemma_enqueue(m3, id);
    assert(queued_line_ends(m4.tokens, m4.queue, v) == 0) by {
        lemma_queued_line_ends_first(m4.tokens, m4.queue, v);
        lemma_queued_line_ends_first(m4.tokens, m4.queue.drop_first(), v);
    }
    lemma_in_box_advance_left(m4, v, false, low, low);
    lemma_advance_left(m4);
}

/// Text and break hints inside the box keep the printer inside it, and
/// add their line ends to the account.
pub proof fn lemma_body(m: Layout, body: Seq<Op>, v: bool, low: int, total: int)
    requires
        inv(m),
        balanced(m),
        in_box(m, v, false, low, total),
        m.curr_depth == 2,
        m.max_boxes > 2,
        plain(body),
        admits_all(m, body),
    ensures
        inv(run(m, body)),
        balanced(run(m, body)),
        in_box(run(m, body), v, false, low, total + stream_line_ends(body, v)),
        run(m, body).curr_depth == 2,
        run(m, body).max_boxes == m.max_boxes,
        run(m, body).cursor.margin == m.cursor.margin,
    decreases body.len(),
{
    if body.len() > 0 {
        let op = body[0];
        let m5 = step(m, op);
        law_step_keeps_invariant(m, op);
        lemma_queue_width_nonneg(m.tokens, m.queue);
        let gain = match op {
            Op::Text(s, w) => line_ends(Tok::Text(s), v),
            Op::Break(fits, breaks) => line_ends(Tok::Break { fits, breaks }, v),
            _ => 0,
        };
        match op {
            Op::Text(s, w) => {
                let id = m.tokens.len() as int;
                let m1 = add_token(m, Tok::Text(s), w, w);
                lemma_add_token(m, Tok::Text(s), w, w);
                lemma_in_box_same(m, m1, v, false, low, total);
                lemma_in_box_enqueue(m1, id, v, low, total);
                lemma_enqueue(m1, id);
                lemma_in_box_advance_left(enqueue(m1, id), v, false, low, total + gain);
                lemma_advance_left(enqueue(m1, id));
            },
            Op::Break(fits, breaks) => {
                let id = m.tokens.len() as int;
                let tok = Tok::Break { fits, breaks };
                let m1 = add_token(m, tok, break_length(fits), -m.right_total);
                lemma_add_token(m, tok, break_length(fits), -m.right_total);
                lemma_token_off_pile(m, tok, break_length(fits), -m.right_total);
                lemma_in_box_same(m, m1, v, false, low, total);
                let m2 = set_size(m1, true);
                lemma_set_size(m1, true);
                lemma_set_size_leaves(m1, true);
                lemma_set_size_keeps(m1, true, id);
                lemma_in_box_same(m1, m2, v, false, low, total);
                let m3 = scan_push(m1, true, id);
                lemma_scan_push(m1, true, id);
                lemma_in_box_same(m2, m3, v, false, low, total);
                lemma_in_box_enqueue(m3, id, v, low, total);
                lemma_enqueue(m3, id);
                lemma_in_box_advance_left(enqueue(m3, id), v, false, low, total + gain);
                lemma_advance_left(enqueue(m3, id));
            },
            _ => {},
        }
        assert(plain(body.drop_first()));
        lemma_body(m5, body.drop_first(), v, low, total + gain);
    }
}

/// Closing the box leaves the printer with the closing queued or printed.
pub proof fn lemma_close(m: Layout, v: bool, low: int, total: int)
    requires
        inv(m),
        balanced(m),
        in_box(m, v, false, low, total),
        m.curr_depth == 2,
        m.max_boxes > 2,
    ensures
        inv(close_box(m)),
        balanced(close_box(m)),
        in_box(close_box(m), v, true, low, total),
        close_box(m).curr_depth == 1,
        close_box(m).cursor.margin == m.cursor.margin,
{
    let id = m.tokens.len() as int;
    let m2 = add_token(m, Tok::End, 0, 0);
    lemma_add_token(m, Tok::End, 0, 0);
    lemma_token_off_pile(m, Tok::End, 0, 0);
    lemma_in_box_same(m, m2, v, false, low, total);
    let m3 = set_size(m2, true);
    lemma_set_size(m2, true);
    lemma_set_size_leaves(m2, true);
    lemma_set_size_keeps(m2, true, id);
    lemma_in_box_same(m2, m3, v, false, low, total);
    let m4 = set_size(m3, false);
    lemma_set_size(m3, false);
    lemma_set_size_leaves(m3, false);
    lemma_set_size_keeps(m3, false, id);
    lemma_in_box_same(m3, m4, v, false, low, total);
    lemma_in_box_enqueue_end(m4, id, v, low, total);
    lemma_enqueue(m4, id);
    let m5 = enqueue(m4, id);
    lemma_in_box_advance_left(m5, v, true, low, total);
    lemma_advance_left(m5);
    crate::bounds::lemma_close_box(m);
    let m6 = advance_left(m5);
    assert(in_box(close_box(m), v, true, low, total)) by {
        let m7 = close_box(m);
        assert forall|i: int| 0 <= i < m7.queue.len() implies queued(m7, i) == queued(m6, i) by {}
    }
}

/// The stream that opens a box on a printer at rest, prints text and
/// break hints inside it, closes it and flushes.
pub open spec fn boxed(indent: int, vertical: bool, body: Seq<Op>) -> Seq<Op> {
    seq![Op::Open(indent, asked(vertical))] + body + seq![Op::Close, Op::Flush]
}

/// Running two streams in a row is running the one, then the other.
pub proof fn lemma_run_concat(m: Layout, a: Seq<Op>, b: Seq<Op>)
    ensures
        run(m, a + b) == run(run(m, a), b),
        admits_all(m, a + b) == (admits_all(m, a) && admits_all(run(m, a), b)),
    decreases a.len(),
{
    if a.len() > 0 {
        assert((a + b).drop_first() =~= a.drop_first() + b);
        lemma_run_concat(step(m, a[0]), a.drop_first(), b);
    }
}

/// The state that the flush at the end of a boxed stream finds.
pub proof fn lemma_before_flush(m: Layout, indent: int, v: bool, body: Seq<Op>)
    requires
        inv(m),
        balanced(m),
        at_rest(m),
        m.cursor.max_indent >= 0,
        m.max_boxes > 2,
        plain(body),
        admits_all(m, boxed(indent, v, body)),
    ensures
        inv(before_flush(m, indent, v, body)),
        balanced(before_flush(m, indent, v, body)),
        in_box(
            before_flush(m, indent, v, body),
            v,
            true,
            newlines(m.cursor.out) as int,
            (newlines(m.cursor.out) + stream_line_ends(body, v)) as int,
        ),
        before_flush(m, indent, v, body).curr_depth == 1,
        before_flush(m, indent, v, body).cursor.margin == m.cursor.margin,
        run(m, boxed(indent, v, body)) == print_flush(before_flush(m, indent, v, body)),
{
    let open = Op::Open(indent, asked(v));
    let low = newlines(m.cursor.out) as int;
    let head = seq![open];
    let tail = seq![Op::Close, Op::Flush];
    lemma_run_concat(m, head + body, tail);
    lemma_run_concat(m, head, body);
    assert(run(m, head) == step(m, open)) by {
        assert(run(step(m, open), head.drop_first()) == step(m, open));
    }
    assert(admits_all(m, head) == admits(m, open));
    let m1 = step(m, open);
    law_step_keeps_invariant(m, open);
    lemma_open_at_rest(m, indent, v);
    lemma_body(m1, body, v, low, low);
    let m2 = run(m1, body);
    lemma_close(m2, v, low, low + stream_line_ends(body, v));
    let m3 = close_box(m2);
    assert(run(m2, tail) == print_flush(m3)) by {
        assert(run(m3, tail.drop_first()) == run(
            step(m3, Op::Flush),
            tail.drop_first().drop_first(),
        ));
    }
}

/// The state after the box of a boxed stream has been closed.
pub open spec fn before_flush(m: Layout, indent: int, vertical: bool, body: Seq<Op>) -> Layout {
    close_box(run(step(m, Op::Open(indent, asked(vertical))), body))
}

/// A horizontal box suppresses breaks. On a printer at rest whose largest
/// indentation is not negative and whose depth limit lets a box open: a
/// horizontal box is opened, text and break hints that hold no line end
/// are printed in it, whatever their widths, the box is closed and the
/// printer flushed. The output then has the line ends it had at rest, and
/// no other.
pub proof fn law_hbox_stream_has_no_line_end(m: Layout, indent: int, body: Seq<Op>)
    requires
        inv(m),
        balanced(m),
        at_rest(m),
        m.cursor.max_indent >= 0,
        m.max_boxes > 2,
        plain(body),
        silent(body),
        admits_all(m, boxed(indent, false, body)),
    ensures
        newlines(run(m, boxed(indent, false, body)).cursor.out) == newlines(m.cursor.out),
{
    let low = newlines(m.cursor.out) as int;
    lemma_before_flush(m, indent, false, body);
    lemma_silent_line_ends(body, false);
    let m3 = before_flush(m, indent, false, body);
    let m4 = Layout { right_total: INFINITY as int, ..m3 };
    lemma_in_box_same(m3, m4, false, true, low, low);
    lemma_in_box_advance_left(m4, false, true, low, low);
}

/// A vertical box forces breaks. On a printer at rest whose largest
/// indentation is not negative, whose margin is below `INFINITY` and whose
/// depth limit lets a box open: a vertical box is opened, text and break
/// hints are printed in it, the box is closed and the printer flushed,
/// with room left for one more line when the flush comes. The output then
/// has gained the line ends of the texts and, for every break hint, those
/// of its second triple and one more.
pub proof fn law_vbox_stream_breaks_at_every_hint(m: Layout, indent: int, body: Seq<Op>)
    requires
        inv(m),
        balanced(m),
        at_rest(m),
        m.cursor.max_indent >= 0,
        m.max_boxes > 2,
        plain(body),
        admits_all(m, boxed(indent, true, body)),
        before_flush(m, indent, true, body).right_total + m.cursor.margin <= INFINITY,
    ensures
        newlines(run(m, boxed(indent, true, body)).cursor.out) == newlines(m.cursor.out)
            + stream_line_ends(body, true),
        silent(body) ==> newlines(run(m, boxed(indent, true, body)).cursor.out) == newlines(
            m.cursor.out,
        ) + hints(body),
{
    let low = newlines(m.cursor.out) as int;
    let total = low + stream_line_ends(body, true);
    lemma_before_flush(m, indent, true, body);
    if silent(body) {
        lemma_silent_line_ends(body, true);
    }
    let m3 = before_flush(m, indent, true, body);
    let m4 = Layout { right_total: INFINITY as int, ..m3 };
    lemma_in_box_same(m3, m4, true, true, low, total);
    lemma_in_box_advance_left(m4, true, true, low, total);
    lemma_tame_drains(m4);
}

/// The margin is no matter to a horizontal or a vertical box: two printers
/// at rest with the same output, whatever their margins, put out the same
/// number of line ends for the same stream of one such box with text and
/// break hints that hold no line end.
pub proof fn law_one_box_breaks_alike_at_any_margin(
    a: Layout,
    b: Layout,
    indent: int,
    vertical: bool,
    body: Seq<Op>,
)
    requires
        inv(a) && balanced(a) && at_rest(a) && a.cursor.max_indent >= 0 && a.max_boxes > 2,
        inv(b) && balanced(b) && at_rest(b) && b.cursor.max_indent >= 0 && b.max_boxes > 2,
        a.cursor.out == b.cursor.out,
        plain(body),
        silent(body),
        admits_all(a, boxed(indent, vertical, body)),
        admits_all(b, boxed(indent, vertical, body)),
        vertical ==> before_flush(a, indent, true, body).right_total + a.cursor.margin <= INFINITY,
        vertical ==> before_flush(b, indent, true, body).right_total + b.cursor.margin <= INFINITY,
    ensures
        newlines(run(a, boxed(indent, vertical, body)).cursor.out) == newlines(
            run(b, boxed(indent, vertical, body)).cursor.out,
        ),
{
    if vertical {
        law_vbox_stream_breaks_at_every_hint(a, indent, body);
        law_vbox_stream_breaks_at_every_hint(b, indent, body);
    } else {
        law_hbox_stream_has_no_line_end(a, indent, body);
        law_hbox_stream_has_no_line_end(b, indent, body);
    }
}

} // verus!

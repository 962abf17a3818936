//! What holds of every state a printer can reach, and the proofs that the
//! transitions of the model keep it.

use vstd::prelude::*;
use crate::token::{text_width, Tok, INFINITY};
use crate::model::{
    add_token, advance_left, advance_one, break_length, break_new_line, break_same_line,
    close_box, enqueue, enqueue_advance, enqueue_string_as, force_break_line, format_pp_token,
    format_string, head_ready, initialise_scan_stack, open_box_gen, queue_width, scan_push,
    set_size, Cursor, Entry, Layout,
};

verus! {

/// A bound on the columns the cursor can be away from the left edge, in
/// either direction, before any text is counted.
pub open spec fn reach() -> int {
    0x2_0000_0000
}

/// The numbers of a stored token are within the limits of the engine.
pub open spec fn entry_ok(e: Entry) -> bool {
    &&& 0 <= e.length <= INFINITY
    &&& -INFINITY <= e.size <= 2 * INFINITY
    &&& match e.tok {
        Tok::Text(s) => true,
        Tok::Break { fits, breaks } => {
            &&& 0 <= fits.n
            &&& e.length == break_length(fits)
            &&& 0 <= breaks.n <= i32::MAX
            &&& text_width(breaks.pre) <= INFINITY
            &&& text_width(breaks.post) <= INFINITY
        },
        Tok::Begin(off, kind) => 0 <= off <= i32::MAX && e.length == 0,
        Tok::End => e.length == 0,
        Tok::Newline => e.length == 0,
    }
}

/// Every stored token is within the limits.
pub open spec fn tokens_ok(tokens: Seq<Entry>) -> bool {
    forall|i: int| 0 <= i < tokens.len() ==> entry_ok(#[trigger] tokens[i])
}

/// The queue names stored tokens, and a queued text has its width for size.
pub open spec fn queue_ok(m: Layout) -> bool {
    forall|i: int|
        0 <= i < m.queue.len() ==> {
            &&& 0 <= #[trigger] m.queue[i] < m.tokens.len()
            &&& m.tokens[m.queue[i]].tok is Text ==> m.tokens[m.queue[i]].size
                == m.tokens[m.queue[i]].length
        }
}

/// The scanning pile: a sentinel at the bottom that no total reaches, above
/// it elements in the order of the totals they recorded, each naming a
/// stored token of its own whose size can still take one more total.
pub open spec fn scan_ok(m: Layout) -> bool {
    &&& m.scan.len() >= 1
    &&& m.scan[0].left_total == -1
    &&& forall|i: int| 1 <= i < m.scan.len() ==> 1 <= (#[trigger] m.scan[i]).left_total
    &&& forall|i: int, j: int|
        0 <= i <= j < m.scan.len() ==> (#[trigger] m.scan[i]).left_total <= (
        #[trigger] m.scan[j]).left_total
    &&& forall|i: int|
        0 <= i < m.scan.len() ==> {
            &&& (#[trigger] m.scan[i]).left_total <= m.right_total
            &&& 0 <= m.scan[i].token < m.tokens.len()
            &&& m.tokens[m.scan[i].token].size <= INFINITY
        }
    &&& forall|i: int, j: int|
        0 <= i < j < m.scan.len() ==> (#[trigger] m.scan[i]).token != (#[trigger] m.scan[j]).token
}

/// The cursor stays within reach of the left edge. `left_total` is the
/// width printed so far: the line can be overrun by no more than that.
pub open spec fn cursor_ok(c: Cursor, left_total: int) -> bool {
    &&& 0 <= c.margin <= INFINITY
    &&& i32::MIN <= c.max_indent <= i32::MAX
    &&& -reach() - left_total <= c.space_left <= reach()
    &&& -reach() <= c.current_indent <= i32::MAX
    &&& forall|i: int|
        0 <= i < c.frames.len() ==> -2 * reach() <= (#[trigger] c.frames[i]).width <= reach()
}

/// The width that went into the queue and has not been printed is no more
/// than the difference of the two totals.
pub open spec fn totals_ok(m: Layout) -> bool {
    &&& 1 <= m.left_total <= m.right_total <= INFINITY
    &&& m.left_total + queue_width(m.tokens, m.queue) <= m.right_total
}

/// What holds of a printer at every step, also in the middle of a flush.
pub open spec fn inv(m: Layout) -> bool {
    &&& totals_ok(m)
    &&& m.curr_depth >= 1
    &&& m.max_boxes > 1
    &&& tokens_ok(m.tokens)
    &&& queue_ok(m)
    &&& scan_ok(m)
    &&& cursor_ok(m.cursor, m.left_total)
}

/// The difference of the two totals is exactly the width of the queue.
pub open spec fn balanced(m: Layout) -> bool {
    m.right_total - m.left_total == queue_width(m.tokens, m.queue)
}

// ---------------------------------------------------------------------
// The width of the queue
// ---------------------------------------------------------------------

/// The width of the queue depends only on the lengths of the tokens it
/// names.
pub proof fn lemma_queue_width_same(t1: Seq<Entry>, t2: Seq<Entry>, q: Seq<int>)
    requires
        forall|i: int|
            0 <= i < q.len() ==> 0 <= #[trigger] q[i] < t1.len() && q[i] < t2.len() && t1[q[i]].length
                == t2[q[i]].length,
    ensures
        queue_width(t1, q) == queue_width(t2, q),
    decreases q.len(),
{
    if q.len() > 0 {
        lemma_queue_width_same(t1, t2, q.drop_last());
    }
}

/// A token that joins the queue adds its length to the width.
pub proof fn lemma_queue_width_push(t: Seq<Entry>, q: Seq<int>, id: int)
    ensures
        queue_width(t, q.push(id)) == queue_width(t, q) + t[id].length,
{
    assert(q.push(id).drop_last() =~= q);
}

/// The width of the queue is the length of its head and the width of
/// the rest.
pub proof fn lemma_queue_width_first(t: Seq<Entry>, q: Seq<int>)
    requires
        q.len() > 0,
    ensures
        queue_width(t, q) == t[q[0]].length + queue_width(t, q.drop_first()),
    decreases q.len(),
{
    if q.len() == 1 {
        assert(q.drop_last() =~= Seq::<int>::empty());
        assert(q.drop_first() =~= Seq::<int>::empty());
        assert(queue_width(t, q.drop_last()) == 0);
    } else {
        lemma_queue_width_first(t, q.drop_last());
        assert(q.drop_last().drop_first() =~= q.drop_first().drop_last());
    }
}

/// The width of the first `i` queued tokens is that of the first `i - 1`
/// and the length of the next, and no more than the width of the queue.
pub proof fn lemma_queue_width_prefix(t: Seq<Entry>, q: Seq<int>, i: int)
    requires
        tokens_ok(t),
        forall|k: int| 0 <= k < q.len() ==> 0 <= #[trigger] q[k] < t.len(),
        0 <= i <= q.len(),
    ensures
        0 <= queue_width(t, q.take(i)) <= queue_width(t, q),
        i > 0 ==> queue_width(t, q.take(i)) == queue_width(t, q.take(i - 1)) + t[q[i - 1]].length,
    decreases q.len() - i,
{
    if i > 0 {
        assert(q.take(i).drop_last() =~= q.take(i - 1));
    }
    lemma_queue_width_nonneg(t, q.take(i));
    if i < q.len() {
        lemma_queue_width_prefix(t, q, i + 1);
    }
}

/// The width of the queue is not negative.
pub proof fn lemma_queue_width_nonneg(t: Seq<Entry>, q: Seq<int>)
    requires
        tokens_ok(t),
        forall|i: int| 0 <= i < q.len() ==> 0 <= #[trigger] q[i] < t.len(),
    ensures
        0 <= queue_width(t, q),
    decreases q.len(),
{
    if q.len() > 0 {
        lemma_queue_width_nonneg(t, q.drop_last());
    }
}

// ---------------------------------------------------------------------
// The transitions keep the invariant
// ---------------------------------------------------------------------

/// Storing a token that is within the limits keeps the invariant.
pub proof fn lemma_add_token(m: Layout, tok: Tok, length: int, size: int)
    requires
        inv(m),
        entry_ok(Entry { tok, length, size }),
    ensures
        inv(add_token(m, tok, length, size)),
        balanced(m) ==> balanced(add_token(m, tok, length, size)),
{
    let m1 = add_token(m, tok, length, size);
    lemma_queue_width_same(m.tokens, m1.tokens, m.queue);
}

/// Reducing the scanning pile to its sentinel keeps the invariant.
pub proof fn lemma_initialise_scan_stack(m: Layout)
    requires
        inv(m),
    ensures
        inv(initialise_scan_stack(m)),
        balanced(m) ==> balanced(initialise_scan_stack(m)),
{
    lemma_add_token(m, Tok::Text(Seq::empty()), 0, -1);
}

/// Resolving the top of the scanning pile keeps the invariant, and leaves
/// the queue and the enqueued total alone.
pub proof fn lemma_set_size(m: Layout, ty: bool)
    requires
        inv(m),
    ensures
        inv(set_size(m, ty)),
        balanced(m) ==> balanced(set_size(m, ty)),
        set_size(m, ty).tokens.len() >= m.tokens.len(),
        set_size(m, ty).queue == m.queue,
        set_size(m, ty).right_total == m.right_total,
{
    let m1 = set_size(m, ty);
    let top = m.scan.last();
    if top.left_total < m.left_total {
        lemma_initialise_scan_stack(m);
    } else if crate::model::resolves(m.tokens[top.token].tok, ty) {
        lemma_queue_width_same(m.tokens, m1.tokens, m.queue);
        assert(scan_ok(m1)) by {
            assert forall|i: int| 0 <= i < m1.scan.len() implies {
                &&& (#[trigger] m1.scan[i]).left_total <= m1.right_total
                &&& 0 <= m1.scan[i].token < m1.tokens.len()
                &&& m1.tokens[m1.scan[i].token].size <= INFINITY
            } by {}
        }
    }
}

/// A token that the scanning pile does not name is left alone by
/// `set_size`, and stays off the pile.
pub proof fn lemma_set_size_keeps(m: Layout, ty: bool, id: int)
    requires
        inv(m),
        0 <= id < m.tokens.len(),
        forall|j: int| 0 <= j < m.scan.len() ==> (#[trigger] m.scan[j]).token != id,
    ensures
        set_size(m, ty).tokens[id] == m.tokens[id],
        forall|j: int|
            0 <= j < set_size(m, ty).scan.len() ==> (#[trigger] set_size(m, ty).scan[j]).token != id,
{
}

/// Putting on the scanning pile a stored token that is not yet on it
/// keeps the invariant.
pub proof fn lemma_scan_push(m: Layout, b: bool, id: int)
    requires
        inv(m),
        0 <= id < m.tokens.len(),
        m.tokens[id].size <= INFINITY,
        forall|j: int| 0 <= j < m.scan.len() ==> (#[trigger] m.scan[j]).token != id,
    ensures
        inv(scan_push(m, b, id)),
        balanced(m) ==> balanced(scan_push(m, b, id)),
        scan_push(m, b, id).tokens.len() >= m.tokens.len(),
        scan_push(m, b, id).tokens[id] == m.tokens[id],
        scan_push(m, b, id).queue == m.queue,
        scan_push(m, b, id).right_total == m.right_total,
{
    let m1 = if b {
        set_size(m, true)
    } else {
        m
    };
    if b {
        lemma_set_size(m, true);
        lemma_set_size_keeps(m, true, id);
    }
    let m2 = scan_push(m, b, id);
    lemma_queue_width_nonneg(m1.tokens, m1.queue);
    lemma_queue_width_same(m1.tokens, m2.tokens, m1.queue);
    assert(scan_ok(m2)) by {
        assert forall|i: int| 0 <= i < m2.scan.len() implies {
            &&& (#[trigger] m2.scan[i]).left_total <= m2.right_total
            &&& 0 <= m2.scan[i].token < m2.tokens.len()
            &&& m2.tokens[m2.scan[i].token].size <= INFINITY
        } by {}
        assert forall|i: int, j: int| 0 <= i <= j < m2.scan.len() implies (
        #[trigger] m2.scan[i]).left_total <= (#[trigger] m2.scan[j]).left_total by {}
    }
}

/// Queueing a stored token for which there is room keeps the invariant.
pub proof fn lemma_enqueue(m: Layout, id: int)
    requires
        inv(m),
        0 <= id < m.tokens.len(),
        m.right_total + m.tokens[id].length <= INFINITY,
        m.tokens[id].tok is Text ==> m.tokens[id].size == m.tokens[id].length,
    ensures
        inv(enqueue(m, id)),
        balanced(m) ==> balanced(enqueue(m, id)),
{
    lemma_queue_width_push(m.tokens, m.queue, id);
    let m1 = enqueue(m, id);
    assert(queue_ok(m1)) by {
        assert forall|i: int| 0 <= i < m1.queue.len() implies {
            &&& 0 <= #[trigger] m1.queue[i] < m1.tokens.len()
            &&& m1.tokens[m1.queue[i]].tok is Text ==> m1.tokens[m1.queue[i]].size
                == m1.tokens[m1.queue[i]].length
        } by {}
    }
}

/// The text of a break hint moves the cursor to the right by no more than
/// its width.
pub proof fn lemma_format_string(c: Cursor, s: Seq<char>)
    ensures
        format_string(c, s).space_left <= c.space_left,
        format_string(c, s).space_left >= c.space_left - text_width(s),
        format_string(c, s).margin == c.margin,
        format_string(c, s).max_indent == c.max_indent,
        format_string(c, s).current_indent == c.current_indent,
        format_string(c, s).frames == c.frames,
{
}

/// A line break keeps the cursor within reach, whatever was printed
/// before.
pub proof fn lemma_break_new_line(c: Cursor, t: crate::token::Triple, w: int, lt: int)
    requires
        cursor_ok(c, lt),
        lt >= 1,
        -2 * reach() <= w <= reach(),
        0 <= t.n <= i32::MAX,
        text_width(t.post) <= INFINITY,
    ensures
        cursor_ok(break_new_line(c, t, w), lt),
        break_new_line(c, t, w).margin == c.margin,
        break_new_line(c, t, w).max_indent == c.max_indent,
        break_new_line(c, t, w).frames == c.frames,
{
}

/// Spacing on the line keeps the cursor within reach, once the length
/// of the break hint is counted as printed.
pub proof fn lemma_break_same_line(c: Cursor, t: crate::token::Triple, lt: int)
    requires
        cursor_ok(c, lt),
        0 <= t.n,
    ensures
        cursor_ok(break_same_line(c, t), lt + break_length(t)),
        break_same_line(c, t).margin == c.margin,
        break_same_line(c, t).max_indent == c.max_indent,
        break_same_line(c, t).frames == c.frames,
{
}

/// The line break before a box keeps the cursor within reach.
pub proof fn lemma_force_break_line(c: Cursor, lt: int)
    requires
        cursor_ok(c, lt),
        lt >= 1,
    ensures
        cursor_ok(force_break_line(c), lt),
        force_break_line(c).margin == c.margin,
        force_break_line(c).max_indent == c.max_indent,
        force_break_line(c).frames == c.frames,
{
    if c.frames.len() > 0 {
        let f = c.frames.last();
        let t = crate::token::Triple { pre: Seq::empty(), n: 0, post: Seq::empty() };
        assert(text_width(t.post) <= INFINITY) by {
            lemma_width_empty();
        }
        lemma_break_new_line(c, t, f.width, lt);
    }
}

/// The empty string takes no column.
pub proof fn lemma_width_empty()
    ensures
        text_width(Seq::<char>::empty()) == 0,
{
    reveal_with_fuel(vstd::utf8::encode_utf8, 1);
}

/// Printing a token keeps the cursor within reach, once the width of the
/// token is counted as printed.
pub proof fn lemma_format_pp_token(c: Cursor, e: Entry, lt: int)
    requires
        cursor_ok(c, lt),
        1 <= lt,
        lt + e.length <= INFINITY,
        entry_ok(e),
        e.tok is Text ==> e.size == e.length,
    ensures
        cursor_ok(format_pp_token(c, e), lt + e.length),
        format_pp_token(c, e).margin == c.margin,
        format_pp_token(c, e).max_indent == c.max_indent,
{
    match e.tok {
        Tok::Text(s) => {},
        Tok::Begin(off, kind) => {
            lemma_force_break_line(c, lt);
        },
        Tok::End => {},
        Tok::Newline => {
            if c.frames.len() > 0 {
                let f = c.frames[c.frames.len() - 1];
                let c1 = Cursor { frames: c.frames.drop_last(), ..c };
                let t = crate::token::Triple { pre: Seq::empty(), n: 0, post: Seq::empty() };
                lemma_width_empty();
                lemma_break_new_line(c1, t, f.width, lt);
            }
        },
        Tok::Break { fits, breaks } => {
            if c.frames.len() > 0 {
                let f = c.frames[c.frames.len() - 1];
                lemma_break_new_line(c, breaks, f.width, lt);
                lemma_break_same_line(c, fits, lt);
            }
        },
    }
}

/// One step of printing keeps the invariant and touches nothing but the
/// queue, the printed total, the cursor and the size of the printed token.
pub proof fn lemma_advance_one(m: Layout)
    requires
        inv(m),
        m.queue.len() > 0,
    ensures
        inv(advance_one(m)),
        balanced(m) ==> balanced(advance_one(m)),
        advance_one(m).queue.len() == m.queue.len() - 1,
        m.left_total + m.tokens[m.queue[0]].length <= m.right_total,
        entry_ok(advance_one(m).tokens[m.queue[0]]),
{
    let m1 = advance_one(m);
    let id = m.queue[0];
    let e1 = m1.tokens[id];
    lemma_queue_width_first(m.tokens, m.queue);
    lemma_queue_width_same(m.tokens, m1.tokens, m.queue.drop_first());
    assert(0 <= queue_width(m.tokens, m.queue.drop_first())) by {
        lemma_queue_width_nonneg(m.tokens, m.queue.drop_first());
    }
    lemma_format_pp_token(m.cursor, e1, m.left_total);
    assert(queue_ok(m1)) by {
        assert forall|i: int| 0 <= i < m1.queue.len() implies {
            &&& 0 <= #[trigger] m1.queue[i] < m1.tokens.len()
            &&& m1.tokens[m1.queue[i]].tok is Text ==> m1.tokens[m1.queue[i]].size
                == m1.tokens[m1.queue[i]].length
        } by {}
    }
    lemma_queue_width_nonneg(m1.tokens, m1.queue);
}

/// One step of printing leaves the settings alone.
pub proof fn lemma_advance_one_frame(m: Layout)
    ensures
        advance_one(m).cursor.margin == m.cursor.margin,
        advance_one(m).cursor.max_indent == m.cursor.max_indent,
        advance_one(m).scan == m.scan,
        advance_one(m).right_total == m.right_total,
        advance_one(m).curr_depth == m.curr_depth,
        advance_one(m).max_boxes == m.max_boxes,
        advance_one(m).min_space_left == m.min_space_left,
{
}

/// Printing as far as the queue goes keeps the invariant, and leaves the
/// settings, the enqueued total, the depth and the scanning pile alone.
pub proof fn lemma_advance_left(m: Layout)
    requires
        inv(m),
    ensures
        inv(advance_left(m)),
        balanced(m) ==> balanced(advance_left(m)),
        advance_left(m).scan == m.scan,
        advance_left(m).right_total == m.right_total,
        advance_left(m).curr_depth == m.curr_depth,
        advance_left(m).max_boxes == m.max_boxes,
        advance_left(m).min_space_left == m.min_space_left,
        advance_left(m).cursor.margin == m.cursor.margin,
        advance_left(m).cursor.max_indent == m.cursor.max_indent,
        advance_left(m).tokens.len() == m.tokens.len(),
        !head_ready(advance_left(m)),
    decreases m.queue.len(),
{
    if head_ready(m) {
        lemma_advance_one(m);
        lemma_advance_one_frame(m);
        lemma_advance_left(advance_one(m));
    }
}

/// Queueing a stored token and printing what is ready keeps the
/// invariant.
pub proof fn lemma_enqueue_advance(m: Layout, id: int)
    requires
        inv(m),
        0 <= id < m.tokens.len(),
        m.right_total + m.tokens[id].length <= INFINITY,
        m.tokens[id].tok is Text ==> m.tokens[id].size == m.tokens[id].length,
    ensures
        inv(enqueue_advance(m, id)),
        balanced(m) ==> balanced(enqueue_advance(m, id)),
        enqueue_advance(m, id).curr_depth == m.curr_depth,
        enqueue_advance(m, id).max_boxes == m.max_boxes,
        enqueue_advance(m, id).right_total == m.right_total + m.tokens[id].length,
{
    lemma_enqueue(m, id);
    lemma_advance_left(enqueue(m, id));
}

/// Printing text for which there is room keeps the invariant.
pub proof fn lemma_enqueue_string_as(m: Layout, s: Seq<char>, w: int)
    requires
        inv(m),
        0 <= w,
        m.right_total + w <= INFINITY,
    ensures
        inv(enqueue_string_as(m, s, w)),
        balanced(m) ==> balanced(enqueue_string_as(m, s, w)),
        enqueue_string_as(m, s, w).curr_depth == m.curr_depth,
        enqueue_string_as(m, s, w).max_boxes == m.max_boxes,
        enqueue_string_as(m, s, w).right_total == m.right_total + w,
{
    lemma_queue_width_nonneg(m.tokens, m.queue);
    lemma_add_token(m, Tok::Text(s), w, w);
    lemma_enqueue_advance(add_token(m, Tok::Text(s), w, w), m.tokens.len() as int);
}

/// Opening a box keeps the invariant, whether the box is opened, replaced
/// by the ellipsis or dropped.
pub proof fn lemma_open_box_gen(m: Layout, indent: int, kind: crate::token::PpBox)
    requires
        inv(m),
        0 <= indent <= i32::MAX,
        m.curr_depth + 1 == m.max_boxes ==> m.right_total < INFINITY,
    ensures
        inv(open_box_gen(m, indent, kind)),
        balanced(m) ==> balanced(open_box_gen(m, indent, kind)),
        open_box_gen(m, indent, kind).curr_depth == m.curr_depth + 1,
{
    let m1 = Layout { curr_depth: m.curr_depth + 1, ..m };
    lemma_queue_width_nonneg(m.tokens, m.queue);
    if m1.curr_depth < m1.max_boxes {
        let id = m1.tokens.len() as int;
        lemma_add_token(m1, Tok::Begin(indent, kind), 0, -m1.right_total);
        let m2 = add_token(m1, Tok::Begin(indent, kind), 0, -m1.right_total);
        lemma_scan_push(m2, false, id);
        lemma_enqueue_advance(scan_push(m2, false, id), id);
    } else if m1.curr_depth == m1.max_boxes {
        lemma_enqueue_string_as(m1, crate::model::ellipsis(), 1);
    }
}

/// Closing a box keeps the invariant and takes one from the depth, unless
/// only the root box is open.
pub proof fn lemma_close_box(m: Layout)
    requires
        inv(m),
    ensures
        inv(close_box(m)),
        balanced(m) ==> balanced(close_box(m)),
        close_box(m).curr_depth == if m.curr_depth > 1 {
            m.curr_depth - 1
        } else {
            m.curr_depth
        },
        close_box(m).right_total == m.right_total,
        close_box(m).max_boxes == m.max_boxes,
{
    if m.curr_depth > 1 && m.curr_depth < m.max_boxes {
        let id = m.tokens.len() as int;
        lemma_add_token(m, Tok::End, 0, 0);
        let m2 = add_token(m, Tok::End, 0, 0);
        lemma_set_size(m2, true);
        let m3 = set_size(m2, true);
        lemma_set_size(m3, false);
        let m4 = set_size(m3, false);
        assert(m2.tokens[id] == m4.tokens[id]) by {
            lemma_token_off_pile(m, Tok::End, 0, 0);
            lemma_set_size_keeps(m2, true, id);
            lemma_set_size_keeps(m3, false, id);
        }
        lemma_enqueue_advance(m4, id);
    }
}

/// A token just added is not on the scanning pile.
pub proof fn lemma_token_off_pile(m: Layout, tok: Tok, length: int, size: int)
    requires
        inv(m),
    ensures
        forall|j: int|
            0 <= j < add_token(m, tok, length, size).scan.len() ==> (#[trigger] add_token(
                m,
                tok,
                length,
                size,
            ).scan[j]).token != m.tokens.len(),
{
}

/// A break hint keeps the invariant.
pub proof fn lemma_print_custom_break(
    m: Layout,
    fits: crate::token::Triple,
    breaks: crate::token::Triple,
)
    requires
        inv(m),
        0 <= fits.n,
        0 <= breaks.n <= i32::MAX,
        text_width(breaks.pre) <= INFINITY,
        text_width(breaks.post) <= INFINITY,
        m.curr_depth < m.max_boxes ==> m.right_total + break_length(fits) <= INFINITY,
    ensures
        inv(crate::model::print_custom_break(m, fits, breaks)),
        balanced(m) ==> balanced(crate::model::print_custom_break(m, fits, breaks)),
{
    if m.curr_depth < m.max_boxes {
        let id = m.tokens.len() as int;
        let tok = Tok::Break { fits, breaks };
        lemma_queue_width_nonneg(m.tokens, m.queue);
        lemma_add_token(m, tok, break_length(fits), -m.right_total);
        lemma_token_off_pile(m, tok, break_length(fits), -m.right_total);
        let m1 = add_token(m, tok, break_length(fits), -m.right_total);
        lemma_scan_push(m1, true, id);
        lemma_enqueue_advance(scan_push(m1, true, id), id);
    }
}

/// A printer that starts afresh satisfies the invariant, with the two
/// totals equal.
pub proof fn lemma_fresh(
    margin: int,
    min_space_left: int,
    max_indent: int,
    max_boxes: int,
    is_new_line: bool,
    out: Seq<char>,
)
    requires
        0 <= margin <= INFINITY,
        i32::MIN <= max_indent <= i32::MAX,
        max_boxes > 1,
    ensures
        inv(crate::model::fresh(margin, min_space_left, max_indent, max_boxes, is_new_line, out)),
        balanced(
            crate::model::fresh(margin, min_space_left, max_indent, max_boxes, is_new_line, out),
        ),
{
    let m = crate::model::fresh(margin, min_space_left, max_indent, max_boxes, is_new_line, out);
    assert(queue_width(m.tokens, m.queue) == 0) by {
        assert(queue_width(m.tokens, m.queue.drop_last()) == 0);
    }
}

/// Closing boxes any number of times keeps the invariant.
pub proof fn lemma_close_boxes(m: Layout, n: nat)
    requires
        inv(m),
    ensures
        inv(crate::model::close_boxes(m, n)),
        balanced(m) ==> balanced(crate::model::close_boxes(m, n)),
        crate::model::close_boxes(m, n).max_boxes == m.max_boxes,
    decreases n,
{
    if n > 0 {
        lemma_close_box(m);
        lemma_close_boxes(close_box(m), (n - 1) as nat);
    }
}

} // verus!

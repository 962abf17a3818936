//! The engine as a mathematical state machine. `Layout` is what a printer
//! is; every operation of the printer is a function from `Layout` to
//! `Layout`, and the contracts of the executable code are stated with them.

use vstd::prelude::*;
use crate::token::{text_width, PpBox, Tok, Triple, INFINITY};

verus! {

/// A token in the store, with its two numbers.
pub struct Entry {
    pub tok: Tok,
    /// The columns the token itself adds to the line.
    pub length: int,
    /// The columns from this token to the next place where the line may be
    /// split; negative while unresolved.
    pub size: int,
}

/// An element of the scanning pile.
pub struct Pending {
    pub left_total: int,
    pub token: int,
}

/// An element of the formatting pile.
pub struct Frame {
    pub kind: PpBox,
    pub width: int,
}

/// Where the output stands: the line geometry, the position on the current
/// line, the boxes being printed and the text produced so far.
pub struct Cursor {
    pub margin: int,
    pub max_indent: int,
    pub space_left: int,
    pub current_indent: int,
    pub is_new_line: bool,
    pub frames: Seq<Frame>,
    pub out: Seq<char>,
}

/// The whole state of a printer.
pub struct Layout {
    pub tokens: Seq<Entry>,
    pub scan: Seq<Pending>,
    pub queue: Seq<int>,
    pub left_total: int,
    pub right_total: int,
    pub curr_depth: int,
    pub max_boxes: int,
    pub min_space_left: int,
    pub cursor: Cursor,
}

/// The lesser of two numbers.
pub open spec fn least(a: int, b: int) -> int {
    if a <= b {
        a
    } else {
        b
    }
}

/// A run of `n` blanks; empty when `n` is not positive.
pub open spec fn blanks(n: int) -> Seq<char> {
    Seq::new(
        if n > 0 {
            n as nat
        } else {
            0
        },
        |i: int| ' ',
    )
}

/// The text that ends a line.
pub open spec fn newline() -> Seq<char> {
    seq!['\n']
}

/// The text that stands for a box opened at the depth limit.
pub open spec fn ellipsis() -> Seq<char> {
    seq!['.']
}

// ---------------------------------------------------------------------
// Emission
// ---------------------------------------------------------------------

/// Text goes out; the position on the line is not moved.
pub open spec fn output_string(c: Cursor, s: Seq<char>) -> Cursor {
    Cursor { out: c.out + s, ..c }
}

/// A line end goes out; the position on the line is not moved.
pub open spec fn output_newline(c: Cursor) -> Cursor {
    output_string(c, newline())
}

/// `n` blanks go out; the position on the line is not moved.
pub open spec fn output_spaces(c: Cursor, n: int) -> Cursor {
    output_string(c, blanks(n))
}

/// Text of declared width `w` goes out and takes `w` columns of the line.
pub open spec fn format_pp_text(c: Cursor, s: Seq<char>, w: int) -> Cursor {
    Cursor { space_left: c.space_left - w, is_new_line: false, ..output_string(c, s) }
}

/// The text of a break hint; an empty one leaves the cursor as it is.
pub open spec fn format_string(c: Cursor, s: Seq<char>) -> Cursor {
    if s.len() == 0 {
        c
    } else {
        format_pp_text(c, s, text_width(s))
    }
}

/// The indentation of the line that a break under a box of width `w`
/// starts, for a break offset `offset`.
pub open spec fn break_indent(c: Cursor, offset: int, w: int) -> int {
    least(c.max_indent, c.margin - w + offset)
}

/// A break hint rendered as a line break under a box of width `w`.
pub open spec fn break_new_line(c: Cursor, t: Triple, w: int) -> Cursor {
    let c1 = output_newline(format_string(c, t.pre));
    let indent = break_indent(c, t.n, w);
    let c2 = Cursor {
        is_new_line: true,
        current_indent: indent,
        space_left: c.margin - indent,
        ..output_spaces(c1, indent)
    };
    format_string(c2, t.post)
}

/// A forced line break under a box of width `w`: no offset is added.
pub open spec fn break_line(c: Cursor, w: int) -> Cursor {
    break_new_line(c, Triple { pre: Seq::empty(), n: 0, post: Seq::empty() }, w)
}

/// A break hint rendered as spacing on the current line.
pub open spec fn break_same_line(c: Cursor, t: Triple) -> Cursor {
    let c1 = format_string(c, t.pre);
    let c2 = Cursor { space_left: c1.space_left - t.n, ..output_spaces(c1, t.n) };
    format_string(c2, t.post)
}

/// The line break made before a box that would open to the right of the
/// largest indentation.
pub open spec fn force_break_line(c: Cursor) -> Cursor {
    if c.frames.len() == 0 {
        output_newline(c)
    } else {
        let f = c.frames.last();
        if f.width > c.space_left && !(f.kind is Fits) && !(f.kind is Hbox) {
            break_line(c, f.width)
        } else {
            c
        }
    }
}

/// The flavor a box gets when it is opened with `size` columns of content
/// and `space_left` columns left on the line.
pub open spec fn opened_kind(kind: PpBox, size: int, space_left: int) -> PpBox {
    if kind is Vbox || size > space_left {
        kind
    } else {
        PpBox::Fits()
    }
}

/// Whether a break hint of resolved size `size` splits the line, under the
/// innermost box `f`.
pub open spec fn splits_line(c: Cursor, f: Frame, fits: Triple, breaks: Triple, size: int) -> bool {
    match f.kind {
        PpBox::Hbox() => false,
        PpBox::Fits() => false,
        PpBox::Vbox() => true,
        PpBox::Hvbox() => true,
        PpBox::Hovbox() => size + text_width(fits.pre) > c.space_left,
        PpBox::Box() => !c.is_new_line && (size + text_width(fits.pre) > c.space_left
            || c.current_indent > c.margin - f.width + breaks.n),
    }
}

/// What printing one token does to the cursor.
pub open spec fn format_pp_token(c: Cursor, e: Entry) -> Cursor {
    match e.tok {
        Tok::Text(s) => format_pp_text(c, s, e.size),
        Tok::Begin(off, kind) => {
            let c1 = if c.margin - c.space_left > c.max_indent {
                force_break_line(c)
            } else {
                c
            };
            let f = Frame {
                kind: opened_kind(kind, e.size, c1.space_left),
                width: c1.space_left - off,
            };
            Cursor { frames: c1.frames.push(f), ..c1 }
        },
        Tok::End => if c.frames.len() == 0 {
            c
        } else {
            Cursor { frames: c.frames.drop_last(), ..c }
        },
        Tok::Newline => if c.frames.len() == 0 {
            output_newline(c)
        } else {
            break_line(Cursor { frames: c.frames.drop_last(), ..c }, c.frames.last().width)
        },
        Tok::Break { fits, breaks } => if c.frames.len() == 0 {
            c
        } else if splits_line(c, c.frames.last(), fits, breaks, e.size) {
            break_new_line(c, breaks, c.frames.last().width)
        } else {
            break_same_line(c, fits)
        },
    }
}

// ---------------------------------------------------------------------
// The token store, the queue and the scanning pile
// ---------------------------------------------------------------------

/// A new token at the end of the store; its identity is the old length.
pub open spec fn add_token(m: Layout, tok: Tok, length: int, size: int) -> Layout {
    Layout { tokens: m.tokens.push(Entry { tok, length, size }), ..m }
}

/// A stored token joins the queue, and its length the enqueued total.
pub open spec fn enqueue(m: Layout, id: int) -> Layout {
    Layout { right_total: m.right_total + m.tokens[id].length, queue: m.queue.push(id), ..m }
}

/// The store with the size of one token replaced.
pub open spec fn with_size(m: Layout, id: int, size: int) -> Layout {
    Layout { tokens: m.tokens.update(id, Entry { size, ..m.tokens[id] }), ..m }
}

/// The total length of the queued tokens.
pub open spec fn queue_width(tokens: Seq<Entry>, queue: Seq<int>) -> int
    decreases queue.len(),
{
    if queue.len() == 0 {
        0
    } else {
        queue_width(tokens, queue.drop_last()) + tokens[queue.last()].length
    }
}

/// Whether the head of the queue can be printed now: its size is known, or
/// so much is queued behind it that it cannot fit on the line.
pub open spec fn head_ready(m: Layout) -> bool {
    m.queue.len() > 0 && (m.tokens[m.queue[0]].size >= 0 || m.right_total - m.left_total
        >= m.cursor.space_left)
}

/// The head of the queue leaves it and is printed.
pub open spec fn advance_one(m: Layout) -> Layout {
    let id = m.queue[0];
    let e = m.tokens[id];
    let e1 = if e.size < 0 {
        Entry { size: INFINITY as int, ..e }
    } else {
        e
    };
    Layout {
        tokens: m.tokens.update(id, e1),
        queue: m.queue.drop_first(),
        left_total: m.left_total + e.length,
        cursor: format_pp_token(m.cursor, e1),
        ..m
    }
}

/// Prints from the head of the queue for as long as the head is ready.
pub open spec fn advance_left(m: Layout) -> Layout
    decreases m.queue.len(),
{
    if head_ready(m) {
        advance_left(advance_one(m))
    } else {
        m
    }
}

/// A stored token joins the queue, and what is ready is printed.
pub open spec fn enqueue_advance(m: Layout, id: int) -> Layout {
    advance_left(enqueue(m, id))
}

/// Text of declared width `w` is stored and queued, and what is ready is
/// printed.
pub open spec fn enqueue_string_as(m: Layout, s: Seq<char>, w: int) -> Layout {
    enqueue_advance(add_token(m, Tok::Text(s), w, w), m.tokens.len() as int)
}

/// The scanning pile reduced to its sentinel, which no total can reach.
pub open spec fn initialise_scan_stack(m: Layout) -> Layout {
    Layout {
        scan: seq![Pending { left_total: -1, token: m.tokens.len() as int }],
        ..add_token(m, Tok::Text(Seq::empty()), 0, -1)
    }
}

/// Whether a `set_size` of the given kind resolves a token: the kind for
/// break hints (`true`) resolves a break hint, the kind for closings
/// (`false`) resolves a box opening.
pub open spec fn resolves(tok: Tok, ty: bool) -> bool {
    (tok is Break && ty) || (tok is Begin && !ty)
}

/// Resolves the size of the token on top of the scanning pile.
pub open spec fn set_size(m: Layout, ty: bool) -> Layout {
    if m.scan.len() == 0 {
        m
    } else {
        let top = m.scan.last();
        if top.left_total < m.left_total {
            initialise_scan_stack(m)
        } else if resolves(m.tokens[top.token].tok, ty) {
            Layout {
                scan: m.scan.drop_last(),
                ..with_size(m, top.token, m.tokens[top.token].size + m.right_total)
            }
        } else {
            m
        }
    }
}

/// Puts a token on the scanning pile; for a break hint the hint before it
/// is resolved first.
pub open spec fn scan_push(m: Layout, b: bool, id: int) -> Layout {
    let m1 = if b {
        set_size(m, true)
    } else {
        m
    };
    Layout { scan: m1.scan.push(Pending { left_total: m1.right_total, token: id }), ..m1 }
}

// ---------------------------------------------------------------------
// The operations
// ---------------------------------------------------------------------

/// A box is opened: the depth grows by one; below the depth limit the
/// opening is stored, put on the scanning pile and queued; at the limit
/// the ellipsis is printed in its place; above it nothing more happens.
pub open spec fn open_box_gen(m: Layout, indent: int, kind: PpBox) -> Layout {
    let m1 = Layout { curr_depth: m.curr_depth + 1, ..m };
    if m1.curr_depth < m1.max_boxes {
        let id = m1.tokens.len() as int;
        let m2 = add_token(m1, Tok::Begin(indent, kind), 0, -m1.right_total);
        enqueue_advance(scan_push(m2, false, id), id)
    } else if m1.curr_depth == m1.max_boxes {
        enqueue_string_as(m1, ellipsis(), 1)
    } else {
        m1
    }
}

/// Opens the root box: as any box, but nothing is printed yet.
pub open spec fn open_sys_box(m: Layout) -> Layout {
    let m1 = Layout { curr_depth: m.curr_depth + 1, ..m };
    let id = m1.tokens.len() as int;
    let m2 = add_token(m1, Tok::Begin(0, PpBox::Hovbox()), 0, -m1.right_total);
    enqueue(scan_push(m2, false, id), id)
}

/// The innermost box is closed, unless only the root box is open. Below
/// the depth limit the closing is stored, the break hint and the box that
/// wait on the scanning pile are resolved, and the closing is queued; at
/// or above the limit only the depth is counted down.
pub open spec fn close_box(m: Layout) -> Layout {
    if m.curr_depth > 1 {
        let m1 = if m.curr_depth < m.max_boxes {
            let id = m.tokens.len() as int;
            let m2 = add_token(m, Tok::End, 0, 0);
            enqueue_advance(set_size(set_size(m2, true), false), id)
        } else {
            m
        };
        Layout { curr_depth: m1.curr_depth - 1, ..m1 }
    } else {
        m
    }
}

/// Text of declared width `w` is printed, or dropped at or above the
/// depth limit.
pub open spec fn print_as(m: Layout, s: Seq<char>, w: int) -> Layout {
    if m.curr_depth < m.max_boxes {
        enqueue_string_as(m, s, w)
    } else {
        m
    }
}

/// Text is printed with its length in bytes for width.
pub open spec fn print_string(m: Layout, s: Seq<char>) -> Layout {
    print_as(m, s, text_width(s))
}

/// The length of a break hint: what it takes when the line is not split.
pub open spec fn break_length(fits: Triple) -> int {
    text_width(fits.pre) + fits.n + text_width(fits.post)
}

/// A break hint is printed, or dropped at or above the depth limit: it
/// is stored with the enqueued total, sign changed, for size, the hint
/// before it is resolved, and it is put on the scanning pile and queued.
pub open spec fn print_custom_break(m: Layout, fits: Triple, breaks: Triple) -> Layout {
    if m.curr_depth < m.max_boxes {
        let id = m.tokens.len() as int;
        let m1 = add_token(m, Tok::Break { fits, breaks }, break_length(fits), -m.right_total);
        enqueue_advance(scan_push(m1, true, id), id)
    } else {
        m
    }
}

/// A break hint without text: `w` blanks, or a line break with `offset`
/// more columns of indentation.
pub open spec fn print_break(m: Layout, w: int, offset: int) -> Layout {
    print_custom_break(
        m,
        Triple { pre: Seq::empty(), n: w, post: Seq::empty() },
        Triple { pre: Seq::empty(), n: offset, post: Seq::empty() },
    )
}

/// A break hint that is one blank or a line break.
pub open spec fn print_space(m: Layout) -> Layout {
    print_break(m, 1, 0)
}

/// A break hint that is nothing or a line break.
pub open spec fn print_cut(m: Layout) -> Layout {
    print_break(m, 0, 0)
}

/// The state a printer starts from: only the root box is open, and its
/// opening waits in the queue. The two totals start at one, so that the
/// placeholder for an unresolved size, the total with its sign changed, is
/// negative from the start.
pub open spec fn fresh(
    margin: int,
    min_space_left: int,
    max_indent: int,
    max_boxes: int,
    is_new_line: bool,
    out: Seq<char>,
) -> Layout {
    let empty = Layout {
        tokens: Seq::empty(),
        scan: Seq::empty(),
        queue: Seq::empty(),
        left_total: 1,
        right_total: 1,
        curr_depth: 0,
        max_boxes,
        min_space_left,
        cursor: Cursor {
            margin,
            max_indent,
            space_left: margin,
            current_indent: 0,
            is_new_line,
            frames: Seq::empty(),
            out,
        },
    };
    open_sys_box(initialise_scan_stack(empty))
}

/// Forgets everything but the settings and the output, and opens the root
/// box again.
pub open spec fn rinit(m: Layout) -> Layout {
    fresh(
        m.cursor.margin,
        m.min_space_left,
        m.cursor.max_indent,
        m.max_boxes,
        m.cursor.is_new_line,
        m.cursor.out,
    )
}

/// `close_box`, `n` times.
pub open spec fn close_boxes(m: Layout, n: nat) -> Layout
    decreases n,
{
    if n == 0 {
        m
    } else {
        close_boxes(close_box(m), (n - 1) as nat)
    }
}

/// The number of boxes that the user has open.
pub open spec fn user_boxes(m: Layout) -> nat {
    if m.curr_depth > 1 {
        (m.curr_depth - 1) as nat
    } else {
        0
    }
}

/// The state just before a flush forgets it: every user box closed and the
/// queue printed as far as it goes with every size forced.
pub open spec fn drained(m: Layout) -> Layout {
    let m1 = close_boxes(m, user_boxes(m));
    advance_left(Layout { right_total: INFINITY as int, ..m1 })
}

/// The user boxes are closed, the queue is printed with every size
/// forced, the line is ended if asked for, and the printer starts afresh.
pub open spec fn flush_queue(m: Layout, end_with_newline: bool) -> Layout {
    let m1 = drained(m);
    let m2 = if end_with_newline {
        Layout { cursor: output_newline(m1.cursor), ..m1 }
    } else {
        m1
    };
    rinit(m2)
}

/// A flush that does not end the line.
pub open spec fn print_flush(m: Layout) -> Layout {
    flush_queue(m, false)
}

/// A flush that ends the line.
pub open spec fn print_newline(m: Layout) -> Layout {
    flush_queue(m, true)
}

/// The right margin becomes `n`, or `INFINITY` if `n` is beyond it.
pub open spec fn set_margin(m: Layout, n: int) -> Layout {
    Layout { cursor: Cursor { margin: least(n, INFINITY as int), ..m.cursor }, ..m }
}

/// The depth limit becomes `n`, if `n` is more than one.
pub open spec fn set_max_boxes(m: Layout, n: int) -> Layout {
    if n > 1 {
        Layout { max_boxes: n, ..m }
    } else {
        m
    }
}

// ---------------------------------------------------------------------
// What the operations ask of the state
// ---------------------------------------------------------------------

/// `w` more columns can go into the queue before the next flush.
pub open spec fn has_room(m: Layout, w: int) -> bool {
    m.right_total + w <= INFINITY
}

/// Whether text and break hints are taken: the depth is below the limit.
pub open spec fn accepts(m: Layout) -> bool {
    m.curr_depth < m.max_boxes
}

/// One more box can be counted, and there is room for the ellipsis if this
/// box is the one it stands for.
pub open spec fn can_open(m: Layout) -> bool {
    &&& m.curr_depth < i32::MAX
    &&& m.curr_depth + 1 == m.max_boxes ==> has_room(m, 1)
}

/// The state between two pieces of output: nothing has been printed of the
/// current piece, only the root box is open, and its opening waits in the
/// queue and on the scanning pile, above the sentinel.
pub open spec fn at_rest(m: Layout) -> bool {
    &&& m.queue.len() == 1
    &&& 0 <= m.queue[0] < m.tokens.len()
    &&& m.tokens[m.queue[0]] == (Entry {
        tok: Tok::Begin(0, PpBox::Hovbox()),
        length: 0,
        size: -1,
    })
    &&& m.scan.len() == 2
    &&& m.scan[0].left_total == -1
    &&& m.scan[1] == (Pending { left_total: 1, token: m.queue[0] })
    &&& m.cursor.frames.len() == 0
    &&& m.curr_depth == 1
    &&& m.left_total == 1
    &&& m.right_total == 1
    &&& m.cursor.space_left == m.cursor.margin
    &&& m.cursor.current_indent == 0
}

// ---------------------------------------------------------------------
// Streams of operations
// ---------------------------------------------------------------------

/// What a caller can ask of a printer.
pub enum Op {
    /// Open a box with an indentation and a flavor.
    Open(int, PpBox),
    /// Close the innermost box.
    Close,
    /// Print text with a declared width.
    Text(Seq<char>, int),
    /// Print a break hint with its two renderings.
    Break(Triple, Triple),
    /// Print all that is pending and start afresh.
    Flush,
    /// As `Flush`, with the line ended.
    Newline,
    /// Set the right margin.
    Margin(int),
    /// Set the depth limit.
    MaxBoxes(int),
}

/// The state after one operation.
pub open spec fn step(m: Layout, op: Op) -> Layout {
    match op {
        Op::Open(indent, kind) => open_box_gen(m, indent, kind),
        Op::Close => close_box(m),
        Op::Text(s, w) => print_as(m, s, w),
        Op::Break(fits, breaks) => print_custom_break(m, fits, breaks),
        Op::Flush => print_flush(m),
        Op::Newline => print_newline(m),
        Op::Margin(n) => set_margin(m, n),
        Op::MaxBoxes(n) => set_max_boxes(m, n),
    }
}

/// Whether the state can take the operation: the numbers are not negative
/// and what the operation adds stays within the limits of the engine.
pub open spec fn admits(m: Layout, op: Op) -> bool {
    match op {
        Op::Open(indent, kind) => 0 <= indent <= i32::MAX && can_open(m),
        Op::Close => true,
        Op::Text(s, w) => 0 <= w && (accepts(m) ==> has_room(m, w)),
        Op::Break(fits, breaks) => {
            &&& 0 <= fits.n
            &&& 0 <= breaks.n <= i32::MAX
            &&& text_width(breaks.pre) <= INFINITY
            &&& text_width(breaks.post) <= INFINITY
            &&& accepts(m) ==> has_room(m, break_length(fits))
        },
        Op::Flush => true,
        Op::Newline => true,
        Op::Margin(n) => 0 <= n,
        Op::MaxBoxes(n) => true,
    }
}

/// Whether the operation puts a token in the queue.
pub open spec fn emits(m: Layout, op: Op) -> bool {
    match op {
        Op::Open(indent, kind) => m.curr_depth + 1 <= m.max_boxes,
        Op::Close => 1 < m.curr_depth < m.max_boxes,
        Op::Text(s, w) => accepts(m),
        Op::Break(fits, breaks) => accepts(m),
        _ => false,
    }
}

/// The state after a stream of operations.
pub open spec fn run(m: Layout, ops: Seq<Op>) -> Layout
    decreases ops.len(),
{
    if ops.len() == 0 {
        m
    } else {
        run(step(m, ops[0]), ops.drop_first())
    }
}

/// Whether every operation of the stream is admitted by the state it meets.
pub open spec fn admits_all(m: Layout, ops: Seq<Op>) -> bool
    decreases ops.len(),
{
    ops.len() == 0 || (admits(m, ops[0]) && admits_all(step(m, ops[0]), ops.drop_first()))
}

} // verus!

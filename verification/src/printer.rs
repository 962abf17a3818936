//! The printer: the executable engine, with its contracts stated over the
//! model.

use std::collections::HashMap;
use std::collections::VecDeque;
use vstd::prelude::*;
use vstd::string::StringExecFns;
use crate::bounds::{
    balanced, cursor_ok, entry_ok, inv, lemma_add_token, lemma_advance_one, lemma_close_box,
    lemma_enqueue, lemma_fresh, lemma_open_box_gen, lemma_print_custom_break,
    lemma_queue_width_prefix, lemma_scan_push, lemma_set_size, lemma_set_size_keeps,
    lemma_token_off_pile, lemma_width_empty, reach,
};
use crate::laws::{law_flush_prints_the_whole_queue, tame};
use crate::model;
use crate::model::{Cursor, Entry, Frame, Layout, Pending};
use crate::token::{
    text_width, triple_view, PpBox, PpFormatT, PpQueueT, PpScanT, PpToken, Size, Tok, Triple,
    INFINITY,
};

verus! {

broadcast use vstd::std_specs::hash::group_hash_axioms;

/// A pretty-printer that writes into a string buffer.
#[derive(Debug)]
pub struct BufPrinter {
    // The tokens since the last flush; a token's identity is its index.
    tokens: Vec<PpToken>,
    // The length of each token.
    token_lengths: HashMap<usize, i32>,
    // The size of each token.
    token_sizes: HashMap<usize, Size>,
    // The scanning pile.
    scan_stack: Vec<PpScanT>,
    // The formatting pile.
    format_stack: Vec<PpFormatT>,
    // The tokens that wait to be printed.
    queue: VecDeque<PpQueueT>,
    // The right margin.
    margin: i32,
    // The least room to keep before the margin when a box opens.
    min_space_left: i32,
    // The largest indentation: no line starts further to the right.
    max_indent: i32,
    // The columns left on the current line.
    space_left: i64,
    // The indentation of the current line.
    current_indent: i64,
    // Whether the printer has just broken the line.
    is_new_line: bool,
    // The total width of the tokens printed.
    left_total: i32,
    // The total width of the tokens ever put in the queue.
    right_total: i32,
    // The number of open boxes.
    curr_depth: i32,
    // The depth from which boxes are no longer opened.
    max_boxes: i32,
    /// The text produced so far.
    pub out_buf: String,
}

/// The token store as the model has it.
pub open spec fn store_view(
    tokens: Vec<PpToken>,
    lengths: HashMap<usize, i32>,
    sizes: HashMap<usize, Size>,
) -> Seq<Entry> {
    Seq::new(
        tokens@.len(),
        |i: int|
            Entry {
                tok: tokens@[i]@,
                length: lengths@[i as usize] as int,
                size: sizes@[i as usize].0 as int,
            },
    )
}

/// Every stored token has its length and its size on record.
pub open spec fn store_ok(
    tokens: Vec<PpToken>,
    lengths: HashMap<usize, i32>,
    sizes: HashMap<usize, Size>,
) -> bool {
    forall|i: usize|
        #![trigger lengths@.contains_key(i)]
        #![trigger sizes@.contains_key(i)]
        i < tokens@.len() ==> lengths@.contains_key(i) && sizes@.contains_key(i)
}

/// The scanning pile as the model has it.
pub open spec fn scan_view(scan: Vec<PpScanT>) -> Seq<Pending> {
    Seq::new(
        scan@.len(),
        |i: int| Pending { left_total: scan@[i].left_total as int, token: scan@[i].token_idx as int },
    )
}

/// The queue as the model has it.
pub open spec fn queue_view(queue: VecDeque<PpQueueT>) -> Seq<int> {
    Seq::new(queue@.len(), |i: int| queue@[i].0 as int)
}

/// The formatting pile as the model has it.
pub open spec fn frames_view(frames: Vec<PpFormatT>) -> Seq<Frame> {
    Seq::new(
        frames@.len(),
        |i: int| Frame { kind: frames@[i].box_type, width: frames@[i].box_size as int },
    )
}

impl View for BufPrinter {
    type V = Layout;

    closed spec fn view(&self) -> Layout {
        Layout {
            tokens: store_view(self.tokens, self.token_lengths, self.token_sizes),
            scan: scan_view(self.scan_stack),
            queue: queue_view(self.queue),
            left_total: self.left_total as int,
            right_total: self.right_total as int,
            curr_depth: self.curr_depth as int,
            max_boxes: self.max_boxes as int,
            min_space_left: self.min_space_left as int,
            cursor: Cursor {
                margin: self.margin as int,
                max_indent: self.max_indent as int,
                space_left: self.space_left as int,
                current_indent: self.current_indent as int,
                is_new_line: self.is_new_line,
                frames: frames_view(self.format_stack),
                out: self.out_buf@,
            },
        }
    }
}

/// The cursor is far from the limits of the machine.
pub open spec fn roomy(c: Cursor) -> bool {
    &&& -2 * reach() <= c.space_left <= 2 * reach()
    &&& -2 * reach() <= c.current_indent <= 2 * reach()
}

impl BufPrinter {
    /// Every stored token has its length and its size on record.
    pub closed spec fn repr_ok(&self) -> bool {
        store_ok(self.tokens, self.token_lengths, self.token_sizes)
    }

    /// The printer is in a state that its operations can start from: the
    /// invariant of the engine holds, and the difference of the two totals
    /// is the width of the queue.
    pub open spec fn wf(&self) -> bool {
        &&& self.repr_ok()
        &&& inv(self@)
        &&& balanced(self@)
    }

    /// The text produced so far.
    pub fn output(&self) -> (text: &str)
        ensures
            text@ == self@.cursor.out,
    {
        self.out_buf.as_str()
    }

    /// The right margin.
    pub fn margin(&self) -> (n: i32)
        ensures
            n == self@.cursor.margin,
    {
        self.margin
    }

    /// The depth from which boxes are no longer opened.
    pub fn max_boxes(&self) -> (n: i32)
        ensures
            n == self@.max_boxes,
    {
        self.max_boxes
    }

    /// The number of open boxes, the root box counted.
    pub fn curr_depth(&self) -> (n: i32)
        ensures
            n == self@.curr_depth,
    {
        self.curr_depth
    }

    /// The total width of the tokens printed since the last flush, plus one.
    pub fn left_total(&self) -> (n: i32)
        ensures
            n == self@.left_total,
    {
        self.left_total
    }

    /// The total width of the tokens put in the queue since the last flush,
    /// plus one.
    pub fn right_total(&self) -> (n: i32)
        ensures
            n == self@.right_total,
    {
        self.right_total
    }

    /// The columns left on the current line.
    pub fn space_left(&self) -> (n: i64)
        ensures
            n == self@.cursor.space_left,
    {
        self.space_left
    }

    /// The indentation of the current line.
    pub fn current_indent(&self) -> (n: i64)
        ensures
            n == self@.cursor.current_indent,
    {
        self.current_indent
    }

    /// Whether text or a break hint that takes `width` columns when the
    /// line is not split can be printed now: either it would be dropped,
    /// or there is room for it before the next flush.
    pub fn has_room(&self, width: usize) -> (ok: bool)
        requires
            self.wf(),
        ensures
            ok == (model::accepts(self@) ==> model::has_room(self@, width as int)),
    {
        self.curr_depth >= self.max_boxes || width <= (INFINITY - self.right_total) as usize
    }

    /// Whether one more box can be opened now.
    pub fn can_open(&self) -> (ok: bool)
        ensures
            ok == model::can_open(self@),
    {
        self.curr_depth < i32::MAX && (self.curr_depth + 1 != self.max_boxes || self.right_total
            < INFINITY)
    }

    /// The number of tokens that wait to be printed.
    pub fn queue_len(&self) -> (n: usize)
        ensures
            n == self@.queue.len(),
    {
        self.queue.len()
    }

    /// The number of boxes that are being printed.
    pub fn format_depth(&self) -> (n: usize)
        ensures
            n == self@.cursor.frames.len(),
    {
        self.format_stack.len()
    }

    /// The total length of the tokens that wait to be printed.
    pub fn pending_width(&self) -> (w: i32)
        requires
            self.wf(),
        ensures
            w == model::queue_width(self@.tokens, self@.queue),
            w == self@.right_total - self@.left_total,
    {
        let mut w: i32 = 0;
        let mut i: usize = 0;
        proof {
            lemma_queue_width_prefix(self@.tokens, self@.queue, 0);
            lemma_queue_width_prefix(self@.tokens, self@.queue, self@.queue.len() as int);
        }
        while i < self.queue.len()
            invariant
                self.wf(),
                i <= self@.queue.len(),
                w == model::queue_width(self@.tokens, self@.queue.take(i as int)),
                0 <= w <= model::queue_width(self@.tokens, self@.queue) <= INFINITY,
            decreases self@.queue.len() - i,
        {
            let token_id = self.queue[i].0;
            proof {
                lemma_queue_width_prefix(self@.tokens, self@.queue, i + 1);
            }
            w = w + self.length_of(token_id);
            i = i + 1;
        }
        w
    }

    /// The totals that the elements of the scanning pile recorded, from
    /// the sentinel at the bottom to the top.
    pub fn scan_totals(&self) -> (totals: Vec<i32>)
        ensures
            totals@.len() == self@.scan.len(),
            forall|i: int| 0 <= i < totals@.len() ==> totals@[i] == self@.scan[i].left_total,
    {
        let mut totals: Vec<i32> = Vec::new();
        let mut i: usize = 0;
        while i < self.scan_stack.len()
            invariant
                i <= self.scan_stack@.len(),
                totals@.len() == i,
                forall|k: int| 0 <= k < i ==> totals@[k] == self@.scan[k].left_total,
            decreases self.scan_stack@.len() - i,
        {
            totals.push(self.scan_stack[i].left_total);
            i = i + 1;
        }
        totals
    }

    /// Writes text to the buffer. The cursor is not told.
    fn output_string(&mut self, s: &str)
        ensures
            final(self)@ == (Layout {
                cursor: model::output_string(old(self)@.cursor, s@),
                ..old(self)@
            }),
            old(self).repr_ok() ==> final(self).repr_ok(),
    {
        self.out_buf.append(s);
    }

    /// Ends the line in the buffer. The cursor is not told.
    pub fn output_newline(&mut self)
        ensures
            final(self)@ == (Layout {
                cursor: model::output_newline(old(self)@.cursor),
                ..old(self)@
            }),
            old(self).wf() ==> final(self).wf(),
            old(self).repr_ok() ==> final(self).repr_ok(),
    {
        proof {
            reveal_strlit("\n");
        }
        assert("\n"@ =~= model::newline());
        self.out_buf.append("\n");
    }

    /// Writes `n` blanks to the buffer. The cursor is not told.
    fn output_spaces(&mut self, n: i32)
        ensures
            final(self)@ == (Layout {
                cursor: model::output_spaces(old(self)@.cursor, n as int),
                ..old(self)@
            }),
            old(self).repr_ok() ==> final(self).repr_ok(),
    {
        self.output_indent(n);
    }

    /// Writes `n` blanks to the buffer; none when `n` is not positive. The
    /// cursor is not told.
    pub fn output_indent(&mut self, n: i32)
        ensures
            final(self)@ == (Layout {
                cursor: model::output_spaces(old(self)@.cursor, n as int),
                ..old(self)@
            }),
            old(self).wf() ==> final(self).wf(),
            old(self).repr_ok() ==> final(self).repr_ok(),
    {
        proof {
            reveal_strlit(" ");
        }
        let mut i: i32 = 0;
        while i < n
            invariant
                0 <= i,
                i <= n || i == 0,
                self@ == (Layout {
                    cursor: model::output_spaces(old(self)@.cursor, i as int),
                    ..old(self)@
                }),
                old(self).repr_ok() ==> self.repr_ok(),
                " "@ =~= seq![' '],
            decreases n - i,
        {
            self.out_buf.append(" ");
            i = i + 1;
            assert(self.out_buf@ =~= old(self).out_buf@ + model::blanks(i as int));
        }
    }

    /// Prints text that takes `size` columns of the line.
    fn format_pp_text(&mut self, s: &str, size: i64)
        requires
            -4 * reach() <= old(self)@.cursor.space_left <= 4 * reach(),
            -4 * reach() <= size <= 4 * reach(),
        ensures
            final(self)@ == (Layout {
                cursor: model::format_pp_text(old(self)@.cursor, s@, size as int),
                ..old(self)@
            }),
            old(self).repr_ok() ==> final(self).repr_ok(),
    {
        self.space_left = self.space_left - size;
        self.output_string(s);
        self.is_new_line = false;
    }

    /// Prints the text of a break hint, if there is any.
    fn format_string(&mut self, s: &str)
        requires
            -4 * reach() <= old(self)@.cursor.space_left <= 4 * reach(),
            text_width(s@) <= INFINITY,
        ensures
            final(self)@ == (Layout {
                cursor: model::format_string(old(self)@.cursor, s@),
                ..old(self)@
            }),
            old(self).repr_ok() ==> final(self).repr_ok(),
    {
        if !s.is_empty() {
            self.format_pp_text(s, s.len() as i64)
        }
    }

    /// Renders a break hint as a line break under a box of width `width`:
    /// the text `before`, a new line indented by the column of the box
    /// plus `offset`, but by no more than the largest indentation, then
    /// the text `after`.
    fn break_new_line(&mut self, before: &str, offset: i32, after: &str, width: i64)
        requires
            roomy(old(self)@.cursor),
            -2 * reach() <= width <= 2 * reach(),
            text_width(before@) <= INFINITY,
            text_width(after@) <= INFINITY,
        ensures
            final(self)@ == (Layout {
                cursor: model::break_new_line(
                    old(self)@.cursor,
                    Triple { pre: before@, n: offset as int, post: after@ },
                    width as int,
                ),
                ..old(self)@
            }),
            final(self)@.cursor.current_indent == model::least(
                old(self)@.cursor.max_indent,
                old(self)@.cursor.margin - width + offset,
            ),
            old(self).repr_ok() ==> final(self).repr_ok(),
    {
        self.format_string(before);
        self.output_newline();
        self.is_new_line = true;
        let indent: i64 = self.margin as i64 - width + offset as i64;
        // Don't indent more than max_indent.
        let real_indent: i64 = if self.max_indent as i64 <= indent {
            self.max_indent as i64
        } else {
            indent
        };
        self.current_indent = real_indent;
        self.space_left = self.margin as i64 - self.current_indent;
        let blanks: i32 = if real_indent > 0 {
            real_indent as i32
        } else {
            0
        };
        self.output_indent(blanks);
        self.format_string(after);
    }

    /// Forces a line break under a box of width `width`: no offset is
    /// added.
    fn break_line(&mut self, width: i64)
        requires
            roomy(old(self)@.cursor),
            -2 * reach() <= width <= 2 * reach(),
        ensures
            final(self)@ == (Layout {
                cursor: model::break_line(old(self)@.cursor, width as int),
                ..old(self)@
            }),
            old(self).repr_ok() ==> final(self).repr_ok(),
    {
        proof {
            reveal_strlit("");
            lemma_width_empty();
        }
        self.break_new_line("", 0, "", width)
    }

    /// Renders a break hint as spacing on the current line.
    fn break_same_line(&mut self, before: &str, width: i32, after: &str)
        requires
            roomy(old(self)@.cursor),
            0 <= width,
            text_width(before@) <= INFINITY,
            text_width(after@) <= INFINITY,
        ensures
            final(self)@ == (Layout {
                cursor: model::break_same_line(
                    old(self)@.cursor,
                    Triple { pre: before@, n: width as int, post: after@ },
                ),
                ..old(self)@
            }),
            old(self).repr_ok() ==> final(self).repr_ok(),
    {
        self.format_string(before);
        self.space_left = self.space_left - width as i64;
        self.output_spaces(width);
        self.format_string(after)
    }

    /// Breaks the line before a box that would open to the right of the
    /// largest indentation, if the box around it can break and has more room
    /// than the line has left.
    fn force_break_line(&mut self)
        requires
            roomy(old(self)@.cursor),
            forall|i: int|
                0 <= i < old(self)@.cursor.frames.len() ==> -2 * reach() <= (
                #[trigger] old(self)@.cursor.frames[i]).width <= 2 * reach(),
        ensures
            final(self)@ == (Layout {
                cursor: model::force_break_line(old(self)@.cursor),
                ..old(self)@
            }),
            old(self).repr_ok() ==> final(self).repr_ok(),
    {
        let n = self.format_stack.len();
        if n == 0 {
            self.output_newline()
        } else {
            let box_size = self.format_stack[n - 1].box_size;
            if box_size > self.space_left {
                match self.format_stack[n - 1].box_type {
                    PpBox::Fits() => {},
                    PpBox::Hbox() => {},
                    _ => self.break_line(box_size),
                }
            }
        }
    }

    /// Prints one token: text goes out, a box opening or closing moves
    /// the formatting pile, a break hint becomes spacing or a line break as
    /// the innermost box decides.
    fn format_pp_token(&mut self, token_id: usize)
        requires
            old(self).repr_ok(),
            token_id < old(self)@.tokens.len(),
            cursor_ok(old(self)@.cursor, old(self)@.left_total),
            1 <= old(self)@.left_total <= INFINITY,
            entry_ok(old(self)@.tokens[token_id as int]),
        ensures
            final(self)@ == (Layout {
                cursor: model::format_pp_token(
                    old(self)@.cursor,
                    old(self)@.tokens[token_id as int],
                ),
                ..old(self)@
            }),
            final(self).repr_ok(),
    {
        let size: i64 = self.size_of(token_id) as i64;
        let token = self.tokens[token_id].clone();
        match token {
            PpToken::Text(s) => self.format_pp_text(s.as_str(), size),
            PpToken::Begin(off, box_t) => {
                let insertion_point: i64 = self.margin as i64 - self.space_left;
                if insertion_point > self.max_indent as i64 {
                    // The box cannot open right there.
                    self.force_break_line()
                }
                let width: i64 = self.space_left - off as i64;
                let new_box_t = match box_t {
                    PpBox::Vbox() => PpBox::Vbox(),
                    other => {
                        if size > self.space_left {
                            other
                        } else {
                            PpBox::Fits()
                        }
                    },
                };
                self.format_stack.push(PpFormatT { box_type: new_box_t, box_size: width });
                assert(self@.cursor.frames =~= model::format_pp_token(
                    old(self)@.cursor,
                    old(self)@.tokens[token_id as int],
                ).frames);
            },
            PpToken::End() => {
                let _ = self.format_stack.pop();
                assert(self@.cursor.frames =~= model::format_pp_token(
                    old(self)@.cursor,
                    old(self)@.tokens[token_id as int],
                ).frames);
            },
            PpToken::Newline() => {
                match self.format_stack.pop() {
                    None => self.output_newline(),
                    Some(frame) => {
                        assert(self@.cursor.frames =~= old(self)@.cursor.frames.drop_last());
                        assert(old(self)@.cursor.frames[old(self)@.cursor.frames.len() - 1].width
                            == frame.box_size);
                        self.break_line(frame.box_size)
                    },
                }
            },
            PpToken::Break { fits, breaks } => {
                let n = self.format_stack.len();
                if n > 0 {
                    let width: i64 = self.format_stack[n - 1].box_size;
                    let before: i64 = fits.0.as_str().len() as i64;
                    let split = match self.format_stack[n - 1].box_type {
                        PpBox::Hbox() => false,
                        PpBox::Fits() => false,
                        PpBox::Vbox() => true,
                        PpBox::Hvbox() => true,
                        PpBox::Hovbox() => size + before > self.space_left,
                        PpBox::Box() => {
                            // Has the line just been broken here?
                            !self.is_new_line && (size + before > self.space_left
                                || self.current_indent > self.margin as i64 - width
                                + breaks.1 as i64)
                        },
                    };
                    if split {
                        self.break_new_line(breaks.0.as_str(), breaks.1, breaks.2.as_str(), width)
                    } else {
                        self.break_same_line(fits.0.as_str(), fits.1, fits.2.as_str())
                    }
                }
            },
        }
    }

    /// Stores a token with its length and size; its identity is returned.
    fn add_token(&mut self, token: PpToken, length: i32, size: i32) -> (id: usize)
        requires
            old(self).repr_ok(),
        ensures
            final(self).repr_ok(),
            final(self)@ == model::add_token(old(self)@, token@, length as int, size as int),
            id == old(self)@.tokens.len(),
    {
        self.tokens.push(token);
        let id = self.tokens.len() - 1;
        self.token_lengths.insert(id, length);
        self.token_sizes.insert(id, Size(size));
        assert(self@.tokens =~= old(self)@.tokens.push(
            Entry { tok: token@, length: length as int, size: size as int },
        ));
        id
    }

    /// The length on record for a stored token.
    fn length_of(&self, token_id: usize) -> (length: i32)
        requires
            self.repr_ok(),
            token_id < self@.tokens.len(),
        ensures
            length == self@.tokens[token_id as int].length,
    {
        *self.token_lengths.get(&token_id).unwrap()
    }

    /// The size on record for a stored token.
    fn size_of(&self, token_id: usize) -> (size: i32)
        requires
            self.repr_ok(),
            token_id < self@.tokens.len(),
        ensures
            size == self@.tokens[token_id as int].size,
    {
        self.token_sizes.get(&token_id).unwrap().0
    }

    /// Puts a new size on record for a stored token.
    fn resize(&mut self, token_id: usize, size: i32)
        requires
            old(self).repr_ok(),
            token_id < old(self)@.tokens.len(),
        ensures
            final(self).repr_ok(),
            final(self)@ == model::with_size(old(self)@, token_id as int, size as int),
    {
        self.token_sizes.insert(token_id, Size(size));
        assert(self.tokens@.len() == self.tokens.len());
        assert forall|i: int| 0 <= i < self@.tokens.len() implies self@.tokens[i]
            == model::with_size(old(self)@, token_id as int, size as int).tokens[i] by {}
        assert(self@.tokens =~= model::with_size(old(self)@, token_id as int, size as int).tokens);
    }

    /// Puts a stored token at the end of the queue and counts its length.
    fn enqueue(&mut self, token_id: usize)
        requires
            old(self).repr_ok(),
            token_id < old(self)@.tokens.len(),
            0 <= old(self)@.right_total + old(self)@.tokens[token_id as int].length <= INFINITY,
        ensures
            final(self).repr_ok(),
            final(self)@ == model::enqueue(old(self)@, token_id as int),
    {
        let length = self.length_of(token_id);
        self.right_total = self.right_total + length;
        self.queue.push_back(PpQueueT(token_id));
        assert(self@.queue =~= old(self)@.queue.push(token_id as int));
    }

    /// Empties the queue and sets both totals to one.
    fn clear_queue(&mut self)
        ensures
            final(self)@ == (Layout {
                left_total: 1,
                right_total: 1,
                queue: Seq::empty(),
                ..old(self)@
            }),
            old(self).repr_ok() ==> final(self).repr_ok(),
    {
        self.left_total = 1;
        self.right_total = 1;
        self.queue.clear();
        assert(self@.queue =~= Seq::<int>::empty());
    }

    /// Reduces the scanning pile to its sentinel: the pile is never empty.
    fn initialise_scan_stack(&mut self)
        requires
            old(self).repr_ok(),
        ensures
            final(self).repr_ok(),
            final(self)@ == model::initialise_scan_stack(old(self)@),
    {
        proof {
            reveal_strlit("");
        }
        assert(""@ =~= Seq::<char>::empty());
        self.scan_stack.clear();
        let token_idx = self.add_token(PpToken::Text("".to_string()), 0, -1);
        assert(self@.scan.len() == 0);
        self.scan_stack.push(PpScanT { token_idx, left_total: -1 });
        assert(self@.scan =~= model::initialise_scan_stack(old(self)@).scan);
    }

    /// Resolves the size of the token on top of the scanning pile: with
    /// `ty` the size of a break hint, without it the size of a box. A pile
    /// whose top was pushed before the last printed token is out of date
    /// and is reduced to its sentinel.
    fn set_size(&mut self, ty: bool)
        requires
            old(self).repr_ok(),
            inv(old(self)@),
        ensures
            final(self).repr_ok(),
            final(self)@ == model::set_size(old(self)@, ty),
            inv(final(self)@),
            balanced(old(self)@) ==> balanced(final(self)@),
    {
        proof {
            lemma_set_size(old(self)@, ty);
        }
        let n = self.scan_stack.len();
        if n == 0 {
            return ;
        }
        let left_total = self.scan_stack[n - 1].left_total;
        let token_id = self.scan_stack[n - 1].token_idx;
        if left_total < self.left_total {
            self.initialise_scan_stack();
            return ;
        }
        let resolves = match &self.tokens[token_id] {
            PpToken::Break { fits: _, breaks: _ } => ty,
            PpToken::Begin(_, _) => !ty,
            PpToken::Text(_) | PpToken::End() | PpToken::Newline() => false,
        };
        if resolves {
            let size = self.size_of(token_id);
            self.resize(token_id, size + self.right_total);
            let _ = self.scan_stack.pop();
            assert(self@.scan =~= old(self)@.scan.drop_last());
        }
    }

    /// Puts a token on the scanning pile; with `b`, the break hint before
    /// it is resolved first.
    fn scan_push(&mut self, b: bool, token_id: usize)
        requires
            old(self).repr_ok(),
            b ==> inv(old(self)@),
        ensures
            final(self).repr_ok(),
            final(self)@ == model::scan_push(old(self)@, b, token_id as int),
    {
        if b {
            self.set_size(true);
        }
        let scan_elem = PpScanT { left_total: self.right_total, token_idx: token_id };
        self.scan_stack.push(scan_elem);
        assert(self@.scan =~= model::scan_push(old(self)@, b, token_id as int).scan);
    }

    /// Prints from the head of the queue for as long as the size of the
    /// head is known, or the queue holds more than the line can take.
    fn advance_left(&mut self)
        requires
            old(self).repr_ok(),
            inv(old(self)@),
        ensures
            final(self).repr_ok(),
            final(self)@ == model::advance_left(old(self)@),
            inv(final(self)@),
            balanced(old(self)@) ==> balanced(final(self)@),
    {
        loop
            invariant
                self.repr_ok(),
                inv(self@),
                model::advance_left(self@) == model::advance_left(old(self)@),
                balanced(old(self)@) ==> balanced(self@),
            ensures
                !model::head_ready(self@),
            decreases self@.queue.len(),
        {
            if self.queue.len() == 0 {
                break ;
            }
            let token_id = self.queue[0].0;
            let size = self.size_of(token_id);
            let length = self.length_of(token_id);
            let pending_count = self.right_total - self.left_total;
            if !(size >= 0 || pending_count as i64 >= self.space_left) {
                break ;
            }
            proof {
                lemma_advance_one(self@);
            }
            let ghost before = self@;
            let _ = self.queue.pop_front();
            assert(self@.queue =~= before.queue.drop_first());
            if size < 0 {
                self.resize(token_id, INFINITY);
            }
            assert(self@.tokens =~= model::advance_one(before).tokens);
            self.format_pp_token(token_id);
            self.left_total = self.left_total + length;
        }
    }

    /// Queues a stored token and prints what is ready.
    fn enqueue_advance(&mut self, token_id: usize)
        requires
            old(self).repr_ok(),
            inv(old(self)@),
            token_id < old(self)@.tokens.len(),
            old(self)@.right_total + old(self)@.tokens[token_id as int].length <= INFINITY,
            old(self)@.tokens[token_id as int].tok is Text ==> old(self)@.tokens[token_id as int].size
                == old(self)@.tokens[token_id as int].length,
        ensures
            final(self).repr_ok(),
            final(self)@ == model::enqueue_advance(old(self)@, token_id as int),
            inv(final(self)@),
            balanced(old(self)@) ==> balanced(final(self)@),
    {
        proof {
            lemma_enqueue(self@, token_id as int);
        }
        self.enqueue(token_id);
        self.advance_left()
    }

    /// Stores and queues text of declared width `size`, and prints what is
    /// ready.
    fn enqueue_string_as(&mut self, s: String, size: i32)
        requires
            old(self).repr_ok(),
            inv(old(self)@),
            0 <= size,
            old(self)@.right_total + size <= INFINITY,
        ensures
            final(self).repr_ok(),
            final(self)@ == model::enqueue_string_as(old(self)@, s@, size as int),
            inv(final(self)@),
            balanced(old(self)@) ==> balanced(final(self)@),
    {
        proof {
            lemma_add_token(self@, Tok::Text(s@), size as int, size as int);
        }
        let token = PpToken::Text(s);
        let token_idx = self.add_token(token, size, size);
        self.enqueue_advance(token_idx)
    }

    /// Opens a box of the given flavor: counts it, and below the depth limit
    /// queues its opening; at the limit prints the ellipsis in its place.
    fn open_box_gen(&mut self, indent: i32, br_ty: PpBox)
        requires
            old(self).repr_ok(),
            inv(old(self)@),
            0 <= indent,
            model::can_open(old(self)@),
        ensures
            final(self).repr_ok(),
            final(self)@ == model::open_box_gen(old(self)@, indent as int, br_ty),
            inv(final(self)@),
            balanced(old(self)@) ==> balanced(final(self)@),
    {
        proof {
            lemma_open_box_gen(self@, indent as int, br_ty);
        }
        self.curr_depth = self.curr_depth + 1;
        if self.curr_depth < self.max_boxes {
            let size = -self.right_total;
            let token = PpToken::Begin(indent, br_ty);
            proof {
                lemma_add_token(self@, token@, 0, size as int);
                lemma_token_off_pile(self@, token@, 0, size as int);
            }
            let token_idx = self.add_token(token, 0, size);
            proof {
                lemma_scan_push(self@, false, token_idx as int);
            }
            self.scan_push(false, token_idx);
            self.enqueue_advance(token_idx);
        } else if self.curr_depth == self.max_boxes {
            proof {
                reveal_strlit(".");
            }
            assert("."@ =~= model::ellipsis());
            self.enqueue_string_as(".".to_string(), 1);
        }
    }

    /// Opens the root box. Nothing is printed yet.
    fn open_sys_box(&mut self)
        requires
            old(self).repr_ok(),
            old(self)@.curr_depth < i32::MAX,
            1 <= old(self)@.right_total <= INFINITY,
        ensures
            final(self).repr_ok(),
            final(self)@ == model::open_sys_box(old(self)@),
    {
        self.curr_depth = self.curr_depth + 1;
        let size = -self.right_total;
        let token_idx = self.add_token(PpToken::Begin(0, PpBox::Hovbox()), 0, size);
        self.scan_push(false, token_idx);
        self.enqueue(token_idx);
    }

    /// Closes the innermost box. With only the root box open nothing
    /// happens; a box that was not opened because of the depth limit is
    /// only counted.
    pub fn close_box(&mut self)
        requires
            old(self).wf(),
        ensures
            final(self).wf(),
            final(self)@ == model::close_box(old(self)@),
    {
        proof {
            lemma_close_box(self@);
        }
        if self.curr_depth > 1 {
            if self.curr_depth < self.max_boxes {
                proof {
                    lemma_add_token(self@, Tok::End, 0, 0);
                    lemma_token_off_pile(self@, Tok::End, 0, 0);
                }
                let token_idx = self.add_token(PpToken::End(), 0, 0);
                let ghost m2 = self@;
                self.set_size(true);
                let ghost m3 = self@;
                self.set_size(false);
                proof {
                    lemma_set_size(m2, true);
                    lemma_set_size_keeps(m2, true, token_idx as int);
                    lemma_set_size(m3, false);
                    lemma_set_size_keeps(m3, false, token_idx as int);
                }
                self.enqueue_advance(token_idx);
            }
            self.curr_depth = self.curr_depth - 1;
        }
    }

    /// Forgets the tokens, empties the queue and the piles, puts the cursor
    /// at the start of a line and opens the root box again. The settings,
    /// the output and the memory of a line just broken stay.
    fn rinit(&mut self)
        requires
            0 <= old(self)@.cursor.margin <= INFINITY,
            old(self)@.max_boxes > 1,
        ensures
            final(self).wf(),
            final(self)@ == model::rinit(old(self)@),
            model::at_rest(final(self)@),
    {
        proof {
            lemma_fresh(
                self@.cursor.margin,
                self@.min_space_left,
                self@.cursor.max_indent,
                self@.max_boxes,
                self@.cursor.is_new_line,
                self@.cursor.out,
            );
        }
        self.clear_queue();
        self.tokens.clear();
        self.token_lengths.clear();
        self.token_sizes.clear();
        self.format_stack.clear();
        self.current_indent = 0;
        self.curr_depth = 0;
        self.space_left = self.margin as i64;
        assert(self@.tokens =~= Seq::<Entry>::empty());
        assert(self@.cursor.frames =~= Seq::<Frame>::empty());
        self.initialise_scan_stack();
        self.open_sys_box();
    }

    /// Closes the boxes that are open, prints all that is queued, ends the
    /// line if asked to, and starts afresh.
    fn flush_queue(&mut self, end_with_newline: bool)
        requires
            old(self).wf(),
        ensures
            final(self).wf(),
            final(self)@ == model::flush_queue(old(self)@, end_with_newline),
            model::at_rest(final(self)@),
            tame(old(self)@.cursor) && old(self)@.right_total + old(self)@.cursor.margin
                <= INFINITY ==> model::drained(old(self)@).queue.len() == 0,
    {
        proof {
            if tame(self@.cursor) && self@.right_total + self@.cursor.margin <= INFINITY {
                law_flush_prints_the_whole_queue(self@);
            }
        }
        while self.curr_depth > 1
            invariant
                self.wf(),
                model::close_boxes(self@, model::user_boxes(self@)) == model::close_boxes(
                    old(self)@,
                    model::user_boxes(old(self)@),
                ),
            decreases self@.curr_depth,
        {
            proof {
                lemma_close_box(self@);
            }
            self.close_box();
        }
        self.right_total = INFINITY;
        self.advance_left();
        if end_with_newline {
            self.output_newline();
        }
        self.rinit();
    }

    /// Prints text of declared width `size`, below the depth limit.
    fn print_as_size(&mut self, s: String, size: usize)
        requires
            old(self).wf(),
            model::accepts(old(self)@) ==> model::has_room(old(self)@, size as int),
        ensures
            final(self).wf(),
            final(self)@ == model::print_as(old(self)@, s@, size as int),
    {
        if self.curr_depth < self.max_boxes {
            self.enqueue_string_as(s, size as i32);
        }
    }

    /// Prints `s` as text that takes `size` columns, whatever its length.
    /// Above the depth limit the text is dropped.
    pub fn print_as(&mut self, s: String, size: usize)
        requires
            old(self).wf(),
            model::accepts(old(self)@) ==> model::has_room(old(self)@, size as int),
        ensures
            final(self).wf(),
            final(self)@ == model::print_as(old(self)@, s@, size as int),
    {
        self.print_as_size(s, size)
    }

    /// Prints `s` as text that takes as many columns as it has bytes.
    pub fn print_string(&mut self, s: &str)
        requires
            old(self).wf(),
            model::accepts(old(self)@) ==> model::has_room(old(self)@, text_width(s@)),
        ensures
            final(self).wf(),
            final(self)@ == model::print_string(old(self)@, s@),
    {
        self.print_as(s.to_string(), s.len());
    }

    /// Opens a horizontal box.
    pub fn open_hbox(&mut self)
        requires
            old(self).wf(),
            model::can_open(old(self)@),
        ensures
            final(self).wf(),
            final(self)@ == model::open_box_gen(old(self)@, 0, PpBox::Hbox()),
    {
        self.open_box_gen(0, PpBox::Hbox())
    }

    /// Opens a vertical box with the given indentation.
    pub fn open_vbox(&mut self, indent: usize)
        requires
            old(self).wf(),
            model::can_open(old(self)@),
            indent <= i32::MAX,
        ensures
            final(self).wf(),
            final(self)@ == model::open_box_gen(old(self)@, indent as int, PpBox::Vbox()),
    {
        self.open_box_gen(indent as i32, PpBox::Vbox())
    }

    /// Opens a horizontal/vertical box with the given indentation.
    pub fn open_hvbox(&mut self, indent: usize)
        requires
            old(self).wf(),
            model::can_open(old(self)@),
            indent <= i32::MAX,
        ensures
            final(self).wf(),
            final(self)@ == model::open_box_gen(old(self)@, indent as int, PpBox::Hvbox()),
    {
        self.open_box_gen(indent as i32, PpBox::Hvbox())
    }

    /// Opens a horizontal-or-vertical box with the given indentation.
    pub fn open_hovbox(&mut self, indent: usize)
        requires
            old(self).wf(),
            model::can_open(old(self)@),
            indent <= i32::MAX,
        ensures
            final(self).wf(),
            final(self)@ == model::open_box_gen(old(self)@, indent as int, PpBox::Hovbox()),
    {
        self.open_box_gen(indent as i32, PpBox::Hovbox())
    }

    /// Opens a compacting box with the given indentation.
    pub fn open_box(&mut self, indent: usize)
        requires
            old(self).wf(),
            model::can_open(old(self)@),
            indent <= i32::MAX,
        ensures
            final(self).wf(),
            final(self)@ == model::open_box_gen(old(self)@, indent as int, PpBox::Box()),
    {
        self.open_box_gen(indent as i32, PpBox::Box())
    }

    /// Closes the boxes that are open, prints all that is pending, ends the
    /// line, and starts afresh: the printer comes to rest. All of the queue
    /// is printed where the line is tame and there is room for one more
    /// line below `INFINITY`.
    pub fn print_newline(&mut self)
        requires
            old(self).wf(),
        ensures
            final(self).wf(),
            final(self)@ == model::print_newline(old(self)@),
            model::at_rest(final(self)@),
            tame(old(self)@.cursor) && old(self)@.right_total + old(self)@.cursor.margin
                <= INFINITY ==> model::drained(old(self)@).queue.len() == 0,
    {
        self.flush_queue(true);
    }

    /// Closes the boxes that are open, prints all that is pending and
    /// starts afresh: the printer comes to rest. All of the queue is printed
    /// where the line is tame and there is room for one more line below
    /// `INFINITY`.
    pub fn print_flush(&mut self)
        requires
            old(self).wf(),
        ensures
            final(self).wf(),
            final(self)@ == model::print_flush(old(self)@),
            model::at_rest(final(self)@),
            tame(old(self)@.cursor) && old(self)@.right_total + old(self)@.cursor.margin
                <= INFINITY ==> model::drained(old(self)@).queue.len() == 0,
    {
        self.flush_queue(false);
    }

    /// Prints a break hint with its two renderings: `fits` when the line is
    /// not split there, `breaks` when it is. Above the depth limit the hint
    /// is dropped.
    pub fn print_custom_break(&mut self, fits: (String, i32, String), breaks: (String, i32, String))
        requires
            old(self).wf(),
            0 <= fits.1,
            0 <= breaks.1,
            text_width(breaks.0@) <= INFINITY,
            text_width(breaks.2@) <= INFINITY,
            model::accepts(old(self)@) ==> model::has_room(
                old(self)@,
                model::break_length(triple_view(fits)),
            ),
        ensures
            final(self).wf(),
            final(self)@ == model::print_custom_break(
                old(self)@,
                triple_view(fits),
                triple_view(breaks),
            ),
    {
        proof {
            lemma_print_custom_break(self@, triple_view(fits), triple_view(breaks));
        }
        if self.curr_depth < self.max_boxes {
            let tok_len: i32 = fits.0.as_str().len() as i32 + fits.1 + fits.2.as_str().len() as i32;
            let size = -self.right_total;
            let token = PpToken::Break { fits, breaks };
            proof {
                lemma_add_token(self@, token@, tok_len as int, size as int);
                lemma_token_off_pile(self@, token@, tok_len as int, size as int);
            }
            let token_idx = self.add_token(token, tok_len, size);
            proof {
                lemma_scan_push(self@, true, token_idx as int);
            }
            self.scan_push(true, token_idx);
            self.enqueue_advance(token_idx);
        }
    }

    /// Prints a break hint: `width` blanks when the line is not split
    /// there, a new line indented by `offset` more than the box when it is.
    pub fn print_break(&mut self, width: usize, offset: usize)
        requires
            old(self).wf(),
            offset <= i32::MAX,
            model::accepts(old(self)@) ==> model::has_room(old(self)@, width as int),
        ensures
            final(self).wf(),
            final(self)@ == model::print_break(old(self)@, width as int, offset as int),
    {
        proof {
            reveal_strlit("");
            lemma_width_empty();
        }
        assert(""@ =~= Seq::<char>::empty());
        if self.curr_depth < self.max_boxes {
            self.print_custom_break(
                ("".to_string(), width as i32, "".to_string()),
                ("".to_string(), offset as i32, "".to_string()),
            )
        }
    }

    /// Prints a break hint that is one blank or a new line.
    pub fn print_space(&mut self)
        requires
            old(self).wf(),
            model::accepts(old(self)@) ==> model::has_room(old(self)@, 1),
        ensures
            final(self).wf(),
            final(self)@ == model::print_space(old(self)@),
    {
        self.print_break(1, 0);
    }

    /// Prints a break hint that is nothing or a new line.
    pub fn print_cut(&mut self)
        requires
            old(self).wf(),
        ensures
            final(self).wf(),
            final(self)@ == model::print_cut(old(self)@),
    {
        self.print_break(0, 0);
    }

    /// Sets the depth from which boxes are no longer opened. A limit of one
    /// or less is not taken.
    pub fn set_max_boxes(&mut self, n: usize)
        requires
            old(self).wf(),
            n <= i32::MAX,
        ensures
            final(self).wf(),
            final(self)@ == model::set_max_boxes(old(self)@, n as int),
    {
        if n > 1 {
            self.max_boxes = n as i32;
        }
    }

    /// Sets the right margin; a margin beyond `INFINITY` is `INFINITY`.
    /// The line being printed keeps the room it had.
    pub fn set_margin(&mut self, n: usize)
        requires
            old(self).wf(),
        ensures
            final(self).wf(),
            final(self)@ == model::set_margin(old(self)@, n as int),
    {
        if n < INFINITY as usize {
            self.margin = n as i32;
        } else {
            self.margin = INFINITY;
        }
    }

    /// A printer with the given right margin, room to keep before the
    /// margin, largest indentation and depth limit. Its buffer is empty and
    /// only the root box is open.
    pub fn new(margin: i32, min_space_left: i32, max_indent: i32, max_boxes: i32) -> (printer: Self)
        requires
            0 <= margin <= INFINITY,
            max_boxes > 1,
        ensures
            printer.wf(),
            printer@ == model::fresh(
                margin as int,
                min_space_left as int,
                max_indent as int,
                max_boxes as int,
                true,
                Seq::empty(),
            ),
            model::at_rest(printer@),
    {
        let mut f = BufPrinter {
            tokens: Vec::new(),
            token_lengths: HashMap::new(),
            token_sizes: HashMap::new(),
            scan_stack: Vec::new(),
            format_stack: Vec::new(),
            queue: VecDeque::new(),
            margin,
            min_space_left,
            max_indent,
            space_left: margin as i64,
            current_indent: 0,
            is_new_line: true,
            left_total: 1,
            right_total: 1,
            curr_depth: 1,
            max_boxes,
            out_buf: String::new(),
        };
        f.rinit();
        f
    }

    /// Runs `func` on the printer with `args`.
    pub fn fprintf<Func, Args>(&mut self, func: Func, args: Args) where
        Func: Fn(&mut BufPrinter, Args),

        requires
            forall|p: &mut BufPrinter| *p == *old(self) ==> call_requires(func, (p, args)),
        ensures
            exists|p: &mut BufPrinter|
                *p == *old(self) && *final(p) == *final(self) && call_ensures(func, (p, args), ()),
    {
        func(self, args);
    }
}

} // verus!

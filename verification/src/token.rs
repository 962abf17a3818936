//! Tokens of the layout stream: boxes, text, break hints, and the small
//! records that the queue and the two piles hold.

use vstd::prelude::*;

verus! {

/// Stands for a width that is not known, or for "no right margin". It is
/// larger than any sum of widths the engine accepts between two flushes.
pub const INFINITY: i32 = 1000000010;

/// The width of a token or of a run of tokens. A negative value is a
/// placeholder for a width that is still to be resolved.
#[derive(PartialEq, Eq, PartialOrd, Ord, Debug)]
pub struct Size(pub i32);

impl Clone for Size {
    fn clone(&self) -> (copy: Self)
        ensures
            copy == *self,
    {
        Size(self.0)
    }
}

impl Size {
    /// Whether the width has been resolved.
    pub fn is_known(&self) -> (known: bool)
        ensures
            known == (self.0 >= 0),
    {
        self.0 >= 0
    }
}

/// The flavors of pretty-printing boxes. They differ in how a break hint
/// inside the box is rendered.
///
/// - `Hbox`: horizontal, no hint splits the line.
/// - `Vbox`: vertical, every hint splits the line.
/// - `Hvbox`: horizontal if the whole box fits on the line, else vertical.
/// - `Hovbox`: packs as much as possible on every line.
/// - `Box`: as `Hovbox`, and a hint also splits the line when that moves
///   the text back towards the opening column of the box.
/// - `Fits`: given to a box whose whole content fits on the current line.
#[derive(Debug)]
pub enum PpBox {
    Hbox(),
    Vbox(),
    Hvbox(),
    Hovbox(),
    Box(),
    Fits(),
}

impl Clone for PpBox {
    fn clone(&self) -> (copy: Self)
        ensures
            copy == *self,
    {
        match self {
            PpBox::Hbox() => PpBox::Hbox(),
            PpBox::Vbox() => PpBox::Vbox(),
            PpBox::Hvbox() => PpBox::Hvbox(),
            PpBox::Hovbox() => PpBox::Hovbox(),
            PpBox::Box() => PpBox::Box(),
            PpBox::Fits() => PpBox::Fits(),
        }
    }
}

/// The columns that a string takes: its length in bytes, as `str::len`
/// reports it.
pub open spec fn text_width(s: Seq<char>) -> int {
    (vstd::utf8::encode_utf8(s).len() as usize) as int
}

/// One rendering of a break hint: the text before, a count of columns, the
/// text after. As inline spacing the count is a run of blanks; as a line
/// break it is added to the indentation of the next line.
pub struct Triple {
    pub pre: Seq<char>,
    pub n: int,
    pub post: Seq<char>,
}

/// A token as the contracts see it.
pub enum Tok {
    Text(Seq<char>),
    Break { fits: Triple, breaks: Triple },
    Begin(int, PpBox),
    End,
    Newline,
}

/// A layout token.
#[derive(Debug)]
pub enum PpToken {
    /// Literal text.
    Text(String),
    /// A break hint with its two renderings.
    Break {
        /// Used when the line is not split.
        fits: (String, i32, String),
        /// Used when the line is split.
        breaks: (String, i32, String),
    },
    /// Opens a box with an indentation offset.
    Begin(i32, PpBox),
    /// Closes the innermost box.
    End(),
    /// Ends the line unconditionally.
    Newline(),
}

/// The view of one rendering of a break hint.
pub open spec fn triple_view(t: (String, i32, String)) -> Triple {
    Triple { pre: t.0@, n: t.1 as int, post: t.2@ }
}

impl View for PpToken {
    type V = Tok;

    open spec fn view(&self) -> Tok {
        match *self {
            PpToken::Text(s) => Tok::Text(s@),
            PpToken::Break { fits, breaks } => Tok::Break {
                fits: triple_view(fits),
                breaks: triple_view(breaks),
            },
            PpToken::Begin(off, kind) => Tok::Begin(off as int, kind),
            PpToken::End() => Tok::End,
            PpToken::Newline() => Tok::Newline,
        }
    }
}

impl Clone for PpToken {
    fn clone(&self) -> (copy: Self)
        ensures
            copy@ == self@,
    {
        match self {
            PpToken::Text(s) => PpToken::Text(s.clone()),
            PpToken::Break { fits, breaks } => PpToken::Break {
                fits: (fits.0.clone(), fits.1, fits.2.clone()),
                breaks: (breaks.0.clone(), breaks.1, breaks.2.clone()),
            },
            PpToken::Begin(off, kind) => PpToken::Begin(*off, kind.clone()),
            PpToken::End() => PpToken::End(),
            PpToken::Newline() => PpToken::Newline(),
        }
    }
}

/// The columns of the text that a token carries; none but for text.
pub open spec fn carried_width(tok: Tok) -> int {
    match tok {
        Tok::Text(s) => text_width(s),
        _ => 0,
    }
}

impl PpToken {
    /// The length in bytes of the text that the token carries.
    pub fn len(&self) -> (n: usize)
        ensures
            n == carried_width(self@),
    {
        match self {
            PpToken::Text(s) => s.as_str().len(),
            _ => 0,
        }
    }

    /// The same length as a signed number, for a text that is no longer
    /// than such a number can say.
    pub fn len_i32(&self) -> (n: i32)
        requires
            carried_width(self@) <= i32::MAX,
        ensures
            n == carried_width(self@),
    {
        self.len() as i32
    }

    /// The size that the token has of itself: the length of its text.
    pub fn size_i32(&self) -> (n: i32)
        requires
            carried_width(self@) <= i32::MAX,
        ensures
            n == carried_width(self@),
    {
        self.len_i32()
    }
}

/// An element of the pending queue: the identity of a token.
#[derive(Debug)]
pub struct PpQueueT(pub usize);

impl Clone for PpQueueT {
    fn clone(&self) -> (copy: Self)
        ensures
            copy == *self,
    {
        PpQueueT(self.0)
    }
}

/// An element of the scanning pile: a box opening or a break hint whose
/// size is not resolved yet.
#[derive(Debug)]
pub struct PpScanT {
    /// The total enqueued width when the element was pushed.
    pub left_total: i32,
    /// The identity of the token.
    pub token_idx: usize,
}

/// An element of the formatting pile: a box that is being printed.
#[derive(Debug)]
pub struct PpFormatT {
    /// The flavor decided when the box was opened.
    pub box_type: PpBox,
    /// The columns that were left on the line when the box was opened,
    /// less the offset of the box.
    pub box_size: i64,
}

} // verus!

//! One segment of a format template: what it shows and how it is cut and
//! placed in its column.

use vstd::prelude::*;
use crate::decimal::{parse_i32, parse_unsigned, signed_decimal, unsigned_decimal};
use crate::text::{chars_of, find_char, first_index, is_word, lowered, slice_of};

verus! {

/// The length a mask keeps when its placeholder names none, a zero, or
/// something that is no number.
pub const DEFAULT_LENGTH: i32 = 30;

/// The column width of a mask whose placeholder names none, or something
/// that is no number.
pub const DEFAULT_WIDTH: usize = 30;

/// Where a value stands in a column wider than itself.
#[derive(Clone, Copy, Debug, PartialEq, Eq, Structural)]
pub enum TextAlign {
    Left,
    Center,
    Right,
}

/// What a segment shows.
#[derive(Clone, Debug)]
pub enum MaskType {
    /// Literal text, shown as it is.
    Raw(String),
    Timestamp,
    Message,
    Splitter,
    Modules,
}

/// `MaskType` over plain characters.
pub enum MaskKind {
    Raw(Seq<char>),
    Timestamp,
    Message,
    Splitter,
    Modules,
}

impl View for MaskType {
    type V = MaskKind;

    open spec fn view(&self) -> MaskKind {
        match self {
            MaskType::Raw(text) => MaskKind::Raw(text@),
            MaskType::Timestamp => MaskKind::Timestamp,
            MaskType::Message => MaskKind::Message,
            MaskType::Splitter => MaskKind::Splitter,
            MaskType::Modules => MaskKind::Modules,
        }
    }
}

/// One compiled segment of a template.
#[derive(Clone, Debug)]
pub struct FormatMask {
    pub mask_type: MaskType,
    /// Positive: the number of leading characters kept. Otherwise: the
    /// number of trailing characters dropped.
    pub length: i32,
    /// The width of the column.
    pub width: usize,
    pub align: TextAlign,
}

/// `FormatMask` over plain values.
pub struct MaskView {
    pub kind: MaskKind,
    pub length: int,
    pub width: nat,
    pub align: TextAlign,
}

impl View for FormatMask {
    type V = MaskView;

    open spec fn view(&self) -> MaskView {
        MaskView {
            kind: self.mask_type@,
            length: self.length as int,
            width: self.width as nat,
            align: self.align,
        }
    }
}

/// The alignment that `name` asks for: `left`, `right` or `center` in any
/// mix of upper and lower case, and `Center` for anything else.
pub open spec fn align_of(name: Seq<char>) -> TextAlign {
    if lowered(name) == "left"@ {
        TextAlign::Left
    } else if lowered(name) == "right"@ {
        TextAlign::Right
    } else {
        TextAlign::Center
    }
}

/// What a placeholder of the given name shows. The four field names are
/// matched in any mix of upper and lower case; any other name stands for
/// itself as literal text.
pub open spec fn kind_of(name: Seq<char>) -> MaskKind {
    if lowered(name) == "timestamp"@ {
        MaskKind::Timestamp
    } else if lowered(name) == "splitter"@ {
        MaskKind::Splitter
    } else if lowered(name) == "modules"@ {
        MaskKind::Modules
    } else if lowered(name) == "message"@ {
        MaskKind::Message
    } else {
        MaskKind::Raw(name)
    }
}

/// The text of `s` before its first `:`, all of `s` if it has none.
pub open spec fn head_field(s: Seq<char>) -> Seq<char> {
    s.take(first_index(s, ':'))
}

/// What follows the first `:` of `s`, if `s` has one.
pub open spec fn after_head(s: Seq<char>) -> Option<Seq<char>> {
    if first_index(s, ':') < s.len() {
        Some(s.skip(first_index(s, ':') + 1))
    } else {
        None
    }
}

/// The length that the field `f` gives: the number it writes, unless it
/// writes none that an `i32` holds, or zero.
pub open spec fn length_of(f: Seq<char>) -> int {
    match signed_decimal(f, i32::MIN as int, i32::MAX as int) {
        Some(n) => if n != 0 {
            n
        } else {
            DEFAULT_LENGTH as int
        },
        None => DEFAULT_LENGTH as int,
    }
}

/// The width that the field `f` gives: the number it writes, unless it
/// writes none that a `usize` holds.
pub open spec fn width_of(f: Seq<char>) -> nat {
    match unsigned_decimal(f, usize::MAX as int) {
        Some(n) => n as nat,
        None => DEFAULT_WIDTH as nat,
    }
}

/// The mask that stands for literal text.
pub open spec fn literal_mask(text: Seq<char>) -> MaskView {
    MaskView {
        kind: MaskKind::Raw(text),
        length: DEFAULT_LENGTH as int,
        width: DEFAULT_WIDTH as nat,
        align: TextAlign::Center,
    }
}

/// The mask that the content of a placeholder describes. The content is
/// `name`, `name:length`, `name:length:width` or `name:length:width:align`;
/// whatever follows the third `:` is the alignment. A field that is missing
/// or does not read as a number takes its default.
pub open spec fn placeholder_mask(content: Seq<char>) -> MaskView {
    let after_name = after_head(content);
    let after_length = match after_name {
        Some(r) => after_head(r),
        None => None,
    };
    let after_width = match after_length {
        Some(r) => after_head(r),
        None => None,
    };
    MaskView {
        kind: kind_of(head_field(content)),
        length: match after_name {
            Some(r) => length_of(head_field(r)),
            None => DEFAULT_LENGTH as int,
        },
        width: match after_length {
            Some(r) => width_of(head_field(r)),
            None => DEFAULT_WIDTH as nat,
        },
        align: match after_width {
            Some(r) => align_of(r),
            None => TextAlign::Center,
        },
    }
}

impl TextAlign {
    /// Reads an alignment by its name.
    pub fn from(value: &str) -> (r: TextAlign)
        ensures
            r == align_of(value@),
    {
        if is_word(value, "left") {
            TextAlign::Left
        } else if is_word(value, "right") {
            TextAlign::Right
        } else {
            TextAlign::Center
        }
    }
}

impl MaskType {
    /// Reads what a placeholder shows from its name.
    pub fn from(value: &str) -> (r: MaskType)
        ensures
            r@ == kind_of(value@),
    {
        if is_word(value, "timestamp") {
            MaskType::Timestamp
        } else if is_word(value, "splitter") {
            MaskType::Splitter
        } else if is_word(value, "modules") {
            MaskType::Modules
        } else if is_word(value, "message") {
            MaskType::Message
        } else {
            MaskType::Raw(value.to_owned())
        }
    }
}

/// Reads a length field.
fn length_from(f: &str) -> (r: i32)
    ensures
        r == length_of(f@),
{
    match parse_i32(f) {
        Some(n) => if n != 0 {
            n
        } else {
            DEFAULT_LENGTH
        },
        None => DEFAULT_LENGTH,
    }
}

/// Reads a width field.
fn width_from(f: &str) -> (r: usize)
    ensures
        r == width_of(f@),
{
    match parse_unsigned(f, usize::MAX as u64) {
        Some(n) => n as usize,
        None => DEFAULT_WIDTH,
    }
}

impl FormatMask {
    /// The mask that shows `text` as it is.
    pub fn literal(text: String) -> (r: FormatMask)
        ensures
            r@ == literal_mask(text@),
    {
        FormatMask {
            mask_type: MaskType::Raw(text),
            length: DEFAULT_LENGTH,
            width: DEFAULT_WIDTH,
            align: TextAlign::Center,
        }
    }

    /// Compiles the content of one placeholder, the text between `{` and
    /// `}`.
    pub fn from(value: &str) -> (r: FormatMask)
        ensures
            r@ == placeholder_mask(value@),
    {
        let v = chars_of(value);
        let n = v.len();
        let ghost s = value@;
        proof {
            assert(v@.skip(0) =~= s);
        }
        let c1 = find_char(&v, 0, ':');
        proof {
            assert(s.subrange(0, c1 as int) =~= head_field(s));
        }
        let mask_type = MaskType::from(slice_of(value, 0, c1).as_str());
        let mut length: i32 = DEFAULT_LENGTH;
        let mut width: usize = DEFAULT_WIDTH;
        let mut align = TextAlign::Center;
        if c1 < n {
            let ghost r1 = s.skip(c1 + 1);
            let c2 = find_char(&v, c1 + 1, ':');
            proof {
                assert(after_head(s) == Some(r1));
                assert(s.subrange(c1 + 1, c2 as int) =~= head_field(r1));
            }
            length = length_from(slice_of(value, c1 + 1, c2).as_str());
            if c2 < n {
                let ghost r2 = s.skip(c2 + 1);
                let c3 = find_char(&v, c2 + 1, ':');
                proof {
                    assert(r1.skip(first_index(r1, ':') + 1) =~= r2);
                    assert(after_head(r1) == Some(r2));
                    assert(s.subrange(c2 + 1, c3 as int) =~= head_field(r2));
                }
                width = width_from(slice_of(value, c2 + 1, c3).as_str());
                if c3 < n {
                    let ghost r3 = s.skip(c3 + 1);
                    proof {
                        assert(r2.skip(first_index(r2, ':') + 1) =~= r3);
                        assert(after_head(r2) == Some(r3));
                        assert(s.subrange(c3 + 1, n as int) =~= r3);
                    }
                    align = TextAlign::from(slice_of(value, c3 + 1, n).as_str());
                }
            }
        }
        FormatMask { mask_type, length, width, align }
    }
}

} // verus!

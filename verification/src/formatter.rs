//! The message formatter: a template compiled into masks, and the rendering
//! of one message through them.

use vstd::prelude::*;
use vstd::string::StringExecFns;
use vstd::string::StrSliceExecFns;
use crate::clock::{chrono_text, moment_text, Moment};
use crate::mask::{
    literal_mask, placeholder_mask, FormatMask, MaskKind, MaskType, MaskView, TextAlign,
};
use crate::message::{Message, MessageView};
use crate::template::template_masks;
use crate::text::{
    append_spaces, chars_of, find_char, join, joined, lemma_first_index, slice_of, spaces,
};

verus! {

/// The masks of `v`, each over plain values.
pub open spec fn masks_of(v: Seq<FormatMask>) -> Seq<MaskView> {
    Seq::new(v.len(), |i: int| v[i]@)
}

/// The length policy. A positive `length` keeps that many leading
/// characters, all of `v` where it has fewer. Any other `length` drops `-length`
/// trailing characters, all of `v` where it has fewer.
pub open spec fn kept_by_length(v: Seq<char>, length: int) -> Seq<char> {
    if length > 0 {
        if length < v.len() {
            v.take(length)
        } else {
            v
        }
    } else {
        if -length < v.len() {
            v.take(v.len() + length)
        } else {
            Seq::empty()
        }
    }
}

/// The number of spaces in front of a value that leaves `free` places of
/// its column empty.
pub open spec fn left_padding(free: nat, align: TextAlign) -> nat {
    match align {
        TextAlign::Left => 0,
        TextAlign::Center => free / 2,
        TextAlign::Right => free,
    }
}

/// The width and alignment policy. A value of at least `width` characters is
/// cut to its first `width`; a shorter one is filled with spaces to `width`,
/// placed as `align` says.
pub open spec fn fitted_to_width(v: Seq<char>, width: nat, align: TextAlign) -> Seq<char> {
    if v.len() >= width {
        v.take(width as int)
    } else {
        let free = (width - v.len()) as nat;
        let left = left_padding(free, align);
        spaces(left) + v + spaces((free - left) as nat)
    }
}

/// A value in the column of `mask`: cut by the length policy, then fitted
/// to the width.
pub open spec fn column(v: Seq<char>, mask: MaskView) -> Seq<char> {
    fitted_to_width(kept_by_length(v, mask.length), mask.width, mask.align)
}

/// What one mask contributes to the line.
pub open spec fn rendered_mask(
    mask: MaskView,
    splitter: Seq<char>,
    timestamp: Seq<char>,
    message: MessageView,
) -> Seq<char> {
    match mask.kind {
        MaskKind::Raw(text) => text,
        MaskKind::Splitter => splitter,
        MaskKind::Timestamp => column(timestamp, mask),
        MaskKind::Message => column(message.text, mask),
        MaskKind::Modules => column(joined(message.modules, splitter), mask),
    }
}

/// The line: what the masks contribute, in their order.
pub open spec fn rendered(
    masks: Seq<MaskView>,
    splitter: Seq<char>,
    timestamp: Seq<char>,
    message: MessageView,
) -> Seq<char>
    decreases masks.len(),
{
    if masks.len() == 0 {
        Seq::empty()
    } else {
        rendered(masks.drop_last(), splitter, timestamp, message) + rendered_mask(
            masks.last(),
            splitter,
            timestamp,
            message,
        )
    }
}

/// A fitted value is exactly as wide as its column.
pub proof fn lemma_fitted_width(v: Seq<char>, width: nat, align: TextAlign)
    ensures
        fitted_to_width(v, width, align).len() == width,
{
}

/// What a mask contributes is as long as its literal where it shows literal
/// text or the splitter, and exactly as wide as its column otherwise.
pub proof fn lemma_mask_length(
    mask: MaskView,
    splitter: Seq<char>,
    timestamp: Seq<char>,
    message: MessageView,
)
    ensures
        rendered_mask(mask, splitter, timestamp, message).len() == match mask.kind {
            MaskKind::Raw(text) => text.len(),
            MaskKind::Splitter => splitter.len(),
            _ => mask.width,
        },
{
}

/// What a mask contributes is as long whatever the time reads, and unless
/// the mask shows the time it is the same text.
pub proof fn lemma_mask_apart_from_time(
    mask: MaskView,
    splitter: Seq<char>,
    first: Seq<char>,
    second: Seq<char>,
    message: MessageView,
)
    ensures
        rendered_mask(mask, splitter, first, message).len() == rendered_mask(
            mask,
            splitter,
            second,
            message,
        ).len(),
        !(mask.kind is Timestamp) ==> rendered_mask(mask, splitter, first, message)
            == rendered_mask(mask, splitter, second, message),
{
    lemma_fitted_width(kept_by_length(first, mask.length), mask.width, mask.align);
    lemma_fitted_width(kept_by_length(second, mask.length), mask.width, mask.align);
}

/// Rendering one message twice with one formatter gives the same line if
/// the time reads the same. If the time has moved on, the two lines are
/// still of one length, and they are the same line where no mask shows the
/// time.
pub proof fn lemma_render_repeats(
    masks: Seq<MaskView>,
    splitter: Seq<char>,
    first: Seq<char>,
    second: Seq<char>,
    message: MessageView,
)
    ensures
        first == second ==> rendered(masks, splitter, first, message) == rendered(
            masks,
            splitter,
            second,
            message,
        ),
        rendered(masks, splitter, first, message).len() == rendered(
            masks,
            splitter,
            second,
            message,
        ).len(),
        (forall|i: int| 0 <= i < masks.len() ==> !(#[trigger] masks[i].kind is Timestamp))
            ==> rendered(masks, splitter, first, message) == rendered(
            masks,
            splitter,
            second,
            message,
        ),
    decreases masks.len(),
{
    if masks.len() > 0 {
        let front = masks.drop_last();
        lemma_render_repeats(front, splitter, first, second, message);
        lemma_mask_apart_from_time(masks.last(), splitter, first, second, message);
        if forall|i: int| 0 <= i < masks.len() ==> !(#[trigger] masks[i].kind is Timestamp) {
            assert forall|i: int| 0 <= i < front.len() implies !(#[trigger] front[i].kind
                is Timestamp) by {
                assert(front[i] == masks[i]);
            }
            assert(!(masks[masks.len() - 1].kind is Timestamp));
        }
    }
}

/// The text that stands for the moment `now` in a line: `now` written under
/// `pattern`, and nothing where the pattern is empty or no text can be had
/// for `now` under it.
pub open spec fn time_text(pattern: Seq<char>, now: Moment) -> Seq<char> {
    if pattern.len() == 0 {
        Seq::empty()
    } else {
        match chrono_text(
            now.seconds as int,
            now.nanoseconds as int,
            now.offset as int,
            pattern,
        ) {
            Some(text) => text,
            None => Seq::empty(),
        }
    }
}

/// Why a template cannot be compiled.
#[derive(Clone, Copy, Debug, PartialEq, Eq, Structural)]
pub enum TemplateError {
    /// The template holds no `{`.
    NoOpeningBrace,
    /// The template holds a `{` but no `}`.
    NoClosingBrace,
}

/// What a `MessageFormatter` holds.
pub struct FormatterView {
    /// The pattern the time of a message is written with.
    pub timestamp: Seq<char>,
    pub masks: Seq<MaskView>,
    pub splitter: Seq<char>,
}

/// Renders messages to lines.
#[derive(Clone, Debug)]
pub struct MessageFormatter {
    /// The pattern the time is written with, in the syntax of chrono's
    /// `strftime`.
    timestamp: String,
    /// The compiled template.
    _masks: Vec<FormatMask>,
    /// Stands where the template says `{splitter}`, and between module
    /// names.
    splitter: String,
}

impl View for MessageFormatter {
    type V = FormatterView;

    closed spec fn view(&self) -> FormatterView {
        FormatterView {
            timestamp: self.timestamp@,
            masks: masks_of(self._masks@),
            splitter: self.splitter@,
        }
    }
}

/// The formatter that stands where none is given.
pub open spec fn default_formatter() -> FormatterView {
    FormatterView {
        timestamp: "%Y-%m-%d %H:%M:%S.%f"@,
        masks: template_masks("{timestamp} {splitter} {modules} {splitter} {message}"@),
        splitter: "::"@,
    }
}

impl Default for MessageFormatter {
    fn default() -> (r: Self)
        ensures
            r@ == default_formatter(),
    {
        let format = "{timestamp} {splitter} {modules} {splitter} {message}";
        proof {
            reveal_strlit("{timestamp} {splitter} {modules} {splitter} {message}");
            assert(format@[0] == '{');
            assert(format@[10] == '}');
        }
        Self::new("::", format, "%Y-%m-%d %H:%M:%S.%f")
    }
}

impl MessageFormatter {
    /// The line that this formatter renders for `message` when the time
    /// reads `timestamp`.
    pub open spec fn line(&self, timestamp: Seq<char>, message: MessageView) -> Seq<char> {
        rendered(self@.masks, self@.splitter, timestamp, message)
    }

    /// Compiles `format` into a formatter. A template needs at least one
    /// `{` and one `}`.
    pub fn new(splitter: &str, format: &str, timestamp: &str) -> (r: Self)
        requires
            format@.contains('{'),
            format@.contains('}'),
        ensures
            r@.timestamp == timestamp@,
            r@.splitter == splitter@,
            r@.masks == template_masks(format@),
    {
        MessageFormatter {
            timestamp: timestamp.to_owned(),
            splitter: splitter.to_owned(),
            _masks: Self::_set_masks(format),
        }
    }

    /// Compiles `format` into a formatter, or says what the template lacks.
    pub fn try_new(splitter: &str, format: &str, timestamp: &str) -> (r: Result<
        Self,
        TemplateError,
    >)
        ensures
            match r {
                Ok(f) => {
                    &&& format@.contains('{')
                    &&& format@.contains('}')
                    &&& f@.timestamp == timestamp@
                    &&& f@.splitter == splitter@
                    &&& f@.masks == template_masks(format@)
                },
                Err(TemplateError::NoOpeningBrace) => !format@.contains('{'),
                Err(TemplateError::NoClosingBrace) => format@.contains('{') && !format@.contains(
                    '}',
                ),
            },
    {
        let v = chars_of(format);
        proof {
            assert(v@.skip(0) =~= format@);
            lemma_first_index(format@, '{');
            lemma_first_index(format@, '}');
        }
        if find_char(&v, 0, '{') == v.len() {
            Err(TemplateError::NoOpeningBrace)
        } else if find_char(&v, 0, '}') == v.len() {
            Err(TemplateError::NoClosingBrace)
        } else {
            Ok(Self::new(splitter, format, timestamp))
        }
    }

    /// Renders `message` as it came in at the moment `now`.
    ///
    /// The time column shows `now` written under the timestamp pattern. It
    /// is blank where the pattern is empty and where no text can be had for
    /// `now` under the pattern.
    pub fn format(&self, message: &Message, now: &Moment) -> (r: String)
        ensures
            r@ == self.line(time_text(self@.timestamp, *now), message@),
    {
        let timestamp = if !self.timestamp.as_str().is_empty() {
            match moment_text(now, self.timestamp.as_str()) {
                Some(text) => text,
                None => String::new(),
            }
        } else {
            String::new()
        };
        self.render(message, timestamp.as_str())
    }

    /// Renders `message` with the time given as text.
    pub fn render(&self, message: &Message, timestamp: &str) -> (r: String)
        ensures
            r@ == self.line(timestamp@, message@),
    {
        let mut result = String::new();
        let ghost all = masks_of(self._masks@);
        let mut i: usize = 0;
        while i < self._masks.len()
            invariant
                i <= self._masks.len(),
                all == masks_of(self._masks@),
                result@ == rendered(all.take(i as int), self.splitter@, timestamp@, message@),
            decreases self._masks.len() - i,
        {
            let mask = &self._masks[i];
            proof {
                let next = all.take(i + 1);
                assert(next.drop_last() =~= all.take(i as int));
                assert(next.last() == mask@);
            }
            match &mask.mask_type {
                MaskType::Raw(value) => {
                    result.append(value.as_str());
                },
                MaskType::Timestamp => {
                    let cut = self._format_by_length(timestamp, &mask.length);
                    let cell = self._format_by_width_align(cut.as_str(), &mask.width, &mask.align);
                    result.append(cell.as_str());
                },
                MaskType::Message => {
                    let cut = self._format_by_length(message.text().as_str(), &mask.length);
                    let cell = self._format_by_width_align(cut.as_str(), &mask.width, &mask.align);
                    result.append(cell.as_str());
                },
                MaskType::Splitter => {
                    result.append(self.splitter.as_str());
                },
                MaskType::Modules => {
                    let modules = join(message.modules(), self.splitter.as_str());
                    let cut = self._format_by_length(modules.as_str(), &mask.length);
                    let cell = self._format_by_width_align(cut.as_str(), &mask.width, &mask.align);
                    result.append(cell.as_str());
                },
            }
            i += 1;
        }
        assert(all.take(i as int) =~= all);
        result
    }

    /// Applies the length policy to `value`.
    pub fn _format_by_length(&self, value: &str, length: &i32) -> (r: String)
        ensures
            r@ == kept_by_length(value@, *length as int),
            *length > 0 ==> r@ == value@.take(vstd::math::min(*length as int, value@.len() as int)),
            *length <= 0 ==> r@ == value@.take(
                value@.len() - vstd::math::min(-(*length as int), value@.len() as int),
            ),
    {
        let len = value.unicode_len();
        assert(value@.take(len as int) =~= value@);
        assert(value@.take(0) =~= Seq::<char>::empty());
        if *length > 0 {
            let keep: usize = *length as usize;
            if keep < len {
                slice_of(value, 0, keep)
            } else {
                slice_of(value, 0, len)
            }
        } else {
            let wide: i64 = -(*length as i64);
            let drop: usize = wide as usize;
            if drop < len {
                slice_of(value, 0, len - drop)
            } else {
                slice_of(value, 0, 0)
            }
        }
    }

    /// Applies the width and alignment policy to `value`.
    pub fn _format_by_width_align(&self, value: &str, width: &usize, align: &TextAlign) -> (r:
        String)
        ensures
            r@ == fitted_to_width(value@, *width as nat, *align),
            r@.len() == *width,
            value@.len() >= *width ==> r@ == value@.take(*width as int),
            value@.len() < *width ==> {
                let left = left_padding((*width - value@.len()) as nat, *align) as int;
                &&& r@.subrange(left, left + value@.len()) == value@
                &&& forall|i: int|
                    0 <= i < left || left + value@.len() <= i < *width ==> r@[i] == ' '
            },
    {
        let len = value.unicode_len();
        if len >= *width {
            return slice_of(value, 0, *width);
        }
        let free: usize = *width - len;
        let left: usize = match align {
            TextAlign::Left => 0,
            TextAlign::Center => free / 2,
            TextAlign::Right => free,
        };
        let mut out = String::new();
        append_spaces(&mut out, left);
        out.append(value);
        append_spaces(&mut out, free - left);
        proof {
            assert(out@ =~= fitted_to_width(value@, *width as nat, *align));
            assert(out@.subrange(left as int, left + value@.len()) =~= value@);
        }
        out
    }

    /// Compiles a template into its masks.
    pub fn _set_masks(format: &str) -> (r: Vec<FormatMask>)
        requires
            format@.contains('{'),
            format@.contains('}'),
        ensures
            masks_of(r@) == template_masks(format@),
    {
        let mut result: Vec<FormatMask> = Vec::new();
        let v = chars_of(format);
        let n = v.len();
        let ghost s = format@;
        let mut pos: usize = 0;
        proof {
            assert(s.skip(0) =~= s);
            assert(masks_of(result@) =~= Seq::<MaskView>::empty());
        }
        while pos < n
            invariant
                pos <= n,
                n == v.len(),
                v@ == s,
                s == format@,
                masks_of(result@) + template_masks(s.skip(pos as int)) == template_masks(s),
            decreases n - pos,
        {
            let ghost rest = s.skip(pos as int);
            let ghost done = masks_of(result@);
            let open = find_char(&v, pos, '{');
            if open == n {
                result.push(FormatMask::literal(slice_of(format, pos, n)));
                proof {
                    assert(s.subrange(pos as int, n as int) =~= rest);
                    assert(masks_of(result@) =~= done + seq![literal_mask(rest)]);
                }
                return result;
            }
            let ghost before = if open > pos {
                seq![literal_mask(rest.take(open - pos))]
            } else {
                Seq::<MaskView>::empty()
            };
            if open > pos {
                result.push(FormatMask::literal(slice_of(format, pos, open)));
                proof {
                    assert(s.subrange(pos as int, open as int) =~= rest.take(open - pos));
                }
            }
            proof {
                assert(masks_of(result@) =~= done + before);
            }
            let ghost inner = rest.skip(open - pos + 1);
            proof {
                assert(inner =~= s.skip(open + 1));
            }
            let close = find_char(&v, open + 1, '}');
            if close == n {
                let ghost so_far = masks_of(result@);
                result.push(FormatMask::literal(slice_of(format, open, n)));
                proof {
                    assert(s.subrange(open as int, n as int) =~= rest.skip(open - pos));
                    assert(masks_of(result@) =~= so_far + seq![
                        literal_mask(rest.skip(open - pos)),
                    ]);
                    assert(done + (before + seq![literal_mask(rest.skip(open - pos))]) =~= done
                        + before + seq![literal_mask(rest.skip(open - pos))]);
                }
                return result;
            }
            let ghost so_far = masks_of(result@);
            result.push(FormatMask::from(slice_of(format, open + 1, close).as_str()));
            proof {
                let content = inner.take(close - open - 1);
                assert(s.subrange(open + 1, close as int) =~= content);
                assert(masks_of(result@) =~= so_far + seq![placeholder_mask(content)]);
                assert(inner.skip(close - open) =~= s.skip(close + 1));
                let tail = template_masks(s.skip(close + 1));
                assert(template_masks(rest) == before + seq![placeholder_mask(content)] + tail);
                assert(done + (before + seq![placeholder_mask(content)] + tail) =~= done + before
                    + seq![placeholder_mask(content)] + tail);
            }
            pos = close + 1;
        }
        proof {
            assert(s.skip(pos as int) =~= Seq::<char>::empty());
            assert(masks_of(result@) + Seq::<MaskView>::empty() =~= masks_of(result@));
        }
        result
    }
}

} // verus!

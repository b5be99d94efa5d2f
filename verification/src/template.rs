//! The template language of the formatter: literal text with placeholders
//! in braces.

use vstd::prelude::*;
use crate::mask::{head_field, kind_of, literal_mask, placeholder_mask, MaskKind, MaskView};
use crate::text::first_index;

verus! {

/// The masks that the template `s` compiles to, from left to right.
///
/// Text up to the next `{` is one literal mask (none where the text is
/// empty). From the `{` to the next `}` after it stands a placeholder, whose
/// content gives one mask. A `{` that no `}` follows is literal text
/// together with all that comes after it.
pub open spec fn template_masks(s: Seq<char>) -> Seq<MaskView>
    decreases s.len(),
{
    let open = first_index(s, '{');
    let inner = s.skip(open + 1);
    let close = first_index(inner, '}');
    let before = if open > 0 {
        seq![literal_mask(s.take(open))]
    } else {
        Seq::empty()
    };
    if s.len() == 0 {
        Seq::empty()
    } else if !(0 <= open < s.len()) {
        seq![literal_mask(s)]
    } else if !(0 <= close < inner.len()) {
        before + seq![literal_mask(s.skip(open))]
    } else {
        before + seq![placeholder_mask(inner.take(close))] + template_masks(inner.skip(close + 1))
    }
}

/// The literal text of the masks: what the `Raw` masks hold, in order.
pub open spec fn raw_text(masks: Seq<MaskView>) -> Seq<char>
    decreases masks.len(),
{
    if masks.len() == 0 {
        Seq::empty()
    } else {
        raw_text(masks.drop_last()) + match masks.last().kind {
            MaskKind::Raw(text) => text,
            _ => Seq::empty(),
        }
    }
}

/// The text of the template `s` that stands outside its placeholders.
pub open spec fn text_outside(s: Seq<char>) -> Seq<char>
    decreases s.len(),
{
    let open = first_index(s, '{');
    let inner = s.skip(open + 1);
    let close = first_index(inner, '}');
    if s.len() == 0 {
        Seq::empty()
    } else if !(0 <= open < s.len()) || !(0 <= close < inner.len()) {
        s
    } else {
        s.take(open) + text_outside(inner.skip(close + 1))
    }
}

/// Whether each placeholder of the template `s` names one of the four
/// fields.
pub open spec fn placeholders_named(s: Seq<char>) -> bool
    decreases s.len(),
{
    let open = first_index(s, '{');
    let inner = s.skip(open + 1);
    let close = first_index(inner, '}');
    if s.len() == 0 || !(0 <= open < s.len()) || !(0 <= close < inner.len()) {
        true
    } else {
        !(kind_of(head_field(inner.take(close))) is Raw) && placeholders_named(
            inner.skip(close + 1),
        )
    }
}

/// The literal text of two runs of masks is the text of the first followed
/// by that of the second.
pub proof fn lemma_raw_text_add(a: Seq<MaskView>, b: Seq<MaskView>)
    ensures
        raw_text(a + b) == raw_text(a) + raw_text(b),
    decreases b.len(),
{
    if b.len() == 0 {
        assert(a + b =~= a);
        assert(raw_text(a) + raw_text(b) =~= raw_text(a));
    } else {
        lemma_raw_text_add(a, b.drop_last());
        assert((a + b).drop_last() =~= a + b.drop_last());
        assert((a + b).last() == b.last());
        let tail = match b.last().kind {
            MaskKind::Raw(text) => text,
            _ => Seq::empty(),
        };
        assert(raw_text(a) + raw_text(b.drop_last()) + tail =~= raw_text(a) + (raw_text(
            b.drop_last(),
        ) + tail));
    }
}

/// The literal text of a single mask.
pub proof fn lemma_raw_text_one(m: MaskView)
    ensures
        raw_text(seq![m]) == match m.kind {
            MaskKind::Raw(text) => text,
            _ => Seq::<char>::empty(),
        },
{
    let one = seq![m];
    assert(one.drop_last() =~= Seq::<MaskView>::empty());
    assert(raw_text(one.drop_last()) =~= Seq::<char>::empty());
    assert(one.last() == m);
    match m.kind {
        MaskKind::Raw(text) => {
            assert(Seq::<char>::empty() + text =~= text);
        },
        _ => {
            assert(Seq::<char>::empty() + Seq::<char>::empty() =~= Seq::<char>::empty());
        },
    }
}

/// Compiling keeps the literal text: where each placeholder of a template
/// names one of the four fields, the `Raw` masks of the compiled template
/// hold, in order, exactly the text outside the placeholders.
pub proof fn lemma_literal_text_is_kept(s: Seq<char>)
    requires
        placeholders_named(s),
    ensures
        raw_text(template_masks(s)) == text_outside(s),
    decreases s.len(),
{
    let open = first_index(s, '{');
    let inner = s.skip(open + 1);
    let close = first_index(inner, '}');
    let before = if open > 0 {
        seq![literal_mask(s.take(open))]
    } else {
        Seq::<MaskView>::empty()
    };
    crate::text::lemma_first_index(s, '{');
    if s.len() == 0 {
    } else if !(0 <= open < s.len()) {
        lemma_raw_text_one(literal_mask(s));
    } else {
        if open > 0 {
            lemma_raw_text_one(literal_mask(s.take(open)));
        }
        assert(raw_text(before) =~= s.take(open));
        if !(0 <= close < inner.len()) {
            lemma_raw_text_one(literal_mask(s.skip(open)));
            lemma_raw_text_add(before, seq![literal_mask(s.skip(open))]);
            assert(s.take(open) + s.skip(open) =~= s);
        } else {
            let hole = placeholder_mask(inner.take(close));
            let rest = inner.skip(close + 1);
            lemma_literal_text_is_kept(rest);
            lemma_raw_text_one(hole);
            lemma_raw_text_add(before, seq![hole]);
            lemma_raw_text_add(before + seq![hole], template_masks(rest));
            assert(s.take(open) + Seq::<char>::empty() + text_outside(rest) =~= s.take(open)
                + text_outside(rest));
        }
    }
}

} // verus!

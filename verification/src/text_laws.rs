//! What holds of the order of texts and of the whitespace around them.

use vstd::prelude::*;

use crate::text::blank;
use crate::text::left_trimmed;
use crate::text::right_trimmed;
use crate::text::text_precedes;
use crate::text::trimmed_text;
use crate::text::white_space;

verus! {

/// A text comes before another exactly where, behind what both begin with, it is at its end and
/// the other is not, or goes on with the smaller character.
pub proof fn texts_are_ordered_by_their_first_difference(
    left: Seq<char>,
    right: Seq<char>,
    common: nat,
)
    requires
        common <= left.len(),
        common <= right.len(),
        forall|i: int| 0 <= i < common ==> #[trigger] left[i] == right[i],
        common < left.len() && common < right.len() ==> left[common as int]
            != right[common as int],
    ensures
        text_precedes(left, right) <==> common < right.len() && (common == left.len() || (
        left[common as int] as u32) < (right[common as int] as u32)),
    decreases common,
{
    if common > 0 {
        assert(left[0] == right[0]);
        let l = left.drop_first();
        let r = right.drop_first();
        assert forall|i: int| 0 <= i < common - 1 implies #[trigger] l[i] == r[i] by {
            assert(left[i + 1] == right[i + 1]);
        }
        assert(common < left.len() ==> l[common - 1] == left[common as int]);
        assert(common < right.len() ==> r[common - 1] == right[common as int]);
        texts_are_ordered_by_their_first_difference(l, r, (common - 1) as nat);
    }
}

/// Letters, digits and signs are no whitespace; blanks, tabs and line breaks are.
pub proof fn visible_characters_are_no_whitespace(ch: char)
    ensures
        0x21 <= ch as u32 <= 0x7e ==> !white_space(ch),
        white_space(' '),
        white_space('\t'),
        white_space('\n'),
        white_space('\r'),
        white_space(ch) ==> ch as u32 <= 0x20 || ch as u32 >= 0x85,
{
}

proof fn lemma_left(text: Seq<char>)
    ensures
        left_trimmed(text).len() <= text.len(),
        left_trimmed(text) == text.skip(text.len() - left_trimmed(text).len()),
        forall|i: int|
            0 <= i < text.len() - left_trimmed(text).len() ==> white_space(#[trigger] text[i]),
        left_trimmed(text).len() > 0 ==> !white_space(left_trimmed(text)[0]),
    decreases text.len(),
{
    if text.len() > 0 && white_space(text[0]) {
        let rest = text.drop_first();
        lemma_left(rest);
        assert forall|i: int| 0 <= i < text.len() - left_trimmed(text).len() implies white_space(
            #[trigger] text[i],
        ) by {
            if i > 0 {
                assert(rest[i - 1] == text[i]);
            }
        }
        assert(left_trimmed(text) =~= text.skip(text.len() - left_trimmed(text).len()));
    } else {
        assert(text.skip(0) =~= text);
    }
}

proof fn lemma_right(text: Seq<char>)
    ensures
        right_trimmed(text).len() <= text.len(),
        right_trimmed(text) == text.take(right_trimmed(text).len() as int),
        forall|i: int|
            right_trimmed(text).len() <= i < text.len() ==> white_space(#[trigger] text[i]),
        right_trimmed(text).len() > 0 ==> !white_space(right_trimmed(text).last()),
    decreases text.len(),
{
    if text.len() > 0 && white_space(text.last()) {
        let front = text.drop_last();
        lemma_right(front);
        assert forall|i: int| right_trimmed(text).len() <= i < text.len() implies white_space(
            #[trigger] text[i],
        ) by {
            if i < front.len() {
                assert(front[i] == text[i]);
            }
        }
        assert(right_trimmed(text) =~= text.take(right_trimmed(text).len() as int));
    } else {
        assert(text.take(text.len() as int) =~= text);
    }
}

/// Taking the whitespace around a text away leaves a part of it that neither begins nor ends
/// with whitespace, with nothing but whitespace before and behind it. Nothing is left exactly
/// where the text is blank.
pub proof fn trimming_takes_whitespace_only(text: Seq<char>) -> (start: int)
    ensures
        ({
            let kept = trimmed_text(text);
            &&& 0 <= start
            &&& start + kept.len() <= text.len()
            &&& kept == text.subrange(start, start + kept.len())
            &&& forall|i: int| 0 <= i < start ==> white_space(#[trigger] text[i])
            &&& forall|i: int|
                start + kept.len() <= i < text.len() ==> white_space(#[trigger] text[i])
            &&& kept.len() > 0 ==> !white_space(kept[0]) && !white_space(kept.last())
            &&& blank(text) <==> kept.len() == 0
        }),
{
    let left = left_trimmed(text);
    let kept = trimmed_text(text);
    lemma_left(text);
    lemma_right(left);
    let start = text.len() - left.len();
    assert(kept =~= text.subrange(start, start + kept.len()));
    assert forall|i: int| start + kept.len() <= i < text.len() implies white_space(
        #[trigger] text[i],
    ) by {
        assert(left[i - start] == text[i]);
    }
    if kept.len() > 0 {
        assert(left[0] == kept[0]);
        assert(text[start] == kept[0]);
    }
    start
}

} // verus!

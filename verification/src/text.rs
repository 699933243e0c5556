//! Text helpers: equality, ordering, whitespace, and decimal numbers.

use vstd::prelude::*;
use vstd::string::StringExecFns;

verus! {

/// `String::push` appends one character at the end of the string.
pub assume_specification[ String::push ](text: &mut String, ch: char)
    ensures
        final(text)@ == old(text)@.push(ch),
;

/// Whether two texts hold the same characters.
pub fn same_text(left: &str, right: &str) -> (same: bool)
    ensures
        same == (left@ == right@),
{
    left.to_owned() == right.to_owned()
}

/// The characters of a text as a vector.
pub fn text_chars(text: &str) -> (chars: Vec<char>)
    ensures
        chars@ == text@,
{
    let mut chars: Vec<char> = Vec::new();
    for ch in iter: text.chars()
        invariant
            iter.seq() == text@,
            chars@ == text@.subrange(0, iter.index()),
    {
        chars.push(ch);
        proof {
            assert(text@.subrange(0, iter.index() + 1) =~= text@.subrange(0, iter.index()).push(
                text@[iter.index()],
            ));
        }
    }
    assert(text@.subrange(0, text@.len() as int) =~= text@);
    chars
}

/// The text that holds the given characters.
pub fn text_of(chars: &Vec<char>) -> (text: String)
    ensures
        text@ == chars@,
{
    let mut text = String::new();
    let mut index: usize = 0;
    while index < chars.len()
        invariant
            index <= chars.len(),
            text@ == chars@.subrange(0, index as int),
        decreases chars.len() - index,
    {
        text.push(chars[index]);
        index += 1;
        assert(chars@.subrange(0, index as int) =~= chars@.subrange(0, index - 1).push(
            chars@[index - 1],
        ));
    }
    assert(chars@.subrange(0, index as int) =~= chars@);
    text
}

/// The text of `left` followed by that of `right`.
pub fn joined(left: &str, right: &str) -> (text: String)
    ensures
        text@ == left@ + right@,
{
    left.to_owned().concat(right)
}

// ---------------------------------------------------------------------------
// Order
// ---------------------------------------------------------------------------

/// Lexicographic order by code point.
pub open spec fn text_precedes(left: Seq<char>, right: Seq<char>) -> bool
    decreases left.len(),
{
    if right.len() == 0 {
        false
    } else if left.len() == 0 {
        true
    } else if left[0] == right[0] {
        text_precedes(left.drop_first(), right.drop_first())
    } else {
        (left[0] as u32) < (right[0] as u32)
    }
}

/// No text precedes itself.
pub proof fn text_precedes_irreflexive(text: Seq<char>)
    ensures
        !text_precedes(text, text),
    decreases text.len(),
{
    if text.len() > 0 {
        text_precedes_irreflexive(text.drop_first());
    }
}

/// The order of texts is transitive.
pub proof fn text_precedes_transitive(a: Seq<char>, b: Seq<char>, c: Seq<char>)
    requires
        text_precedes(a, b),
        text_precedes(b, c),
    ensures
        text_precedes(a, c),
    decreases a.len(),
{
    if a.len() > 0 && b.len() > 0 && c.len() > 0 && a[0] == b[0] && b[0] == c[0] {
        text_precedes_transitive(a.drop_first(), b.drop_first(), c.drop_first());
    }
}

/// Of two different texts one precedes the other.
pub proof fn text_precedes_total(a: Seq<char>, b: Seq<char>)
    ensures
        a == b || text_precedes(a, b) || text_precedes(b, a),
    decreases a.len(),
{
    if a.len() == 0 && b.len() == 0 {
        assert(a =~= b);
    } else if a.len() > 0 && b.len() > 0 && a[0] == b[0] {
        text_precedes_total(a.drop_first(), b.drop_first());
        if a.drop_first() == b.drop_first() {
            assert(a =~= seq![a[0]] + a.drop_first());
            assert(b =~= seq![b[0]] + b.drop_first());
        }
    } else if a.len() > 0 && b.len() > 0 {
        vstd::utf8::char_u32_cast(a[0], a[0] as u32);
        vstd::utf8::char_u32_cast(b[0], b[0] as u32);
    }
}

/// Two texts that share a prefix are ordered by what follows it.
proof fn text_precedes_after_prefix(a: Seq<char>, b: Seq<char>, count: int)
    requires
        0 <= count <= a.len(),
        count <= b.len(),
        a.subrange(0, count) == b.subrange(0, count),
    ensures
        text_precedes(a, b) == text_precedes(a.skip(count), b.skip(count)),
    decreases count,
{
    if count == 0 {
        assert(a.skip(0) =~= a);
        assert(b.skip(0) =~= b);
    } else {
        assert(a.subrange(0, count)[0] == a[0]);
        assert(b.subrange(0, count)[0] == b[0]);
        assert(a.drop_first().subrange(0, count - 1) =~= a.subrange(0, count).drop_first());
        assert(b.drop_first().subrange(0, count - 1) =~= b.subrange(0, count).drop_first());
        text_precedes_after_prefix(a.drop_first(), b.drop_first(), count - 1);
        assert(a.drop_first().skip(count - 1) =~= a.skip(count));
        assert(b.drop_first().skip(count - 1) =~= b.skip(count));
    }
}

/// Whether `left` comes before `right` in lexicographic order by code point.
pub fn precedes(left: &str, right: &str) -> (before: bool)
    ensures
        before == text_precedes(left@, right@),
{
    let a = text_chars(left);
    let b = text_chars(right);
    let mut index: usize = 0;
    while index < a.len() && index < b.len() && a[index] == b[index]
        invariant
            a@ == left@,
            b@ == right@,
            index <= a.len(),
            index <= b.len(),
            a@.subrange(0, index as int) == b@.subrange(0, index as int),
        decreases a.len() - index,
    {
        index += 1;
        assert(a@.subrange(0, index as int) =~= a@.subrange(0, index - 1).push(a@[index - 1]));
        assert(b@.subrange(0, index as int) =~= b@.subrange(0, index - 1).push(b@[index - 1]));
    }
    proof {
        text_precedes_after_prefix(a@, b@, index as int);
    }
    if index == b.len() {
        false
    } else if index == a.len() {
        true
    } else {
        (a[index] as u32) < (b[index] as u32)
    }
}

// ---------------------------------------------------------------------------
// Whitespace
// ---------------------------------------------------------------------------

/// Characters with the Unicode `White_Space` property.
pub open spec fn white_space(ch: char) -> bool {
    let code = ch as u32;
    ||| 0x09 <= code <= 0x0d
    ||| code == 0x20
    ||| code == 0x85
    ||| code == 0xa0
    ||| code == 0x1680
    ||| 0x2000 <= code <= 0x200a
    ||| code == 0x2028
    ||| code == 0x2029
    ||| code == 0x202f
    ||| code == 0x205f
    ||| code == 0x3000
}

/// A text with nothing left once surrounding whitespace is taken away.
pub open spec fn blank(text: Seq<char>) -> bool {
    forall|i: int| 0 <= i < text.len() ==> white_space(#[trigger] text[i])
}

/// Whether a text is empty or holds whitespace only.
pub fn is_blank(text: &str) -> (result: bool)
    ensures
        result == blank(text@),
{
    let chars = text_chars(text);
    let mut index: usize = 0;
    while index < chars.len()
        invariant
            chars@ == text@,
            index <= chars.len(),
            forall|i: int| 0 <= i < index ==> white_space(#[trigger] text@[i]),
        decreases chars.len() - index,
    {
        if !is_white_space(chars[index]) {
            assert(!white_space(text@[index as int]));
            return false;
        }
        index += 1;
    }
    true
}

/// Whether a character occurs in a text.
pub fn contains_char(text: &str, ch: char) -> (found: bool)
    ensures
        found == text@.contains(ch),
{
    let chars = text_chars(text);
    let mut index: usize = 0;
    while index < chars.len()
        invariant
            chars@ == text@,
            index <= chars.len(),
            forall|i: int| 0 <= i < index ==> text@[i] != ch,
        decreases chars.len() - index,
    {
        if chars[index] == ch {
            assert(text@[index as int] == ch);
            return true;
        }
        index += 1;
    }
    false
}

/// A text without its leading whitespace.
pub open spec fn left_trimmed(text: Seq<char>) -> Seq<char>
    decreases text.len(),
{
    if text.len() > 0 && white_space(text[0]) {
        left_trimmed(text.drop_first())
    } else {
        text
    }
}

/// A text without its trailing whitespace.
pub open spec fn right_trimmed(text: Seq<char>) -> Seq<char>
    decreases text.len(),
{
    if text.len() > 0 && white_space(text.last()) {
        right_trimmed(text.drop_last())
    } else {
        text
    }
}

/// A text without the whitespace around it.
pub open spec fn trimmed_text(text: Seq<char>) -> Seq<char> {
    right_trimmed(left_trimmed(text))
}

fn is_white_space(ch: char) -> (white: bool)
    ensures
        white == white_space(ch),
{
    let code: u32 = ch as u32;
    (0x09 <= code && code <= 0x0d) || code == 0x20 || code == 0x85 || code == 0xa0 || code == 0x1680
        || (0x2000 <= code && code <= 0x200a) || code == 0x2028 || code == 0x2029 || code == 0x202f
        || code == 0x205f || code == 0x3000
}

/// The text without the whitespace around it.
pub fn trimmed(text: &str) -> (result: String)
    ensures
        result@ == trimmed_text(text@),
{
    let chars = text_chars(text);
    let mut start: usize = 0;
    assert(text@.skip(0) =~= text@);
    while start < chars.len() && is_white_space(chars[start])
        invariant
            chars@ == text@,
            start <= chars.len(),
            left_trimmed(text@) == left_trimmed(text@.skip(start as int)),
        decreases chars.len() - start,
    {
        assert(text@.skip(start as int).drop_first() =~= text@.skip(start + 1));
        start += 1;
    }
    let ghost kept = text@.skip(start as int);
    assert(left_trimmed(text@) == kept);
    let mut end: usize = chars.len();
    assert(kept.take(kept.len() as int) =~= kept);
    while start < end && is_white_space(chars[end - 1])
        invariant
            chars@ == text@,
            start <= end <= chars.len(),
            kept == text@.skip(start as int),
            right_trimmed(kept) == right_trimmed(kept.take(end - start)),
        decreases end,
    {
        assert(kept.take(end - start).drop_last() =~= kept.take(end - start - 1));
        assert(kept.take(end - start).last() == text@[end - 1]);
        end -= 1;
    }
    assert(right_trimmed(kept) == kept.take(end - start));
    let mut result: Vec<char> = Vec::new();
    let mut index: usize = start;
    while index < end
        invariant
            chars@ == text@,
            start <= index <= end <= chars.len(),
            result@ == text@.subrange(start as int, index as int),
        decreases end - index,
    {
        result.push(chars[index]);
        index += 1;
        assert(text@.subrange(start as int, index as int) =~= text@.subrange(
            start as int,
            index - 1,
        ).push(text@[index - 1]));
    }
    assert(result@ =~= kept.take(end - start));
    text_of(&result)
}

} // verus!

//! The write log of the mock backend: one block of text for each chip that was written.

use vstd::prelude::*;
use vstd::string::StringExecFns;

use crate::number::decimal;
use crate::number::is_digit;
use crate::number::lemma_decimal_digits;
use crate::number::lemma_parse_decimal;
use crate::number::number_text;
use crate::number::parse_u64;
use crate::number::parsed_number;
use crate::text::text_chars;

verus! {

/// The document of a block with the line break and the empty line that end the block.
pub open spec fn block_end(xml: Seq<char>) -> Seq<char> {
    if xml.len() > 0 && xml.last() == '\n' {
        xml + "\n"@
    } else {
        xml + "\n"@ + "\n"@
    }
}

/// A block behind the line that starts it.
pub open spec fn block_body(timestamp_ms: u64, xml: Seq<char>) -> Seq<char> {
    "timestamp: "@ + decimal(timestamp_ms as nat) + "\n"@ + "\n"@ + block_end(xml)
}

/// The block of a chip that was written.
pub open spec fn dump_text(timestamp_ms: u64, xml: Seq<char>) -> Seq<char> {
    "----\n"@ + block_body(timestamp_ms, xml)
}

fn ends_with_line_break(text: &str) -> (result: bool)
    ensures
        result == (text@.len() > 0 && text@.last() == '\n'),
{
    let chars = text_chars(text);
    chars.len() > 0 && chars[chars.len() - 1] == '\n'
}

/// The block of a chip that was written.
pub fn write_dump_block(timestamp_ms: u64, xml: &str) -> (block: String)
    ensures
        block@ == dump_text(timestamp_ms, xml@),
{
    let head = "----\n".to_owned().concat("timestamp: ").concat(
        number_text(timestamp_ms).as_str(),
    ).concat("\n").concat("\n").concat(xml);
    let block = if ends_with_line_break(xml) {
        head.concat("\n")
    } else {
        head.concat("\n").concat("\n")
    };
    assert(block@ =~= dump_text(timestamp_ms, xml@));
    block
}

// ---------------------------------------------------------------------------
// Reading a log
// ---------------------------------------------------------------------------

/// Whether the line that starts a block stands at a position.
pub open spec fn mark_at(text: Seq<char>, index: int) -> bool {
    0 <= index && index + 5 <= text.len() && text.subrange(index, index + 5) == "----\n"@
}

/// The first position from `start` on where a block starts, or the end of the text.
pub open spec fn next_mark(text: Seq<char>, start: int) -> int
    decreases text.len() - start,
{
    if start >= text.len() {
        text.len() as int
    } else if mark_at(text, start) {
        start
    } else {
        next_mark(text, start + 1)
    }
}

/// A text without the line breaks at its start.
pub open spec fn without_leading_breaks(text: Seq<char>) -> Seq<char>
    decreases text.len(),
{
    if text.len() > 0 && text[0] == '\n' {
        without_leading_breaks(text.drop_first())
    } else {
        text
    }
}

/// The position of the first line break, or the end of the text.
pub open spec fn first_break(text: Seq<char>, start: int) -> int
    decreases text.len() - start,
{
    if start >= text.len() {
        text.len() as int
    } else if text[start] == '\n' {
        start
    } else {
        first_break(text, start + 1)
    }
}

/// The time and the document of a block behind the line that starts it.
pub open spec fn read_block(chunk: Seq<char>) -> Option<(u64, Seq<char>)> {
    if chunk.len() < 11 || chunk.subrange(0, 11) != "timestamp: "@ {
        None
    } else {
        let end = first_break(chunk, 11);
        if end >= chunk.len() {
            None
        } else {
            match parsed_number(chunk.subrange(11, end), u64::MAX as nat) {
                Ok(timestamp) => Some(
                    (
                        timestamp as u64,
                        without_leading_breaks(chunk.subrange(end + 1, chunk.len() as int)),
                    ),
                ),
                Err(_) => None,
            }
        }
    }
}

/// The blocks of a text from a position on, or nothing where one of them cannot be read.
pub open spec fn blocks_from(text: Seq<char>, start: int) -> Option<Seq<(u64, Seq<char>)>>
    decreases text.len() - start,
{
    let end = next_mark(text, start);
    let chunk = text.subrange(start, end);
    let rest = if start <= end && end + 5 <= text.len() {
        blocks_from(text, end + 5)
    } else {
        Some(Seq::empty())
    };
    if chunk.len() == 0 {
        rest
    } else {
        match (read_block(chunk), rest) {
            (Some(block), Some(blocks)) => Some(seq![block] + blocks),
            _ => None,
        }
    }
}

proof fn lemma_next_mark(text: Seq<char>, start: int)
    requires
        0 <= start <= text.len(),
    ensures
        start <= next_mark(text, start) <= text.len(),
        next_mark(text, start) < text.len() ==> mark_at(text, next_mark(text, start)),
        forall|i: int| start <= i < next_mark(text, start) ==> !mark_at(text, i),
    decreases text.len() - start,
{
    if start < text.len() && !mark_at(text, start) {
        lemma_next_mark(text, start + 1);
    }
}

fn is_mark(chars: &Vec<char>, index: usize) -> (result: bool)
    ensures
        result == mark_at(chars@, index as int),
{
    proof {
        reveal_strlit("----\n");
        assert("----\n"@.len() == 5);
    }
    if chars.len() < 5 || index > chars.len() - 5 {
        return false;
    }
    let result = chars[index] == '-' && chars[index + 1] == '-' && chars[index + 2] == '-'
        && chars[index + 3] == '-' && chars[index + 4] == '\n';
    proof {
        let part = chars@.subrange(index as int, index + 5);
        assert(part[0] == chars@[index as int]);
        assert(part[1] == chars@[index + 1]);
        assert(part[2] == chars@[index + 2]);
        assert(part[3] == chars@[index + 3]);
        assert(part[4] == chars@[index + 4]);
        if result {
            assert(part =~= "----\n"@);
        }
    }
    result
}

fn find_mark(chars: &Vec<char>, start: usize) -> (found: usize)
    requires
        start <= chars@.len(),
    ensures
        found == next_mark(chars@, start as int),
        start <= found <= chars@.len(),
        found < chars@.len() ==> found + 5 <= chars@.len(),
{
    let mut index: usize = start;
    while index < chars.len()
        invariant
            start <= index <= chars@.len(),
            next_mark(chars@, start as int) == next_mark(chars@, index as int),
        decreases chars@.len() - index,
    {
        if is_mark(chars, index) {
            return index;
        }
        index += 1;
    }
    index
}

fn slice_text(chars: &Vec<char>, start: usize, end: usize) -> (text: String)
    requires
        start <= end <= chars@.len(),
    ensures
        text@ == chars@.subrange(start as int, end as int),
{
    let mut text = String::new();
    let mut index: usize = start;
    while index < end
        invariant
            start <= index <= end <= chars@.len(),
            text@ == chars@.subrange(start as int, index as int),
        decreases end - index,
    {
        text.push(chars[index]);
        index += 1;
        assert(chars@.subrange(start as int, index as int) =~= chars@.subrange(
            start as int,
            index - 1,
        ).push(chars@[index - 1]));
    }
    text
}

/// Reads the block between two positions.
fn read_block_at(chars: &Vec<char>, start: usize, end: usize) -> (result: Option<(u64, String)>)
    requires
        start <= end <= chars@.len(),
    ensures
        match (result, read_block(chars@.subrange(start as int, end as int))) {
            (Some(found), Some(expected)) => found.0 == expected.0 && found.1@ == expected.1,
            (None, None) => true,
            _ => false,
        },
{
    let block = slice_text(chars, start, end);
    let chunk = text_chars(block.as_str());
    let ghost whole = chunk@;
    if chunk.len() < 11 {
        return None;
    }
    let head = slice_text(&chunk, 0, 11);
    if head != "timestamp: ".to_owned() {
        return None;
    }
    let mut end_of_line: usize = 11;
    while end_of_line < chunk.len() && chunk[end_of_line] != '\n'
        invariant
            11 <= end_of_line <= chunk@.len(),
            first_break(chunk@, 11) == first_break(chunk@, end_of_line as int),
        decreases chunk@.len() - end_of_line,
    {
        end_of_line += 1;
    }
    if end_of_line == chunk.len() {
        return None;
    }
    let digits = slice_text(&chunk, 11, end_of_line);
    let timestamp: u64 = match parse_u64(digits.as_str()) {
        Ok(timestamp) => timestamp,
        Err(_) => return None,
    };
    let mut from: usize = end_of_line + 1;
    let ghost rest = whole.subrange(end_of_line + 1, whole.len() as int);
    while from < chunk.len() && chunk[from] == '\n'
        invariant
            end_of_line < from <= chunk@.len(),
            whole == chunk@,
            rest == whole.subrange(end_of_line + 1, whole.len() as int),
            without_leading_breaks(rest) == without_leading_breaks(
                whole.subrange(from as int, whole.len() as int),
            ),
        decreases chunk@.len() - from,
    {
        assert(whole.subrange(from as int, whole.len() as int).drop_first() =~= whole.subrange(
            from + 1,
            whole.len() as int,
        ));
        from += 1;
    }
    Some((timestamp, slice_text(&chunk, from, chunk.len())))
}

/// The models of blocks.
pub open spec fn block_models(blocks: Seq<(u64, String)>) -> Seq<(u64, Seq<char>)> {
    Seq::new(blocks.len(), |i: int| (blocks[i].0, blocks[i].1@))
}

/// Reads the blocks of a log: the time and the document of each. The result is `None` where
/// one of them cannot be read.
pub fn parse_write_log_blocks(content: &str) -> (result: Option<Vec<(u64, String)>>)
    ensures
        match (result, blocks_from(content@, 0)) {
            (Some(blocks), Some(expected)) => block_models(blocks@) == expected,
            (None, None) => true,
            _ => false,
        },
{
    let chars = text_chars(content);
    let mut blocks: Vec<(u64, String)> = Vec::new();
    let mut start: usize = 0;
    let mut reading = true;
    assert(block_models(blocks@) =~= Seq::<(u64, Seq<char>)>::empty());
    while reading
        invariant
            chars@ == content@,
            start <= chars@.len(),
            reading ==> joined_blocks(block_models(blocks@), blocks_from(chars@, start as int))
                == blocks_from(content@, 0),
            !reading ==> blocks_from(content@, 0) == Some(block_models(blocks@)),
        decreases chars@.len() - start + (if reading {
            1int
        } else {
            0
        }),
    {
        let end: usize = find_mark(&chars, start);
        let ghost before = block_models(blocks@);
        if start < end {
            assert(chars@.subrange(start as int, end as int).len() > 0);
            match read_block_at(&chars, start, end) {
                Some(block) => {
                    blocks.push(block);
                    assert(block_models(blocks@) =~= before + seq![(block.0, block.1@)]);
                },
                None => return None,
            }
        }
        if end == chars.len() {
            reading = false;
            assert(block_models(blocks@) =~= block_models(blocks@) + Seq::<
                (u64, Seq<char>),
            >::empty());
        } else {
            proof {
                let rest = blocks_from(chars@, end + 5);
                if rest is Some {
                    assert(before + (block_models(blocks@).skip(before.len() as int)
                        + rest->Some_0) =~= block_models(blocks@) + rest->Some_0);
                }
            }
            start = end + 5;
        }
    }
    Some(blocks)
}

/// Blocks in front of those that are still to be read.
pub open spec fn joined_blocks(
    blocks: Seq<(u64, Seq<char>)>,
    rest: Option<Seq<(u64, Seq<char>)>>,
) -> Option<Seq<(u64, Seq<char>)>> {
    match rest {
        Some(more) => Some(blocks + more),
        None => None,
    }
}

// ---------------------------------------------------------------------------
// What is logged is read back
// ---------------------------------------------------------------------------

/// The log of chips that were written one after the other.
pub open spec fn log_text(entries: Seq<(u64, Seq<char>)>) -> Seq<char>
    decreases entries.len(),
{
    if entries.len() == 0 {
        Seq::empty()
    } else {
        dump_text(entries[0].0, entries[0].1) + log_text(entries.drop_first())
    }
}

/// Whether no line that starts a block stands in a text.
pub open spec fn unmarked(text: Seq<char>) -> bool {
    forall|i: int| !mark_at(text, i)
}

proof fn lemma_mark_shift(text: Seq<char>, skipped: int, index: int)
    requires
        0 <= skipped <= index,
        skipped <= text.len(),
    ensures
        mark_at(text, index) == mark_at(text.skip(skipped), index - skipped),
{
    if index + 5 <= text.len() {
        assert(text.subrange(index, index + 5) =~= text.skip(skipped).subrange(
            index - skipped,
            index - skipped + 5,
        ));
    }
}

proof fn lemma_next_mark_shift(text: Seq<char>, skipped: int, start: int)
    requires
        0 <= skipped <= start <= text.len(),
    ensures
        next_mark(text, start) == skipped + next_mark(text.skip(skipped), start - skipped),
    decreases text.len() - start,
{
    if start < text.len() {
        lemma_mark_shift(text, skipped, start);
        if !mark_at(text, start) {
            lemma_next_mark_shift(text, skipped, start + 1);
        }
    }
}

proof fn lemma_blocks_shift(text: Seq<char>, skipped: int, start: int)
    requires
        0 <= skipped <= start <= text.len(),
    ensures
        blocks_from(text, start) == blocks_from(text.skip(skipped), start - skipped),
    decreases text.len() - start,
{
    let end = next_mark(text, start);
    let rest = text.skip(skipped);
    lemma_next_mark(text, start);
    lemma_next_mark_shift(text, skipped, start);
    assert(text.subrange(start, end) =~= rest.subrange(start - skipped, end - skipped));
    if end + 5 <= text.len() {
        lemma_blocks_shift(text, skipped, end + 5);
    }
}

proof fn lemma_first_break_at(text: Seq<char>, start: int, end: int)
    requires
        0 <= start <= end < text.len(),
        text[end] == '\n',
        forall|i: int| start <= i < end ==> text[i] != '\n',
    ensures
        first_break(text, start) == end,
    decreases end - start,
{
    if start < end {
        lemma_first_break_at(text, start + 1, end);
    }
}

proof fn lemma_next_mark_at(text: Seq<char>, start: int, end: int)
    requires
        0 <= start <= end <= text.len(),
        end < text.len() ==> mark_at(text, end),
        forall|i: int| start <= i < end ==> !mark_at(text, i),
    ensures
        next_mark(text, start) == end,
    decreases end - start,
{
    if start < end {
        assert(!mark_at(text, start));
        lemma_next_mark_at(text, start + 1, end);
    }
}

proof fn lemma_body_reads(timestamp_ms: u64, xml: Seq<char>)
    ensures
        block_body(timestamp_ms, xml).len() > 11,
        block_body(timestamp_ms, xml).last() == '\n',
        read_block(block_body(timestamp_ms, xml)) == Some(
            (timestamp_ms, without_leading_breaks(block_end(xml))),
        ),
{
    reveal_strlit("timestamp: ");
    reveal_strlit("\n");
    assert("timestamp: "@.len() == 11);
    assert("\n"@.len() == 1);
    let body = block_body(timestamp_ms, xml);
    let digits = decimal(timestamp_ms as nat);
    lemma_decimal_digits(timestamp_ms as nat);
    lemma_parse_decimal(timestamp_ms as nat, u64::MAX as nat);
    let end = 11 + digits.len() as int;
    assert(body.subrange(0, 11) =~= "timestamp: "@);
    assert(body.subrange(11, end) =~= digits);
    assert(body[end] == "\n"@[0]);
    assert forall|i: int| 11 <= i < end implies body[i] != '\n' by {
        assert(body[i] == digits[i - 11]);
        assert(is_digit(digits[i - 11]));
    }
    lemma_first_break_at(body, 11, end);
    let tail = body.subrange(end + 1, body.len() as int);
    assert(tail =~= "\n"@ + block_end(xml));
    assert(tail[0] == '\n');
    assert(tail.drop_first() =~= block_end(xml));
    assert(block_end(xml).last() == '\n');
    assert(body.last() == block_end(xml).last());
}

proof fn lemma_dump_reads(timestamp_ms: u64, xml: Seq<char>, rest: Seq<char>)
    requires
        unmarked(block_body(timestamp_ms, xml)),
        rest.len() > 0 ==> mark_at(rest, 0),
    ensures
        blocks_from(dump_text(timestamp_ms, xml) + rest, 0) == joined_blocks(
            seq![(timestamp_ms, without_leading_breaks(block_end(xml)))],
            blocks_from(rest, 0),
        ),
{
    reveal_strlit("----\n");
    assert("----\n"@.len() == 5);
    let body = block_body(timestamp_ms, xml);
    let text = dump_text(timestamp_ms, xml) + rest;
    let tail = body + rest;
    lemma_body_reads(timestamp_ms, xml);
    // The line that starts the block.
    assert(text.subrange(0, 5) =~= "----\n"@);
    assert(mark_at(text, 0));
    assert(next_mark(text, 0) == 0);
    assert(text.subrange(0, 0).len() == 0);
    assert(text.skip(5) =~= tail);
    lemma_blocks_shift(text, 5, 5);
    assert(blocks_from(text, 0) == blocks_from(tail, 0));
    // The block goes up to the next mark.
    let end = body.len() as int;
    assert forall|i: int| 0 <= i < end implies !mark_at(tail, i) by {
        if mark_at(tail, i) {
            if i + 5 <= end {
                assert(body.subrange(i, i + 5) =~= tail.subrange(i, i + 5));
                assert(mark_at(body, i));
            } else {
                let k = end - 1 - i;
                assert(tail.subrange(i, i + 5)[k] == tail[end - 1]);
                assert(tail[end - 1] == body.last());
                assert("----\n"@[k] == '-');
            }
        }
    }
    if rest.len() > 0 {
        assert(tail.skip(end) =~= rest);
        lemma_mark_shift(tail, end, end);
    }
    lemma_next_mark_at(tail, 0, end);
    assert(tail.subrange(0, end) =~= body);
    if rest.len() > 0 {
        assert(end + 5 <= tail.len());
        lemma_blocks_shift(tail, end, end + 5);
        assert(next_mark(rest, 0) == 0);
        assert(rest.subrange(0, 0).len() == 0);
        assert(blocks_from(rest, 0) == blocks_from(rest, 5));
    } else {
        let entry = (timestamp_ms, without_leading_breaks(block_end(xml)));
        assert(next_mark(rest, 0) == 0);
        assert(rest.subrange(0, 0).len() == 0);
        assert(blocks_from(rest, 0) == Some(Seq::<(u64, Seq<char>)>::empty()));
        assert(seq![entry] + Seq::<(u64, Seq<char>)>::empty() =~= seq![entry]);
    }
}

/// Reading a log gives back every block that was logged, in order: its time and its document,
/// without line breaks in front of it and with those that end the block. No block may hold the
/// line that starts a block.
pub proof fn logged_blocks_read_back(entries: Seq<(u64, Seq<char>)>)
    requires
        forall|i: int|
            0 <= i < entries.len() ==> unmarked(
                block_body((#[trigger] entries[i]).0, entries[i].1),
            ),
    ensures
        blocks_from(log_text(entries), 0) == Some(
            Seq::new(
                entries.len(),
                |i: int| (entries[i].0, without_leading_breaks(block_end(entries[i].1))),
            ),
        ),
    decreases entries.len(),
{
    let expected = Seq::new(
        entries.len(),
        |i: int| (entries[i].0, without_leading_breaks(block_end(entries[i].1))),
    );
    if entries.len() == 0 {
        let text = log_text(entries);
        assert(next_mark(text, 0) == 0);
        assert(text.subrange(0, 0).len() == 0);
        assert(expected =~= Seq::<(u64, Seq<char>)>::empty());
    } else {
        let others = entries.drop_first();
        assert forall|i: int| 0 <= i < others.len() implies unmarked(
            block_body((#[trigger] others[i]).0, others[i].1),
        ) by {
            assert(others[i] == entries[i + 1]);
        }
        logged_blocks_read_back(others);
        let rest = log_text(others);
        if others.len() > 0 {
            reveal_strlit("----\n");
            assert("----\n"@.len() == 5);
            assert(rest.subrange(0, 5) =~= "----\n"@);
            assert(mark_at(rest, 0));
        }
        assert(unmarked(block_body(entries[0].0, entries[0].1)));
        lemma_dump_reads(entries[0].0, entries[0].1, rest);
        let first = (entries[0].0, without_leading_breaks(block_end(entries[0].1)));
        let more = Seq::new(
            others.len(),
            |i: int| (others[i].0, without_leading_breaks(block_end(others[i].1))),
        );
        assert(expected =~= seq![first] + more);
    }
}

} // verus!

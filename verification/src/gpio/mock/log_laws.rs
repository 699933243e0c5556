//! What holds of the write log.

use vstd::prelude::*;

use crate::gpio::mock::log::blocks_from;
use crate::gpio::mock::log::dump_text;
use crate::gpio::mock::log::mark_at;
use crate::gpio::mock::log::next_mark;
use crate::gpio::mock::log::without_leading_breaks;
use crate::number::decimal;

verus! {

/// A block is a line of four dashes, the time in milliseconds behind `timestamp: `, an empty
/// line, the document with a line break at its end, and an empty line.
pub proof fn blocks_are_laid_out_line_by_line(timestamp_ms: u64, line: Seq<char>)
    ensures
        ({
            let block = "----\ntimestamp: "@ + decimal(timestamp_ms as nat) + "\n\n"@ + line
                + "\n\n"@;
            &&& (line.len() == 0 || line.last() != '\n') ==> dump_text(timestamp_ms, line) == block
            &&& dump_text(timestamp_ms, line + "\n"@) == block
        }),
{
    reveal_strlit("----\ntimestamp: ");
    reveal_strlit("----\n");
    reveal_strlit("timestamp: ");
    reveal_strlit("\n\n");
    reveal_strlit("\n");
    let block = "----\ntimestamp: "@ + decimal(timestamp_ms as nat) + "\n\n"@ + line + "\n\n"@;
    assert("----\ntimestamp: "@ =~= "----\n"@ + "timestamp: "@);
    assert("\n\n"@ =~= "\n"@ + "\n"@);
    if line.len() == 0 || line.last() != '\n' {
        assert(dump_text(timestamp_ms, line) =~= block);
    }
    assert((line + "\n"@).last() == '\n');
    assert(dump_text(timestamp_ms, line + "\n"@) =~= block);
}

/// A log is empty, or starts with a line of four dashes or with a time; otherwise it cannot be
/// read.
pub proof fn logs_start_with_a_time(text: Seq<char>)
    requires
        text.len() > 0,
        blocks_from(text, 0) is Some,
    ensures
        "----\n"@.is_prefix_of(text) || "timestamp: "@.is_prefix_of(text),
{
    reveal_strlit("----\n");
    reveal_strlit("timestamp: ");
    if mark_at(text, 0) {
        assert(text.subrange(0, 5) =~= text.take(5));
    } else {
        lemma_mark_behind(text, 1);
        let chunk = text.subrange(0, next_mark(text, 0));
        assert(chunk.len() > 0);
        assert(chunk.subrange(0, 11) =~= text.take(11));
    }
}

proof fn lemma_mark_behind(text: Seq<char>, start: int)
    requires
        0 <= start <= text.len(),
    ensures
        start <= next_mark(text, start) <= text.len(),
    decreases text.len() - start,
{
    if start < text.len() {
        lemma_mark_behind(text, start + 1);
    }
}

/// The document of a block is read without the line breaks in front of it, however many there
/// are, and is otherwise left as it is.
pub proof fn documents_are_read_without_leading_breaks(breaks: nat, text: Seq<char>)
    requires
        text.len() == 0 || text[0] != '\n',
    ensures
        without_leading_breaks(Seq::new(breaks, |i: int| '\n') + text) == text,
    decreases breaks,
{
    let whole = Seq::new(breaks, |i: int| '\n') + text;
    if breaks > 0 {
        let fewer = Seq::new((breaks - 1) as nat, |i: int| '\n') + text;
        documents_are_read_without_leading_breaks((breaks - 1) as nat, text);
        assert(whole.drop_first() =~= fewer);
        assert(whole[0] == '\n');
    } else {
        assert(whole =~= text);
    }
}

} // verus!

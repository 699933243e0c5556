//! The consumer that a session names when it requests lines.

use vstd::prelude::*;
use vstd::string::StringExecFns;

use crate::number::decimal;
use crate::number::number_text;
use crate::text::text_chars;

verus! {

/// Most characters that a configured consumer can have.
pub const MAX_CONSUMER_LEN: usize = 12;

/// The consumer when none is configured.
pub const DEFAULT_CONSUMER: &'static str = "svc_{id}";

/// Characters that a consumer can have: ASCII letters, digits, `-` and `_`.
pub open spec fn consumer_char(ch: char) -> bool {
    ||| 'a' <= ch && ch <= 'z'
    ||| 'A' <= ch && ch <= 'Z'
    ||| '0' <= ch && ch <= '9'
    ||| ch == '-'
    ||| ch == '_'
}

/// A text of consumer characters.
pub open spec fn consumer_text(text: Seq<char>) -> bool {
    forall|i: int| 0 <= i < text.len() ==> consumer_char(#[trigger] text[i])
}

/// Whether a configured consumer consists of these parts: a prefix alone, or a prefix, the
/// placeholder `{id}` and a suffix.
pub open spec fn consumer_parts(
    text: Seq<char>,
    prefix: Seq<char>,
    suffix: Option<Seq<char>>,
) -> bool {
    &&& consumer_text(prefix)
    &&& match suffix {
        None => text == prefix,
        Some(tail) => consumer_text(tail) && text == prefix + "{id}"@ + tail,
    }
}

/// Whether a configured consumer is valid: one to twelve characters, with at most one
/// placeholder `{id}`.
pub open spec fn valid_consumer(text: Seq<char>) -> bool {
    &&& 0 < text.len() <= MAX_CONSUMER_LEN
    &&& exists|prefix: Seq<char>, suffix: Option<Seq<char>>|
        consumer_parts(text, prefix, suffix)
}

/// What a consumer of these parts is in a session.
pub open spec fn rendered_parts(
    prefix: Seq<char>,
    suffix: Option<Seq<char>>,
    session_id: u64,
) -> Seq<char> {
    match suffix {
        None => prefix,
        Some(tail) => prefix + decimal(session_id as nat) + tail,
    }
}

/// A valid configured consumer.
#[derive(Debug, Clone, PartialEq, Eq)]
pub struct ConsumerTemplate {
    prefix: String,
    suffix: Option<String>,
}

fn is_consumer_char(ch: char) -> (result: bool)
    ensures
        result == consumer_char(ch),
{
    ('a' <= ch && ch <= 'z') || ('A' <= ch && ch <= 'Z') || ('0' <= ch && ch <= '9') || ch == '-'
        || ch == '_'
}

/// How many characters from a position on are consumer characters.
fn consumer_run(chars: &Vec<char>, start: usize) -> (end: usize)
    requires
        start <= chars@.len(),
    ensures
        start <= end <= chars@.len(),
        consumer_text(chars@.subrange(start as int, end as int)),
        end < chars@.len() ==> !consumer_char(chars@[end as int]),
{
    let mut end: usize = start;
    while end < chars.len() && is_consumer_char(chars[end])
        invariant
            start <= end <= chars@.len(),
            consumer_text(chars@.subrange(start as int, end as int)),
        decreases chars@.len() - end,
    {
        end += 1;
        assert(chars@.subrange(start as int, end as int) =~= chars@.subrange(
            start as int,
            end - 1,
        ).push(chars@[end - 1]));
    }
    end
}

fn characters(chars: &Vec<char>, start: usize, end: usize) -> (text: String)
    requires
        start <= end <= chars@.len(),
    ensures
        text@ == chars@.subrange(start as int, end as int),
{
    let mut text = String::new();
    let mut index: usize = start;
    while index < end
        invariant
            start <= index <= end <= chars@.len(),
            text@ == chars@.subrange(start as int, index as int),
        decreases end - index,
    {
        text.push(chars[index]);
        index += 1;
        assert(chars@.subrange(start as int, index as int) =~= chars@.subrange(
            start as int,
            index - 1,
        ).push(chars@[index - 1]));
    }
    text
}

/// The prefix of a consumer ends at the first character that is none of a consumer's.
proof fn lemma_parts_end(text: Seq<char>, end: int, prefix: Seq<char>, suffix: Option<Seq<char>>)
    requires
        0 <= end <= text.len(),
        consumer_text(text.subrange(0, end)),
        end < text.len() ==> !consumer_char(text[end]),
        consumer_parts(text, prefix, suffix),
    ensures
        prefix == text.subrange(0, end),
        suffix is None ==> end == text.len(),
        suffix matches Some(tail) ==> {
            &&& end + 4 <= text.len()
            &&& text.subrange(end, end + 4) == "{id}"@
            &&& tail == text.subrange(end + 4, text.len() as int)
        },
{
    reveal_strlit("{id}");
    assert("{id}"@.len() == 4);
    match suffix {
        None => {
            if end < text.len() {
                assert(consumer_char(prefix[end]));
            }
            assert(prefix =~= text.subrange(0, end));
        },
        Some(tail) => {
            let at = prefix.len() as int;
            assert(text[at] == "{id}"@[0]);
            assert(!consumer_char('{'));
            if end < at {
                assert(text[end] == prefix[end]);
                assert(consumer_char(prefix[end]));
            }
            if at < end {
                assert(text.subrange(0, end)[at] == text[at]);
            }
            assert(prefix =~= text.subrange(0, end));
            assert(text.subrange(end, end + 4) =~= "{id}"@);
            assert(tail =~= text.subrange(end + 4, text.len() as int));
        },
    }
}

impl ConsumerTemplate {
    /// The text in front of the placeholder.
    pub closed spec fn prefix(&self) -> Seq<char> {
        self.prefix@
    }

    /// The text behind the placeholder, where there is one.
    pub closed spec fn suffix(&self) -> Option<Seq<char>> {
        match self.suffix {
            Some(tail) => Some(tail@),
            None => None,
        }
    }

    /// Reads a configured consumer. The result is `None` where it is not valid.
    pub fn parse(text: &str) -> (result: Option<Self>)
        ensures
            result is Some <==> valid_consumer(text@),
            result matches Some(template) ==> consumer_parts(
                text@,
                template.prefix(),
                template.suffix(),
            ),
    {
        let chars = text_chars(text);
        if chars.len() == 0 || chars.len() > MAX_CONSUMER_LEN {
            return None;
        }
        let end: usize = consumer_run(&chars, 0);
        let ghost whole = text@;
        proof {
            reveal_strlit("{id}");
            assert("{id}"@.len() == 4);
        }
        if end == chars.len() {
            let template = ConsumerTemplate { prefix: characters(&chars, 0, end), suffix: None };
            proof {
                assert(whole.subrange(0, end as int) =~= whole);
                assert(consumer_parts(whole, template.prefix(), template.suffix()));
            }
            return Some(template);
        }
        let placeholder = chars.len() - end >= 4 && chars[end] == '{' && chars[end + 1] == 'i'
            && chars[end + 2] == 'd' && chars[end + 3] == '}';
        if placeholder {
            let tail_end: usize = consumer_run(&chars, end + 4);
            if tail_end == chars.len() {
                let template = ConsumerTemplate {
                    prefix: characters(&chars, 0, end),
                    suffix: Some(characters(&chars, end + 4, tail_end)),
                };
                proof {
                    assert(whole =~= template.prefix() + "{id}"@ + template.suffix()->Some_0);
                    assert(consumer_parts(whole, template.prefix(), template.suffix()));
                }
                return Some(template);
            }
            proof {
                assert forall|prefix: Seq<char>, suffix: Option<Seq<char>>| !consumer_parts(
                    whole,
                    prefix,
                    suffix,
                ) by {
                    if consumer_parts(whole, prefix, suffix) {
                        lemma_parts_end(whole, end as int, prefix, suffix);
                        let tail = suffix->Some_0;
                        assert(tail[tail_end - (end + 4)] == whole[tail_end as int]);
                    }
                }
            }
            return None;
        }
        proof {
            assert forall|prefix: Seq<char>, suffix: Option<Seq<char>>| !consumer_parts(
                whole,
                prefix,
                suffix,
            ) by {
                if consumer_parts(whole, prefix, suffix) {
                    lemma_parts_end(whole, end as int, prefix, suffix);
                    let part = whole.subrange(end as int, end + 4);
                    assert(part[0] == whole[end as int]);
                    assert(part[1] == whole[end + 1]);
                    assert(part[2] == whole[end + 2]);
                    assert(part[3] == whole[end + 3]);
                }
            }
        }
        None
    }

    /// The consumer when none is configured.
    pub fn default_template() -> (template: Self)
        ensures
            consumer_parts("svc_{id}"@, template.prefix(), template.suffix()),
    {
        proof {
            reveal_strlit("svc_{id}");
            reveal_strlit("svc_");
            reveal_strlit("");
            reveal_strlit("{id}");
        }
        let template = ConsumerTemplate {
            prefix: "svc_".to_owned(),
            suffix: Some(String::new()),
        };
        assert("svc_{id}"@ =~= template.prefix() + "{id}"@ + template.suffix()->Some_0);
        template
    }

    /// The consumer in a session: the placeholder becomes the number of the session.
    pub fn render(&self, session_id: u64) -> (consumer: String)
        ensures
            consumer@ == rendered_parts(self.prefix(), self.suffix(), session_id),
    {
        match &self.suffix {
            Some(tail) => self.prefix.clone().concat(number_text(session_id).as_str()).concat(
                tail.as_str(),
            ),
            None => self.prefix.clone(),
        }
    }
}

/// A consumer has one decomposition only, so that what it is in a session depends on its text
/// and the number of the session alone.
pub proof fn consumer_parts_are_unique(
    text: Seq<char>,
    prefix: Seq<char>,
    suffix: Option<Seq<char>>,
    other_prefix: Seq<char>,
    other_suffix: Option<Seq<char>>,
)
    requires
        consumer_parts(text, prefix, suffix),
        consumer_parts(text, other_prefix, other_suffix),
    ensures
        prefix == other_prefix,
        suffix == other_suffix,
{
    reveal_strlit("{id}");
    let end = prefix.len() as int;
    assert(text.subrange(0, end) =~= prefix);
    if suffix is Some {
        assert(text[end] == "{id}"@[0]);
        assert(!consumer_char('{'));
    }
    lemma_parts_end(text, end, prefix, suffix);
    lemma_parts_end(text, end, other_prefix, other_suffix);
}

} // verus!

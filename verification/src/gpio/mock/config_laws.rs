//! What holds of the configuration of requested lines, and of how documents are read.

use vstd::prelude::*;

use crate::gpio::libgpiod::LineBias;
use crate::gpio::libgpiod::LineClock;
use crate::gpio::libgpiod::LineDirection;
use crate::gpio::libgpiod::LineDrive;
use crate::gpio::libgpiod::LineEdge;
use crate::gpio::libgpiod::LineValue;
use crate::gpio::mock::config::default_line_state;
use crate::gpio::mock::config::reported_settings;
use crate::gpio::mock::config::state_at;
use crate::gpio::mock::config::MockRequestLineState;
use crate::gpio::mock::xml::token_event;
use crate::gpio::mock::xml::xml_attributes;
use crate::gpio::mock::xml::XmlEventModel;
use crate::gpio::mock::xml::XmlTokenModel;
use crate::gpio::traits::default_settings;
use crate::gpio::traits::with_offsets;

verus! {

/// Settings of which nothing was asked leave the line as it is: its direction and its bias,
/// without edges, not inverted, not debounced, and without an output value, which reads as
/// inactive.
pub proof fn nothing_asked_leaves_the_line()
    ensures
        ({
            let state = default_line_state();
            &&& state.direction == LineDirection::AsIs
            &&& state.edge == LineEdge::NoEdge
            &&& state.bias == LineBias::AsIs
            &&& state.drive == LineDrive::PushPull
            &&& !state.active_low
            &&& state.debounce_period_us == 0
            &&& state.event_clock == LineClock::Monotonic
            &&& state.output_value is None
            &&& reported_settings(state) == default_settings()
            &&& default_settings().output_value == LineValue::Inactive
        }),
{
}

/// Settings are reported as they were asked for.
pub proof fn settings_are_reported_as_asked(state: MockRequestLineState)
    ensures
        reported_settings(state).direction == state.direction,
        reported_settings(state).edge == state.edge,
        reported_settings(state).bias == state.bias,
        reported_settings(state).drive == state.drive,
        reported_settings(state).active_low == state.active_low,
        reported_settings(state).debounce_period_us == state.debounce_period_us,
        reported_settings(state).event_clock == state.event_clock,
        state.output_value matches Some(value) ==> reported_settings(state).output_value == value,
{
}

/// Of settings that are given to a line more than once the last count.
pub proof fn the_last_settings_count(lines: Seq<(u32, MockRequestLineState)>, index: int)
    requires
        0 <= index < lines.len(),
        forall|later: int|
            index < later < lines.len() ==> (#[trigger] lines[later]).0 != lines[index].0,
    ensures
        state_at(lines, lines[index].0) == lines[index].1,
    decreases lines.len(),
{
    if index < lines.len() - 1 {
        let front = lines.drop_last();
        assert(lines.last() == lines[lines.len() - 1]);
        assert forall|later: int| index < later < front.len() implies (#[trigger] front[later]).0
            != front[index].0 by {
            assert(front[later] == lines[later]);
        }
        the_last_settings_count(front, index);
    }
}

/// Lines are kept in the order in which they were first named, each once: those that were
/// there before, and then the new ones.
pub proof fn lines_stand_in_the_order_of_their_first_naming(offsets: Seq<u32>, added: Seq<u32>)
    ensures
        offsets.is_prefix_of(with_offsets(offsets, added)),
        forall|offset: u32| #[trigger]
            with_offsets(offsets, added).contains(offset) <==> offsets.contains(offset)
                || added.contains(offset),
        offsets.no_duplicates() ==> with_offsets(offsets, added).no_duplicates(),
        forall|i: int|
            0 <= i < added.len() && !offsets.contains(#[trigger] added[i]) && !added.take(
                i,
            ).contains(added[i]) ==> with_offsets(offsets, added.take(i + 1)) == with_offsets(
                offsets,
                added.take(i),
            ).push(added[i]),
    decreases added.len(),
{
    if added.len() > 0 {
        let front = added.drop_last();
        let last = added.len() - 1;
        lines_stand_in_the_order_of_their_first_naming(offsets, front);
        let before = with_offsets(offsets, front);
        let after = with_offsets(offsets, added);
        assert(offsets.is_prefix_of(after)) by {
            assert(before.take(offsets.len() as int) =~= offsets);
            assert(after.take(offsets.len() as int) =~= offsets);
        }
        assert forall|offset: u32| #[trigger] after.contains(offset) <==> offsets.contains(offset)
            || added.contains(offset) by {
            if added.contains(offset) {
                let i = choose|i: int| 0 <= i < added.len() && added[i] == offset;
                if i < last {
                    assert(front[i] == offset);
                }
            }
            if front.contains(offset) {
                let i = choose|i: int| 0 <= i < front.len() && front[i] == offset;
                assert(added[i] == offset);
            }
            if before.contains(offset) {
                let i = choose|i: int| 0 <= i < before.len() && before[i] == offset;
                assert(after[i] == offset);
            }
            if after.contains(offset) && !before.contains(offset) {
                let i = choose|i: int| 0 <= i < after.len() && after[i] == offset;
                if i < before.len() {
                    assert(before[i] == offset);
                }
                assert(added[last] == offset);
            }
            assert(added[last] == added.last());
            if offset == added.last() && !before.contains(offset) {
                assert(after[before.len() as int] == offset);
            }
        }
        assert forall|i: int|
            0 <= i < added.len() && !offsets.contains(#[trigger] added[i]) && !added.take(
                i,
            ).contains(added[i]) implies with_offsets(offsets, added.take(i + 1)) == with_offsets(
            offsets,
            added.take(i),
        ).push(added[i]) by {
            let upto = added.take(i + 1);
            assert(upto.drop_last() =~= added.take(i));
            assert(upto.last() == added[i]);
            if i < last {
                assert(front[i] == added[i]);
                assert(front.take(i) =~= added.take(i));
                assert(front.take(i + 1) =~= upto);
            } else {
                assert(added.take(i) =~= front);
                assert(!before.contains(added[i]));
            }
        }
    } else {
        assert(offsets.take(offsets.len() as int) =~= offsets);
    }
}

/// Reading a document keeps the kind of what is met: tags that open, close or stand alone, with
/// their names and attributes, texts, and where the document ends or breaks.
pub proof fn tags_are_read_as_they_stand(name: Seq<char>, content: Seq<char>)
    ensures
        token_event(XmlTokenModel::Start { name, content }) == (XmlEventModel::Start {
            name,
            attributes: xml_attributes(content, name),
        }),
        token_event(XmlTokenModel::Empty { name, content }) == (XmlEventModel::Empty {
            name,
            attributes: xml_attributes(content, name),
        }),
        token_event(XmlTokenModel::End { name }) == (XmlEventModel::End { name }),
        token_event(XmlTokenModel::Text { text: content }) == (XmlEventModel::Text {
            text: content,
        }),
        token_event(XmlTokenModel::Other) == XmlEventModel::Other,
        token_event(XmlTokenModel::Eof) == XmlEventModel::Eof,
        token_event(XmlTokenModel::Malformed { message: content }) == (XmlEventModel::Malformed {
            message: content,
        }),
{
}

} // verus!

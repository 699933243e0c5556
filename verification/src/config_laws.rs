//! What holds of configurations.

use vstd::prelude::*;

use crate::config::ConfigError;
use crate::config::ServiceConfig;
use crate::config::config_fault;
use crate::config::config_path;
use crate::config::consumer_member;
use crate::config::consumer_or_default;
use crate::config::first_without_device;
use crate::config::gpiod_members;
use crate::config::pin_entries;
use crate::config::pin_entry;
use crate::config::socket_member;
use crate::config::structure_fault;
use crate::config::ConfigErrorModel;
use crate::consumer::consumer_char;
use crate::consumer::consumer_parts;
use crate::consumer::consumer_parts_are_unique;
use crate::consumer::rendered_parts;
use crate::consumer::valid_consumer;
use crate::document::named_member;
use crate::document::toml_document;
use crate::document::toml_item;
use crate::document::TomlItemModel;
use crate::document::toml_skips;
use crate::number::decimal;
use crate::text::text_precedes;
use crate::text::text_precedes_total;
use crate::text::text_precedes_transitive;
use toml::de::DeValue;

verus! {

// ---------------------------------------------------------------------------
// The file
// ---------------------------------------------------------------------------

/// A path on the command line names the configuration, whatever the environment says; without
/// one the environment does, where it is not empty; otherwise the file has its usual name.
pub proof fn the_command_line_names_the_file_first(path: Seq<char>, env: Option<Seq<char>>)
    ensures
        config_path(Some(path), env) == path,
        path.len() > 0 ==> config_path(None, Some(path)) == path,
        config_path(None, Some(Seq::empty())) == "gpiojsonsvc.toml"@,
        config_path(None, None) == "gpiojsonsvc.toml"@,
{
}

// ---------------------------------------------------------------------------
// Values
// ---------------------------------------------------------------------------

proof fn lemma_first(pins: Map<Seq<char>, (Seq<char>, u32)>, among: Set<Seq<char>>)
    requires
        among.finite(),
        among.len() > 0,
        forall|pin: Seq<char>| #[trigger]
            among.contains(pin) ==> pins.contains_key(pin) && pins[pin].0.len() == 0,
    ensures
        exists|first: Seq<char>|
            {
                &&& #[trigger] among.contains(first)
                &&& forall|other: Seq<char>| #[trigger]
                    among.contains(other) ==> other == first || text_precedes(first, other)
            },
    decreases among.len(),
{
    let one = among.choose();
    let rest = among.remove(one);
    assert(among.contains(one));
    if rest.len() == 0 {
        assert forall|other: Seq<char>| #[trigger] among.contains(other) implies other == one by {
            if other != one {
                assert(rest.contains(other));
            }
        }
    } else {
        lemma_first(pins, rest);
        let first = choose|first: Seq<char>|
            {
                &&& #[trigger] rest.contains(first)
                &&& forall|other: Seq<char>| #[trigger]
                    rest.contains(other) ==> other == first || text_precedes(first, other)
            };
        text_precedes_total(one, first);
        let least = if text_precedes(one, first) {
            one
        } else {
            first
        };
        assert(among.contains(least));
        assert forall|other: Seq<char>| #[trigger] among.contains(other) implies other == least
            || text_precedes(least, other) by {
            if other != one {
                assert(rest.contains(other));
                if least == one && other != first {
                    text_precedes_transitive(one, first, other);
                }
            }
        }
    }
}

/// Values are a configuration exactly where the socket is named, the consumer is valid where
/// there is one, there is at least one pin, and no pin has an empty name or an empty device.
pub proof fn complete_values_are_a_configuration(
    socket: Seq<char>,
    consumer: Option<Seq<char>>,
    pins: Map<Seq<char>, (Seq<char>, u32)>,
)
    requires
        pins.dom().finite(),
    ensures
        config_fault(socket, consumer, pins) is None <==> {
            &&& socket.len() > 0
            &&& consumer matches Some(text) ==> valid_consumer(text)
            &&& exists|pin: Seq<char>| #[trigger] pins.contains_key(pin)
            &&& forall|pin: Seq<char>| #[trigger]
                pins.contains_key(pin) ==> pin.len() > 0 && pins[pin].0.len() > 0
        },
{
    let without = pins.dom().filter(|pin: Seq<char>| pins[pin].0.len() == 0);
    if exists|pin: Seq<char>| #[trigger] pins.contains_key(pin) && pins[pin].0.len() == 0 {
        let pin = choose|pin: Seq<char>| #[trigger]
            pins.contains_key(pin) && pins[pin].0.len() == 0;
        assert(without.contains(pin));
        assert(without.len() > 0) by {
            if without.len() == 0 {
                assert(without =~= Set::empty());
            }
        }
        lemma_first(pins, without);
        let first = choose|first: Seq<char>|
            {
                &&& #[trigger] without.contains(first)
                &&& forall|other: Seq<char>| #[trigger]
                    without.contains(other) ==> other == first || text_precedes(first, other)
            };
        assert forall|other: Seq<char>| #[trigger]
            pins.contains_key(other) && pins[other].0.len() == 0 implies other == first
            || text_precedes(first, other) by {
            assert(without.contains(other));
        }
        assert(first_without_device(pins, first));
    }
    if pins.dom() == Set::<Seq<char>>::empty() {
        assert forall|pin: Seq<char>| !pins.contains_key(pin) by {
            assert(!pins.dom().contains(pin));
        }
    } else {
        assert(exists|pin: Seq<char>| #[trigger] pins.contains_key(pin)) by {
            if forall|pin: Seq<char>| !#[trigger] pins.contains_key(pin) {
                assert(pins.dom() =~= Set::<Seq<char>>::empty());
            }
        }
    }
    assert forall|pin: Seq<char>| #[trigger] pins.contains_key(pin) && pin.len() == 0 implies pin
        == Seq::<char>::empty() by {
        assert(pin =~= Seq::<char>::empty());
    }
}

/// What is wrong with values is named: an empty socket, a consumer that is not valid, no pins, a
/// pin without a name, or a pin without a device; the first such pin in the order of the names.
pub proof fn faulty_values_are_named(
    socket: Seq<char>,
    consumer: Option<Seq<char>>,
    pins: Map<Seq<char>, (Seq<char>, u32)>,
)
    ensures
        socket.len() == 0 ==> config_fault(socket, consumer, pins) == Some(
            ConfigErrorModel::EmptySocket,
        ),
        config_fault(socket, consumer, pins) matches Some(error) ==> match error {
            ConfigErrorModel::EmptySocket => socket.len() == 0,
            ConfigErrorModel::InvalidConsumer { consumer: text } => consumer == Some(text)
                && !valid_consumer(text),
            ConfigErrorModel::EmptyPinMap => forall|pin: Seq<char>| !#[trigger]
                pins.contains_key(pin),
            ConfigErrorModel::EmptyPinKey => pins.contains_key(Seq::empty()),
            ConfigErrorModel::EmptyDevice { pin } => {
                &&& pins.contains_key(pin)
                &&& pins[pin].0.len() == 0
                &&& forall|other: Seq<char>| #[trigger]
                    pins.contains_key(other) && pins[other].0.len() == 0 ==> other == pin
                        || text_precedes(pin, other)
            },
            _ => false,
        },
{
    if pins.dom() == Set::<Seq<char>>::empty() {
        assert forall|pin: Seq<char>| !#[trigger] pins.contains_key(pin) by {
            assert(!pins.dom().contains(pin));
        }
    }
}

// ---------------------------------------------------------------------------
// The consumer
// ---------------------------------------------------------------------------

/// A consumer is at most twelve characters long and made of letters, digits, `-` and `_`. The
/// characters of its placeholder are none of these, so that a valid consumer without it is made
/// of such characters alone.
pub proof fn consumers_are_short_and_plain(text: Seq<char>, ch: char)
    ensures
        valid_consumer(text) ==> 1 <= text.len() <= 12,
        consumer_char(ch) <==> (48 <= ch as u32 <= 57 || 65 <= ch as u32 <= 90 || 97 <= ch as u32
            <= 122 || ch as u32 == 45 || ch as u32 == 95),
        (forall|i: int| 0 <= i < text.len() ==> consumer_char(#[trigger] text[i])) && 1
            <= text.len() <= 12 ==> valid_consumer(text),
{
    if (forall|i: int| 0 <= i < text.len() ==> consumer_char(#[trigger] text[i])) && 1
        <= text.len() <= 12 {
        assert(consumer_parts(text, text, None));
    }
}

/// A consumer without a placeholder is the same in every session; in one with a placeholder the
/// number of the session stands in its place. Where none is configured it is `svc_` and the
/// number.
pub proof fn sessions_stand_in_the_placeholder(
    before: Seq<char>,
    behind: Seq<char>,
    prefix: Seq<char>,
    suffix: Option<Seq<char>>,
    session_id: u64,
)
    requires
        forall|i: int| 0 <= i < before.len() ==> consumer_char(#[trigger] before[i]),
        forall|i: int| 0 <= i < behind.len() ==> consumer_char(#[trigger] behind[i]),
    ensures
        consumer_parts(before, prefix, suffix) ==> rendered_parts(prefix, suffix, session_id)
            == before,
        consumer_parts(before + "{id}"@ + behind, prefix, suffix) ==> rendered_parts(
            prefix,
            suffix,
            session_id,
        ) == before + decimal(session_id as nat) + behind,
        before.len() + 4 + behind.len() <= 12 ==> valid_consumer(before + "{id}"@ + behind),
        consumer_or_default(None) == "svc_{id}"@,
        consumer_or_default(Some(before)) == before,
{
    assert(consumer_parts(before, before, None));
    assert(consumer_parts(before + "{id}"@ + behind, before, Some(behind)));
    reveal_strlit("{id}");
    if consumer_parts(before, prefix, suffix) {
        consumer_parts_are_unique(before, before, None, prefix, suffix);
    }
    if consumer_parts(before + "{id}"@ + behind, prefix, suffix) {
        consumer_parts_are_unique(
            before + "{id}"@ + behind,
            before,
            Some(behind),
            prefix,
            suffix,
        );
    }
}

// ---------------------------------------------------------------------------
// The document
// ---------------------------------------------------------------------------

/// What a member of a table is.
pub open spec fn member_item(item: TomlItemModel<'_>, name: Seq<char>) -> Option<
    TomlItemModel<'_>,
> {
    match item {
        TomlItemModel::Table(members) => match named_member(members, name) {
            Some(value) => Some(toml_item(value)),
            None => None,
        },
        _ => None,
    }
}

/// A pin that is written as a table is at the line that its members name.
pub proof fn pins_are_where_their_tables_say(value: DeValue<'_>)
    requires
        toml_item(value) is Table,
    ensures
        pin_entry(value) matches Some((device, line)) ==> {
            &&& member_item(toml_item(value), "device"@) == Some(TomlItemModel::Text(device))
            &&& member_item(toml_item(value), "line"@) == Some(
                TomlItemModel::Integer(Some(line as i64)),
            )
        },
        pin_entry(value) is Some <==> {
            &&& member_item(toml_item(value), "device"@) matches Some(TomlItemModel::Text(_))
            &&& member_item(toml_item(value), "line"@) matches Some(
                TomlItemModel::Integer(Some(number)),
            ) && 0 <= number <= u32::MAX
        },
{
}

/// A pin that is written as a list names its device first and its line second.
pub proof fn pins_are_where_their_lists_say(value: DeValue<'_>)
    requires
        toml_item(value) is List,
    ensures
        ({
            let values = toml_item(value)->List_0;
            &&& pin_entry(value) is Some <==> {
                &&& values.len() >= 2
                &&& toml_item(values[0]) is Text
                &&& toml_item(values[1]) matches TomlItemModel::Integer(Some(number)) && 0
                    <= number <= u32::MAX
            }
            &&& pin_entry(value) matches Some((device, line)) ==> toml_item(values[0])
                == TomlItemModel::Text(device) && toml_item(values[1]) == TomlItemModel::Integer(
                Some(line as i64),
            )
        }),
{
}

/// Where the sections of a document are tables, its socket, its consumer and its pins are the
/// members `service.socket`, `service.gpio-consumer` and `pins.gpiod`.
pub proof fn values_are_where_the_document_has_them(document: DeValue<'_>)
    requires
        structure_fault(document) is None,
        member_item(toml_item(document), "service"@) matches Some(TomlItemModel::Table(_)),
        member_item(toml_item(document), "pins"@) matches Some(TomlItemModel::Table(_)),
    ensures
        ({
            let service = member_item(toml_item(document), "service"@)->Some_0;
            let pins = member_item(toml_item(document), "pins"@)->Some_0;
            &&& socket_member(document) matches Some(socket) && member_item(service, "socket"@)
                == Some(TomlItemModel::Text(socket))
            &&& match member_item(service, "gpio-consumer"@) {
                None => consumer_member(document) == Ok::<Option<Seq<char>>, ()>(None),
                Some(item) => item is Text && consumer_member(document) == Ok::<
                    Option<Seq<char>>,
                    (),
                >(Some(item->Text_0)),
            }
            &&& gpiod_members(document) matches Some(members) && member_item(pins, "gpiod"@)
                == Some(TomlItemModel::Table(members))
        }),
{
}

/// The pins of a table are its members, each where its own value says, the last of those with
/// one name.
pub proof fn every_member_is_a_pin(members: Seq<(Seq<char>, DeValue<'static>)>, pin: Seq<char>)
    ensures
        pin_entries(members).contains_key(pin) <==> named_member(members, pin) is Some,
        named_member(members, pin) matches Some(value) ==> pin_entry(value) is Some
            ==> pin_entries(members)[pin] == pin_entry(value)->Some_0,
    decreases members.len(),
{
    if members.len() > 0 {
        every_member_is_a_pin(members.drop_last(), pin);
    }
}

/// A text that is no configuration is refused with the path of its file and the words of what
/// is wrong with it.
pub proof fn broken_texts_are_told_with_their_path(
    contents: Seq<char>,
    path: Option<Seq<char>>,
    result: Result<ServiceConfig, ConfigError>,
)
    requires
        ServiceConfig::toml_result(contents, path, result),
    ensures
        toml_document(contents) matches Err(source) ==> (result matches Err(error) && error@ == (
        ConfigErrorModel::Parse { path, source })),
        toml_document(contents) matches Ok(document) ==> structure_fault(document) matches Some(
            source,
        ) ==> (result matches Err(error) && error@ == (ConfigErrorModel::Parse { path, source })),
        result is Ok ==> toml_document(contents) is Ok && structure_fault(
            toml_document(contents)->Ok_0,
        ) is None,
{
}

/// What a document lacks to be a configuration is told in these words, the first of these that
/// it lacks.
pub proof fn lacking_documents_are_told(document: DeValue<'_>)
    ensures
        ({
            let fault = structure_fault(document);
            let socket = socket_member(document) is Some;
            let consumer = consumer_member(document) is Ok;
            &&& !socket ==> fault == Some("`service.socket` must be a string"@)
            &&& socket && !consumer ==> fault == Some("`service.gpio-consumer` must be a string"@)
            &&& socket && consumer && gpiod_members(document) is None ==> fault == Some(
                "`pins.gpiod` must be a table"@,
            )
            &&& socket && consumer && gpiod_members(document) is Some && (exists|i: int|
                0 <= i < gpiod_members(document)->Some_0.len() && pin_entry(
                    (#[trigger] gpiod_members(document)->Some_0[i]).1,
                ) is None) ==> fault == Some(
                "every pin must have a string `device` and a `line` that is a u32"@,
            )
        }),
{
}

/// A member that the configuration does not know stands in its way only where it cannot be
/// thrown away.
pub proof fn unknown_members_are_thrown_away(
    document: DeValue<'_>,
    members: Seq<(Seq<char>, DeValue<'_>)>,
    index: int,
)
    requires
        structure_fault(document) is None,
        toml_item(document) == TomlItemModel::Table(members),
        0 <= index < members.len(),
        members[index].0 != "service"@,
        members[index].0 != "pins"@,
    ensures
        toml_skips(members[index].1),
{
    assert(members[index].0 != "service"@);
}

/// A configuration that is read from a text has the socket of the document, its consumer, and a
/// pin for every member of its table of pins and for nothing else, each where that member says.
/// The consumer is `svc_` and the session where the document names none.
pub proof fn configurations_have_the_values_of_their_document(
    contents: Seq<char>,
    path: Option<Seq<char>>,
    config: ServiceConfig,
    pin: Seq<char>,
)
    requires
        ServiceConfig::toml_result(contents, path, Ok(config)),
    ensures
        ({
            let document = toml_document(contents)->Ok_0;
            let members = gpiod_members(document)->Some_0;
            let consumer = match consumer_member(document)->Ok_0 {
                Some(text) => text,
                None => "svc_{id}"@,
            };
            &&& toml_document(contents) is Ok
            &&& socket_member(document) == Some(config.socket@)
            &&& config.socket@.len() > 0
            &&& config.consumer_suffix() is None ==> consumer == config.consumer_prefix()
            &&& config.consumer_suffix() matches Some(tail) ==> consumer == config.consumer_prefix()
                + "{id}"@ + tail
            &&& config.pins().contains_key(pin) <==> pin_entries(members).contains_key(pin)
            &&& config.pins().contains_key(pin) ==> config.pins()[pin] == pin_entries(members)[pin]
        }),
{
}

} // verus!

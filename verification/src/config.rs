//! Service configuration: the socket, the consumer and the pin map.

use toml::de::DeValue;
use vstd::prelude::*;
use vstd::string::StringExecFns;

use crate::consumer::consumer_parts;
use crate::consumer::rendered_parts;
use crate::consumer::valid_consumer;
use crate::consumer::ConsumerTemplate;
use crate::document::TomlItem;
use crate::document::TomlItemModel;
use crate::document::field;
use crate::document::find_field;
use crate::document::item_of;
use crate::document::member_models;
use crate::document::named_member;
use crate::document::parse_document;
use crate::document::rest_skips;
use crate::document::skips_rest;
use crate::document::toml_document;
use crate::document::toml_item;
use crate::names::ascending;
use crate::names::lemma_ascending_distinct;
use crate::names::lemma_paired;
use crate::names::NameMap;
use crate::text::text_precedes;
use crate::text::text_precedes_irreflexive;
use crate::text::text_precedes_transitive;

verus! {

/// Environment variable that can supply the config file path.
pub const CONFIG_ENV_VAR: &'static str = "GPIOJSONSVC_CONFIG";

/// Config file when no path is given.
pub const DEFAULT_CONFIG_PATH: &'static str = "gpiojsonsvc.toml";

/// Where a pin is: a device and a line of it.
#[derive(Debug, Clone, PartialEq, Eq)]
pub struct GPIODPinSpec {
    pub device: String,
    pub line: u32,
}

impl View for GPIODPinSpec {
    type V = (Seq<char>, u32);

    open spec fn view(&self) -> (Seq<char>, u32) {
        (self.device@, self.line)
    }
}

/// Why there is no configuration.
#[derive(Debug, Clone, PartialEq, Eq)]
pub enum ConfigError {
    Read { path: String, source: String },
    /// The text is no TOML document, in the words of `toml`, or the document is no
    /// configuration, in words of this module.
    Parse { path: Option<String>, source: String },
    EmptySocket,
    InvalidConsumer { consumer: String },
    EmptyPinMap,
    EmptyPinKey,
    EmptyDevice { pin: String },
}

/// A [`ConfigError`] with its texts as character sequences.
pub ghost enum ConfigErrorModel {
    Read { path: Seq<char>, source: Seq<char> },
    Parse { path: Option<Seq<char>>, source: Seq<char> },
    EmptySocket,
    InvalidConsumer { consumer: Seq<char> },
    EmptyPinMap,
    EmptyPinKey,
    EmptyDevice { pin: Seq<char> },
}

/// The view of an optional path.
pub open spec fn path_model(path: Option<String>) -> Option<Seq<char>> {
    match path {
        Some(inner) => Some(inner@),
        None => None,
    }
}

impl View for ConfigError {
    type V = ConfigErrorModel;

    open spec fn view(&self) -> ConfigErrorModel {
        match *self {
            ConfigError::Read { path, source } => ConfigErrorModel::Read {
                path: path@,
                source: source@,
            },
            ConfigError::Parse { path, source } => ConfigErrorModel::Parse {
                path: path_model(path),
                source: source@,
            },
            ConfigError::EmptySocket => ConfigErrorModel::EmptySocket,
            ConfigError::InvalidConsumer { consumer } => ConfigErrorModel::InvalidConsumer {
                consumer: consumer@,
            },
            ConfigError::EmptyPinMap => ConfigErrorModel::EmptyPinMap,
            ConfigError::EmptyPinKey => ConfigErrorModel::EmptyPinKey,
            ConfigError::EmptyDevice { pin } => ConfigErrorModel::EmptyDevice { pin: pin@ },
        }
    }
}

impl ConfigErrorModel {
    /// The error in words.
    pub open spec fn text(self) -> Seq<char> {
        match self {
            ConfigErrorModel::Read { path, source } => "failed to read config file "@ + path
                + ": "@ + source,
            ConfigErrorModel::Parse { path, source } => match path {
                Some(path) => "failed to parse config "@ + path + ": "@ + source,
                None => "failed to parse config: "@ + source,
            },
            ConfigErrorModel::EmptySocket => "service.socket must be a non-empty path"@,
            ConfigErrorModel::InvalidConsumer { consumer } => "service.gpio-consumer `"@ + consumer
                + "` is not valid"@,
            ConfigErrorModel::EmptyPinMap =>
                "config [pins.gpiod] must contain at least one mapping"@,
            ConfigErrorModel::EmptyPinKey => "pin mapping keys must be non-empty"@,
            ConfigErrorModel::EmptyDevice { pin } => "pin `"@ + pin
                + "` has an empty device path"@,
        }
    }
}

impl ConfigError {
    /// The error in words.
    pub fn message(&self) -> (message: String)
        ensures
            message@ == self@.text(),
    {
        match self {
            ConfigError::Read { path, source } => "failed to read config file ".to_owned().concat(
                path.as_str(),
            ).concat(": ").concat(source.as_str()),
            ConfigError::Parse { path, source } => match path {
                Some(path) => "failed to parse config ".to_owned().concat(path.as_str()).concat(
                    ": ",
                ).concat(source.as_str()),
                None => "failed to parse config: ".to_owned().concat(source.as_str()),
            },
            ConfigError::EmptySocket => "service.socket must be a non-empty path".to_owned(),
            ConfigError::InvalidConsumer { consumer } =>
                "service.gpio-consumer `".to_owned().concat(consumer.as_str()).concat(
                    "` is not valid",
                ),
            ConfigError::EmptyPinMap =>
                "config [pins.gpiod] must contain at least one mapping".to_owned(),
            ConfigError::EmptyPinKey => "pin mapping keys must be non-empty".to_owned(),
            ConfigError::EmptyDevice { pin } => "pin `".to_owned().concat(pin.as_str()).concat(
                "` has an empty device path",
            ),
        }
    }
}

/// The config file: a path on the command line, a non-empty path in the environment, the
/// default, in this order.
pub open spec fn config_path(cli: Option<Seq<char>>, env: Option<Seq<char>>) -> Seq<char> {
    match cli {
        Some(path) => path,
        None => match env {
            Some(path) => if path.len() > 0 {
                path
            } else {
                "gpiojsonsvc.toml"@
            },
            None => "gpiojsonsvc.toml"@,
        },
    }
}

/// The view of an optional text.
pub open spec fn optional_text(text: Option<&str>) -> Option<Seq<char>> {
    match text {
        Some(inner) => Some(inner@),
        None => None,
    }
}

/// Finds the config file.
pub fn resolve_config_path(cli_path: Option<&str>, env_path: Option<&str>) -> (path: String)
    ensures
        path@ == config_path(optional_text(cli_path), optional_text(env_path)),
{
    if let Some(path) = cli_path {
        return path.to_owned();
    }
    if let Some(path) = env_path {
        if !path.is_empty() {
            return path.to_owned();
        }
    }
    DEFAULT_CONFIG_PATH.to_owned()
}

// ---------------------------------------------------------------------------
// Structure of the document
// ---------------------------------------------------------------------------

/// The values of a configuration before they are checked.
#[derive(Debug, PartialEq, Eq)]
pub struct RawConfig {
    pub socket: String,
    pub consumer: Option<String>,
    pub gpiod: NameMap<GPIODPinSpec>,
}

/// A field of a record that is a text.
pub open spec fn text_field(item: TomlItemModel<'_>, name: Seq<char>, position: nat) -> Option<
    Seq<char>,
> {
    match field(item, name, position) {
        Some(value) => match toml_item(value) {
            TomlItemModel::Text(text) => Some(text),
            _ => None,
        },
        None => None,
    }
}

/// A field of a record that is a number from 0 to `u32::MAX`.
pub open spec fn number_field(item: TomlItemModel<'_>, name: Seq<char>, position: nat) -> Option<
    u32,
> {
    match field(item, name, position) {
        Some(value) => match toml_item(value) {
            TomlItemModel::Integer(Some(number)) => if 0 <= number <= u32::MAX {
                Some(number as u32)
            } else {
                None
            },
            _ => None,
        },
        None => None,
    }
}

/// Where a pin is, if a value says so.
pub open spec fn pin_entry(value: DeValue<'_>) -> Option<(Seq<char>, u32)> {
    let item = toml_item(value);
    match (text_field(item, "device"@, 0), number_field(item, "line"@, 1)) {
        (Some(device), Some(line)) => Some((device, line)),
        _ => None,
    }
}

/// What a value is; nothing, where there is no value.
pub open spec fn optional_item(value: Option<DeValue<'_>>) -> TomlItemModel<'_> {
    match value {
        Some(value) => toml_item(value),
        None => TomlItemModel::Other,
    }
}

/// The section `service` of a document.
pub open spec fn service_section(document: DeValue<'_>) -> TomlItemModel<'_> {
    optional_item(field(toml_item(document), "service"@, 0))
}

/// The section `pins` of a document.
pub open spec fn pins_section(document: DeValue<'_>) -> TomlItemModel<'_> {
    optional_item(field(toml_item(document), "pins"@, 1))
}

/// The members of the table `pins.gpiod` of a document.
pub open spec fn gpiod_members(document: DeValue<'_>) -> Option<Seq<(Seq<char>, DeValue<'_>)>> {
    match optional_item(field(pins_section(document), "gpiod"@, 0)) {
        TomlItemModel::Table(members) => Some(members),
        _ => None,
    }
}

/// The socket of a document.
pub open spec fn socket_member(document: DeValue<'_>) -> Option<Seq<char>> {
    text_field(service_section(document), "socket"@, 0)
}

/// The consumer of a document: absent, a text, or something else. A section that is a list
/// has the socket alone.
pub open spec fn consumer_member(document: DeValue<'_>) -> Result<Option<Seq<char>>, ()> {
    match service_section(document) {
        TomlItemModel::Table(members) => match named_member(members, "gpio-consumer"@) {
            None => Ok(None),
            Some(value) => match toml_item(value) {
                TomlItemModel::Text(text) => Ok(Some(text)),
                _ => Err(()),
            },
        },
        _ => Ok(None),
    }
}

/// Whether every pin says where it is.
pub open spec fn pins_placed(members: Seq<(Seq<char>, DeValue<'_>)>) -> bool {
    forall|i: int| 0 <= i < members.len() ==> pin_entry((#[trigger] members[i]).1) is Some
}

/// Whether all that a document holds besides the configuration can be thrown away.
pub open spec fn unread_skips(document: DeValue<'_>) -> bool {
    &&& rest_skips(toml_item(document), "service"@, "pins"@)
    &&& rest_skips(service_section(document), "socket"@, "gpio-consumer"@)
    &&& rest_skips(pins_section(document), "gpiod"@, "gpiod"@)
    &&& gpiod_members(document) matches Some(members) ==> pins_skip(members)
}

/// Whether all that pins hold besides where they are can be thrown away.
pub open spec fn pins_skip(members: Seq<(Seq<char>, DeValue<'_>)>) -> bool {
    forall|i: int|
        0 <= i < members.len() ==> rest_skips(
            toml_item((#[trigger] members[i]).1),
            "device"@,
            "line"@,
        )
}

/// What a document lacks to be a configuration, if anything.
pub open spec fn structure_fault(document: DeValue<'_>) -> Option<Seq<char>> {
    if socket_member(document) is None {
        Some("`service.socket` must be a string"@)
    } else if consumer_member(document) is Err {
        Some("`service.gpio-consumer` must be a string"@)
    } else {
        match gpiod_members(document) {
            None => Some("`pins.gpiod` must be a table"@),
            Some(members) => if !pins_placed(members) {
                Some("every pin must have a string `device` and a `line` that is a u32"@)
            } else if !unread_skips(document) {
                Some("a value that is not read holds a number that is out of range"@)
            } else {
                None
            },
        }
    }
}

/// The pins of a table and where each is.
pub open spec fn pin_entries(members: Seq<(Seq<char>, DeValue<'_>)>) -> Map<
    Seq<char>,
    (Seq<char>, u32),
>
    decreases members.len(),
{
    if members.len() == 0 {
        Map::empty()
    } else {
        pin_entries(members.drop_last()).insert(
            members.last().0,
            pin_entry(members.last().1)->Some_0,
        )
    }
}

/// Where the pins of a map are.
pub open spec fn pin_models(pins: Map<Seq<char>, GPIODPinSpec>) -> Map<
    Seq<char>,
    (Seq<char>, u32),
> {
    pins.map_values(|spec: GPIODPinSpec| spec@)
}

/// Whether values are those of a document.
pub open spec fn raw_of(raw: RawConfig, document: DeValue<'_>) -> bool {
    &&& Some(raw.socket@) == socket_member(document)
    &&& Ok::<_, ()>(path_model(raw.consumer)) == consumer_member(document)
    &&& gpiod_members(document) matches Some(members) && pin_models(raw.gpiod.contents())
        == pin_entries(members)
}

fn find_text(item: &TomlItem<'_>, name: &str, position: usize) -> (result: Option<String>)
    ensures
        path_model(result) == text_field(item@, name@, position as nat),
{
    match find_field(item, name, position) {
        Some(value) => match item_of(value) {
            TomlItem::Text(text) => Some(text),
            _ => None,
        },
        None => None,
    }
}

fn find_number(item: &TomlItem<'_>, name: &str, position: usize) -> (result: Option<u32>)
    ensures
        result == number_field(item@, name@, position as nat),
{
    match find_field(item, name, position) {
        Some(value) => match item_of(value) {
            TomlItem::Integer(Some(number)) => if 0 <= number && number <= u32::MAX as i64 {
                Some(number as u32)
            } else {
                None
            },
            _ => None,
        },
        None => None,
    }
}

/// What a field of a record is.
fn field_item<'i>(item: &TomlItem<'i>, name: &str, position: usize) -> (result: TomlItem<'i>)
    ensures
        result@ == optional_item(field(item@, name@, position as nat)),
{
    match find_field(item, name, position) {
        Some(value) => item_of(value),
        None => TomlItem::Other,
    }
}

/// Where the pins of a table are, and whether all else that they hold can be thrown away;
/// `None` where one of them does not say where it is.
fn find_pins(members: &Vec<(String, DeValue<'_>)>) -> (result: Option<
    (NameMap<GPIODPinSpec>, bool),
>)
    ensures
        match result {
            Some((pins, skipped)) => {
                &&& pins_placed(member_models(members@))
                &&& pin_models(pins.contents()) == pin_entries(member_models(members@))
                &&& skipped == pins_skip(member_models(members@))
            },
            None => !pins_placed(member_models(members@)),
        },
{
    let ghost all = member_models(members@);
    let mut pins: NameMap<GPIODPinSpec> = NameMap::new();
    let mut skipped = true;
    let mut index: usize = 0;
    assert(pin_models(pins.contents()) =~= pin_entries(all.take(0)));
    while index < members.len()
        invariant
            index <= members@.len(),
            all == member_models(members@),
            pin_models(pins.contents()) == pin_entries(all.take(index as int)),
            forall|i: int| 0 <= i < index ==> pin_entry((#[trigger] all[i]).1) is Some,
            skipped == (forall|i: int|
                0 <= i < index ==> rest_skips(
                    toml_item((#[trigger] all[i]).1),
                    "device"@,
                    "line"@,
                )),
        decreases members@.len() - index,
    {
        let name = members[index].0.as_str();
        let item = item_of(&members[index].1);
        assert(all[index as int] == (name@, members@[index as int].1));
        let (device, line) = match (find_text(&item, "device", 0), find_number(&item, "line", 1)) {
            (Some(device), Some(line)) => (device, line),
            _ => return None,
        };
        let rest = skips_rest(&item, "device", "line");
        skipped = skipped && rest;
        let ghost before = pins.contents();
        let spec = GPIODPinSpec { device, line };
        pins = pins.with(name.to_owned(), spec);
        proof {
            assert(all.take(index + 1).drop_last() =~= all.take(index as int));
            assert(pin_models(pins.contents()) =~= pin_models(before).insert(name@, spec@));
        }
        index += 1;
    }
    assert(all.take(index as int) =~= all);
    Some((pins, skipped))
}

/// The values of a document, or what it lacks.
pub fn read_document(document: &DeValue<'_>) -> (result: Result<RawConfig, String>)
    ensures
        match result {
            Ok(raw) => structure_fault(*document) is None && raw_of(raw, *document),
            Err(error) => structure_fault(*document) == Some(error@),
        },
{
    let root = item_of(document);
    let service = field_item(&root, "service", 0);
    let socket = match find_text(&service, "socket", 0) {
        Some(socket) => socket,
        None => return Err("`service.socket` must be a string".to_owned()),
    };
    let consumer = match &service {
        TomlItem::Table(_) => match find_field(&service, "gpio-consumer", 1) {
            Some(value) => match item_of(value) {
                TomlItem::Text(text) => Some(text),
                _ => return Err("`service.gpio-consumer` must be a string".to_owned()),
            },
            None => None,
        },
        _ => None,
    };
    let section = field_item(&root, "pins", 1);
    let members = match field_item(&section, "gpiod", 0) {
        TomlItem::Table(members) => members,
        _ => return Err("`pins.gpiod` must be a table".to_owned()),
    };
    let (gpiod, skipped) = match find_pins(&members) {
        Some(found) => found,
        None => return Err(
            "every pin must have a string `device` and a `line` that is a u32".to_owned(),
        ),
    };
    if !skipped || !skips_rest(&root, "service", "pins") || !skips_rest(
        &service,
        "socket",
        "gpio-consumer",
    ) || !skips_rest(&section, "gpiod", "gpiod") {
        return Err("a value that is not read holds a number that is out of range".to_owned());
    }
    Ok(RawConfig { socket, consumer, gpiod })
}

// ---------------------------------------------------------------------------
// Validation
// ---------------------------------------------------------------------------

/// Whether a pin is the first, in the order of the names, with an empty device.
pub open spec fn first_without_device(
    pins: Map<Seq<char>, (Seq<char>, u32)>,
    pin: Seq<char>,
) -> bool {
    &&& pins.contains_key(pin)
    &&& pins[pin].0.len() == 0
    &&& forall|other: Seq<char>| #[trigger]
        pins.contains_key(other) && pins[other].0.len() == 0 ==> other == pin || text_precedes(
            pin,
            other,
        )
}

/// Why values are not a configuration, if they are not. Socket, pins and devices must not be
/// empty, the consumer must be valid, and there must be a pin.
pub open spec fn config_fault(
    socket: Seq<char>,
    consumer: Option<Seq<char>>,
    pins: Map<Seq<char>, (Seq<char>, u32)>,
) -> Option<ConfigErrorModel> {
    if socket.len() == 0 {
        Some(ConfigErrorModel::EmptySocket)
    } else if consumer is Some && !valid_consumer(consumer->Some_0) {
        Some(ConfigErrorModel::InvalidConsumer { consumer: consumer->Some_0 })
    } else if pins.dom() == Set::<Seq<char>>::empty() {
        Some(ConfigErrorModel::EmptyPinMap)
    } else if pins.contains_key(Seq::empty()) {
        Some(ConfigErrorModel::EmptyPinKey)
    } else if exists|pin: Seq<char>| first_without_device(pins, pin) {
        Some(
            ConfigErrorModel::EmptyDevice {
                pin: choose|pin: Seq<char>| first_without_device(pins, pin),
            },
        )
    } else {
        None
    }
}

/// The configured consumer, or the default.
pub open spec fn consumer_or_default(consumer: Option<Seq<char>>) -> Seq<char> {
    match consumer {
        Some(text) => text,
        None => "svc_{id}"@,
    }
}

/// Validated service settings and the pin map.
#[derive(Debug, PartialEq, Eq)]
pub struct ServiceConfig {
    pub socket: String,
    pub consumer: ConsumerTemplate,
    pub gpiod_pins: NameMap<GPIODPinSpec>,
}

proof fn lemma_first_unique(
    pins: Map<Seq<char>, (Seq<char>, u32)>,
    pin: Seq<char>,
    other: Seq<char>,
)
    requires
        first_without_device(pins, pin),
        first_without_device(pins, other),
    ensures
        pin == other,
{
    if pin != other {
        assert(pins.contains_key(pin) && pins.contains_key(other));
        text_precedes_transitive(pin, other, pin);
        text_precedes_irreflexive(pin);
    }
}

/// The first faulty entry of a pin map.
fn check_pins(pins: &NameMap<GPIODPinSpec>) -> (result: Result<(), ConfigError>)
    ensures
        ({
            let models = pin_models(pins.contents());
            match result {
                Ok(_) => {
                    &&& !models.contains_key(Seq::empty())
                    &&& forall|pin: Seq<char>| #[trigger]
                        models.contains_key(pin) ==> models[pin].0.len() > 0
                },
                Err(error) => if models.contains_key(Seq::empty()) {
                    error@ == ConfigErrorModel::EmptyPinKey
                } else {
                    error@ matches ConfigErrorModel::EmptyDevice { pin } && first_without_device(
                        models,
                        pin,
                    )
                },
            }
        }),
{
    let count: usize = pins.len();
    let ghost names = pins.names();
    let ghost values = pins.values();
    let ghost models = pin_models(pins.contents());
    proof {
        lemma_ascending_distinct(names);
        lemma_paired(names, values);
    }
    let mut index: usize = 0;
    while index < count
        invariant
            index <= count,
            count == names.len(),
            names == pins.names(),
            values == pins.values(),
            models == pin_models(pins.contents()),
            ascending(names),
            names.len() == values.len(),
            forall|i: int|
                0 <= i < names.len() ==> pins.contents().contains_key(#[trigger] names[i])
                    && pins.contents()[names[i]] == values[i],
            forall|name: Seq<char>| #[trigger]
                pins.contents().contains_key(name) ==> exists|i: int|
                    0 <= i < names.len() && names[i] == name,
            forall|i: int|
                0 <= i < index ==> (#[trigger] names[i]).len() > 0 && values[i].device@.len() > 0,
        decreases count - index,
    {
        let pin = pins.name_at(index);
        let spec = pins.value_at(index);
        assert(pins.contents().contains_key(names[index as int]));
        if pin.as_str().is_empty() {
            assert(names[index as int] =~= Seq::<char>::empty());
            return Err(ConfigError::EmptyPinKey);
        }
        if spec.device.as_str().is_empty() {
            proof {
                let found = names[index as int];
                assert(models.contains_key(found) && models[found].0.len() == 0);
                assert(!models.contains_key(Seq::empty())) by {
                    if models.contains_key(Seq::empty()) {
                        assert(pins.contents().contains_key(Seq::empty()));
                        let k = choose|k: int|
                            0 <= k < names.len() && names[k] == Seq::<char>::empty();
                        if k > index {
                            assert(text_precedes(names[index as int], names[k]));
                        } else if k == index {
                        } else {
                            assert(names[k].len() > 0);
                        }
                    }
                }
                assert forall|other: Seq<char>| #[trigger] models.contains_key(other)
                    && models[other].0.len() == 0 implies other == found || text_precedes(
                    found,
                    other,
                ) by {
                    assert(pins.contents().contains_key(other));
                    let k = choose|k: int| 0 <= k < names.len() && names[k] == other;
                    assert(pins.contents()[names[k]] == values[k]);
                    if k > index {
                        assert(text_precedes(names[index as int], names[k]));
                    } else if k < index {
                        assert(names[k].len() > 0 && values[k].device@.len() > 0);
                    }
                }
                assert(first_without_device(models, found));
            }
            return Err(ConfigError::EmptyDevice { pin: pin.clone() });
        }
        index += 1;
    }
    proof {
        assert forall|pin: Seq<char>| #[trigger] models.contains_key(pin) implies
            models[pin].0.len() > 0 && pin.len() > 0 by {
            assert(pins.contents().contains_key(pin));
            let k = choose|k: int| 0 <= k < names.len() && names[k] == pin;
            assert(names[k].len() > 0 && values[k].device@.len() > 0);
            assert(pins.contents()[names[k]] == values[k]);
        }
    }
    Ok(())
}

impl ServiceConfig {
    /// The path of the socket.
    pub open spec fn socket_path(&self) -> Seq<char> {
        self.socket@
    }

    /// The text of the consumer in front of the placeholder.
    pub open spec fn consumer_prefix(&self) -> Seq<char> {
        self.consumer.prefix()
    }

    /// The text of the consumer behind the placeholder, where there is one.
    pub open spec fn consumer_suffix(&self) -> Option<Seq<char>> {
        self.consumer.suffix()
    }

    /// Where each pin is.
    pub open spec fn pins(&self) -> Map<Seq<char>, (Seq<char>, u32)> {
        pin_models(self.pin_map().contents())
    }

    /// The pin map.
    pub open spec fn pin_map(&self) -> NameMap<GPIODPinSpec> {
        self.gpiod_pins
    }

    /// Whether the configuration has these values.
    pub open spec fn has(
        &self,
        socket: Seq<char>,
        consumer: Option<Seq<char>>,
        pins: Map<Seq<char>, (Seq<char>, u32)>,
    ) -> bool {
        &&& self.socket_path() == socket
        &&& consumer_parts(
            consumer_or_default(consumer),
            self.consumer_prefix(),
            self.consumer_suffix(),
        )
        &&& self.pins() == pins
    }

    /// Checks the values of a configuration.
    pub fn from_raw(raw: RawConfig) -> (result: Result<Self, ConfigError>)
        ensures
            ({
                let consumer = path_model(raw.consumer);
                let pins = pin_models(raw.gpiod.contents());
                match result {
                    Ok(config) => {
                        &&& config_fault(raw.socket@, consumer, pins) is None
                        &&& config.has(raw.socket@, consumer, pins)
                    },
                    Err(error) => config_fault(raw.socket@, consumer, pins) == Some(error@),
                }
            }),
    {
        if raw.socket.as_str().is_empty() {
            return Err(ConfigError::EmptySocket);
        }
        let consumer = match raw.consumer {
            Some(text) => match ConsumerTemplate::parse(text.as_str()) {
                Some(template) => template,
                None => return Err(ConfigError::InvalidConsumer { consumer: text }),
            },
            None => ConsumerTemplate::default_template(),
        };
        let ghost pins = pin_models(raw.gpiod.contents());
        let count: usize = raw.gpiod.len();
        proof {
            lemma_ascending_distinct(raw.gpiod.names());
            lemma_paired(raw.gpiod.names(), raw.gpiod.values());
            if count == 0 {
                assert(pins.dom() =~= Set::<Seq<char>>::empty());
            } else {
                assert(pins.dom().contains(raw.gpiod.names()[0]));
            }
        }
        if count == 0 {
            return Err(ConfigError::EmptyPinMap);
        }
        match check_pins(&raw.gpiod) {
            Ok(_) => {},
            Err(error) => {
                proof {
                    if let ConfigErrorModel::EmptyDevice { pin } = error@ {
                        let chosen = choose|pin: Seq<char>| first_without_device(pins, pin);
                        if first_without_device(pins, pin) {
                            lemma_first_unique(pins, pin, chosen);
                        }
                    }
                }
                return Err(error);
            },
        }
        Ok(ServiceConfig { socket: raw.socket, consumer, gpiod_pins: raw.gpiod })
    }

    /// Reads a configuration from the text of a TOML document.
    pub fn from_toml_str(contents: &str) -> (result: Result<Self, ConfigError>)
        ensures
            Self::toml_result(contents@, None, result),
    {
        ServiceConfig::from_toml_str_at(contents, None)
    }

    /// What reading a configuration from a text gives: an error of the TOML reader, a
    /// document that lacks something, values that are not valid, or a configuration.
    pub open spec fn toml_result(
        contents: Seq<char>,
        path: Option<Seq<char>>,
        result: Result<Self, ConfigError>,
    ) -> bool {
        match toml_document(contents) {
            Err(source) => result matches Err(error) && error@ == (ConfigErrorModel::Parse {
                path,
                source,
            }),
            Ok(document) => match structure_fault(document) {
                Some(source) => result matches Err(error) && error@ == (ConfigErrorModel::Parse {
                    path,
                    source,
                }),
                None => {
                    let socket = socket_member(document)->Some_0;
                    let consumer = consumer_member(document)->Ok_0;
                    let pins = pin_entries(gpiod_members(document)->Some_0);
                    match result {
                        Ok(config) => config_fault(socket, consumer, pins) is None && config.has(
                            socket,
                            consumer,
                            pins,
                        ),
                        Err(error) => config_fault(socket, consumer, pins) == Some(error@),
                    }
                },
            },
        }
    }

    /// Reads a configuration from the text of the TOML document at a path.
    pub fn from_toml_str_at(contents: &str, path: Option<String>) -> (result: Result<
        Self,
        ConfigError,
    >)
        ensures
            Self::toml_result(contents@, path_model(path), result),
    {
        let document = match parse_document(contents) {
            Ok(document) => document,
            Err(source) => return Err(ConfigError::Parse { path, source }),
        };
        match read_document(&document) {
            Ok(raw) => ServiceConfig::from_raw(raw),
            Err(source) => Err(ConfigError::Parse { path, source }),
        }
    }

    /// Where a pin is. The name must be exactly that in the pin map.
    pub fn resolve_gpiod_pin(&self, pin: &str) -> (found: Option<&GPIODPinSpec>)
        ensures
            match found {
                Some(spec) => self.pins().contains_key(pin@) && spec@ == self.pins()[pin@],
                None => !self.pins().contains_key(pin@),
            },
    {
        self.gpiod_pins.get(pin)
    }

    /// The pin map.
    pub fn gpiod_pins(&self) -> (pins: &NameMap<GPIODPinSpec>)
        ensures
            *pins == self.pin_map(),
    {
        &self.gpiod_pins
    }

    /// The consumer that a session names.
    pub fn session_consumer(&self, session_id: u64) -> (consumer: String)
        ensures
            consumer@ == rendered_parts(
                self.consumer_prefix(),
                self.consumer_suffix(),
                session_id,
            ),
    {
        self.consumer.render(session_id)
    }
}

} // verus!

use std::collections::BTreeMap;

use gpiojsonsvc::config::ConfigError;
use gpiojsonsvc::config::ServiceConfig;
use gpiojsonsvc::consumer::ConsumerTemplate;
use gpiojsonsvc::keys::keys_in_order;
use gpiojsonsvc::keys::offsets_in_order;
use gpiojsonsvc::names::NameMap;
use gpiojsonsvc::number::number_text;
use gpiojsonsvc::number::parse_u32;
use gpiojsonsvc::number::parse_u64;
use gpiojsonsvc::number::NumberError;
use gpiojsonsvc::session::command::ReactorCommand;
use gpiojsonsvc::system_event::current;
use gpiojsonsvc::system_event::emitted;
use gpiojsonsvc::system_event::observed;
use gpiojsonsvc::system_event::NO_EVENT;
use gpiojsonsvc::system_event::SHUTDOWN;
use gpiojsonsvc::text::is_blank;
use gpiojsonsvc::text::joined;
use gpiojsonsvc::text::precedes;
use gpiojsonsvc::text::trimmed;

#[test]
fn numbers_are_read_and_written() {
    assert_eq!(number_text(0), "0");
    assert_eq!(number_text(u64::MAX), "18446744073709551615");
    assert_eq!(parse_u64("18446744073709551615"), Ok(u64::MAX));
    assert_eq!(parse_u64("18446744073709551616"), Err(NumberError::Overflow));
    assert_eq!(parse_u32("4294967295"), Ok(u32::MAX));
    assert_eq!(parse_u32("+7"), Ok(7));
    assert_eq!(parse_u32("007"), Ok(7));
    assert_eq!(parse_u32(""), Err(NumberError::Empty));
    assert_eq!(parse_u32("+"), Err(NumberError::InvalidDigit));
    assert_eq!(parse_u32("-1"), Err(NumberError::InvalidDigit));
    for text in ["", "+", "-", "7", "+7", "-7", "4294967296", "1x", "99999999999x", " 1"] {
        assert_eq!(parse_u32(text).ok(), text.parse::<u32>().ok(), "{text}");
        let ours = parse_u32(text).err().map(|error| error.message().to_owned());
        let std_words = text.parse::<u32>().err().map(|error| error.to_string());
        assert_eq!(ours, std_words, "{text}");
    }
}

#[test]
fn texts_are_compared_and_trimmed() {
    assert!(precedes("a", "b"));
    assert!(precedes("a", "ab"));
    assert!(!precedes("b", "a"));
    assert!(!precedes("a", "a"));
    assert!(precedes("Z", "a"));
    assert!(precedes("z", "\u{e9}"));
    assert_eq!(joined("a", "b"), "ab");
    for code in 0..0x11_0000u32 {
        if let Some(ch) = char::from_u32(code) {
            assert_eq!(is_blank(ch.to_string().as_str()), ch.is_whitespace());
        }
    }
    assert_eq!(trimmed(" \t a b\u{a0}\n"), "a b");
    assert_eq!(trimmed("  "), "");
}

#[test]
fn maps_keep_one_value_for_each_name() {
    let map = NameMap::new()
        .with("b".to_owned(), 1)
        .with("a".to_owned(), 2)
        .with("b".to_owned(), 3);
    assert_eq!(map.len(), 2);
    assert_eq!(map.name_at(0), "a");
    assert_eq!(map.value_at(1), &3);
    assert_eq!(map.get("b"), Some(&3));
    assert!(!map.contains_key("c"));
}

#[test]
fn keys_come_in_order() {
    let offsets = BTreeMap::from([(9u32, ()), (1, ()), (4, ())]);
    assert_eq!(offsets_in_order(&offsets), vec![1, 4, 9]);
    let keys = BTreeMap::from([(9u64, ()), (1, ())]);
    assert_eq!(keys_in_order(&keys), vec![1, 9]);
}

#[test]
fn an_event_is_seen_once() {
    let first = emitted(0, SHUTDOWN);
    assert_eq!(current(first), SHUTDOWN);
    assert_eq!(observed(first, 0), Some((1, SHUTDOWN)));
    assert_eq!(observed(first, 1), None);
    let second = emitted(first, 7);
    assert_eq!(observed(second, 1), Some((2, 7)));
    assert_eq!(observed(emitted(second, NO_EVENT), 2), None);
    assert_eq!(emitted(0xFFFF_FFFF_0000_0001, 3), 3);
}

#[test]
fn consumers_name_their_session() {
    assert_eq!(ConsumerTemplate::default_template().render(42), "svc_42");
    let template = ConsumerTemplate::parse("a{id}b").expect("template");
    assert_eq!(template.render(3), "a3b");
    let plain = ConsumerTemplate::parse("plain").expect("plain");
    assert_eq!(plain.render(3), "plain");
    assert!(ConsumerTemplate::parse("").is_none());
    assert!(ConsumerTemplate::parse("thirteen_char").is_none());
    assert!(ConsumerTemplate::parse("{id}{id}").is_none());
}

#[test]
fn configured_consumers_are_checked() {
    let config = |consumer: &str| {
        ServiceConfig::from_toml_str(&format!(
            "[service]\nsocket = \"/tmp/s\"\ngpio-consumer = \"{consumer}\"\n\n[pins.gpiod]\n\
             \"A\" = {{ device = \"/dev/gpiochip0\", line = 1 }}\n"
        ))
    };
    assert_eq!(config("gw_{id}").expect("valid").session_consumer(7), "gw_7");
    assert!(matches!(
        config("no spaces"),
        Err(ConfigError::InvalidConsumer { .. })
    ));
    let default = "[service]\nsocket = \"/tmp/s\"\n[pins.gpiod]\n\"A\" = { device = \"d\", line = 1 }\n";
    let config = ServiceConfig::from_toml_str(default).expect("default");
    assert_eq!(config.session_consumer(1), "svc_1");
}

#[test]
fn broken_toml_is_reported_with_its_path() {
    let error = ServiceConfig::from_toml_str_at("[service", Some("/etc/x.toml".to_owned()))
        .expect_err("broken");
    match &error {
        ConfigError::Parse { path, .. } => assert_eq!(path.as_deref(), Some("/etc/x.toml")),
        other => panic!("unexpected error: {other:?}"),
    }
    assert!(error.message().contains("/etc/x.toml"));
    let error = ServiceConfig::from_toml_str("[service]\nsocket = 1\n").expect_err("not a string");
    assert!(matches!(error, ConfigError::Parse { path: None, .. }));
}

#[test]
fn a_session_ends_with_its_transport_or_the_service() {
    assert!(!ReactorCommand::TransportClosed.keeps_session());
    assert!(!ReactorCommand::Shutdown.keeps_session());
}

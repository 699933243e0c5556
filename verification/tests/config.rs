use gpiojsonsvc::config::resolve_config_path;
use gpiojsonsvc::config::ConfigError;
use gpiojsonsvc::config::GPIODPinSpec;
use gpiojsonsvc::config::ServiceConfig;
use gpiojsonsvc::config::DEFAULT_CONFIG_PATH;

const SAMPLE: &str = r#"
[service]
socket = "/tmp/gpiojsonsvc.sock"

[pins.gpiod]
"gpiochip0:7" = { device = "/path/to/gpiochip0.xml", line = 7 }
"GPIO1_B5" = { device = "/path/to/gpiochip1.xml", line = 13 }
"#;

fn assert_sample(config: &ServiceConfig) {
    assert_eq!(config.socket, "/tmp/gpiojsonsvc.sock");
    assert_eq!(
        config.resolve_gpiod_pin("gpiochip0:7"),
        Some(&GPIODPinSpec {
            device: "/path/to/gpiochip0.xml".to_owned(),
            line: 7,
        })
    );
    assert_eq!(
        config.resolve_gpiod_pin("GPIO1_B5"),
        Some(&GPIODPinSpec {
            device: "/path/to/gpiochip1.xml".to_owned(),
            line: 13,
        })
    );
}

#[test]
fn maps_opaque_pin_strings_by_exact_key() {
    let config = ServiceConfig::from_toml_str(SAMPLE).expect("sample config");
    assert_sample(&config);
    assert_eq!(config.gpiod_pins().len(), 2);
}

#[test]
fn lookup_is_exact_and_does_not_infer_device_or_line() {
    let config = ServiceConfig::from_toml_str(SAMPLE).expect("sample config");

    assert!(config.resolve_gpiod_pin("GPIOCHIP0:7").is_none());
    assert!(config.resolve_gpiod_pin("gpiochip0: 7").is_none());
    assert!(config.resolve_gpiod_pin("gpiochip0:07").is_none());
    assert!(config.resolve_gpiod_pin("gpio1_b5").is_none());
    assert!(config.resolve_gpiod_pin("GPIO1_B5 ").is_none());
    assert!(
        config
            .resolve_gpiod_pin("/path/to/gpiochip0.xml:7")
            .is_none()
    );
}

#[test]
fn two_pin_strings_may_share_one_device() {
    let toml = r#"
[service]
socket = "/run/gpiojsonsvc.sock"

[pins.gpiod]
"gpiochip0:7" = { device = "/dev/gpiochip0", line = 7 }
"GPIO1_B5" = { device = "/dev/gpiochip0", line = 13 }
"#;
    let config = ServiceConfig::from_toml_str(toml).expect("shared device");
    let first = config.resolve_gpiod_pin("gpiochip0:7").expect("first pin");
    let second = config.resolve_gpiod_pin("GPIO1_B5").expect("second pin");
    assert_eq!(first.device, second.device);
    assert_eq!(first.device, "/dev/gpiochip0");
    assert_eq!(first.line, 7);
    assert_eq!(second.line, 13);
}

#[test]
fn rejects_empty_pin_map() {
    let toml = r#"
[service]
socket = "/tmp/gpiojsonsvc.sock"

[pins.gpiod]
"#;
    let error = ServiceConfig::from_toml_str(toml).expect_err("empty pins");
    assert!(matches!(error, ConfigError::EmptyPinMap));
}

#[test]
fn rejects_empty_pin_key() {
    let toml = r#"
[service]
socket = "/tmp/gpiojsonsvc.sock"

[pins.gpiod]
"" = { device = "/dev/gpiochip0", line = 0 }
"#;
    let error = ServiceConfig::from_toml_str(toml).expect_err("empty key");
    assert!(matches!(error, ConfigError::EmptyPinKey));
}

#[test]
fn rejects_empty_device() {
    let toml = r#"
[service]
socket = "/tmp/gpiojsonsvc.sock"

[pins.gpiod]
"GPIO1_B5" = { device = "", line = 13 }
"#;
    let error = ServiceConfig::from_toml_str(toml).expect_err("empty device");
    match error {
        ConfigError::EmptyDevice { pin } => assert_eq!(pin, "GPIO1_B5"),
        other => panic!("unexpected error: {other:?}"),
    }
}

#[test]
fn rejects_empty_socket() {
    let toml = r#"
[service]
socket = ""

[pins.gpiod]
"GPIO1_B5" = { device = "/dev/gpiochip0", line = 13 }
"#;
    let error = ServiceConfig::from_toml_str(toml).expect_err("empty socket");
    assert!(matches!(error, ConfigError::EmptySocket));
}

#[test]
fn rejects_missing_device_field() {
    let toml = r#"
[service]
socket = "/tmp/gpiojsonsvc.sock"

[pins.gpiod]
"GPIO1_B5" = { line = 13 }
"#;
    let error = ServiceConfig::from_toml_str(toml).expect_err("missing device");
    assert!(matches!(error, ConfigError::Parse { .. }));
}

#[test]
fn rejects_missing_line_field() {
    let toml = r#"
[service]
socket = "/tmp/gpiojsonsvc.sock"

[pins.gpiod]
"GPIO1_B5" = { device = "/dev/gpiochip0" }
"#;
    let error = ServiceConfig::from_toml_str(toml).expect_err("missing line");
    assert!(matches!(error, ConfigError::Parse { .. }));
}

#[test]
fn rejects_non_u32_line() {
    let toml = r#"
[service]
socket = "/tmp/gpiojsonsvc.sock"

[pins.gpiod]
"GPIO1_B5" = { device = "/dev/gpiochip0", line = -1 }
"#;
    let error = ServiceConfig::from_toml_str(toml).expect_err("negative line");
    assert!(matches!(error, ConfigError::Parse { .. }));
}

#[test]
fn resolve_config_path_prefers_cli_then_env_then_default() {
    let cli = "/explicit/cli.toml";
    assert_eq!(
        resolve_config_path(Some(cli), Some("/from/env.toml")),
        String::from("/explicit/cli.toml")
    );
    assert_eq!(
        resolve_config_path(None, Some("/from/env.toml")),
        String::from("/from/env.toml")
    );
    assert_eq!(
        resolve_config_path(None, Some("")),
        String::from(DEFAULT_CONFIG_PATH)
    );
    assert_eq!(
        resolve_config_path(None, None),
        String::from(DEFAULT_CONFIG_PATH)
    );
}


#[test]
fn sections_and_pins_may_be_lists() {
    let toml = r#"
service = ["/tmp/a.sock", 1]
pins = [{ "A" = ["/dev/gpiochip0", 3, "more"], "B" = { device = "/dev/gpiochip1", line = 0x1f } }]
"#;
    let config = ServiceConfig::from_toml_str(toml).expect("lists");
    assert_eq!(config.socket, "/tmp/a.sock");
    assert_eq!(config.session_consumer(7), "svc_7");
    assert_eq!(
        config.resolve_gpiod_pin("A"),
        Some(&GPIODPinSpec {
            device: "/dev/gpiochip0".to_owned(),
            line: 3,
        })
    );
    assert_eq!(
        config.resolve_gpiod_pin("B"),
        Some(&GPIODPinSpec {
            device: "/dev/gpiochip1".to_owned(),
            line: 31,
        })
    );
}

#[test]
fn a_pin_list_has_a_device_and_a_line() {
    for pin in [
        r#"[]"#,
        r#"["/dev/gpiochip0"]"#,
        r#"[3, "/dev/gpiochip0"]"#,
        r#""/dev/gpiochip0""#,
        r#"["/dev/gpiochip0", 4294967296]"#,
    ] {
        let toml = format!("[service]\nsocket = \"/tmp/a.sock\"\n[pins.gpiod]\nA = {pin}\n");
        let error = ServiceConfig::from_toml_str(&toml).expect_err(pin);
        assert!(matches!(error, ConfigError::Parse { .. }));
    }
}

#[test]
fn the_pin_map_is_no_list() {
    let toml = "[service]\nsocket = \"/tmp/a.sock\"\n[pins]\ngpiod = [[\"/dev/gpiochip0\", 1]]\n";
    let error = ServiceConfig::from_toml_str(toml).expect_err("list");
    assert!(matches!(error, ConfigError::Parse { .. }));
}

#[test]
fn numbers_that_are_not_read_may_be_large() {
    let large = "340282366920938463463374607431768211455";
    let larger = "340282366920938463463374607431768211456";
    for (number, accepted) in [("9223372036854775808", true), (large, true), (larger, false)] {
        for place in [
            format!("extra = {number}\n"),
            format!("extra = {{ deep = [1, {number}] }}\n"),
        ] {
            let toml = format!(
                "{place}[service]\nsocket = \"/tmp/a.sock\"\n[pins.gpiod]\nA = [\"/dev/a\", 1]\n"
            );
            match ServiceConfig::from_toml_str(&toml) {
                Ok(config) => assert!(accepted && config.gpiod_pins().len() == 1),
                Err(error) => assert!(!accepted && matches!(error, ConfigError::Parse { .. })),
            }
        }
    }
}

#[test]
fn a_line_that_fits_no_number_is_refused() {
    let toml = "[service]\nsocket = \"/tmp/a.sock\"\n[pins.gpiod]\nA = { device = \"/dev/a\", line = 9223372036854775808 }\n";
    let error = ServiceConfig::from_toml_str(toml).expect_err("line");
    assert!(matches!(error, ConfigError::Parse { .. }));
}

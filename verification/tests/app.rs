use gpiojsonsvc::app::parse_args;
use gpiojsonsvc::app::select_backend;
use gpiojsonsvc::app::validate_mock_chip_files;
use gpiojsonsvc::app::Cli;
use gpiojsonsvc::app::MockMode;
use gpiojsonsvc::app::ParseArgs;
use gpiojsonsvc::app::HELP;
use gpiojsonsvc::app::MOCK_LOG_ENV_VAR;
use gpiojsonsvc::config::GPIODPinSpec;
use gpiojsonsvc::error::AppError;
use gpiojsonsvc::names::NameMap;

const SAMPLE_XML: &str = r#"<gpiochip id="gpiochip0" label="mock gpiochip0">
    <line id="0" name="line0" direction="input">L</line>
    <line id="7" name="line7" direction="output" drive="push_pull">L</line>
</gpiochip>"#;

fn args(values: &[&str]) -> Vec<String> {
    values.iter().map(|value| (*value).to_owned()).collect()
}

fn parse_run(values: &[&str]) -> Cli {
    match parse_args(&args(values)).expect("parse cli") {
        ParseArgs::Run(cli) => cli,
        other => panic!("expected Run, got {other:?}"),
    }
}

fn validate(device: &str, line: u32, content: Result<&str, &str>) -> Result<(), AppError> {
    let spec = GPIODPinSpec {
        device: device.to_owned(),
        line,
    };
    let pins = NameMap::new().with("gpiochip0:7".to_owned(), spec);
    let content = content.map(str::to_owned).map_err(str::to_owned);
    let files = NameMap::new().with(device.to_owned(), content);
    validate_mock_chip_files(&pins, &files)
}

#[test]
fn cli_parses_mock_and_config_path() {
    let cli = parse_run(&["gpiojsonsvc", "--mock", "/tmp/gpiojsonsvc.toml"]);
    assert!(cli.mock);
    assert_eq!(
        cli.config.as_deref(),
        Some("/tmp/gpiojsonsvc.toml")
    );
}

#[test]
fn cli_parses_config_path_then_mock() {
    let cli = parse_run(&["gpiojsonsvc", "/tmp/gpiojsonsvc.toml", "--mock"]);
    assert!(cli.mock);
    assert_eq!(
        cli.config.as_deref(),
        Some("/tmp/gpiojsonsvc.toml")
    );
}

#[test]
fn cli_parses_mock_without_config_path() {
    let cli = parse_run(&["gpiojsonsvc", "--mock"]);
    assert!(cli.mock);
    assert!(cli.config.is_none());
}

#[test]
fn cli_defaults_to_real_backend_without_mock() {
    let cli = parse_run(&["gpiojsonsvc"]);
    assert!(!cli.mock);
    assert!(cli.config.is_none());
    assert_eq!(
        MockMode::from_cli_and_env(cli.mock, None).expect("mode"),
        MockMode::Off
    );
}

#[test]
fn cli_rejects_unknown_option() {
    let error = parse_args(&args(&["gpiojsonsvc", "--config", "/tmp/gpiojsonsvc.toml"]))
        .expect_err("unknown option");
    assert!(error.message().contains("unknown option --config"));
}

#[test]
fn cli_rejects_extra_positional() {
    let error = parse_args(&args(&["gpiojsonsvc", "a.toml", "b.toml"])).expect_err("extra");
    assert!(error.message().contains("unexpected extra argument"));
}

#[test]
fn cli_rejects_duplicate_mock() {
    let error = parse_args(&args(&["gpiojsonsvc", "--mock", "--mock"])).expect_err("duplicate");
    assert_eq!(error.message(), "duplicate --mock");
}

#[test]
fn cli_help_and_version_short_circuit() {
    assert_eq!(
        parse_args(&args(&["gpiojsonsvc", "--help"])).expect("help"),
        ParseArgs::Help
    );
    assert_eq!(
        parse_args(&args(&["gpiojsonsvc", "-V"])).expect("version"),
        ParseArgs::Version
    );
    assert!(HELP.contains("--mock"));
    assert!(HELP.contains("GPIOJSONSVC_MOCK_LOG"));
    assert!(HELP.contains(MOCK_LOG_ENV_VAR));
}

#[test]
fn mock_mode_uses_env_log_path() {
    assert_eq!(
        MockMode::from_cli_and_env(true, None).expect("on"),
        MockMode::On
    );
    assert_eq!(
        MockMode::from_cli_and_env(true, Some(String::from(""))).expect("empty log"),
        MockMode::On
    );
    assert_eq!(
        MockMode::from_cli_and_env(true, Some(String::from("/tmp/mock-write.log")))
            .expect("log"),
        MockMode::OnWithWriteLog("/tmp/mock-write.log".into())
    );
    assert!(matches!(
        MockMode::from_cli_and_env(false, Some(String::from("/tmp/mock-write.log"))),
        Err(AppError::MockLogWithoutMock)
    ));
}

#[test]
fn select_backend_requires_mock_until_real_backend_exists() {
    assert!(matches!(
        select_backend(MockMode::Off),
        Err(AppError::RealBackendUnavailable)
    ));
    assert!(select_backend(MockMode::On).is_ok());
    assert_eq!(
        select_backend(MockMode::Off).unwrap_err().message(),
        "real backend unavailable; use --mock"
    );
}

#[test]
fn write_log_path_is_handed_on() {
    assert_eq!(
        select_backend(MockMode::OnWithWriteLog("/tmp/mock-write.log".to_owned())),
        Ok(Some("/tmp/mock-write.log".to_owned()))
    );
    assert_eq!(select_backend(MockMode::On), Ok(None));
}

#[test]
fn mock_startup_rejects_missing_chip_file() {
    let error = validate("/tmp/missing.xml", 7, Err("No such file")).expect_err("missing xml");
    match error {
        AppError::UnavailableDeviceFile { device, .. } => {
            assert_eq!(device, "/tmp/missing.xml");
        }
        other => panic!("unexpected error: {other:?}"),
    }
}

#[test]
fn mock_startup_rejects_invalid_chip_xml() {
    let error =
        validate("/tmp/gpiochip0.xml", 7, Ok("<not-a-gpiochip/>")).expect_err("invalid xml");
    match error {
        AppError::InvalidChipFile { device, .. } => {
            assert_eq!(device, "/tmp/gpiochip0.xml");
        }
        other => panic!("unexpected error: {other:?}"),
    }
}

#[test]
fn mock_startup_rejects_unavailable_line() {
    let error = validate("/tmp/gpiochip0.xml", 99, Ok(SAMPLE_XML)).expect_err("missing line");
    match error {
        AppError::MissingLine { pin, line, .. } => {
            assert_eq!(pin, "gpiochip0:7");
            assert_eq!(line, 99);
        }
        other => panic!("unexpected error: {other:?}"),
    }
}

#[test]
fn mock_startup_accepts_mapped_lines() {
    assert_eq!(validate("/tmp/gpiochip0.xml", 7, Ok(SAMPLE_XML)), Ok(()));
}

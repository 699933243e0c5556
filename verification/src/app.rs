//! Command line, backend selection and the checks at startup.

use vstd::prelude::*;
use vstd::string::StringExecFns;

use crate::config::GPIODPinSpec;
use crate::config::ServiceConfig;
use crate::error::AppError;
use crate::error::AppErrorModel;
use crate::gpio::mock::document::parse_chip_xml;
use crate::gpio::mock::load::load_begin;
use crate::gpio::mock::load::load_events;
use crate::gpio::mock::xml::xml_events;
use crate::names::NameMap;
use crate::protocol::pin_names::texts;
use crate::text::same_text;
use crate::text::text_chars;

verus! {

/// Environment variable that names the write log of the mock backend.
pub const MOCK_LOG_ENV_VAR: &'static str = "GPIOJSONSVC_MOCK_LOG";

/// What `--help` prints.
pub const HELP: &'static str = "gpiojsonsvc [OPTIONS] [CONFIG]

GPIO JSON service over a Unix domain socket.

Arguments:
  [CONFIG]  Path to the TOML config file
            (default: GPIOJSONSVC_CONFIG, then gpiojsonsvc.toml)

Options:
      --mock       Use the file-backed mock GPIO backend
  -h, --help       Print help
  -V, --version    Print version

Environment:
  GPIOJSONSVC_CONFIG     Config file path when CONFIG is omitted
  GPIOJSONSVC_MOCK_LOG   Append chip XML dumps after mock writes
";

/// Options of the service.
#[derive(Debug, Clone, PartialEq, Eq)]
pub struct Cli {
    pub config: Option<String>,
    pub mock: bool,
}

/// What the command line asks for.
#[derive(Debug, Clone, PartialEq, Eq)]
pub enum ParseArgs {
    Help,
    Version,
    Run(Cli),
}

/// A [`ParseArgs`] in mathematical terms.
pub ghost enum ParseArgsModel {
    Help,
    Version,
    Run { config: Option<Seq<char>>, mock: bool },
}

impl View for ParseArgs {
    type V = ParseArgsModel;

    open spec fn view(&self) -> ParseArgsModel {
        match *self {
            ParseArgs::Help => ParseArgsModel::Help,
            ParseArgs::Version => ParseArgsModel::Version,
            ParseArgs::Run(cli) => ParseArgsModel::Run {
                config: match cli.config {
                    Some(path) => Some(path@),
                    None => None,
                },
                mock: cli.mock,
            },
        }
    }
}

/// How far reading the command line has come.
pub ghost struct CliModel {
    pub config: Option<Seq<char>>,
    pub mock: bool,
    pub end_of_flags: bool,
}

/// What the rest of a command line asks for. Flags may stand anywhere before `--`; help and
/// version end the reading at once; there is at most one path.
pub open spec fn parsed_args(args: Seq<Seq<char>>, cli: CliModel) -> Result<
    ParseArgsModel,
    Seq<char>,
>
    decreases args.len(),
{
    if args.len() == 0 {
        Ok(ParseArgsModel::Run { config: cli.config, mock: cli.mock })
    } else {
        let arg = args[0];
        let rest = args.drop_first();
        if !cli.end_of_flags && arg == "--"@ {
            parsed_args(rest, CliModel { end_of_flags: true, ..cli })
        } else if !cli.end_of_flags && (arg == "--help"@ || arg == "-h"@) {
            Ok(ParseArgsModel::Help)
        } else if !cli.end_of_flags && (arg == "--version"@ || arg == "-V"@) {
            Ok(ParseArgsModel::Version)
        } else if !cli.end_of_flags && arg == "--mock"@ {
            if cli.mock {
                Err("duplicate --mock"@)
            } else {
                parsed_args(rest, CliModel { mock: true, ..cli })
            }
        } else if !cli.end_of_flags && arg.len() > 0 && arg[0] == '-' {
            Err("unknown option "@ + arg)
        } else if cli.config is Some {
            Err("unexpected extra argument "@ + arg)
        } else {
            parsed_args(rest, CliModel { config: Some(arg), ..cli })
        }
    }
}

fn starts_with_dash(text: &str) -> (result: bool)
    ensures
        result == (text@.len() > 0 && text@[0] == '-'),
{
    let chars = text_chars(text);
    chars.len() > 0 && chars[0] == '-'
}

/// Reads the command line. The first argument is the name of the program.
pub fn parse_args(args: &Vec<String>) -> (result: Result<ParseArgs, AppError>)
    ensures
        ({
            let given = if args@.len() == 0 {
                Seq::empty()
            } else {
                texts(args@).drop_first()
            };
            let start = CliModel { config: None, mock: false, end_of_flags: false };
            match (result, parsed_args(given, start)) {
                (Ok(parsed), Ok(expected)) => parsed@ == expected,
                (Err(error), Err(text)) => error@ == AppErrorModel::Usage(text),
                _ => false,
            }
        }),
{
    let mut mock = false;
    let mut config: Option<String> = None;
    let mut end_of_flags = false;
    let ghost all = texts(args@);
    let ghost given = if args@.len() == 0 {
        Seq::empty()
    } else {
        all.drop_first()
    };
    let ghost start = CliModel { config: None, mock: false, end_of_flags: false };
    let mut index: usize = if args.len() == 0 {
        0
    } else {
        1
    };
    assert(all.skip(index as int) =~= given);
    while index < args.len()
        invariant
            index <= args@.len(),
            all == texts(args@),
            given == if args@.len() == 0 {
                Seq::empty()
            } else {
                all.drop_first()
            },
            start == (CliModel { config: None, mock: false, end_of_flags: false }),
            parsed_args(given, start) == parsed_args(
                all.skip(index as int),
                CliModel {
                    config: match config {
                        Some(path) => Some(path@),
                        None => None,
                    },
                    mock,
                    end_of_flags,
                },
            ),
        decreases args@.len() - index,
    {
        let arg = args[index].as_str();
        proof {
            assert(all.skip(index as int)[0] == arg@);
            assert(all.skip(index as int).drop_first() =~= all.skip(index + 1));
        }
        index += 1;
        if !end_of_flags {
            if same_text(arg, "--") {
                end_of_flags = true;
                continue;
            }
            if same_text(arg, "--help") || same_text(arg, "-h") {
                return Ok(ParseArgs::Help);
            }
            if same_text(arg, "--version") || same_text(arg, "-V") {
                return Ok(ParseArgs::Version);
            }
            if same_text(arg, "--mock") {
                if mock {
                    return Err(AppError::Usage("duplicate --mock".to_owned()));
                }
                mock = true;
                continue;
            }
            if starts_with_dash(arg) {
                return Err(AppError::Usage("unknown option ".to_owned().concat(arg)));
            }
        }
        if config.is_some() {
            return Err(AppError::Usage("unexpected extra argument ".to_owned().concat(arg)));
        }
        config = Some(arg.to_owned());
    }
    assert(all.skip(index as int).len() == 0);
    Ok(ParseArgs::Run(Cli { config, mock }))
}

/// Whether the mock backend is used, and where it logs writes.
#[derive(Debug, Clone, PartialEq, Eq)]
pub enum MockMode {
    Off,
    On,
    OnWithWriteLog(String),
}

impl MockMode {
    /// The mode that the command line and the environment ask for. A write log needs the mock
    /// backend; an empty path is none.
    pub fn from_cli_and_env(mock: bool, log: Option<String>) -> (result: Result<Self, AppError>)
        ensures
            ({
                let wanted = log is Some && log->Some_0@.len() > 0;
                match result {
                    Ok(MockMode::Off) => !mock && !wanted,
                    Ok(MockMode::On) => mock && !wanted,
                    Ok(MockMode::OnWithWriteLog(path)) => mock && wanted && path@
                        == log->Some_0@,
                    Err(error) => !mock && wanted && error@ == AppErrorModel::MockLogWithoutMock,
                }
            }),
    {
        let log = match log {
            Some(path) => if path.as_str().is_empty() {
                None
            } else {
                Some(path)
            },
            None => None,
        };
        match (mock, log) {
            (false, None) => Ok(MockMode::Off),
            (false, Some(_)) => Err(AppError::MockLogWithoutMock),
            (true, None) => Ok(MockMode::On),
            (true, Some(path)) => Ok(MockMode::OnWithWriteLog(path)),
        }
    }
}

/// The service configuration and the mode of the mock backend.
#[derive(Debug, PartialEq, Eq)]
pub struct AppConfig {
    pub service: ServiceConfig,
    pub mock: MockMode,
}

/// The backend of a mode: the mock backend, with its write log where it has one. There is no
/// other backend.
pub fn select_backend(mock: MockMode) -> (result: Result<Option<String>, AppError>)
    ensures
        match (result, mock) {
            (Err(error), MockMode::Off) => error@ == AppErrorModel::RealBackendUnavailable,
            (Ok(None), MockMode::On) => true,
            (Ok(Some(log)), MockMode::OnWithWriteLog(path)) => log@ == path@,
            _ => false,
        },
{
    match mock {
        MockMode::Off => Err(AppError::RealBackendUnavailable),
        MockMode::On => Ok(None),
        MockMode::OnWithWriteLog(path) => Ok(Some(path)),
    }
}

// ---------------------------------------------------------------------------
// Chip files
// ---------------------------------------------------------------------------

/// The view of what reading files gave.
pub open spec fn file_models(files: Map<Seq<char>, Result<String, String>>) -> Map<
    Seq<char>,
    Result<Seq<char>, Seq<char>>,
> {
    files.map_values(
        |file: Result<String, String>|
            match file {
                Ok(content) => Ok::<Seq<char>, Seq<char>>(content@),
                Err(error) => Err::<Seq<char>, Seq<char>>(error@),
            },
    )
}

/// Why a mapped pin cannot be used: its device file cannot be read, is not a chip, or has no
/// such line.
pub open spec fn pin_fault(
    pin: Seq<char>,
    device: Seq<char>,
    line: u32,
    file: Result<Seq<char>, Seq<char>>,
) -> Option<AppErrorModel> {
    match file {
        Err(source) => Some(AppErrorModel::UnavailableDeviceFile { device, source }),
        Ok(content) => match load_events(load_begin(), xml_events(content)) {
            Err(error) => Some(
                AppErrorModel::InvalidChipFile {
                    device,
                    message: "xml parse error: "@ + error.text(),
                },
            ),
            Ok(chip) => if chip.lines.contains_key(line) {
                None
            } else {
                Some(AppErrorModel::MissingLine { pin, device, line })
            },
        },
    }
}

/// Why the first of these pins that cannot be used cannot.
pub open spec fn first_pin_fault(
    names: Seq<Seq<char>>,
    specs: Seq<GPIODPinSpec>,
    files: Map<Seq<char>, Result<Seq<char>, Seq<char>>>,
) -> Option<AppErrorModel>
    decreases names.len(),
{
    if names.len() == 0 {
        None
    } else {
        match first_pin_fault(names.drop_last(), specs, files) {
            Some(error) => Some(error),
            None => {
                let spec = specs[names.len() - 1]@;
                pin_fault(names.last(), spec.0, spec.1, files[spec.0])
            },
        }
    }
}

proof fn lemma_first_pin_fault(
    names: Seq<Seq<char>>,
    specs: Seq<GPIODPinSpec>,
    files: Map<Seq<char>, Result<Seq<char>, Seq<char>>>,
    count: int,
)
    requires
        0 <= count <= names.len(),
        first_pin_fault(names.take(count), specs, files) is Some,
    ensures
        first_pin_fault(names, specs, files) == first_pin_fault(names.take(count), specs, files),
    decreases names.len(),
{
    if count == names.len() {
        assert(names.take(count) =~= names);
    } else {
        assert(names.drop_last().take(count) =~= names.take(count));
        lemma_first_pin_fault(names.drop_last(), specs, files, count);
    }
}

fn check_pin(pin: &str, spec: &GPIODPinSpec, file: &Result<String, String>) -> (result: Result<
    (),
    AppError,
>)
    ensures
        ({
            let model = match *file {
                Ok(content) => Ok::<Seq<char>, Seq<char>>(content@),
                Err(error) => Err::<Seq<char>, Seq<char>>(error@),
            };
            match result {
                Ok(_) => pin_fault(pin@, spec.device@, spec.line, model) is None,
                Err(error) => pin_fault(pin@, spec.device@, spec.line, model) == Some(error@),
            }
        }),
{
    let content = match file {
        Ok(content) => content,
        Err(source) => {
            return Err(
                AppError::UnavailableDeviceFile {
                    device: spec.device.clone(),
                    source: source.clone(),
                },
            );
        },
    };
    let chip = match parse_chip_xml(content.as_str()) {
        Ok(chip) => chip,
        Err(error) => {
            return Err(
                AppError::InvalidChipFile {
                    device: spec.device.clone(),
                    message: error.message(),
                },
            );
        },
    };
    if chip.lines.contains_key(&spec.line) {
        assert(chip@.lines.contains_key(spec.line));
        Ok(())
    } else {
        Err(
            AppError::MissingLine {
                pin: pin.to_owned(),
                device: spec.device.clone(),
                line: spec.line,
            },
        )
    }
}

/// Checks that every mapped pin has a chip file with its line, in the order of the pins. The
/// files are given by device.
pub fn validate_mock_chip_files(
    pins: &NameMap<GPIODPinSpec>,
    files: &NameMap<Result<String, String>>,
) -> (result: Result<(), AppError>)
    requires
        forall|i: int|
            0 <= i < pins.values().len() ==> files.contents().contains_key(
                (#[trigger] pins.values()[i]).device@,
            ),
    ensures
        match result {
            Ok(_) => first_pin_fault(
                pins.names(),
                pins.values(),
                file_models(files.contents()),
            ) is None,
            Err(error) => first_pin_fault(
                pins.names(),
                pins.values(),
                file_models(files.contents()),
            ) == Some(error@),
        },
{
    let count: usize = pins.len();
    let ghost names = pins.names();
    let ghost specs = pins.values();
    let ghost models = file_models(files.contents());
    let mut index: usize = 0;
    assert(names.take(0) =~= Seq::<Seq<char>>::empty());
    while index < count
        invariant
            index <= count,
            count == names.len(),
            names.len() == specs.len(),
            names == pins.names(),
            specs == pins.values(),
            models == file_models(files.contents()),
            forall|i: int|
                0 <= i < specs.len() ==> files.contents().contains_key(
                    (#[trigger] specs[i]).device@,
                ),
            first_pin_fault(names.take(index as int), specs, models) is None,
        decreases count - index,
    {
        let ghost prefix = names.take(index + 1);
        proof {
            assert(prefix.drop_last() =~= names.take(index as int));
            if first_pin_fault(prefix, specs, models) is Some {
                lemma_first_pin_fault(names, specs, models, index + 1);
            }
        }
        let spec = pins.value_at(index);
        assert(files.contents().contains_key(specs[index as int].device@));
        let file = files.get(spec.device.as_str()).unwrap();
        match check_pin(pins.name_at(index).as_str(), spec, file) {
            Ok(_) => {},
            Err(error) => return Err(error),
        }
        index += 1;
    }
    assert(names.take(index as int) =~= names);
    Ok(())
}

} // verus!

//! What holds of the command line and of the check of chip files.

use vstd::prelude::*;

use crate::app::first_pin_fault;
use crate::app::parsed_args;
use crate::app::pin_fault;
use crate::app::CliModel;
use crate::app::ParseArgsModel;
use crate::config::GPIODPinSpec;
use crate::error::AppErrorModel;
use crate::gpio::mock::load::load_begin;
use crate::gpio::mock::load::load_events;
use crate::gpio::mock::xml::xml_events;

verus! {

/// A command line of which nothing was read.
pub open spec fn no_options() -> CliModel {
    CliModel { config: None, mock: false, end_of_flags: false }
}

/// Where the options of a command line end: at the first `--`, or at its end.
pub open spec fn options_end(args: Seq<Seq<char>>) -> int
    decreases args.len(),
{
    if args.len() == 0 {
        0
    } else if args[0] == "--"@ {
        0
    } else {
        1 + options_end(args.drop_first())
    }
}

/// Whether an argument is a path: behind the options, or one of them that does not begin with a
/// dash.
pub open spec fn is_path(args: Seq<Seq<char>>, over: bool, index: int) -> bool {
    &&& 0 <= index < args.len()
    &&& over || index > options_end(args) || (index < options_end(args) && !(args[index].len() > 0
        && args[index][0] == '-'))
}

proof fn lemma_words()
    ensures
        "--"@.len() == 2,
        "--mock"@.len() == 6,
        "--help"@.len() == 6,
        "--version"@.len() == 9,
        "-h"@.len() == 2,
        "-V"@.len() == 2,
        "--mock"@ != "--help"@,
        "-h"@ != "-V"@,
        "-h"@ != "--"@,
        "-V"@ != "--"@,
        "--mock"@[0] == '-',
        "--help"@[0] == '-',
        "--version"@[0] == '-',
        "-h"@[0] == '-',
        "-V"@[0] == '-',
        "--"@[0] == '-',
{
    reveal_strlit("--");
    reveal_strlit("--mock");
    reveal_strlit("--help");
    reveal_strlit("--version");
    reveal_strlit("-h");
    reveal_strlit("-V");
    assert("--mock"@[2] != "--help"@[2]);
    assert("-h"@[1] != "-V"@[1]);
    assert("-h"@[1] != "--"@[1]);
    assert("-V"@[1] != "--"@[1]);
}

proof fn lemma_end(args: Seq<Seq<char>>)
    ensures
        0 <= options_end(args) <= args.len(),
        args.len() > 0 && args[0] != "--"@ ==> options_end(args) == 1 + options_end(
            args.drop_first(),
        ),
        args.len() > 0 && args[0] == "--"@ ==> options_end(args) == 0,
    decreases args.len(),
{
    if args.len() > 0 {
        lemma_end(args.drop_first());
    }
}

proof fn lemma_run(args: Seq<Seq<char>>, cli: CliModel)
    requires
        parsed_args(args, cli) matches Ok(ParseArgsModel::Run { .. }),
    ensures
        ({
            let parsed = parsed_args(args, cli)->Ok_0;
            let end = options_end(args);
            &&& !cli.end_of_flags ==> forall|i: int|
                #![trigger args[i]]
                0 <= i < end && args[i].len() > 0 && args[i][0] == '-' ==> args[i] == "--mock"@
            &&& parsed->mock <==> cli.mock || (!cli.end_of_flags && exists|i: int|
                #![trigger args[i]]
                0 <= i < end && args[i] == "--mock"@)
            &&& cli.config is Some ==> parsed->config == cli.config
            &&& cli.config is None ==> (parsed->config is Some <==> exists|i: int|
                #[trigger] is_path(args, cli.end_of_flags, i))
            &&& forall|i: int| #[trigger]
                is_path(args, cli.end_of_flags, i) ==> parsed->config == Some(args[i])
                    && cli.config is None
        }),
    decreases args.len(),
{
    lemma_words();
    lemma_end(args);
    if args.len() > 0 {
        let arg = args[0];
        let rest = args.drop_first();
        let over = cli.end_of_flags;
        lemma_end(rest);
        assert(forall|i: int| 0 <= i < rest.len() ==> #[trigger] rest[i] == args[i + 1]);
        let next = if !over && arg == "--"@ {
            CliModel { end_of_flags: true, ..cli }
        } else if !over && arg == "--mock"@ {
            CliModel { mock: true, ..cli }
        } else {
            CliModel { config: Some(arg), ..cli }
        };
        assert(parsed_args(args, cli) == parsed_args(rest, next));
        lemma_run(rest, next);
        let parsed = parsed_args(args, cli)->Ok_0;
        let end = options_end(args);
        assert forall|i: int| #[trigger] is_path(args, over, i) implies parsed->config
            == Some(args[i]) && cli.config is None by {
            if i > 0 {
                assert(rest[i - 1] == args[i]);
                assert(is_path(rest, next.end_of_flags, i - 1));
            } else {
                assert(next.config == Some(arg));
            }
        }
        if !over {
            assert forall|i: int|
                #![trigger args[i]]
                0 <= i < end && args[i].len() > 0 && args[i][0] == '-' implies args[i]
                == "--mock"@ by {
                if i > 0 {
                    assert(rest[i - 1] == args[i]);
                }
            }
            if exists|i: int| #![trigger args[i]] 0 <= i < end && args[i] == "--mock"@ {
                let i = choose|i: int| #![trigger args[i]] 0 <= i < end && args[i] == "--mock"@;
                if i > 0 {
                    assert(rest[i - 1] == "--mock"@);
                }
            }
            if !next.end_of_flags && exists|i: int|
                #![trigger rest[i]]
                0 <= i < options_end(rest) && rest[i] == "--mock"@ {
                let i = choose|i: int|
                    #![trigger rest[i]]
                    0 <= i < options_end(rest) && rest[i] == "--mock"@;
                assert(args[i + 1] == "--mock"@);
            }
        }
        if cli.config is None && parsed->config is Some {
            if next.config is Some {
                assert(is_path(args, over, 0));
                assert(args[0] == arg);
            } else {
                let i = choose|i: int| #[trigger] is_path(rest, next.end_of_flags, i);
                assert(args[i + 1] == rest[i]);
                assert(is_path(args, over, i + 1));
            }
        }
    }
}

/// A command line that starts the service has no option but `--mock`, uses the mock backend
/// exactly where it has that option, and names at most one path, which is that of the
/// configuration. Behind `--` everything is a path.
pub proof fn the_service_runs_as_asked(args: Seq<Seq<char>>)
    requires
        parsed_args(args, no_options()) matches Ok(ParseArgsModel::Run { .. }),
    ensures
        ({
            let parsed = parsed_args(args, no_options())->Ok_0;
            let end = options_end(args);
            &&& forall|i: int|
                #![trigger args[i]]
                0 <= i < end && args[i].len() > 0 && args[i][0] == '-' ==> args[i] == "--mock"@
            &&& parsed->mock <==> exists|i: int|
                #![trigger args[i]]
                0 <= i < end && args[i] == "--mock"@
            &&& parsed->config is Some <==> exists|i: int|
                #[trigger] is_path(args, false, i)
            &&& forall|i: int| #[trigger]
                is_path(args, false, i) ==> parsed->config == Some(args[i])
        }),
{
    lemma_run(args, no_options());
}

proof fn lemma_asked(args: Seq<Seq<char>>, cli: CliModel, index: int)
    requires
        !cli.end_of_flags,
        0 <= index < args.len(),
        forall|i: int| 0 <= i < index ==> #[trigger] args[i] == "--mock"@,
        index + (if cli.mock {
            1int
        } else {
            0int
        }) <= 1,
    ensures
        args[index] == "--help"@ || args[index] == "-h"@ ==> parsed_args(args, cli) == Ok::<
            ParseArgsModel,
            Seq<char>,
        >(ParseArgsModel::Help),
        args[index] == "--version"@ || args[index] == "-V"@ ==> parsed_args(args, cli) == Ok::<
            ParseArgsModel,
            Seq<char>,
        >(ParseArgsModel::Version),
    decreases args.len(),
{
    lemma_words();
    if index > 0 {
        let rest = args.drop_first();
        assert(args[0] == "--mock"@);
        assert(rest[index - 1] == args[index]);
        lemma_asked(rest, CliModel { mock: true, ..cli }, index - 1);
    }
}

/// `--help` and `-h` ask for help, `--version` and `-V` for the version, at the start of a
/// command line or behind `--mock`, whatever follows.
pub proof fn help_and_version_are_given(args: Seq<Seq<char>>, index: int)
    requires
        0 <= index <= 1,
        index < args.len(),
        index == 1 ==> args[0] == "--mock"@,
    ensures
        args[index] == "--help"@ || args[index] == "-h"@ ==> parsed_args(args, no_options())
            == Ok::<ParseArgsModel, Seq<char>>(ParseArgsModel::Help),
        args[index] == "--version"@ || args[index] == "-V"@ ==> parsed_args(args, no_options())
            == Ok::<ParseArgsModel, Seq<char>>(ParseArgsModel::Version),
{
    lemma_asked(args, no_options(), index);
}

// ---------------------------------------------------------------------------
// Chip files
// ---------------------------------------------------------------------------

/// Whether a pin can be used: the file of its device was read, holds a chip, and the chip has
/// the line.
pub open spec fn usable(spec: GPIODPinSpec, file: Result<Seq<char>, Seq<char>>) -> bool {
    file matches Ok(content) && (load_events(load_begin(), xml_events(content)) matches Ok(chip)
        && chip.lines.contains_key(spec.line))
}

/// The service starts exactly where all its pins can be used. Otherwise the first that cannot
/// is the reason: its file was not read, holds no chip, or has no such line.
pub proof fn unusable_pins_stop_the_service(
    names: Seq<Seq<char>>,
    specs: Seq<GPIODPinSpec>,
    files: Map<Seq<char>, Result<Seq<char>, Seq<char>>>,
)
    requires
        names.len() <= specs.len(),
    ensures
        first_pin_fault(names, specs, files) is None <==> forall|i: int|
            #![trigger specs[i]]
            0 <= i < names.len() ==> usable(specs[i], files[specs[i].device@]),
        first_pin_fault(names, specs, files) matches Some(error) ==> exists|i: int|
            #![trigger specs[i]]
            {
                let spec = specs[i];
                let file = files[spec.device@];
                &&& 0 <= i < names.len()
                &&& !usable(spec, file)
                &&& forall|j: int|
                    #![trigger specs[j]]
                    0 <= j < i ==> usable(specs[j], files[specs[j].device@])
                &&& file matches Err(source) ==> error == (AppErrorModel::UnavailableDeviceFile {
                    device: spec.device@,
                    source,
                })
                &&& file matches Ok(content) ==> match load_events(
                    load_begin(),
                    xml_events(content),
                ) {
                    Err(fault) => error == (AppErrorModel::InvalidChipFile {
                        device: spec.device@,
                        message: "xml parse error: "@ + fault.text(),
                    }),
                    Ok(_) => error == (AppErrorModel::MissingLine {
                        pin: names[i],
                        device: spec.device@,
                        line: spec.line,
                    }),
                }
            },
    decreases names.len(),
{
    if names.len() > 0 {
        let front = names.drop_last();
        let last = names.len() - 1;
        unusable_pins_stop_the_service(front, specs, files);
        assert(names[last] == names.last());
        let spec = specs[last];
        let file = files[spec.device@];
        assert(pin_fault(names[last], spec.device@, spec.line, file) is None <==> usable(
            spec,
            file,
        ));
        if let Some(error) = first_pin_fault(front, specs, files) {
            let i = choose|i: int|
                #![trigger specs[i]]
                {
                    let spec = specs[i];
                    let file = files[spec.device@];
                    &&& 0 <= i < front.len()
                    &&& !usable(spec, file)
                    &&& forall|j: int|
                        #![trigger specs[j]]
                        0 <= j < i ==> usable(specs[j], files[specs[j].device@])
                    &&& file matches Err(source) ==> error == (
                    AppErrorModel::UnavailableDeviceFile { device: spec.device@, source })
                    &&& file matches Ok(content) ==> match load_events(
                        load_begin(),
                        xml_events(content),
                    ) {
                        Err(fault) => error == (AppErrorModel::InvalidChipFile {
                            device: spec.device@,
                            message: "xml parse error: "@ + fault.text(),
                        }),
                        Ok(_) => error == (AppErrorModel::MissingLine {
                            pin: front[i],
                            device: spec.device@,
                            line: spec.line,
                        }),
                    }
                };
            assert(front[i] == names[i]);
            assert(specs[i] == specs[i]);
        } else {
            assert(specs[last] == spec);
        }
    }
}

} // verus!

use vstd::prelude::*;

use crate::text::{str_eq, string_views};

verus! {

/// Program arguments gathered from the command line and the environment.
#[derive(Debug)]
pub struct Args {
    pub verbose: bool,
    pub config_path: String,
    pub events_path: String,
}

/// What the command line asks for.
#[derive(Debug)]
pub enum Invocation {
    /// Print the usage and stop.
    Help,
    /// Print the version and stop.
    Version,
    /// Run the scheduler; each flag says whether that path fell back to its
    /// built-in default, neither the command line nor the environment giving
    /// one.
    Run { args: Args, config_defaulted: bool, events_defaulted: bool },
}

/// The environment variable that names the configuration file.
pub const CONFIG_PATH_ENV: &'static str = "MY_TIMERS_CONFIG";

/// The configuration file read when none is named.
pub const CONFIG_PATH_DEFAULT: &'static str = "config.json";

/// The environment variable that names the event file.
pub const EVENTS_PATH_ENV: &'static str = "MY_TIMERS_EVENTS";

/// The event file read when none is named.
pub const EVENTS_PATH_DEFAULT: &'static str = "events.conf";

/// Why reading the arguments stopped early.
pub enum Stop {
    Help,
    Version,
}

/// What the arguments read so far say.
pub struct ArgScan {
    pub stop: Option<Stop>,
    pub verbose: bool,
    pub config: Option<Seq<char>>,
    pub events: Option<Seq<char>>,
}

/// The arguments `argv[0..n]` read in order: `-h`/`--help` and
/// `-V`/`--version` stop the reading; `-v`/`--verbose` sets verbosity;
/// `-c`/`--config` and `-e`/`--events` take the next argument, when there is
/// one, the last such taking effect.
pub open spec fn scan_args(argv: Seq<Seq<char>>, n: nat) -> ArgScan
    decreases n,
{
    if n == 0 {
        ArgScan { stop: None, verbose: false, config: None, events: None }
    } else {
        let s = scan_args(argv, (n - 1) as nat);
        let i = n - 1;
        let a = argv[i];
        let has_next = i < argv.len() - 1;
        if s.stop is Some {
            s
        } else if a == "-h"@ || a == "--help"@ {
            ArgScan { stop: Some(Stop::Help), ..s }
        } else if a == "-V"@ || a == "--version"@ {
            ArgScan { stop: Some(Stop::Version), ..s }
        } else if a == "-v"@ || a == "--verbose"@ {
            ArgScan { verbose: true, ..s }
        } else if (a == "-c"@ || a == "--config"@) && has_next {
            ArgScan { config: Some(argv[i + 1]), ..s }
        } else if (a == "-e"@ || a == "--events"@) && has_next {
            ArgScan { events: Some(argv[i + 1]), ..s }
        } else {
            s
        }
    }
}

/// A path from the command line, else from the environment, else the
/// default.
pub open spec fn pick_path(cli: Option<Seq<char>>, env: Option<Seq<char>>, default: Seq<char>) -> Seq<
    char,
> {
    match cli {
        Some(p) => p,
        None => match env {
            Some(p) => p,
            None => default,
        },
    }
}

pub open spec fn opt_view(o: Option<String>) -> Option<Seq<char>> {
    match o {
        Some(s) => Some(s@),
        None => None,
    }
}

/// Reads the program arguments `argv` (the program's name first), with the
/// values of the two environment variables, where set.
pub fn args(argv: &Vec<String>, config_env: Option<String>, events_env: Option<String>) -> (r:
    Invocation)
    ensures
        ({
            let s = scan_args(string_views(argv@), argv@.len() as nat);
            match r {
                Invocation::Help => s.stop == Some(Stop::Help),
                Invocation::Version => s.stop == Some(Stop::Version),
                Invocation::Run { args, config_defaulted, events_defaulted } => {
                    &&& s.stop is None
                    &&& args.verbose == s.verbose
                    &&& args.config_path@ == pick_path(
                        s.config,
                        opt_view(config_env),
                        CONFIG_PATH_DEFAULT@,
                    )
                    &&& args.events_path@ == pick_path(
                        s.events,
                        opt_view(events_env),
                        EVENTS_PATH_DEFAULT@,
                    )
                    &&& config_defaulted == (s.config is None && config_env is None)
                    &&& events_defaulted == (s.events is None && events_env is None)
                },
            }
        }),
{
    let ghost av = string_views(argv@);
    let mut verbose = false;
    let mut config: Option<String> = None;
    let mut events: Option<String> = None;
    let mut i: usize = 0;
    while i < argv.len()
        invariant
            i <= argv.len(),
            av == string_views(argv@),
            av.len() == argv@.len(),
            ({
                let s = scan_args(av, i as nat);
                &&& s.stop is None
                &&& s.verbose == verbose
                &&& s.config == opt_view(config)
                &&& s.events == opt_view(events)
            }),
        decreases argv.len() - i,
    {
        let a = argv[i].as_str();
        assert(av[i as int] == a@);
        let has_next = i + 1 < argv.len();
        if str_eq(a, "-h") || str_eq(a, "--help") {
            assert(scan_args(av, (i + 1) as nat).stop == Some(Stop::Help));
            proof {
                lemma_stop_stays(av, (i + 1) as nat, av.len());
            }
            return Invocation::Help;
        } else if str_eq(a, "-V") || str_eq(a, "--version") {
            assert(scan_args(av, (i + 1) as nat).stop == Some(Stop::Version));
            proof {
                lemma_stop_stays(av, (i + 1) as nat, av.len());
            }
            return Invocation::Version;
        } else if str_eq(a, "-v") || str_eq(a, "--verbose") {
            verbose = true;
        } else if (str_eq(a, "-c") || str_eq(a, "--config")) && has_next {
            assert(av[i + 1] == argv@[i + 1]@);
            config = Some(argv[i + 1].clone());
        } else if (str_eq(a, "-e") || str_eq(a, "--events")) && has_next {
            assert(av[i + 1] == argv@[i + 1]@);
            events = Some(argv[i + 1].clone());
        }
        i += 1;
    }
    let config_defaulted = config.is_none() && config_env.is_none();
    let events_defaulted = events.is_none() && events_env.is_none();
    let config_path = match config {
        Some(p) => p,
        None => match config_env {
            Some(p) => p,
            None => CONFIG_PATH_DEFAULT.to_owned(),
        },
    };
    let events_path = match events {
        Some(p) => p,
        None => match events_env {
            Some(p) => p,
            None => EVENTS_PATH_DEFAULT.to_owned(),
        },
    };
    Invocation::Run { args: Args { verbose, config_path, events_path }, config_defaulted, events_defaulted }
}

/// Once an argument stops the reading, the rest change nothing.
proof fn lemma_stop_stays(argv: Seq<Seq<char>>, n: nat, m: nat)
    requires
        n <= m,
        scan_args(argv, n).stop is Some,
    ensures
        scan_args(argv, m) == scan_args(argv, n),
    decreases m - n,
{
    if m > n {
        lemma_stop_stays(argv, n, (m - 1) as nat);
    }
}

} // verus!

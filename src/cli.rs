//! The command line: `<destination[:port]> [-p port] [-c count] [-4|-6]`,
//! or `-h` / `-v` in place of the destination.
use vstd::prelude::*;
use crate::destination::{destination_parts, parse_destination};
use crate::digits::{parse_u16, parse_u32, parse_unsigned};
use crate::target::Family;
use crate::text::same_text;

verus! {

/// Port used when neither the destination nor `-p` gives one.
pub const DEFAULT_PORT: u16 = 80;

/// The options that shape a run, besides the host.
#[derive(Clone, Copy, Debug, PartialEq, Eq, Structural)]
pub struct Settings {
    pub port: u16,
    /// Stop after this many attempts; `None` runs until interrupted.
    pub count: Option<u32>,
    /// Address family forced by `-4` or `-6`.
    pub family: Option<Family>,
}

/// A run's configuration as given on the command line.
#[derive(Clone, Debug)]
pub struct ProbeConfig {
    pub host: String,
    pub settings: Settings,
}

/// What the command line asks for.
#[derive(Clone, Debug)]
pub enum Invocation {
    Help,
    Version,
    Probe(ProbeConfig),
}

#[derive(Clone, Copy, Debug, PartialEq, Eq, Structural)]
pub enum UsageError {
    /// `-p` stands last, with no value after it.
    MissingPort,
    /// `-c` stands last, with no value after it.
    MissingCount,
    /// The argument at this index is no known option.
    UnknownOption(usize),
}

pub open spec fn is_port_flag(a: Seq<char>) -> bool {
    a == "-p"@ || a == "--port"@
}

pub open spec fn is_count_flag(a: Seq<char>) -> bool {
    a == "-c"@ || a == "--count"@
}

pub open spec fn is_v4_flag(a: Seq<char>) -> bool {
    a == "-4"@ || a == "--ipv4"@
}

pub open spec fn is_v6_flag(a: Seq<char>) -> bool {
    a == "-6"@ || a == "--ipv6"@
}

/// Applies the options from index `i` on to `s`. A `-p` value that is no
/// port keeps the port as it was; a `-c` value that is no count means zero
/// attempts. Later options override earlier ones.
pub open spec fn apply_options(args: Seq<Seq<char>>, i: int, s: Settings) -> Result<
    Settings,
    UsageError,
>
    decreases args.len() - i,
{
    if i < 0 || i >= args.len() {
        Ok(s)
    } else if is_port_flag(args[i]) {
        if i + 1 < args.len() {
            let port = match parse_unsigned(args[i + 1], 65535) {
                Some(p) => p as u16,
                None => s.port,
            };
            apply_options(args, i + 2, Settings { port, ..s })
        } else {
            Err(UsageError::MissingPort)
        }
    } else if is_count_flag(args[i]) {
        if i + 1 < args.len() {
            let count = match parse_unsigned(args[i + 1], 4294967295) {
                Some(c) => c as u32,
                None => 0,
            };
            apply_options(args, i + 2, Settings { count: Some(count), ..s })
        } else {
            Err(UsageError::MissingCount)
        }
    } else if is_v4_flag(args[i]) {
        apply_options(args, i + 1, Settings { family: Some(Family::V4), ..s })
    } else if is_v6_flag(args[i]) {
        apply_options(args, i + 1, Settings { family: Some(Family::V6), ..s })
    } else {
        Err(UsageError::UnknownOption(i as usize))
    }
}

pub open spec fn wants_version(args: Seq<Seq<char>>) -> bool {
    args.len() > 0 && (args[0] == "-v"@ || args[0] == "--version"@)
}

pub open spec fn wants_help(args: Seq<Seq<char>>) -> bool {
    args.len() == 0 || args[0] == "-h"@ || args[0] == "--help"@
}

/// Settings of a probe whose destination is `args[0]`: the port embedded in
/// the destination (or the default), then the options after it.
pub open spec fn probe_settings(args: Seq<Seq<char>>) -> Result<Settings, UsageError> {
    let port = match destination_parts(args[0]).1 {
        Some(p) => p,
        None => DEFAULT_PORT,
    };
    apply_options(args, 1, Settings { port, count: None, family: None })
}

fn flag_is(a: &String, short: &str, long: &str) -> (r: bool)
    ensures
        r == (a@ == short@ || a@ == long@),
{
    same_text(a.as_str(), short) || same_text(a.as_str(), long)
}

/// Reads the arguments that follow the program name.
pub fn parse_arguments(args: &Vec<String>) -> (r: Result<Invocation, UsageError>)
    ensures
        wants_help(args.deep_view()) ==> r matches Ok(Invocation::Help),
        !wants_help(args.deep_view()) && wants_version(args.deep_view()) ==> r matches Ok(
            Invocation::Version,
        ),
        !wants_help(args.deep_view()) && !wants_version(args.deep_view()) ==> match r {
            Ok(Invocation::Probe(cfg)) => {
                &&& cfg.host@ == destination_parts(args.deep_view()[0]).0
                &&& probe_settings(args.deep_view()) == Ok::<Settings, UsageError>(cfg.settings)
            },
            Err(e) => probe_settings(args.deep_view()) == Err::<Settings, UsageError>(e),
            _ => false,
        },
{
    let ghost a = args.deep_view();
    let n = args.len();
    if n == 0 {
        return Ok(Invocation::Help);
    }
    assert(a[0] == args@[0]@);
    if flag_is(&args[0], "-h", "--help") {
        return Ok(Invocation::Help);
    }
    if flag_is(&args[0], "-v", "--version") {
        return Ok(Invocation::Version);
    }
    let (host, embedded) = parse_destination(args[0].as_str());
    let mut s = Settings {
        port: match embedded {
            Some(p) => p,
            None => DEFAULT_PORT,
        },
        count: None,
        family: None,
    };
    let mut i: usize = 1;
    while i < n
        invariant
            1 <= i <= n,
            n == args.len(),
            a == args.deep_view(),
            !wants_help(a),
            !wants_version(a),
            probe_settings(a) == apply_options(a, i as int, s),
        decreases n - i,
    {
        let arg = &args[i];
        assert(a[i as int] == arg@);
        if flag_is(arg, "-p", "--port") {
            if i + 1 >= n {
                return Err(UsageError::MissingPort);
            }
            assert(a[i + 1] == args@[i + 1]@);
            if let Some(p) = parse_u16(args[i + 1].as_str()) {
                s.port = p;
            }
            i = i + 2;
        } else if flag_is(arg, "-c", "--count") {
            if i + 1 >= n {
                return Err(UsageError::MissingCount);
            }
            assert(a[i + 1] == args@[i + 1]@);
            s.count = match parse_u32(args[i + 1].as_str()) {
                Some(c) => Some(c),
                None => Some(0),
            };
            i = i + 2;
        } else if flag_is(arg, "-4", "--ipv4") {
            s.family = Some(Family::V4);
            i = i + 1;
        } else if flag_is(arg, "-6", "--ipv6") {
            s.family = Some(Family::V6);
            i = i + 1;
        } else {
            return Err(UsageError::UnknownOption(i));
        }
    }
    Ok(Invocation::Probe(ProbeConfig { host, settings: s }))
}

} // verus!

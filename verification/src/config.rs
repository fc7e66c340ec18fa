//! What the command line asks for. The arguments are those that follow the
//! program's own name; one that is no valid text is given as `None`.

use vstd::prelude::*;
use vstd::string::*;
use vstd::utf8::*;
use crate::communicator::{all_digits, decimal_value, lemma_decimal_value_prefix};

verus! {

/// The address that datagrams go to, or come in at.
#[derive(Debug, Clone, Copy, PartialEq, Eq, Structural)]
pub enum Host {
    /// This machine.
    Loopback,
    /// Every address of this machine.
    Unspecified,
    /// The address that the argument at this position writes.
    Named(usize),
}

/// Where datagrams go to, or come in at.
#[derive(Debug, Clone, Copy, PartialEq, Eq, Structural)]
pub struct UdpTarget {
    pub host: Host,
    pub port: u16,
}

/// What the program is to do.
#[allow(inconsistent_fields)]
#[derive(Debug, Clone, Copy, PartialEq, Eq, Structural)]
pub enum AppConfig {
    /// Run the executable named by the argument at `command`, with the
    /// arguments behind it, and relay its streams to `udp` if that is set.
    Run { command: usize, udp: Option<UdpTarget>, gui: bool },
    /// Show what comes in at `udp`.
    View { udp: UdpTarget, gui: bool },
}

/// Why the command line gives no configuration.
#[derive(Debug, Clone, Copy, PartialEq, Eq, Structural)]
pub enum ConfigError {
    /// Help was asked for.
    Help,
    /// The argument at this position is no known option.
    UnknownArgument(usize),
    /// The port is no number from 0 to 65535.
    InvalidPort,
    /// The host is no text.
    InvalidHost,
    /// A host was given without a port.
    HostWithoutPort,
    /// Viewing was asked for without a port.
    ViewWithoutPort,
    /// There is nothing to run.
    NoExecutable,
}

/// The options of a command line, and where its executable stands.
#[derive(Debug, Clone, Copy, PartialEq, Eq, Structural)]
pub struct Options {
    pub view_only: bool,
    pub gui: bool,
    /// The position of the argument that gives the host.
    pub host: Option<usize>,
    /// The position of the argument that gives the port.
    pub port: Option<usize>,
    /// The position of the executable.
    pub command: Option<usize>,
}

/// The text of each argument.
pub open spec fn texts(args: Seq<Option<String>>) -> Seq<Option<Seq<char>>> {
    Seq::new(
        args.len(),
        |i: int|
            match args[i] {
                Some(text) => Some(text@),
                None => None,
            },
    )
}

/// Whether `text` reads as an option: it starts with a hyphen.
pub open spec fn is_option(text: Seq<char>) -> bool {
    text.len() > 0 && text[0] == '-'
}

/// The position behind `at`, if an argument stands there.
pub open spec fn following(args: Seq<Option<Seq<char>>>, at: int) -> Option<usize> {
    if at + 1 < args.len() {
        Some((at + 1) as usize)
    } else {
        None
    }
}

/// The position at which reading goes on behind an option at `at` that
/// takes the argument behind it.
pub open spec fn behind_value(args: Seq<Option<Seq<char>>>, at: int) -> int {
    if at + 1 < args.len() {
        at + 2
    } else {
        at + 1
    }
}

/// Reads the arguments from position `at` on, with `found` read so far.
/// Options are read up to the executable: the first argument that is no
/// option or no text, or the one behind `--`. `--host` and `--port` take the
/// argument behind them as their value, whatever it holds.
pub open spec fn scan(args: Seq<Option<Seq<char>>>, at: int, found: Options) -> Result<
    Options,
    ConfigError,
>
    decreases args.len() - at,
{
    if at < 0 || at >= args.len() {
        Ok(found)
    } else {
        match args[at] {
            None => Ok(Options { command: Some(at as usize), ..found }),
            Some(text) => if !is_option(text) {
                Ok(Options { command: Some(at as usize), ..found })
            } else if text == "--"@ {
                Ok(Options { command: following(args, at), ..found })
            } else if text == "-"@ {
                scan(args, at + 1, Options { view_only: true, ..found })
            } else if text == "--gui"@ {
                scan(args, at + 1, Options { gui: true, ..found })
            } else if text == "--host"@ || text == "-h"@ {
                scan(args, behind_value(args, at), Options { host: following(args, at), ..found })
            } else if text == "--port"@ || text == "-p"@ {
                scan(args, behind_value(args, at), Options { port: following(args, at), ..found })
            } else if text == "--help"@ || text == "-?"@ {
                Err(ConfigError::Help)
            } else {
                Err(ConfigError::UnknownArgument(at as usize))
            },
        }
    }
}

/// Whether every position in `options` is that of one of `count`
/// arguments.
pub open spec fn within(options: Options, count: nat) -> bool {
    &&& options.host matches Some(h) ==> h < count
    &&& options.port matches Some(p) ==> p < count
    &&& options.command matches Some(c) ==> c < count
}

/// A command line on which nothing has been found yet.
pub open spec fn nothing_found() -> Options {
    Options { view_only: false, gui: false, host: None, port: None, command: None }
}

/// Whether `c` is a decimal digit.
pub open spec fn is_digit_char(c: char) -> bool {
    '0' <= c <= '9'
}

/// The bytes that write the characters of `text`, where all are ASCII.
pub open spec fn narrow(text: Seq<char>) -> Seq<u8> {
    Seq::new(text.len(), |i: int| text[i] as u8)
}

/// The digits of a number: its text without a plus sign in front.
pub open spec fn unsigned(text: Seq<char>) -> Seq<char> {
    if text.len() > 0 && text[0] == '+' {
        text.skip(1)
    } else {
        text
    }
}

/// The port that `text` writes: decimal digits, a plus sign in front of
/// them or not, that make a number up to 65535.
pub open spec fn port_value(text: Seq<char>) -> Option<u16> {
    let digits = unsigned(text);
    if digits.len() > 0 && (forall|i: int| 0 <= i < digits.len() ==> is_digit_char(#[trigger] digits[i]))
        && decimal_value(narrow(digits)) <= u16::MAX {
        Some(decimal_value(narrow(digits)) as u16)
    } else {
        None
    }
}

/// Where datagrams go according to the options. The port decides: without
/// one there is no target, and a host is then an error. A host that is
/// `localhost` stands for this machine; without a host, a viewer takes
/// every address and a relay sends to this machine.
pub open spec fn udp_target(
    args: Seq<Option<Seq<char>>>,
    host: Option<usize>,
    port: Option<usize>,
    view_only: bool,
) -> Result<Option<UdpTarget>, ConfigError> {
    match port {
        None => match host {
            None => Ok(None),
            Some(_) => Err(ConfigError::HostWithoutPort),
        },
        Some(p) => match args[p as int] {
            None => Err(ConfigError::InvalidPort),
            Some(text) => match port_value(text) {
                None => Err(ConfigError::InvalidPort),
                Some(port) => match host {
                    None => Ok(
                        Some(
                            UdpTarget {
                                host: if view_only {
                                    Host::Unspecified
                                } else {
                                    Host::Loopback
                                },
                                port,
                            },
                        ),
                    ),
                    Some(h) => match args[h as int] {
                        None => Err(ConfigError::InvalidHost),
                        Some(name) => Ok(
                            Some(
                                UdpTarget {
                                    host: if name == "localhost"@ {
                                        Host::Loopback
                                    } else {
                                        Host::Named(h)
                                    },
                                    port,
                                },
                            ),
                        ),
                    },
                },
            },
        },
    }
}

/// What the options come to: a viewer needs a port, a run needs an
/// executable.
pub open spec fn decided(options: Options, udp: Option<UdpTarget>) -> Result<AppConfig, ConfigError> {
    if options.view_only {
        match udp {
            None => Err(ConfigError::ViewWithoutPort),
            Some(udp) => Ok(AppConfig::View { udp, gui: options.gui }),
        }
    } else {
        match options.command {
            None => Err(ConfigError::NoExecutable),
            Some(command) => Ok(AppConfig::Run { command, udp, gui: options.gui }),
        }
    }
}

/// What a command line asks for. The first thing wrong with it decides: an
/// unknown option or a call for help where the options are read, then the
/// port, then the host, then what is missing.
pub open spec fn configured(args: Seq<Option<Seq<char>>>) -> Result<AppConfig, ConfigError> {
    match scan(args, 0, nothing_found()) {
        Err(e) => Err(e),
        Ok(options) => match udp_target(args, options.host, options.port, options.view_only) {
            Err(e) => Err(e),
            Ok(udp) => decided(options, udp),
        },
    }
}

/// Whether two texts are the same.
fn same_text(a: &str, b: &str) -> (same: bool)
    ensures
        same == (a@ == b@),
{
    broadcast use encode_utf8_decode_utf8;

    let x = a.as_bytes();
    let y = b.as_bytes();
    if x.len() != y.len() {
        return false;
    }
    let mut i: usize = 0;
    while i < x.len()
        invariant
            i <= x.len(),
            x@ == encode_utf8(a@),
            y@ == encode_utf8(b@),
            x@.len() == y@.len(),
            forall|j: int| 0 <= j < i ==> x@[j] == y@[j],
        decreases x.len() - i,
    {
        if x[i] != y[i] {
            return false;
        }
        i += 1;
    }
    assert(x@ =~= y@);
    assert(decode_utf8(encode_utf8(a@)) == a@);
    assert(decode_utf8(encode_utf8(b@)) == b@);
    true
}

/// Whether `text` reads as an option.
fn starts_with_hyphen(text: &str) -> (yes: bool)
    ensures
        yes == is_option(text@),
{
    if text.unicode_len() == 0 {
        false
    } else {
        text.get_char(0) == '-'
    }
}

/// The position behind `at`, if an argument stands there.
fn next_position(args: &Vec<Option<String>>, at: usize) -> (next: Option<usize>)
    requires
        at < args.len(),
    ensures
        next == following(texts(args@), at as int),
{
    if at + 1 < args.len() {
        Some(at + 1)
    } else {
        None
    }
}

/// The position at which reading goes on behind an option at `at` that
/// takes the argument behind it.
fn behind(args: &Vec<Option<String>>, at: usize) -> (next: usize)
    requires
        at < args.len(),
    ensures
        next == behind_value(texts(args@), at as int),
        at < next <= args.len(),
{
    if at + 1 < args.len() {
        at + 2
    } else {
        at + 1
    }
}

/// Reads the options of a command line, up to its executable.
pub fn read_args(args: &Vec<Option<String>>) -> (outcome: Result<Options, ConfigError>)
    ensures
        outcome == scan(texts(args@), 0, nothing_found()),
        outcome matches Ok(options) ==> within(options, args@.len()),
{
    proof {
        lemma_scan_in_range(texts(args@), 0, nothing_found());
    }
    let mut found = Options { view_only: false, gui: false, host: None, port: None, command: None };
    let mut at: usize = 0;
    while at < args.len()
        invariant
            at <= args.len(),
            scan(texts(args@), at as int, found) == scan(texts(args@), 0, nothing_found()),
            scan(texts(args@), 0, nothing_found()) matches Ok(options) ==> within(
                options,
                args@.len(),
            ),
        decreases args.len() - at,
    {
        let ghost all = texts(args@);
        let text: &str = match &args[at] {
            Some(text) => text.as_str(),
            None => {
                found.command = Some(at);
                return Ok(found);
            },
        };
        assert(all[at as int] == Some(text@));
        if !starts_with_hyphen(text) {
            found.command = Some(at);
            return Ok(found);
        }
        if same_text(text, "--") {
            found.command = next_position(args, at);
            return Ok(found);
        }
        if same_text(text, "-") {
            found.view_only = true;
            at += 1;
        } else if same_text(text, "--gui") {
            found.gui = true;
            at += 1;
        } else if same_text(text, "--host") || same_text(text, "-h") {
            found.host = next_position(args, at);
            at = behind(args, at);
        } else if same_text(text, "--port") || same_text(text, "-p") {
            found.port = next_position(args, at);
            at = behind(args, at);
        } else if same_text(text, "--help") || same_text(text, "-?") {
            return Err(ConfigError::Help);
        } else {
            return Err(ConfigError::UnknownArgument(at));
        }
    }
    Ok(found)
}

/// The port that `text` writes.
fn parse_port(text: &str) -> (port: Option<u16>)
    ensures
        port == port_value(text@),
{
    let n: usize = text.unicode_len();
    let mut i: usize = 0;
    if n > 0 && text.get_char(0) == '+' {
        i = 1;
    }
    let first: usize = i;
    if i == n {
        return None;
    }
    let ghost digits = unsigned(text@);
    let mut r: u32 = 0;
    while i < n
        invariant
            first <= i <= n,
            first <= 1,
            n == text@.len(),
            digits == unsigned(text@),
            digits.len() == n - first,
            forall|j: int| 0 <= j < digits.len() ==> digits[j] == text@[j + first],
            forall|j: int| 0 <= j < i - first ==> is_digit_char(#[trigger] digits[j]),
            r == decimal_value(narrow(digits).take(i - first)),
            r <= u16::MAX,
        decreases n - i,
    {
        let c: char = text.get_char(i);
        if c < '0' || c > '9' {
            assert(!is_digit_char(digits[i - first]));
            return None;
        }
        let digit: u32 = c as u32 - 0x30;
        proof {
            let next = narrow(digits).take(i - first + 1);
            assert(next.drop_last() =~= narrow(digits).take(i - first));
            assert(next.last() == c as u8);
            assert(decimal_value(next) == r * 10 + digit);
        }
        r = r * 10 + digit;
        if r > 0xffff {
            proof {
                if forall|j: int| 0 <= j < digits.len() ==> is_digit_char(#[trigger] digits[j]) {
                    assert(all_digits(narrow(digits)));
                    lemma_decimal_value_prefix(narrow(digits), i - first + 1);
                }
            }
            return None;
        }
        i += 1;
    }
    assert(narrow(digits).take(i - first) =~= narrow(digits));
    Some(r as u16)
}

/// Where datagrams go according to the options: `host` and `port` are the
/// positions of the arguments that give them.
pub fn make_udp(
    args: &Vec<Option<String>>,
    host: Option<usize>,
    port: Option<usize>,
    view_only: bool,
) -> (outcome: Result<Option<UdpTarget>, ConfigError>)
    requires
        host matches Some(h) ==> h < args.len(),
        port matches Some(p) ==> p < args.len(),
    ensures
        outcome == udp_target(texts(args@), host, port, view_only),
        outcome matches Ok(Some(target)) ==> (target.host matches Host::Named(h) ==> h < args.len()),
{
    match port {
        Some(p) => {
            let port: u16 = match &args[p] {
                Some(text) => match parse_port(text.as_str()) {
                    Some(port) => port,
                    None => { return Err(ConfigError::InvalidPort); },
                },
                None => { return Err(ConfigError::InvalidPort); },
            };
            let host: Host = match host {
                Some(h) => match &args[h] {
                    Some(name) => {
                        if same_text(name.as_str(), "localhost") {
                            Host::Loopback
                        } else {
                            Host::Named(h)
                        }
                    },
                    None => { return Err(ConfigError::InvalidHost); },
                },
                None => if view_only {
                    Host::Unspecified
                } else {
                    Host::Loopback
                },
            };
            Ok(Some(UdpTarget { host, port }))
        },
        None => match host {
            None => Ok(None),
            Some(_) => Err(ConfigError::HostWithoutPort),
        },
    }
}

/// Every position that reading the options finds is that of an argument.
pub proof fn lemma_scan_in_range(args: Seq<Option<Seq<char>>>, at: int, found: Options)
    requires
        0 <= at,
        within(found, args.len()),
    ensures
        scan(args, at, found) matches Ok(options) ==> within(options, args.len()),
    decreases args.len() - at,
{
    if at < args.len() {
        match args[at] {
            None => {},
            Some(text) => {
                if !is_option(text) {
                } else if text == "--"@ {
                } else if text == "-"@ {
                    lemma_scan_in_range(args, at + 1, Options { view_only: true, ..found });
                } else if text == "--gui"@ {
                    lemma_scan_in_range(args, at + 1, Options { gui: true, ..found });
                } else if text == "--host"@ || text == "-h"@ {
                    lemma_scan_in_range(
                        args,
                        behind_value(args, at),
                        Options { host: following(args, at), ..found },
                    );
                } else if text == "--port"@ || text == "-p"@ {
                    lemma_scan_in_range(
                        args,
                        behind_value(args, at),
                        Options { port: following(args, at), ..found },
                    );
                }
            },
        }
    }
}

/// What the options come to, with `udp` as the target they give.
pub fn decide(options: Options, udp: Option<UdpTarget>) -> (outcome: Result<AppConfig, ConfigError>)
    ensures
        outcome == decided(options, udp),
{
    if options.view_only {
        match udp {
            None => Err(ConfigError::ViewWithoutPort),
            Some(udp) => Ok(AppConfig::View { udp, gui: options.gui }),
        }
    } else {
        match options.command {
            None => Err(ConfigError::NoExecutable),
            Some(command) => Ok(AppConfig::Run { command, udp, gui: options.gui }),
        }
    }
}

/// What the command line asks for.
pub fn collect_config(args: &Vec<Option<String>>) -> (outcome: Result<AppConfig, ConfigError>)
    ensures
        outcome == configured(texts(args@)),
        outcome matches Ok(AppConfig::Run { command, .. }) ==> command < args.len(),
{
    let options = match read_args(args) {
        Ok(options) => options,
        Err(e) => { return Err(e); },
    };
    let udp = match make_udp(args, options.host, options.port, options.view_only) {
        Ok(udp) => udp,
        Err(e) => { return Err(e); },
    };
    decide(options, udp)
}

} // verus!

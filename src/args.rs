//! Command-line options: parsing the argument list and checking the resulting
//! configuration before the pipeline starts.

use vstd::prelude::*;
use crate::network::NANOS_PER_MILLI;

verus! {

/// Milliseconds in a second.
pub const MILLIS_PER_SEC: u128 = 1000;

/// The options of one run, as given on the command line.
#[derive(Clone, Copy, Debug, PartialEq, Eq, Structural)]
pub struct Options {
    pub debug_mode: bool,
    /// Seconds to run for; 0 when not given.
    pub runtime: u128,
    /// Number of write cycles; 0 when not given.
    pub num_writes: u128,
    /// Records generated per write cycle.
    pub buffer_size: u128,
    /// Disk flush period, in milliseconds.
    pub disk_delay: u128,
    pub msgs_per_interval: usize,
}

/// An option that takes a number.
#[derive(Clone, Copy, Debug, PartialEq, Eq, Structural)]
pub enum Setting {
    Runtime,
    NumWrites,
    BufferSize,
    DiskDelay,
    MsgsPerInterval,
}

/// Why a run does not start.
#[derive(Clone, Copy, Debug, PartialEq, Eq, Structural)]
pub enum ArgsError {
    /// `--help` was given: show the usage and stop.
    HelpRequested,
    /// The option is not followed by a number that fits it.
    MissingNumber(Setting),
    UnknownOption,
    /// Neither a runtime nor a number of writes was given.
    NoRunLength,
    /// Both a runtime and a number of writes were given.
    BothRunLengths,
    /// The number of messages per network interval must be positive.
    ZeroMessagesPerInterval,
    /// A runtime cannot be turned into write cycles of zero milliseconds.
    ZeroDiskDelay,
    /// The disk flush period, in nanoseconds, does not fit in 128 bits.
    DiskDelayTooLarge,
    /// The runtime, in milliseconds, does not fit in 128 bits.
    RuntimeTooLarge,
}

/// The value of a string of decimal digits.
pub open spec fn digits_value(s: Seq<char>) -> int
    decreases s.len(),
{
    if s.len() == 0 {
        0
    } else {
        digits_value(s.drop_last()) * 10 + (s.last() as int - '0' as int)
    }
}

pub open spec fn is_digits(s: Seq<char>) -> bool {
    &&& s.len() > 0
    &&& forall|i: int| 0 <= i < s.len() ==> '0' <= #[trigger] s[i] <= '9'
}

/// The value of a decimal numeral: an optional `+` followed by one or more ASCII digits.
pub open spec fn decimal_value(s: Seq<char>) -> Option<int> {
    let d = if s.len() > 0 && s[0] == '+' {
        s.drop_first()
    } else {
        s
    };
    if is_digits(d) {
        Some(digits_value(d))
    } else {
        None
    }
}

/// Relies on `str::parse::<u128>` (`u128::from_str`, radix 10): it accepts exactly an
/// optional `+` followed by one or more ASCII digits whose value fits in a `u128`.
#[verifier::external_body]
fn parse_u128(s: &str) -> (r: Option<u128>)
    ensures
        r is Some <==> (decimal_value(s@) is Some && decimal_value(s@)->0 <= u128::MAX),
        r is Some ==> r->0 == decimal_value(s@)->0,
{
    s.parse::<u128>().ok()
}

/// Whether two strings hold the same characters.
fn same_text(a: &str, b: &str) -> (r: bool)
    ensures
        r == (a@ == b@),
{
    let n = a.unicode_len();
    if n != b.unicode_len() {
        return false;
    }
    let mut i: usize = 0;
    while i < n
        invariant
            n == a@.len(),
            n == b@.len(),
            i <= n,
            a@.take(i as int) == b@.take(i as int),
        decreases n - i,
    {
        if a.get_char(i) != b.get_char(i) {
            return false;
        }
        assert(a@.take(i + 1) =~= a@.take(i as int).push(a@[i as int]));
        assert(b@.take(i + 1) =~= b@.take(i as int).push(b@[i as int]));
        i = i + 1;
    }
    assert(a@ =~= a@.take(n as int));
    assert(b@ =~= b@.take(n as int));
    true
}

pub open spec fn default_options() -> Options {
    Options {
        debug_mode: false,
        runtime: 0,
        num_writes: 0,
        buffer_size: 4096,
        disk_delay: 20,
        msgs_per_interval: 1,
    }
}

pub open spec fn setting_named(a: Seq<char>) -> Option<Setting> {
    if a == "--runtime"@ || a == "-r"@ {
        Some(Setting::Runtime)
    } else if a == "--num_writes"@ || a == "-n"@ {
        Some(Setting::NumWrites)
    } else if a == "--buffer_size"@ || a == "-bs"@ {
        Some(Setting::BufferSize)
    } else if a == "--disk_delay"@ || a == "-dd"@ {
        Some(Setting::DiskDelay)
    } else if a == "--msgs_per_interval"@ || a == "-mpi"@ {
        Some(Setting::MsgsPerInterval)
    } else {
        None
    }
}

/// Whether `v` is a value the setting can hold.
pub open spec fn fits(s: Setting, v: int) -> bool {
    match s {
        Setting::MsgsPerInterval => v <= usize::MAX,
        _ => v <= u128::MAX,
    }
}

pub open spec fn with_setting(o: Options, s: Setting, v: int) -> Options {
    match s {
        Setting::Runtime => Options { runtime: v as u128, ..o },
        Setting::NumWrites => Options { num_writes: v as u128, ..o },
        Setting::BufferSize => Options { buffer_size: v as u128, ..o },
        Setting::DiskDelay => Options { disk_delay: v as u128, ..o },
        Setting::MsgsPerInterval => Options { msgs_per_interval: v as usize, ..o },
    }
}

/// The outcome of reading `args` from position `i` on, with `acc` holding what the
/// earlier arguments set. A later option overrides an earlier one.
pub open spec fn parse_from(args: Seq<Seq<char>>, i: int, acc: Options) -> Result<Options, ArgsError>
    decreases args.len() - i,
{
    if i >= args.len() {
        Ok(acc)
    } else if args[i] == "--help"@ || args[i] == "-h"@ {
        Err(ArgsError::HelpRequested)
    } else if args[i] == "--debug"@ || args[i] == "-d"@ {
        parse_from(args, i + 1, Options { debug_mode: true, ..acc })
    } else {
        match setting_named(args[i]) {
            Some(s) => if i + 1 < args.len() && decimal_value(args[i + 1]) is Some && fits(
                s,
                decimal_value(args[i + 1])->0,
            ) {
                parse_from(args, i + 2, with_setting(acc, s, decimal_value(args[i + 1])->0))
            } else {
                Err(ArgsError::MissingNumber(s))
            },
            None => Err(ArgsError::UnknownOption),
        }
    }
}

pub open spec fn arg_texts(args: Seq<String>) -> Seq<Seq<char>> {
    args.map_values(|s: String| s@)
}

/// Recognises the option `a`, if it takes a number.
fn setting_of(a: &str) -> (r: Option<Setting>)
    ensures
        r == setting_named(a@),
{
    if same_text(a, "--runtime") || same_text(a, "-r") {
        Some(Setting::Runtime)
    } else if same_text(a, "--num_writes") || same_text(a, "-n") {
        Some(Setting::NumWrites)
    } else if same_text(a, "--buffer_size") || same_text(a, "-bs") {
        Some(Setting::BufferSize)
    } else if same_text(a, "--disk_delay") || same_text(a, "-dd") {
        Some(Setting::DiskDelay)
    } else if same_text(a, "--msgs_per_interval") || same_text(a, "-mpi") {
        Some(Setting::MsgsPerInterval)
    } else {
        None
    }
}

/// Reads the options of a run from the argument list; the first argument, the program's
/// name, is skipped.
pub fn parse_args(args: Vec<String>) -> (r: Result<Options, ArgsError>)
    ensures
        r == parse_from(arg_texts(args@), 1, default_options()),
{
    let ghost texts = arg_texts(args@);
    let mut opts = Options {
        debug_mode: false,
        runtime: 0,
        num_writes: 0,
        buffer_size: 4096,
        disk_delay: 20,
        msgs_per_interval: 1,
    };
    let len = args.len();
    let mut i: usize = 1;
    while i < len
        invariant
            len == args@.len(),
            texts == arg_texts(args@),
            1 <= i,
            parse_from(texts, i as int, opts) == parse_from(texts, 1, default_options()),
        decreases len - i,
    {
        let option = args[i].as_str();
        assert(option@ == texts[i as int]);
        if same_text(option, "--help") || same_text(option, "-h") {
            return Err(ArgsError::HelpRequested);
        } else if same_text(option, "--debug") || same_text(option, "-d") {
            opts.debug_mode = true;
        } else {
            match setting_of(option) {
                Some(s) => {
                    if i + 1 >= len {
                        return Err(ArgsError::MissingNumber(s));
                    }
                    let val = args[i + 1].as_str();
                    assert(val@ == texts[i + 1]);
                    let n = match parse_u128(val) {
                        Some(n) => n,
                        None => {
                            return Err(ArgsError::MissingNumber(s));
                        },
                    };
                    match s {
                        Setting::Runtime => {
                            opts.runtime = n;
                        },
                        Setting::NumWrites => {
                            opts.num_writes = n;
                        },
                        Setting::BufferSize => {
                            opts.buffer_size = n;
                        },
                        Setting::DiskDelay => {
                            opts.disk_delay = n;
                        },
                        Setting::MsgsPerInterval => {
                            if n > usize::MAX as u128 {
                                return Err(ArgsError::MissingNumber(s));
                            }
                            opts.msgs_per_interval = n as usize;
                        },
                    }
                    i = i + 1;
                },
                None => {
                    return Err(ArgsError::UnknownOption);
                },
            }
        }
        i = i + 1;
    }
    Ok(opts)
}

/// The checked configuration of a run.
#[derive(Clone, Copy, Debug, PartialEq, Eq, Structural)]
pub struct Config {
    pub debug_mode: bool,
    /// Number of write cycles, whether given directly or derived from a runtime.
    pub num_writes: u128,
    pub buffer_size: u128,
    pub disk_delay: u128,
    pub msgs_per_interval: usize,
}

impl Options {
    /// The configuration these options describe, or why they describe none. A runtime
    /// becomes `runtime * 1000 / disk_delay` write cycles.
    pub open spec fn checked(self) -> Result<Config, ArgsError> {
        if self.runtime == 0 && self.num_writes == 0 {
            Err(ArgsError::NoRunLength)
        } else if self.runtime != 0 && self.num_writes != 0 {
            Err(ArgsError::BothRunLengths)
        } else if self.msgs_per_interval == 0 {
            Err(ArgsError::ZeroMessagesPerInterval)
        } else if self.disk_delay * NANOS_PER_MILLI > u128::MAX {
            Err(ArgsError::DiskDelayTooLarge)
        } else if self.runtime != 0 && self.disk_delay == 0 {
            Err(ArgsError::ZeroDiskDelay)
        } else if self.runtime * MILLIS_PER_SEC > u128::MAX {
            Err(ArgsError::RuntimeTooLarge)
        } else {
            Ok(
                Config {
                    debug_mode: self.debug_mode,
                    num_writes: if self.runtime != 0 {
                        (self.runtime * MILLIS_PER_SEC / self.disk_delay as int) as u128
                    } else {
                        self.num_writes
                    },
                    buffer_size: self.buffer_size,
                    disk_delay: self.disk_delay,
                    msgs_per_interval: self.msgs_per_interval,
                },
            )
        }
    }

    /// Checks the options: exactly one of a runtime and a number of writes, a positive
    /// number of messages per interval, and times that fit the clocks' counters.
    pub fn validate(&self) -> (r: Result<Config, ArgsError>)
        ensures
            r == self.checked(),
    {
        if self.runtime == 0 && self.num_writes == 0 {
            return Err(ArgsError::NoRunLength);
        }
        if self.runtime != 0 && self.num_writes != 0 {
            return Err(ArgsError::BothRunLengths);
        }
        if self.msgs_per_interval == 0 {
            return Err(ArgsError::ZeroMessagesPerInterval);
        }
        if self.disk_delay > u128::MAX / NANOS_PER_MILLI {
            return Err(ArgsError::DiskDelayTooLarge);
        }
        let mut num_writes = self.num_writes;
        if self.runtime != 0 {
            if self.disk_delay == 0 {
                return Err(ArgsError::ZeroDiskDelay);
            }
            if self.runtime > u128::MAX / MILLIS_PER_SEC {
                return Err(ArgsError::RuntimeTooLarge);
            }
            num_writes = self.runtime * MILLIS_PER_SEC / self.disk_delay;
        }
        Ok(
            Config {
                debug_mode: self.debug_mode,
                num_writes,
                buffer_size: self.buffer_size,
                disk_delay: self.disk_delay,
                msgs_per_interval: self.msgs_per_interval,
            },
        )
    }
}

/// Nanoseconds the producer still waits after a write cycle that took `elapsed`
/// nanoseconds, so that cycles start one disk flush period apart; none once the period
/// has passed.
pub fn cycle_wait(disk_delay: u128, elapsed: u128) -> (r: u128)
    requires
        disk_delay * NANOS_PER_MILLI <= u128::MAX,
    ensures
        r == if elapsed < disk_delay * NANOS_PER_MILLI {
            disk_delay * NANOS_PER_MILLI - elapsed
        } else {
            0
        },
{
    (disk_delay * NANOS_PER_MILLI).saturating_sub(elapsed)
}

} // verus!

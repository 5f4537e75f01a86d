use staged_pipeline::args::{cycle_wait, parse_args, ArgsError, Config, Options, Setting};
use staged_pipeline::clock::{get_unix_timestamp, millis_of};

fn args(list: &[&str]) -> Vec<String> {
    let mut v = vec!["prog".to_string()];
    v.extend(list.iter().map(|s| s.to_string()));
    v
}

fn defaults() -> Options {
    Options {
        debug_mode: false,
        runtime: 0,
        num_writes: 0,
        buffer_size: 4096,
        disk_delay: 20,
        msgs_per_interval: 1,
    }
}

#[test]
fn no_arguments_give_defaults() {
    assert_eq!(parse_args(args(&[])), Ok(defaults()));
}

#[test]
fn every_option_is_read() {
    let r = parse_args(args(&["-d", "-n", "5", "-bs", "8", "-dd", "100", "-mpi", "2"]));
    assert_eq!(
        r,
        Ok(Options { debug_mode: true, num_writes: 5, buffer_size: 8, disk_delay: 100, msgs_per_interval: 2, ..defaults() })
    );
    let r = parse_args(args(&["--debug", "--runtime", "3", "--buffer_size", "1", "--disk_delay", "7", "--msgs_per_interval", "4"]));
    assert_eq!(
        r,
        Ok(Options { debug_mode: true, runtime: 3, buffer_size: 1, disk_delay: 7, msgs_per_interval: 4, ..defaults() })
    );
    let r = parse_args(args(&["--num_writes", "9", "-r", "2"]));
    assert_eq!(r, Ok(Options { num_writes: 9, runtime: 2, ..defaults() }));
}

#[test]
fn later_option_overrides_earlier() {
    let r = parse_args(args(&["-n", "5", "-n", "6"]));
    assert_eq!(r, Ok(Options { num_writes: 6, ..defaults() }));
}

#[test]
fn help_stops_parsing() {
    assert_eq!(parse_args(args(&["-h"])), Err(ArgsError::HelpRequested));
    assert_eq!(parse_args(args(&["-n", "5", "--help", "bogus"])), Err(ArgsError::HelpRequested));
}

#[test]
fn unknown_option_is_refused() {
    assert_eq!(parse_args(args(&["--verbose"])), Err(ArgsError::UnknownOption));
    assert_eq!(parse_args(args(&["5"])), Err(ArgsError::UnknownOption));
}

#[test]
fn option_without_number_is_refused() {
    assert_eq!(parse_args(args(&["-n"])), Err(ArgsError::MissingNumber(Setting::NumWrites)));
    assert_eq!(parse_args(args(&["-r", "x"])), Err(ArgsError::MissingNumber(Setting::Runtime)));
    assert_eq!(parse_args(args(&["-bs", "-1"])), Err(ArgsError::MissingNumber(Setting::BufferSize)));
    assert_eq!(parse_args(args(&["-dd", ""])), Err(ArgsError::MissingNumber(Setting::DiskDelay)));
    assert_eq!(parse_args(args(&["-dd", " 5"])), Err(ArgsError::MissingNumber(Setting::DiskDelay)));
    assert_eq!(parse_args(args(&["-mpi", "+"])), Err(ArgsError::MissingNumber(Setting::MsgsPerInterval)));
}

#[test]
fn numbers_take_an_optional_plus_sign() {
    assert_eq!(parse_args(args(&["-n", "+12"])), Ok(Options { num_writes: 12, ..defaults() }));
    assert_eq!(parse_args(args(&["-n", "007"])), Ok(Options { num_writes: 7, ..defaults() }));
}

#[test]
fn numbers_must_fit() {
    let max = u128::MAX.to_string();
    let r = parse_args(vec!["p".to_string(), "-n".to_string(), max]);
    assert_eq!(r, Ok(Options { num_writes: u128::MAX, ..defaults() }));
    assert_eq!(
        parse_args(args(&["-n", "340282366920938463463374607431768211456"])),
        Err(ArgsError::MissingNumber(Setting::NumWrites))
    );
    assert_eq!(
        parse_args(args(&["-mpi", "340282366920938463463374607431768211455"])),
        Err(ArgsError::MissingNumber(Setting::MsgsPerInterval))
    );
}

#[test]
fn run_length_is_required_once() {
    assert_eq!(defaults().validate(), Err(ArgsError::NoRunLength));
    assert_eq!(Options { runtime: 1, num_writes: 1, ..defaults() }.validate(), Err(ArgsError::BothRunLengths));
}

#[test]
fn runtime_becomes_write_cycles() {
    let c = Options { runtime: 3, disk_delay: 20, ..defaults() }.validate();
    assert_eq!(
        c,
        Ok(Config { debug_mode: false, num_writes: 150, buffer_size: 4096, disk_delay: 20, msgs_per_interval: 1 })
    );
    let c = Options { runtime: 1, disk_delay: 300, ..defaults() }.validate().unwrap();
    assert_eq!(c.num_writes, 3);
}

#[test]
fn num_writes_is_kept() {
    let c = Options { num_writes: 42, msgs_per_interval: 3, ..defaults() }.validate().unwrap();
    assert_eq!(c.num_writes, 42);
    assert_eq!(c.msgs_per_interval, 3);
}

#[test]
fn bad_values_are_refused() {
    assert_eq!(Options { num_writes: 1, msgs_per_interval: 0, ..defaults() }.validate(), Err(ArgsError::ZeroMessagesPerInterval));
    assert_eq!(Options { runtime: 1, disk_delay: 0, ..defaults() }.validate(), Err(ArgsError::ZeroDiskDelay));
    assert_eq!(Options { num_writes: 1, disk_delay: u128::MAX, ..defaults() }.validate(), Err(ArgsError::DiskDelayTooLarge));
    assert_eq!(Options { runtime: u128::MAX / 999, ..defaults() }.validate(), Err(ArgsError::RuntimeTooLarge));
    assert!(Options { num_writes: 1, disk_delay: 0, ..defaults() }.validate().is_ok());
}

#[test]
fn producer_waits_out_the_period() {
    assert_eq!(cycle_wait(20, 5_000_000), 15_000_000);
    assert_eq!(cycle_wait(20, 20_000_000), 0);
    assert_eq!(cycle_wait(20, 90_000_000), 0);
}

#[test]
fn timestamp_is_after_2020() {
    let t = get_unix_timestamp().expect("clock after 1970");
    assert!(t > 1_577_836_800_000);
}

#[test]
fn millis_drop_the_sub_millisecond_part() {
    assert_eq!(millis_of(0, 0), 0);
    assert_eq!(millis_of(2, 999_999), 2000);
    assert_eq!(millis_of(2, 1_000_000), 2001);
    assert_eq!(millis_of(1, 999_999_999), 1999);
    assert_eq!(millis_of(u64::MAX, 999_999_999), u64::MAX as u128 * 1000 + 999);
}

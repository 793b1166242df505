use ink_log::level::{Level, LevelFilter};
use ink_log::logger::{InkLogger, InstallError, LoggerSlot};
use ink_log::runtime::{LoggerExt, RetVal};
use ink_log::transport::FUNC_ID_LOG;

fn installed(logger: InkLogger) -> LoggerSlot {
    let mut slot = LoggerSlot::new();
    assert_eq!(logger.init(&mut slot), Ok(()));
    slot
}

#[test]
fn a_new_logger_lets_everything_through() {
    let logger = InkLogger::new();
    for level in [Level::Error, Level::Warn, Level::Info, Level::Debug, Level::Trace] {
        assert!(logger.enabled("anything", level));
    }
    assert_eq!(logger.max_level(), LevelFilter::Trace);
}

#[test]
fn the_default_threshold_filters_by_severity() {
    let logger = InkLogger::new().with_level(LevelFilter::Info);
    assert!(logger.enabled("svc", Level::Error));
    assert!(logger.enabled("svc", Level::Warn));
    assert!(logger.enabled("svc", Level::Info));
    assert!(!logger.enabled("svc", Level::Debug));
    assert!(!logger.enabled("svc", Level::Trace));

    let silent = InkLogger::new().with_level(LevelFilter::Off);
    assert!(!silent.enabled("svc", Level::Error));
}

#[test]
fn the_longest_matching_prefix_sets_the_threshold() {
    let slot = installed(
        InkLogger::new()
            .with_level(LevelFilter::Warn)
            .with_module_level("a", LevelFilter::Debug)
            .with_module_level("a::b", LevelFilter::Trace),
    );
    let logger = slot.logger().unwrap();
    assert!(logger.enabled("a::b::c", Level::Trace));
    assert!(!logger.enabled("a::x", Level::Trace));
    assert!(logger.enabled("a::x", Level::Debug));
    assert!(!logger.enabled("other", Level::Info));
    assert!(logger.enabled("other", Level::Warn));
}

#[test]
fn the_order_of_registration_does_not_matter_once_installed() {
    let slot = installed(
        InkLogger::new()
            .with_level(LevelFilter::Warn)
            .with_module_level("a::b", LevelFilter::Trace)
            .with_module_level("a", LevelFilter::Debug)
            .with_module_level("a::b::c::d", LevelFilter::Off),
    );
    let logger = slot.logger().unwrap();
    assert!(logger.enabled("a::b::c", Level::Trace));
    assert!(!logger.enabled("a::x", Level::Trace));
    assert!(!logger.enabled("a::b::c::d::e", Level::Error));
}

#[test]
fn before_installation_the_first_match_counts() {
    let logger = InkLogger::new()
        .with_level(LevelFilter::Warn)
        .with_module_level("a", LevelFilter::Debug)
        .with_module_level("a::b", LevelFilter::Trace);
    assert!(!logger.enabled("a::b::c", Level::Trace));
    assert!(logger.sorted().enabled("a::b::c", Level::Trace));
}

#[test]
fn of_two_thresholds_for_one_prefix_the_first_counts() {
    let slot = installed(
        InkLogger::new()
            .with_module_level("a", LevelFilter::Error)
            .with_module_level("b", LevelFilter::Info)
            .with_module_level("a", LevelFilter::Trace),
    );
    let logger = slot.logger().unwrap();
    assert!(!logger.enabled("a::x", Level::Warn));
    assert!(logger.enabled("a::x", Level::Error));
}

#[test]
fn prefixes_are_compared_by_their_length_in_bytes() {
    // "\u{e4}" takes two bytes, so it is as long as "ab"; the one added first wins
    let slot = installed(
        InkLogger::new()
            .with_level(LevelFilter::Off)
            .with_module_level("\u{e4}", LevelFilter::Info)
            .with_module_level("\u{e4}\u{e4}", LevelFilter::Trace),
    );
    let logger = slot.logger().unwrap();
    assert!(logger.enabled("\u{e4}\u{e4}\u{e4}", Level::Trace));
    assert!(!logger.enabled("\u{e4}b", Level::Trace));
    assert!(logger.enabled("\u{e4}b", Level::Info));
    assert!(!logger.enabled("a", Level::Error));
}

#[test]
fn the_most_verbose_threshold_is_the_ceiling() {
    let logger = InkLogger::new()
        .with_level(LevelFilter::Warn)
        .with_module_level("a", LevelFilter::Debug)
        .with_module_level("b", LevelFilter::Error);
    assert_eq!(logger.max_level(), LevelFilter::Debug);
    let slot = installed(logger);
    assert_eq!(slot.max_level(), LevelFilter::Debug);

    let quiet = InkLogger::new().with_level(LevelFilter::Off);
    assert_eq!(quiet.max_level(), LevelFilter::Off);
    let loud = InkLogger::new()
        .with_level(LevelFilter::Info)
        .with_module_level("x", LevelFilter::Error);
    assert_eq!(loud.max_level(), LevelFilter::Info);
}

#[test]
fn an_empty_slot_holds_no_logger() {
    let slot = LoggerSlot::new();
    assert!(slot.logger().is_none());
    assert_eq!(slot.max_level(), LevelFilter::Off);
}

#[test]
fn a_second_installation_is_refused() {
    let mut slot = LoggerSlot::new();
    let first = InkLogger::new().with_level(LevelFilter::Error);
    assert_eq!(first.init(&mut slot), Ok(()));
    let second = InkLogger::new().with_level(LevelFilter::Trace);
    assert_eq!(second.init(&mut slot), Err(InstallError::AlreadyInstalled));
    assert_eq!(slot.max_level(), LevelFilter::Error);
    assert!(!slot.logger().unwrap().enabled("svc", Level::Warn));
}

#[test]
fn an_event_below_the_threshold_gives_no_call() {
    let logger = InkLogger::new()
        .with_level(LevelFilter::Info)
        .with_module_level("noisy", LevelFilter::Error);
    assert_eq!(logger.log(Level::Debug, "svc", "src/lib.rs", 7, "detail"), Ok(None));
    assert_eq!(logger.log(Level::Trace, "svc", "src/lib.rs", 7, "detail"), Ok(None));
    assert_eq!(logger.log(Level::Warn, "noisy::part", "src/lib.rs", 7, "detail"), Ok(None));
    assert!(logger.log(Level::Error, "noisy::part", "src/lib.rs", 7, "detail").unwrap().is_some());
}

#[test]
fn an_event_that_passes_gives_the_call_with_its_record() {
    let logger = InkLogger::new().with_level(LevelFilter::Info);
    let call = logger.log(Level::Info, "svc", "src/lib.rs", 42, "started").unwrap().unwrap();
    assert_eq!(call.func_id, FUNC_ID_LOG);
    let mut expected = vec![3u8, 0, 0, 0];
    expected.push(17 << 2);
    expected.extend_from_slice(b"svc:src/lib.rs:42");
    expected.push(7 << 2);
    expected.extend_from_slice(b"started");
    assert_eq!(call.input, expected);
}

#[test]
fn an_info_event_travels_from_the_log_call_to_the_sink() {
    let logger = InkLogger::new().with_level(LevelFilter::Info);
    let call = logger.log(Level::Info, "svc", "contract/lib.rs", 120, "started").unwrap().unwrap();

    let record = LoggerExt::decode(&call.input).unwrap();
    assert_eq!(record.level, 3);
    assert!(record.target.ends_with(b"svc:contract/lib.rs:120"));
    assert_eq!(record.target, b"svc:contract/lib.rs:120".to_vec());
    assert_eq!(record.args, b"started".to_vec());

    let outcome = LoggerExt::call(call.func_id, &call.input);
    assert_eq!(outcome.result, Ok(RetVal::Converging(0)));
    let sink = outcome.sink.unwrap();
    assert_eq!(sink.level, Level::Info);
    assert_eq!(sink.target, "svc:contract/lib.rs:120");
    assert_eq!(sink.message, "\u{2764}\u{fe0f}  started");
}

#[test]
fn the_line_number_is_written_in_decimal() {
    let logger = InkLogger::new();
    for (line, text) in [(0u32, "0"), (9, "9"), (10, "10"), (4294967295, "4294967295")] {
        let call = logger.log(Level::Error, "t", "f", line, "").unwrap().unwrap();
        let record = LoggerExt::decode(&call.input).unwrap();
        assert_eq!(String::from_utf8(record.target).unwrap(), format!("t:f:{}", text));
    }
}

#[test]
fn the_default_logger_is_a_new_logger() {
    let logger = InkLogger::default();
    assert!(logger.enabled("anything", Level::Trace));
    assert_eq!(logger.max_level(), LevelFilter::Trace);
    let call = logger.log(Level::Trace, "t", "f", 1, "m").unwrap().unwrap();
    assert_eq!(call.func_id, 0xfeffff00);
}

#[test]
fn a_later_default_replaces_an_earlier_one() {
    let logger = InkLogger::new().with_level(LevelFilter::Error).with_level(LevelFilter::Debug);
    assert!(logger.enabled("svc", Level::Debug));
    assert!(!logger.enabled("svc", Level::Trace));
}

#[test]
fn an_override_for_the_empty_prefix_speaks_for_every_target() {
    let slot = installed(
        InkLogger::new()
            .with_level(LevelFilter::Trace)
            .with_module_level("", LevelFilter::Error)
            .with_module_level("svc", LevelFilter::Info),
    );
    let logger = slot.logger().unwrap();
    assert!(!logger.enabled("other", Level::Warn));
    assert!(logger.enabled("other", Level::Error));
    assert!(logger.enabled("svc::part", Level::Info));
    assert!(!logger.enabled("svc::part", Level::Debug));
}

#[test]
fn nothing_beyond_the_ceiling_is_let_through() {
    let slot = installed(
        InkLogger::new()
            .with_level(LevelFilter::Warn)
            .with_module_level("a", LevelFilter::Info)
            .with_module_level("b::c", LevelFilter::Error),
    );
    let ceiling = slot.max_level();
    assert_eq!(ceiling, LevelFilter::Info);
    let logger = slot.logger().unwrap();
    for target in ["a", "a::x", "b", "b::c", "b::c::d", "zzz", ""] {
        for level in [Level::Error, Level::Warn, Level::Info, Level::Debug, Level::Trace] {
            if logger.enabled(target, level) {
                assert!(ceiling.allows(level));
            }
        }
    }
}

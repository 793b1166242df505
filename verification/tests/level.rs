use ink_log::level::{Level, LevelFilter};

const LEVELS: [Level; 5] = [Level::Error, Level::Warn, Level::Info, Level::Debug, Level::Trace];

const FILTERS: [LevelFilter; 6] = [
    LevelFilter::Off,
    LevelFilter::Error,
    LevelFilter::Warn,
    LevelFilter::Info,
    LevelFilter::Debug,
    LevelFilter::Trace,
];

#[test]
fn wire_numbers_of_the_levels() {
    assert_eq!(Level::Error.code(), 1);
    assert_eq!(Level::Warn.code(), 2);
    assert_eq!(Level::Info.code(), 3);
    assert_eq!(Level::Debug.code(), 4);
    assert_eq!(Level::Trace.code(), 5);
}

#[test]
fn wire_numbers_are_those_of_the_log_crate() {
    assert_eq!(Level::Error.code(), log::Level::Error as u32);
    assert_eq!(Level::Warn.code(), log::Level::Warn as u32);
    assert_eq!(Level::Info.code(), log::Level::Info as u32);
    assert_eq!(Level::Debug.code(), log::Level::Debug as u32);
    assert_eq!(Level::Trace.code(), log::Level::Trace as u32);
}

#[test]
fn names_are_those_of_the_log_crate() {
    assert_eq!(Level::Error.name(), log::Level::Error.to_string());
    assert_eq!(Level::Warn.name(), log::Level::Warn.to_string());
    assert_eq!(Level::Info.name(), log::Level::Info.to_string());
    assert_eq!(Level::Debug.name(), log::Level::Debug.to_string());
    assert_eq!(Level::Trace.name(), log::Level::Trace.to_string());
    assert_eq!(Level::Warn.name(), "WARN");
}

#[test]
fn numbers_and_levels_correspond() {
    for level in LEVELS {
        assert_eq!(Level::from_code(level.code()), Some(level));
    }
    for code in [0u32, 6, 255, u32::MAX] {
        assert_eq!(Level::from_code(code), None);
    }
}

#[test]
fn a_threshold_lets_through_what_is_at_least_as_severe() {
    for (f, filter) in FILTERS.iter().enumerate() {
        for (l, level) in LEVELS.iter().enumerate() {
            assert_eq!(filter.allows(*level), l + 1 <= f);
        }
    }
}

#[test]
fn thresholds_are_ordered_as_in_the_log_crate() {
    let theirs = [
        log::LevelFilter::Off,
        log::LevelFilter::Error,
        log::LevelFilter::Warn,
        log::LevelFilter::Info,
        log::LevelFilter::Debug,
        log::LevelFilter::Trace,
    ];
    let their_levels = [
        log::Level::Error,
        log::Level::Warn,
        log::Level::Info,
        log::Level::Debug,
        log::Level::Trace,
    ];
    for (f, filter) in FILTERS.iter().enumerate() {
        assert_eq!(filter.ordinal() as usize, theirs[f] as usize);
        for (l, level) in LEVELS.iter().enumerate() {
            assert_eq!(filter.allows(*level), their_levels[l].to_level_filter() <= theirs[f]);
            assert_eq!(level.to_level_filter().ordinal() as usize, their_levels[l] as usize);
        }
        for (g, other) in FILTERS.iter().enumerate() {
            let top = filter.max(*other);
            assert_eq!(top.ordinal() as usize, theirs[f].max(theirs[g]) as usize);
        }
    }
}

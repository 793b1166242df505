use ink_log::off_chain::{level_tag, log, render};

const STAMP: &str = "2021-03-04 05:06:07.089";

#[test]
fn a_line_is_put_together_from_its_parts() {
    assert_eq!(
        render(STAMP, "INFO ", "svc", 3, "started"),
        "2021-03-04 05:06:07.089 INFO  [svc] \u{2764}\u{fe0f} started"
    );
    assert_eq!(render("", "", "", 1, ""), "  [] \u{274c} ");
}

#[test]
fn each_level_has_its_glyph_on_the_console() {
    assert_eq!(render("t", "x", "y", 1, "z"), "t x [y] \u{274c} z");
    assert_eq!(render("t", "x", "y", 2, "z"), "t x [y] \u{26a0}\u{fe0f} z");
    assert_eq!(render("t", "x", "y", 3, "z"), "t x [y] \u{2764}\u{fe0f} z");
    assert_eq!(render("t", "x", "y", 4, "z"), "t x [y] \u{1f4cb} z");
    assert_eq!(render("t", "x", "y", 5, "z"), "t x [y] \u{1f3f7} z");
}

#[test]
fn an_unknown_level_is_shown_as_a_warning_that_says_so() {
    for level in [0u32, 6, 77, u32::MAX] {
        assert_eq!(
            render("t", "x", "y", level, "z"),
            "t x [y] \u{26a0}\u{fe0f} unknown log_level z"
        );
    }
}

#[test]
fn tags_with_and_without_colour() {
    colored::control::set_override(false);
    assert_eq!(level_tag(1), "ERROR");
    assert_eq!(level_tag(2), "WARN ");
    assert_eq!(level_tag(3), "INFO ");
    assert_eq!(level_tag(4), "DEBUG");
    assert_eq!(level_tag(5), "TRACE");
    assert_eq!(level_tag(0), "WARN ");
    assert_eq!(level_tag(6), "WARN ");
    assert_eq!(
        log(2, "svc", "low fuel", STAMP),
        "2021-03-04 05:06:07.089 WARN  [svc] \u{26a0}\u{fe0f} low fuel"
    );
    assert_eq!(
        log(9, "svc", "what", STAMP),
        "2021-03-04 05:06:07.089 WARN  [svc] \u{26a0}\u{fe0f} unknown log_level what"
    );

    colored::control::set_override(true);
    assert_eq!(level_tag(1), "\u{1b}[31mERROR\u{1b}[0m");
    assert_eq!(level_tag(2), "\u{1b}[33mWARN \u{1b}[0m");
    assert_eq!(level_tag(3), "\u{1b}[36mINFO \u{1b}[0m");
    assert_eq!(level_tag(4), "\u{1b}[35mDEBUG\u{1b}[0m");
    assert_eq!(level_tag(5), "TRACE");
    assert_eq!(level_tag(6), "\u{1b}[33mWARN \u{1b}[0m");
    assert_eq!(
        log(1, "svc", "boom", STAMP),
        "2021-03-04 05:06:07.089 \u{1b}[31mERROR\u{1b}[0m [svc] \u{274c} boom"
    );
    assert_eq!(
        log(5, "svc", "step", STAMP),
        "2021-03-04 05:06:07.089 TRACE [svc] \u{1f3f7} step"
    );
    colored::control::unset_override();
}

use gukab::session_log::sanitize;

#[test]
fn log_names_keep_safe_chars_only() {
    assert_eq!(sanitize("core-sw01.lab_2"), "core-sw01.lab_2");
    assert_eq!(sanitize("a/b\\c d"), "a_b_c_d");
    assert_eq!(sanitize("şube"), "_ube");
}

#[test]
fn log_names_never_escape_the_log_dir() {
    assert_eq!(sanitize(""), "host");
    assert_eq!(sanitize("."), "host");
    assert_eq!(sanitize(".."), "host");
    assert_eq!(sanitize("../.."), ".._..");
    assert_eq!(sanitize(&sanitize("../..")), ".._..");
}

use gukab::session_log::{clock_stamps, log_plan, log_plan_at, ClockReading};

#[test]
fn transcript_goes_under_the_label_folder() {
    let p = log_plan_at("/home/u/.config/gukab/log", "core/sw 1", "2026-07-01_10-20-30", "2026-07-01 10:20:30");
    assert_eq!(p.dir, "/home/u/.config/gukab/log/core_sw_1");
    assert_eq!(p.file, "/home/u/.config/gukab/log/core_sw_1/2026-07-01_10-20-30.log");
    assert_eq!(p.header, "==== gukab session 2026-07-01 10:20:30 — core/sw 1 ====\n");
    let now = log_plan("/l", "sw");
    assert_eq!(now.dir, "/l/sw");
    assert!(now.file.starts_with("/l/sw/") && now.file.ends_with(".log"));
    assert!(now.header.starts_with("==== gukab session ") && now.header.ends_with(" — sw ====\n"));
}

fn reading(year: i32, month: u32, day: u32, hour: u32, minute: u32, second: u32, nanosecond: u32) -> ClockReading {
    ClockReading { year, month, day, hour, minute, second, nanosecond }
}

#[test]
fn stamps_are_zero_padded() {
    let (f, h) = clock_stamps(&reading(2026, 7, 1, 9, 5, 3, 123));
    assert_eq!(f, "2026-07-01_09-05-03");
    assert_eq!(h, "2026-07-01 09:05:03");
}

#[test]
fn stamps_show_a_leap_second_and_odd_years() {
    let (f, _) = clock_stamps(&reading(2016, 12, 31, 23, 59, 59, 1_500_000_000));
    assert_eq!(f, "2016-12-31_23-59-60");
    let (f, _) = clock_stamps(&reading(987, 1, 2, 0, 0, 0, 0));
    assert!(f.starts_with("0987-01-02"));
    let (f, _) = clock_stamps(&reading(12345, 1, 2, 0, 0, 0, 0));
    assert!(f.starts_with("+12345-01-02"));
    let (f, _) = clock_stamps(&reading(-5, 1, 2, 0, 0, 0, 0));
    assert!(f.starts_with("-0005-01-02"));
}

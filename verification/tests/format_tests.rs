use macchina::format::{
    battery, cpu, cpu_with_cores, desktop_environment, host, kernel, machine, memory, uptime,
    uptime_from_reading,
};
use macchina::strnum::{parse_seconds, u64_to_string};
use macchina::strops::{replace_all, str_eq, ucfirst};
use macchina::ReadoutError;

#[test]
fn uptime_shorthand_hour_minute() {
    assert_eq!(uptime(3661, true), "1h 1m");
}

#[test]
fn uptime_verbose_day_hour() {
    assert_eq!(uptime(90000, false), "1 day 1 hour");
}

#[test]
fn uptime_seconds_only() {
    assert_eq!(uptime(45, false), "45s");
    assert_eq!(uptime(45, true), "45s");
}

#[test]
fn uptime_zero_is_empty() {
    assert_eq!(uptime(0, false), "");
    assert_eq!(uptime(0, true), "");
}

#[test]
fn uptime_exactly_sixty_is_empty() {
    assert_eq!(uptime(60, false), "");
}

#[test]
fn uptime_plurals() {
    assert_eq!(uptime(2 * 86400 + 3 * 3600 + 4 * 60, false), "2 days 3 hours 4 minutes");
    assert_eq!(uptime(86400 + 3600 + 60, false), "1 day 1 hour 1 minute");
    assert_eq!(uptime(2 * 86400 + 3 * 3600 + 4 * 60, true), "2d 3h 4m");
}

#[test]
fn uptime_minutes_only() {
    assert_eq!(uptime(61, true), "1m");
    assert_eq!(uptime(61, false), "1 minute");
    assert_eq!(uptime(120, false), "2 minutes");
}

#[test]
fn uptime_trim_round_trip() {
    for s in [0u64, 1, 45, 59, 60, 61, 3600, 3661, 86400, 90000, 31_536_000] {
        for short in [true, false] {
            let out = uptime(s, short);
            assert_eq!(out.trim(), out);
        }
    }
}

#[test]
fn uptime_from_reading_whole_and_fractional() {
    assert_eq!(uptime_from_reading("3661", true).unwrap(), "1h 1m");
    assert_eq!(uptime_from_reading("3661.94", true).unwrap(), "1h 1m");
    assert_eq!(uptime_from_reading("45.", false).unwrap(), "45s");
    assert_eq!(uptime_from_reading(".5", false).unwrap(), "");
}

#[test]
fn uptime_from_reading_rejects_non_numbers() {
    assert_eq!(uptime_from_reading("", true), Err(ReadoutError::MetricNotAvailable));
    assert_eq!(uptime_from_reading("abc", true), Err(ReadoutError::MetricNotAvailable));
    assert_eq!(uptime_from_reading("1e5", true), Err(ReadoutError::MetricNotAvailable));
    assert_eq!(uptime_from_reading(".", true), Err(ReadoutError::MetricNotAvailable));
    assert_eq!(uptime_from_reading("12.3.4", true), Err(ReadoutError::MetricNotAvailable));
    assert_eq!(
        uptime_from_reading("99999999999999999999999", true),
        Err(ReadoutError::MetricNotAvailable)
    );
}

#[test]
fn parse_seconds_values() {
    assert_eq!(parse_seconds("0"), Ok(0));
    assert_eq!(parse_seconds("3661.25"), Ok(3661));
    assert_eq!(parse_seconds("18446744073709551615"), Ok(u64::MAX));
    assert_eq!(parse_seconds("18446744073709551616"), Err(ReadoutError::MetricNotAvailable));
}

#[test]
fn host_line() {
    assert_eq!(host("alice", "box"), "alice@box");
}

#[test]
fn battery_full_ignores_charging() {
    assert_eq!(battery("100", "FALSE").unwrap(), "Full");
    assert_eq!(battery("100", "TRUE").unwrap(), "Full");
}

#[test]
fn battery_charging_and_discharging() {
    assert_eq!(battery("42", "TRUE").unwrap(), "42% & Charging");
    assert_eq!(battery("42", "FALSE").unwrap(), "42% & Discharging");
    assert_eq!(battery("99", "anything-else").unwrap(), "99% & Discharging");
}

#[test]
fn battery_requires_both_readings() {
    assert_eq!(battery("", "TRUE"), Err(ReadoutError::MetricNotAvailable));
    assert_eq!(battery("42", ""), Err(ReadoutError::MetricNotAvailable));
    assert_eq!(battery("", ""), Err(ReadoutError::MetricNotAvailable));
}

#[test]
fn memory_line_matches_bytesize() {
    let expected = format!(
        "{}/{}",
        bytesize::ByteSize::kb(5000),
        bytesize::ByteSize::kb(10000)
    );
    assert_eq!(memory(5000, 10000), expected);
    assert!(memory(5000, 10000).contains('/'));
}

#[test]
fn cpu_replaces_trademark_symbols() {
    assert_eq!(
        cpu_with_cores("Intel(R) Core(TM) i7", 8),
        "Intel\u{ae} Core\u{2122} i7 (8)"
    );
}

#[test]
fn cpu_replace_is_blind_substring_replace() {
    assert_eq!(cpu_with_cores("CORP(R)X(TM)", 2), "CORP\u{ae}X\u{2122} (2)");
}

#[test]
fn cpu_uses_logical_core_count() {
    let model = "Intel(R) Core(TM) i7";
    let cores = num_cpus::get() as u64;
    assert_eq!(cpu(model), cpu_with_cores(model, cores));
}

#[test]
fn replace_all_non_overlapping() {
    assert_eq!(replace_all("aaa", "aa", "b"), "ba");
    assert_eq!(replace_all("hello", "world-longer-than-s", "x"), "hello");
    assert_eq!(replace_all("(TM)(TM)", "(TM)", "\u{2122}"), "\u{2122}\u{2122}");
}

#[test]
fn machine_collapses_equal_fields() {
    assert_eq!(machine("LENOVO", "ThinkPad", "ThinkPad", "ThinkPad"), "ThinkPad");
}

#[test]
fn machine_short_version_concatenates() {
    assert_eq!(machine("LENOVO", "ThinkPad X1", "20QD", ""), "LENOVO ThinkPad X1 20QD");
    assert_eq!(machine("LENOVO", "ThinkPad X1", "20QD", "short"), "LENOVO ThinkPad X1 20QD");
}

#[test]
fn machine_long_version_stands_alone() {
    assert_eq!(
        machine("LENOVO", "ThinkPad X1", "20QD", "ThinkPad X1 Carbon 7th"),
        "ThinkPad X1 Carbon 7th"
    );
}

#[test]
fn desktop_environment_basename_upper_cased() {
    assert_eq!(desktop_environment(String::from("/usr/share/xsessions/gnome")), "Gnome");
}

#[test]
fn desktop_environment_without_separator() {
    assert_eq!(desktop_environment(String::from("plasma")), "Plasma");
    assert_eq!(desktop_environment(String::from("Sway")), "Sway");
    assert_eq!(desktop_environment(String::from("")), "");
    assert_eq!(desktop_environment(String::from("a/")), "");
}

#[test]
fn kernel_needs_both_fields() {
    assert_eq!(kernel("", "5.10"), Err(ReadoutError::MetricNotAvailable));
    assert_eq!(kernel("Linux", ""), Err(ReadoutError::MetricNotAvailable));
    assert_eq!(kernel("Linux", "5.10").unwrap(), "Linux 5.10");
}

#[test]
fn decimal_rendering() {
    assert_eq!(u64_to_string(0), "0");
    assert_eq!(u64_to_string(7), "7");
    assert_eq!(u64_to_string(1234567890), "1234567890");
    assert_eq!(u64_to_string(u64::MAX), "18446744073709551615");
}

#[test]
fn string_equality_helper() {
    assert!(str_eq("abc", "abc"));
    assert!(!str_eq("abc", "abd"));
    assert!(!str_eq("abc", "ab"));
}

#[test]
fn ucfirst_ascii_only_first_character() {
    assert_eq!(ucfirst("gnome"), "Gnome");
    assert_eq!(ucfirst("GNOME"), "GNOME");
    assert_eq!(ucfirst("9wm"), "9wm");
    assert_eq!(ucfirst(""), "");
}

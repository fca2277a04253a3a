use system_info::SystemInfo;
use system_info::{memory_from, os_version_from, parse_meminfo_line};

// ---------------------------------------------------------------------------
// CPU count
// ---------------------------------------------------------------------------

#[test]
fn cpu_count_defaults_to_one() {
    assert_eq!(SystemInfo::cpu_count_from(None), 1);
}

#[test]
fn cpu_count_reports_the_hint() {
    assert_eq!(SystemInfo::cpu_count_from(Some(8)), 8);
    assert_eq!(SystemInfo::cpu_count_from(Some(1)), 1);
}

#[test]
fn cpu_count_has_a_floor_of_one() {
    assert_eq!(SystemInfo::cpu_count_from(Some(0)), 1);
}

// ---------------------------------------------------------------------------
// OS version from the descriptor text
// ---------------------------------------------------------------------------

#[test]
fn pretty_name_line_is_parsed_exactly() {
    let descriptor = "PRETTY_NAME=\"Example OS 1.0\"";
    let version = os_version_from(true, Some(descriptor));
    assert_eq!(version, "Example OS 1.0");
}

#[test]
fn pretty_name_is_found_among_other_lines() {
    let descriptor = "NAME=\"Example\"\nID=example\nPRETTY_NAME=\"Example OS 1.0\"\nVERSION_ID=\"1.0\"\n";
    let version = os_version_from(true, Some(descriptor));
    assert_eq!(version, "Example OS 1.0");
}

#[test]
fn first_pretty_name_line_wins() {
    let descriptor = "PRETTY_NAME=\"First\"\nPRETTY_NAME=\"Second\"\n";
    let version = os_version_from(true, Some(descriptor));
    assert_eq!(version, "First");
}

#[test]
fn unquoted_pretty_name_is_kept_as_is() {
    let descriptor = "PRETTY_NAME=Plain Name\n";
    let version = os_version_from(true, Some(descriptor));
    assert_eq!(version, "Plain Name");
}

#[test]
fn pretty_name_with_crlf_line_ending() {
    let descriptor = "NAME=\"Example\"\r\nPRETTY_NAME=\"Example OS 1.0\"\r\n";
    let version = os_version_from(true, Some(descriptor));
    assert_eq!(version, "Example OS 1.0");
}

#[test]
fn empty_pretty_name_value() {
    let descriptor = "PRETTY_NAME=\"\"\n";
    let version = os_version_from(true, Some(descriptor));
    assert_eq!(version, "");
}

#[test]
fn missing_descriptor_falls_back_to_linux() {
    let version = os_version_from(true, None);
    assert_eq!(version, "Linux");
}

#[test]
fn descriptor_without_pretty_name_falls_back_to_linux() {
    let descriptor = "NAME=\"Example\"\nID=example\n";
    let version = os_version_from(true, Some(descriptor));
    assert_eq!(version, "Linux");
}

#[test]
fn other_hosts_report_unknown_regardless_of_descriptor() {
    assert_eq!(os_version_from(false, None), "Unknown");
    let descriptor = "PRETTY_NAME=\"Example OS 1.0\"\n";
    assert_eq!(os_version_from(false, Some(descriptor)), "Unknown");
}

// ---------------------------------------------------------------------------
// Memory from the statistics text
// ---------------------------------------------------------------------------

#[test]
fn memory_counters_are_parsed_exactly() {
    let statistics = "MemTotal:       16384000 kB\nMemAvailable:    8192000 kB\n";
    let (total, available) = memory_from(true, Some(statistics));
    assert_eq!(total, 16384000 * 1024);
    assert_eq!(available, 8192000 * 1024);
}

#[test]
fn memory_counters_are_found_among_other_lines() {
    let statistics = "MemTotal:       16384000 kB\nMemFree:         1000000 kB\nMemAvailable:    8192000 kB\nBuffers:          200000 kB\n";
    let (total, available) = memory_from(true, Some(statistics));
    assert_eq!(total, 16384000 * 1024);
    assert_eq!(available, 8192000 * 1024);
}

#[test]
fn later_duplicate_counter_overwrites_earlier() {
    let statistics = "MemTotal: 100 kB\nMemTotal: 200 kB\n";
    let (total, available) = memory_from(true, Some(statistics));
    assert_eq!(total, 200 * 1024);
    assert_eq!(available, 0);
}

#[test]
fn malformed_counter_does_not_overwrite() {
    let statistics = "MemTotal: 100 kB\nMemTotal: many kB\n";
    let (total, _) = memory_from(true, Some(statistics));
    assert_eq!(total, 100 * 1024);
}

#[test]
fn counter_without_a_value_contributes_nothing() {
    let statistics = "MemTotal:\nMemAvailable:    8192000 kB\n";
    let (total, available) = memory_from(true, Some(statistics));
    assert_eq!(total, 0);
    assert_eq!(available, 8192000 * 1024);
}

#[test]
fn counter_too_large_for_bytes_is_skipped() {
    let statistics = "MemTotal: 18446744073709551615 kB\n";
    let (total, available) = memory_from(true, Some(statistics));
    assert_eq!(total, 0);
    assert_eq!(available, 0);
}

#[test]
fn missing_statistics_report_zero() {
    let (total, available) = memory_from(true, None);
    assert_eq!(total, 0);
    assert_eq!(available, 0);
}

#[test]
fn other_hosts_report_zero_regardless_of_statistics() {
    let statistics = "MemTotal:       16384000 kB\nMemAvailable:    8192000 kB\n";
    let (total, available) = memory_from(false, Some(statistics));
    assert_eq!(total, 0);
    assert_eq!(available, 0);
}

// ---------------------------------------------------------------------------
// Single statistics lines
// ---------------------------------------------------------------------------

#[test]
fn meminfo_line_second_token_is_the_value() {
    assert_eq!(parse_meminfo_line("MemTotal:       16384000 kB"), Some(16384000));
    assert_eq!(parse_meminfo_line("MemAvailable: 1 kB"), Some(1));
}

#[test]
fn meminfo_line_with_tab_separators() {
    assert_eq!(parse_meminfo_line("MemTotal:\t42\tkB"), Some(42));
}

#[test]
fn meminfo_line_with_unicode_separators() {
    // split_whitespace in std recognises the same delimiters.
    assert_eq!("MemTotal:\u{2002}77\u{2002}kB".split_whitespace().nth(1), Some("77"));
    assert_eq!(parse_meminfo_line("MemTotal:\u{2002}77\u{2002}kB"), Some(77));
}

#[test]
fn meminfo_line_without_second_token() {
    assert_eq!(parse_meminfo_line("MemTotal:"), None);
    assert_eq!(parse_meminfo_line(""), None);
    assert_eq!(parse_meminfo_line("   "), None);
}

#[test]
fn meminfo_line_with_non_numeric_value() {
    assert_eq!(parse_meminfo_line("MemTotal: lots kB"), None);
    assert_eq!(parse_meminfo_line("MemTotal: -5 kB"), None);
    assert_eq!(parse_meminfo_line("MemTotal: 12a kB"), None);
}

#[test]
fn meminfo_line_at_the_64_bit_boundary() {
    assert_eq!(
        parse_meminfo_line("MemTotal: 18446744073709551615 kB"),
        Some(u64::MAX),
    );
    assert_eq!(parse_meminfo_line("MemTotal: 18446744073709551616 kB"), None);
}

#[test]
fn meminfo_value_with_plus_sign_parses_like_rust() {
    // u64::from_str accepts one leading plus sign.
    assert_eq!(parse_meminfo_line("MemTotal: +123 kB"), Some(123));
    assert_eq!("+123".parse::<u64>().ok(), Some(123));
}

// ---------------------------------------------------------------------------
// Assembled snapshots
// ---------------------------------------------------------------------------

#[test]
fn snapshot_assembles_every_field() {
    let descriptor = "PRETTY_NAME=\"Example OS 1.0\"\n";
    let statistics = "MemTotal: 2048 kB\nMemAvailable: 1024 kB\n";
    let info = SystemInfo::from_parts(
        Some(4),
        "linux",
        "x86_64",
        true,
        Some(descriptor),
        Some(statistics),
    );
    assert_eq!(info.cpu_count, 4);
    assert_eq!(info.os, "linux");
    assert_eq!(info.os_version, "Example OS 1.0");
    assert_eq!(info.arch, "x86_64");
    assert_eq!(info.total_memory, 2048 * 1024);
    assert_eq!(info.available_memory, 1024 * 1024);
}

#[test]
fn snapshot_on_another_host_uses_placeholders() {
    let info = SystemInfo::from_parts(None, "windows", "aarch64", false, None, None);
    assert_eq!(info.cpu_count, 1);
    assert_eq!(info.os, "windows");
    assert_eq!(info.os_version, "Unknown");
    assert_eq!(info.arch, "aarch64");
    assert_eq!(info.total_memory, 0);
    assert_eq!(info.available_memory, 0);
}

#[test]
fn snapshot_always_reports_a_cpu_and_an_os() {
    let info = SystemInfo::from_parts(None, "linux", "x86_64", true, None, None);
    assert!(info.cpu_count >= 1);
    assert!(!info.os.is_empty());
}

#[test]
fn repeated_snapshots_agree_on_stable_fields() {
    // The memory statistics change between the two calls; the OS family,
    // architecture and CPU count may not.
    let first = SystemInfo::from_parts(
        Some(2),
        "linux",
        "x86_64",
        true,
        Some("PRETTY_NAME=\"Example OS 1.0\"\n"),
        Some("MemTotal: 100 kB\nMemAvailable: 50 kB\n"),
    );
    let second = SystemInfo::from_parts(
        Some(2),
        "linux",
        "x86_64",
        true,
        Some("PRETTY_NAME=\"Example OS 1.0\"\n"),
        Some("MemTotal: 100 kB\nMemAvailable: 20 kB\n"),
    );
    assert_eq!(first.os, second.os);
    assert_eq!(first.arch, second.arch);
    assert_eq!(first.cpu_count, second.cpu_count);
    assert_ne!(first.available_memory, second.available_memory);
}

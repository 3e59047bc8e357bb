use prometheus_core::format::{format_size, shorten_path};

#[test]
fn bytes_are_printed_plain() {
    assert_eq!(format_size(0), "0 B");
    assert_eq!(format_size(500), "500 B");
    assert_eq!(format_size(1023), "1023 B");
}

#[test]
fn kilobytes_are_rounded_whole() {
    assert_eq!(format_size(1024), "1 KB");
    assert_eq!(format_size(1536), "2 KB");
    assert_eq!(format_size(10_240), "10 KB");
    assert_eq!(format_size(1_048_575), "1024 KB");
}

#[test]
fn megabytes_keep_one_decimal() {
    assert_eq!(format_size(1_048_576), "1.0 MB");
    assert_eq!(format_size(2_621_440), "2.5 MB");
    assert_eq!(format_size(5_000_000), "4.8 MB");
}

#[test]
fn gigabytes_keep_two_decimals() {
    assert_eq!(format_size(1_073_741_824), "1.00 GB");
    assert_eq!(format_size(1_610_612_736), "1.50 GB");
    assert_eq!(format_size(1_084_479_242), "1.01 GB");
    assert_eq!(format_size(600_000_000_000), "558.79 GB");
}

#[test]
fn the_largest_size_still_formats() {
    assert_eq!(format_size(u64::MAX), "17179869184.00 GB");
}

#[test]
fn short_home_path_gets_a_tilde() {
    assert_eq!(shorten_path("/home/u/.cache/fake", "/home/u"), "~/.cache/fake");
}

#[test]
fn long_home_path_keeps_its_tail() {
    let path = "/home/u/.cache/averyveryverylongdirectoryname/andanother/file.log";
    let out = shorten_path(path, "/home/u");
    assert_eq!(out.chars().count(), 50);
    assert!(out.starts_with("..."));
    assert!(out.ends_with("andanother/file.log"));
}

#[test]
fn foreign_path_is_kept_or_trimmed_by_length() {
    assert_eq!(shorten_path("/var/log/syslog", "/home/u"), "/var/log/syslog");
    let long = "/var/a/b/c/d/e/f/g/h/i/j/k/l/m/n/o/p/q/r/s/t/u/v/w/x/y/z/end.txt";
    let out = shorten_path(long, "/home/u");
    assert_eq!(out.chars().count(), 50);
    assert!(out.starts_with("..."));
    assert!(out.ends_with("end.txt"));
}

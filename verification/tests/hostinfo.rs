use plot_reader::hostinfo::{
    bus_type_from_listing, device_id_from_output, device_source_from_table,
    sector_size_from_listing,
};
use plot_reader::text::parse_u64;

#[test]
fn test_get_sector_size() {
    // this should be true for any platform where this test runs
    // but it doesn't exercise all platform variants
}

#[test]
fn device_id_cuts_trailing_newline() {
    assert_eq!(device_id_from_output("fd01\n"), "fd01");
    assert_eq!(device_id_from_output("fd01"), "fd01");
    assert_eq!(device_id_from_output("  fd01  \n"), "  fd01");
    assert_eq!(device_id_from_output("\n"), "");
    assert_eq!(device_id_from_output(""), "");
}

#[test]
fn sector_size_reads_second_line() {
    assert_eq!(sector_size_from_listing("PHY-SEC\n 4096\n"), 4096);
    assert_eq!(sector_size_from_listing("PHY-SEC\n512"), 512);
    assert_eq!(sector_size_from_listing("PHY-SEC\n   512   \n"), 512);
}

#[test]
fn sector_size_falls_back_to_4096() {
    assert_eq!(sector_size_from_listing(""), 4096);
    assert_eq!(sector_size_from_listing("only one line"), 4096);
    assert_eq!(sector_size_from_listing("PHY-SEC\nnot a number"), 4096);
    assert_eq!(sector_size_from_listing("PHY-SEC\n\n"), 4096);
    assert_eq!(
        sector_size_from_listing("PHY-SEC\n99999999999999999999999999\n"),
        4096
    );
}

#[test]
fn device_source_takes_first_field_of_second_line() {
    let df = "Filesystem     1K-blocks     Used Available Use% Mounted on\n/dev/sda1      961301832 53687091 858701056   6% /\n";
    assert_eq!(device_source_from_table(df), Some("/dev/sda1".to_string()));
    assert_eq!(device_source_from_table("header only\n"), None);
    assert_eq!(device_source_from_table("header\n   \n"), None);
    assert_eq!(device_source_from_table(""), None);
}

#[test]
fn bus_type_lowercases_first_line() {
    assert_eq!(bus_type_from_listing("USB\n"), "usb");
    assert_eq!(bus_type_from_listing("sata\n"), "sata");
    assert_eq!(bus_type_from_listing("  NVMe  \n"), "nvme");
    assert_eq!(bus_type_from_listing(""), "");
}

#[test]
fn parse_u64_accepts_digits_only() {
    assert_eq!(parse_u64("0"), Some(0));
    assert_eq!(parse_u64("42"), Some(42));
    assert_eq!(parse_u64("18446744073709551615"), Some(u64::MAX));
    assert_eq!(parse_u64("18446744073709551616"), None);
    assert_eq!(parse_u64(""), None);
    assert_eq!(parse_u64("12a"), None);
    assert_eq!(parse_u64(" 12"), None);
}

use rec::{format_num, format_size};

#[test]
fn test_support_format_size_various() {
    let test_cases: Vec<(u64, &str)> = vec![
        (0, "  0.000 KB"),
        (1, "  0.001 KB"),
        (49, "  0.049 KB"),
        (50, "  0.050 KB"),
        (500, "  0.500 KB"),
        (512, "  0.512 KB"),
        (949, "  0.949 KB"),
        (950, "  0.950 KB"),
        (999, "  0.999 KB"),
        (1_000, "  1.0 KB"),
        (1_500, "  1.5 KB"),
        (512_000, "512.0 KB"),
        (999_900, "999.9 KB"),
        (999_940, "999.9 KB"),
        (999_949, "999.9 KB"),
        (999_950, "  1.0 MB"),
        (999_999, "  1.0 MB"),
        (1_000_000, "  1.0 MB"),
        (123_450_000, "123.5 MB"),
        (129_000_000, "129.0 MB"),
        (999_940_000, "999.9 MB"),
        (999_949_000, "999.9 MB"),
        (999_950_000, "  1.0 GB"),
        (1_000_000_000, "  1.0 GB"),
        (4_100_000_000, "  4.1 GB"),
        (999_940_000_000, "999.9 GB"),
        (999_950_000_000, "  1.0 TB"),
        (1_000_000_000_000, "  1.0 TB"),
        (999_940_000_000_000, "999.9 TB"),
        (999_950_000_000_000, "  1.0 PB"),
        (1_000_000_000_000_000, "  1.0 PB"),
        (1_234_500_000_000_000_000, "1234.5 PB"),
        (u64::MAX, "18446.7 PB"),
    ];

    for (input_bytes, expected_str) in test_cases {
        assert_eq!(format_size(input_bytes), expected_str, "Input: {} bytes", input_bytes);
    }
}

#[test]
fn format_size_unit_boundary() {
    assert_eq!(format_size(999_949), "999.9 KB");
    assert_eq!(format_size(999_950), "  1.0 MB");
    assert_eq!(format_size(0), "  0.000 KB");
    assert_eq!(format_size(1_234_500_000_000_000_000), "1234.5 PB");
}

#[test]
fn format_size_rounds_half_up() {
    assert_eq!(format_size(1_050), "  1.1 KB");
    assert_eq!(format_size(1_249), "  1.2 KB");
    assert_eq!(format_size(999_949_999), "999.9 MB");
    assert_eq!(format_size(999_999_999_999_999_999), "1000.0 PB");
}

#[test]
fn format_num_groups_thousands() {
    assert_eq!(format_num(0), "0");
    assert_eq!(format_num(999), "999");
    assert_eq!(format_num(1_000), "1,000");
    assert_eq!(format_num(1_234_567), "1,234,567");
    assert_eq!(format_num(u32::MAX), "4,294,967,295");
}

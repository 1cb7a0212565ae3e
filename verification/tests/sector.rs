use porep_labels::error::Error;
use porep_labels::report::{Inputs, Outputs, Report};
use porep_labels::pipeline::is_generated;
use porep_labels::sector::{
    overflows, parse_size, read_byte_count, sector_nodes, sector_size, MAX_DIGITS,
};

#[test]
fn supported_sizes_are_read_with_and_without_unit() {
    assert_eq!(parse_size("2KiB"), Ok(2048));
    assert_eq!(parse_size("2048"), Ok(2048));
    assert_eq!(parse_size("4 KiB"), Ok(4096));
    assert_eq!(parse_size("16KiB"), Ok(16384));
    assert_eq!(parse_size("32kib"), Ok(32768));
    assert_eq!(parse_size("8MiB"), Ok(8 << 20));
    assert_eq!(parse_size("16MiB"), Ok(16 << 20));
    assert_eq!(parse_size("512MiB"), Ok(512 << 20));
    assert_eq!(parse_size("1GiB"), Ok(1 << 30));
}

#[test]
fn large_sizes_are_read_where_they_fit() {
    if usize::BITS >= 64 {
        assert_eq!(parse_size("32GiB"), Ok((32u64 << 30) as usize));
        assert_eq!(parse_size("64GiB"), Ok((64u64 << 30) as usize));
        assert_eq!(parse_size("34359738368"), Ok((32u64 << 30) as usize));
    }
}

#[test]
fn other_sizes_are_refused() {
    assert_eq!(parse_size("2KB"), Err(Error::UnsupportedSize));
    assert_eq!(parse_size("1KiB"), Err(Error::UnsupportedSize));
    assert_eq!(parse_size("8KiB"), Err(Error::UnsupportedSize));
    assert_eq!(parse_size("0"), Err(Error::UnsupportedSize));
    assert_eq!(parse_size("2049"), Err(Error::UnsupportedSize));
}

#[test]
fn text_that_is_no_size_is_refused() {
    assert_eq!(parse_size(""), Err(Error::UnsupportedSize));
    assert_eq!(parse_size("KiB"), Err(Error::UnsupportedSize));
    assert_eq!(parse_size("two"), Err(Error::UnsupportedSize));
    assert_eq!(parse_size("2 parsecs"), Err(Error::UnsupportedSize));
}

#[test]
fn byte_count_is_checked_against_the_supported_sizes() {
    assert_eq!(sector_size(Some(2048)), Ok(2048));
    assert_eq!(sector_size(Some(2047)), Err(Error::UnsupportedSize));
    assert_eq!(sector_size(None), Err(Error::UnsupportedSize));
}

#[test]
fn byte_count_is_cut_to_the_width_of_the_machine() {
    if usize::BITS == 64 {
        assert_eq!(sector_size(Some((1u128 << 64) + 2048)), Ok(2048));
    }
}

#[test]
fn sector_has_one_node_per_32_bytes() {
    assert_eq!(sector_nodes(2048), 64);
    assert_eq!(sector_nodes(0), 0);
    assert_eq!(sector_nodes(63), 1);
}

#[test]
fn report_keeps_the_measured_times() {
    let report = Report::new(2048, 1, 2, 3, 4);
    assert_eq!(
        report,
        Report {
            inputs: Inputs { sector_size: 2048 },
            outputs: Outputs {
                gen_window_post_cpu_time_ms: 1,
                gen_window_post_wall_time_ms: 2,
                verify_window_post_cpu_time_ms: 3,
                verify_window_post_wall_time_ms: 4,
            },
        }
    );
}

#[test]
fn report_cuts_times_to_64_bits() {
    let report = Report::new(2048, (1u128 << 64) + 5, u64::MAX as u128, 0, 1u128 << 70);
    assert_eq!(report.outputs.gen_window_post_cpu_time_ms, 5);
    assert_eq!(report.outputs.gen_window_post_wall_time_ms, u64::MAX);
    assert_eq!(report.outputs.verify_window_post_cpu_time_ms, 0);
    assert_eq!(report.outputs.verify_window_post_wall_time_ms, 0);
}

#[test]
fn number_that_may_overflow_is_refused_unparsed() {
    assert_eq!(MAX_DIGITS, 17);
    assert!(overflows("300000000000000000ZiB"));
    assert!(overflows("1000000000000000000000000000000GB"));
    assert!(overflows("  123456789012345678 tib"));
    assert!(overflows("000123456789012345678eb"));
    assert_eq!(parse_size("300000000000000000ZiB"), Err(Error::UnsupportedSize));
    assert_eq!(
        parse_size("1000000000000000000000000000000GB"),
        Err(Error::UnsupportedSize)
    );
    assert_eq!(read_byte_count("300000000000000000ZiB"), None);
    assert_eq!(read_byte_count("1000000000000000000000000000000GB"), None);
}

#[test]
fn long_texts_are_read_like_short_ones() {
    assert_eq!(parse_size("               2048"), Ok(2048));
    assert_eq!(parse_size("0000000000000002048"), Ok(2048));
    assert_eq!(parse_size("   0000000000000000000000000000002 KiB   "), Ok(2048));
    assert_eq!(parse_size("00000000000000000000000000001GiB"), Ok(1 << 30));
    assert_eq!(parse_size("2048.000000000000000000000000"), Ok(2048));
    assert!(!overflows("               2048"));
    assert!(!overflows("00000000000000000000000000001GiB"));
}

#[test]
fn numbers_without_a_large_unit_are_never_refused_unparsed() {
    assert!(!overflows("18446744073709555712"));
    assert!(!overflows("123456789012345678901234567890"));
    assert!(!overflows("123456789012345678901234567890 KiB"));
    assert!(!overflows("123456789012345678901234567890MB"));
    assert!(read_byte_count("18446744073709555712").is_some());
    assert!(read_byte_count("123456789012345678901234567890").is_some());
    assert!(read_byte_count("123456789012345678901234567890 KiB").is_some());
    assert!(read_byte_count("123456789012345678901234567890MB").is_some());
    assert_eq!(parse_size("123456789012345678901234567890"), Err(Error::UnsupportedSize));
}

#[test]
fn seventeen_digits_are_parsed_with_every_unit() {
    for unit in ["", "B", "K", "KiB", "MB", "MiB", "G", "GiB", "TB", "TiB", "PB", "PiB", "EB",
        "EiB", "Z", "ZB", "ZiB", "zib"]
    {
        let text = format!("99999999999999999{}", unit);
        assert!(!overflows(&text), "{}", text);
        assert!(read_byte_count(&text).is_some(), "{}", text);
        let text = format!("0099999999999999999.5 {}", unit);
        assert!(!overflows(&text), "{}", text);
        assert!(read_byte_count(&text).is_some(), "{}", text);
    }
    assert_eq!(parse_size("99999999999999999Z"), Err(Error::UnsupportedSize));
    assert_eq!(parse_size("999999999999999ZiB"), Err(Error::UnsupportedSize));
    assert_eq!(read_byte_count("000000000000002048"), Some(2048));
}

#[test]
fn byte_counts_are_read_with_their_unit() {
    assert_eq!(read_byte_count("64 GiB"), Some(64 << 30));
    assert_eq!(read_byte_count("68719476736"), Some(68_719_476_736));
    assert_eq!(read_byte_count("8 kb"), Some(8000));
    assert_eq!(read_byte_count("1 ZiB"), Some(1 << 70));
    assert_eq!(read_byte_count("x"), None);
}

#[test]
fn layer_counts_as_generated_with_record_and_full_file() {
    assert!(is_generated(Some(true), Some(256), 8));
    assert!(is_generated(Some(true), Some(0), 0));
    assert!(!is_generated(Some(false), Some(256), 8));
    assert!(!is_generated(None, Some(256), 8));
    assert!(!is_generated(Some(true), None, 8));
    assert!(!is_generated(Some(true), Some(255), 8));
    assert!(!is_generated(Some(true), Some(288), 8));
    assert!(!is_generated(Some(true), Some(0), usize::MAX));
}

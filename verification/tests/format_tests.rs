use compare_tool::report::{format_header, format_ratio, format_sep, format_time, nice_size,
    ratio_centi};
use compare_tool::script::{bash_expand, bash_in_out_script, build_cmd, echo_command, file_name,
    massif_name, output_name, pairing_script, remove_command};
use compare_tool::text::{pad_center, pad_left, pad_right, trim};

#[test]
fn sizes_under_1024_use_bytes() {
    assert_eq!(nice_size(0), "  0.00 B  ");
    assert_eq!(nice_size(10), " 10.00 B  ");
    assert_eq!(nice_size(250), "250.00 B  ");
    assert_eq!(nice_size(1023), "1023.00 B  ");
}

#[test]
fn sizes_under_1048576_use_kib() {
    assert_eq!(nice_size(1024), "  1.00 KiB");
    assert_eq!(nice_size(1536), "  1.50 KiB");
    assert_eq!(nice_size(1048575), "1024.00 KiB");
}

#[test]
fn large_sizes_use_mib() {
    assert_eq!(nice_size(1048576), "  1.00 MiB");
    assert_eq!(nice_size(3 * 1048576 + 1048576 / 2), "  3.50 MiB");
}

#[test]
fn time_renders_milliseconds() {
    assert_eq!(format_time(0), "  0.000 s");
    assert_eq!(format_time(12_000_000), "  0.012 s");
    assert_eq!(format_time(1_234_567_890), "  1.235 s");
    assert_eq!(format_time(59_999_499_999), " 59.999 s");
}

#[test]
fn ratio_is_output_over_input_times_100() {
    assert_eq!(ratio_centi(50, 200), Some(2500));
    assert_eq!(ratio_centi(10, 10), Some(10000));
    assert_eq!(ratio_centi(0, 7), Some(0));
    assert_eq!(ratio_centi(300, 100), Some(30000));
}

#[test]
fn ratio_of_zero_input_is_indeterminate() {
    assert_eq!(ratio_centi(0, 0), None);
    assert_eq!(ratio_centi(12345, 0), None);
    assert_eq!(format_ratio(&None), "   NaN %");
}

#[test]
fn ratio_renders_two_decimals() {
    assert_eq!(format_ratio(&Some(2500)), " 25.00 %");
    assert_eq!(format_ratio(&Some(10000)), "100.00 %");
    assert_eq!(format_ratio(&Some(5)), "  0.05 %");
}

#[test]
fn padding_primitives() {
    assert_eq!(pad_left("ab".to_owned(), 5), "   ab");
    assert_eq!(pad_right("ab".to_owned(), 5), "ab   ");
    assert_eq!(pad_center("ab".to_owned(), 5), " ab  ");
    assert_eq!(pad_center("time".to_owned(), 9), "  time   ");
    assert_eq!(pad_left("abcdef".to_owned(), 3), "abcdef");
}

#[test]
fn header_line_is_aligned() {
    assert_eq!(
        format_header("file", "a.txt", 5),
        "file | a.txt |   time    |     size     |  comp. size  |  ratio   |     mem     "
    );
}

#[test]
fn separator_matches_width() {
    let sep = format_sep(5);
    assert_eq!(sep.len(), 80);
    assert!(sep.chars().all(|c| c == '-'));
}

#[test]
fn basename_is_the_part_after_the_last_slash() {
    assert_eq!(file_name("/home/u/data/in.txt"), "in.txt");
    assert_eq!(file_name("in.txt"), "in.txt");
    assert_eq!(file_name("a/b/"), "");
    assert_eq!(file_name(""), "");
}

#[test]
fn output_name_is_basename_plus_extension() {
    assert_eq!(output_name("/home/u/in.txt", "gz"), "in.txt.gz");
    assert_eq!(output_name("in.txt", "gz"), "in.txt.gz");
}

#[test]
fn output_name_depends_only_on_basename_and_extension() {
    let a = output_name("/tmp/x/in.txt", "gz");
    let b = output_name("/somewhere/else/in.txt", "gz");
    assert_eq!(a, b);
    let c = output_name("/tmp/x/in.txt", "gz");
    assert_eq!(a, c);
}

#[test]
fn scripts_bind_in_and_out() {
    assert_eq!(
        bash_in_out_script("/d/in.txt", "in.txt.gz", "gzip -9"),
        "IN=/d/in.txt\n             OUT=in.txt.gz\n             gzip -9"
    );
}

#[test]
fn command_line_without_memory_instrumentation() {
    assert_eq!(build_cmd(false, "in.txt.gz.massif", "gzip", "-9"), "gzip -9");
}

#[test]
fn command_line_with_memory_instrumentation() {
    assert_eq!(
        build_cmd(true, "in.txt.gz.massif", "gzip", "-9"),
        "valgrind -q --tool=massif --massif-out-file=in.txt.gz.massif  --detailed-freq=1 gzip -9"
    );
}

#[test]
fn pairing_script_combines_name_and_script() {
    let (out, script) = pairing_script("/d/in.txt", "gzip", "-9", "gz", false);
    assert_eq!(out, "in.txt.gz");
    assert_eq!(
        script,
        "IN=/d/in.txt\n             OUT=in.txt.gz\n             gzip -9"
    );
    assert_eq!(massif_name("in.txt.gz"), "in.txt.gz.massif");
    assert_eq!(remove_command("in.txt.gz"), "rm in.txt.gz");
    assert_eq!(echo_command("~/data/*.txt"), "echo ~/data/*.txt");
}

#[test]
fn expansion_trims_captured_output() {
    assert_eq!(bash_expand(true, "  /home/u/in.txt\n").unwrap(), "/home/u/in.txt");
    assert_eq!(bash_expand(true, "\t\r\n").unwrap(), "");
    assert!(bash_expand(false, "anything").is_err());
}

#[test]
fn trim_removes_surrounding_whitespace_only() {
    assert_eq!(trim("  a b  "), "a b");
    assert_eq!(trim("abc"), "abc");
    assert_eq!(trim(""), "");
}

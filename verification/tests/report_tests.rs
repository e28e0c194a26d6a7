use compare_tool::metrics::parse_report;
use compare_tool::run::{
    column_width, evaluate_run, format_row_line, profile_banner, render_report, render_row,
    CommandData, InputData, RunOutcome,
};

fn s(x: &str) -> String {
    x.to_owned()
}

fn input(unexpanded: &str, size: u64) -> InputData {
    InputData {
        unexpanded: s(unexpanded),
        expanded: s(unexpanded),
        size,
    }
}

fn command(visible: &str, hidden: &str, ext: &str) -> CommandData {
    CommandData {
        unexpanded_visible: s(visible),
        unexpanded_hidden: s(hidden),
        output_extension: s(ext),
    }
}

fn ok_outcome(elapsed_ns: u64, out_size: u64) -> RunOutcome {
    RunOutcome {
        success: true,
        elapsed_ns,
        stdout: String::new(),
        stderr: String::new(),
        out_size: Some(out_size),
        mem_report: None,
    }
}

#[test]
fn peak_memory_is_the_maximum_sample() {
    assert_eq!(parse_report(b"mem_heap_B=100\nmem_heap_B=250\n"), Ok(250));
    assert_eq!(parse_report(b"mem_heap_B=250\nmem_heap_B=100\n"), Ok(250));
    assert_eq!(
        parse_report(b"snapshot=1\nmem_heap_B=7\nmem_stacks_B=9\n"),
        Ok(7)
    );
}

#[test]
fn report_without_samples_is_an_error() {
    assert!(parse_report(b"").is_err());
    assert!(parse_report(b"snapshot=1\n").is_err());
    assert!(parse_report(b"mem_heap_b=5\n").is_err());
}

#[test]
fn non_numeric_sample_is_an_error() {
    assert!(parse_report(b"mem_heap_B=\n").is_err());
    assert!(parse_report(b"mem_heap_B=12a\n").is_err());
    assert!(parse_report(b"mem_heap_B=250\nmem_heap_B=x\n").is_err());
}

#[test]
fn oversized_sample_is_an_error() {
    assert!(parse_report(b"mem_heap_B=99999999999999999999\n").is_err());
    assert_eq!(parse_report(b"mem_heap_B=18446744073709551615\n"), Ok(u64::MAX));
}

#[test]
fn samples_tolerate_carriage_returns_and_zeros() {
    assert_eq!(parse_report(b"mem_heap_B=7\r\n"), Ok(7));
    assert_eq!(parse_report(b"mem_heap_B=010\n"), Ok(10));
}

#[test]
fn failed_run_makes_an_err_row() {
    let o = RunOutcome {
        success: false,
        elapsed_ns: 5_000_000,
        stdout: String::new(),
        stderr: s("boom\n"),
        out_size: None,
        mem_report: None,
    };
    let r = evaluate_run("cmd", "gzip", &o, 10, false);
    assert_eq!(r.kind, "ERR");
    assert!(!r.success);
    assert_eq!(r.output_size, None);
    assert_eq!(r.ratio, None);
    assert_eq!(r.mem_peak, None);
}

#[test]
fn missing_output_file_makes_an_err_row() {
    let o = RunOutcome {
        out_size: None,
        ..ok_outcome(1, 0)
    };
    let r = evaluate_run("cmd", "gzip", &o, 10, false);
    assert_eq!(r.kind, "ERR");
    assert!(!r.success);
}

#[test]
fn missing_or_bad_instrumentation_report_makes_an_err_row() {
    let o = ok_outcome(1, 5);
    let r = evaluate_run("cmd", "gzip", &o, 10, true);
    assert_eq!(r.kind, "ERR");
    let o2 = RunOutcome {
        mem_report: Some(b"no samples here\n".to_vec()),
        ..ok_outcome(1, 5)
    };
    let r2 = evaluate_run("cmd", "gzip", &o2, 10, true);
    assert_eq!(r2.kind, "ERR");
}

#[test]
fn successful_run_keeps_its_kind_and_metrics() {
    let o = ok_outcome(12_000_000, 5);
    let r = evaluate_run("cmd", "gzip", &o, 10, false);
    assert_eq!(r.kind, "cmd");
    assert!(r.success);
    assert_eq!(r.output_size, Some(5));
    assert_eq!(r.ratio, Some(5000));
    assert_eq!(r.mem_peak, None);
}

#[test]
fn empty_input_passes_the_indeterminate_ratio_through() {
    let o = ok_outcome(1, 5);
    let r = evaluate_run("cmd", "gzip", &o, 0, false);
    assert!(r.success);
    assert_eq!(r.ratio, None);
    let line = format_row_line(&r, 4);
    assert!(line.contains("   NaN %"));
}

#[test]
fn memory_peak_renders_in_the_memory_column() {
    let o = RunOutcome {
        mem_report: Some(b"mem_heap_B=100\nmem_heap_B=250\n".to_vec()),
        ..ok_outcome(1, 5)
    };
    let r = evaluate_run("cmd", "gzip", &o, 10, true);
    assert_eq!(r.mem_peak, Some(250));
    let line = format_row_line(&r, 4);
    assert!(line.contains("250.00 B  "));
}

#[test]
fn shared_column_width_is_the_longest_label() {
    let inputs = vec![input("a.txt", 1), input("longer-name.txt", 1)];
    let commands = vec![command("gzip", "-9", "gz")];
    assert_eq!(column_width(&inputs, &commands), 15);
    assert_eq!(column_width(&Vec::new(), &Vec::new()), 0);
}

#[test]
fn one_input_table_with_one_command_row() {
    let inputs = vec![input("a.txt", 10)];
    let commands = vec![command("gzip", "-9", "gz")];
    let outcomes = vec![ok_outcome(12_000_000, 5)];
    let pad = column_width(&inputs, &commands);
    assert_eq!(pad, 5);
    let report = render_report(true, false, &inputs, &commands, &outcomes, pad);
    let sep = "-".repeat(80);
    let header =
        "file | a.txt |   time    |     size     |  comp. size  |  ratio   |     mem     ";
    let row =
        "cmd  | gzip  |   0.012 s |    10.00 B   |     5.00 B   |  50.00 % |      -      ";
    assert_eq!(report, format!("{}\n{}\n{}\n{}\n", header, sep, row, sep));
}

#[test]
fn one_command_table_with_rows_in_input_order() {
    let inputs = vec![input("in1.txt", 4), input("in2.txt", 8)];
    let commands = vec![command("cat", "", "txt")];
    let outcomes = vec![ok_outcome(1_000_000, 4), ok_outcome(2_000_000, 8)];
    let pad = column_width(&inputs, &commands);
    let report = render_report(false, false, &inputs, &commands, &outcomes, pad);
    let lines: Vec<&str> = report.split('\n').collect();
    assert_eq!(lines.len(), 6);
    assert!(lines[0].starts_with("cmd  | cat"));
    assert!(lines[2].starts_with("file | in1.txt"));
    assert!(lines[3].starts_with("file | in2.txt"));
    assert_eq!(lines[5], "");
}

#[test]
fn a_failing_pairing_does_not_stop_the_following_ones() {
    let inputs = vec![input("a.txt", 10)];
    let commands = vec![command("bad-cmd", "", "gz"), command("gzip", "-9", "gz")];
    let failing = RunOutcome {
        success: false,
        elapsed_ns: 1_000_000,
        stdout: String::new(),
        stderr: s("boom\n"),
        out_size: None,
        mem_report: None,
    };
    let outcomes = vec![failing, ok_outcome(2_000_000, 5)];
    let pad = column_width(&inputs, &commands);
    let report = render_report(true, false, &inputs, &commands, &outcomes, pad);
    assert!(report.contains("ERR  | bad-cmd"));
    assert!(report.contains("boom\n"));
    assert!(report.contains("   NaN %"));
    let err_at = report.find("ERR  | bad-cmd").unwrap();
    let ok_at = report.find("cmd  | gzip").unwrap();
    assert!(err_at < ok_at);
}

#[test]
fn captured_streams_are_framed_by_separators() {
    let inputs = vec![input("a.txt", 10)];
    let commands = vec![command("gzip", "-9", "gz")];
    let chatty = RunOutcome {
        stdout: s("note\n"),
        ..ok_outcome(1_000_000, 5)
    };
    let outcomes = vec![chatty];
    let pad = column_width(&inputs, &commands);
    let report = render_report(true, false, &inputs, &commands, &outcomes, pad);
    let sep = "-".repeat(80);
    assert!(report.contains(&format!("{}\nnote\n{}\n", sep, sep)));
}

#[test]
fn err_rows_render_through_render_row() {
    let o = RunOutcome {
        success: false,
        elapsed_ns: 1_000_000,
        stdout: s("out\n"),
        stderr: s("err\n"),
        out_size: None,
        mem_report: None,
    };
    let r = evaluate_run("cmd", "gzip", &o, 10, false);
    let block = render_row(&r, 4);
    let sep = "-".repeat(79);
    assert!(block.starts_with("ERR  | gzip |"));
    assert!(block.contains(&format!("{}\nout\n{}\nerr\n{}\n", sep, sep, sep)));
}

#[test]
fn memory_mode_report_shows_the_peak() {
    let inputs = vec![input("a.txt", 1000)];
    let commands = vec![command("gzip", "-9", "gz")];
    let with_mem = RunOutcome {
        mem_report: Some(b"mem_heap_B=100\nmem_heap_B=250\n".to_vec()),
        ..ok_outcome(1_000_000, 500)
    };
    let outcomes = vec![with_mem];
    let pad = column_width(&inputs, &commands);
    let report = render_report(true, true, &inputs, &commands, &outcomes, pad);
    assert!(report.contains("250.00 B  "));
    assert!(report.contains("cmd  | gzip"));
}

#[test]
fn banner_names_the_profile() {
    assert_eq!(profile_banner("quick"), "\nProfile: quick\n\n");
}

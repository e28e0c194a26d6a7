//! Evaluation of one executed pairing into a report row, and the assembly of
//! whole tables and reports: one table per input with the commands as rows,
//! or one table per command with the inputs as rows.
use vstd::prelude::*;

use crate::metrics::{parse_report, report_peak_spec};
use crate::report::{
    format_header, format_ratio, format_sep, format_time, header_spec, nice_size, nice_size_spec,
    ratio_centi, ratio_centi_spec, ratio_field, sep_spec, time_field,
};
use crate::text::{centered, left_pad, pad_center, pad_left, pad_right, right_pad};

verus! {

/// One input file: its path expression, the expanded concrete path, and its
/// size in bytes.
pub struct InputData {
    pub unexpanded: String,
    pub expanded: String,
    pub size: u64,
}

/// The mathematical image of an `InputData`.
pub ghost struct InputDataV {
    pub unexpanded: Seq<char>,
    pub expanded: Seq<char>,
    pub size: u64,
}

impl View for InputData {
    type V = InputDataV;

    open spec fn view(&self) -> InputDataV {
        InputDataV {
            unexpanded: self.unexpanded@,
            expanded: self.expanded@,
            size: self.size,
        }
    }
}

/// One command: the displayed text, the appended hidden arguments, and the
/// output file extension.
pub struct CommandData {
    pub unexpanded_visible: String,
    pub unexpanded_hidden: String,
    pub output_extension: String,
}

/// The mathematical image of a `CommandData`.
pub ghost struct CommandDataV {
    pub unexpanded_visible: Seq<char>,
    pub unexpanded_hidden: Seq<char>,
    pub output_extension: Seq<char>,
}

impl View for CommandData {
    type V = CommandDataV;

    open spec fn view(&self) -> CommandDataV {
        CommandDataV {
            unexpanded_visible: self.unexpanded_visible@,
            unexpanded_hidden: self.unexpanded_hidden@,
            output_extension: self.output_extension@,
        }
    }
}

/// What one run of a pairing's script left behind: the exit flag, the
/// elapsed wall-clock time, the captured streams, the output file's size if
/// one exists, and the raw instrumentation report if one was requested.
pub struct RunOutcome {
    pub success: bool,
    pub elapsed_ns: u64,
    pub stdout: String,
    pub stderr: String,
    pub out_size: Option<u64>,
    pub mem_report: Option<Vec<u8>>,
}

/// The mathematical image of a `RunOutcome`.
pub ghost struct RunOutcomeV {
    pub success: bool,
    pub elapsed_ns: u64,
    pub stdout: Seq<char>,
    pub stderr: Seq<char>,
    pub out_size: Option<u64>,
    pub mem_report: Option<Seq<u8>>,
}

impl View for RunOutcome {
    type V = RunOutcomeV;

    open spec fn view(&self) -> RunOutcomeV {
        RunOutcomeV {
            success: self.success,
            elapsed_ns: self.elapsed_ns,
            stdout: self.stdout@,
            stderr: self.stderr@,
            out_size: self.out_size,
            mem_report: match self.mem_report {
                Some(v) => Some(v@),
                None => None,
            },
        }
    }
}

/// One evaluated pairing, ready to render: the row tag, the label, the
/// measured figures, and the captured streams.
pub struct RunResult {
    pub kind: String,
    pub label: String,
    pub elapsed_ns: u64,
    pub input_size: u64,
    pub output_size: Option<u64>,
    pub ratio: Option<u128>,
    pub mem_peak: Option<u64>,
    pub stdout: String,
    pub stderr: String,
    pub success: bool,
}

/// The mathematical image of a `RunResult`.
pub ghost struct RunResultV {
    pub kind: Seq<char>,
    pub label: Seq<char>,
    pub elapsed_ns: u64,
    pub input_size: u64,
    pub output_size: Option<u64>,
    pub ratio: Option<u128>,
    pub mem_peak: Option<u64>,
    pub stdout: Seq<char>,
    pub stderr: Seq<char>,
    pub success: bool,
}

impl View for RunResult {
    type V = RunResultV;

    open spec fn view(&self) -> RunResultV {
        RunResultV {
            kind: self.kind@,
            label: self.label@,
            elapsed_ns: self.elapsed_ns,
            input_size: self.input_size,
            output_size: self.output_size,
            ratio: self.ratio,
            mem_peak: self.mem_peak,
            stdout: self.stdout@,
            stderr: self.stderr@,
            success: self.success,
        }
    }
}

/// The row a pairing gets when it failed: tagged `ERR`, with no output size,
/// an indeterminate ratio and no memory figure.
pub open spec fn failed_result(label: Seq<char>, o: RunOutcomeV, input_size: u64) -> RunResultV {
    RunResultV {
        kind: "ERR"@,
        label: label,
        elapsed_ns: o.elapsed_ns,
        input_size: input_size,
        output_size: None,
        ratio: None,
        mem_peak: None,
        stdout: o.stdout,
        stderr: o.stderr,
        success: false,
    }
}

/// The ratio of output to input size, indeterminate when the input is empty.
pub open spec fn ratio_opt(out_size: u64, input_size: u64) -> Option<u128> {
    if input_size == 0 {
        None
    } else {
        Some(ratio_centi_spec(out_size as nat, input_size as nat) as u128)
    }
}

/// The row a pairing gets when it succeeded and its metrics were extracted.
pub open spec fn success_result(
    kind: Seq<char>,
    label: Seq<char>,
    o: RunOutcomeV,
    input_size: u64,
    out_size: u64,
    peak: Option<u64>,
) -> RunResultV {
    RunResultV {
        kind: kind,
        label: label,
        elapsed_ns: o.elapsed_ns,
        input_size: input_size,
        output_size: Some(out_size),
        ratio: ratio_opt(out_size, input_size),
        mem_peak: peak,
        stdout: o.stdout,
        stderr: o.stderr,
        success: true,
    }
}

/// How an outcome is judged: a non-zero exit, a missing output file, or a
/// missing or unreadable instrumentation report make a failed row; otherwise
/// the row carries the size, ratio and (when asked for) peak-memory figures.
pub open spec fn evaluate_spec(
    kind: Seq<char>,
    label: Seq<char>,
    o: RunOutcomeV,
    input_size: u64,
    with_mem: bool,
) -> RunResultV {
    if !o.success {
        failed_result(label, o, input_size)
    } else {
        match o.out_size {
            None => failed_result(label, o, input_size),
            Some(z) => if with_mem {
                match o.mem_report {
                    None => failed_result(label, o, input_size),
                    Some(rep) => match report_peak_spec(rep) {
                        Err(_) => failed_result(label, o, input_size),
                        Ok(peak) => success_result(kind, label, o, input_size, z, Some(peak)),
                    },
                }
            } else {
                success_result(kind, label, o, input_size, z, None)
            },
        }
    }
}

fn failed_run(label: &str, outcome: &RunOutcome, input_size: u64) -> (r: RunResult)
    ensures
        r@ == failed_result(label@, outcome@, input_size),
{
    RunResult {
        kind: String::from_str("ERR"),
        label: label.to_owned(),
        elapsed_ns: outcome.elapsed_ns,
        input_size: input_size,
        output_size: None,
        ratio: None,
        mem_peak: None,
        stdout: outcome.stdout.clone(),
        stderr: outcome.stderr.clone(),
        success: false,
    }
}

/// Judges one executed pairing. A failed run never aborts anything: it only
/// yields a row tagged `ERR`.
pub fn evaluate_run(
    kind: &str,
    label: &str,
    outcome: &RunOutcome,
    input_size: u64,
    with_mem: bool,
) -> (r: RunResult)
    ensures
        r@ == evaluate_spec(kind@, label@, outcome@, input_size, with_mem),
        !outcome.success ==> r.kind@ == "ERR"@ && !r.success,
{
    if !outcome.success {
        return failed_run(label, outcome, input_size);
    }
    let out_size = match &outcome.out_size {
        None => {
            return failed_run(label, outcome, input_size);
        },
        Some(z) => *z,
    };
    let peak: Option<u64> = if with_mem {
        match &outcome.mem_report {
            None => {
                return failed_run(label, outcome, input_size);
            },
            Some(rep) => match parse_report(rep.as_slice()) {
                Err(_) => {
                    return failed_run(label, outcome, input_size);
                },
                Ok(p) => Some(p),
            },
        }
    } else {
        None
    };
    RunResult {
        kind: kind.to_owned(),
        label: label.to_owned(),
        elapsed_ns: outcome.elapsed_ns,
        input_size: input_size,
        output_size: Some(out_size),
        ratio: ratio_centi(out_size, input_size),
        mem_peak: peak,
        stdout: outcome.stdout.clone(),
        stderr: outcome.stderr.clone(),
        success: true,
    }
}

/// The output-size column: empty when the run failed.
pub open spec fn out_size_field(o: Option<u64>) -> Seq<char> {
    match o {
        Some(z) => nice_size_spec(z as nat),
        None => Seq::empty(),
    }
}

/// The memory column: a dash when no figure was taken.
pub open spec fn mem_field(o: Option<u64>) -> Seq<char> {
    match o {
        Some(m) => nice_size_spec(m as nat),
        None => seq!['-'],
    }
}

/// One data line of a table.
pub open spec fn row_line_spec(res: RunResultV, pad: nat) -> Seq<char> {
    right_pad(res.kind, 4) + " | "@ + right_pad(res.label, pad) + " | "@ + time_field(
        res.elapsed_ns as nat,
    ) + " | "@ + left_pad(nice_size_spec(res.input_size as nat), 12) + " | "@ + left_pad(
        out_size_field(res.output_size),
        12,
    ) + " | "@ + ratio_field(res.ratio) + " | "@ + centered(mem_field(res.mem_peak), 12)
}

/// Renders one data line.
pub fn format_row_line(res: &RunResult, padding: usize) -> (r: String)
    ensures
        r@ == row_line_spec(res@, padding as nat),
{
    let mut p = pad_right(res.kind.clone(), 4);
    p.append(" | ");
    let v = pad_right(res.label.clone(), padding);
    p.append(v.as_str());
    p.append(" | ");
    let t = format_time(res.elapsed_ns);
    p.append(t.as_str());
    p.append(" | ");
    let s = pad_left(nice_size(res.input_size), 12);
    p.append(s.as_str());
    p.append(" | ");
    let z = match &res.output_size {
        Some(z) => nice_size(*z),
        None => String::new(),
    };
    let z = pad_left(z, 12);
    p.append(z.as_str());
    p.append(" | ");
    let rt = format_ratio(&res.ratio);
    p.append(rt.as_str());
    p.append(" | ");
    let m = match &res.mem_peak {
        Some(m) => nice_size(*m),
        None => {
            let d = String::from_str("-");
            proof {
                reveal_strlit("-");
                assert(d@ =~= seq!['-']);
            }
            d
        },
    };
    let m = pad_center(m, 12);
    p.append(m.as_str());
    proof {
        assert(p@ =~= row_line_spec(res@, padding as nat));
    }
    p
}

/// A full row block: the data line, and on a success with captured standard
/// output, or on a failure with captured streams, the streams framed by
/// separator lines.
pub open spec fn row_block_spec(res: RunResultV, pad: nat) -> Seq<char> {
    let line = row_line_spec(res, pad) + "\n"@;
    let sep = sep_spec(pad) + "\n"@;
    if res.success {
        if res.stdout.len() > 0 {
            line + sep + res.stdout + sep
        } else {
            line
        }
    } else {
        line + (if res.stdout.len() > 0 {
            sep + res.stdout
        } else {
            Seq::empty()
        }) + (if res.stdout.len() > 0 || res.stderr.len() > 0 {
            sep
        } else {
            Seq::empty()
        }) + (if res.stderr.len() > 0 {
            res.stderr + sep
        } else {
            Seq::empty()
        })
    }
}

/// Renders a full row block.
pub fn render_row(res: &RunResult, padding: usize) -> (r: String)
    requires
        padding <= usize::MAX - 75,
    ensures
        r@ == row_block_spec(res@, padding as nat),
{
    let mut p = format_row_line(res, padding);
    p.append("\n");
    let sep = format_sep(padding);
    if res.success {
        if res.stdout.as_str().unicode_len() > 0 {
            p.append(sep.as_str());
            p.append("\n");
            p.append(res.stdout.as_str());
            p.append(sep.as_str());
            p.append("\n");
        }
    } else {
        let a = res.stdout.as_str().unicode_len() > 0;
        let b = res.stderr.as_str().unicode_len() > 0;
        if a {
            p.append(sep.as_str());
            p.append("\n");
            p.append(res.stdout.as_str());
        }
        if a || b {
            p.append(sep.as_str());
            p.append("\n");
        }
        if b {
            p.append(res.stderr.as_str());
            p.append(sep.as_str());
            p.append("\n");
        }
    }
    proof {
        assert(p@ =~= row_block_spec(res@, padding as nat));
    }
    p
}

/// The larger of two naturals.
pub open spec fn max_nat(a: nat, b: nat) -> nat {
    if a >= b {
        a
    } else {
        b
    }
}

/// The length of the longest label in a sequence.
pub open spec fn width_spec(labels: Seq<Seq<char>>) -> nat
    decreases labels.len(),
{
    if labels.len() == 0 {
        0
    } else {
        max_nat(width_spec(labels.drop_last()), labels.last().len())
    }
}

/// The shared column width: the length of the longest input or command
/// label.
pub open spec fn report_width(inputs: Seq<InputDataV>, commands: Seq<CommandDataV>) -> nat {
    max_nat(
        width_spec(inputs.map_values(|x: InputDataV| x.unexpanded)),
        width_spec(commands.map_values(|x: CommandDataV| x.unexpanded_visible)),
    )
}

/// Computes the shared column width once per invocation.
pub fn column_width(inputs: &Vec<InputData>, commands: &Vec<CommandData>) -> (r: usize)
    ensures
        r as nat == report_width(
            inputs@.map_values(|x: InputData| x@),
            commands@.map_values(|x: CommandData| x@),
        ),
{
    let ghost ilabels = inputs@.map_values(|x: InputData| x@).map_values(
        |x: InputDataV| x.unexpanded,
    );
    let ghost clabels = commands@.map_values(|x: CommandData| x@).map_values(
        |x: CommandDataV| x.unexpanded_visible,
    );
    let mut w: usize = 0;
    let mut i: usize = 0;
    proof {
        assert(ilabels.take(0) =~= Seq::<Seq<char>>::empty());
    }
    while i < inputs.len()
        invariant
            i <= inputs@.len(),
            ilabels == inputs@.map_values(|x: InputData| x@).map_values(
                |x: InputDataV| x.unexpanded,
            ),
            ilabels.len() == inputs@.len(),
            w as nat == width_spec(ilabels.take(i as int)),
        decreases inputs@.len() - i,
    {
        let li = inputs[i].unexpanded.as_str().unicode_len();
        proof {
            assert(ilabels.take(i as int + 1).drop_last() =~= ilabels.take(i as int));
            assert(ilabels[i as int] == inputs@[i as int].unexpanded@);
        }
        if li > w {
            w = li;
        }
        i = i + 1;
    }
    proof {
        assert(ilabels.take(inputs@.len() as int) =~= ilabels);
    }
    let wa = w;
    let mut j: usize = 0;
    let mut v: usize = 0;
    proof {
        assert(clabels.take(0) =~= Seq::<Seq<char>>::empty());
    }
    while j < commands.len()
        invariant
            j <= commands@.len(),
            clabels == commands@.map_values(|x: CommandData| x@).map_values(
                |x: CommandDataV| x.unexpanded_visible,
            ),
            clabels.len() == commands@.len(),
            v as nat == width_spec(clabels.take(j as int)),
        decreases commands@.len() - j,
    {
        let lj = commands[j].unexpanded_visible.as_str().unicode_len();
        proof {
            assert(clabels.take(j as int + 1).drop_last() =~= clabels.take(j as int));
            assert(clabels[j as int] == commands@[j as int].unexpanded_visible@);
        }
        if lj > v {
            v = lj;
        }
        j = j + 1;
    }
    proof {
        assert(clabels.take(commands@.len() as int) =~= clabels);
    }
    if wa >= v {
        wa
    } else {
        v
    }
}

/// Everything one report depends on, in mathematical form.
pub ghost struct ReportCtx {
    pub inputs: Seq<InputDataV>,
    pub commands: Seq<CommandDataV>,
    pub outcomes: Seq<RunOutcomeV>,
    pub compare_commands: bool,
    pub with_mem: bool,
    pub pad: nat,
}

/// How many tables the report has: one per input in compare-commands mode,
/// one per command otherwise.
pub open spec fn outer_len(c: ReportCtx) -> nat {
    if c.compare_commands {
        c.inputs.len()
    } else {
        c.commands.len()
    }
}

/// How many rows each table has.
pub open spec fn inner_len(c: ReportCtx) -> nat {
    if c.compare_commands {
        c.commands.len()
    } else {
        c.inputs.len()
    }
}

/// Where the outcome of the pairing at (outer, inner) sits in the flat,
/// row-major outcome sequence.
pub open spec fn pairing_index(c: ReportCtx, outer: int, inner: int) -> int {
    outer * inner_len(c) + inner
}

/// The evaluated row of the pairing at (outer, inner).
pub open spec fn result_at(c: ReportCtx, outer: int, inner: int) -> RunResultV {
    if c.compare_commands {
        evaluate_spec(
            "cmd"@,
            c.commands[inner].unexpanded_visible,
            c.outcomes[pairing_index(c, outer, inner)],
            c.inputs[outer].size,
            c.with_mem,
        )
    } else {
        evaluate_spec(
            "file"@,
            c.inputs[inner].unexpanded,
            c.outcomes[pairing_index(c, outer, inner)],
            c.inputs[inner].size,
            c.with_mem,
        )
    }
}

/// The first `j` row blocks of one table.
pub open spec fn rows_up_to(c: ReportCtx, outer: int, j: nat) -> Seq<char>
    decreases j,
{
    if j == 0 {
        Seq::empty()
    } else {
        rows_up_to(c, outer, (j - 1) as nat) + row_block_spec(
            result_at(c, outer, j - 1),
            c.pad,
        )
    }
}

/// The header of one table: the group's kind tag and label.
pub open spec fn header_of(c: ReportCtx, outer: int) -> Seq<char> {
    if c.compare_commands {
        header_spec("file"@, c.inputs[outer].unexpanded, c.pad)
    } else {
        header_spec("cmd"@, c.commands[outer].unexpanded_visible, c.pad)
    }
}

/// One whole table: header, separator, every row block, closing separator.
pub open spec fn table_spec(c: ReportCtx, outer: int) -> Seq<char> {
    header_of(c, outer) + "\n"@ + sep_spec(c.pad) + "\n"@ + rows_up_to(c, outer, inner_len(c))
        + sep_spec(c.pad) + "\n"@
}

/// The first `k` tables of the report.
pub open spec fn tables_up_to(c: ReportCtx, k: nat) -> Seq<char>
    decreases k,
{
    if k == 0 {
        Seq::empty()
    } else {
        tables_up_to(c, (k - 1) as nat) + table_spec(c, k - 1)
    }
}

/// The whole report: the concatenation of every group's table, each holding
/// a row for every pairing of the group.
pub open spec fn report_spec(c: ReportCtx) -> Seq<char> {
    tables_up_to(c, outer_len(c))
}

/// The mathematical image of the report's inputs.
pub open spec fn make_ctx(
    compare_commands: bool,
    with_mem: bool,
    inputs: Seq<InputData>,
    commands: Seq<CommandData>,
    outcomes: Seq<RunOutcome>,
    pad: nat,
) -> ReportCtx {
    ReportCtx {
        inputs: inputs.map_values(|x: InputData| x@),
        commands: commands.map_values(|x: CommandData| x@),
        outcomes: outcomes.map_values(|x: RunOutcome| x@),
        compare_commands: compare_commands,
        with_mem: with_mem,
        pad: pad,
    }
}

proof fn lemma_flat_index_injective(m: int, o1: int, i1: int, o2: int, i2: int)
    requires
        m > 0,
        0 <= i1 < m,
        0 <= i2 < m,
        o1 >= 0,
        o2 >= 0,
        o1 * m + i1 == o2 * m + i2,
    ensures
        o1 == o2,
        i1 == i2,
{
    assert(o1 == o2) by (nonlinear_arith)
        requires
            m > 0,
            0 <= i1 < m,
            0 <= i2 < m,
            o1 >= 0,
            o2 >= 0,
            o1 * m + i1 == o2 * m + i2,
    ;
}

/// Law: one pairing's outcome never touches another pairing's row. If two
/// outcome sequences differ only at the pairing (outer, inner), every other
/// pairing's evaluated row is the same in both reports.
pub proof fn lemma_pairing_isolated(c1: ReportCtx, c2: ReportCtx, outer: int, inner: int)
    requires
        c1.inputs == c2.inputs,
        c1.commands == c2.commands,
        c1.compare_commands == c2.compare_commands,
        c1.with_mem == c2.with_mem,
        c1.pad == c2.pad,
        c1.outcomes.len() == c2.outcomes.len(),
        0 <= outer < outer_len(c1),
        0 <= inner < inner_len(c1),
        forall|t: int|
            0 <= t < c1.outcomes.len() && t != pairing_index(c1, outer, inner)
                ==> c1.outcomes[t] == c2.outcomes[t],
    ensures
        forall|o: int, i: int|
            0 <= o < outer_len(c1) && 0 <= i < inner_len(c1) && !(o == outer && i == inner)
                && pairing_index(c1, o, i) < c1.outcomes.len() ==> result_at(c1, o, i)
                == result_at(c2, o, i),
{
    assert forall|o: int, i: int|
        0 <= o < outer_len(c1) && 0 <= i < inner_len(c1) && !(o == outer && i == inner)
            && pairing_index(c1, o, i) < c1.outcomes.len() implies result_at(c1, o, i)
        == result_at(c2, o, i) by {
        let m = inner_len(c1) as int;
        if pairing_index(c1, o, i) == pairing_index(c1, outer, inner) {
            lemma_flat_index_injective(m, o, i, outer, inner);
        }
        assert(pairing_index(c1, o, i) != pairing_index(c1, outer, inner));
        assert(pairing_index(c1, o, i) >= 0) by (nonlinear_arith)
            requires
                o >= 0,
                i >= 0,
                m > 0,
                pairing_index(c1, o, i) == o * m + i,
        ;
    }
}

/// Renders the whole report for every pairing's outcome, in the row-major
/// order the orchestrator runs them: outer groups by input when commands are
/// compared, by command otherwise.
#[verifier::rlimit(100)]
pub fn render_report(
    compare_commands: bool,
    with_mem: bool,
    inputs: &Vec<InputData>,
    commands: &Vec<CommandData>,
    outcomes: &Vec<RunOutcome>,
    padding: usize,
) -> (r: String)
    requires
        compare_commands ==> outcomes@.len() == inputs@.len() * commands@.len(),
        !compare_commands ==> outcomes@.len() == commands@.len() * inputs@.len(),
        padding <= usize::MAX - 75,
    ensures
        r@ == report_spec(
            make_ctx(compare_commands, with_mem, inputs@, commands@, outcomes@, padding as nat),
        ),
{
    let ghost c = make_ctx(compare_commands, with_mem, inputs@, commands@, outcomes@,
        padding as nat);
    let mut acc = String::new();
    let total = outcomes.len();
    if compare_commands {
        let n = inputs.len();
        let m = commands.len();
        let mut i: usize = 0;
        while i < n
            invariant
                i <= n,
                n == inputs@.len(),
                m == commands@.len(),
                outcomes@.len() == n * m,
                n * m <= usize::MAX,
                padding <= usize::MAX - 75,
                c == make_ctx(true, with_mem, inputs@, commands@, outcomes@, padding as nat),
                acc@ == tables_up_to(c, i as nat),
            decreases n - i,
        {
            let h = format_header("file", inputs[i].unexpanded.as_str(), padding);
            acc.append(h.as_str());
            acc.append("\n");
            let sep = format_sep(padding);
            acc.append(sep.as_str());
            acc.append("\n");
            let mut j: usize = 0;
            while j < m
                invariant
                    i < n,
                    j <= m,
                    n == inputs@.len(),
                    m == commands@.len(),
                    outcomes@.len() == n * m,
                    n * m <= usize::MAX,
                    padding <= usize::MAX - 75,
                    c == make_ctx(true, with_mem, inputs@, commands@, outcomes@, padding as nat),
                    sep@ == sep_spec(c.pad),
                    acc@ == tables_up_to(c, i as nat) + header_of(c, i as int) + "\n"@ + sep_spec(
                        c.pad,
                    ) + "\n"@ + rows_up_to(c, i as int, j as nat),
                decreases m - j,
            {
                proof {
                    assert((i as int) * (m as int) + (j as int) < (n as int) * (m as int))
                        by (nonlinear_arith)
                        requires
                            (i as int) < (n as int),
                            (j as int) < (m as int),
                            0 <= (i as int),
                            0 <= (j as int),
                    ;
                }
                let idx = i * m + j;
                let res = evaluate_run(
                    "cmd",
                    commands[j].unexpanded_visible.as_str(),
                    &outcomes[idx],
                    inputs[i].size,
                    with_mem,
                );
                let row = render_row(&res, padding);
                acc.append(row.as_str());
                proof {
                    assert(inner_len(c) == m as nat);
                    assert(pairing_index(c, i as int, j as int) == idx as int);
                    assert(c.outcomes[idx as int] == outcomes@[idx as int]@);
                    assert(c.commands[j as int] == commands@[j as int]@);
                    assert(c.inputs[i as int] == inputs@[i as int]@);
                    assert(res@ == result_at(c, i as int, j as int));
                    assert(rows_up_to(c, i as int, (j + 1) as nat) == rows_up_to(
                        c,
                        i as int,
                        j as nat,
                    ) + row_block_spec(result_at(c, i as int, j as int), c.pad));
                    assert(acc@ =~= tables_up_to(c, i as nat) + header_of(c, i as int) + "\n"@
                        + sep_spec(c.pad) + "\n"@ + rows_up_to(c, i as int, (j + 1) as nat));
                }
                j = j + 1;
            }
            acc.append(sep.as_str());
            acc.append("\n");
            proof {
                assert(acc@ =~= tables_up_to(c, (i + 1) as nat));
            }
            i = i + 1;
        }
        proof {
            assert(outer_len(c) == n as nat);
        }
    } else {
        let n = commands.len();
        let m = inputs.len();
        let mut i: usize = 0;
        while i < n
            invariant
                i <= n,
                n == commands@.len(),
                m == inputs@.len(),
                outcomes@.len() == n * m,
                n * m <= usize::MAX,
                padding <= usize::MAX - 75,
                c == make_ctx(false, with_mem, inputs@, commands@, outcomes@, padding as nat),
                acc@ == tables_up_to(c, i as nat),
            decreases n - i,
        {
            let h = format_header("cmd", commands[i].unexpanded_visible.as_str(), padding);
            acc.append(h.as_str());
            acc.append("\n");
            let sep = format_sep(padding);
            acc.append(sep.as_str());
            acc.append("\n");
            let mut j: usize = 0;
            while j < m
                invariant
                    i < n,
                    j <= m,
                    n == commands@.len(),
                    m == inputs@.len(),
                    outcomes@.len() == n * m,
                    n * m <= usize::MAX,
                    padding <= usize::MAX - 75,
                    c == make_ctx(false, with_mem, inputs@, commands@, outcomes@, padding as nat),
                    sep@ == sep_spec(c.pad),
                    acc@ == tables_up_to(c, i as nat) + header_of(c, i as int) + "\n"@ + sep_spec(
                        c.pad,
                    ) + "\n"@ + rows_up_to(c, i as int, j as nat),
                decreases m - j,
            {
                proof {
                    assert((i as int) * (m as int) + (j as int) < (n as int) * (m as int))
                        by (nonlinear_arith)
                        requires
                            (i as int) < (n as int),
                            (j as int) < (m as int),
                            0 <= (i as int),
                            0 <= (j as int),
                    ;
                }
                let idx = i * m + j;
                let res = evaluate_run(
                    "file",
                    inputs[j].unexpanded.as_str(),
                    &outcomes[idx],
                    inputs[j].size,
                    with_mem,
                );
                let row = render_row(&res, padding);
                acc.append(row.as_str());
                proof {
                    assert(inner_len(c) == m as nat);
                    assert(pairing_index(c, i as int, j as int) == idx as int);
                    assert(c.outcomes[idx as int] == outcomes@[idx as int]@);
                    assert(c.inputs[j as int] == inputs@[j as int]@);
                    assert(c.commands[i as int] == commands@[i as int]@);
                    assert(res@ == result_at(c, i as int, j as int));
                    assert(rows_up_to(c, i as int, (j + 1) as nat) == rows_up_to(
                        c,
                        i as int,
                        j as nat,
                    ) + row_block_spec(result_at(c, i as int, j as int), c.pad));
                    assert(acc@ =~= tables_up_to(c, i as nat) + header_of(c, i as int) + "\n"@
                        + sep_spec(c.pad) + "\n"@ + rows_up_to(c, i as int, (j + 1) as nat));
                }
                j = j + 1;
            }
            acc.append(sep.as_str());
            acc.append("\n");
            proof {
                assert(acc@ =~= tables_up_to(c, (i + 1) as nat));
            }
            i = i + 1;
        }
        proof {
            assert(outer_len(c) == n as nat);
        }
    }
    acc
}

/// The banner printed above the report.
pub fn profile_banner(name: &str) -> (r: String)
    ensures
        r@ == "\nProfile: "@ + name@ + "\n\n"@,
{
    let mut p = String::new();
    p.append("\nProfile: ");
    p.append(name);
    p.append("\n\n");
    proof {
        assert(p@ =~= "\nProfile: "@ + name@ + "\n\n"@);
    }
    p
}

} // verus!

//! Command templating: output filenames derived from an input's basename,
//! the shell script for one pairing, the pre-run cleanup command, and the
//! post-processing of a shell path expansion.
use vstd::prelude::*;

use crate::text::{trim, trimmed};

verus! {

/// A path expression could not be expanded: the expansion command failed.
#[derive(Debug)]
pub struct ExpansionError;

/// The part of a path after its last slash.
pub open spec fn basename(s: Seq<char>) -> Seq<char>
    decreases s.len(),
{
    if s.len() == 0 {
        s
    } else if s.last() == '/' {
        Seq::empty()
    } else {
        basename(s.drop_last()).push(s.last())
    }
}

proof fn lemma_basename_after_slash(s: Seq<char>, k: int)
    requires
        0 <= k < s.len(),
        s[k] == '/',
        forall|j: int| k < j < s.len() ==> s[j] != '/',
    ensures
        basename(s) == s.skip(k + 1),
    decreases s.len(),
{
    if k == s.len() - 1 {
        assert(s.skip(k + 1) =~= Seq::<char>::empty());
    } else {
        assert(s.last() != '/');
        lemma_basename_after_slash(s.drop_last(), k);
        assert(s.drop_last().skip(k + 1).push(s.last()) =~= s.skip(k + 1));
    }
}

proof fn lemma_basename_no_slash(s: Seq<char>)
    requires
        forall|j: int| 0 <= j < s.len() ==> s[j] != '/',
    ensures
        basename(s) == s,
    decreases s.len(),
{
    if s.len() > 0 {
        lemma_basename_no_slash(s.drop_last());
        assert(s.drop_last().push(s.last()) =~= s);
    }
}

/// The basename of a path: everything after the last slash.
pub fn file_name(file: &str) -> (r: String)
    ensures
        r@ == basename(file@),
{
    let n = file.unicode_len();
    let mut b: usize = n;
    while b > 0 && file.get_char(b - 1) != '/'
        invariant
            b <= n,
            n == file@.len(),
            forall|j: int| b <= j < n ==> file@[j] != '/',
        decreases b,
    {
        b = b - 1;
    }
    if b == 0 {
        proof {
            lemma_basename_no_slash(file@);
        }
        file.to_owned()
    } else {
        let r = file.substring_char(b, n).to_owned();
        proof {
            lemma_basename_after_slash(file@, b - 1);
            assert(file@.skip(b as int) =~= file@.subrange(b as int, n as int));
        }
        r
    }
}

/// The output filename for a pairing: the input's basename, a dot, and the
/// command's output extension.
pub open spec fn output_name_spec(input: Seq<char>, ext: Seq<char>) -> Seq<char> {
    basename(input) + seq!['.'] + ext
}

/// Computes the output filename for an input path and an extension.
pub fn output_name(input: &str, ext: &str) -> (r: String)
    ensures
        r@ == output_name_spec(input@, ext@),
{
    let mut p = file_name(input);
    p.append(".");
    p.append(ext);
    proof {
        reveal_strlit(".");
        assert(p@ =~= output_name_spec(input@, ext@));
    }
    p
}

/// Law: the output filename is a pure function of the input's basename and
/// the extension; inputs with equal basenames always get equal names.
pub proof fn lemma_output_name_pure(a: Seq<char>, b: Seq<char>, ext: Seq<char>)
    requires
        basename(a) == basename(b),
    ensures
        output_name_spec(a, ext) == output_name_spec(b, ext),
{
}

/// The instrumentation report path derived from an output path.
pub open spec fn massif_name_spec(output: Seq<char>) -> Seq<char> {
    output + ".massif"@
}

/// Appends the instrumentation report suffix to an output path.
pub fn massif_name(output: &str) -> (r: String)
    ensures
        r@ == massif_name_spec(output@),
{
    let mut p = output.to_owned();
    p.append(".massif");
    p
}

/// The command line of one pairing: when memory instrumentation is on, the
/// command is wrapped in a profiler invocation that writes its report to
/// `massif_out`; the visible text and the hidden arguments follow.
pub open spec fn build_cmd_spec(
    with_mem: bool,
    massif_out: Seq<char>,
    visible: Seq<char>,
    hidden: Seq<char>,
) -> Seq<char> {
    (if with_mem {
        "valgrind -q --tool=massif --massif-out-file="@ + massif_out + "  --detailed-freq=1 "@
    } else {
        Seq::<char>::empty()
    }) + visible + " "@ + hidden
}

/// Builds the command line of one pairing.
pub fn build_cmd(with_mem: bool, massif_out: &str, visible: &str, hidden: &str) -> (r: String)
    ensures
        r@ == build_cmd_spec(with_mem, massif_out@, visible@, hidden@),
{
    let mut p = String::new();
    if with_mem {
        p.append("valgrind -q --tool=massif --massif-out-file=");
        p.append(massif_out);
        p.append("  --detailed-freq=1 ");
    }
    p.append(visible);
    p.append(" ");
    p.append(hidden);
    proof {
        assert(p@ =~= build_cmd_spec(with_mem, massif_out@, visible@, hidden@));
    }
    p
}

/// A script that binds `IN` and `OUT` to the pairing's paths and then runs
/// the command.
pub open spec fn in_out_script_spec(
    input: Seq<char>,
    output: Seq<char>,
    command: Seq<char>,
) -> Seq<char> {
    "IN="@ + input + "\n             OUT="@ + output + "\n             "@ + command
}

/// Builds the script that binds the input and output paths and runs the
/// command.
pub fn bash_in_out_script(input: &str, output: &str, command: &str) -> (r: String)
    ensures
        r@ == in_out_script_spec(input@, output@, command@),
{
    let mut p = String::new();
    p.append("IN=");
    p.append(input);
    p.append("\n             OUT=");
    p.append(output);
    p.append("\n             ");
    p.append(command);
    proof {
        assert(p@ =~= in_out_script_spec(input@, output@, command@));
    }
    p
}

/// The best-effort cleanup command that removes a stale output file.
pub fn remove_command(output: &str) -> (r: String)
    ensures
        r@ == "rm "@ + output@,
{
    let mut p = String::new();
    p.append("rm ");
    p.append(output);
    proof {
        assert(p@ =~= "rm "@ + output@);
    }
    p
}

/// The shell command that expands a path expression.
pub fn echo_command(expr: &str) -> (r: String)
    ensures
        r@ == "echo "@ + expr@,
{
    let mut p = String::new();
    p.append("echo ");
    p.append(expr);
    proof {
        assert(p@ =~= "echo "@ + expr@);
    }
    p
}

/// Turns the captured output of a path-expansion run into the concrete path:
/// the trimmed standard output on success, an error on a non-zero exit.
pub fn bash_expand(exit_success: bool, stdout: &str) -> (r: Result<String, ExpansionError>)
    ensures
        match r {
            Ok(p) => exit_success && p@ == trimmed(stdout@),
            Err(_) => !exit_success,
        },
{
    if exit_success {
        Ok(trim(stdout))
    } else {
        Err(ExpansionError)
    }
}

/// The full script of one pairing together with its output filename.
pub fn pairing_script(
    input_expanded: &str,
    visible: &str,
    hidden: &str,
    extension: &str,
    with_mem: bool,
) -> (r: (String, String))
    ensures
        r.0@ == output_name_spec(input_expanded@, extension@),
        r.1@ == in_out_script_spec(
            input_expanded@,
            output_name_spec(input_expanded@, extension@),
            build_cmd_spec(
                with_mem,
                massif_name_spec(output_name_spec(input_expanded@, extension@)),
                visible@,
                hidden@,
            ),
        ),
{
    let out = output_name(input_expanded, extension);
    let massif = massif_name(out.as_str());
    let cmd = build_cmd(with_mem, massif.as_str(), visible, hidden);
    let script = bash_in_out_script(input_expanded, out.as_str(), cmd.as_str());
    (out, script)
}

} // verus!

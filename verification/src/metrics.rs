//! Extraction of the peak heap figure from a memory-instrumentation report:
//! a line-oriented text where lines of the form `mem_heap_B=<integer>` carry
//! heap samples; the peak is the largest sample.
use vstd::prelude::*;

verus! {

/// The instrumentation report holds no well-formed heap sample.
#[derive(Debug, PartialEq, Eq)]
pub struct ReportParseError;

/// Whether `b` is an ASCII decimal digit.
pub open spec fn is_digit_byte(b: u8) -> bool {
    48 <= b <= 57
}

/// The value of one digit byte; non-digits count as zero.
pub open spec fn digit_of(b: u8) -> nat {
    if 48 <= b <= 57 {
        (b - 48) as nat
    } else {
        0
    }
}

/// The numeric value of a sequence of decimal digit bytes.
pub open spec fn digits_val(s: Seq<u8>) -> nat
    decreases s.len(),
{
    if s.len() == 0 {
        0
    } else {
        digits_val(s.drop_last()) * 10 + digit_of(s.last())
    }
}

/// Whether `s` is one or more decimal digit bytes.
pub open spec fn all_digits(s: Seq<u8>) -> bool {
    s.len() > 0 && forall|i: int| 0 <= i < s.len() ==> is_digit_byte(s[i])
}

/// What parsing `s` as an unsigned 64-bit integer yields: the digits' value,
/// unless a byte is not a digit, the sequence is empty, or the value
/// overflows.
pub open spec fn parse_u64_spec(s: Seq<u8>) -> Option<u64> {
    if all_digits(s) && digits_val(s) < 0x10000000000000000 {
        Some(digits_val(s) as u64)
    } else {
        None
    }
}

proof fn lemma_digits_val_take(s: Seq<u8>, k: int)
    requires
        0 <= k <= s.len(),
    ensures
        digits_val(s) >= digits_val(s.take(k)),
    decreases s.len() - k,
{
    if k < s.len() {
        assert(s.take(k + 1).drop_last() =~= s.take(k));
        assert(digits_val(s.take(k + 1)) == digits_val(s.take(k)) * 10 + digit_of(s[k]));
        lemma_digits_val_take(s, k + 1);
    } else {
        assert(s.take(k) =~= s);
    }
}

/// Parses a decimal unsigned integer, exactly when `s` is all digits and the
/// value fits in 64 bits.
pub fn parse_u64(s: &[u8]) -> (r: Option<u64>)
    ensures
        r == parse_u64_spec(s@),
{
    if s.len() == 0 {
        return None;
    }
    let mut acc: u64 = 0;
    let mut i: usize = 0;
    while i < s.len()
        invariant
            0 < s@.len(),
            i <= s@.len(),
            forall|j: int| 0 <= j < i ==> is_digit_byte(s@[j]),
            acc as nat == digits_val(s@.take(i as int)),
        decreases s@.len() - i,
    {
        let b = s[i];
        if b < 48 || b > 57 {
            proof {
                assert(!is_digit_byte(s@[i as int]));
            }
            return None;
        }
        let d = (b - 48) as u64;
        proof {
            assert(s@.take(i as int + 1).drop_last() =~= s@.take(i as int));
            assert(digits_val(s@.take(i as int + 1)) == acc as nat * 10 + digit_of(s@[i as int]));
        }
        if acc > (u64::MAX - d) / 10 {
            proof {
                let m = (u64::MAX - d) as int;
                assert(m == (m / 10) * 10 + m % 10);
                assert(acc as int * 10 >= (m / 10 + 1) * 10);
                assert(acc as int * 10 + d as int > u64::MAX);
                lemma_digits_val_take(s@, i as int + 1);
                assert(digits_val(s@) >= 0x10000000000000000);
            }
            return None;
        }
        acc = acc * 10 + d;
        i = i + 1;
    }
    proof {
        assert(s@.take(i as int) =~= s@);
    }
    Some(acc)
}

/// The lines of `s` split at newline bytes, `cur` being the line in progress.
pub open spec fn lines_rec(s: Seq<u8>, cur: Seq<u8>) -> Seq<Seq<u8>>
    decreases s.len(),
{
    if s.len() == 0 {
        seq![cur]
    } else if s[0] == 10 {
        seq![cur] + lines_rec(s.drop_first(), Seq::empty())
    } else {
        lines_rec(s.drop_first(), cur.push(s[0]))
    }
}

/// The lines of `s`, split at newline bytes.
pub open spec fn lines_of(s: Seq<u8>) -> Seq<Seq<u8>> {
    lines_rec(s, Seq::empty())
}

/// A line with a trailing carriage return removed.
pub open spec fn strip_cr(l: Seq<u8>) -> Seq<u8> {
    if l.len() > 0 && l.last() == 13 {
        l.drop_last()
    } else {
        l
    }
}

/// The bytes of the key prefix `mem_heap_B=`.
pub open spec fn mem_prefix() -> Seq<u8> {
    seq![109u8, 101u8, 109u8, 95u8, 104u8, 101u8, 97u8, 112u8, 95u8, 66u8, 61u8]
}

/// The digits part of a heap-sample line, or nothing for any other line.
pub open spec fn line_sample(l: Seq<u8>) -> Option<Seq<u8>> {
    let c = strip_cr(l);
    if c.len() >= 11 && c.take(11) == mem_prefix() {
        Some(c.skip(11))
    } else {
        None
    }
}

/// Folds the peak over the report's lines: the maximum of every sample,
/// failing on a sample whose digits do not parse.
pub open spec fn peak_rec(lines: Seq<Seq<u8>>, acc: Option<u64>) -> Result<Option<u64>, ()>
    decreases lines.len(),
{
    if lines.len() == 0 {
        Ok(acc)
    } else {
        match line_sample(lines[0]) {
            None => peak_rec(lines.drop_first(), acc),
            Some(suf) => match parse_u64_spec(suf) {
                None => Err(()),
                Some(v) => peak_rec(
                    lines.drop_first(),
                    Some(
                        match acc {
                            None => v,
                            Some(a) => if v > a {
                                v
                            } else {
                                a
                            },
                        },
                    ),
                ),
            },
        }
    }
}

/// The peak heap figure of a whole report; an error when no heap-sample line
/// exists or one of them does not parse.
pub open spec fn report_peak_spec(content: Seq<u8>) -> Result<u64, ()> {
    match peak_rec(lines_of(content), None) {
        Ok(Some(v)) => Ok(v),
        Ok(None) => Err(()),
        Err(u) => Err(u),
    }
}

/// Splits a byte text into its newline-separated lines.
fn split_lines(content: &[u8]) -> (r: Vec<Vec<u8>>)
    ensures
        r@.map_values(|l: Vec<u8>| l@) == lines_of(content@),
{
    let mut out: Vec<Vec<u8>> = Vec::new();
    let mut cur: Vec<u8> = Vec::new();
    let mut i: usize = 0;
    proof {
        assert(content@.skip(0) =~= content@);
        assert(out@.map_values(|l: Vec<u8>| l@) + lines_rec(content@, cur@) =~= lines_rec(
            content@,
            Seq::empty(),
        ));
    }
    while i < content.len()
        invariant
            i <= content@.len(),
            lines_of(content@) == out@.map_values(|l: Vec<u8>| l@) + lines_rec(
                content@.skip(i as int),
                cur@,
            ),
        decreases content@.len() - i,
    {
        let b = content[i];
        proof {
            assert(content@.skip(i as int).drop_first() =~= content@.skip(i as int + 1));
            assert(content@.skip(i as int)[0] == content@[i as int]);
        }
        if b == 10 {
            let ghost old_out = out@;
            let ghost old_cur = cur@;
            out.push(cur);
            cur = Vec::new();
            proof {
                assert(out@.map_values(|l: Vec<u8>| l@) =~= old_out.map_values(|l: Vec<u8>| l@)
                    + seq![old_cur]);
                assert(old_out.map_values(|l: Vec<u8>| l@) + (seq![old_cur] + lines_rec(
                    content@.skip(i as int + 1),
                    Seq::empty(),
                )) =~= out@.map_values(|l: Vec<u8>| l@) + lines_rec(
                    content@.skip(i as int + 1),
                    cur@,
                ));
            }
        } else {
            cur.push(b);
        }
        i = i + 1;
    }
    proof {
        assert(content@.skip(i as int) =~= Seq::<u8>::empty());
    }
    let ghost old_out = out@;
    let ghost old_cur = cur@;
    out.push(cur);
    proof {
        assert(out@.map_values(|l: Vec<u8>| l@) =~= old_out.map_values(|l: Vec<u8>| l@) + seq![
            old_cur,
        ]);
    }
    out
}

/// Reads the peak heap figure out of an instrumentation report: the maximum
/// value over all `mem_heap_B=` lines.
pub fn parse_report(content: &[u8]) -> (r: Result<u64, ReportParseError>)
    ensures
        match r {
            Ok(v) => report_peak_spec(content@) == Ok::<u64, ()>(v),
            Err(_) => report_peak_spec(content@) is Err,
        },
{
    let lines = split_lines(content);
    let ghost line_views = lines@.map_values(|l: Vec<u8>| l@);
    let mut acc: Option<u64> = None;
    let mut i: usize = 0;
    proof {
        assert(line_views.skip(0) =~= line_views);
    }
    while i < lines.len()
        invariant
            i <= lines@.len(),
            line_views == lines@.map_values(|l: Vec<u8>| l@),
            line_views == lines_of(content@),
            peak_rec(lines_of(content@), None) == peak_rec(line_views.skip(i as int), acc),
        decreases lines@.len() - i,
    {
        let l = &lines[i];
        proof {
            assert(line_views.skip(i as int).drop_first() =~= line_views.skip(i as int + 1));
            assert(line_views.skip(i as int)[0] == l@);
        }
        let llen = l.len();
        let el = if llen > 0 && l[llen - 1] == 13 {
            llen - 1
        } else {
            llen
        };
        proof {
            assert(strip_cr(l@) =~= l@.take(el as int));
        }
        if el >= 11 && l[0] == 109 && l[1] == 101 && l[2] == 109 && l[3] == 95 && l[4] == 104
            && l[5] == 101 && l[6] == 97 && l[7] == 112 && l[8] == 95 && l[9] == 66 && l[10]
            == 61 {
            proof {
                assert(strip_cr(l@).take(11) =~= mem_prefix());
                assert(line_sample(l@) == Some(strip_cr(l@).skip(11)));
            }
            let digits = &l.as_slice()[11..el];
            proof {
                assert(digits@ =~= strip_cr(l@).skip(11));
            }
            match parse_u64(digits) {
                None => {
                    return Err(ReportParseError);
                },
                Some(v) => {
                    acc = match acc {
                        None => Some(v),
                        Some(a) => if v > a {
                            Some(v)
                        } else {
                            Some(a)
                        },
                    };
                },
            }
        } else {
            proof {
                if strip_cr(l@).len() >= 11 {
                    assert(strip_cr(l@).take(11) != mem_prefix()) by {
                        if strip_cr(l@).take(11) == mem_prefix() {
                            assert(l@[0] == strip_cr(l@).take(11)[0]);
                            assert(l@[1] == strip_cr(l@).take(11)[1]);
                            assert(l@[2] == strip_cr(l@).take(11)[2]);
                            assert(l@[3] == strip_cr(l@).take(11)[3]);
                            assert(l@[4] == strip_cr(l@).take(11)[4]);
                            assert(l@[5] == strip_cr(l@).take(11)[5]);
                            assert(l@[6] == strip_cr(l@).take(11)[6]);
                            assert(l@[7] == strip_cr(l@).take(11)[7]);
                            assert(l@[8] == strip_cr(l@).take(11)[8]);
                            assert(l@[9] == strip_cr(l@).take(11)[9]);
                            assert(l@[10] == strip_cr(l@).take(11)[10]);
                        }
                    }
                }
                assert(line_sample(l@) is None);
            }
        }
        i = i + 1;
    }
    proof {
        assert(line_views.skip(i as int) =~= Seq::<Seq<u8>>::empty());
    }
    match acc {
        None => Err(ReportParseError),
        Some(v) => Ok(v),
    }
}

/// The sample a line carries, if it is a well-formed heap-sample line.
pub open spec fn sample_val(l: Seq<u8>) -> Option<u64> {
    match line_sample(l) {
        None => None,
        Some(suf) => parse_u64_spec(suf),
    }
}

proof fn lemma_peak_rec_max(lines: Seq<Seq<u8>>, acc: Option<u64>)
    ensures
        match peak_rec(lines, acc) {
            Ok(opt) => match opt {
                Some(v) => {
                    &&& forall|i: int|
                        0 <= i < lines.len() && sample_val(#[trigger] lines[i]) is Some
                            ==> sample_val(lines[i])->Some_0 <= v
                    &&& (acc is Some ==> acc->Some_0 <= v)
                    &&& ((exists|i: int|
                        0 <= i < lines.len() && sample_val(#[trigger] lines[i]) == Some(v)) || acc
                        == Some(v))
                },
                None => acc is None,
            },
            Err(_) => true,
        },
    decreases lines.len(),
{
    if lines.len() > 0 {
        let rest = lines.drop_first();
        match line_sample(lines[0]) {
            None => {
                lemma_peak_rec_max(rest, acc);
                match peak_rec(lines, acc) {
                    Ok(Some(v)) => {
                        assert forall|i: int|
                            0 <= i < lines.len() && sample_val(#[trigger] lines[i])
                                is Some implies sample_val(lines[i])->Some_0 <= v by {
                            if i > 0 {
                                assert(lines[i] == rest[i - 1]);
                            }
                        }
                        if exists|i: int|
                            0 <= i < rest.len() && sample_val(#[trigger] rest[i]) == Some(v) {
                            let j = choose|i: int|
                                0 <= i < rest.len() && sample_val(#[trigger] rest[i]) == Some(v);
                            assert(lines[j + 1] == rest[j]);
                        }
                    },
                    _ => {},
                }
            },
            Some(suf) => match parse_u64_spec(suf) {
                None => {},
                Some(u) => {
                    let acc2 = match acc {
                        None => Some(u),
                        Some(a) => if u > a {
                            Some(u)
                        } else {
                            Some(a)
                        },
                    };
                    lemma_peak_rec_max(rest, acc2);
                    match peak_rec(lines, acc) {
                        Ok(Some(v)) => {
                            assert forall|i: int|
                                0 <= i < lines.len() && sample_val(#[trigger] lines[i])
                                    is Some implies sample_val(lines[i])->Some_0 <= v by {
                                if i > 0 {
                                    assert(lines[i] == rest[i - 1]);
                                } else {
                                    assert(sample_val(lines[0]) == Some(u));
                                    assert(acc2->Some_0 <= v);
                                }
                            }
                            if exists|i: int|
                                0 <= i < rest.len() && sample_val(#[trigger] rest[i]) == Some(
                                    v,
                                ) {
                                let j = choose|i: int|
                                    0 <= i < rest.len() && sample_val(#[trigger] rest[i]) == Some(
                                        v,
                                    );
                                assert(lines[j + 1] == rest[j]);
                            } else {
                                assert(acc2 == Some(v));
                                if acc != Some(v) {
                                    assert(sample_val(lines[0]) == Some(v));
                                }
                            }
                        },
                        _ => {},
                    }
                },
            },
        }
    }
}

/// Law: when a report yields a peak, that peak is the largest value among
/// the report's heap-sample lines, and some line attains it.
pub proof fn lemma_report_peak_is_max(content: Seq<u8>)
    ensures
        match report_peak_spec(content) {
            Ok(v) => {
                &&& forall|i: int|
                    0 <= i < lines_of(content).len() && sample_val(
                        #[trigger] lines_of(content)[i],
                    ) is Some ==> sample_val(lines_of(content)[i])->Some_0 <= v
                &&& exists|i: int|
                    0 <= i < lines_of(content).len() && sample_val(
                        #[trigger] lines_of(content)[i],
                    ) == Some(v)
            },
            Err(_) => true,
        },
{
    lemma_peak_rec_max(lines_of(content), None);
}

} // verus!

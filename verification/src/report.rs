//! Rendering of report fields and lines: human-scaled sizes, elapsed time,
//! compression ratio, and the aligned header / separator / data lines.
use vstd::prelude::*;

use crate::text::{
    centered, dash_string, dashes, dec_digits, dec_string, frac2, frac2_string, frac3,
    frac3_string, left_pad, pad_center, pad_left, pad_right, right_pad,
};

verus! {

/// A value in hundredths rendered as `<whole>.<two digits>`.
pub open spec fn fixed2(v: nat) -> Seq<char> {
    dec_digits(v / 100) + seq!['.'] + frac2(v % 100)
}

/// `size` in hundredths of `unit`, rounded to the nearest (half away from zero).
pub open spec fn scaled_centi(size: nat, unit: nat) -> nat
    recommends
        unit > 0,
{
    (size * 100 + unit / 2) / unit
}

/// The human-scaled rendering of a byte count: a width-6 number with two
/// fractional digits, followed by a unit. Sizes under 1024 render in bytes,
/// under 1048576 in KiB, all others in MiB.
pub open spec fn nice_size_spec(size: nat) -> Seq<char> {
    if size >= 1048576 {
        left_pad(fixed2(scaled_centi(size, 1048576)), 6) + " MiB"@
    } else if size >= 1024 {
        left_pad(fixed2(scaled_centi(size, 1024)), 6) + " KiB"@
    } else {
        left_pad(fixed2(scaled_centi(size, 1)), 6) + " B  "@
    }
}

/// Renders a value in hundredths as `<whole>.<two digits>`.
pub fn fixed2_string(v: u128) -> (r: String)
    ensures
        r@ == fixed2(v as nat),
{
    let mut p = dec_string(v / 100);
    p.append(".");
    let f = frac2_string(v % 100);
    p.append(f.as_str());
    proof {
        reveal_strlit(".");
        assert(p@ =~= fixed2(v as nat));
    }
    p
}

/// Human-scaled size: bytes, KiB or MiB, each with two fractional digits.
pub fn nice_size(size: u64) -> (r: String)
    ensures
        r@ == nice_size_spec(size as nat),
{
    if size >= 1048576 {
        let v: u128 = ((size as u128) * 100 + 524288) / 1048576;
        let f = fixed2_string(v);
        let mut p = pad_left(f, 6);
        p.append(" MiB");
        proof {
            assert(v as nat == scaled_centi(size as nat, 1048576));
        }
        p
    } else if size >= 1024 {
        let v: u128 = ((size as u128) * 100 + 512) / 1024;
        let f = fixed2_string(v);
        let mut p = pad_left(f, 6);
        p.append(" KiB");
        proof {
            assert(v as nat == scaled_centi(size as nat, 1024));
        }
        p
    } else {
        let v: u128 = (size as u128) * 100;
        let f = fixed2_string(v);
        let mut p = pad_left(f, 6);
        p.append(" B  ");
        proof {
            assert(v as nat == scaled_centi(size as nat, 1));
        }
        p
    }
}

/// Elapsed nanoseconds as a width-7 seconds value with three fractional
/// digits (rounded to the nearest millisecond), followed by " s".
pub open spec fn time_field(ns: nat) -> Seq<char> {
    left_pad(
        dec_digits(((ns + 500000) / 1000000) / 1000) + seq!['.'] + frac3(
            ((ns + 500000) / 1000000) % 1000,
        ),
        7,
    ) + " s"@
}

/// Renders elapsed nanoseconds as seconds with millisecond resolution.
pub fn format_time(ns: u64) -> (r: String)
    ensures
        r@ == time_field(ns as nat),
{
    let ms: u128 = ((ns as u128) + 500000) / 1000000;
    let mut p = dec_string(ms / 1000);
    p.append(".");
    let f = frac3_string(ms % 1000);
    p.append(f.as_str());
    let mut q = pad_left(p, 7);
    q.append(" s");
    proof {
        reveal_strlit(".");
        assert(p@ =~= dec_digits((ms / 1000) as nat) + seq!['.'] + frac3((ms % 1000) as nat));
    }
    q
}

/// The ratio column: a width-6 percentage with two fractional digits, or
/// "NaN" when the ratio is indeterminate, followed by " %".
pub open spec fn ratio_field(r: Option<u128>) -> Seq<char> {
    match r {
        Some(c) => left_pad(fixed2(c as nat), 6) + " %"@,
        None => left_pad(seq!['N', 'a', 'N'], 6) + " %"@,
    }
}

/// Renders the ratio column.
pub fn format_ratio(r: &Option<u128>) -> (s: String)
    ensures
        s@ == ratio_field(*r),
{
    match r {
        Some(c) => {
            let f = fixed2_string(*c);
            let mut p = pad_left(f, 6);
            p.append(" %");
            p
        },
        None => {
            let mut n = String::new();
            n.append("NaN");
            proof {
                reveal_strlit("NaN");
                assert(n@ =~= seq!['N', 'a', 'N']);
            }
            let mut p = pad_left(n, 6);
            p.append(" %");
            p
        },
    }
}

/// Output size as a percentage of input size, in hundredths of a percent,
/// rounded to the nearest; indeterminate when the input size is zero.
pub open spec fn ratio_centi_spec(out_size: nat, input_size: nat) -> nat
    recommends
        input_size > 0,
{
    (out_size * 10000 + input_size / 2) / input_size
}

/// Computes the size ratio; a zero input size yields the indeterminate value.
pub fn ratio_centi(out_size: u64, input_size: u64) -> (r: Option<u128>)
    ensures
        input_size == 0 ==> r is None,
        input_size > 0 ==> r == Some(ratio_centi_spec(out_size as nat, input_size as nat) as u128),
{
    if input_size == 0 {
        None
    } else {
        let v: u128 = ((out_size as u128) * 10000 + (input_size as u128) / 2) / (input_size
            as u128);
        Some(v)
    }
}

/// A table header line: the kind tag, the group label padded to the shared
/// column width, and the fixed column titles.
pub open spec fn header_spec(kind: Seq<char>, value: Seq<char>, pad: nat) -> Seq<char> {
    right_pad(kind, 4) + " | "@ + right_pad(value, pad) + " | "@ + centered("time"@, 9) + " | "@
        + centered("size"@, 12) + " | "@ + centered("comp. size"@, 12) + " | "@ + centered(
        "ratio"@,
        8,
    ) + " | "@ + centered("mem"@, 12)
}

/// Renders a table header line.
pub fn format_header(kind: &str, value: &str, padding: usize) -> (r: String)
    ensures
        r@ == header_spec(kind@, value@, padding as nat),
{
    let mut p = pad_right(kind.to_owned(), 4);
    p.append(" | ");
    let v = pad_right(value.to_owned(), padding);
    p.append(v.as_str());
    p.append(" | ");
    let c = pad_center("time".to_owned(), 9);
    p.append(c.as_str());
    p.append(" | ");
    let c = pad_center("size".to_owned(), 12);
    p.append(c.as_str());
    p.append(" | ");
    let c = pad_center("comp. size".to_owned(), 12);
    p.append(c.as_str());
    p.append(" | ");
    let c = pad_center("ratio".to_owned(), 8);
    p.append(c.as_str());
    p.append(" | ");
    let c = pad_center("mem".to_owned(), 12);
    p.append(c.as_str());
    proof {
        assert(p@ =~= header_spec(kind@, value@, padding as nat));
    }
    p
}

/// The separator line: dashes across every column at the shared width.
pub open spec fn sep_spec(pad: nat) -> Seq<char> {
    dashes(pad + 75)
}

/// Whether `s` ends with `suffix`.
pub open spec fn ends_with(s: Seq<char>, suffix: Seq<char>) -> bool {
    s.len() >= suffix.len() && s.skip(s.len() - suffix.len()) == suffix
}

/// Law: the unit ladder. Sizes under 1024 render with the byte unit, sizes
/// under 1048576 with the KiB unit, all larger ones with the MiB unit, and
/// the rendered number always has exactly two fractional digits: the decimal
/// point sits seven places before the end, just ahead of the two digits and
/// the four-character unit.
pub proof fn lemma_size_unit_ladder(size: nat)
    ensures
        size < 1024 ==> ends_with(nice_size_spec(size), " B  "@),
        1024 <= size < 1048576 ==> ends_with(nice_size_spec(size), " KiB"@),
        size >= 1048576 ==> ends_with(nice_size_spec(size), " MiB"@),
        nice_size_spec(size).len() >= 10,
        nice_size_spec(size)[nice_size_spec(size).len() - 7] == '.',
{
    reveal_strlit(" MiB");
    reveal_strlit(" KiB");
    reveal_strlit(" B  ");
    assert(" MiB"@.len() == 4);
    assert(" KiB"@.len() == 4);
    assert(" B  "@.len() == 4);
    let v: nat = if size >= 1048576 {
        scaled_centi(size, 1048576)
    } else if size >= 1024 {
        scaled_centi(size, 1024)
    } else {
        scaled_centi(size, 1)
    };
    let f = fixed2(v);
    assert(dec_digits((v % 100) / 10 as nat).len() == 1);
    assert(frac2(v % 100).len() == 2);
    assert(f.len() == dec_digits(v / 100).len() + 3);
    assert(f[f.len() - 3] == '.');
    let p = left_pad(f, 6);
    assert(p.len() >= 6);
    assert(p[p.len() - 3] == '.');
    let s = nice_size_spec(size);
    if size >= 1048576 {
        assert(s.skip(s.len() - 4) =~= " MiB"@);
    } else if size >= 1024 {
        assert(s.skip(s.len() - 4) =~= " KiB"@);
    } else {
        assert(s.skip(s.len() - 4) =~= " B  "@);
    }
    assert(s[s.len() - 7] == '.');
}

/// Renders a separator line.
pub fn format_sep(padding: usize) -> (r: String)
    requires
        padding <= usize::MAX - 75,
    ensures
        r@ == sep_spec(padding as nat),
{
    dash_string(padding + 75)
}

} // verus!

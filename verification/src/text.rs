//! Character-level text building blocks: padded columns, decimal rendering
//! of integers, and whitespace trimming, all specified over `Seq<char>`.
use vstd::prelude::*;

verus! {

/// A sequence of `n` space characters.
pub open spec fn spaces(n: nat) -> Seq<char> {
    Seq::new(n, |i: int| ' ')
}

/// A sequence of `n` dash characters.
pub open spec fn dashes(n: nat) -> Seq<char> {
    Seq::new(n, |i: int| '-')
}

/// `s` extended on the left with spaces up to width `w`.
pub open spec fn left_pad(s: Seq<char>, w: nat) -> Seq<char> {
    if s.len() >= w {
        s
    } else {
        spaces((w - s.len()) as nat) + s
    }
}

/// `s` extended on the right with spaces up to width `w`.
pub open spec fn right_pad(s: Seq<char>, w: nat) -> Seq<char> {
    if s.len() >= w {
        s
    } else {
        s + spaces((w - s.len()) as nat)
    }
}

/// `s` centred in a field of width `w`; a leftover space goes to the right.
pub open spec fn centered(s: Seq<char>, w: nat) -> Seq<char> {
    if s.len() >= w {
        s
    } else {
        spaces(((w - s.len()) / 2) as nat) + s + spaces(
            (w - s.len() - (w - s.len()) / 2) as nat,
        )
    }
}

/// A string of `n` spaces.
pub fn space_string(n: usize) -> (r: String)
    ensures
        r@ == spaces(n as nat),
{
    let mut p = String::new();
    let mut i: usize = 0;
    while i < n
        invariant
            i <= n,
            p@ == spaces(i as nat),
        decreases n - i,
    {
        p.append(" ");
        proof {
            reveal_strlit(" ");
            assert(p@ =~= spaces((i + 1) as nat));
        }
        i = i + 1;
    }
    p
}

/// A string of `n` dashes.
pub fn dash_string(n: usize) -> (r: String)
    ensures
        r@ == dashes(n as nat),
{
    let mut p = String::new();
    let mut i: usize = 0;
    while i < n
        invariant
            i <= n,
            p@ == dashes(i as nat),
        decreases n - i,
    {
        p.append("-");
        proof {
            reveal_strlit("-");
            assert(p@ =~= dashes((i + 1) as nat));
        }
        i = i + 1;
    }
    p
}

/// Left-pads `s` with spaces to `width` characters.
pub fn pad_left(s: String, width: usize) -> (r: String)
    ensures
        r@ == left_pad(s@, width as nat),
{
    let n = s.as_str().unicode_len();
    if n >= width {
        return s;
    }
    let mut p = space_string(width - n);
    p.append(s.as_str());
    p
}

/// Right-pads `s` with spaces to `width` characters.
pub fn pad_right(s: String, width: usize) -> (r: String)
    ensures
        r@ == right_pad(s@, width as nat),
{
    let n = s.as_str().unicode_len();
    if n >= width {
        return s;
    }
    let fill = space_string(width - n);
    let mut p = s;
    p.append(fill.as_str());
    p
}

/// Centres `s` in a field of `width` characters.
pub fn pad_center(s: String, width: usize) -> (r: String)
    ensures
        r@ == centered(s@, width as nat),
{
    let n = s.as_str().unicode_len();
    if n >= width {
        return s;
    }
    let l = (width - n) / 2;
    let mut p = space_string(l);
    p.append(s.as_str());
    let fill = space_string(width - n - l);
    p.append(fill.as_str());
    p
}

/// The character for the decimal digit `d`.
pub open spec fn digit_char(d: nat) -> char {
    if d == 0 {
        '0'
    } else if d == 1 {
        '1'
    } else if d == 2 {
        '2'
    } else if d == 3 {
        '3'
    } else if d == 4 {
        '4'
    } else if d == 5 {
        '5'
    } else if d == 6 {
        '6'
    } else if d == 7 {
        '7'
    } else if d == 8 {
        '8'
    } else {
        '9'
    }
}

/// The decimal digit string of `n`, without leading zeros (just "0" for 0).
pub open spec fn dec_digits(n: nat) -> Seq<char>
    decreases n,
{
    if n < 10 {
        seq![digit_char(n)]
    } else {
        dec_digits(n / 10).push(digit_char(n % 10))
    }
}

fn digit_str(d: u128) -> (r: &'static str)
    requires
        d < 10,
    ensures
        r@ == seq![digit_char(d as nat)],
{
    let r: &'static str = if d == 0 {
        "0"
    } else if d == 1 {
        "1"
    } else if d == 2 {
        "2"
    } else if d == 3 {
        "3"
    } else if d == 4 {
        "4"
    } else if d == 5 {
        "5"
    } else if d == 6 {
        "6"
    } else if d == 7 {
        "7"
    } else if d == 8 {
        "8"
    } else {
        "9"
    };
    proof {
        reveal_strlit("0");
        reveal_strlit("1");
        reveal_strlit("2");
        reveal_strlit("3");
        reveal_strlit("4");
        reveal_strlit("5");
        reveal_strlit("6");
        reveal_strlit("7");
        reveal_strlit("8");
        reveal_strlit("9");
        assert(r@ =~= seq![digit_char(d as nat)]);
    }
    r
}

/// Renders `n` in decimal.
pub fn dec_string(n: u128) -> (r: String)
    ensures
        r@ == dec_digits(n as nat),
    decreases n,
{
    if n < 10 {
        let mut p = String::new();
        p.append(digit_str(n));
        proof {
            assert(p@ =~= dec_digits(n as nat));
        }
        p
    } else {
        let mut p = dec_string(n / 10);
        p.append(digit_str(n % 10));
        proof {
            assert(p@ =~= dec_digits(n as nat));
        }
        p
    }
}

/// A two-digit decimal field with a leading zero where needed.
pub open spec fn frac2(n: nat) -> Seq<char> {
    if n < 10 {
        seq!['0'] + dec_digits(n)
    } else {
        dec_digits(n)
    }
}

/// A three-digit decimal field with leading zeros where needed.
pub open spec fn frac3(n: nat) -> Seq<char> {
    if n < 10 {
        seq!['0', '0'] + dec_digits(n)
    } else if n < 100 {
        seq!['0'] + dec_digits(n)
    } else {
        dec_digits(n)
    }
}

/// Renders `n < 100` as exactly two digits.
pub fn frac2_string(n: u128) -> (r: String)
    requires
        n < 100,
    ensures
        r@ == frac2(n as nat),
{
    if n < 10 {
        let mut p = String::new();
        p.append("0");
        p.append(digit_str(n));
        proof {
            reveal_strlit("0");
            assert(p@ =~= frac2(n as nat));
        }
        p
    } else {
        dec_string(n)
    }
}

/// Renders `n < 1000` as exactly three digits.
pub fn frac3_string(n: u128) -> (r: String)
    requires
        n < 1000,
    ensures
        r@ == frac3(n as nat),
{
    if n < 10 {
        let mut p = String::new();
        p.append("00");
        p.append(digit_str(n));
        proof {
            reveal_strlit("00");
            assert(p@ =~= frac3(n as nat));
        }
        p
    } else if n < 100 {
        let mut p = String::new();
        p.append("0");
        p.append(digit_str(n / 10));
        p.append(digit_str(n % 10));
        proof {
            reveal_strlit("0");
            assert(dec_digits((n / 10) as nat) =~= seq![digit_char((n / 10) as nat)]);
            assert(dec_digits(n as nat) =~= seq![
                digit_char((n / 10) as nat),
                digit_char((n % 10) as nat),
            ]);
            assert(p@ =~= frac3(n as nat));
        }
        p
    } else {
        dec_string(n)
    }
}

/// The whitespace characters that trimming removes.
pub open spec fn is_space_char(c: char) -> bool {
    c == ' ' || c == '\t' || c == '\n' || c == '\r'
}

/// `s` with leading whitespace removed.
pub open spec fn trim_front(s: Seq<char>) -> Seq<char>
    decreases s.len(),
{
    if s.len() > 0 && is_space_char(s[0]) {
        trim_front(s.drop_first())
    } else {
        s
    }
}

/// `s` with trailing whitespace removed.
pub open spec fn trim_back(s: Seq<char>) -> Seq<char>
    decreases s.len(),
{
    if s.len() > 0 && is_space_char(s.last()) {
        trim_back(s.drop_last())
    } else {
        s
    }
}

/// `s` with leading and trailing whitespace removed.
pub open spec fn trimmed(s: Seq<char>) -> Seq<char> {
    trim_back(trim_front(s))
}

proof fn lemma_trim_front_skip(s: Seq<char>, k: int)
    requires
        0 <= k <= s.len(),
        forall|j: int| 0 <= j < k ==> is_space_char(s[j]),
        k == s.len() || !is_space_char(s[k]),
    ensures
        trim_front(s) == s.skip(k),
    decreases k,
{
    if k == 0 {
        assert(s.skip(0) =~= s);
    } else {
        assert(is_space_char(s[0]));
        lemma_trim_front_skip(s.drop_first(), k - 1);
        assert(s.drop_first().skip(k - 1) =~= s.skip(k));
    }
}

proof fn lemma_trim_back_take(s: Seq<char>, k: int)
    requires
        0 <= k <= s.len(),
        forall|j: int| k <= j < s.len() ==> is_space_char(s[j]),
        k == 0 || !is_space_char(s[k - 1]),
    ensures
        trim_back(s) == s.take(k),
    decreases s.len() - k,
{
    if k == s.len() {
        assert(s.take(k) =~= s);
    } else {
        assert(is_space_char(s.last()));
        lemma_trim_back_take(s.drop_last(), k);
        assert(s.drop_last().take(k) =~= s.take(k));
    }
}

/// Whether `c` is a whitespace character for trimming.
pub fn is_space(c: char) -> (r: bool)
    ensures
        r == is_space_char(c),
{
    c == ' ' || c == '\t' || c == '\n' || c == '\r'
}

/// Removes leading and trailing whitespace.
pub fn trim(s: &str) -> (r: String)
    ensures
        r@ == trimmed(s@),
{
    let n = s.unicode_len();
    let mut a: usize = 0;
    while a < n && is_space(s.get_char(a))
        invariant
            a <= n,
            n == s@.len(),
            forall|j: int| 0 <= j < a ==> is_space_char(s@[j]),
        decreases n - a,
    {
        a = a + 1;
    }
    let mut b: usize = n;
    while b > a && is_space(s.get_char(b - 1))
        invariant
            a <= b <= n,
            n == s@.len(),
            forall|j: int| b <= j < n ==> is_space_char(s@[j]),
        decreases b,
    {
        b = b - 1;
    }
    let r = s.substring_char(a, b).to_owned();
    proof {
        lemma_trim_front_skip(s@, a as int);
        lemma_trim_back_take(s@.skip(a as int), b - a);
        assert(s@.skip(a as int).take(b - a) =~= s@.subrange(a as int, b as int));
    }
    r
}

/// Character-by-character string equality.
pub fn str_eq(a: &str, b: &str) -> (r: bool)
    ensures
        r == (a@ == b@),
{
    let alen = a.unicode_len();
    let blen = b.unicode_len();
    if alen != blen {
        proof {
            assert(a@.len() != b@.len());
        }
        return false;
    }
    let mut i: usize = 0;
    while i < alen
        invariant
            alen == a@.len(),
            b@.len() == alen,
            i <= alen,
            forall|j: int| 0 <= j < i ==> a@[j] == b@[j],
        decreases alen - i,
    {
        if a.get_char(i) != b.get_char(i) {
            proof {
                assert(a@[i as int] != b@[i as int]);
            }
            return false;
        }
        i = i + 1;
    }
    proof {
        assert(a@ =~= b@);
    }
    true
}

} // verus!

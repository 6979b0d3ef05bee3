//! Decimal rendering and parsing of the integers that the tracking codec
//! carries, with proofs that the two directions invert each other.

use vstd::prelude::*;

verus! {

/// The character for one decimal digit value.
pub open spec fn digit_of(d: int) -> char {
    if d == 0 {
        '0'
    } else if d == 1 {
        '1'
    } else if d == 2 {
        '2'
    } else if d == 3 {
        '3'
    } else if d == 4 {
        '4'
    } else if d == 5 {
        '5'
    } else if d == 6 {
        '6'
    } else if d == 7 {
        '7'
    } else if d == 8 {
        '8'
    } else {
        '9'
    }
}

/// The value of one decimal digit character, -1 for any other character.
pub open spec fn digit_val(c: char) -> int {
    if c == '0' {
        0
    } else if c == '1' {
        1
    } else if c == '2' {
        2
    } else if c == '3' {
        3
    } else if c == '4' {
        4
    } else if c == '5' {
        5
    } else if c == '6' {
        6
    } else if c == '7' {
        7
    } else if c == '8' {
        8
    } else if c == '9' {
        9
    } else {
        -1
    }
}

pub open spec fn is_digit(c: char) -> bool {
    digit_val(c) >= 0
}

/// The decimal rendering of a natural number, most significant digit first.
pub open spec fn nat_digits(n: nat) -> Seq<char>
    decreases n,
{
    if n < 10 {
        seq![digit_of(n as int)]
    } else {
        nat_digits(n / 10) + seq![digit_of((n % 10) as int)]
    }
}

/// The decimal rendering of a signed value: a leading '-' for negatives.
pub open spec fn int_digits(v: int) -> Seq<char> {
    if v < 0 {
        seq!['-'] + nat_digits((-v) as nat)
    } else {
        nat_digits(v as nat)
    }
}

/// A non-empty run of decimal digit characters.
pub open spec fn all_digits(s: Seq<char>) -> bool {
    forall|i: int| 0 <= i < s.len() ==> is_digit(#[trigger] s[i])
}

/// The value of a digit run, most significant digit first.
pub open spec fn digits_val(s: Seq<char>) -> int
    decreases s.len(),
{
    if s.len() == 0 {
        0
    } else {
        digits_val(s.drop_last()) * 10 + digit_val(s.last())
    }
}

/// The value denoted by a signed decimal string, or None where the string is
/// not an optional '-' followed by at least one digit.
pub open spec fn signed_val(s: Seq<char>) -> Option<int> {
    if s.len() > 0 && s[0] == '-' {
        let rest = s.subrange(1, s.len() as int);
        if rest.len() > 0 && all_digits(rest) {
            Some(-digits_val(rest))
        } else {
            None
        }
    } else {
        if s.len() > 0 && all_digits(s) {
            Some(digits_val(s))
        } else {
            None
        }
    }
}

/// Every character of a rendered natural number is a digit, and the digits
/// denote the number again.
pub proof fn lemma_nat_digits_val(n: nat)
    ensures
        nat_digits(n).len() >= 1,
        all_digits(nat_digits(n)),
        digits_val(nat_digits(n)) == n,
    decreases n,
{
    if n < 10 {
        assert(nat_digits(n) == seq![digit_of(n as int)]);
        assert(nat_digits(n).drop_last() =~= Seq::<char>::empty());
        assert(nat_digits(n).last() == digit_of(n as int));
        assert(digits_val(Seq::<char>::empty()) == 0);
        assert(digits_val(nat_digits(n)) == 0 * 10 + digit_val(digit_of(n as int)));
    } else {
        lemma_nat_digits_val(n / 10);
        let prefix = nat_digits(n / 10);
        let whole = nat_digits(n);
        assert(whole == prefix + seq![digit_of((n % 10) as int)]);
        assert(whole.drop_last() =~= prefix);
        assert(whole.last() == digit_of((n % 10) as int));
        assert(digits_val(whole) == digits_val(prefix) * 10 + digit_val(digit_of((n % 10) as int)));
        assert(digits_val(whole) == (n / 10) * 10 + n % 10);
        assert(all_digits(whole)) by {
            assert(forall|i: int|
                0 <= i < prefix.len() ==> is_digit(#[trigger] whole[i]) && whole[i] == prefix[i]);
        }
    }
}

/// A rendered natural never starts with '-', so signed and unsigned parses
/// agree on it.
pub proof fn lemma_nat_digits_signed(n: nat)
    ensures
        signed_val(nat_digits(n)) == Some(n as int),
    decreases n,
{
    lemma_nat_digits_val(n);
    let s = nat_digits(n);
    assert(is_digit(s[0])) by {
        assert(all_digits(s));
    }
    assert(s[0] != '-');
}

/// Rendering then parsing a signed value yields the value again.
pub proof fn lemma_int_digits_signed(v: int)
    ensures
        signed_val(int_digits(v)) == Some(v),
{
    if v < 0 {
        lemma_nat_digits_val((-v) as nat);
        let mag = nat_digits((-v) as nat);
        let s = int_digits(v);
        assert(s == seq!['-'] + mag);
        assert(s[0] == '-');
        assert(s.subrange(1, s.len() as int) =~= mag);
    } else {
        lemma_nat_digits_signed(v as nat);
    }
}

/// Appending digits only grows the denoted value (all characters digits).
pub proof fn lemma_digits_val_mono(s: Seq<char>, n: int)
    requires
        all_digits(s),
        0 <= n <= s.len(),
    ensures
        0 <= digits_val(s.subrange(0, n)) <= digits_val(s),
        all_digits(s.subrange(0, n)),
    decreases s.len() - n,
{
    if n == s.len() {
        assert(s.subrange(0, n) =~= s);
        lemma_digits_val_nonneg(s);
    } else {
        lemma_digits_val_mono(s, n + 1);
        let shorter = s.subrange(0, n);
        let longer = s.subrange(0, n + 1);
        assert(longer.drop_last() =~= shorter);
        assert(longer.last() == s[n]);
        lemma_digits_val_nonneg(shorter);
        assert(digits_val(longer) == digits_val(shorter) * 10 + digit_val(s[n]));
        assert(digit_val(s[n]) >= 0);
    }
}

pub proof fn lemma_digits_val_nonneg(s: Seq<char>)
    requires
        all_digits(s),
    ensures
        digits_val(s) >= 0,
    decreases s.len(),
{
    if s.len() > 0 {
        assert(all_digits(s.drop_last())) by {
            assert(forall|i: int|
                0 <= i < s.len() - 1 ==> is_digit(#[trigger] s.drop_last()[i]) && s.drop_last()[i]
                    == s[i]);
        }
        lemma_digits_val_nonneg(s.drop_last());
        assert(is_digit(s.last()));
    }
}

/// The characters of a string, as an indexable vector.
pub fn chars_of(s: &str) -> (v: Vec<char>)
    ensures
        v@ == s@,
{
    let n = s.unicode_len();
    let mut v: Vec<char> = Vec::new();
    let mut i: usize = 0;
    while i < n
        invariant
            i <= n,
            n == s@.len(),
            v@ == s@.subrange(0, i as int),
        decreases n - i,
    {
        let c = s.get_char(i);
        v.push(c);
        i = i + 1;
        assert(v@ =~= s@.subrange(0, i as int));
    }
    assert(v@ =~= s@);
    v
}

/// Whether two strings spell the same characters.
pub fn str_eq(a: &str, b: &str) -> (r: bool)
    ensures
        r == (a@ == b@),
{
    let na = a.unicode_len();
    let nb = b.unicode_len();
    if na != nb {
        return false;
    }
    let mut i: usize = 0;
    while i < na
        invariant
            i <= na == a@.len() == nb == b@.len(),
            forall|j: int| 0 <= j < i ==> a@[j] == b@[j],
        decreases na - i,
    {
        if a.get_char(i) != b.get_char(i) {
            return false;
        }
        i = i + 1;
    }
    proof {
        assert(a@ =~= b@);
    }
    true
}

/// The numeric value of a decimal digit character.
fn digit_value(c: char) -> (r: Option<u64>)
    ensures
        match r {
            Some(d) => digit_val(c) == d && d < 10,
            None => digit_val(c) == -1,
        },
{
    match c {
        '0' => Some(0),
        '1' => Some(1),
        '2' => Some(2),
        '3' => Some(3),
        '4' => Some(4),
        '5' => Some(5),
        '6' => Some(6),
        '7' => Some(7),
        '8' => Some(8),
        '9' => Some(9),
        _ => None,
    }
}

/// Parses `s[from..to]` as an unsigned decimal number.  Fails exactly when
/// the range is empty, holds a non-digit, or denotes a value above u64::MAX.
pub fn parse_u64_digits(s: &Vec<char>, from: usize, to: usize) -> (r: Option<u64>)
    requires
        from <= to <= s@.len(),
    ensures
        ({
            let sub = s@.subrange(from as int, to as int);
            match r {
                Some(n) => sub.len() > 0 && all_digits(sub) && digits_val(sub) == n,
                None => !(sub.len() > 0 && all_digits(sub) && digits_val(sub) <= u64::MAX),
            }
        }),
{
    let ghost sub = s@.subrange(from as int, to as int);
    if from == to {
        return None;
    }
    let mut acc: u64 = 0;
    let mut i = from;
    while i < to
        invariant
            from <= i <= to <= s@.len(),
            sub == s@.subrange(from as int, to as int),
            all_digits(sub.subrange(0, i - from)),
            acc == digits_val(sub.subrange(0, i - from)),
        decreases to - i,
    {
        let ghost done = sub.subrange(0, i - from);
        let c = s[i];
        assert(c == sub[i - from]);
        let d = match digit_value(c) {
            Some(d) => d,
            None => {
                assert(!all_digits(sub));
                return None;
            },
        };
        assert(sub.subrange(0, i + 1 - from).drop_last() =~= done);
        assert(sub.subrange(0, i + 1 - from).last() == c);
        let next = match acc.checked_mul(10) {
            Some(x) => x.checked_add(d),
            None => None,
        };
        match next {
            Some(x) => {
                acc = x;
            },
            None => {
                proof {
                    lemma_digits_val_nonneg(done);
                    if all_digits(sub) {
                        lemma_digits_val_mono(sub, i + 1 - from);
                        assert(digits_val(sub) >= digits_val(sub.subrange(0, i + 1 - from)));
                        assert(digits_val(sub.subrange(0, i + 1 - from)) == acc * 10 + d);
                    }
                }
                return None;
            },
        }
        i = i + 1;
    }
    assert(sub.subrange(0, to - from) =~= sub);
    Some(acc)
}

/// Parses `s[from..to]` as a signed decimal number (optional leading '-').
/// Fails exactly when the range does not denote a number, or the number does
/// not fit in an i64.
pub fn parse_i64_digits(s: &Vec<char>, from: usize, to: usize) -> (r: Option<i64>)
    requires
        from <= to <= s@.len(),
    ensures
        ({
            let sub = s@.subrange(from as int, to as int);
            match r {
                Some(v) => signed_val(sub) == Some(v as int),
                None => match signed_val(sub) {
                    Some(v) => !(i64::MIN <= v <= i64::MAX),
                    None => true,
                },
            }
        }),
{
    let ghost sub = s@.subrange(from as int, to as int);
    if from < to && s[from] == '-' {
        assert(sub[0] == '-');
        let ghost rest = sub.subrange(1, sub.len() as int);
        assert(rest =~= s@.subrange(from + 1, to as int));
        let mag = match parse_u64_digits(s, from + 1, to) {
            Some(m) => m,
            None => {
                proof {
                    if rest.len() > 0 && all_digits(rest) {
                        assert(digits_val(rest) > u64::MAX);
                    }
                }
                return None;
            },
        };
        if mag <= 9223372036854775807u64 {
            Some(0i64 - (mag as i64))
        } else if mag == 9223372036854775808u64 {
            Some(i64::MIN)
        } else {
            None
        }
    } else {
        let ghost first_minus = sub.len() > 0 && sub[0] == '-';
        assert(!first_minus);
        match parse_u64_digits(s, from, to) {
            Some(n) => {
                if n <= 9223372036854775807u64 {
                    Some(n as i64)
                } else {
                    None
                }
            },
            None => {
                proof {
                    if sub.len() > 0 && all_digits(sub) {
                        assert(digits_val(sub) > u64::MAX);
                    }
                }
                None
            },
        }
    }
}

/// Appends one decimal digit character to `out`.
fn append_digit(out: &mut String, d: u64)
    requires
        d < 10,
    ensures
        final(out)@ == old(out)@ + seq![digit_of(d as int)],
{
    proof {
        reveal_strlit("0");
        reveal_strlit("1");
        reveal_strlit("2");
        reveal_strlit("3");
        reveal_strlit("4");
        reveal_strlit("5");
        reveal_strlit("6");
        reveal_strlit("7");
        reveal_strlit("8");
        reveal_strlit("9");
    }
    if d == 0 {
        out.append("0");
    } else if d == 1 {
        out.append("1");
    } else if d == 2 {
        out.append("2");
    } else if d == 3 {
        out.append("3");
    } else if d == 4 {
        out.append("4");
    } else if d == 5 {
        out.append("5");
    } else if d == 6 {
        out.append("6");
    } else if d == 7 {
        out.append("7");
    } else if d == 8 {
        out.append("8");
    } else {
        out.append("9");
    }
    assert(final(out)@ =~= old(out)@ + seq![digit_of(d as int)]);
}

/// Appends the decimal rendering of `n` to `out`.
pub fn append_u64(out: &mut String, n: u64)
    ensures
        final(out)@ == old(out)@ + nat_digits(n as nat),
    decreases n,
{
    if n < 10 {
        append_digit(out, n);
    } else {
        append_u64(out, n / 10);
        append_digit(out, n % 10);
        assert(final(out)@ =~= old(out)@ + nat_digits(n as nat));
    }
}

/// Appends the decimal rendering of the signed value `v` to `out`.
pub fn append_i64(out: &mut String, v: i64)
    ensures
        final(out)@ == old(out)@ + int_digits(v as int),
{
    if v >= 0 {
        append_u64(out, v as u64);
    } else {
        proof {
            reveal_strlit("-");
        }
        out.append("-");
        let mag: u64 = if v == i64::MIN {
            9223372036854775808u64
        } else {
            (0i64 - v) as u64
        };
        assert(mag as nat == (-(v as int)) as nat);
        append_u64(out, mag);
        assert(final(out)@ =~= old(out)@ + int_digits(v as int));
    }
}

} // verus!

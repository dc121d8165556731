//! Decimal numerals: reading them as std's `from_str` for integers does, and
//! writing them as `Display` for integers does.
use vstd::prelude::*;
use crate::text::{hex_char, hex_digit};

verus! {

pub open spec fn is_digit(c: char) -> bool {
    '0' <= c && c <= '9'
}

pub open spec fn digit_value(c: char) -> int {
    c as int - 48
}

pub open spec fn all_digits(s: Seq<char>) -> bool {
    forall|i: int| 0 <= i < s.len() ==> #[trigger] is_digit(s[i])
}

/// The number that the decimal digits `s` stand for (0 for no digit).
pub open spec fn digits_value(s: Seq<char>) -> int
    decreases s.len(),
{
    if s.len() == 0 {
        0
    } else {
        digits_value(s.drop_last()) * 10 + digit_value(s.last())
    }
}

/// Whether `s` starts with a '+' or '-' sign.
pub open spec fn has_sign(s: Seq<char>) -> bool {
    s.len() > 0 && (s[0] == '+' || s[0] == '-')
}

/// The `i64` that `s` denotes, as `i64::from_str` reads it: an optional '+' or
/// '-', then one or more ASCII digits, with a value in range.
pub open spec fn spec_parse_i64(s: Seq<char>) -> Option<i64> {
    let d = if has_sign(s) {
        s.drop_first()
    } else {
        s
    };
    let v = if s.len() > 0 && s[0] == '-' {
        -digits_value(d)
    } else {
        digits_value(d)
    };
    if d.len() == 0 || !all_digits(d) || v < i64::MIN || v > i64::MAX {
        None
    } else {
        Some(v as i64)
    }
}

/// The `u8` that `s` denotes, as `u8::from_str` reads it: an optional '+',
/// then one or more ASCII digits, with a value of at most 255.
pub open spec fn spec_parse_u8(s: Seq<char>) -> Option<u8> {
    let d = if s.len() > 0 && s[0] == '+' {
        s.drop_first()
    } else {
        s
    };
    if d.len() == 0 || !all_digits(d) || digits_value(d) > 255 {
        None
    } else {
        Some(digits_value(d) as u8)
    }
}

/// The ASCII digit for `d < 10`.
pub open spec fn digit_char(d: nat) -> char {
    (48 + d) as char
}

/// The decimal digits of `n`, without leading zeros.
pub open spec fn decimal(n: nat) -> Seq<char>
    decreases n,
{
    if n < 10 {
        seq![digit_char(n)]
    } else {
        decimal(n / 10).push(digit_char(n % 10))
    }
}

/// How `Display` writes an integer: a '-' for a negative one, then its digits.
pub open spec fn signed_decimal(v: int) -> Seq<char> {
    if v < 0 {
        seq!['-'] + decimal((-v) as nat)
    } else {
        decimal(v as nat)
    }
}

pub proof fn lemma_digits_value_nonneg(s: Seq<char>)
    requires
        all_digits(s),
    ensures
        digits_value(s) >= 0,
    decreases s.len(),
{
    if s.len() > 0 {
        assert(is_digit(s[s.len() - 1]));
        lemma_digits_value_nonneg(s.drop_last());
    }
}

/// A prefix of digits never stands for more than all of them.
pub proof fn lemma_digits_value_prefix(s: Seq<char>, k: int)
    requires
        all_digits(s),
        0 <= k <= s.len(),
    ensures
        digits_value(s.take(k)) <= digits_value(s),
    decreases s.len(),
{
    if k < s.len() {
        let t = s.drop_last();
        assert(t.take(k) =~= s.take(k));
        assert(is_digit(s[s.len() - 1]));
        lemma_digits_value_prefix(t, k);
        lemma_digits_value_nonneg(t);
    } else {
        assert(s.take(k) =~= s);
    }
}

/// The decimal digits of `n` are digits and stand for `n`.
pub proof fn lemma_decimal(n: nat)
    ensures
        decimal(n).len() >= 1,
        all_digits(decimal(n)),
        digits_value(decimal(n)) == n,
    decreases n,
{
    if n >= 10 {
        lemma_decimal(n / 10);
        let d = decimal(n);
        assert(d.drop_last() =~= decimal(n / 10));
        assert forall|i: int| 0 <= i < d.len() implies #[trigger] is_digit(d[i]) by {
            if i < d.len() - 1 {
                assert(d[i] == decimal(n / 10)[i]);
            }
        }
        assert(d.last() == digit_char(n % 10));
        assert(digit_value(d.last()) == n % 10);
        assert(digits_value(d) == digits_value(decimal(n / 10)) * 10 + digit_value(d.last()));
        assert((n / 10) * 10 + n % 10 == n);
        assert(digits_value(d) == n);
    } else {
        let d = decimal(n);
        assert(d.drop_last() =~= Seq::<char>::empty());
        assert(digits_value(d.drop_last()) == 0);
        assert(digit_value(d.last()) == n);
        assert(digits_value(d) == n);
    }
}

/// A written integer reads back as itself.
pub proof fn parse_i64_signed_decimal(v: i64)
    ensures
        spec_parse_i64(signed_decimal(v as int)) == Some(v),
{
    let s = signed_decimal(v as int);
    if v < 0 {
        lemma_decimal((-v) as nat);
        assert(s.drop_first() =~= decimal((-v) as nat));
        assert(s[0] == '-');
    } else {
        lemma_decimal(v as nat);
        assert(is_digit(s[0]));
    }
}

/// A written slot number reads back as itself.
pub proof fn parse_u8_decimal(v: u8)
    ensures
        spec_parse_u8(decimal(v as nat)) == Some(v),
{
    lemma_decimal(v as nat);
    assert(is_digit(decimal(v as nat)[0]));
}

/// Whether every character of `s[from..]` is a digit.
fn digits_from(s: &[char], from: usize) -> (b: bool)
    requires
        from <= s@.len(),
    ensures
        b == all_digits(s@.skip(from as int)),
{
    let mut i: usize = from;
    while i < s.len()
        invariant
            from <= i <= s@.len(),
            forall|j: int| from <= j < i ==> #[trigger] is_digit(s@[j]),
        decreases s@.len() - i,
    {
        if !('0' <= s[i] && s[i] <= '9') {
            assert(!is_digit(s@.skip(from as int)[i - from]));
            return false;
        }
        i = i + 1;
    }
    assert forall|j: int| 0 <= j < s@.skip(from as int).len() implies #[trigger] is_digit(
        s@.skip(from as int)[j],
    ) by {
        assert(s@.skip(from as int)[j] == s@[from + j]);
    }
    true
}

/// The value of the digits `s[from..]`, negated when `neg`, if it fits an `i64`.
fn accumulate(s: &[char], from: usize, neg: bool) -> (r: Option<i64>)
    requires
        from <= s@.len(),
        all_digits(s@.skip(from as int)),
    ensures
        ({
            let v = if neg {
                -digits_value(s@.skip(from as int))
            } else {
                digits_value(s@.skip(from as int))
            };
            r == if i64::MIN <= v <= i64::MAX {
                Some(v as i64)
            } else {
                None::<i64>
            }
        }),
{
    let ghost d = s@.skip(from as int);
    let mut acc: i64 = 0;
    let mut i: usize = from;
    assert(d.take(0) =~= Seq::<char>::empty());
    while i < s.len()
        invariant
            from <= i <= s@.len(),
            d == s@.skip(from as int),
            all_digits(d),
            acc == (if neg {
                -digits_value(d.take(i - from))
            } else {
                digits_value(d.take(i - from))
            }),
        decreases s@.len() - i,
    {
        let ghost k = i - from;
        assert(is_digit(d[k]));
        assert(d[k] == s@[i as int]);
        assert(d.take(k + 1).drop_last() =~= d.take(k));
        assert(digits_value(d.take(k + 1)) == digits_value(d.take(k)) * 10 + digit_value(s@[i as int]));
        let dv = (s[i] as u32 - 48) as i64;
        proof {
            lemma_digits_value_prefix(d, k + 1);
        }
        let next = if neg {
            match acc.checked_mul(10) {
                Some(m) => m.checked_sub(dv),
                None => None,
            }
        } else {
            match acc.checked_mul(10) {
                Some(m) => m.checked_add(dv),
                None => None,
            }
        };
        match next {
            Some(n) => {
                acc = n;
            },
            None => {
                proof {
                    lemma_digits_value_nonneg(d.take(k));
                }
                return None;
            },
        }
        i = i + 1;
    }
    assert(d.take(i - from) =~= d);
    Some(acc)
}

/// Reads an `i64` as `i64::from_str` does.
pub fn read_i64(s: &[char]) -> (r: Option<i64>)
    ensures
        r == spec_parse_i64(s@),
{
    if s.len() == 0 {
        return None;
    }
    let sign = s[0] == '+' || s[0] == '-';
    let neg = s[0] == '-';
    let from: usize = if sign {
        1
    } else {
        0
    };
    assert(s@.skip(from as int) =~= if has_sign(s@) {
        s@.drop_first()
    } else {
        s@
    });
    if from == s.len() {
        return None;
    }
    if !digits_from(s, from) {
        return None;
    }
    accumulate(s, from, neg)
}

/// Reads a `u8` as `u8::from_str` does.
pub fn read_u8(s: &[char]) -> (r: Option<u8>)
    ensures
        r == spec_parse_u8(s@),
{
    if s.len() == 0 {
        return None;
    }
    let from: usize = if s[0] == '+' {
        1
    } else {
        0
    };
    assert(s@.skip(from as int) =~= if s@[0] == '+' {
        s@.drop_first()
    } else {
        s@
    });
    if from == s.len() {
        return None;
    }
    if !digits_from(s, from) {
        return None;
    }
    proof {
        lemma_digits_value_nonneg(s@.skip(from as int));
    }
    match accumulate(s, from, false) {
        Some(v) => {
            if 0 <= v && v <= 255 {
                Some(v as u8)
            } else {
                None
            }
        },
        None => None,
    }
}

/// Appends the decimal digits of `n`.
pub fn push_decimal(out: &mut Vec<char>, n: u64)
    ensures
        final(out)@ == old(out)@ + decimal(n as nat),
    decreases n,
{
    if n >= 10 {
        push_decimal(out, n / 10);
    }
    let d = (n % 10) as u8;
    out.push((48 + d) as char);
    assert(final(out)@ =~= old(out)@ + decimal(n as nat)) by {
        if n >= 10 {
            assert(decimal(n as nat) == decimal((n / 10) as nat).push(digit_char((n % 10) as nat)));
        }
    }
}

/// Appends `v` as `Display` writes it.
pub fn push_signed(out: &mut Vec<char>, v: i64)
    ensures
        final(out)@ == old(out)@ + signed_decimal(v as int),
{
    if v < 0 {
        out.push('-');
        let mag: u64 = if v == i64::MIN {
            9223372036854775808
        } else {
            (-v) as u64
        };
        push_decimal(out, mag);
        assert(final(out)@ =~= old(out)@ + signed_decimal(v as int));
    } else {
        push_decimal(out, v as u64);
    }
}

/// The upper-case hexadecimal digits of `n`, without leading zeros.
pub open spec fn hex(n: nat) -> Seq<char>
    decreases n,
{
    if n < 16 {
        seq![hex_char(n as u8)]
    } else {
        hex(n / 16).push(hex_char((n % 16) as u8))
    }
}

/// The hexadecimal digits of `n`, with leading zeros up to `width` digits, as
/// the format `{:0width$X}` writes them.
pub open spec fn hex_padded(n: nat, width: nat) -> Seq<char> {
    let h = hex(n);
    if h.len() < width {
        Seq::new((width - h.len()) as nat, |i: int| '0') + h
    } else {
        h
    }
}

/// Appends the hexadecimal digits of `n`.
pub fn push_hex(out: &mut Vec<char>, n: u64)
    ensures
        final(out)@ == old(out)@ + hex(n as nat),
    decreases n,
{
    if n >= 16 {
        push_hex(out, n / 16);
    }
    let d = hex_digit((n % 16) as u8);
    out.push(d);
    assert(final(out)@ =~= old(out)@ + hex(n as nat)) by {
        if n >= 16 {
            assert(hex(n as nat) == hex((n / 16) as nat).push(hex_char((n % 16) as u8)));
        }
    }
}

/// Appends the hexadecimal digits of `n`, padded with zeros to `width` digits.
pub fn push_hex_padded(out: &mut Vec<char>, n: u64, width: usize)
    ensures
        final(out)@ == old(out)@ + hex_padded(n as nat, width as nat),
{
    let mut digits: Vec<char> = Vec::new();
    push_hex(&mut digits, n);
    assert(digits@ =~= hex(n as nat));
    let ghost start = out@;
    if digits.len() < width {
        let pad = width - digits.len();
        let mut i: usize = 0;
        while i < pad
            invariant
                i <= pad,
                out@ == start + Seq::new(i as nat, |j: int| '0'),
            decreases pad - i,
        {
            out.push('0');
            assert(Seq::new((i + 1) as nat, |j: int| '0') =~= Seq::new(i as nat, |j: int| '0').push('0'));
            i = i + 1;
        }
    }
    let ghost mid = out@;
    let mut k: usize = 0;
    while k < digits.len()
        invariant
            k <= digits@.len(),
            out@ == mid + digits@.take(k as int),
        decreases digits@.len() - k,
    {
        out.push(digits[k]);
        assert(digits@.take(k + 1) =~= digits@.take(k as int).push(digits@[k as int]));
        k = k + 1;
    }
    assert(digits@.take(k as int) =~= digits@);
    assert(final(out)@ =~= old(out)@ + hex_padded(n as nat, width as nat));
}

/// A single ASCII digit reads as its value.
pub proof fn single_digit_reads_as_its_value(c: char)
    requires
        '0' <= c <= '9',
    ensures
        spec_parse_i64(seq![c]) == Some((c as int - 48) as i64),
        spec_parse_u8(seq![c]) == Some((c as int - 48) as u8),
{
    let s = seq![c];
    assert(s.drop_last() =~= Seq::<char>::empty());
    assert(digits_value(s.drop_last()) == 0);
    assert(s[0] == c && s.last() == c);
    assert(digits_value(s) == c as int - 48);
    assert(is_digit(c));
    assert(all_digits(s));
    assert(!has_sign(s));
}

/// Appending a digit to a numeral of digits multiplies its value by ten and
/// adds the digit: when the longer numeral reads as `w`, the shorter one reads
/// as `v` with `w == 10 * v + digit`.
pub proof fn appending_a_digit(d: Seq<char>, c: char)
    requires
        d.len() > 0,
        all_digits(d),
        '0' <= c <= '9',
    ensures
        spec_parse_i64(d.push(c)) matches Some(w) ==> (spec_parse_i64(d) matches Some(v) && w as int == 10
            * v + (c as int - 48)),
        spec_parse_u8(d.push(c)) matches Some(w) ==> (spec_parse_u8(d) matches Some(v) && w as int == 10 * v
            + (c as int - 48)),
{
    let e = d.push(c);
    assert(e.drop_last() =~= d);
    assert(all_digits(e)) by {
        assert forall|i: int| 0 <= i < e.len() implies #[trigger] is_digit(e[i]) by {
            if i < d.len() {
                assert(e[i] == d[i]);
            }
        }
    }
    assert(is_digit(d[0]));
    assert(is_digit(e[0]));
    lemma_digits_value_nonneg(d);
}

/// A '+' in front changes nothing, and a '-' in front negates: when both `d`
/// and `-d` read as numbers, one is the negation of the other, and `-d` reads
/// whenever `d` does.
pub proof fn signs_in_front(d: Seq<char>)
    requires
        d.len() > 0,
        all_digits(d),
    ensures
        spec_parse_i64(seq!['+'] + d) == spec_parse_i64(d),
        spec_parse_i64(d) matches Some(v) ==> spec_parse_i64(seq!['-'] + d) == Some((-v) as i64),
        spec_parse_i64(seq!['-'] + d) matches Some(w) ==> w <= 0,
        spec_parse_u8(seq!['+'] + d) == spec_parse_u8(d),
        spec_parse_u8(seq!['-'] + d) is None,
{
    assert((seq!['+'] + d).drop_first() =~= d);
    assert((seq!['-'] + d).drop_first() =~= d);
    assert((seq!['+'] + d)[0] == '+');
    assert((seq!['-'] + d)[0] == '-');
    assert(is_digit(d[0]));
    lemma_digits_value_nonneg(d);
    assert(!is_digit((seq!['-'] + d)[0]));
}

/// A slot numeral reads as the same number in both widths: whatever reads as a
/// `u8` reads as the same `i64`, and an `i64` numeral without a '-' whose value
/// is at most 255 reads as that `u8`.
pub proof fn slot_numerals_agree_with_integers(t: Seq<char>)
    ensures
        spec_parse_u8(t) matches Some(k) ==> spec_parse_i64(t) == Some(k as i64),
        t.len() > 0 && t[0] != '-' ==> (spec_parse_i64(t) matches Some(v) ==> (0 <= v <= 255 ==> spec_parse_u8(
            t,
        ) == Some(v as u8))),
{
    if t.len() > 0 && t[0] != '+' && t[0] != '-' {
    }
    if t.len() > 0 && spec_parse_u8(t) is Some {
        let d = if t[0] == '+' { t.drop_first() } else { t };
        lemma_digits_value_nonneg(d);
        if t[0] != '+' {
            assert(is_digit(t[0]));
        }
    }
    if t.len() > 0 && t[0] != '-' && spec_parse_i64(t) is Some {
        let d = if t[0] == '+' { t.drop_first() } else { t };
        lemma_digits_value_nonneg(d);
    }
}

} // verus!

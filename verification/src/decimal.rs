//! Decimal text: rendering unsigned integers as ASCII digits and parsing
//! them back with the grammar of `str::parse::<u32>`.

use vstd::prelude::*;
use vstd::string::StringSliceAdditionalSpecFns;

verus! {

/// The ASCII code of `'0'`.
pub open spec fn zero_code() -> int {
    48
}

/// `b` is an ASCII decimal digit.
pub open spec fn is_digit(b: u8) -> bool {
    48 <= b <= 57
}

/// Every byte of `s` is an ASCII decimal digit.
pub open spec fn all_digits(s: Seq<u8>) -> bool {
    forall|i: int| 0 <= i < s.len() ==> is_digit(#[trigger] s[i])
}

/// The number written by the digit string `s` (most significant digit first).
pub open spec fn digits_value(s: Seq<u8>) -> int
    decreases s.len(),
{
    if s.len() == 0 {
        0
    } else {
        digits_value(s.drop_last()) * 10 + (s.last() - zero_code())
    }
}

/// The digits that `parse` reads: the text without one leading `'+'`.
pub open spec fn unsigned_digits(s: Seq<u8>) -> Seq<u8> {
    if s.len() > 0 && s[0] == 43u8 {
        s.drop_first()
    } else {
        s
    }
}

/// What `str::parse::<u32>` gives for the text whose bytes are `s`: an
/// optional `'+'`, then one or more decimal digits whose value fits a `u32`.
pub open spec fn parse_u32_spec(s: Seq<u8>) -> Option<u32> {
    let d = unsigned_digits(s);
    if d.len() > 0 && all_digits(d) && digits_value(d) <= u32::MAX {
        Some(digits_value(d) as u32)
    } else {
        None
    }
}

/// The shortest decimal digit string of `n`.
pub open spec fn decimal_digits(n: nat) -> Seq<u8>
    decreases n,
{
    if n < 10 {
        seq![(zero_code() + n) as u8]
    } else {
        decimal_digits(n / 10).push((zero_code() + n % 10) as u8)
    }
}

/// The characters of an ASCII byte string.
pub open spec fn ascii_chars(s: Seq<u8>) -> Seq<char> {
    s.map_values(|b: u8| b as char)
}

/// The decimal text of `n`, as `n.to_string()` writes it.
pub open spec fn decimal_chars(n: nat) -> Seq<char> {
    ascii_chars(decimal_digits(n))
}

/// The decimal text of `n` is a non-empty string of digits that reads as `n`.
pub proof fn lemma_decimal_digits_are_digits(n: nat)
    ensures
        all_digits(decimal_digits(n)),
        decimal_digits(n).len() > 0,
        digits_value(decimal_digits(n)) == n,
    decreases n,
{
    if n >= 10 {
        lemma_decimal_digits_are_digits(n / 10);
        let s = decimal_digits(n);
        assert(s.drop_last() =~= decimal_digits(n / 10));
        assert(s.last() == (zero_code() + n % 10) as u8);
        assert((s.last() - zero_code()) == n % 10);
        assert(n == (n / 10) * 10 + n % 10);
        assert(digits_value(s) == digits_value(s.drop_last()) * 10 + (s.last() - zero_code()));
    } else {
        let s = decimal_digits(n);
        assert(s.drop_last() =~= Seq::<u8>::empty());
        assert(digits_value(Seq::<u8>::empty()) == 0);
        assert(s.last() == (zero_code() + n) as u8);
        assert(digits_value(s) == digits_value(s.drop_last()) * 10 + (s.last() - zero_code()));
    }
}

/// The decimal text of `n` has no leading zero: it is `"0"` for zero and
/// starts with a digit other than `'0'` otherwise, so it is the shortest
/// digit string that reads as `n`.
pub proof fn lemma_decimal_digits_shortest(n: nat)
    ensures
        n == 0 ==> decimal_digits(n) == seq![48u8],
        n > 0 ==> decimal_digits(n)[0] != 48u8,
        n > 0 ==> decimal_chars(n)[0] != '0',
        n == 0 ==> decimal_chars(n) == seq!['0'],
    decreases n,
{
    lemma_decimal_digits_are_digits(n);
    if n >= 10 {
        lemma_decimal_digits_shortest(n / 10);
        lemma_decimal_digits_are_digits(n / 10);
        assert(decimal_digits(n)[0] == decimal_digits(n / 10)[0]);
    }
    let d = decimal_digits(n);
    assert(decimal_chars(n)[0] == d[0] as char);
    if n == 0 {
        assert(decimal_chars(n) =~= seq!['0']);
    }
}

/// Parsing the decimal text of a `u32` gives the number back.
pub proof fn lemma_parse_decimal_roundtrip(n: u32)
    ensures
        parse_u32_spec(decimal_digits(n as nat)) == Some(n),
{
    lemma_decimal_digits_are_digits(n as nat);
}

proof fn lemma_prefix_value_bounded(s: Seq<u8>, k: int)
    requires
        all_digits(s),
        0 <= k <= s.len(),
    ensures
        0 <= digits_value(s.take(k)) <= digits_value(s),
    decreases s.len(),
{
    if k == s.len() {
        assert(s.take(k) =~= s);
        if s.len() > 0 {
            lemma_prefix_value_bounded(s.drop_last(), k - 1);
            assert(s.drop_last().take(k - 1) =~= s.drop_last());
        }
    } else {
        lemma_prefix_value_bounded(s.drop_last(), k);
        assert(s.drop_last().take(k) =~= s.take(k));
        assert(is_digit(s[s.len() - 1]));
    }
}

/// Parses the text whose bytes are `s` as `str::parse::<u32>` does.
pub fn parse_u32_bytes(s: &[u8]) -> (r: Option<u32>)
    ensures
        r == parse_u32_spec(s@),
{
    let n = s.len();
    let mut start: usize = 0;
    if n > 0 && s[0] == 43u8 {
        start = 1;
    }
    let ghost d = unsigned_digits(s@);
    assert(d =~= s@.subrange(start as int, n as int));
    if start >= n {
        return None;
    }
    let mut value: u32 = 0;
    let mut i: usize = start;
    assert(s@.subrange(start as int, start as int) =~= Seq::<u8>::empty());
    while i < n
        invariant
            start <= i <= n,
            n == s@.len(),
            d =~= s@.subrange(start as int, n as int),
            d == unsigned_digits(s@),
            d.len() > 0,
            all_digits(s@.subrange(start as int, i as int)),
            value as int == digits_value(s@.subrange(start as int, i as int)),
        decreases n - i,
    {
        let b = s[i];
        let ghost k: int = i - start;
        assert(d[k] == b);
        if b < 48u8 || b > 57u8 {
            assert(!is_digit(d[k]));
            return None;
        }
        let dv: u32 = (b - 48u8) as u32;
        let ghost next = s@.subrange(start as int, i + 1);
        assert(next.drop_last() =~= s@.subrange(start as int, i as int));
        assert(next.last() == b);
        assert(all_digits(next));
        if value > (u32::MAX - dv) / 10 {
            proof {
                assert(digits_value(next) > u32::MAX);
                if all_digits(d) {
                    lemma_prefix_value_bounded(d, k + 1);
                    assert(d.take(k + 1) =~= next);
                }
            }
            return None;
        }
        value = value * 10 + dv;
        i = i + 1;
    }
    assert(s@.subrange(start as int, n as int) =~= d);
    Some(value)
}

/// Parses `s` as `s.parse::<u32>()` does.
pub fn parse_u32_str(s: &str) -> (r: Option<u32>)
    ensures
        r == parse_u32_spec(s.spec_bytes()),
{
    parse_u32_bytes(s.as_bytes())
}

proof fn lemma_zero_bytes_prefix(k: nat, s: Seq<u8>)
    ensures
        digits_value(Seq::new(k, |i: int| 48u8) + s) == digits_value(s),
    decreases s.len(), k,
{
    let z = Seq::new(k, |i: int| 48u8);
    if s.len() > 0 {
        lemma_zero_bytes_prefix(k, s.drop_last());
        assert((z + s).drop_last() =~= z + s.drop_last());
    } else if k > 0 {
        lemma_zero_bytes_prefix((k - 1) as nat, s);
        assert((z + s).drop_last() =~= Seq::new((k - 1) as nat, |i: int| 48u8) + s);
        assert(z + s =~= z);
    } else {
        assert(z + s =~= Seq::<u8>::empty());
    }
}

/// `parse` reads a `u32` written with any number of leading zeros, with or
/// without a leading `'+'`.
pub proof fn lemma_parse_padded_and_signed(n: u32, k: nat)
    ensures
        parse_u32_spec(Seq::new(k, |i: int| 48u8) + decimal_digits(n as nat)) == Some(n),
        parse_u32_spec(seq![43u8] + Seq::new(k, |i: int| 48u8) + decimal_digits(n as nat)) == Some(n),
{
    let z = Seq::new(k, |i: int| 48u8);
    let d = decimal_digits(n as nat);
    lemma_decimal_digits_are_digits(n as nat);
    lemma_zero_bytes_prefix(k, d);
    let t = z + d;
    assert forall|i: int| 0 <= i < t.len() implies is_digit(#[trigger] t[i]) by {
        if i >= z.len() {
            assert(t[i] == d[i - z.len()]);
        }
    }
    assert(t[0] != 43u8);
    assert(unsigned_digits(t) == t);
    let p = seq![43u8] + t;
    assert(p.drop_first() =~= t);
    assert(seq![43u8] + z + d =~= p);
}

/// `parse` refuses a text with a byte that is not a digit, other than one
/// leading `'+'`.
pub proof fn lemma_parse_rejects_non_digit(s: Seq<u8>, i: int)
    requires
        0 <= i < s.len(),
        !(48 <= s[i] <= 57),
        !(i == 0 && s[0] == 43u8),
    ensures
        parse_u32_spec(s) is None,
{
    let d = unsigned_digits(s);
    if s.len() > 0 && s[0] == 43u8 {
        assert(d[i - 1] == s[i]);
    } else {
        assert(d[i] == s[i]);
    }
}

/// `parse` refuses the empty text, a lone `'+'`, and numbers above `u32::MAX`.
pub proof fn lemma_parse_rejects_empty_and_too_large(n: nat)
    ensures
        parse_u32_spec(Seq::<u8>::empty()) is None,
        parse_u32_spec(seq![43u8]) is None,
        n > u32::MAX ==> parse_u32_spec(decimal_digits(n)) is None,
        n > u32::MAX ==> parse_u32_spec(seq![43u8] + decimal_digits(n)) is None,
{
    assert(seq![43u8].drop_first() =~= Seq::<u8>::empty());
    lemma_decimal_digits_are_digits(n);
    let d = decimal_digits(n);
    assert(d[0] != 43u8);
    assert((seq![43u8] + d).drop_first() =~= d);
}

fn digit_text(d: u64) -> (s: &'static str)
    requires
        d < 10,
    ensures
        s@ == seq![((zero_code() + d) as u8) as char],
{
    if d == 0 {
        proof { reveal_strlit("0"); }
        "0"
    } else if d == 1 {
        proof { reveal_strlit("1"); }
        "1"
    } else if d == 2 {
        proof { reveal_strlit("2"); }
        "2"
    } else if d == 3 {
        proof { reveal_strlit("3"); }
        "3"
    } else if d == 4 {
        proof { reveal_strlit("4"); }
        "4"
    } else if d == 5 {
        proof { reveal_strlit("5"); }
        "5"
    } else if d == 6 {
        proof { reveal_strlit("6"); }
        "6"
    } else if d == 7 {
        proof { reveal_strlit("7"); }
        "7"
    } else if d == 8 {
        proof { reveal_strlit("8"); }
        "8"
    } else {
        proof { reveal_strlit("9"); }
        "9"
    }
}

/// Appends the decimal text of `n` to `out`.
pub fn append_decimal(out: &mut String, n: u64)
    ensures
        final(out)@ == old(out)@ + decimal_chars(n as nat),
    decreases n,
{
    if n >= 10 {
        append_decimal(out, n / 10);
    }
    out.append(digit_text(n % 10));
    proof {
        let d = decimal_digits(n as nat);
        if n >= 10 {
            assert(ascii_chars(d) =~= ascii_chars(decimal_digits((n / 10) as nat)).push(
                ((zero_code() + n % 10) as u8) as char,
            ));
        } else {
            assert(ascii_chars(d) =~= seq![((zero_code() + n) as u8) as char]);
        }
    }
}

/// The decimal text of `n`.
pub fn decimal_string(n: u64) -> (s: String)
    ensures
        s@ == decimal_chars(n as nat),
        n == 0 ==> s@ == seq!['0'],
        n > 0 ==> s@[0] != '0',
{
    let mut s = String::new();
    append_decimal(&mut s, n);
    assert(s@ =~= decimal_chars(n as nat));
    proof {
        lemma_decimal_digits_shortest(n as nat);
    }
    s
}

} // verus!

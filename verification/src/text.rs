//! Number formatting and parsing in the text forms the tracers use:
//! lowercase hexadecimal (`{:x}`, `u64::from_str_radix(_, 16)`) and decimal
//! (`to_string`).
use vstd::prelude::*;
use vstd::string::{StrSliceExecFns, StringExecFns};

verus! {

/// Appends a character to a string (`String::push`).
#[verifier::external_body]
pub(crate) fn push_char(s: &mut String, c: char)
    ensures
        final(s)@ == old(s)@.push(c),
{
    s.push(c);
}

/// The character of a digit below 16, lowercase.
pub open spec fn digit_char(d: nat) -> char {
    if d < 10 {
        ((d + 48) as u32) as char
    } else {
        ((d - 10 + 97) as u32) as char
    }
}

/// The shortest lowercase hexadecimal form of a number, as `{:x}` writes it.
pub open spec fn hex_digits(n: nat) -> Seq<char>
    decreases n,
{
    if n < 16 {
        seq![digit_char(n)]
    } else {
        hex_digits(n / 16).push(digit_char(n % 16))
    }
}

/// The shortest decimal form of a number, as `to_string` writes it.
pub open spec fn decimal_digits(n: nat) -> Seq<char>
    decreases n,
{
    if n < 10 {
        seq![digit_char(n)]
    } else {
        decimal_digits(n / 10).push(digit_char(n % 10))
    }
}

/// The decimal form of a signed number, as `to_string` writes it.
pub open spec fn signed_decimal(n: int) -> Seq<char> {
    if n < 0 {
        seq!['-'] + decimal_digits((-n) as nat)
    } else {
        decimal_digits(n as nat)
    }
}

/// The value of a hexadecimal digit (either case), if the character is one.
pub open spec fn hex_digit_value(c: char) -> Option<nat> {
    if '0' <= c && c <= '9' {
        Some((c as u32 - 48) as nat)
    } else if 'a' <= c && c <= 'f' {
        Some((c as u32 - 97 + 10) as nat)
    } else if 'A' <= c && c <= 'F' {
        Some((c as u32 - 65 + 10) as nat)
    } else {
        None
    }
}

/// Whether every character is a hexadecimal digit.
pub open spec fn all_hex_digits(s: Seq<char>) -> bool {
    forall|i: int| 0 <= i < s.len() ==> (#[trigger] hex_digit_value(s[i])) is Some
}

/// The value of a string of hexadecimal digits.
pub open spec fn hex_value(s: Seq<char>) -> nat
    decreases s.len(),
{
    if s.len() == 0 {
        0
    } else {
        hex_value(s.drop_last()) * 16 + hex_digit_value(s.last())->0
    }
}

/// What `u64::from_str_radix(s, 16)` accepts and gives: an optional `+`,
/// then at least one hexadecimal digit, with a value that fits in 64 bits.
pub open spec fn parse_hex_u64(s: Seq<char>) -> Option<u64> {
    let digits = if s.len() > 0 && s[0] == '+' {
        s.drop_first()
    } else {
        s
    };
    if digits.len() == 0 || !all_hex_digits(digits) || hex_value(digits) > u64::MAX {
        None
    } else {
        Some(hex_value(digits) as u64)
    }
}

proof fn lemma_digit_char(d: nat)
    requires
        d < 16,
    ensures
        hex_digit_value(digit_char(d)) == Some(d),
        digit_char(d) != '+',
        d < 10 ==> digit_char(d) as u32 == d + 48,
{
    if d < 10 {
        assert(((d + 48) as u32) as char as u32 == (d + 48) as u32);
    } else {
        assert(((d - 10 + 97) as u32) as char as u32 == (d - 10 + 97) as u32);
    }
}

proof fn lemma_hex_digits_props(n: nat)
    ensures
        hex_digits(n).len() > 0,
        all_hex_digits(hex_digits(n)),
        hex_digits(n)[0] != '+',
        hex_value(hex_digits(n)) == n,
    decreases n,
{
    lemma_digit_char(n % 16);
    if n < 16 {
        assert(hex_digits(n).drop_last() =~= Seq::<char>::empty());
        assert(hex_digits(n).last() == digit_char(n));
        assert(hex_value(hex_digits(n)) == hex_value(Seq::<char>::empty()) * 16 + n);
    } else {
        lemma_hex_digits_props(n / 16);
        let s = hex_digits(n);
        assert(s.drop_last() == hex_digits(n / 16));
        assert(s.last() == digit_char(n % 16));
        assert(hex_value(s) == hex_value(hex_digits(n / 16)) * 16 + (n % 16));
        assert((n / 16) * 16 + n % 16 == n);
        assert forall|i: int| 0 <= i < s.len() implies (#[trigger] hex_digit_value(s[i])) is Some by {
            if i < s.len() - 1 {
                assert(s[i] == hex_digits(n / 16)[i]);
            }
        }
    }
}

/// Hexadecimal formatting and parsing undo each other.
pub proof fn lemma_parse_hex_round_trip(n: u64)
    ensures
        parse_hex_u64(hex_digits(n as nat)) == Some(n),
{
    lemma_hex_digits_props(n as nat);
}

proof fn lemma_hex_value_monotone(s: Seq<char>, k: int)
    requires
        0 <= k <= s.len(),
    ensures
        hex_value(s.subrange(0, k)) <= hex_value(s),
    decreases s.len() - k,
{
    if k < s.len() {
        lemma_hex_value_monotone(s, k + 1);
        assert(s.subrange(0, k + 1).drop_last() =~= s.subrange(0, k));
    } else {
        assert(s.subrange(0, k) =~= s);
    }
}

/// The value of a hexadecimal digit, if the character is one.
fn hex_digit(c: char) -> (r: Option<u8>)
    ensures
        match r {
            Some(d) => hex_digit_value(c) == Some(d as nat) && d < 16,
            None => hex_digit_value(c) is None,
        },
{
    if '0' <= c && c <= '9' {
        Some((c as u32 - 48) as u8)
    } else if 'a' <= c && c <= 'f' {
        Some((c as u32 - 97 + 10) as u8)
    } else if 'A' <= c && c <= 'F' {
        Some((c as u32 - 65 + 10) as u8)
    } else {
        None
    }
}

/// Parses a hexadecimal number as `u64::from_str_radix(s, 16)` does.
pub fn parse_hex(s: &str) -> (r: Option<u64>)
    ensures
        r == parse_hex_u64(s@),
{
    let n = s.unicode_len();
    let mut i: usize = 0;
    if n > 0 && s.get_char(0) == '+' {
        i = 1;
    }
    let start = i;
    let ghost digits = if s@.len() > 0 && s@[0] == '+' {
        s@.drop_first()
    } else {
        s@
    };
    assert(digits =~= s@.subrange(start as int, n as int));
    if i == n {
        return None;
    }
    let mut acc: u64 = 0;
    while i < n
        invariant
            n == s@.len(),
            start <= i <= n,
            digits == s@.subrange(start as int, n as int),
            digits == (if s@.len() > 0 && s@[0] == '+' {
                s@.drop_first()
            } else {
                s@
            }),
            all_hex_digits(digits.subrange(0, i - start)),
            acc == hex_value(digits.subrange(0, i - start)),
        decreases n - i,
    {
        let c = s.get_char(i);
        assert(c == digits[i - start]);
        match hex_digit(c) {
            None => {
                assert(hex_digit_value(digits[i - start]) is None);
                assert(!all_hex_digits(digits));
                return None;
            },
            Some(d) => {
                let ghost k = (i - start) as int;
                assert(digits.subrange(0, k + 1).drop_last() =~= digits.subrange(0, k));
                assert(hex_value(digits.subrange(0, k + 1)) == acc * 16 + d);
                if acc > (u64::MAX - d as u64) / 16 {
                    proof {
                        lemma_hex_value_monotone(digits, k + 1);
                    }
                    return None;
                }
                acc = acc * 16 + d as u64;
                assert forall|j: int| 0 <= j < k + 1 implies (#[trigger] hex_digit_value(
                    digits.subrange(0, k + 1)[j],
                )) is Some by {
                    if j < k {
                        assert(digits.subrange(0, k + 1)[j] == digits.subrange(0, k)[j]);
                    }
                }
                i = i + 1;
            },
        }
    }
    assert(digits.subrange(0, n - start) =~= digits);
    Some(acc)
}

/// The `{:x}` form of a number.
pub fn format_hex(n: u64) -> (s: String)
    ensures
        s@ == hex_digits(n as nat),
{
    // collect the digits least significant first
    let mut digits: Vec<char> = Vec::new();
    let mut m: u64 = n;
    while m >= 16
        invariant
            hex_digits(n as nat) == hex_digits(m as nat) + digits@.reverse(),
        decreases m,
    {
        let d = (m % 16) as u8;
        let c = if d < 10 { (d + 48) as char } else { (d - 10 + 97) as char };
        assert(c == digit_char((m % 16) as nat));
        let ghost before = digits@;
        digits.push(c);
        assert(digits@.reverse() =~= seq![c] + before.reverse());
        assert(hex_digits(m as nat) == hex_digits((m / 16) as nat).push(c));
        m = m / 16;
        assert(hex_digits(n as nat) =~= hex_digits(m as nat) + digits@.reverse());
    }
    let d = m as u8;
    let c = if d < 10 { (d + 48) as char } else { (d - 10 + 97) as char };
    let ghost before = digits@;
    digits.push(c);
    assert(digits@.reverse() =~= seq![c] + before.reverse());
    assert(hex_digits(n as nat) =~= digits@.reverse());
    let mut s = String::new();
    let len = digits.len();
    let mut i: usize = len;
    while i > 0
        invariant
            i <= len,
            len == digits@.len(),
            s@ == digits@.reverse().subrange(0, (len - i) as int),
        decreases i,
    {
        i = i - 1;
        push_char(&mut s, digits[i]);
        assert(s@ =~= digits@.reverse().subrange(0, (len - i) as int));
    }
    assert(digits@.reverse().subrange(0, len as int) =~= digits@.reverse());
    s
}

/// The decimal form of a number, as `to_string` writes it.
pub fn format_decimal(n: u128) -> (s: String)
    ensures
        s@ == decimal_digits(n as nat),
{
    let mut digits: Vec<char> = Vec::new();
    let mut m: u128 = n;
    while m >= 10
        invariant
            decimal_digits(n as nat) == decimal_digits(m as nat) + digits@.reverse(),
        decreases m,
    {
        let c = ((m % 10) as u8 + 48) as char;
        assert(c == digit_char((m % 10) as nat));
        let ghost before = digits@;
        digits.push(c);
        assert(digits@.reverse() =~= seq![c] + before.reverse());
        assert(decimal_digits(m as nat) == decimal_digits((m / 10) as nat).push(c));
        m = m / 10;
        assert(decimal_digits(n as nat) =~= decimal_digits(m as nat) + digits@.reverse());
    }
    let c = (m as u8 + 48) as char;
    let ghost before = digits@;
    digits.push(c);
    assert(digits@.reverse() =~= seq![c] + before.reverse());
    assert(decimal_digits(n as nat) =~= digits@.reverse());
    let mut s = String::new();
    let len = digits.len();
    let mut i: usize = len;
    while i > 0
        invariant
            i <= len,
            len == digits@.len(),
            s@ == digits@.reverse().subrange(0, (len - i) as int),
        decreases i,
    {
        i = i - 1;
        push_char(&mut s, digits[i]);
        assert(s@ =~= digits@.reverse().subrange(0, (len - i) as int));
    }
    assert(digits@.reverse().subrange(0, len as int) =~= digits@.reverse());
    s
}

/// The decimal form of a signed number, as `to_string` writes it.
pub fn format_signed_decimal(n: i128) -> (s: String)
    ensures
        s@ == signed_decimal(n as int),
{
    if n < 0 {
        let magnitude: u128 = (-(n + 1)) as u128 + 1;
        let digits = format_decimal(magnitude);
        let mut s = String::new();
        push_char(&mut s, '-');
        s.append(digits.as_str());
        assert(s@ =~= seq!['-'] + decimal_digits((-n) as nat));
        s
    } else {
        format_decimal(n as u128)
    }
}

/// Whether `s` begins with `prefix`.
pub fn has_prefix(s: &str, prefix: &str) -> (r: bool)
    ensures
        r == (prefix@.len() <= s@.len() && s@.subrange(0, prefix@.len() as int) == prefix@),
{
    let n = s.unicode_len();
    let m = prefix.unicode_len();
    if m > n {
        return false;
    }
    let mut i: usize = 0;
    while i < m
        invariant
            n == s@.len(),
            m == prefix@.len(),
            m <= n,
            i <= m,
            s@.subrange(0, i as int) == prefix@.subrange(0, i as int),
        decreases m - i,
    {
        if s.get_char(i) != prefix.get_char(i) {
            assert(s@.subrange(0, m as int)[i as int] != prefix@[i as int]);
            return false;
        }
        i = i + 1;
        assert(s@.subrange(0, i as int) =~= prefix@.subrange(0, i as int));
    }
    assert(prefix@.subrange(0, m as int) =~= prefix@);
    true
}

/// The characters of `s` from position `from` on, as a new string.
pub fn suffix_from(s: &str, from: usize) -> (r: String)
    requires
        from <= s@.len(),
    ensures
        r@ == s@.subrange(from as int, s@.len() as int),
{
    let n = s.unicode_len();
    s.substring_char(from, n).to_owned()
}

} // verus!

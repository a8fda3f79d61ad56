//! Settings that come from the environment as text.
use vstd::prelude::*;
use crate::text::chars_of;

verus! {

/// Seconds that one external command may take when nothing else is set.
pub const DEFAULT_TIMEOUT_SECS: u64 = 600;

/// Whether `c` is an ASCII decimal digit, `'0'` (48) to `'9'` (57).
pub open spec fn is_digit(c: char) -> bool {
    48 <= c as u32 && c as u32 <= 57
}

/// The number that the decimal digits `s` write.
pub open spec fn digits_value(s: Seq<char>) -> int
    decreases s.len(),
{
    if s.len() == 0 {
        0
    } else {
        digits_value(s.drop_last()) * 10 + (s.last() as u32 - 48)
    }
}

/// The digits of an unsigned number in text: all of it, or all after a
/// leading `+`.
pub open spec fn unsigned_digits(s: Seq<char>) -> Seq<char> {
    if s.len() > 0 && s[0] == '+' {
        s.drop_first()
    } else {
        s
    }
}

/// The `u64` that `s` writes as `str::parse` reads it: an optional `+`, then
/// one or more decimal digits, of a value that fits; nothing otherwise.
pub open spec fn parse_u64_spec(s: Seq<char>) -> Option<u64> {
    let d = unsigned_digits(s);
    if d.len() > 0 && (forall|i: int| 0 <= i < d.len() ==> is_digit(#[trigger] d[i]))
        && digits_value(d) <= u64::MAX {
        Some(digits_value(d) as u64)
    } else {
        None
    }
}

/// The command timeout that the setting `s` gives: the number it writes, or
/// the default where it writes none.
pub open spec fn timeout_spec(s: Seq<char>) -> u64 {
    match parse_u64_spec(s) {
        Some(n) => n,
        None => DEFAULT_TIMEOUT_SECS,
    }
}

proof fn lemma_digits_value_grows(s: Seq<char>, k: int)
    requires
        0 <= k <= s.len(),
        forall|i: int| 0 <= i < s.len() ==> is_digit(#[trigger] s[i]),
    ensures
        digits_value(s) >= digits_value(s.subrange(0, k)),
        digits_value(s.subrange(0, k)) >= 0,
    decreases s.len(),
{
    if k < s.len() {
        let s0 = s.drop_last();
        assert forall|i: int| 0 <= i < s0.len() implies is_digit(#[trigger] s0[i]) by {
            assert(s0[i] == s[i]);
        }
        lemma_digits_value_grows(s0, k);
        assert(s0.subrange(0, k) =~= s.subrange(0, k));
        lemma_digits_value_grows(s0, s0.len() as int);
        assert(s0.subrange(0, s0.len() as int) =~= s0);
        assert(is_digit(s.last()));
    } else {
        assert(s.subrange(0, k) =~= s);
        if s.len() > 0 {
            let s0 = s.drop_last();
            assert forall|i: int| 0 <= i < s0.len() implies is_digit(#[trigger] s0[i]) by {
                assert(s0[i] == s[i]);
            }
            lemma_digits_value_grows(s0, s0.len() as int);
            assert(s0.subrange(0, s0.len() as int) =~= s0);
            assert(is_digit(s.last()));
        }
    }
}

/// Reads the `u64` that `s` writes, as `str::parse` does.
pub fn parse_u64(s: &str) -> (r: Option<u64>)
    ensures
        r == parse_u64_spec(s@),
{
    let v = chars_of(s);
    let start: usize = if v.len() > 0 && v[0] == '+' {
        1
    } else {
        0
    };
    let ghost d = unsigned_digits(s@);
    assert(d =~= v@.subrange(start as int, v@.len() as int));
    if start == v.len() {
        return None;
    }
    let mut acc: u64 = 0;
    let mut i: usize = start;
    while i < v.len()
        invariant
            start <= i <= v.len(),
            d == v@.subrange(start as int, v@.len() as int),
            d == unsigned_digits(s@),
            forall|j: int| start <= j < i ==> is_digit(#[trigger] v@[j]),
            acc == digits_value(v@.subrange(start as int, i as int)),
        decreases v.len() - i,
    {
        let u = v[i] as u32;
        if !(48 <= u && u <= 57) {
            assert(d[i - start] == v@[i as int]);
            assert(!is_digit(d[i - start]));
            return None;
        }
        let digit = (u - 48) as u64;
        assert(v@.subrange(start as int, i + 1).drop_last() =~= v@.subrange(
            start as int,
            i as int,
        ));
        if acc > (u64::MAX - digit) / 10 {
            proof {
                assert(acc * 10 + digit > u64::MAX) by (nonlinear_arith)
                    requires
                        acc > (u64::MAX - digit) / 10,
                        digit <= 9,
                ;
                assert(digits_value(v@.subrange(start as int, i + 1)) == acc * 10 + digit);
                if forall|j: int| 0 <= j < d.len() ==> is_digit(#[trigger] d[j]) {
                    let k = i + 1 - start;
                    lemma_digits_value_grows(d, k);
                    assert(d.subrange(0, k) =~= v@.subrange(start as int, i + 1));
                }
            }
            return None;
        }
        acc = acc * 10 + digit;
        i = i + 1;
    }
    assert(v@.subrange(start as int, i as int) =~= d);
    Some(acc)
}

/// The command timeout that the setting `s` gives: the number it writes, or
/// the default where it writes none.
pub fn timeout_from(s: &str) -> (r: u64)
    ensures
        r == timeout_spec(s@),
{
    match parse_u64(s) {
        Some(n) => n,
        None => DEFAULT_TIMEOUT_SECS,
    }
}

} // verus!

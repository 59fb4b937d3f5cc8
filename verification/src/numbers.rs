//! Decimal numbers in text: writing counts and reading unsigned integers.

use vstd::prelude::*;
use crate::text::chars_of;

verus! {

broadcast use vstd::string::group_string_axioms;

/// The decimal digit character for `d` (`d < 10`).
pub open spec fn digit_char(d: nat) -> char {
    "0123456789"@[d as int]
}

/// The decimal representation of `n`, without leading zeros (as `Display` for integers).
pub open spec fn decimal_text(n: nat) -> Seq<char>
    decreases n,
{
    if n < 10 {
        seq![digit_char(n)]
    } else {
        decimal_text(n / 10) + seq![digit_char(n % 10)]
    }
}

/// The decimal representation of `n`.
pub fn decimal(n: u64) -> (r: String)
    ensures
        r@ == decimal_text(n as nat),
{
    proof {
        reveal_strlit("0123456789");
    }
    let mut digits: Vec<u8> = Vec::new();
    let mut m = n;
    // digits of n, least significant first, until m has none left
    while m >= 10
        invariant
            m <= n,
            forall|j: int| 0 <= j < digits.len() ==> #[trigger] digits@[j] < 10,
            decimal_text(n as nat) == decimal_text(m as nat) + low_digits(digits@),
        decreases m,
    {
        let d = (m % 10) as u8;
        proof {
            assert(decimal_text(m as nat) == decimal_text((m / 10) as nat) + seq![digit_char(d as nat)]);
            assert(low_digits(seq![d] + digits@) =~= seq![digit_char(d as nat)] + low_digits(digits@));
        }
        let ghost old_digits = digits@;
        digits.insert(0, d);
        assert(digits@ =~= seq![d] + old_digits);
        m = m / 10;
    }
    let mut r = "0123456789".substring_char(m as usize, m as usize + 1).to_owned();
    assert(r@ =~= seq![digit_char(m as nat)]);
    assert(digits@.skip(0) =~= digits@);
    let mut i: usize = 0;
    while i < digits.len()
        invariant
            i <= digits.len(),
            forall|j: int| 0 <= j < digits.len() ==> #[trigger] digits@[j] < 10,
            decimal_text(n as nat) == r@ + low_digits(digits@.skip(i as int)),
        decreases digits.len() - i,
    {
        let d = digits[i] as usize;
        proof {
            reveal_strlit("0123456789");
            assert(low_digits(digits@.skip(i as int)) =~= seq![digit_char(d as nat)] + low_digits(
                digits@.skip(i + 1),
            ));
        }
        r.append("0123456789".substring_char(d, d + 1));
        proof {
            assert(r@ + low_digits(digits@.skip(i + 1)) =~= decimal_text(n as nat));
        }
        i = i + 1;
    }
    assert(digits@.skip(digits.len() as int) =~= Seq::<u8>::empty());
    assert(r@ =~= decimal_text(n as nat));
    r
}

/// The digit characters for `ds`, in order.
pub open spec fn low_digits(ds: Seq<u8>) -> Seq<char> {
    ds.map_values(|d: u8| digit_char(d as nat))
}

/// Whether `c` is an ASCII decimal digit.
pub open spec fn is_digit(c: char) -> bool {
    '0' <= c && c <= '9'
}

/// The value of the ASCII digit `c`.
pub open spec fn digit_value(c: char) -> nat {
    (c as u32 - '0' as u32) as nat
}

/// The value of the decimal digits `ds`.
pub open spec fn digits_value(ds: Seq<char>) -> nat
    decreases ds.len(),
{
    if ds.len() == 0 {
        0
    } else {
        digits_value(ds.drop_last()) * 10 + digit_value(ds.last())
    }
}

/// The value of `s` read as an unsigned 64-bit integer (as `str::parse::<u64>`):
/// an optional `+` and then one or more ASCII digits, with a value that fits.
pub open spec fn u64_of(s: Seq<char>) -> Option<u64> {
    let ds = unsigned_digits(s);
    if ds.len() > 0 && all_digits(ds) && digits_value(ds) <= u64::MAX {
        Some(digits_value(ds) as u64)
    } else {
        None
    }
}

/// `s` without one leading `+`.
pub open spec fn unsigned_digits(s: Seq<char>) -> Seq<char> {
    if s.len() > 0 && s[0] == '+' {
        s.drop_first()
    } else {
        s
    }
}

/// Whether every character of `ds` is an ASCII digit.
pub open spec fn all_digits(ds: Seq<char>) -> bool {
    forall|i: int| 0 <= i < ds.len() ==> is_digit(#[trigger] ds[i])
}

proof fn lemma_digits_value_grows(ds: Seq<char>, k: int)
    requires
        0 <= k <= ds.len(),
    ensures
        digits_value(ds.take(k)) <= digits_value(ds),
    decreases ds.len() - k,
{
    if k < ds.len() {
        lemma_digits_value_grows(ds, k + 1);
        assert(ds.take(k + 1).drop_last() =~= ds.take(k));
        assert(digits_value(ds.take(k + 1)) == digits_value(ds.take(k)) * 10 + digit_value(
            ds.take(k + 1).last(),
        ));
    } else {
        assert(ds.take(k) =~= ds);
    }
}

/// `s` read as an unsigned 64-bit integer (see `u64_of`).
pub fn parse_u64(s: &str) -> (r: Option<u64>)
    ensures
        r == u64_of(s@),
{
    let v = chars_of(s);
    let start: usize = if v.len() > 0 && v[0] == '+' {
        1
    } else {
        0
    };
    let ghost ds = unsigned_digits(s@);
    assert(ds =~= s@.skip(start as int));
    if start == v.len() {
        assert(ds.len() == 0);
        return None;
    }
    let mut value: u64 = 0;
    let mut i = start;
    while i < v.len()
        invariant
            start <= i <= v.len(),
            v@ == s@,
            ds == s@.skip(start as int),
            ds == unsigned_digits(s@),
            forall|j: int| start <= j < i ==> is_digit(#[trigger] v@[j]),
            value == digits_value(ds.take(i - start)),
        decreases v.len() - i,
    {
        let c = v[i];
        if !('0' <= c && c <= '9') {
            assert(ds[i - start] == v@[i as int]);
            assert(!is_digit(ds[i - start]));
            assert(0 <= i - start < ds.len());
            return None;
        }
        let d = (c as u32 - '0' as u32) as u64;
        proof {
            assert(ds.take(i - start + 1).drop_last() =~= ds.take(i - start));
            assert(ds.take(i - start + 1).last() == c);
        }
        match value.checked_mul(10) {
            None => {
                proof {
                    lemma_no_fit(ds, i - start + 1);
                }
                return None;
            },
            Some(t) => match t.checked_add(d) {
                None => {
                    proof {
                        lemma_no_fit(ds, i - start + 1);
                    }
                    return None;
                },
                Some(u) => {
                    value = u;
                },
            },
        }
        i = i + 1;
    }
    proof {
        assert(ds.take(v.len() - start) =~= ds);
        assert forall|j: int| 0 <= j < ds.len() implies is_digit(#[trigger] ds[j]) by {
            assert(ds[j] == v@[j + start]);
        }
        assert(all_digits(ds));
    }
    Some(value)
}

/// Reading back what was written: the decimal text of any `u64` reads as
/// that same number.
pub proof fn lemma_read_decimal(n: u64)
    ensures
        u64_of(decimal_text(n as nat)) == Some(n),
{
    lemma_decimal_digits(n as nat);
    let ds = decimal_text(n as nat);
    assert(unsigned_digits(ds) == ds);
}

/// The decimal text of `n` is one or more digits, starting with no `+`,
/// whose value is `n`.
proof fn lemma_decimal_digits(n: nat)
    ensures
        decimal_text(n).len() > 0,
        all_digits(decimal_text(n)),
        decimal_text(n)[0] != '+',
        digits_value(decimal_text(n)) == n,
    decreases n,
{
    reveal_strlit("0123456789");
    lemma_digit_char(n % 10);
    if n >= 10 {
        lemma_decimal_digits(n / 10);
        let hi = decimal_text(n / 10);
        let ds = decimal_text(n);
        assert(ds == hi + seq![digit_char(n % 10)]);
        assert(ds.drop_last() =~= hi);
        assert(ds.last() == digit_char(n % 10));
        assert(digits_value(ds) == (n / 10) * 10 + n % 10);
        assert(ds[0] == hi[0]);
        assert forall|i: int| 0 <= i < ds.len() implies is_digit(#[trigger] ds[i]) by {
            if i < hi.len() {
                assert(ds[i] == hi[i]);
            } else {
                assert(ds[i] == digit_char(n % 10));
            }
        }
    } else {
        let ds = decimal_text(n);
        assert(ds[0] == digit_char(n));
        assert(ds.drop_last() =~= Seq::<char>::empty());
        assert(digits_value(ds.drop_last()) == 0);
        assert forall|i: int| 0 <= i < ds.len() implies is_digit(#[trigger] ds[i]) by {
            assert(i == 0);
        }
    }
}

/// The digit character for `d` is a digit whose value is `d`.
proof fn lemma_digit_char(d: nat)
    requires
        d < 10,
    ensures
        is_digit(digit_char(d)),
        digit_value(digit_char(d)) == d,
{
    reveal_strlit("0123456789");
    if d == 0 {
        assert(digit_char(d) == '0');
    } else if d == 1 {
        assert(digit_char(d) == '1');
    } else if d == 2 {
        assert(digit_char(d) == '2');
    } else if d == 3 {
        assert(digit_char(d) == '3');
    } else if d == 4 {
        assert(digit_char(d) == '4');
    } else if d == 5 {
        assert(digit_char(d) == '5');
    } else if d == 6 {
        assert(digit_char(d) == '6');
    } else if d == 7 {
        assert(digit_char(d) == '7');
    } else if d == 8 {
        assert(digit_char(d) == '8');
    } else {
        assert(digit_char(d) == '9');
    }
}

/// When a prefix of `ds` is already too large, `ds` is not a `u64`.
proof fn lemma_no_fit(ds: Seq<char>, k: int)
    requires
        0 < k <= ds.len(),
        digits_value(ds.take(k)) > u64::MAX,
    ensures
        !(all_digits(ds) && digits_value(ds) <= u64::MAX),
{
    lemma_digits_value_grows(ds, k);
}

} // verus!

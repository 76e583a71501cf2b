//! The channel-to-relation naming scheme, centralized in one place.
//!
//! A channel's relation is named by the decimal digits of the channel
//! identifier and nothing else. The derivation is deterministic, and
//! [`lemma_relation_name_lossless`] proves it lossless: two different
//! channels never share a relation name, which is what keeps relations
//! isolated per channel.

use vstd::arithmetic::div_mod::{lemma_div_decreases, lemma_fundamental_div_mod};
use vstd::prelude::*;

verus! {

/// The character of one decimal digit.
pub open spec fn digit_char(d: int) -> char {
    if d == 0 {
        '0'
    } else if d == 1 {
        '1'
    } else if d == 2 {
        '2'
    } else if d == 3 {
        '3'
    } else if d == 4 {
        '4'
    } else if d == 5 {
        '5'
    } else if d == 6 {
        '6'
    } else if d == 7 {
        '7'
    } else if d == 8 {
        '8'
    } else {
        '9'
    }
}

/// The decimal digits of a non-negative number, most significant first,
/// with no leading zero except for zero itself.
pub open spec fn dec_str(n: int) -> Seq<char>
    decreases n,
{
    if n < 10 {
        seq![digit_char(n)]
    } else {
        dec_str(n / 10).push(digit_char(n % 10))
    }
}

/// The relation name of a channel is the decimal form of its identifier.
pub open spec fn relation_name_spec(channel: u64) -> Seq<char> {
    dec_str(channel as int)
}

/// Distinct decimal digits print as distinct characters.
proof fn lemma_digit_char_injective(a: int, b: int)
    requires
        0 <= a < 10,
        0 <= b < 10,
        a != b,
    ensures
        digit_char(a) != digit_char(b),
{
}

/// A one-digit number prints one character; a larger number prints more.
proof fn lemma_dec_str_len(n: int)
    requires
        0 <= n,
    ensures
        n < 10 ==> dec_str(n).len() == 1,
        n >= 10 ==> dec_str(n).len() >= 2,
    decreases n,
{
    if n >= 10 {
        lemma_div_decreases(n, 10);
        lemma_dec_str_len(n / 10);
    }
}

/// Decimal printing is injective: different numbers print differently.
/// This is the losslessness of the channel-to-relation naming.
pub proof fn lemma_dec_str_injective(m: int, n: int)
    requires
        0 <= m,
        0 <= n,
        m != n,
    ensures
        dec_str(m) != dec_str(n),
    decreases m + n,
{
    lemma_dec_str_len(m);
    lemma_dec_str_len(n);
    if m < 10 && n < 10 {
        lemma_digit_char_injective(m, n);
        assert(dec_str(m)[0] != dec_str(n)[0]);
    } else if m < 10 || n < 10 {
        assert(dec_str(m).len() != dec_str(n).len());
    } else {
        if dec_str(m) == dec_str(n) {
            assert(dec_str(m).last() == dec_str(n).last());
            assert(digit_char(m % 10) == digit_char(n % 10));
            if m % 10 != n % 10 {
                lemma_digit_char_injective(m % 10, n % 10);
            }
            assert(m % 10 == n % 10);
            assert(dec_str(m).drop_last() =~= dec_str(m / 10));
            assert(dec_str(n).drop_last() =~= dec_str(n / 10));
            assert(dec_str(m / 10) == dec_str(n / 10));
            lemma_fundamental_div_mod(m, 10);
            lemma_fundamental_div_mod(n, 10);
            assert(m / 10 != n / 10);
            lemma_div_decreases(m, 10);
            lemma_div_decreases(n, 10);
            lemma_dec_str_injective(m / 10, n / 10);
            assert(false);
        }
    }
}

/// Two different channels never get the same relation name.
pub proof fn lemma_relation_name_lossless(c1: u64, c2: u64)
    requires
        c1 != c2,
    ensures
        relation_name_spec(c1) != relation_name_spec(c2),
{
    lemma_dec_str_injective(c1 as int, c2 as int);
}

/// The character of one decimal digit value.
fn digit_str(d: u64) -> (r: &'static str)
    requires
        d < 10,
    ensures
        r@ == seq![digit_char(d as int)],
{
    let r: &'static str = if d == 0 {
        "0"
    } else if d == 1 {
        "1"
    } else if d == 2 {
        "2"
    } else if d == 3 {
        "3"
    } else if d == 4 {
        "4"
    } else if d == 5 {
        "5"
    } else if d == 6 {
        "6"
    } else if d == 7 {
        "7"
    } else if d == 8 {
        "8"
    } else {
        "9"
    };
    proof {
        reveal_strlit("0");
        reveal_strlit("1");
        reveal_strlit("2");
        reveal_strlit("3");
        reveal_strlit("4");
        reveal_strlit("5");
        reveal_strlit("6");
        reveal_strlit("7");
        reveal_strlit("8");
        reveal_strlit("9");
        assert(r@ =~= seq![digit_char(d as int)]);
    }
    r
}

/// The characters of a digit list read back to front (the digits are
/// collected least significant first, the name reads most significant
/// first).
pub open spec fn chars_of_rev(ds: Seq<u64>) -> Seq<char> {
    Seq::new(ds.len(), |i: int| digit_char(ds[ds.len() - 1 - i] as int))
}

/// The relation name of `channel`: its decimal digits as text.
pub fn relation_name(channel: u64) -> (r: String)
    ensures
        r@ == relation_name_spec(channel),
{
    let mut digits: Vec<u64> = Vec::new();
    let mut n = channel;
    proof {
        assert(dec_str(channel as int) =~= dec_str(n as int) + chars_of_rev(digits@));
    }
    while n >= 10
        invariant
            dec_str(channel as int) == dec_str(n as int) + chars_of_rev(digits@),
            forall|k: int| 0 <= k < digits@.len() ==> digits@[k] < 10,
        decreases n,
    {
        let ghost pre = digits@;
        digits.push(n % 10);
        proof {
            lemma_div_decreases(n as int, 10);
            assert(chars_of_rev(digits@) =~= seq![digit_char((n % 10) as int)] + chars_of_rev(
                pre,
            ));
            assert(dec_str(n as int) =~= dec_str((n / 10) as int) + seq![
                digit_char((n % 10) as int),
            ]);
            assert(dec_str((n / 10) as int) + (seq![digit_char((n % 10) as int)] + chars_of_rev(
                pre,
            )) =~= (dec_str((n / 10) as int) + seq![digit_char((n % 10) as int)]) + chars_of_rev(
                pre,
            ));
        }
        n = n / 10;
    }
    let ghost pre = digits@;
    digits.push(n);
    proof {
        assert(chars_of_rev(digits@) =~= seq![digit_char(n as int)] + chars_of_rev(pre));
        assert(dec_str(n as int) =~= seq![digit_char(n as int)]);
        assert(dec_str(channel as int) =~= chars_of_rev(digits@));
    }
    let mut name = String::new();
    let total = digits.len();
    let mut i = total;
    while i > 0
        invariant
            i <= total,
            total == digits@.len(),
            forall|k: int| 0 <= k < digits@.len() ==> digits@[k] < 10,
            name@ == chars_of_rev(digits@).take(total - i),
        decreases i,
    {
        i -= 1;
        name.append(digit_str(digits[i]));
        proof {
            assert(chars_of_rev(digits@)[total - 1 - i] == digit_char(digits@[i as int] as int));
            assert(name@ =~= chars_of_rev(digits@).take(total - i));
        }
    }
    proof {
        assert(chars_of_rev(digits@).take(total as int) =~= chars_of_rev(digits@));
    }
    name
}

} // verus!

//! Decimal reading and writing of integer literals.

use vstd::prelude::*;
use vstd::string::StringExecFns;

verus! {

/// The character for one decimal digit.
pub open spec fn digit_to_char(d: int) -> char {
    ((d + 48) as u8) as char
}

/// The canonical decimal text of `n`, most significant digit first.
pub open spec fn spec_decimal(n: nat) -> Seq<char>
    decreases n,
{
    if n < 10 {
        seq![digit_to_char(n as int)]
    } else {
        spec_decimal(n / 10).push(digit_to_char((n % 10) as int))
    }
}

/// The value of decimal digit text.
pub open spec fn spec_decimal_value(s: Seq<char>) -> int
    decreases s.len(),
{
    if s.len() == 0 {
        0
    } else {
        spec_decimal_value(s.drop_last()) * 10 + (s.last() as u32 - 48)
    }
}

/// Reading the canonical decimal text of a value gives the value back:
/// an integer literal survives printing and re-parsing unchanged.
pub proof fn lemma_decimal_round_trip(n: u64)
    ensures
        spec_decimal_value(spec_decimal(n as nat)) == n,
    decreases n,
{
    if n < 10 {
        let s = spec_decimal(n as nat);
        assert(s == seq![digit_to_char(n as int)]);
        assert(s.drop_last() =~= Seq::<char>::empty());
        assert(spec_decimal_value(Seq::<char>::empty()) == 0);
        assert(spec_decimal_value(s) == spec_decimal_value(s.drop_last()) * 10 + (
        s.last() as u32 - 48));
        assert(digit_to_char(n as int) as u32 == n + 48);
    } else {
        lemma_decimal_round_trip(n / 10);
        let s = spec_decimal((n / 10) as nat);
        let c = digit_to_char((n % 10) as int);
        assert(spec_decimal(n as nat) == s.push(c));
        assert(s.push(c).drop_last() =~= s);
        assert(s.push(c).last() == c);
        assert(c as u32 == n % 10 + 48);
        assert(spec_decimal_value(s.push(c)) == spec_decimal_value(s) * 10 + (c as u32 - 48));
        assert(n == (n / 10) * 10 + n % 10);
    }
}

fn one_digit_str(d: u64) -> (r: &'static str)
    requires
        d < 10,
    ensures
        r@ =~= seq![digit_to_char(d as int)],
{
    if d == 0 {
        proof { reveal_strlit("0"); }
        "0"
    } else if d == 1 {
        proof { reveal_strlit("1"); }
        "1"
    } else if d == 2 {
        proof { reveal_strlit("2"); }
        "2"
    } else if d == 3 {
        proof { reveal_strlit("3"); }
        "3"
    } else if d == 4 {
        proof { reveal_strlit("4"); }
        "4"
    } else if d == 5 {
        proof { reveal_strlit("5"); }
        "5"
    } else if d == 6 {
        proof { reveal_strlit("6"); }
        "6"
    } else if d == 7 {
        proof { reveal_strlit("7"); }
        "7"
    } else if d == 8 {
        proof { reveal_strlit("8"); }
        "8"
    } else {
        proof { reveal_strlit("9"); }
        "9"
    }
}

/// Writes `n` as its canonical decimal text.
pub fn decimal_string(n: u64) -> (r: String)
    ensures
        r@ == spec_decimal(n as nat),
    decreases n,
{
    if n < 10 {
        let s = String::from_str(one_digit_str(n));
        assert(s@ =~= spec_decimal(n as nat));
        s
    } else {
        let mut s = decimal_string(n / 10);
        s.append(one_digit_str(n % 10));
        assert(s@ =~= spec_decimal(n as nat));
        s
    }
}

/// Every digit string's value is nonnegative.
proof fn lemma_decimal_value_nonneg(s: Seq<char>)
    requires
        forall|i: int| 0 <= i < s.len() ==> crate::token::is_digit_char(#[trigger] s[i]),
    ensures
        spec_decimal_value(s) >= 0,
    decreases s.len(),
{
    if s.len() > 0 {
        assert forall|i: int| 0 <= i < s.drop_last().len() implies crate::token::is_digit_char(
            #[trigger] s.drop_last()[i],
        ) by {
            assert(s.drop_last()[i] == s[i]);
        }
        lemma_decimal_value_nonneg(s.drop_last());
    }
}

/// A digit string's value is at least the value of any of its prefixes.
proof fn lemma_decimal_value_extend(s: Seq<char>, j: int)
    requires
        0 <= j <= s.len(),
        forall|i: int| 0 <= i < s.len() ==> crate::token::is_digit_char(#[trigger] s[i]),
    ensures
        spec_decimal_value(s.subrange(0, j)) <= spec_decimal_value(s),
    decreases s.len() - j,
{
    if j == s.len() {
        assert(s.subrange(0, j) =~= s);
    } else {
        assert forall|i: int| 0 <= i < j implies crate::token::is_digit_char(
            #[trigger] s.subrange(0, j)[i],
        ) by {
            assert(s.subrange(0, j)[i] == s[i]);
        }
        lemma_decimal_value_nonneg(s.subrange(0, j));
        assert(s.subrange(0, j + 1).drop_last() =~= s.subrange(0, j));
        assert(s.subrange(0, j + 1).last() == s[j]);
        assert(spec_decimal_value(s.subrange(0, j + 1)) == spec_decimal_value(s.subrange(0, j))
            * 10 + (s[j] as u32 - 48));
        lemma_decimal_value_extend(s, j + 1);
    }
}

/// Reads decimal digit text as a value; `None` exactly when the value
/// does not fit `u64`.
pub fn decimal_value(digits: &Vec<char>) -> (r: Option<u64>)
    requires
        forall|i: int| 0 <= i < digits@.len() ==> crate::token::is_digit_char(#[trigger] digits@[i]),
    ensures
        r matches Some(v) ==> v == spec_decimal_value(digits@),
        r is None <==> spec_decimal_value(digits@) > u64::MAX,
{
    let mut acc: u64 = 0;
    let mut i: usize = 0;
    while i < digits.len()
        invariant
            i <= digits@.len(),
            forall|k: int| 0 <= k < digits@.len() ==> crate::token::is_digit_char(
                #[trigger] digits@[k],
            ),
            acc == spec_decimal_value(digits@.subrange(0, i as int)),
        decreases digits@.len() - i,
    {
        let d: u64 = (digits[i] as u32 - 48) as u64;
        if acc > (u64::MAX - d) / 10 {
            proof {
                let m = u64::MAX as int;
                assert(m - d == ((m - d) / 10) * 10 + ((m - d) % 10));
                assert(acc * 10 + d > m);
                assert(digits@.subrange(0, i + 1 as int).drop_last() =~= digits@.subrange(
                    0,
                    i as int,
                ));
                assert(digits@.subrange(0, i + 1 as int).last() == digits@[i as int]);
                assert(spec_decimal_value(digits@.subrange(0, i + 1 as int)) == acc * 10 + d);
                lemma_decimal_value_extend(digits@, i + 1 as int);
            }
            return None;
        }
        assert(acc * 10 + d <= u64::MAX) by (nonlinear_arith)
            requires
                acc <= (u64::MAX - d) / 10,
                d <= 9,
        ;
        acc = acc * 10 + d;
        assert(digits@.subrange(0, i + 1 as int).drop_last() =~= digits@.subrange(0, i as int));
        i = i + 1;
    }
    assert(digits@.subrange(0, digits@.len() as int) =~= digits@);
    Some(acc)
}

} // verus!

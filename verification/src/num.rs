//! Decimal numerals: formatting an unsigned integer as ASCII digits and
//! parsing digits back, with the round trip proved. Numeric path and query
//! captures go through these functions.

use vstd::prelude::*;

verus! {

pub open spec fn is_digit(b: u8) -> bool {
    48 <= b <= 57
}

pub open spec fn all_digits(s: Seq<u8>) -> bool {
    forall|i: int| 0 <= i < s.len() ==> is_digit(#[trigger] s[i])
}

/// The decimal numeral of `n`, most significant digit first, no sign and no
/// leading zero except for the numeral of zero itself.
pub open spec fn spec_digits(n: nat) -> Seq<u8>
    decreases n,
{
    if n < 10 {
        seq![(48 + n) as u8]
    } else {
        spec_digits(n / 10) + seq![(48 + n % 10) as u8]
    }
}

/// The value of a digit string read as a decimal numeral.
pub open spec fn spec_num(s: Seq<u8>) -> nat
    recommends
        all_digits(s),
    decreases s.len(),
{
    if s.len() == 0 {
        0
    } else {
        spec_num(s.drop_last()) * 10 + ((s.last() - 48) as nat)
    }
}

/// Formatting then reading a numeral gives the number back.
pub proof fn lemma_digits_num(n: nat)
    ensures
        all_digits(spec_digits(n)),
        spec_digits(n).len() >= 1,
        spec_num(spec_digits(n)) == n,
    decreases n,
{
    if n < 10 {
        let d = spec_digits(n);
        assert(d.drop_last() =~= Seq::<u8>::empty());
        assert(d.last() == (48 + n) as u8);
        assert(spec_num(Seq::<u8>::empty()) == 0);
        assert(spec_num(d) == spec_num(d.drop_last()) * 10 + ((d.last() - 48) as nat));
    } else {
        lemma_digits_num(n / 10);
        let d = spec_digits(n);
        assert(d.drop_last() =~= spec_digits(n / 10));
        assert(d.last() == (48 + n % 10) as u8);
        assert(n == n / 10 * 10 + n % 10) by (nonlinear_arith);
    }
}

/// Writes `n` in decimal.
pub fn fmt_u64(n: u64) -> (r: Vec<u8>)
    ensures
        r@ == spec_digits(n as nat),
    decreases n,
{
    if n < 10 {
        let mut v: Vec<u8> = Vec::new();
        v.push(48 + (n as u8));
        proof {
            assert(v@ =~= spec_digits(n as nat));
        }
        v
    } else {
        let mut v = fmt_u64(n / 10);
        v.push(48 + ((n % 10) as u8));
        proof {
            assert(v@ =~= spec_digits(n as nat));
        }
        v
    }
}

/// A longer digit string never has a smaller value.
proof fn lemma_num_grows(s: Seq<u8>, i: int, j: int)
    requires
        0 <= i <= j <= s.len(),
    ensures
        spec_num(s.take(j)) >= spec_num(s.take(i)),
    decreases j - i,
{
    if i < j {
        lemma_num_grows(s, i, j - 1);
        assert(s.take(j).drop_last() =~= s.take(j - 1));
        assert(spec_num(s.take(j)) >= spec_num(s.take(j - 1)));
    }
}

/// Parses a decimal numeral. Returns the value exactly when the whole input
/// is one or more digits and the value fits in a `u64`.
pub fn parse_u64(s: &[u8]) -> (r: Option<u64>)
    ensures
        match r {
            Some(n) => s@.len() > 0 && all_digits(s@) && n as nat == spec_num(s@),
            None => s@.len() == 0 || !all_digits(s@) || spec_num(s@) > u64::MAX,
        },
{
    if s.len() == 0 {
        return None;
    }
    let mut acc: u64 = 0;
    let mut i: usize = 0;
    proof {
        assert(s@.take(0) =~= Seq::<u8>::empty());
    }
    while i < s.len()
        invariant
            i <= s.len(),
            all_digits(s@.take(i as int)),
            acc as nat == spec_num(s@.take(i as int)),
        decreases s.len() - i,
    {
        let b = s[i];
        if b < 48 || b > 57 {
            return None;
        }
        let d = (b - 48) as u64;
        if acc > (u64::MAX - d) / 10 {
            proof {
                assert(acc * 10 + d > u64::MAX) by (nonlinear_arith)
                    requires
                        acc > (u64::MAX - d) / 10,
                        d <= 9,
                ;
                assert(s@.take(i as int + 1).drop_last() =~= s@.take(i as int));
                assert(spec_num(s@.take(i as int + 1)) > u64::MAX);
                lemma_num_grows(s@, i as int + 1, s@.len() as int);
                assert(s@.take(s@.len() as int) =~= s@);
            }
            return None;
        }
        proof {
            assert(acc * 10 + d <= u64::MAX) by (nonlinear_arith)
                requires
                    acc <= (u64::MAX - d) / 10,
                    d <= 9,
            ;
            assert(s@.take(i as int + 1).drop_last() =~= s@.take(i as int));
        }
        acc = acc * 10 + d;
        i += 1;
    }
    proof {
        assert(s@.take(i as int) =~= s@);
    }
    Some(acc)
}

/// Parses a decimal numeral into a `u32`.
pub fn parse_u32(s: &[u8]) -> (r: Option<u32>)
    ensures
        match r {
            Some(n) => s@.len() > 0 && all_digits(s@) && n as nat == spec_num(s@),
            None => s@.len() == 0 || !all_digits(s@) || spec_num(s@) > u32::MAX,
        },
{
    match parse_u64(s) {
        Some(n) => if n <= u32::MAX as u64 {
            Some(n as u32)
        } else {
            None
        },
        None => None,
    }
}

} // verus!

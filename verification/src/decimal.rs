//! Unsigned decimal numbers as Rust's `FromStr` for unsigned integers reads
//! them: an optional `+`, then one or more ASCII digits, no larger than the
//! type's maximum.

use vstd::prelude::*;

verus! {

pub open spec fn is_ascii_digit(c: char) -> bool {
    48 <= (c as u32) <= 57
}

/// Value of a sequence of decimal digits.
pub open spec fn digits_value(ds: Seq<char>) -> int
    decreases ds.len(),
{
    if ds.len() == 0 {
        0
    } else {
        digits_value(ds.drop_last()) * 10 + ((ds.last() as u32) - 48)
    }
}

/// The characters after an optional leading `+`.
pub open spec fn unsigned_digits(s: Seq<char>) -> Seq<char> {
    if s.len() > 0 && s[0] == '+' {
        s.drop_first()
    } else {
        s
    }
}

/// Value of `s` read as an unsigned decimal number no larger than `max`,
/// or `None` when `s` is not one.
pub open spec fn parse_unsigned(s: Seq<char>, max: int) -> Option<int> {
    let ds = unsigned_digits(s);
    if ds.len() > 0 && (forall|i: int| 0 <= i < ds.len() ==> is_ascii_digit(#[trigger] ds[i]))
        && digits_value(ds) <= max {
        Some(digits_value(ds))
    } else {
        None
    }
}

/// A prefix of a digit sequence is worth no more than the whole.
pub proof fn lemma_digits_value_prefix(ds: Seq<char>, k: int)
    requires
        0 <= k <= ds.len(),
        forall|i: int| 0 <= i < ds.len() ==> is_ascii_digit(#[trigger] ds[i]),
    ensures
        0 <= digits_value(ds.take(k)) <= digits_value(ds),
    decreases ds.len() - k,
{
    if k < ds.len() {
        lemma_digits_value_prefix(ds, k + 1);
        assert(ds.take(k + 1).drop_last() =~= ds.take(k));
        assert(is_ascii_digit(ds[k]));
    } else {
        assert(ds.take(k) =~= ds);
        lemma_digits_value_nonneg(ds);
    }
}

pub proof fn lemma_digits_value_nonneg(ds: Seq<char>)
    requires
        forall|i: int| 0 <= i < ds.len() ==> is_ascii_digit(#[trigger] ds[i]),
    ensures
        0 <= digits_value(ds),
    decreases ds.len(),
{
    if ds.len() > 0 {
        assert(is_ascii_digit(ds[ds.len() - 1]));
        assert forall|i: int| 0 <= i < ds.drop_last().len() implies is_ascii_digit(
            #[trigger] ds.drop_last()[i],
        ) by {
            assert(ds.drop_last()[i] == ds[i]);
        }
        lemma_digits_value_nonneg(ds.drop_last());
    }
}

/// Read `s` as an unsigned decimal number no larger than `max`.
pub fn parse_decimal(s: &str, max: u64) -> (r: Option<u64>)
    ensures
        r is Some <==> parse_unsigned(s@, max as int) is Some,
        r matches Some(n) ==> parse_unsigned(s@, max as int) == Some(n as int),
{
    let ghost sign: int = if s@.len() > 0 && s@[0] == '+' { 1 } else { 0 };
    let ghost ds = unsigned_digits(s@);
    let mut value: u64 = 0;
    let ghost mut count: int = 0;
    let mut has_digits = false;
    let mut first = true;
    proof {
        assert(ds =~= s@.skip(sign));
        assert(ds.take(0) =~= Seq::<char>::empty());
    }
    for c in it: s.chars()
        invariant
            it.seq() == s@,
            sign == (if s@.len() > 0 && s@[0] == '+' { 1int } else { 0int }),
            ds == s@.skip(sign),
            first == (it.index() == 0),
            it.index() == 0 ==> count == 0,
            it.index() > 0 ==> count == it.index() - sign,
            count <= ds.len(),
            has_digits == (count > 0),
            forall|i: int| 0 <= i < count ==> is_ascii_digit(#[trigger] ds[i]),
            value == digits_value(ds.take(count)),
            value <= max,
    {
        let ghost k = it.index() as int;
        if first && c == '+' {
            assert(sign == 1);
        } else {
            proof {
                assert(c == s@[k]);
                assert(count < ds.len());
                assert(ds[count] == s@[k]);
            }
            let v = c as u32;
            if v < 48 || v > 57 {
                return None;
            }
            let next: u128 = (value as u128) * 10 + ((v - 48) as u128);
            proof {
                assert(ds.take(count + 1).drop_last() =~= ds.take(count));
                assert(next == digits_value(ds.take(count + 1)));
            }
            if next > max as u128 {
                proof {
                    if forall|i: int| 0 <= i < ds.len() ==> is_ascii_digit(#[trigger] ds[i]) {
                        lemma_digits_value_prefix(ds, count + 1);
                        assert(digits_value(ds) > max);
                    }
                    assert(unsigned_digits(s@) == ds);
                    assert(parse_unsigned(s@, max as int) is None);
                }
                return None;
            }
            value = next as u64;
            proof {
                count = count + 1;
            }
            has_digits = true;
        }
        first = false;
    }
    proof {
        if s@.len() > 0 {
            assert(count == s@.len() - sign);
        } else {
            assert(ds.len() == 0);
        }
        assert(ds.take(count) =~= ds);
    }
    if !has_digits {
        None
    } else {
        Some(value)
    }
}

} // verus!

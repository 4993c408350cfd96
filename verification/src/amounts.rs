//! Byte amounts written for people: the unit an amount is shown in, and the
//! label built from the amount scaled to that unit.

use vstd::prelude::*;

use crate::text::{decimal_spec, i64_to_decimal};

verus! {

/// The unit a byte amount is shown in.
#[derive(Debug, Clone, Copy, PartialEq, Eq)]
pub enum ByteUnit {
    Bytes,
    Kilobytes,
    Megabytes,
    Gigabytes,
}

/// Gigabytes from 2^30 bytes on, megabytes from 2^20, kilobytes from 2^10,
/// bytes below that (negative amounts included).
pub open spec fn byte_unit_spec(bytes: i64) -> ByteUnit {
    if bytes >= 1073741824 {
        ByteUnit::Gigabytes
    } else if bytes >= 1048576 {
        ByteUnit::Megabytes
    } else if bytes >= 1024 {
        ByteUnit::Kilobytes
    } else {
        ByteUnit::Bytes
    }
}

/// The number of bytes in one of a unit.
pub open spec fn unit_divisor_spec(unit: ByteUnit) -> i64 {
    match unit {
        ByteUnit::Bytes => 1,
        ByteUnit::Kilobytes => 1024,
        ByteUnit::Megabytes => 1048576,
        ByteUnit::Gigabytes => 1073741824,
    }
}

/// The unit a byte amount is shown in.
pub fn byte_unit(bytes: i64) -> (u: ByteUnit)
    ensures
        u == byte_unit_spec(bytes),
{
    if bytes >= 1073741824 {
        ByteUnit::Gigabytes
    } else if bytes >= 1048576 {
        ByteUnit::Megabytes
    } else if bytes >= 1024 {
        ByteUnit::Kilobytes
    } else {
        ByteUnit::Bytes
    }
}

/// The number of bytes in one of a unit.
pub fn unit_divisor(unit: ByteUnit) -> (d: i64)
    ensures
        d == unit_divisor_spec(unit),
        d > 0,
{
    match unit {
        ByteUnit::Bytes => 1,
        ByteUnit::Kilobytes => 1024,
        ByteUnit::Megabytes => 1048576,
        ByteUnit::Gigabytes => 1073741824,
    }
}

/// The label of an amount: the amount in decimal followed by ` B` below a
/// kilobyte; otherwise `scaled` followed by ` KB`, ` MB` or ` GB`.
pub open spec fn bytes_label_spec(bytes: i64, scaled: Seq<char>) -> Seq<char> {
    match byte_unit_spec(bytes) {
        ByteUnit::Bytes => decimal_spec(bytes as int) + seq![' ', 'B'],
        ByteUnit::Kilobytes => scaled + seq![' ', 'K', 'B'],
        ByteUnit::Megabytes => scaled + seq![' ', 'M', 'B'],
        ByteUnit::Gigabytes => scaled + seq![' ', 'G', 'B'],
    }
}

/// The label of a byte amount. `scaled` is the amount divided by the
/// divisor of its unit (`unit_divisor(byte_unit(bytes))`), written with two
/// decimals; it is not used for amounts below a kilobyte, which are written
/// whole.
pub fn bytes_label(bytes: i64, scaled: &str) -> (r: String)
    ensures
        r@ == bytes_label_spec(bytes, scaled@),
{
    let (mut r, suffix) = match byte_unit(bytes) {
        ByteUnit::Bytes => (i64_to_decimal(bytes), 'B'),
        ByteUnit::Kilobytes => (scaled.to_owned(), 'K'),
        ByteUnit::Megabytes => (scaled.to_owned(), 'M'),
        ByteUnit::Gigabytes => (scaled.to_owned(), 'G'),
    };
    let ghost before = r@;
    crate::text::string_push(&mut r, ' ');
    if suffix != 'B' {
        crate::text::string_push(&mut r, suffix);
    }
    crate::text::string_push(&mut r, 'B');
    proof {
        if suffix == 'B' {
            assert(r@ =~= before + seq![' ', 'B']);
        } else {
            assert(r@ =~= before + seq![' ', suffix, 'B']);
        }
    }
    r
}

/// The sum of the amounts.
pub open spec fn sum_spec(s: Seq<i64>) -> int
    decreases s.len(),
{
    if s.len() == 0 {
        0
    } else {
        sum_spec(s.drop_last()) + s.last()
    }
}

/// Every running sum of the amounts, from the first on, fits in an `i64`.
pub open spec fn running_sums_fit(s: Seq<i64>) -> bool {
    forall|k: int| 0 <= k <= s.len() ==> i64::MIN <= #[trigger] sum_spec(s.take(k)) <= i64::MAX
}

/// The total of the amounts, added in order; `None` where a running sum
/// leaves the `i64` range.
pub fn total_amount(values: &[i64]) -> (r: Option<i64>)
    ensures
        running_sums_fit(values@) ==> r == Some(sum_spec(values@) as i64),
        !running_sums_fit(values@) ==> r is None,
{
    let mut total: i64 = 0;
    assert(values@.take(0) =~= Seq::<i64>::empty());
    for i in 0..values.len()
        invariant
            total == sum_spec(values@.take(i as int)),
            forall|k: int| 0 <= k <= i ==> i64::MIN <= #[trigger] sum_spec(values@.take(k)) <= i64::MAX,
    {
        assert(values@.take(i + 1).drop_last() =~= values@.take(i as int));
        assert(values@.take(i + 1).last() == values@[i as int]);
        match total.checked_add(values[i]) {
            Some(t) => {
                total = t;
            },
            None => {
                assert(!(i64::MIN <= sum_spec(values@.take(i + 1)) <= i64::MAX));
                return None;
            },
        }
    }
    assert(values@.take(values@.len() as int) =~= values@);
    Some(total)
}

} // verus!

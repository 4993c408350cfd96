//! A JSON document as the API returns it, and the walk that collects every
//! `unusedAmount` from a packages response.

use vstd::prelude::*;

use crate::text::{chars_of, contains_char, parse_i64, parse_i64_spec, str_eq, trim, trim_spec};

verus! {

/// A JSON number, in the three forms a JSON parser keeps it.
#[derive(Debug, Clone, Copy, PartialEq, Eq)]
pub enum JsonNumber {
    /// A non-negative integer.
    PosInt(u64),
    /// A negative integer.
    NegInt(i64),
    /// A number with a fraction or an exponent, held as its value truncated
    /// toward zero and saturated to the `i64` range (Rust's `f64 as i64`).
    Float(i64),
}

/// A JSON value. The entries of an object keep the document's order and
/// name each key once.
#[derive(Debug)]
pub enum JsonValue {
    Null,
    Bool(bool),
    Number(JsonNumber),
    /// A string, with its trimmed text read as a floating-point number and
    /// truncated toward zero and saturated to the `i64` range (`None` where
    /// it does not read as one).
    Str { text: String, float_reading: Option<i64> },
    Array(Vec<JsonValue>),
    Object(Vec<(String, JsonValue)>),
}

/// The key under which a packages response holds each unused amount.
pub open spec fn unused_amount_key() -> Seq<char> {
    seq!['u', 'n', 'u', 's', 'e', 'd', 'A', 'm', 'o', 'u', 'n', 't']
}

/// The integer a number stands for: its own value where it fits in an
/// `i64`, `i64::MAX` for a larger non-negative integer, and the truncated
/// value of a fractional number.
pub open spec fn number_reading(n: JsonNumber) -> i64 {
    match n {
        JsonNumber::PosInt(u) => if u <= i64::MAX {
            u as i64
        } else {
            i64::MAX
        },
        JsonNumber::NegInt(i) => i,
        JsonNumber::Float(t) => t,
    }
}

/// The integer a JSON value stands for: a number as `number_reading`; a
/// string, trimmed, as an `i64` where it has no `.` and by its
/// floating-point reading where it has one; nothing for the other kinds.
pub open spec fn integer_reading(v: JsonValue) -> Option<i64> {
    match v {
        JsonValue::Number(n) => Some(number_reading(n)),
        JsonValue::Str { text, float_reading } => {
            let t = trim_spec(text@);
            if t.contains('.') {
                float_reading
            } else {
                parse_i64_spec(t)
            }
        },
        _ => None,
    }
}

/// The integer a JSON value stands for.
pub fn value_to_i64(value: &JsonValue) -> (r: Option<i64>)
    ensures
        r == integer_reading(*value),
{
    match value {
        JsonValue::Number(n) => match n {
            JsonNumber::PosInt(u) => {
                if *u <= 0x7fff_ffff_ffff_ffff {
                    Some(*u as i64)
                } else {
                    Some(0x7fff_ffff_ffff_ffff)
                }
            },
            JsonNumber::NegInt(i) => Some(*i),
            JsonNumber::Float(t) => Some(*t),
        },
        JsonValue::Str { text, float_reading } => {
            let chars = chars_of(text.as_str());
            let t = trim(&chars);
            if contains_char(&t, '.') {
                *float_reading
            } else {
                parse_i64(&t)
            }
        },
        _ => None,
    }
}

/// Whether `v` is a JSON object.
pub open spec fn is_object_spec(v: JsonValue) -> bool {
    v is Object
}

/// Whether `v` is a JSON object.
pub fn is_object(v: &JsonValue) -> (b: bool)
    ensures
        b == is_object_spec(*v),
{
    match v {
        JsonValue::Object(_) => true,
        _ => false,
    }
}

/// The value of the first entry named `key` in `entries`.
pub open spec fn entries_lookup(entries: Seq<(String, JsonValue)>, key: Seq<char>) -> Option<
    JsonValue,
>
    decreases entries.len(),
{
    if entries.len() == 0 {
        None
    } else if entries[0].0@ == key {
        Some(entries[0].1)
    } else {
        entries_lookup(entries.drop_first(), key)
    }
}

/// The value stored under `key` when `v` is an object (`Value::get`).
pub open spec fn get_spec(v: JsonValue, key: Seq<char>) -> Option<JsonValue> {
    match v {
        JsonValue::Object(entries) => entries_lookup(entries@, key),
        _ => None,
    }
}

pub(crate) proof fn lemma_lookup_at(entries: Seq<(String, JsonValue)>, key: Seq<char>, i: int)
    requires
        0 <= i <= entries.len(),
        forall|j: int| 0 <= j < i ==> (#[trigger] entries[j]).0@ != key,
        i == entries.len() || entries[i].0@ == key,
    ensures
        entries_lookup(entries, key) == if i == entries.len() {
            None
        } else {
            Some(entries[i].1)
        },
    decreases i,
{
    if i > 0 {
        let t = entries.drop_first();
        assert forall|j: int| 0 <= j < i - 1 implies (#[trigger] t[j]).0@ != key by {
            assert(t[j] == entries[j + 1]);
        }
        if i < entries.len() {
            assert(t[i - 1] == entries[i]);
        }
        assert(entries[0].0@ != key);
        lemma_lookup_at(t, key, i - 1);
    }
}

/// The value stored under `key` when `v` is an object.
pub fn get<'a>(v: &'a JsonValue, key: &str) -> (r: Option<&'a JsonValue>)
    ensures
        r matches Some(x) ==> get_spec(*v, key@) == Some(*x),
        r is None ==> get_spec(*v, key@) is None,
{
    match v {
        JsonValue::Object(entries) => {
            let mut i: usize = 0;
            while i < entries.len()
                invariant
                    *v == JsonValue::Object(*entries),
                    i <= entries@.len(),
                    forall|j: int| 0 <= j < i ==> (#[trigger] entries@[j]).0@ != key@,
                decreases entries.len() - i,
            {
                if str_eq(entries[i].0.as_str(), key) {
                    proof {
                        lemma_lookup_at(entries@, key@, i as int);
                    }
                    return Some(&entries[i].1);
                }
                i = i + 1;
            }
            proof {
                lemma_lookup_at(entries@, key@, i as int);
            }
            None
        },
        _ => None,
    }
}

/// Whether `k` is the key of unused amounts.
fn is_unused_amount_key(k: &str) -> (b: bool)
    ensures
        b == (k@ == unused_amount_key()),
{
    let c = chars_of(k);
    if c.len() != 12 {
        return false;
    }
    let b = c[0] == 'u' && c[1] == 'n' && c[2] == 'u' && c[3] == 's' && c[4] == 'e' && c[5]
        == 'd' && c[6] == 'A' && c[7] == 'm' && c[8] == 'o' && c[9] == 'u' && c[10] == 'n' && c[11]
        == 't';
    assert(b ==> c@ =~= unused_amount_key());
    b
}

/// The unused amounts found in `v`, in document order: every value under
/// an `unusedAmount` key that reads as an integer, before the amounts
/// nested inside that value, at any depth of objects and arrays.
pub open spec fn unused_amounts_spec(v: JsonValue) -> Seq<i64>
    decreases v,
{
    match v {
        JsonValue::Array(items) => unused_amounts_items(items@),
        JsonValue::Object(entries) => unused_amounts_entries(entries@),
        _ => Seq::empty(),
    }
}

/// The unused amounts found in `items`, in order.
pub open spec fn unused_amounts_items(items: Seq<JsonValue>) -> Seq<i64>
    decreases items,
{
    if items.len() == 0 {
        Seq::empty()
    } else {
        unused_amounts_items(items.drop_last()) + unused_amounts_spec(items.last())
    }
}

/// The unused amounts found in `entries`, in order.
pub open spec fn unused_amounts_entries(entries: Seq<(String, JsonValue)>) -> Seq<i64>
    decreases entries,
{
    if entries.len() == 0 {
        Seq::empty()
    } else {
        let (k, value) = entries.last();
        let own = if k@ == unused_amount_key() && integer_reading(value) is Some {
            seq![integer_reading(value)->0]
        } else {
            Seq::empty()
        };
        unused_amounts_entries(entries.drop_last()) + own + unused_amounts_spec(value)
    }
}

fn collect_inner(data: &JsonValue, results: &mut Vec<i64>)
    ensures
        final(results)@ == old(results)@ + unused_amounts_spec(*data),
    decreases data,
{
    match data {
        JsonValue::Object(entries) => {
            let ghost start = results@;
            for i in 0..entries.len()
                invariant
                    *data == JsonValue::Object(*entries),
                    results@ == start + unused_amounts_entries(entries@.take(i as int)),
            {
                let (key, value) = &entries[i];
                assert(entries@.take(i + 1).drop_last() == entries@.take(i as int));
                if is_unused_amount_key(key.as_str()) {
                    if let Some(parsed) = value_to_i64(value) {
                        results.push(parsed);
                    }
                }
                proof {
                    assert(decreases_to!(*data => (*data)->Object_0));
                    assert(decreases_to!(entries => entries@));
                    assert(decreases_to!(entries@ => entries@[i as int]));
                    assert(decreases_to!(entries@[i as int] => entries@[i as int].1));
                }
                collect_inner(value, results);
            }
            assert(entries@.take(entries@.len() as int) == entries@);
        },
        JsonValue::Array(items) => {
            let ghost start = results@;
            for i in 0..items.len()
                invariant
                    *data == JsonValue::Array(*items),
                    results@ == start + unused_amounts_items(items@.take(i as int)),
            {
                assert(items@.take(i + 1).drop_last() == items@.take(i as int));
                proof {
                    assert(decreases_to!(*data => (*data)->Array_0));
                    assert(decreases_to!(items => items@));
                    assert(decreases_to!(items@ => items@[i as int]));
                }
                collect_inner(&items[i], results);
            }
            assert(items@.take(items@.len() as int) == items@);
        },
        _ => {},
    }
}

/// Every `unusedAmount` value in `data` that reads as an integer, in
/// document order.
pub fn collect_unused_amounts(data: &JsonValue) -> (r: Vec<i64>)
    ensures
        r@ == unused_amounts_spec(*data),
{
    let mut results: Vec<i64> = Vec::new();
    collect_inner(data, &mut results);
    assert(results@ == Seq::<i64>::empty() + unused_amounts_spec(*data));
    results
}

// ---------------------------------------------------------------------
// Laws of the walk
// ---------------------------------------------------------------------

/// The amounts of a list of values are those of its first part followed by
/// those of the rest: no item of an array is skipped or repeated.
pub proof fn law_items_concat(a: Seq<JsonValue>, b: Seq<JsonValue>)
    ensures
        unused_amounts_items(a + b) == unused_amounts_items(a) + unused_amounts_items(b),
    decreases b.len(),
{
    if b.len() == 0 {
        assert(a + b =~= a);
        assert(unused_amounts_items(a) + Seq::<i64>::empty() =~= unused_amounts_items(a));
    } else {
        law_items_concat(a, b.drop_last());
        assert((a + b).drop_last() =~= a + b.drop_last());
        assert((a + b).last() == b.last());
        assert(unused_amounts_items(a) + (unused_amounts_items(b.drop_last()) + unused_amounts_spec(
            b.last(),
        )) =~= unused_amounts_items(a) + unused_amounts_items(b.drop_last()) + unused_amounts_spec(
            b.last(),
        ));
    }
}

/// A list of one value has that value's amounts.
pub proof fn law_items_single(x: JsonValue)
    ensures
        unused_amounts_items(seq![x]) == unused_amounts_spec(x),
{
    let e = Seq::<JsonValue>::empty();
    assert(seq![x].drop_last() =~= e);
    assert(unused_amounts_items(e) == Seq::<i64>::empty());
    assert(seq![x].last() == x);
    assert(unused_amounts_items(seq![x]) == unused_amounts_items(seq![x].drop_last())
        + unused_amounts_spec(seq![x].last()));
    assert(Seq::<i64>::empty() + unused_amounts_spec(x) =~= unused_amounts_spec(x));
}

/// The amounts of an array are, in order, the amounts of each of its items:
/// of an array of two items, the first item's amounts then the second's.
pub proof fn law_array_amounts(v: JsonValue, a: JsonValue, b: JsonValue)
    requires
        v matches JsonValue::Array(items) && items@ == seq![a, b],
    ensures
        unused_amounts_spec(v) == unused_amounts_spec(a) + unused_amounts_spec(b),
{
    law_items_concat(seq![a], seq![b]);
    law_items_single(a);
    law_items_single(b);
    assert(seq![a] + seq![b] =~= seq![a, b]);
}

/// The amounts of the entries of an object are those of its first entries
/// followed by those of the rest: no entry is skipped or repeated.
pub proof fn law_entries_concat(a: Seq<(String, JsonValue)>, b: Seq<(String, JsonValue)>)
    ensures
        unused_amounts_entries(a + b) == unused_amounts_entries(a) + unused_amounts_entries(b),
    decreases b.len(),
{
    if b.len() == 0 {
        assert(a + b =~= a);
        assert(unused_amounts_entries(a) + Seq::<i64>::empty() =~= unused_amounts_entries(a));
    } else {
        law_entries_concat(a, b.drop_last());
        assert((a + b).drop_last() =~= a + b.drop_last());
        assert((a + b).last() == b.last());
        let (k, value) = b.last();
        let own = if k@ == unused_amount_key() && integer_reading(value) is Some {
            seq![integer_reading(value)->0]
        } else {
            Seq::empty()
        };
        assert(unused_amounts_entries(a) + (unused_amounts_entries(b.drop_last()) + own
            + unused_amounts_spec(value)) =~= unused_amounts_entries(a) + unused_amounts_entries(
            b.drop_last(),
        ) + own + unused_amounts_spec(value));
    }
}

/// An entry `"unusedAmount": n` with a whole number `n` contributes `n`.
pub proof fn law_amount_entry(k: String, n: u64)
    requires
        k@ == "unusedAmount"@,
        n <= i64::MAX,
    ensures
        unused_amounts_entries(seq![(k, JsonValue::Number(JsonNumber::PosInt(n)))]) == seq![
            n as i64,
        ],
{
    reveal_strlit("unusedAmount");
    assert(k@ =~= unused_amount_key());
    let x = JsonValue::Number(JsonNumber::PosInt(n));
    let es = seq![(k, x)];
    let e = Seq::<(String, JsonValue)>::empty();
    assert(es.drop_last() =~= e);
    assert(unused_amounts_entries(e) == Seq::<i64>::empty());
    assert(es.last() == (k, x));
    assert(integer_reading(x) == Some(n as i64));
    assert(unused_amounts_spec(x) == Seq::<i64>::empty());
    assert(Seq::<i64>::empty() + seq![n as i64] + Seq::<i64>::empty() =~= seq![n as i64]);
}

/// An entry under any other key contributes only the amounts nested in its value.
pub proof fn law_other_entry(k: String, x: JsonValue)
    requires
        k@ != "unusedAmount"@,
    ensures
        unused_amounts_entries(seq![(k, x)]) == unused_amounts_spec(x),
{
    reveal_strlit("unusedAmount");
    assert(k@ != unused_amount_key()) by {
        if k@ == unused_amount_key() {
            assert(k@ =~= "unusedAmount"@);
        }
    }
    let es = seq![(k, x)];
    let e = Seq::<(String, JsonValue)>::empty();
    assert(es.drop_last() =~= e);
    assert(unused_amounts_entries(e) == Seq::<i64>::empty());
    assert(es.last() == (k, x));
    assert(Seq::<i64>::empty() + Seq::<i64>::empty() + unused_amounts_spec(x) =~= unused_amounts_spec(
        x,
    ));
}

/// The amounts of an object are those of its entries.
pub proof fn law_object_amounts(v: JsonValue)
    requires
        v is Object,
    ensures
        unused_amounts_spec(v) == unused_amounts_entries(v->Object_0@),
{
}

/// The integer a value stands for: a whole number its own value (a
/// non-negative one above `i64::MAX` is held at `i64::MAX`); a string
/// whose trimmed text is an integer written in decimal, that integer; a
/// string whose trimmed text holds a `.`, its floating-point reading;
/// `null`, a boolean, an array or an object, nothing.
pub proof fn law_integer_reading(v: JsonValue, x: i64)
    ensures
        v == JsonValue::Number(JsonNumber::PosInt(x as u64)) && x >= 0 ==> integer_reading(v)
            == Some(x),
        v == JsonValue::Number(JsonNumber::NegInt(x)) ==> integer_reading(v) == Some(x),
        v matches JsonValue::Number(JsonNumber::PosInt(n)) && n > i64::MAX ==> integer_reading(v)
            == Some(i64::MAX),
        (v matches JsonValue::Str { text, float_reading: _ } && trim_spec(text@)
            == crate::text::decimal_spec(x as int)) ==> integer_reading(v) == Some(x),
        (v matches JsonValue::Str { text, float_reading: _ } && trim_spec(text@).contains('.'))
            ==> integer_reading(v) == v->Str_float_reading,
        v is Null || v is Bool || v is Array || v is Object ==> integer_reading(v) is None,
{
    crate::text::lemma_decimal_no_dot(x as int);
    crate::text::law_parse_decimal(x);
}

} // verus!

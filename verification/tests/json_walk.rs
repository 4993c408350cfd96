use mci_client::{collect_unused_amounts, value_to_i64, JsonNumber, JsonValue};

fn text(s: &str, float_reading: Option<i64>) -> JsonValue {
    JsonValue::Str { text: s.to_string(), float_reading }
}

fn entry(k: &str, v: JsonValue) -> (String, JsonValue) {
    (k.to_string(), v)
}

#[test]
fn collects_unused_amounts_recursively() {
    // {"packageItems": [{"unusedAmount": 100,
    //   "nested": [{"unusedAmount": "200.8"}, {"unusedAmount": true}]}],
    //  "unusedAmount": "300"}
    let payload = JsonValue::Object(vec![
        entry(
            "packageItems",
            JsonValue::Array(vec![JsonValue::Object(vec![
                entry("unusedAmount", JsonValue::Number(JsonNumber::PosInt(100))),
                entry(
                    "nested",
                    JsonValue::Array(vec![
                        JsonValue::Object(vec![entry("unusedAmount", text("200.8", Some(200)))]),
                        JsonValue::Object(vec![entry("unusedAmount", JsonValue::Bool(true))]),
                    ]),
                ),
            ])]),
        ),
        entry("unusedAmount", text("300", Some(300))),
    ]);

    assert_eq!(collect_unused_amounts(&payload), vec![100, 200, 300]);
}

#[test]
fn unused_amount_inside_an_unused_amount_comes_after_it() {
    let payload = JsonValue::Object(vec![entry(
        "unusedAmount",
        JsonValue::Object(vec![entry("unusedAmount", JsonValue::Number(JsonNumber::NegInt(-7)))]),
    )]);
    // The outer value is an object, which reads as no integer.
    assert_eq!(collect_unused_amounts(&payload), vec![-7]);
}

#[test]
fn no_unused_amounts_in_scalars() {
    assert_eq!(collect_unused_amounts(&JsonValue::Null), Vec::<i64>::new());
    assert_eq!(collect_unused_amounts(&text("unusedAmount", None)), Vec::<i64>::new());
}

#[test]
fn integer_readings_of_values() {
    assert_eq!(value_to_i64(&JsonValue::Number(JsonNumber::PosInt(13651190514))), Some(13651190514));
    assert_eq!(value_to_i64(&JsonValue::Number(JsonNumber::PosInt(u64::MAX))), Some(i64::MAX));
    assert_eq!(value_to_i64(&JsonValue::Number(JsonNumber::NegInt(-5))), Some(-5));
    assert_eq!(value_to_i64(&JsonValue::Number(JsonNumber::Float(12))), Some(12));
    assert_eq!(value_to_i64(&text(" 42 ", None)), Some(42));
    assert_eq!(value_to_i64(&text("+42", None)), Some(42));
    assert_eq!(value_to_i64(&text("4.5", Some(4))), Some(4));
    assert_eq!(value_to_i64(&text("4.5", None)), None);
    // Without a dot the float reading is not used.
    assert_eq!(value_to_i64(&text("1e3", Some(1000))), None);
    assert_eq!(value_to_i64(&text("", None)), None);
    assert_eq!(value_to_i64(&text("9223372036854775808", None)), None);
    assert_eq!(value_to_i64(&text("-9223372036854775808", None)), Some(i64::MIN));
    assert_eq!(value_to_i64(&JsonValue::Null), None);
    assert_eq!(value_to_i64(&JsonValue::Bool(false)), None);
    assert_eq!(value_to_i64(&JsonValue::Array(vec![])), None);
}

use wind::ids::ValueId;
use wind::text::i64_to_string;

#[test]
fn value_id_round_trip() {
    let id = ValueId::new(7);
    assert_eq!(id.get(), 7);
}

#[test]
fn signed_decimal_text() {
    assert_eq!(i64_to_string(-42), "-42");
    assert_eq!(i64_to_string(0), "0");
}

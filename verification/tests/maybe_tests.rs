use variant_codec::maybe::{decode_maybe, encode_maybe, maybe_round_trip, static_signature_of_maybe};
use variant_codec::signature::Signature;
use variant_codec::value::ValueType;
use variant_codec::variant::Variant;

#[test]
fn signature_of_maybe_int32() {
    let s = static_signature_of_maybe::<i32>();
    assert_eq!(s.as_bytes().as_slice(), b"mi");
}

#[test]
fn signature_of_maybe_bool() {
    let s = static_signature_of_maybe::<bool>();
    assert_eq!(s.as_bytes().as_slice(), b"mb");
}

#[test]
fn round_trip_present() {
    let v = encode_maybe::<i32>(&Some(7));
    assert_eq!(v.type_tag().as_bytes().as_slice(), b"mi");
    assert_eq!(decode_maybe::<i32>(&v), Some(Some(7)));
}

#[test]
fn round_trip_absent() {
    let v = encode_maybe::<i32>(&None);
    assert_eq!(v.type_tag().as_bytes().as_slice(), b"mi");
    assert_eq!(decode_maybe::<i32>(&v), Some(None));
}

#[test]
fn round_trip_bool() {
    assert_eq!(
        decode_maybe::<bool>(&encode_maybe::<bool>(&Some(true))),
        Some(Some(true))
    );
    assert_eq!(
        decode_maybe::<bool>(&encode_maybe::<bool>(&Some(false))),
        Some(Some(false))
    );
    assert_eq!(decode_maybe::<bool>(&encode_maybe::<bool>(&None)), Some(None));
}

#[test]
fn round_trip_function() {
    assert_eq!(maybe_round_trip::<i32>(&Some(-3)), Some(Some(-3)));
    assert_eq!(maybe_round_trip::<i32>(&None), Some(None));
    assert_eq!(maybe_round_trip::<bool>(&Some(true)), Some(Some(true)));
}

#[test]
fn mismatched_tag_is_rejected() {
    // A maybe of bool is no maybe of i32, present or absent.
    let v = encode_maybe::<bool>(&Some(true));
    assert_eq!(decode_maybe::<i32>(&v), None);
    let v = encode_maybe::<bool>(&None);
    assert_eq!(decode_maybe::<i32>(&v), None);
}

#[test]
fn unwrapped_value_is_rejected() {
    // A bare i32 is tagged "i", not "mi".
    let v = 7i32.encode();
    assert_eq!(v.type_tag().as_bytes().as_slice(), b"i");
    assert_eq!(decode_maybe::<i32>(&v), None);
}

#[test]
fn corrupt_payload_is_rejected() {
    // Tagged "mi" but holding a bool payload: the inner decode fails, and
    // the whole decode fails with it.
    let v = Variant::Maybe {
        inner: Signature::int32(),
        value: Some(Box::new(Variant::Bool(true))),
    };
    assert_eq!(v.type_tag().as_bytes().as_slice(), b"mi");
    assert_eq!(decode_maybe::<i32>(&v), None);
}

#[test]
fn absent_keeps_target_signature() {
    // An absent maybe still tells which "nothing" it is.
    let none_i = Variant::from_none(&i32::static_signature());
    assert_eq!(none_i.type_tag().as_bytes().as_slice(), b"mi");
    assert_eq!(decode_maybe::<i32>(&none_i), Some(None));
    assert_eq!(decode_maybe::<bool>(&none_i), None);
}

#[test]
fn example_scenario_int32() {
    // T = i32 with signature "i": the maybe signature is "mi"; encoding 7
    // round-trips, and so does the absent value.
    assert_eq!(i32::static_signature().as_bytes().as_slice(), b"i");
    assert_eq!(
        static_signature_of_maybe::<i32>().as_bytes().as_slice(),
        b"mi"
    );
    let present = encode_maybe::<i32>(&Some(7));
    assert_eq!(present.type_tag().as_bytes().as_slice(), b"mi");
    assert_eq!(decode_maybe::<i32>(&present), Some(Some(7)));
    let absent = encode_maybe::<i32>(&None);
    assert_eq!(absent.type_tag().as_bytes().as_slice(), b"mi");
    assert_eq!(decode_maybe::<i32>(&absent), Some(None));
}

#[test]
fn nested_maybe_composes() {
    assert_eq!(
        static_signature_of_maybe::<Option<i32>>().as_bytes().as_slice(),
        b"mmi"
    );
    let v = encode_maybe::<Option<i32>>(&Some(Some(7)));
    assert_eq!(v.type_tag().as_bytes().as_slice(), b"mmi");
    assert_eq!(decode_maybe::<Option<i32>>(&v), Some(Some(Some(7))));
    let v = encode_maybe::<Option<i32>>(&Some(None));
    assert_eq!(decode_maybe::<Option<i32>>(&v), Some(Some(None)));
    let v = encode_maybe::<Option<i32>>(&None);
    assert_eq!(decode_maybe::<Option<i32>>(&v), Some(None));
    // The inner "nothing" and the outer "nothing" stay distinct.
    let inner_none = encode_maybe::<i32>(&None);
    assert_eq!(decode_maybe::<Option<i32>>(&inner_none), None);
}

#[test]
fn present_maybe_exposes_payload() {
    let v = encode_maybe::<i32>(&Some(9));
    let inner = v.as_maybe().unwrap();
    assert_eq!(inner.int32_value(), Some(9));
    let v = encode_maybe::<i32>(&None);
    assert!(v.as_maybe().is_none());
}

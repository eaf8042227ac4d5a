use variant_codec::builder::VariantBuilder;
use variant_codec::signature::Signature;
use variant_codec::value::ValueType;
use variant_codec::variant::Variant;

fn sig(bytes: &[u8]) -> Signature {
    Signature::new(bytes.to_vec()).unwrap()
}

#[test]
fn array_holds_values_in_order() {
    let mut b = VariantBuilder::new(sig(b"ai"));
    b.add(&1i32);
    b.add(&2i32);
    b.add(&3i32);
    let v = b.end();
    assert_eq!(v.type_tag().as_bytes().as_slice(), b"ai");
    let items = v.children().unwrap();
    assert_eq!(items.len(), 3);
    assert_eq!(items[0].int32_value(), Some(1));
    assert_eq!(items[1].int32_value(), Some(2));
    assert_eq!(items[2].int32_value(), Some(3));
}

#[test]
fn empty_array() {
    let b = VariantBuilder::new(sig(b"ai"));
    let v = b.end();
    assert_eq!(v.type_tag().as_bytes().as_slice(), b"ai");
    assert_eq!(v.children().unwrap().len(), 0);
}

#[test]
fn nested_region_seals_into_parent() {
    let mut b = VariantBuilder::new(sig(b"aai"));
    b.open(sig(b"ai"));
    b.add(&1i32);
    b.add(&2i32);
    b.close();
    let v = b.end();
    assert_eq!(v.type_tag().as_bytes().as_slice(), b"aai");
    let outer = v.children().unwrap();
    assert_eq!(outer.len(), 1);
    let inner = outer[0].children().unwrap();
    assert_eq!(inner.len(), 2);
    assert_eq!(inner[0].int32_value(), Some(1));
    assert_eq!(inner[1].int32_value(), Some(2));
}

#[test]
fn sibling_regions_stay_in_order() {
    let mut b = VariantBuilder::new(sig(b"aai"));
    b.open(sig(b"ai"));
    b.add(&1i32);
    b.add(&2i32);
    b.close();
    b.open(sig(b"ai"));
    b.add(&3i32);
    b.close();
    b.open(sig(b"ai"));
    b.close();
    let v = b.end();
    let outer = v.children().unwrap();
    assert_eq!(outer.len(), 3);
    assert_eq!(outer[0].children().unwrap().len(), 2);
    assert_eq!(outer[0].children().unwrap()[0].int32_value(), Some(1));
    assert_eq!(outer[0].children().unwrap()[1].int32_value(), Some(2));
    assert_eq!(outer[1].children().unwrap().len(), 1);
    assert_eq!(outer[1].children().unwrap()[0].int32_value(), Some(3));
    assert_eq!(outer[2].children().unwrap().len(), 0);
}

#[test]
fn tuple_takes_components_in_order() {
    let mut b = VariantBuilder::new(sig(b"(ib)"));
    b.add(&7i32);
    b.add(&true);
    let v = b.end();
    assert_eq!(v.type_tag().as_bytes().as_slice(), b"(ib)");
    let items = v.children().unwrap();
    assert_eq!(items.len(), 2);
    assert_eq!(items[0].int32_value(), Some(7));
    assert_eq!(items[1].bool_value(), Some(true));
}

#[test]
fn tuple_with_nested_array() {
    let mut b = VariantBuilder::new(sig(b"(aib)"));
    b.open(sig(b"ai"));
    b.add(&4i32);
    b.add(&5i32);
    b.close();
    b.add(&false);
    let v = b.end();
    assert_eq!(v.type_tag().as_bytes().as_slice(), b"(aib)");
    let items = v.children().unwrap();
    assert_eq!(items.len(), 2);
    let arr = items[0].children().unwrap();
    assert_eq!(arr.len(), 2);
    assert_eq!(arr[0].int32_value(), Some(4));
    assert_eq!(arr[1].int32_value(), Some(5));
    assert_eq!(items[1].bool_value(), Some(false));
}

#[test]
fn maybe_region_present() {
    let mut b = VariantBuilder::new(sig(b"mi"));
    b.add(&7i32);
    let v = b.end();
    assert_eq!(v.type_tag().as_bytes().as_slice(), b"mi");
    assert_eq!(v.as_maybe().unwrap().int32_value(), Some(7));
}

#[test]
fn maybe_region_absent() {
    let b = VariantBuilder::new(sig(b"mi"));
    let v = b.end();
    assert_eq!(v.type_tag().as_bytes().as_slice(), b"mi");
    assert!(v.as_maybe().is_none());
}

#[test]
fn depth_follows_open_and_close() {
    let mut b = VariantBuilder::new(sig(b"aai"));
    assert_eq!(b.depth(), 1);
    b.open(sig(b"ai"));
    assert_eq!(b.depth(), 2);
    b.add(&1i32);
    assert_eq!(b.depth(), 2);
    b.close();
    assert_eq!(b.depth(), 1);
}

#[test]
fn add_value_takes_encoded_variants() {
    let mut b = VariantBuilder::new(sig(b"ab"));
    b.add_value(Variant::Bool(true));
    b.add_value(false.encode());
    let v = b.end();
    let items = v.children().unwrap();
    assert_eq!(items.len(), 2);
    assert_eq!(items[0].bool_value(), Some(true));
    assert_eq!(items[1].bool_value(), Some(false));
}

#[test]
fn built_maybe_decodes_back() {
    // A maybe built value by value equals one produced by the encoder, as
    // far as the decoder can tell.
    let mut b = VariantBuilder::new(sig(b"mi"));
    b.add(&42i32);
    let v = b.end();
    assert_eq!(
        variant_codec::maybe::decode_maybe::<i32>(&v),
        Some(Some(42))
    );
}

use variant_codec::signature::{Signature, SignatureError};

fn sig(bytes: &[u8]) -> Signature {
    Signature::new(bytes.to_vec()).unwrap()
}

#[test]
fn validate_accepts_base_signatures() {
    assert!(Signature::validate(&b"i".to_vec()));
    assert!(Signature::validate(&b"b".to_vec()));
}

#[test]
fn validate_accepts_containers() {
    assert!(Signature::validate(&b"mi".to_vec()));
    assert!(Signature::validate(&b"ai".to_vec()));
    assert!(Signature::validate(&b"aai".to_vec()));
    assert!(Signature::validate(&b"()".to_vec()));
    assert!(Signature::validate(&b"(ib)".to_vec()));
    assert!(Signature::validate(&b"a(ib)".to_vec()));
    assert!(Signature::validate(&b"m(a(ib)b)".to_vec()));
    assert!(Signature::validate(&b"(i(bb)mi)".to_vec()));
}

#[test]
fn validate_rejects_malformed() {
    assert!(!Signature::validate(&b"".to_vec()));
    assert!(!Signature::validate(&b"m".to_vec()));
    assert!(!Signature::validate(&b"a".to_vec()));
    assert!(!Signature::validate(&b"(".to_vec()));
    assert!(!Signature::validate(&b")".to_vec()));
    assert!(!Signature::validate(&b"x".to_vec()));
    assert!(!Signature::validate(&b"ii".to_vec()));
    assert!(!Signature::validate(&b"(i".to_vec()));
    assert!(!Signature::validate(&b"i)".to_vec()));
    assert!(!Signature::validate(&b"(ib))".to_vec()));
}

#[test]
fn new_reports_malformed() {
    assert!(Signature::new(b"mi".to_vec()).is_ok());
    assert_eq!(
        Signature::new(b"m".to_vec()).unwrap_err(),
        SignatureError::Malformed
    );
}

#[test]
fn composition_prefixes_one_tag() {
    let i = sig(b"i");
    assert_eq!(i.maybe_of().as_bytes().as_slice(), b"mi");
    assert_eq!(i.array_of().as_bytes().as_slice(), b"ai");
    assert_eq!(i.maybe_of().maybe_of().as_bytes().as_slice(), b"mmi");
    let t = sig(b"(ib)");
    assert_eq!(t.array_of().as_bytes().as_slice(), b"a(ib)");
}

#[test]
fn tuple_composition() {
    let parts = vec![Signature::int32(), Signature::boolean()];
    assert_eq!(Signature::tuple_of(&parts).as_bytes().as_slice(), b"(ib)");
    let empty: Vec<Signature> = Vec::new();
    assert_eq!(Signature::tuple_of(&empty).as_bytes().as_slice(), b"()");
    let nested = vec![Signature::tuple_of(&parts), Signature::int32().array_of()];
    assert_eq!(
        Signature::tuple_of(&nested).as_bytes().as_slice(),
        b"((ib)ai)"
    );
}

#[test]
fn equals_is_byte_for_byte() {
    assert!(sig(b"mi").equals(&sig(b"i").maybe_of()));
    assert!(!sig(b"mi").equals(&sig(b"mb")));
    assert!(!sig(b"mi").equals(&sig(b"mmi")));
}

#[test]
fn container_classification() {
    assert!(sig(b"mi").is_container());
    assert!(sig(b"ai").is_container());
    assert!(sig(b"(ib)").is_container());
    assert!(!sig(b"i").is_container());
    assert!(!sig(b"b").is_container());
}

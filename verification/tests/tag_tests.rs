use linkbond::tag::LinkTag;
use linkbond::tag::TagOrder;

fn tag(transport: &str, token: u64, key: &[u8]) -> LinkTag {
    LinkTag::new(transport.as_bytes().to_vec(), token, key.to_vec())
}

#[test]
fn equal_tags_agree_in_hash_and_comparison() {
    let a = tag("tcp", 3, &[192, 0, 2, 1, 0x17, 0x0c]);
    let b = tag("tcp", 3, &[192, 0, 2, 1, 0x17, 0x0c]);
    assert!(a.eq_tag(&b));
    assert_eq!(a.hash_tag(), b.hash_tag());
    assert_eq!(a.cmp_tag(&b), TagOrder::Equal);
}

#[test]
fn different_key_means_different_tag() {
    let a = tag("tcp", 3, &[192, 0, 2, 1]);
    let b = tag("tcp", 3, &[192, 0, 2, 2]);
    assert!(!a.eq_tag(&b));
    assert_ne!(a.cmp_tag(&b), TagOrder::Equal);
    assert_eq!(a.cmp_tag(&b), TagOrder::Less);
    assert_eq!(b.cmp_tag(&a), TagOrder::Greater);
}

#[test]
fn transport_name_dominates_the_order() {
    let a = tag("rfcomm", 9, &[200]);
    let b = tag("tcp", 1, &[0]);
    assert_eq!(a.cmp_tag(&b), TagOrder::Less);
    assert_eq!(b.cmp_tag(&a), TagOrder::Greater);
}

#[test]
fn type_token_breaks_same_transport_name() {
    let a = tag("tcp", 1, &[200]);
    let b = tag("tcp", 2, &[0]);
    assert_eq!(a.cmp_tag(&b), TagOrder::Less);
    assert!(!a.eq_tag(&b));
}

#[test]
fn prefix_key_sorts_before_extension() {
    let a = tag("tcp", 1, &[1, 2]);
    let b = tag("tcp", 1, &[1, 2, 3]);
    assert_eq!(a.cmp_tag(&b), TagOrder::Less);
    assert_eq!(b.cmp_tag(&a), TagOrder::Greater);
}

#[test]
fn duplicated_tag_keeps_identity() {
    let a = tag("tls", 5, &[10, 20, 30]);
    let c = a.dup();
    assert!(a.eq_tag(&c));
    assert_eq!(a.hash_tag(), c.hash_tag());
    assert_eq!(a.cmp_tag(&c), TagOrder::Equal);
}

use linkbond::error::ErrorKind;
use linkbond::reassembler::Reassembler;

#[test]
fn in_order_delivery() {
    let mut ra = Reassembler::new(1024);
    assert_eq!(ra.accept(0, &vec![1, 2, 3]), Ok(()));
    assert_eq!(ra.delivered_upto(), 3);
    assert_eq!(ra.take(), vec![1, 2, 3]);
    assert_eq!(ra.accept(3, &vec![4, 5]), Ok(()));
    assert_eq!(ra.take(), vec![4, 5]);
    assert_eq!(ra.delivered_upto(), 5);
}

#[test]
fn duplicates_deliver_nothing_twice() {
    let mut ra = Reassembler::new(1024);
    ra.accept(0, &vec![1, 2, 3]).unwrap();
    assert_eq!(ra.take(), vec![1, 2, 3]);
    // the dispatcher may re-send a segment on another link
    assert_eq!(ra.accept(0, &vec![1, 2, 3]), Ok(()));
    assert_eq!(ra.delivered_upto(), 3);
    assert_eq!(ra.take(), Vec::<u8>::new());
}

#[test]
fn out_of_order_held_then_spliced() {
    let mut ra = Reassembler::new(1024);
    assert_eq!(ra.accept(5, &vec![15, 16, 17]), Ok(()));
    assert_eq!(ra.delivered_upto(), 0);
    assert_eq!(ra.take(), Vec::<u8>::new());
    assert_eq!(ra.accept(0, &vec![10, 11, 12, 13, 14]), Ok(()));
    assert_eq!(ra.delivered_upto(), 8);
    assert_eq!(ra.take(), vec![10, 11, 12, 13, 14, 15, 16, 17]);
}

#[test]
fn delivered_upto_never_goes_backward() {
    let mut ra = Reassembler::new(1024);
    let mut floor = 0u64;
    let steps: [(u64, Vec<u8>); 6] = [
        (4, vec![24, 25]),
        (0, vec![20, 21, 22, 23]),
        (0, vec![20, 21]),
        (6, vec![26]),
        (2, vec![22, 23, 24]),
        (7, vec![27]),
    ];
    for (seq, body) in steps {
        let _ = ra.accept(seq, &body);
        assert!(ra.delivered_upto() >= floor);
        floor = ra.delivered_upto();
    }
    assert_eq!(ra.delivered_upto(), 8);
    assert_eq!(ra.take(), vec![20, 21, 22, 23, 24, 25, 26, 27]);
}

#[test]
fn beyond_window_is_a_protocol_violation() {
    let mut ra = Reassembler::new(100);
    assert_eq!(ra.accept(100, &vec![1]), Err(ErrorKind::ProtocolViolation));
    assert_eq!(ra.accept(99, &vec![1, 2]), Err(ErrorKind::ProtocolViolation));
    assert_eq!(ra.accept(99, &vec![1]), Ok(()));
    assert_eq!(ra.delivered_upto(), 0);
}

#[test]
fn overlap_must_match_byte_for_byte() {
    let mut ra = Reassembler::new(1024);
    ra.accept(10, &vec![1, 2, 3]).unwrap();
    assert_eq!(ra.accept(11, &vec![9]), Err(ErrorKind::ProtocolViolation));
    assert_eq!(ra.accept(11, &vec![2, 3]), Ok(()));
    assert_eq!(ra.delivered_upto(), 0);
    ra.accept(0, &(0u8..10).collect::<Vec<u8>>()).unwrap();
    assert_eq!(ra.delivered_upto(), 13);
}

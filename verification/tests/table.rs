use rping::IpAddress;
use rping::SessionTable;

#[test]
fn resolve_consumes_exactly_one_probe() {
    let mut t = SessionTable::new();
    let a = IpAddress::from_octets_v4(10, 0, 0, 1);
    let b = IpAddress::from_octets_v4(10, 0, 0, 2);
    t.insert(a, 1, 100);
    t.insert(b, 1, 100);
    t.insert(a, 2, 105);
    assert_eq!(t.len(), 3);

    assert_eq!(t.resolve(a, 1, 160), Some(60));
    assert_eq!(t.len(), 2);
    assert_eq!(t.resolve(a, 1, 170), None, "a probe resolves at most once");
    assert_eq!(t.resolve(b, 2, 170), None);
    assert_eq!(t.resolve(b, 1, 170), Some(70));
    assert_eq!(t.resolve(a, 2, 105), Some(0));
    assert!(t.is_empty());
}

#[test]
fn expiry_splits_by_send_time() {
    let mut t = SessionTable::new();
    let a = IpAddress::from_octets_v4(10, 0, 0, 1);
    let b = IpAddress::from_octets_v4(10, 0, 0, 2);
    let c = IpAddress::from_octets_v4(10, 0, 0, 3);
    t.insert(a, 7, 100);
    t.insert(b, 7, 250);
    t.insert(c, 7, 300);

    let expired = t.expire_all_before(300);
    assert_eq!(expired.len(), 2);
    assert_eq!(expired[0].addr, a);
    assert_eq!(expired[0].sent_at, 100);
    assert_eq!(expired[1].addr, b);
    assert_eq!(t.len(), 1);
    assert_eq!(t.resolve(c, 7, 330), Some(30));
}

#[test]
fn monotonic_clock_glitches_never_go_negative() {
    let mut t = SessionTable::new();
    let a = IpAddress::from_octets_v4(10, 0, 0, 1);
    t.insert(a, 1, 500);
    // A reply stamped before the send reads as zero elapsed, not negative.
    assert_eq!(t.resolve(a, 1, 400), Some(0));
}

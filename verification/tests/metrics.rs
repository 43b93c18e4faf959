use concurrency::Metrics;

fn value_of(entries: &[(String, i64)], key: &str) -> Option<i64> {
    let mut found = None;
    for (k, v) in entries {
        if k == key {
            assert!(found.is_none());
            found = Some(*v);
        }
    }
    found
}

#[test]
fn new_store_is_empty() {
    let m = Metrics::new();
    assert!(m.snapshot().is_empty());
    assert_eq!(m.get("anything"), None);
    let d = Metrics::default();
    assert!(d.snapshot().is_empty());
}

#[test]
fn inc_creates_the_key_at_zero_then_adds_one() {
    let mut m = Metrics::new();
    m.inc("req.page.1");
    assert_eq!(m.get("req.page.1"), Some(1));
    m.inc("req.page.1");
    m.inc("req.page.1");
    assert_eq!(m.get("req.page.1"), Some(3));
}

#[test]
fn dec_creates_the_key_at_zero_then_takes_one() {
    let mut m = Metrics::new();
    m.dec("11");
    assert_eq!(m.get("11"), Some(-1));
    m.dec("11");
    assert_eq!(m.get("11"), Some(-2));
}

#[test]
fn dec_then_inc_on_fresh_key_is_zero() {
    let mut m = Metrics::new();
    m.dec("fresh");
    m.inc("fresh");
    assert_eq!(m.get("fresh"), Some(0));
    let snap = m.snapshot();
    assert_eq!(snap, vec![("fresh".to_string(), 0)]);
}

#[test]
fn untouched_key_is_absent_from_snapshot() {
    let mut m = Metrics::new();
    m.inc("req.page.1");
    m.inc("call.thread.worker.1");
    m.dec("11");
    m.dec("22");
    let snap = m.snapshot();
    assert_eq!(snap.len(), 4);
    assert_eq!(value_of(&snap, "req.page.1"), Some(1));
    assert_eq!(value_of(&snap, "call.thread.worker.1"), Some(1));
    assert_eq!(value_of(&snap, "11"), Some(-1));
    assert_eq!(value_of(&snap, "22"), Some(-1));
    assert_eq!(value_of(&snap, "33"), None);
    assert_eq!(m.get("33"), None);
}

#[test]
fn snapshot_lists_keys_in_order_of_first_touch() {
    let mut m = Metrics::new();
    m.inc("b");
    m.dec("a");
    m.inc("b");
    m.inc("c");
    let snap = m.snapshot();
    assert_eq!(
        snap,
        vec![("b".to_string(), 2), ("a".to_string(), -1), ("c".to_string(), 1)]
    );
}

#[test]
fn snapshot_is_a_copy() {
    let mut m = Metrics::new();
    m.inc("k");
    let before = m.snapshot();
    m.inc("k");
    assert_eq!(before, vec![("k".to_string(), 1)]);
    assert_eq!(m.snapshot(), vec![("k".to_string(), 2)]);
}

#[test]
fn interleaved_increments_are_all_counted() {
    let threads = 8usize;
    let each = 250usize;
    let mut m = Metrics::new();
    for round in 0..each {
        for t in 0..threads {
            let turn = (t + round) % threads;
            m.inc("shared");
            if turn % 2 == 0 {
                m.inc("even");
            } else {
                m.dec("odd");
            }
        }
    }
    assert_eq!(m.get("shared"), Some((threads * each) as i64));
    assert_eq!(m.get("even"), Some((threads * each / 2) as i64));
    assert_eq!(m.get("odd"), Some(-((threads * each / 2) as i64)));
}

#[test]
fn keys_are_told_apart_exactly() {
    let mut m = Metrics::new();
    m.inc("a");
    m.inc("a ");
    m.inc("A");
    m.inc("");
    assert_eq!(m.get("a"), Some(1));
    assert_eq!(m.get("a "), Some(1));
    assert_eq!(m.get("A"), Some(1));
    assert_eq!(m.get(""), Some(1));
    assert_eq!(m.snapshot().len(), 4);
}

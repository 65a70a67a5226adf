use delta_stream::crdt::{Crdt, CrdtError, GCounter, LwwRegister, PNCounter, ReplicaId};

#[test]
fn counters_converge() {
    let replica_a = ReplicaId::new("replica-a").unwrap();
    let replica_b = ReplicaId::new("replica-b").unwrap();
    let mut counter_a = GCounter::new();
    let mut counter_b = GCounter::new();
    counter_a.increment(&replica_a, 3).unwrap();
    counter_b.increment(&replica_b, 4).unwrap();
    assert!(counter_a.merge(&counter_b));
    assert!(counter_b.merge(&counter_a));
    let changed_by_duplicate = counter_a.merge(&counter_b);
    assert!(!changed_by_duplicate);
    assert_eq!(counter_a, counter_b);
    assert_eq!(counter_a.value().unwrap(), 7);
    assert_eq!(counter_a.component(&replica_a), 3);
    assert_eq!(counter_a.component(&ReplicaId::new("nobody").unwrap()), 0);
}

#[test]
fn counter_components_are_in_replica_order() {
    let mut c = GCounter::new();
    c.increment(&ReplicaId::new("zeta").unwrap(), 1).unwrap();
    c.increment(&ReplicaId::new("alpha").unwrap(), 2).unwrap();
    c.increment(&ReplicaId::new("mid").unwrap(), 3).unwrap();
    c.increment(&ReplicaId::new("alpha").unwrap(), 5).unwrap();
    let names: Vec<String> = c.components().iter().map(|(r, _)| r.as_str().to_string()).collect();
    assert_eq!(names, vec!["alpha", "mid", "zeta"]);
    let values: Vec<u64> = c.components().iter().map(|(_, v)| *v).collect();
    assert_eq!(values, vec![7, 3, 1]);
}

#[test]
fn merge_is_commutative_associative_idempotent_on_examples() {
    let r = |s: &str| ReplicaId::new(s).unwrap();
    let mut a = GCounter::new();
    a.increment(&r("x"), 5).unwrap();
    a.increment(&r("y"), 1).unwrap();
    let mut b = GCounter::new();
    b.increment(&r("y"), 4).unwrap();
    b.increment(&r("z"), 2).unwrap();
    let mut c = GCounter::new();
    c.increment(&r("x"), 9).unwrap();
    let mut ab = a.clone();
    ab.merge(&b);
    let mut ba = b.clone();
    ba.merge(&a);
    assert_eq!(ab, ba);
    let mut ab_c = ab.clone();
    ab_c.merge(&c);
    let mut bc = b.clone();
    bc.merge(&c);
    let mut a_bc = a.clone();
    a_bc.merge(&bc);
    assert_eq!(ab_c, a_bc);
    assert_eq!(ab_c.value().unwrap(), 9 + 4 + 2);
    let mut aa = a.clone();
    assert!(!aa.merge(&a));
    assert_eq!(aa, a);
}

#[test]
fn counter_overflow_is_reported() {
    let r = ReplicaId::new("r").unwrap();
    let mut c = GCounter::new();
    c.increment(&r, u64::MAX).unwrap();
    assert!(matches!(c.increment(&r, 1), Err(CrdtError::CounterOverflow)));
    assert_eq!(c.component(&r), u64::MAX);
    c.increment(&ReplicaId::new("s").unwrap(), 1).unwrap();
    assert!(matches!(c.value(), Err(CrdtError::ValueOverflow)));
}

#[test]
fn empty_replica_id_is_refused() {
    assert!(matches!(ReplicaId::new(""), Err(CrdtError::EmptyReplicaId)));
    assert_eq!(ReplicaId::new("a").unwrap().as_str(), "a");
}

#[test]
fn pn_counter_value_and_merge() {
    let a = ReplicaId::new("a").unwrap();
    let b = ReplicaId::new("b").unwrap();
    let mut x = PNCounter::new();
    x.increment(&a, 10).unwrap();
    x.decrement(&a, 3).unwrap();
    let mut y = PNCounter::new();
    y.decrement(&b, 20).unwrap();
    assert!(x.merge(&y));
    assert_eq!(x.value().unwrap(), -13);
    assert_eq!(x.positive().value().unwrap(), 10);
    assert_eq!(x.negative().value().unwrap(), 23);
    let mut y2 = y.clone();
    y2.merge(&x);
    assert_eq!(y2, x);
    assert!(!x.merge(&y2));
}

#[test]
fn register_ties_break_by_replica() {
    let replica_a = ReplicaId::new("replica-a").unwrap();
    let replica_b = ReplicaId::new("replica-b").unwrap();
    let register_a = LwwRegister::new("from-a".to_string(), 7, replica_a);
    let register_b = LwwRegister::new("from-b".to_string(), 7, replica_b);
    let mut merged_ab = register_a.clone();
    merged_ab.merge(&register_b);
    let mut merged_ba = register_b.clone();
    merged_ba.merge(&register_a);
    assert_eq!(merged_ab, merged_ba);
    assert_eq!(merged_ab.value(), "from-b");
    assert_eq!(merged_ab.replica().as_str(), "replica-b");
    assert_eq!(merged_ab.timestamp(), 7);
}

#[test]
fn register_keeps_the_latest_write() {
    let r = ReplicaId::new("r").unwrap();
    let mut reg = LwwRegister::new(1u32, 5, r.clone());
    assert!(!reg.assign(2, 4, r.clone()));
    assert_eq!(*reg.value(), 1);
    assert!(!reg.assign(3, 5, r.clone()));
    assert!(reg.assign(4, 6, r.clone()));
    assert_eq!(*reg.value(), 4);
    assert!(reg.assign(5, 6, ReplicaId::new("s").unwrap()));
    assert!(!reg.assign(6, 6, ReplicaId::new("q").unwrap()));
    assert_eq!(*reg.value(), 5);
}

#[test]
fn merge_reports_a_new_zero_component() {
    let mut a = GCounter::new();
    let mut b = GCounter::new();
    b.increment(&ReplicaId::new("quiet").unwrap(), 0).unwrap();
    assert!(a.merge(&b));
    assert_eq!(a.components().len(), 1);
    assert!(!a.merge(&b));
    assert_eq!(a.value().unwrap(), 0);
}

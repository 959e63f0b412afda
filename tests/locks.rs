use pgextkit::db::DatabaseLocal;
use pgextkit::lwlock::{PgDynamicLwLock, TrancheRegistry};

#[test]
fn tranche_registration_is_idempotent() {
    let mut t = TrancheRegistry::new();
    let a = t.register("A");
    let b = t.register("B");
    assert_eq!(t.register("A"), a);
    assert_ne!(a, b);
}

#[test]
fn holds_are_given_back_when_the_scope_ends() {
    let mut t = TrancheRegistry::new();
    let mut lock = PgDynamicLwLock::new("A", String::from("Test"));
    assert_eq!(lock.share(&mut t, |s: &String| s.clone()), Some(String::from("Test")));
    // the shared hold was released, so the exclusive one is granted
    let r = lock.exclusive(&mut t, |mut s: String| {
        s.push('!');
        (s, 7)
    });
    assert_eq!(r, Some(7));
    // and released again: both kinds of hold are granted once more
    assert_eq!(lock.exclusive(&mut t, |s: String| (s, ())), Some(()));
    assert_eq!(lock.share(&mut t, |s: &String| s.len()), Some(5));
    assert_eq!(lock.share(&mut t, |s: &String| s.clone()), Some(String::from("Test!")));
}

#[test]
fn locks_of_one_name_share_a_tranche() {
    let mut t = TrancheRegistry::new();
    let mut a = PgDynamicLwLock::new("A", 0u8);
    let mut b = PgDynamicLwLock::new("A", 0u8);
    assert_eq!(a.share(&mut t, |v: &u8| *v), Some(0));
    assert_eq!(b.share(&mut t, |v: &u8| *v), Some(0));
    assert_eq!(t.register("A"), 0);
    assert_eq!(t.register("B"), 1);
}

#[test]
fn databases_claim_one_slot_each() {
    let mut table = DatabaseLocal::<u32, 8>::new(|| 0u32);
    *table.for_my_database(100) += 1;
    *table.for_my_database(200) += 10;
    *table.for_my_database(100) += 1;
    *table.for_my_database(300) += 100;
    assert_eq!(*table.for_my_database(100), 2);
    assert_eq!(*table.for_my_database(200), 10);
    assert_eq!(*table.for_my_database(300), 100);
}

#[test]
fn slot_table_serves_its_capacity() {
    let mut table = DatabaseLocal::<u64, 3>::new(|| 5u64);
    for db in 0..3u32 {
        *table.for_my_database(db) += db as u64;
    }
    for db in 0..3u32 {
        assert_eq!(*table.for_my_database(db), 5 + db as u64);
    }
}

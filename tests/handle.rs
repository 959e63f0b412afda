use pgextkit::carve::{AllocationCoordinator, Grant, Publication};
use pgextkit::db::DatabaseLocal;
use pgextkit::latch::{SharedLatch, WaitOutcome};
use pgextkit::lwlock::{PgDynamicLwLock, TrancheRegistry};
use pgextkit::shmem::SharedDictionary;
use pgextkit::workers::{
    new_databases, parse_worker_extra, replace_all_exec, worker_extra, workers_to_start,
    DatabaseRow, InstalledExtension, PendingWorker, WorkerSpec,
};
use pgextkit::{shmem_size, size_or_default, AllocAction, Handle, Magic, WorkerAction};

fn spec(name: &str) -> WorkerSpec {
    WorkerSpec {
        name: String::from(name),
        function: String::from("worker"),
        library: String::from("example"),
        extra: String::new(),
    }
}

#[test]
fn magic_of_this_library_is_compatible() {
    assert!(Magic::new().is_compatible());
}

#[test]
fn preload_handle_queues_requests() {
    let h = Handle::make_static(String::from("example"), String::from("0.0.0"), "example");
    assert_eq!(h.library_name(), "example");
    let mut c = AllocationCoordinator::new();
    assert!(h.allocate_shmem(&mut c, 256, 1) == AllocAction::Deferred);
    assert_eq!(c.requested(), Some(256));
    let mut pending = Vec::new();
    assert!(matches!(h.register_bgworker(&mut pending, spec("example ({{DATABASE}})"), "u", "d"), WorkerAction::Deferred));
    assert_eq!(pending.len(), 1);
    assert_eq!(pending[0].extension, "example");
    assert_eq!(pending[0].version, "0.0.0");
    assert_eq!(pending[0].worker.name, "example ({{DATABASE}})");
}

#[test]
fn dynamic_handle_serves_at_once() {
    let h = Handle::make_dynamic(String::from("example"), String::from("0.0.0"), "example");
    let mut c = AllocationCoordinator::new();
    assert!(h.allocate_shmem(&mut c, 64, 9) == AllocAction::CarveNow { size: 64, token: 9 });
    assert_eq!(c.requested(), Some(0));
    let mut pending = Vec::new();
    match h.register_bgworker(&mut pending, spec("example ({{DATABASE}})"), "alice", "sales") {
        WorkerAction::StartNow(w) => {
            assert_eq!(w.name, "example (sales)");
            assert_eq!(w.extra, "alice@sales");
            assert_eq!(w.function, "worker");
            assert_eq!(w.library, "example");
        }
        WorkerAction::Deferred => panic!("a dynamic registration starts at once"),
    }
    assert!(pending.is_empty());
}

#[test]
fn display_name_is_bounded() {
    let h = Handle::make_dynamic(String::from("e"), String::from("1"), "e");
    let mut pending = Vec::new();
    let db = "d".repeat(200);
    match h.register_bgworker(&mut pending, spec("w {{DATABASE}}"), "u", &db) {
        WorkerAction::StartNow(w) => {
            assert_eq!(w.name.len(), 95);
            assert_eq!(w.extra.len(), 127);
        }
        WorkerAction::Deferred => panic!("a dynamic registration starts at once"),
    }
}

#[test]
fn placeholder_substitution() {
    assert_eq!(replace_all_exec("a {{DATABASE}} b {{DATABASE}}", "{{DATABASE}}", "db"), "a db b db");
    assert_eq!(replace_all_exec("no placeholder", "{{DATABASE}}", "db"), "no placeholder");
    assert_eq!(replace_all_exec("aaa", "aa", "b"), "ba");
    assert_eq!(replace_all_exec("{{DATA", "{{DATABASE}}", "db"), "{{DATA");
}

#[test]
fn identity_round_trip() {
    let extra = worker_extra("alice", "sales");
    assert_eq!(extra, "alice@sales");
    let (u, d) = parse_worker_extra(&extra).unwrap();
    assert_eq!(u, "alice");
    assert_eq!(d, "sales");
    assert_eq!(parse_worker_extra("nodelimiter"), None);
    assert_eq!(parse_worker_extra("a@b@c"), None);
    assert_eq!(parse_worker_extra("@"), Some((String::new(), String::new())));
}

#[test]
fn new_databases_skips_templates_and_known_ones() {
    let rows = vec![
        DatabaseRow { name: String::from("postgres"), is_template: false, allow_connections: true },
        DatabaseRow { name: String::from("template0"), is_template: true, allow_connections: false },
        DatabaseRow { name: String::from("closed"), is_template: false, allow_connections: false },
        DatabaseRow { name: String::from("sales"), is_template: false, allow_connections: true },
    ];
    let known = vec![String::from("postgres")];
    assert_eq!(new_databases(&known, &rows), vec![String::from("sales")]);
    assert_eq!(new_databases(&vec![], &rows), vec![String::from("postgres"), String::from("sales")]);
}

#[test]
fn workers_start_where_the_version_matches() {
    let pending = vec![
        PendingWorker { extension: String::from("a"), version: String::from("1.0"), worker: spec("wa") },
        PendingWorker { extension: String::from("b"), version: String::from("2.0"), worker: spec("wb") },
        PendingWorker { extension: String::from("c"), version: String::from("1.0"), worker: spec("wc") },
    ];
    let installed = vec![
        InstalledExtension { name: String::from("b"), version: String::from("1.0"), owner: String::from("bob") },
        InstalledExtension { name: String::from("a"), version: String::from("1.0"), owner: String::from("ann") },
    ];
    let launches = workers_to_start(&pending, &installed, "sales");
    assert_eq!(launches.len(), 1);
    assert_eq!(launches[0].index, 0);
    assert_eq!(launches[0].extra, "ann@sales");
}

#[test]
fn shmem_size_setting() {
    assert_eq!(shmem_size(Some("16 MiB")), 16 * 1024 * 1024);
    assert_eq!(shmem_size(Some("10 KB")), 10_000);
    assert_eq!(shmem_size(Some("^_^")), 16 * 1024 * 1024);
    assert_eq!(shmem_size(Some("64")), 64);
    assert_eq!(shmem_size(None), 16 * 1024 * 1024);
    // more digits than the parser can take without overflowing
    assert_eq!(shmem_size(Some("184467440737095516155")), 16 * 1024 * 1024);
    assert_eq!(shmem_size(Some("18446744073709551615.5")), 16 * 1024 * 1024);
    assert_eq!(shmem_size(Some("18446744073709551615")), u64::MAX);
    assert_eq!(size_or_default(Some(5)), 5);
    assert_eq!(size_or_default(None), 16 * 1024 * 1024);
}

#[test]
fn module_counter_end_to_end() {
    // preload: the module asks for 256 bytes for a counter named COUNTER
    let handle = Handle::make_static(String::from("example"), String::from("0.0.0"), "example");
    let mut coordinator = AllocationCoordinator::new();
    let mut publications: Vec<Publication> = Vec::new();
    assert!(
        handle.allocate_shmem_with(&mut coordinator, &mut publications, "COUNTER", "PgDynamicLwLock<u64>", 256, 1)
            == AllocAction::Deferred
    );
    // the segment is mapped; the carved counter is registered under its name
    let layout = coordinator.map_segment(1 << 20, 4096, 1 << 16).unwrap();
    let grant: Grant = layout.grants[0];
    assert_eq!(grant.size, 256);
    let mut registry = SharedDictionary::new();
    registry.publish(&grant, &publications);
    assert_eq!(registry.type_tag("COUNTER"), Some(String::from("PgDynamicLwLock<u64>")));
    // the segment's objects, indexed by offset
    let mut segment: Vec<(usize, PgDynamicLwLock<u64>)> = vec![(grant.offset, PgDynamicLwLock::new("COUNTER", 0u64))];
    let offset = registry.get("COUNTER").unwrap();
    let mut tranches = TrancheRegistry::new();
    let counter = &mut segment.iter_mut().find(|(o, _)| *o == offset).unwrap().1;
    assert_eq!(counter.share(&mut tranches, |v: &u64| *v), Some(0));
    // a second process increments under the exclusive hold
    assert_eq!(counter.exclusive(&mut tranches, |v: u64| (v + 1, ())), Some(()));
    // the first process reads it under a shared hold
    assert_eq!(counter.share(&mut tranches, |v: &u64| *v), Some(1));
    assert_eq!(registry.get_mut("COUNTER"), Some(offset));
}

#[test]
fn per_database_latches_wake_their_owner() {
    let mut latches = DatabaseLocal::<SharedLatch, 8>::new(SharedLatch::new);
    let owned = latches.for_my_database(5).own(77, 5).unwrap();
    latches.for_my_database(5).set_and_wake_up();
    assert_eq!(owned.wait(latches.for_my_database(5), None, 0, true), WaitOutcome::LatchSet);
    assert!(latches.for_my_database(6).own(78, 6).is_some());
}

#[test]
fn publish_registers_named_grants_only() {
    let mut registry = SharedDictionary::new();
    let publications = vec![Publication { token: 4, name: String::from("LATCH"), type_tag: String::from("t") }];
    registry.publish(&Grant { token: 3, offset: 10, size: 8 }, &publications);
    assert_eq!(registry.len(), 0);
    registry.publish(&Grant { token: 4, offset: 20, size: 8 }, &publications);
    assert_eq!(registry.get("LATCH"), Some(20));
}

#[test]
fn dynamic_named_allocation_is_carved_now() {
    let h = Handle::make_dynamic(String::from("e"), String::from("1"), "e");
    let mut c = AllocationCoordinator::new();
    let mut publications: Vec<Publication> = Vec::new();
    assert!(h.allocate_shmem_with(&mut c, &mut publications, "X", "t", 32, 5) == AllocAction::CarveNow { size: 32, token: 5 });
    assert!(publications.is_empty());
    assert_eq!(c.requested(), Some(0));
}

#[test]
fn allocate_for_records_the_name() {
    let h = Handle::make_static(String::from("e"), String::from("1"), "e");
    let mut c = AllocationCoordinator::new();
    let mut publications: Vec<Publication> = Vec::new();
    assert!(h.allocate_shmem_for(&mut c, &mut publications, "LOCK", "lock", 16, 2) == AllocAction::Deferred);
    assert_eq!(publications.len(), 1);
    assert_eq!(publications[0].name, "LOCK");
    assert_eq!(c.requested(), Some(16));
}

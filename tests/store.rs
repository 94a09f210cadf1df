use pickledb::policy::flush_due;
use pickledb::{LoadError, PickleDb, PickleDbDumpPolicy};

fn enc<T: serde::Serialize>(v: &T) -> String {
    serde_json::to_string(v).unwrap()
}

fn dec<T: serde::de::DeserializeOwned>(p: Option<String>) -> Option<T> {
    p.and_then(|s| serde_json::from_str(&s).ok())
}

fn fresh(policy: PickleDbDumpPolicy) -> PickleDb {
    PickleDb::new("test.db", policy)
}

#[test]
fn scalar_round_trip() {
    let mut db = fresh(PickleDbDumpPolicy::DumpUponRequest);
    db.set("num", &enc(&100));
    db.set("text", &enc(&"hello"));
    db.set("vec", &enc(&vec![1, 2, 3]));
    assert_eq!(dec::<i32>(db.get("num")), Some(100));
    assert_eq!(dec::<String>(db.get("text")), Some("hello".to_string()));
    assert_eq!(dec::<Vec<i32>>(db.get("vec")), Some(vec![1, 2, 3]));
    assert_eq!(db.get("num"), Some("100".to_string()));
}

#[test]
fn set_overwrites_scalar() {
    let mut db = fresh(PickleDbDumpPolicy::DumpUponRequest);
    db.set("k", &enc(&1));
    db.set("k", &enc(&2));
    assert_eq!(dec::<i32>(db.get("k")), Some(2));
    assert_eq!(db.total_keys(), 1);
}

#[test]
fn list_order_preserved() {
    let mut db = fresh(PickleDbDumpPolicy::DumpUponRequest);
    db.lcreate("l");
    let vals = vec![enc(&"a"), enc(&"b"), enc(&"c")];
    assert!(db.lextend("l", &vals));
    assert_eq!(dec::<String>(db.lget("l", 0)), Some("a".to_string()));
    assert_eq!(dec::<String>(db.lget("l", 1)), Some("b".to_string()));
    assert_eq!(dec::<String>(db.lget("l", 2)), Some("c".to_string()));
    assert_eq!(db.lget("l", 3), None);
    assert_eq!(db.llen("l"), 3);
}

#[test]
fn lpop_shifts_left() {
    let mut db = fresh(PickleDbDumpPolicy::DumpUponRequest);
    db.lcreate("l");
    let vals = vec![enc(&1), enc(&2), enc(&3), enc(&4)];
    db.lextend("l", &vals);
    assert_eq!(dec::<i32>(db.lpop("l", 2)), Some(3));
    assert_eq!(db.llen("l"), 3);
    assert_eq!(dec::<i32>(db.lget("l", 0)), Some(1));
    assert_eq!(dec::<i32>(db.lget("l", 1)), Some(2));
    assert_eq!(dec::<i32>(db.lget("l", 2)), Some(4));
}

#[test]
fn lpop_out_of_bounds_or_missing() {
    let mut db = fresh(PickleDbDumpPolicy::AutoDump);
    db.lcreate("l");
    db.ladd("l", &enc(&1));
    let _ = db.take_snapshot();
    assert_eq!(db.lpop("l", 1), None);
    assert_eq!(db.lpop("nope", 0), None);
    assert_eq!(db.take_snapshot(), None);
    assert_eq!(db.llen("l"), 1);
}

#[test]
fn exclusivity_overwrite() {
    let mut db = fresh(PickleDbDumpPolicy::DumpUponRequest);
    db.set("k", &enc(&1));
    db.lcreate("k");
    assert_eq!(db.get("k"), None);
    assert!(db.lexists("k"));
    assert!(db.key_exists("k"));
    db.set("k", &enc(&2));
    assert!(!db.lexists("k"));
    assert_eq!(dec::<i32>(db.get("k")), Some(2));
    assert_eq!(db.total_keys(), 1);
}

#[test]
fn never_dump_is_read_only() {
    let mut db = fresh(PickleDbDumpPolicy::NeverDump);
    db.set("a", &enc(&1));
    db.lcreate("l");
    db.ladd("l", &enc(&2));
    db.rem("a");
    assert!(db.dump());
    assert_eq!(db.take_snapshot(), None);
}

#[test]
fn upon_request_dumps_only_on_request() {
    let mut db = fresh(PickleDbDumpPolicy::DumpUponRequest);
    db.set("a", &enc(&1));
    assert_eq!(db.take_snapshot(), None);
    assert!(db.dump());
    assert_eq!(db.take_snapshot(), Some("[{\"a\":\"1\"},{}]".to_string()));
    assert_eq!(db.take_snapshot(), None);
}

#[test]
fn auto_dump_after_each_mutation() {
    let mut db = fresh(PickleDbDumpPolicy::AutoDump);
    db.set("b", &enc(&2));
    assert_eq!(db.take_snapshot(), Some("[{\"b\":\"2\"},{}]".to_string()));
    db.lcreate("l");
    db.ladd("l", &enc(&"x"));
    assert_eq!(
        db.take_snapshot(),
        Some("[{\"b\":\"2\"},{\"l\":[\"\\\"x\\\"\"]}]".to_string())
    );
    assert!(!db.ladd("missing", &enc(&1)));
    assert_eq!(db.take_snapshot(), None);
}

#[test]
fn dump_orders_keys() {
    let mut db = fresh(PickleDbDumpPolicy::DumpUponRequest);
    db.set("z", &enc(&1));
    db.set("a", &enc(&2));
    db.dump();
    assert_eq!(db.take_snapshot(), Some("[{\"a\":\"2\",\"z\":\"1\"},{}]".to_string()));
}

#[test]
fn periodic_decision() {
    let p = PickleDbDumpPolicy::PeriodicDump(1_000);
    assert!(!flush_due(&p, 0));
    assert!(!flush_due(&p, 1_000));
    assert!(flush_due(&p, 1_001));
    assert!(flush_due(&PickleDbDumpPolicy::AutoDump, 0));
    assert!(!flush_due(&PickleDbDumpPolicy::NeverDump, u128::MAX));
    assert!(!flush_due(&PickleDbDumpPolicy::DumpUponRequest, u128::MAX));
}

#[test]
fn periodic_cooldown() {
    let mut db = fresh(PickleDbDumpPolicy::PeriodicDump(0));
    let t = std::time::Instant::now();
    while t.elapsed().as_nanos() == 0 {}
    db.set("a", &enc(&1));
    assert!(db.take_snapshot().is_some());
    let mut slow = fresh(PickleDbDumpPolicy::PeriodicDump(3_600_000_000_000));
    slow.set("a", &enc(&1));
    slow.set("b", &enc(&2));
    assert_eq!(slow.take_snapshot(), None);
    assert!(slow.dump());
    assert!(slow.take_snapshot().is_some());
}

#[test]
fn missing_key_semantics() {
    let mut db = fresh(PickleDbDumpPolicy::DumpUponRequest);
    assert_eq!(dec::<i32>(db.get("missing")), None);
    assert!(!db.rem("missing"));
    assert_eq!(db.llen("missing"), 0);
    assert_eq!(db.lget("missing", 0), None);
    assert!(!db.key_exists("missing"));
    assert_eq!(db.lrem_list("missing"), 0);
}

#[test]
fn fruits_scenario() {
    let mut db = fresh(PickleDbDumpPolicy::DumpUponRequest);
    db.lcreate("fruits");
    assert!(db.ladd("fruits", &enc(&"apple")));
    assert!(db.ladd("fruits", &enc(&42)));
    assert_eq!(db.llen("fruits"), 2);
    assert_eq!(dec::<String>(db.lget("fruits", 0)), Some("apple".to_string()));
    assert_eq!(dec::<i32>(db.lget("fruits", 1)), Some(42));
    assert_eq!(dec::<String>(db.lget("fruits", 1)), None);
}

#[test]
fn rem_removes_either_kind() {
    let mut db = fresh(PickleDbDumpPolicy::DumpUponRequest);
    db.set("s", &enc(&1));
    db.lcreate("l");
    assert!(db.rem("s"));
    assert!(db.rem("l"));
    assert!(!db.key_exists("s"));
    assert!(!db.lexists("l"));
    assert_eq!(db.total_keys(), 0);
}

#[test]
fn get_all_and_total_keys() {
    let mut db = fresh(PickleDbDumpPolicy::DumpUponRequest);
    db.set("a", &enc(&1));
    db.set("b", &enc(&2));
    db.lcreate("c");
    let mut keys = db.get_all();
    keys.sort();
    assert_eq!(keys, vec!["a".to_string(), "b".to_string(), "c".to_string()]);
    assert_eq!(db.total_keys(), 3);
}

#[test]
fn lrem_list_returns_length() {
    let mut db = fresh(PickleDbDumpPolicy::DumpUponRequest);
    db.lcreate("l");
    db.lextend("l", &vec![enc(&1), enc(&2)]);
    assert_eq!(db.lrem_list("l"), 2);
    assert!(!db.lexists("l"));
}

#[test]
fn lrem_value_removes_first_match() {
    let mut db = fresh(PickleDbDumpPolicy::DumpUponRequest);
    db.lcreate("l");
    db.lextend("l", &vec![enc(&1), enc(&2), enc(&1)]);
    assert!(db.lrem_value("l", &enc(&1)));
    assert_eq!(db.llen("l"), 2);
    assert_eq!(dec::<i32>(db.lget("l", 0)), Some(2));
    assert_eq!(dec::<i32>(db.lget("l", 1)), Some(1));
    assert!(!db.lrem_value("l", &enc(&7)));
    assert!(!db.lrem_value("nope", &enc(&1)));
}

#[test]
fn lextend_missing_list() {
    let mut db = fresh(PickleDbDumpPolicy::DumpUponRequest);
    assert!(!db.lextend("l", &vec![enc(&1)]));
    assert!(!db.lexists("l"));
}

#[test]
fn load_round_trip() {
    let mut db = fresh(PickleDbDumpPolicy::DumpUponRequest);
    db.set("a", &enc(&1));
    db.lcreate("l");
    db.lextend("l", &vec![enc(&"x"), enc(&2)]);
    db.dump();
    let text = db.take_snapshot().unwrap();
    let back = PickleDb::load("test.db", &text, PickleDbDumpPolicy::AutoDump).unwrap();
    assert_eq!(dec::<i32>(back.get("a")), Some(1));
    assert_eq!(back.llen("l"), 2);
    assert_eq!(dec::<String>(back.lget("l", 0)), Some("x".to_string()));
    assert_eq!(back.dump_policy(), PickleDbDumpPolicy::AutoDump);
    assert_eq!(back.db_file_path(), "test.db");
}

#[test]
fn load_read_only_never_dumps() {
    let mut db = PickleDb::load_read_only("x.db", "[{\"a\":\"1\"},{}]").unwrap();
    assert_eq!(db.dump_policy(), PickleDbDumpPolicy::NeverDump);
    db.set("b", &enc(&2));
    assert!(db.dump());
    assert_eq!(db.take_snapshot(), None);
}

#[test]
fn load_rejects_bad_text() {
    let r = PickleDb::load("x.db", "not json", PickleDbDumpPolicy::AutoDump);
    assert!(matches!(r, Err(LoadError::Decode(_))));
    let r = PickleDb::load("x.db", "[{\"a\":1},{}]", PickleDbDumpPolicy::AutoDump);
    assert!(matches!(r, Err(LoadError::Decode(_))));
}

#[test]
fn load_rejects_shared_key() {
    let r = PickleDb::load("x.db", "[{\"a\":\"1\"},{\"a\":[]}]", PickleDbDumpPolicy::AutoDump);
    assert!(matches!(r, Err(LoadError::KeyConflict)));
}

#[test]
fn from_tables_rejects_duplicates() {
    let s = vec![("a".to_string(), "1".to_string()), ("a".to_string(), "2".to_string())];
    let r = PickleDb::from_tables("x.db", s, vec![], PickleDbDumpPolicy::AutoDump);
    assert!(matches!(r, Err(LoadError::KeyConflict)));
    let s = vec![("a".to_string(), "1".to_string())];
    let l = vec![("b".to_string(), vec!["2".to_string()])];
    let db = PickleDb::from_tables("x.db", s, l, PickleDbDumpPolicy::AutoDump).unwrap();
    assert_eq!(db.total_keys(), 2);
    assert_eq!(db.lget("b", 0), Some("2".to_string()));
}

#[test]
fn periodic_flushes_at_given_times() {
    let mut db = fresh(PickleDbDumpPolicy::PeriodicDump(100));
    db.on_mutation_at(50);
    assert_eq!(db.take_snapshot(), None);
    db.on_mutation_at(150);
    assert_eq!(db.take_snapshot(), Some("[{},{}]".to_string()));
    db.on_mutation_at(200);
    assert_eq!(db.take_snapshot(), None);
    db.on_mutation_at(251);
    assert!(db.take_snapshot().is_some());
}

#[test]
fn manual_dump_restarts_cooldown() {
    let mut db = fresh(PickleDbDumpPolicy::PeriodicDump(100));
    assert!(db.dump_at(400));
    assert!(db.take_snapshot().is_some());
    db.on_mutation_at(450);
    assert_eq!(db.take_snapshot(), None);
    db.on_mutation_at(501);
    assert!(db.take_snapshot().is_some());
}

#[test]
fn clock_ignored_without_periodic_policy() {
    let mut db = fresh(PickleDbDumpPolicy::DumpUponRequest);
    db.on_mutation_at(u128::MAX);
    assert_eq!(db.take_snapshot(), None);
    let mut never = fresh(PickleDbDumpPolicy::NeverDump);
    assert!(never.dump_at(5));
    never.on_mutation_at(u128::MAX);
    assert_eq!(never.take_snapshot(), None);
    let mut auto = fresh(PickleDbDumpPolicy::AutoDump);
    auto.on_mutation_at(0);
    assert_eq!(auto.take_snapshot(), Some("[{},{}]".to_string()));
}

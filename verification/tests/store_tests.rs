use slv::proto::{Entry, FieldCondition, IndexMethod, JsonEntry, MessageId, RawEntry};
use slv::store::{ConfigError, Options, Store};

fn b(s: &str) -> Vec<u8> {
    s.as_bytes().to_vec()
}

fn json(fields: &[(&str, &str)]) -> Entry {
    Entry::Json(JsonEntry(fields.iter().map(|(k, v)| (b(k), b(v))).collect()))
}

fn raw(line: &str) -> Entry {
    Entry::Raw(RawEntry(b(line)))
}

fn store(bound: usize) -> Store {
    Store::new(Options { buffer_size: bound }).expect("positive bound")
}

fn ids(v: &[usize]) -> Vec<MessageId> {
    v.iter().map(|&i| MessageId(i)).collect()
}

#[test]
fn zero_bound_is_a_configuration_error() {
    let r = Store::new(Options { buffer_size: 0 });
    assert!(matches!(r, Err(ConfigError::ZeroBufferSize)));
    assert!(Store::new(Options { buffer_size: 1 }).is_ok());
}

#[test]
fn bounded_window_holds_min_of_pushes_and_bound() {
    let mut s = store(3);
    for i in 0..5usize {
        assert_eq!(s.window_size(), i.min(3));
        s.push(json(&[("n", "x")]));
    }
    // ids form the contiguous range [max(0, N - B), N) = [2, 5)
    assert_eq!(s.window_size(), 3);
    assert_eq!(s.window_start(), 2);
    assert_eq!(s.capacity(), 3);
}

#[test]
fn first_eviction_removes_id_zero() {
    let mut s = store(2);
    s.push(raw("one"));
    s.push(raw("two"));
    assert_eq!(s.window_start(), 0);
    assert_eq!(s.raw_contents(), ids(&[0, 1]));
    s.push(raw("three"));
    // exactly one eviction, of id 0
    assert_eq!(s.window_start(), 1);
    assert_eq!(s.window_size(), 2);
    assert_eq!(s.raw_contents(), ids(&[1, 2]));
}

#[test]
fn index_queue_is_strictly_increasing() {
    let mut s = store(10);
    let m = IndexMethod::new(vec![FieldCondition::HasKey(b("a"))]);
    s.register_index(m.clone());
    s.push(json(&[("a", "1")]));
    s.push(json(&[("b", "2")]));
    s.push(json(&[("a", "3")]));
    s.push(raw("noise"));
    s.push(json(&[("a", "4")]));
    let q = s.index_contents(&m).expect("registered");
    assert_eq!(q, ids(&[0, 2, 4]));
    for w in q.windows(2) {
        assert!(w[0] < w[1]);
    }
}

#[test]
fn membership_follows_the_matcher() {
    let mut s = store(10);
    let m = IndexMethod::new(vec![FieldCondition::KeyValue(b("level"), b("error"))]);
    s.register_index(m.clone());
    s.push(json(&[("level", "error")])); // id 0: matches
    s.push(json(&[("level", "info")])); // id 1: no
    s.push(json(&[("level", "error"), ("msg", "x")])); // id 2: matches
    s.push(raw("level error")); // id 3: opaque, never indexed
    assert_eq!(s.index_contents(&m).expect("registered"), ids(&[0, 2]));
    assert_eq!(s.raw_contents(), ids(&[3]));
}

#[test]
fn late_registration_does_not_backfill() {
    let mut s = store(10);
    s.push(json(&[("a", "1")])); // id 0, still in the buffer
    s.push(json(&[("a", "2")])); // id 1, still in the buffer
    let m = IndexMethod::new(vec![FieldCondition::HasKey(b("a"))]);
    s.register_index(m.clone());
    assert_eq!(s.index_contents(&m).expect("registered"), ids(&[]));
    s.push(json(&[("a", "3")])); // id 2, pushed while registered
    assert_eq!(s.index_contents(&m).expect("registered"), ids(&[2]));
}

#[test]
fn eviction_removes_only_the_evicted_id() {
    let mut s = store(2);
    let ma = IndexMethod::new(vec![FieldCondition::HasKey(b("a"))]);
    let mb = IndexMethod::new(vec![FieldCondition::HasKey(b("b"))]);
    s.register_index(ma.clone());
    s.register_index(mb.clone());
    s.push(json(&[("a", "1")])); // id 0: in ma only
    s.push(json(&[("b", "1")])); // id 1: in mb only
    assert_eq!(s.index_contents(&ma).expect("ma"), ids(&[0]));
    assert_eq!(s.index_contents(&mb).expect("mb"), ids(&[1]));
    s.push(json(&[("c", "1")])); // id 2 evicts id 0
    // ma loses the evicted id; mb, which never held it, is untouched
    assert_eq!(s.index_contents(&ma).expect("ma"), ids(&[]));
    assert_eq!(s.index_contents(&mb).expect("mb"), ids(&[1]));
}

#[test]
fn duplicate_registration_is_deduplicated() {
    let mut s = store(4);
    let m1 = IndexMethod::new(vec![
        FieldCondition::HasKey(b("a")),
        FieldCondition::KeyValue(b("b"), b("2")),
    ]);
    let m2 = IndexMethod::new(vec![
        FieldCondition::KeyValue(b("b"), b("2")),
        FieldCondition::HasKey(b("a")),
    ]);
    s.register_index(m1.clone());
    s.register_index(m2.clone());
    let listed = s.list_indices();
    assert_eq!(listed.len(), 1);
    assert_eq!(listed[0], m1);
}

#[test]
fn raw_entries_only_reach_the_raw_index() {
    let mut s = store(10);
    let m = IndexMethod::new(Vec::new()); // matches every structured entry
    s.register_index(m.clone());
    s.push(raw("opaque line")); // id 0
    s.push(json(&[("a", "1")])); // id 1
    assert_eq!(s.raw_contents(), ids(&[0]));
    assert_eq!(s.index_contents(&m).expect("registered"), ids(&[1]));
}

#[test]
fn list_indices_snapshots_all_identities() {
    let mut s = store(4);
    let ma = IndexMethod::new(vec![FieldCondition::HasKey(b("a"))]);
    let mb = IndexMethod::new(vec![FieldCondition::KeyValue(b("b"), b("1"))]);
    assert_eq!(s.list_indices().len(), 0);
    s.register_index(ma.clone());
    s.register_index(mb.clone());
    let listed = s.list_indices();
    assert_eq!(listed, vec![ma, mb]);
}

#[test]
fn bound_one_evicts_on_every_push() {
    let mut s = store(1);
    let m = IndexMethod::new(vec![FieldCondition::HasKey(b("a"))]);
    s.register_index(m.clone());
    s.push(json(&[("a", "1")])); // id 0
    assert_eq!(s.index_contents(&m).expect("registered"), ids(&[0]));
    s.push(json(&[("a", "2")])); // id 1 evicts id 0
    assert_eq!(s.index_contents(&m).expect("registered"), ids(&[1]));
    s.push(raw("x")); // id 2 evicts id 1
    assert_eq!(s.index_contents(&m).expect("registered"), ids(&[]));
    assert_eq!(s.raw_contents(), ids(&[2]));
    assert_eq!(s.window_start(), 2);
    assert_eq!(s.window_size(), 1);
}

#[test]
fn unregistered_method_has_no_contents() {
    let s = store(4);
    let m = IndexMethod::new(vec![FieldCondition::HasKey(b("a"))]);
    assert!(s.index_contents(&m).is_none());
}

use slv::ingest::parse_entry;
use slv::proto::{Entry, FieldCondition, IndexMethod, JsonEntry, MessageId, RawEntry};
use slv::store::{Options, Store};

fn b(s: &str) -> Vec<u8> {
    s.as_bytes().to_vec()
}

#[test]
fn json_object_decodes_with_fields_sorted_by_name() {
    let e = parse_entry(b("{\"b\":\"2\",\"a\":\"1\"}\n"));
    match e {
        Entry::Json(JsonEntry(fields)) => {
            assert_eq!(fields, vec![(b("a"), b("1")), (b("b"), b("2"))]);
        }
        Entry::Raw(_) => panic!("expected a structured entry"),
    }
}

#[test]
fn duplicate_field_names_collapse() {
    let e = parse_entry(b("{\"a\":\"1\",\"a\":\"2\"}"));
    match e {
        Entry::Json(JsonEntry(fields)) => {
            assert_eq!(fields.len(), 1);
            assert_eq!(fields[0].0, b("a"));
        }
        Entry::Raw(_) => panic!("expected a structured entry"),
    }
}

#[test]
fn empty_object_is_structured_with_no_fields() {
    let e = parse_entry(b("{}"));
    match e {
        Entry::Json(JsonEntry(fields)) => assert!(fields.is_empty()),
        Entry::Raw(_) => panic!("expected a structured entry"),
    }
}

#[test]
fn undecodable_line_becomes_raw_with_crlf_stripped() {
    let e = parse_entry(b("not json\r\n"));
    match e {
        Entry::Raw(RawEntry(bytes)) => assert_eq!(bytes, b("not json")),
        Entry::Json(_) => panic!("expected an opaque entry"),
    }
}

#[test]
fn non_object_json_becomes_raw() {
    let e = parse_entry(b("[1,2,3]"));
    assert!(matches!(e, Entry::Raw(_)));
    let e = parse_entry(b("{\"a\":5}"));
    assert!(matches!(e, Entry::Raw(_)), "non-string values are not structured fields");
}

#[test]
fn end_to_end_scenario() {
    // bound = 2
    let mut s = Store::new(Options { buffer_size: 2 }).expect("positive bound");
    s.push(parse_entry(b("{\"a\":\"1\"}"))); // id 0
    s.push(parse_entry(b("{\"a\":\"2\"}"))); // id 1
    let m = IndexMethod::new(vec![FieldCondition::HasKey(b("a"))]);
    s.register_index(m.clone());
    // no backfill: the index starts empty despite ids 0 and 1 matching
    assert_eq!(s.index_contents(&m).expect("registered"), Vec::<MessageId>::new());
    s.push(parse_entry(b("{\"a\":\"3\"}"))); // id 2, evicts id 0
    assert_eq!(s.window_start(), 1);
    assert_eq!(s.index_contents(&m).expect("registered"), vec![MessageId(2)]);
    s.push(parse_entry(b("not json"))); // id 3, evicts id 1
    assert_eq!(s.window_start(), 2);
    assert_eq!(s.index_contents(&m).expect("registered"), vec![MessageId(2)]);
    assert_eq!(s.raw_contents(), vec![MessageId(3)]);
    assert_eq!(s.list_indices(), vec![m]);
}

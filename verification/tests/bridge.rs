use docbridge::client::InternalPoloDbClient;
use docbridge::codec::{bson_to_hex, hex_to_bson};
use docbridge::dispatch::{BridgeError, CallEvent, CallState, Completion, ConnStatus, observe_acquire, step};
use docbridge::model::{Document, Entry, Value};

fn field(k: &str, v: Value) -> Entry {
    Entry { key: k.as_bytes().to_vec(), value: v }
}

fn doc1(k: &str, v: Value) -> Document {
    vec![field(k, v)]
}

fn wire1(k: &str, v: Value) -> String {
    bson_to_hex(&doc1(k, v))
}

#[test]
fn round_trip_simple() {
    let d = doc1("a", Value::Int64(1));
    let w = bson_to_hex(&d);
    let d2 = hex_to_bson(&w).expect("round trip decode");
    assert_eq!(d2, doc1("a", Value::Int64(1)));
}

#[test]
fn round_trip_all_kinds() {
    let d: Document = vec![
        field("n", Value::Int64(-42)),
        field("f", Value::Double(4611686018427387904)),
        field("s", Value::Int32(-7)),
        field("w", Value::DateTime(1700000000000)),
        field("t", Value::Text(b"hello".to_vec())),
        field("b", Value::Bool(true)),
        field("z", Value::Null),
        field("i", Value::Id(vec![7u8; 12])),
        field("d", Value::Doc(vec![field("x", Value::Int64(0))])),
        field(
            "a",
            Value::Array(vec![Value::Int64(1), Value::Text(b"two".to_vec()), Value::Bool(false)]),
        ),
    ];
    let w = bson_to_hex(&d);
    let d2 = hex_to_bson(&w).expect("round trip decode");
    let w2 = bson_to_hex(&d2);
    assert_eq!(w, w2);
}

#[test]
fn decode_rejects_malformed_wire() {
    assert!(hex_to_bson("zz").is_none());
    assert!(hex_to_bson("abc").is_none());
    assert!(hex_to_bson("0badc0de").is_none());
    assert!(hex_to_bson("").is_none());
}

#[test]
fn wire_is_readable_by_the_engine_codec() {
    let d: Document = vec![field("a", Value::Int64(1)), field("t", Value::Text(b"x".to_vec()))];
    let w = bson_to_hex(&d);
    let bytes = hex::decode(&w).expect("hex layer");
    let bd = bson::Document::from_reader(bytes.as_slice()).expect("engine codec parse");
    assert_eq!(bd.get_i64("a").unwrap(), 1);
    assert_eq!(bd.get_str("t").unwrap(), "x");
}

#[test]
fn engine_codec_output_decodes() {
    let mut bd = bson::Document::new();
    bd.insert("a", 5i64);
    bd.insert("s", "hi");
    bd.insert("i", 9i32);
    bd.insert("f", 1.5f64);
    let bytes = bson::to_vec(&bd).unwrap();
    let w = hex::encode(bytes);
    let d = hex_to_bson(&w).expect("decode engine bytes");
    assert_eq!(d[0], field("a", Value::Int64(5)));
    assert_eq!(d[1], field("s", Value::Text(b"hi".to_vec())));
    assert_eq!(d[2], field("i", Value::Int32(9)));
    assert_eq!(d[3], field("f", Value::Double(1.5f64.to_bits())));
}

#[test]
fn dispatch_success_path_delivers_once() {
    let mut s = CallState::Submitted;
    let mut delivered = 0;
    for e in [CallEvent::Begin, CallEvent::DecodeOk, CallEvent::EngineOk] {
        let (s2, fire) = step(s, e);
        s = s2;
        if fire {
            delivered += 1;
        }
    }
    assert_eq!(s, CallState::Succeeded);
    assert_eq!(delivered, 1);
}

#[test]
fn dispatch_decode_failure_delivers_once_and_absorbs() {
    let mut s = CallState::Submitted;
    let mut delivered = 0;
    let run = [
        CallEvent::Begin,
        CallEvent::DecodeErr,
        CallEvent::EngineOk,
        CallEvent::LockErr,
        CallEvent::Begin,
    ];
    for e in run {
        let (s2, fire) = step(s, e);
        s = s2;
        if fire {
            delivered += 1;
        }
    }
    assert_eq!(s, CallState::DecodeFailed);
    assert_eq!(delivered, 1);
}

#[test]
fn closed_connection_stays_closed() {
    let (s1, granted1) = observe_acquire(ConnStatus::Open, true);
    assert_eq!(s1, ConnStatus::Closed);
    assert!(!granted1);
    let (s2, granted2) = observe_acquire(s1, false);
    assert_eq!(s2, ConnStatus::Closed);
    assert!(!granted2);
    let (s3, granted3) = observe_acquire(s2, true);
    assert_eq!(s3, ConnStatus::Closed);
    assert!(!granted3);
}

fn done_wire(c: Completion) -> String {
    match c {
        Completion::Done(Some(w)) => w,
        other => panic!("expected a result, got {:?}", other),
    }
}

#[test]
fn insert_one_yields_inserted_id_and_find_one_finds_it() {
    let client = InternalPoloDbClient::open_memory().unwrap();
    let col = client.collection("books".to_string());
    let env = done_wire(col.insert_one(&wire1("a", Value::Int64(1))));
    let env_doc = hex_to_bson(&env).expect("envelope decodes");
    assert_eq!(env_doc.len(), 1);
    assert_eq!(env_doc[0].key, b"inserted_id".to_vec());
    match &env_doc[0].value {
        Value::Id(bytes) => assert_eq!(bytes.len(), 12),
        other => panic!("expected an identifier, got {:?}", other),
    }
    match col.find_one(&wire1("a", Value::Int64(1))) {
        Completion::Done(Some(w)) => {
            let found = hex_to_bson(&w).expect("found doc decodes");
            assert!(found.iter().any(|e| e.key == b"a".to_vec() && e.value == Value::Int64(1)));
        },
        other => panic!("expected a found document, got {:?}", other),
    }
}

#[test]
fn find_one_missing_is_success_with_no_result() {
    let client = InternalPoloDbClient::open_memory().unwrap();
    let col = client.collection("empty".to_string());
    match col.find_one(&wire1("a", Value::Int64(1))) {
        Completion::Done(None) => {},
        other => panic!("expected an empty success, got {:?}", other),
    }
}

#[test]
fn insert_many_fails_fast_on_malformed_element() {
    let client = InternalPoloDbClient::open_memory().unwrap();
    let col = client.collection("batch".to_string());
    let docs = vec![
        wire1("n", Value::Int64(1)),
        wire1("n", Value::Int64(2)),
        "not-hex-at-all".to_string(),
        wire1("n", Value::Int64(4)),
        wire1("n", Value::Int64(5)),
    ];
    let c = col.insert_many(&docs);
    assert!(matches!(c, Completion::Failed(BridgeError::Decode)));
    // Nothing was dispatched: the collection holds no document at all.
    let cur = col.find(&bson_to_hex(&vec![])).unwrap();
    let w = done_wire(cur.to_array());
    let env = hex_to_bson(&w).unwrap();
    assert_eq!(env[0].key, b"results".to_vec());
    match &env[0].value {
        Value::Array(items) => assert_eq!(items.len(), 0),
        other => panic!("expected an array, got {:?}", other),
    }
}

#[test]
fn insert_many_returns_one_id_per_document() {
    let client = InternalPoloDbClient::open_memory().unwrap();
    let col = client.collection("batch2".to_string());
    let docs = vec![
        wire1("n", Value::Int64(1)),
        wire1("n", Value::Int64(2)),
        wire1("n", Value::Int64(3)),
    ];
    let w = done_wire(col.insert_many(&docs));
    let env = hex_to_bson(&w).unwrap();
    assert_eq!(env[0].key, b"inserted_ids".to_vec());
    match &env[0].value {
        Value::Array(items) => assert_eq!(items.len(), 3),
        other => panic!("expected an array, got {:?}", other),
    }
}

#[test]
fn distinct_identifiers_for_each_insert() {
    let client = InternalPoloDbClient::open_memory().unwrap();
    let col = client.collection("many".to_string());
    let mut ids = Vec::new();
    for i in 0..5i64 {
        let w = done_wire(col.insert_one(&wire1("n", Value::Int64(i))));
        let env = hex_to_bson(&w).unwrap();
        ids.push(format!("{:?}", env[0].value));
    }
    for i in 0..ids.len() {
        for j in 0..i {
            assert_ne!(ids[i], ids[j]);
        }
    }
    let cur = col.find(&bson_to_hex(&vec![])).unwrap();
    let w = done_wire(cur.to_array());
    let env = hex_to_bson(&w).unwrap();
    match &env[0].value {
        Value::Array(items) => assert_eq!(items.len(), 5),
        other => panic!("expected an array, got {:?}", other),
    }
}

#[test]
fn update_and_delete_envelopes() {
    let client = InternalPoloDbClient::open_memory().unwrap();
    let col = client.collection("upd".to_string());
    done_wire(col.insert_one(&wire1("a", Value::Int64(1))));
    let set = vec![field("$set", Value::Doc(vec![field("b", Value::Int64(9))]))];
    let w = done_wire(col.update_one(&wire1("a", Value::Int64(1)), &bson_to_hex(&set)));
    let env = hex_to_bson(&w).unwrap();
    assert_eq!(env[0].key, b"matched_count".to_vec());
    assert_eq!(env[0].value, Value::Int64(1));
    assert_eq!(env[1].key, b"modified_count".to_vec());
    assert_eq!(env[1].value, Value::Int64(1));
    let w = done_wire(col.delete_many(&bson_to_hex(&vec![])));
    let env = hex_to_bson(&w).unwrap();
    assert_eq!(env[0].key, b"deleted_count".to_vec());
    assert_eq!(env[0].value, Value::Int64(1));
}

#[test]
fn malformed_filter_fails_before_dispatch() {
    let client = InternalPoloDbClient::open_memory().unwrap();
    let col = client.collection("bad".to_string());
    assert!(matches!(col.find_one("xx!"), Completion::Failed(BridgeError::Decode)));
    assert!(matches!(col.delete_one("xx!"), Completion::Failed(BridgeError::Decode)));
    assert!(matches!(
        col.update_many(&wire1("a", Value::Int64(1)), "oops"),
        Completion::Failed(BridgeError::Decode)
    ));
    assert!(col.find("oops").is_err());
}

#[test]
fn cursor_composition_returns_ranked_window() {
    let client = InternalPoloDbClient::open_memory().unwrap();
    let col = client.collection("ranked".to_string());
    // Insert ten documents with field values 0..9, deliberately out of order.
    for v in [5i64, 0, 9, 3, 7, 1, 8, 2, 6, 4] {
        done_wire(col.insert_one(&wire1("field", Value::Int64(v))));
    }
    let mut cur = col.find(&bson_to_hex(&vec![])).unwrap().skip(2).limit(3);
    cur.sort(&wire1("field", Value::Int64(1))).unwrap();
    let w = done_wire(cur.to_array());
    let env = hex_to_bson(&w).unwrap();
    assert_eq!(env[0].key, b"results".to_vec());
    let ranked: Vec<i64> = match &env[0].value {
        Value::Array(items) => items
            .iter()
            .map(|it| match it {
                Value::Doc(es) => es
                    .iter()
                    .find(|e| e.key == b"field".to_vec())
                    .map(|e| match &e.value {
                        Value::Int64(v) => *v,
                        _ => panic!("field is not an integer"),
                    })
                    .expect("field present"),
                _ => panic!("result is not a document"),
            })
            .collect(),
        other => panic!("expected an array, got {:?}", other),
    };
    assert_eq!(ranked, vec![2, 3, 4]);
}

#[test]
fn cursor_sort_descending() {
    let client = InternalPoloDbClient::open_memory().unwrap();
    let col = client.collection("desc".to_string());
    for v in [3i64, 1, 4, 2] {
        done_wire(col.insert_one(&wire1("field", Value::Int64(v))));
    }
    let mut cur = col.find(&bson_to_hex(&vec![])).unwrap();
    cur.sort(&wire1("field", Value::Int64(-1))).unwrap();
    let w = done_wire(cur.to_array());
    let env = hex_to_bson(&w).unwrap();
    let got: Vec<i64> = match &env[0].value {
        Value::Array(items) => items
            .iter()
            .map(|it| match it {
                Value::Doc(es) => es
                    .iter()
                    .find(|e| e.key == b"field".to_vec())
                    .map(|e| match &e.value {
                        Value::Int64(v) => *v,
                        _ => panic!("field is not an integer"),
                    })
                    .expect("field present"),
                _ => panic!("result is not a document"),
            })
            .collect(),
        other => panic!("expected an array, got {:?}", other),
    };
    assert_eq!(got, vec![4, 3, 2, 1]);
}

#[test]
fn malformed_sort_leaves_builder_usable() {
    let client = InternalPoloDbClient::open_memory().unwrap();
    let col = client.collection("sortkeep".to_string());
    done_wire(col.insert_one(&wire1("field", Value::Int64(1))));
    let mut cur = col.find(&bson_to_hex(&vec![])).unwrap();
    assert!(matches!(cur.sort("oops"), Err(BridgeError::Decode)));
    let w = done_wire(cur.to_array());
    let env = hex_to_bson(&w).unwrap();
    match &env[0].value {
        Value::Array(items) => assert_eq!(items.len(), 1),
        other => panic!("expected an array, got {:?}", other),
    }
}

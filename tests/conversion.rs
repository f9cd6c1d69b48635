use csv_json::convert::{transform, ConversionError};
use csv_json::csv_source::csv_to_json;
use csv_json::json::{to_json, write_json};
use csv_json::object::Object;
use csv_json::record::{RecordFault, RecordList, RecordRead};

fn pairs(obj: &Object) -> Vec<(String, String)> {
    obj.entries().clone()
}

fn row(cells: &[&str]) -> RecordRead {
    Ok(cells.iter().map(|c| c.to_string()).collect())
}

const PEOPLE: &[u8] = b"name,age\nAlice,30\nBob,25\n";

#[test]
fn two_records_no_window() {
    let objs = csv_to_json(PEOPLE, None, None).unwrap();
    assert_eq!(objs.len(), 2);
    let json = to_json(&objs, false).unwrap();
    assert_eq!(json, r#"[{"name":"Alice","age":"30"},{"name":"Bob","age":"25"}]"#);
}

#[test]
fn offset_one_limit_one() {
    let objs = csv_to_json(PEOPLE, Some(1), Some(1)).unwrap();
    let json = to_json(&objs, false).unwrap();
    assert_eq!(json, r#"[{"name":"Bob","age":"25"}]"#);
}

#[test]
fn shape_mismatch_is_record_error() {
    let r = csv_to_json(b"name,age\nAlice,30,extra\n", None, None);
    assert_eq!(
        r.err(),
        Some(ConversionError::Record(0, RecordFault::UnequalLengths { expected_len: 2, len: 3 }))
    );
}

#[test]
fn empty_input_is_header_error() {
    let r = csv_to_json(b"", None, None);
    assert_eq!(r.err(), Some(ConversionError::Header));
}

#[test]
fn compact_json_round_trip() {
    let data = b"a,b,c\n,  x ,y\nz, ,\"q,r\"\n";
    let objs = csv_to_json(data, None, None).unwrap();
    let json = to_json(&objs, false).unwrap();
    let parsed: Vec<serde_json::Map<String, serde_json::Value>> =
        serde_json::from_str(&json).unwrap();
    assert_eq!(parsed.len(), objs.len());
    for (p, o) in parsed.iter().zip(objs.iter()) {
        let back: Vec<(String, String)> = p
            .iter()
            .map(|(k, v)| (k.clone(), v.as_str().unwrap().to_string()))
            .collect();
        assert_eq!(back, pairs(o));
    }
    assert_eq!(pairs(&objs[0])[0], ("a".to_string(), "".to_string()));
    assert_eq!(pairs(&objs[0])[1], ("b".to_string(), "  x ".to_string()));
    assert_eq!(pairs(&objs[1])[2], ("c".to_string(), "q,r".to_string()));
}

#[test]
fn pretty_json_parses_to_same_objects() {
    let objs = csv_to_json(PEOPLE, None, None).unwrap();
    let pretty = to_json(&objs, true).unwrap();
    let compact = to_json(&objs, false).unwrap();
    assert!(pretty.contains('\n'));
    let a: serde_json::Value = serde_json::from_str(&pretty).unwrap();
    let b: serde_json::Value = serde_json::from_str(&compact).unwrap();
    assert_eq!(a, b);
}

#[test]
fn full_conversion_keys_equal_header() {
    let data = b"x,y,z\n1,2,3\n4,5,6\n7,8,9\n";
    let objs = csv_to_json(data, None, None).unwrap();
    assert_eq!(objs.len(), 3);
    for o in &objs {
        let keys: Vec<String> = pairs(o).into_iter().map(|(k, _)| k).collect();
        assert_eq!(keys, vec!["x", "y", "z"]);
    }
    assert_eq!(pairs(&objs[2])[1], ("y".to_string(), "8".to_string()));
}

#[test]
fn offset_past_end_is_empty() {
    assert_eq!(csv_to_json(PEOPLE, None, Some(2)).unwrap().len(), 0);
    assert_eq!(csv_to_json(PEOPLE, Some(5), Some(7)).unwrap().len(), 0);
    assert_eq!(csv_to_json(PEOPLE, None, Some(usize::MAX)).unwrap().len(), 0);
}

#[test]
fn zero_limit_is_empty_but_header_must_read() {
    assert_eq!(csv_to_json(PEOPLE, Some(0), None).unwrap().len(), 0);
    assert_eq!(csv_to_json(PEOPLE, Some(0), Some(1)).unwrap().len(), 0);
    assert_eq!(csv_to_json(b"", Some(0), Some(3)).err(), Some(ConversionError::Header));
}

#[test]
fn adjacent_windows_compose() {
    let data = b"k\n0\n1\n2\n3\n4\n5\n";
    let first = to_json(&csv_to_json(data, Some(2), Some(1)).unwrap(), false).unwrap();
    let second = to_json(&csv_to_json(data, Some(3), Some(3)).unwrap(), false).unwrap();
    let whole = to_json(&csv_to_json(data, Some(5), Some(1)).unwrap(), false).unwrap();
    assert_eq!(first, r#"[{"k":"1"},{"k":"2"}]"#);
    assert_eq!(second, r#"[{"k":"3"},{"k":"4"},{"k":"5"}]"#);
    assert_eq!(whole, r#"[{"k":"1"},{"k":"2"},{"k":"3"},{"k":"4"},{"k":"5"}]"#);
}

#[test]
fn skipped_malformed_record_is_not_inspected() {
    let data = b"name,age\nAlice,30,extra\nBob,25\n";
    let objs = csv_to_json(data, None, Some(1)).unwrap();
    assert_eq!(to_json(&objs, false).unwrap(), r#"[{"name":"Bob","age":"25"}]"#);
}

#[test]
fn error_index_counts_after_offset() {
    let data = b"a,b\n1,2\n3,4\n5\n";
    let r = csv_to_json(data, None, Some(1));
    assert_eq!(
        r.err(),
        Some(ConversionError::Record(1, RecordFault::UnequalLengths { expected_len: 2, len: 1 }))
    );
}

#[test]
fn limit_stops_before_malformed_record() {
    let data = b"a,b\n1,2\n3\n";
    assert_eq!(csv_to_json(data, Some(1), None).unwrap().len(), 1);
}

#[test]
fn invalid_utf8_record_is_utf8_fault() {
    let data = b"a\n\xff\n";
    assert_eq!(
        csv_to_json(data, None, None).err(),
        Some(ConversionError::Record(0, RecordFault::Utf8))
    );
}

#[test]
fn invalid_utf8_header_is_header_error() {
    let data = b"\xfe,b\n1,2\n";
    assert_eq!(csv_to_json(data, None, None).err(), Some(ConversionError::Header));
}

#[test]
fn duplicate_header_last_value_wins() {
    let data = b"k,v,k\n1,2,3\n";
    let objs = csv_to_json(data, None, None).unwrap();
    assert_eq!(
        pairs(&objs[0]),
        vec![("k".to_string(), "3".to_string()), ("v".to_string(), "2".to_string())]
    );
    assert_eq!(to_json(&objs, false).unwrap(), r#"[{"k":"3","v":"2"}]"#);
}

#[test]
fn header_only_gives_empty_array() {
    let objs = csv_to_json(b"a,b\n", None, None).unwrap();
    assert_eq!(to_json(&objs, false).unwrap(), "[]");
}

#[test]
fn list_source_failed_header() {
    let mut src = RecordList::new(vec![Err(RecordFault::Io), row(&["1"])]);
    assert_eq!(transform(&mut src, None, None).err(), Some(ConversionError::Header));
    let mut empty = RecordList::new(vec![]);
    assert_eq!(transform(&mut empty, Some(0), None).err(), Some(ConversionError::Header));
}

#[test]
fn list_source_propagates_fault_and_stops() {
    let mut src = RecordList::new(vec![
        row(&["a"]),
        row(&["1"]),
        Err(RecordFault::Other),
        row(&["2"]),
    ]);
    assert_eq!(
        transform(&mut src, None, None).err(),
        Some(ConversionError::Record(1, RecordFault::Other))
    );
}

#[test]
fn list_source_rejects_wrong_shape() {
    let mut src = RecordList::new(vec![row(&["a", "b"]), row(&["1", "2"]), row(&["3"])]);
    assert_eq!(
        transform(&mut src, None, None).err(),
        Some(ConversionError::Record(1, RecordFault::UnequalLengths { expected_len: 2, len: 1 }))
    );
}

#[test]
fn list_source_window() {
    let mut src = RecordList::new(vec![
        row(&["n"]),
        row(&["0"]),
        Err(RecordFault::Utf8),
        row(&["2"]),
        row(&["3"]),
        Err(RecordFault::Io),
    ]);
    let objs = transform(&mut src, Some(2), Some(2)).unwrap();
    assert_eq!(objs.len(), 2);
    assert_eq!(pairs(&objs[0]), vec![("n".to_string(), "2".to_string())]);
    assert_eq!(pairs(&objs[1]), vec![("n".to_string(), "3".to_string())]);
}

#[test]
fn write_json_appends_bytes() {
    let mut out: Vec<u8> = b"x".to_vec();
    write_json(&mut out, "[{\"é\":\"1\"}]".to_string());
    assert_eq!(out, "x[{\"é\":\"1\"}]".as_bytes().to_vec());
}

#[test]
fn object_put_replaces_in_place() {
    let mut o = Object::new();
    o.put("a".to_string(), "1".to_string());
    o.put("b".to_string(), "2".to_string());
    o.put("a".to_string(), "3".to_string());
    assert_eq!(
        pairs(&o),
        vec![("a".to_string(), "3".to_string()), ("b".to_string(), "2".to_string())]
    );
}

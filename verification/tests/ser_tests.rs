use logpart::record::{Field, Record};
use logpart::ser::serialize_record;

fn obj(entries: Vec<(&str, Field)>) -> Record {
    Record::Obj(entries.into_iter().map(|(k, v)| (k.as_bytes().to_vec(), v)).collect())
}

fn text(s: &str) -> Field {
    Field::Text(s.as_bytes().to_vec())
}

#[test]
fn plain_object() {
    let rec = obj(vec![("a", text("b")), ("n", Field::Raw(b"5".to_vec()))]);
    assert_eq!(serialize_record(&rec), b"{\"a\":\"b\",\"n\":5}".to_vec());
}

#[test]
fn empty_object() {
    let rec = obj(vec![]);
    assert_eq!(serialize_record(&rec), b"{}".to_vec());
}

#[test]
fn strings_are_escaped_as_serde_json_writes_them() {
    let rec = obj(vec![("k", Field::Text(b"q\"b\\n\nt\tr\rc\x01".to_vec()))]);
    let expect = b"{\"k\":\"q\\\"b\\\\n\\nt\\tr\\rc\\u0001\"}".to_vec();
    assert_eq!(serialize_record(&rec), expect.clone());
    // serde_json parses it back to the same content and writes the same bytes
    let v: serde_json::Value = serde_json::from_slice(&expect).unwrap();
    assert_eq!(v["k"].as_str().unwrap().as_bytes(), b"q\"b\\n\nt\tr\rc\x01");
    assert_eq!(serde_json::to_string(&v).unwrap().into_bytes(), expect);
}

#[test]
fn non_object_documents_keep_their_text() {
    assert_eq!(serialize_record(&Record::Other(b"[1,2]".to_vec())), b"[1,2]".to_vec());
    assert_eq!(serialize_record(&Record::Other(b"5".to_vec())), b"5".to_vec());
}

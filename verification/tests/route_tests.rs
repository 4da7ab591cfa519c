use logpart::record::{Field, Record};
use logpart::route::{route, Partition};

fn obj(entries: Vec<(&str, Field)>) -> Record {
    Record::Obj(entries.into_iter().map(|(k, v)| (k.as_bytes().to_vec(), v)).collect())
}

fn text(s: &str) -> Field {
    Field::Text(s.as_bytes().to_vec())
}

#[test]
fn exact_cim_string_routes_to_cim() {
    let rec = obj(vec![("cimcompliance", text("cim"))]);
    assert_eq!(route(&rec), Partition::Cim);
}

#[test]
fn upper_case_routes_to_non_cim() {
    let rec = obj(vec![("cimcompliance", text("CIM"))]);
    assert_eq!(route(&rec), Partition::NonCim);
}

#[test]
fn non_string_value_routes_to_non_cim() {
    let rec = obj(vec![("cimcompliance", Field::Raw(b"true".to_vec()))]);
    assert_eq!(route(&rec), Partition::NonCim);
}

#[test]
fn other_string_routes_to_non_cim() {
    let rec = obj(vec![("cimcompliance", text("other"))]);
    assert_eq!(route(&rec), Partition::NonCim);
}

#[test]
fn absent_field_routes_to_non_cim() {
    let rec = obj(vec![("raw", text("1,x"))]);
    assert_eq!(route(&rec), Partition::NonCim);
}

#[test]
fn non_object_document_routes_to_non_cim() {
    let rec = Record::Other(b"[1,2]".to_vec());
    assert_eq!(route(&rec), Partition::NonCim);
}

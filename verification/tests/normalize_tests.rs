use logpart::clock::{MAX_EPOCH_SECS, MIN_EPOCH_SECS};
use logpart::normalize::{normalize_timestamp, raw_key_bytes, timestamp_key_bytes};
use logpart::record::{get_field, Field, Record};

fn obj(entries: Vec<(&str, Field)>) -> Record {
    Record::Obj(entries.into_iter().map(|(k, v)| (k.as_bytes().to_vec(), v)).collect())
}

fn text(s: &str) -> Field {
    Field::Text(s.as_bytes().to_vec())
}

fn timestamp_of(rec: &Record) -> Option<Field> {
    get_field(rec, &timestamp_key_bytes()).cloned()
}

#[test]
fn epoch_seconds_become_millis() {
    let mut rec = obj(vec![("raw", text("1700000000,anything"))]);
    normalize_timestamp(&mut rec);
    assert_eq!(timestamp_of(&rec), Some(Field::Raw(b"1700000000000".to_vec())));
    // the raw field itself is untouched
    assert_eq!(
        get_field(&rec, &raw_key_bytes()).cloned(),
        Some(text("1700000000,anything"))
    );
}

#[test]
fn negative_epoch_seconds() {
    let mut rec = obj(vec![("raw", text("-1,x"))]);
    normalize_timestamp(&mut rec);
    assert_eq!(timestamp_of(&rec), Some(Field::Raw(b"-1000".to_vec())));
}

#[test]
fn plus_signed_epoch_seconds() {
    let mut rec = obj(vec![("raw", text("+7,x"))]);
    normalize_timestamp(&mut rec);
    assert_eq!(timestamp_of(&rec), Some(Field::Raw(b"7000".to_vec())));
}

#[test]
fn existing_timestamp_is_overwritten() {
    let mut rec = obj(vec![
        ("raw", text("2,x")),
        ("timestamp", Field::Raw(b"999".to_vec())),
    ]);
    normalize_timestamp(&mut rec);
    assert_eq!(timestamp_of(&rec), Some(Field::Raw(b"2000".to_vec())));
}

#[test]
fn raw_without_comma_leaves_record_unchanged() {
    let orig = obj(vec![("raw", text("1700000000"))]);
    let mut rec = orig.clone();
    normalize_timestamp(&mut rec);
    assert_eq!(rec, orig);
}

#[test]
fn raw_with_bad_integer_leaves_record_unchanged() {
    let orig = obj(vec![("raw", text("abc,x"))]);
    let mut rec = orig.clone();
    normalize_timestamp(&mut rec);
    assert_eq!(rec, orig);
}

#[test]
fn raw_absent_leaves_record_unchanged() {
    let orig = obj(vec![("other", text("1,2"))]);
    let mut rec = orig.clone();
    normalize_timestamp(&mut rec);
    assert_eq!(rec, orig);
}

#[test]
fn raw_not_a_string_leaves_record_unchanged() {
    let orig = obj(vec![("raw", Field::Raw(b"5".to_vec()))]);
    let mut rec = orig.clone();
    normalize_timestamp(&mut rec);
    assert_eq!(rec, orig);
}

#[test]
fn non_object_record_is_unchanged() {
    let orig = Record::Other(b"5".to_vec());
    let mut rec = orig.clone();
    normalize_timestamp(&mut rec);
    assert_eq!(rec, orig);
}

#[test]
fn out_of_range_seconds_leave_record_unchanged_but_kept() {
    for s in vec![MAX_EPOCH_SECS as i128 + 1, MIN_EPOCH_SECS as i128 - 1, i64::MAX as i128] {
        let orig = obj(vec![("raw", text(&format!("{},x", s)))]);
        let mut rec = orig.clone();
        normalize_timestamp(&mut rec);
        assert_eq!(rec, orig);
    }
}

#[test]
fn zero_epoch_seconds() {
    let mut rec = obj(vec![("raw", text("0,"))]);
    normalize_timestamp(&mut rec);
    assert_eq!(timestamp_of(&rec), Some(Field::Raw(b"0".to_vec())));
}

#[test]
fn boundary_seconds_are_exact() {
    let mut rec = obj(vec![("raw", text(&format!("{},x", MAX_EPOCH_SECS)))]);
    normalize_timestamp(&mut rec);
    let expect = format!("{}", MAX_EPOCH_SECS as i128 * 1000);
    assert_eq!(timestamp_of(&rec), Some(Field::Raw(expect.into_bytes())));

    let mut rec = obj(vec![("raw", text(&format!("{},x", MIN_EPOCH_SECS)))]);
    normalize_timestamp(&mut rec);
    let expect = format!("{}", MIN_EPOCH_SECS as i128 * 1000);
    assert_eq!(timestamp_of(&rec), Some(Field::Raw(expect.into_bytes())));
}


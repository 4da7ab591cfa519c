use logpart::naming::{dest_path_bytes, filter_eligible, is_eligible, output_name};
use logpart::route::Partition;

fn bytes(s: &str) -> Vec<u8> {
    s.as_bytes().to_vec()
}

#[test]
fn gz_suffix_is_replaced() {
    assert_eq!(output_name(&bytes("a.gz")), bytes("a_processed.gz"));
}

#[test]
fn every_occurrence_is_replaced() {
    assert_eq!(output_name(&bytes("a.gz.gz")), bytes("a_processed.gz_processed.gz"));
    assert_eq!(output_name(&bytes("x.gzy.gz")), bytes("x_processed.gzy_processed.gz"));
}

#[test]
fn other_names_pass_through() {
    assert_eq!(output_name(&bytes("c.txt")), bytes("c.txt"));
    assert_eq!(output_name(&bytes("")), bytes(""));
}

#[test]
fn dest_paths() {
    assert_eq!(
        dest_path_bytes(Partition::Cim, &bytes("a.gz")),
        bytes("cim/a_processed.gz")
    );
    assert_eq!(
        dest_path_bytes(Partition::NonCim, &bytes("a.gz")),
        bytes("non_cim/a_processed.gz")
    );
}

#[test]
fn eligibility() {
    assert!(is_eligible(&bytes("a.gz")));
    assert!(is_eligible(&bytes("x.tar.gz")));
    assert!(is_eligible(&bytes(".gz")));
    assert!(!is_eligible(&bytes("gz")));
    assert!(!is_eligible(&bytes("c.txt")));
    assert!(!is_eligible(&bytes("a.gz.bak")));
}

#[test]
fn discovery_keeps_exactly_the_gz_files() {
    let names = vec![bytes("a.gz"), bytes("b.gz"), bytes("c.txt")];
    let kept = filter_eligible(&names);
    assert_eq!(kept, vec![bytes("a.gz"), bytes("b.gz")]);
    assert_eq!(kept.len(), 2);
}

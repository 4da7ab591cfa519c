use std::io::{Read, Write};

use logpart::pipeline::{process_file_bytes, PipelineError};

fn gzip(data: &[u8]) -> Vec<u8> {
    let mut enc = flate2::write::GzEncoder::new(Vec::new(), flate2::Compression::default());
    enc.write_all(data).unwrap();
    enc.finish().unwrap()
}

fn gunzip(data: &[u8]) -> Vec<u8> {
    let mut dec = flate2::read::GzDecoder::new(data);
    let mut out = Vec::new();
    dec.read_to_end(&mut out).unwrap();
    out
}

fn run(name: &str, text: &[u8]) -> Vec<(String, Vec<u8>)> {
    let outs = process_file_bytes(&name.as_bytes().to_vec(), &gzip(text)).unwrap();
    outs.into_iter().map(|(p, b)| (String::from_utf8(p).unwrap(), gunzip(&b))).collect()
}

#[test]
fn end_to_end_two_partitions() {
    let text = b"{\"raw\":\"1700000000,x\",\"cimcompliance\":\"cim\"}\n{\"raw\":\"bad\",\"cimcompliance\":\"other\"}\n";
    let outs = run("a.gz", text);
    assert_eq!(outs.len(), 2);

    let cim = &outs.iter().find(|(p, _)| p == "cim/a_processed.gz").unwrap().1;
    let cim_lines: Vec<&[u8]> = cim.split(|b| *b == 10).filter(|l| !l.is_empty()).collect();
    assert_eq!(cim_lines.len(), 1);
    let v: serde_json::Value = serde_json::from_slice(cim_lines[0]).unwrap();
    assert_eq!(v["timestamp"].as_i64(), Some(1700000000000));
    assert_eq!(v["raw"].as_str(), Some("1700000000,x"));
    assert_eq!(v["cimcompliance"].as_str(), Some("cim"));

    let non = &outs.iter().find(|(p, _)| p == "non_cim/a_processed.gz").unwrap().1;
    let non_lines: Vec<&[u8]> = non.split(|b| *b == 10).filter(|l| !l.is_empty()).collect();
    assert_eq!(non_lines.len(), 1);
    let v: serde_json::Value = serde_json::from_slice(non_lines[0]).unwrap();
    assert_eq!(v["raw"].as_str(), Some("bad"));
    assert!(v.get("timestamp").is_none());
}

#[test]
fn output_bytes_are_exact() {
    let text = b"{\"cimcompliance\":\"cim\",\"raw\":\"1,x\"}\n";
    let outs = run("a.gz", text);
    assert_eq!(outs.len(), 1);
    assert_eq!(outs[0].0, "cim/a_processed.gz");
    assert_eq!(
        outs[0].1,
        b"{\"cimcompliance\":\"cim\",\"raw\":\"1,x\",\"timestamp\":1000}\n".to_vec()
    );
}

#[test]
fn undecodable_lines_never_reach_any_output() {
    // three lines, one of them invalid JSON and one invalid UTF-8
    let mut text = b"{\"a\":1}\nnot json\n".to_vec();
    text.extend_from_slice(&[0xff, 0xfe, 0x0a]);
    text.extend_from_slice(b"{\"cimcompliance\":\"cim\"}\n");
    let outs = run("f.gz", &text);
    let total: usize = outs
        .iter()
        .map(|(_, c)| c.split(|b| *b == 10).filter(|l| !l.is_empty()).count())
        .sum();
    assert_eq!(total, 2);
}

#[test]
fn records_of_one_partition_keep_input_order() {
    let text = b"{\"n\":1}\n{\"n\":2}\n{\"cimcompliance\":\"cim\"}\n{\"n\":3}\n";
    let outs = run("o.gz", text);
    let non = &outs.iter().find(|(p, _)| p == "non_cim/o_processed.gz").unwrap().1;
    assert_eq!(non, &b"{\"n\":1}\n{\"n\":2}\n{\"n\":3}\n".to_vec());
    let cim = &outs.iter().find(|(p, _)| p == "cim/o_processed.gz").unwrap().1;
    assert_eq!(cim, &b"{\"cimcompliance\":\"cim\"}\n".to_vec());
}

#[test]
fn non_object_documents_pass_through_to_non_cim() {
    let text = b"5\n[1,2]\n\"s\"\n";
    let outs = run("n.gz", text);
    assert_eq!(outs.len(), 1);
    assert_eq!(outs[0].0, "non_cim/n_processed.gz");
    assert_eq!(outs[0].1, b"5\n[1,2]\n\"s\"\n".to_vec());
}

#[test]
fn two_runs_give_identical_outputs() {
    let name = b"a.gz".to_vec();
    let data = gzip(b"{\"raw\":\"9,z\"}\n{\"cimcompliance\":\"cim\"}\n");
    let first = process_file_bytes(&name, &data).unwrap();
    let second = process_file_bytes(&name, &data).unwrap();
    assert_eq!(first, second);
}

#[test]
fn bad_gzip_aborts_the_file() {
    let r = process_file_bytes(&b"a.gz".to_vec(), &b"plainly not gzip".to_vec());
    assert_eq!(r, Err(PipelineError::InvalidGzip));
}

#[test]
fn empty_input_opens_no_outputs() {
    let outs = run("e.gz", b"");
    assert_eq!(outs.len(), 0);
}

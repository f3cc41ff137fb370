use parquet_to_jsonl::jsonl::{record_line, shard_payload};
use parquet_to_jsonl::record::{Field, Record};

fn rec(pairs: &[(&[u8], &[u8])]) -> Record {
    let mut fields = Vec::new();
    for (n, v) in pairs {
        fields.push(Field { name: n.to_vec(), value: v.to_vec() });
    }
    Record { fields }
}

#[test]
fn line_two_fields() {
    let r = rec(&[(b"text", b"a"), (b"id", b"1")]);
    assert_eq!(record_line(&r), b"{\"text\":\"a\",\"id\":\"1\"}".to_vec());
}

#[test]
fn line_no_fields() {
    let r = rec(&[]);
    assert_eq!(record_line(&r), b"{}".to_vec());
}

#[test]
fn line_escapes_quote_and_backslash() {
    let r = rec(&[(b"text", b"say \"hi\" \\ bye")]);
    assert_eq!(
        record_line(&r),
        b"{\"text\":\"say \\\"hi\\\" \\\\ bye\"}".to_vec()
    );
}

#[test]
fn line_escapes_controls() {
    let r = rec(&[(b"text", b"a\nb\tc\rd")]);
    assert_eq!(record_line(&r), b"{\"text\":\"a\\nb\\tc\\rd\"}".to_vec());
}

#[test]
fn line_escapes_rare_control_as_hex() {
    let r = rec(&[(b"text", &[0x01u8, 0x1f])]);
    assert_eq!(record_line(&r), b"{\"text\":\"\\u0001\\u001f\"}".to_vec());
}

#[test]
fn line_keeps_utf8_bytes() {
    let s = "héllo".as_bytes();
    let r = rec(&[(b"text", s)]);
    let line = record_line(&r);
    let parsed: serde_json::Value = serde_json::from_slice(&line).unwrap();
    assert_eq!(parsed.get("text").unwrap().as_str().unwrap(), "héllo");
}

#[test]
fn line_parses_as_json() {
    let r = rec(&[(b"text", b"a \"quoted\"\nvalue"), (b"id", b"x\\y")]);
    let line = record_line(&r);
    let parsed: serde_json::Value = serde_json::from_slice(&line).unwrap();
    assert_eq!(
        parsed.get("text").unwrap().as_str().unwrap(),
        "a \"quoted\"\nvalue"
    );
    assert_eq!(parsed.get("id").unwrap().as_str().unwrap(), "x\\y");
}

#[test]
fn payload_joins_with_single_newlines() {
    let records = vec![
        rec(&[(b"id", b"1")]),
        rec(&[(b"id", b"2")]),
        rec(&[(b"id", b"3")]),
    ];
    assert_eq!(
        shard_payload(&records),
        b"{\"id\":\"1\"}\n{\"id\":\"2\"}\n{\"id\":\"3\"}".to_vec()
    );
}

#[test]
fn payload_of_nothing_is_empty() {
    let records: Vec<Record> = Vec::new();
    assert_eq!(shard_payload(&records), Vec::<u8>::new());
}

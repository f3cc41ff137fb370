use parquet_to_jsonl::paths::{
    extension_of, file_part, has_json_extension, output_path, parquet_glob_pattern,
};

#[test]
fn json_extension_plain() {
    assert!(has_json_extension("data/file.json"));
}

#[test]
fn json_extension_absent() {
    assert!(!has_json_extension("data/file.parquet"));
    assert!(!has_json_extension("data/file"));
    assert!(!has_json_extension("data/file.jsonl"));
}

#[test]
fn json_extension_hidden_file() {
    // A leading-dot file name has no extension.
    assert!(!has_json_extension("data/.json"));
}

#[test]
fn json_extension_compressed_variants() {
    // The extension is the part after the last dot, so `x.json.gz` has
    // extension `gz`, not `json.gz`.
    assert!(!has_json_extension("x.json.gz"));
    assert!(has_json_extension("x.tar.json"));
}

#[test]
fn extension_of_cases() {
    assert_eq!(extension_of(&b"a/b/c.txt".to_vec()), Some(b"txt".to_vec()));
    assert_eq!(extension_of(&b"a/b/c".to_vec()), None);
    assert_eq!(extension_of(&b"a.dir/c".to_vec()), None);
    assert_eq!(extension_of(&b"a/.hidden".to_vec()), None);
    assert_eq!(extension_of(&b"a/x.jsonl.zst".to_vec()), Some(b"zst".to_vec()));
    assert_eq!(extension_of(&b"trailingdot.".to_vec()), Some(b"".to_vec()));
}

#[test]
fn file_part_cases() {
    assert_eq!(file_part(&b"a/b/c.txt".to_vec()), b"c.txt".to_vec());
    assert_eq!(file_part(&b"plain".to_vec()), b"plain".to_vec());
}

#[test]
fn output_path_zero_padded() {
    let p = output_path(&b"/tmp/o".to_vec(), &b"out_".to_vec(), 0);
    assert_eq!(p, b"/tmp/o/out_00000000.jsonl.gz".to_vec());
    let p = output_path(&b"/tmp/o".to_vec(), &b"out_".to_vec(), 1234);
    assert_eq!(p, b"/tmp/o/out_00001234.jsonl.gz".to_vec());
}

#[test]
fn output_path_wide_id() {
    // Ids that do not fit in 8 digits keep all their digits.
    let p = output_path(&b"d".to_vec(), &b"s_".to_vec(), 123456789);
    assert_eq!(p, b"d/s_123456789.jsonl.gz".to_vec());
}

#[test]
fn glob_pattern_shape() {
    let p = parquet_glob_pattern(&b"/data/in".to_vec());
    assert_eq!(p, b"/data/in/**/*.parquet".to_vec());
}

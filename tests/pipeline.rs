use bzlq::query::decode_query_result;
use bzlq::targets::Discriminator;
use bzlq::wire::{read_fields, read_varint, FieldValue};
use bzlq::rule::TargetDetail;
use bzlq::targets::TargetDetails;
use bzlq::codec::{decode_target_details, encode_target_details};
use bzlq::query::build_target_details;
use bzlq::targets::{external_dependency_names, filter_targets, target_json_line};
use bzlq::cache::{query_step, CacheStep, UpdateQueryOptions};

pub fn varint(out: &mut Vec<u8>, mut v: u64) {
    while v >= 128 {
        out.push((v % 128 + 128) as u8);
        v /= 128;
    }
    out.push(v as u8);
}

pub fn bytes_field(out: &mut Vec<u8>, num: u64, b: &[u8]) {
    varint(out, num * 8 + 2);
    varint(out, b.len() as u64);
    out.extend_from_slice(b);
}

pub fn varint_field(out: &mut Vec<u8>, num: u64, v: u64) {
    varint(out, num * 8);
    varint(out, v);
}

#[test]
fn varints_are_read_back() {
    for v in [0u64, 1, 127, 128, 300, 16384, u32::MAX as u64, u64::MAX] {
        let mut out = vec![0x55];
        varint(&mut out, v);
        assert_eq!(read_varint(&out, 1), Some((v, out.len())));
    }
}

#[test]
fn targets_dataset_bytes_are_exact() {
    let d = TargetDetail {
        label: "a".to_string(),
        description: "r".to_string(),
        is_executable: true,
        is_test: false,
    };
    let bytes = encode_target_details(&TargetDetails { target_detail: vec![d] });
    assert_eq!(
        bytes,
        vec![0x0A, 0x0A, 0x0A, 0x01, b'a', 0x12, 0x01, b'r', 0x18, 0x01, 0x20, 0x00]
    );
}

#[test]
fn long_label_length_takes_two_varint_bytes() {
    let d = TargetDetail {
        label: "x".repeat(300),
        description: String::new(),
        is_executable: false,
        is_test: false,
    };
    let bytes = encode_target_details(&TargetDetails { target_detail: vec![d.clone()] });
    assert_eq!(&bytes[3..6], &[0x0A, 0xAC, 0x02]);
    assert_eq!(decode_target_details(&bytes).unwrap().target_detail, vec![d]);
}

#[test]
fn truncated_varint_is_refused() {
    assert_eq!(read_varint(&[0x80, 0x80], 0), None);
    assert_eq!(read_varint(&[], 0), None);
    let mut eleven = vec![0xFF; 9];
    eleven.push(0x02);
    assert_eq!(read_varint(&eleven, 0), None);
    assert_eq!(read_varint(&[0x80, 0x00], 0), Some((0, 2)));
}

#[test]
fn fields_are_split_in_order() {
    let mut b = Vec::new();
    bytes_field(&mut b, 1, b"ab");
    varint_field(&mut b, 3, 1);
    let fs = read_fields(&b).unwrap();
    assert_eq!(fs.len(), 2);
    assert_eq!(fs[0].num, 1);
    assert!(matches!(&fs[0].value, FieldValue::Bytes(x) if x == b"ab"));
    assert_eq!(fs[1].num, 3);
    assert!(matches!(fs[1].value, FieldValue::Varint(1)));
}

#[test]
fn query_result_targets_decode_with_kinds() {
    let mut rule = Vec::new();
    bytes_field(&mut rule, 1, b"//app:main");
    bytes_field(&mut rule, 2, b"cc_binary");
    let mut attr = Vec::new();
    bytes_field(&mut attr, 1, b"linkshared");
    varint_field(&mut attr, 2, 14);
    varint_field(&mut attr, 14, 1);
    bytes_field(&mut rule, 4, &attr);
    let mut t1 = Vec::new();
    varint_field(&mut t1, 1, 1);
    bytes_field(&mut t1, 2, &rule);
    let mut t2 = Vec::new();
    varint_field(&mut t2, 1, 2);
    let mut q = Vec::new();
    bytes_field(&mut q, 1, &t1);
    bytes_field(&mut q, 1, &t2);
    let r = decode_query_result(&q).unwrap();
    assert_eq!(r.target.len(), 2);
    assert_eq!(r.target[0].type_, Discriminator::Rule);
    let rule = r.target[0].rule.as_ref().unwrap();
    assert_eq!(rule.name, "//app:main");
    assert_eq!(rule.rule_class, "cc_binary");
    assert_eq!(rule.attribute.len(), 1);
    assert_eq!(rule.attribute[0].name.as_deref(), Some("linkshared"));
    assert!(rule.attribute[0].boolean_value);
    assert_eq!(r.target[1].type_, Discriminator::SourceFile);
    assert!(r.target[1].rule.is_none());
}

#[test]
fn malformed_query_output_is_a_decode_error() {
    assert!(decode_query_result(&[0x0A, 0x05, 0x01]).is_err());
    assert!(decode_query_result(&[0x10, 0x07]).is_ok());
    assert!(decode_query_result(&[0x08, 0x07]).is_err());
    let mut t = Vec::new();
    varint_field(&mut t, 1, 9);
    let mut q = Vec::new();
    bytes_field(&mut q, 1, &t);
    assert!(decode_query_result(&q).is_err());
}

#[test]
fn invalid_utf8_in_a_rule_name_is_a_decode_error() {
    let mut rule = Vec::new();
    bytes_field(&mut rule, 1, &[0xFF, 0xFE]);
    let mut t = Vec::new();
    bytes_field(&mut t, 2, &rule);
    let mut q = Vec::new();
    bytes_field(&mut q, 1, &t);
    assert!(decode_query_result(&q).is_err());
}

#[test]
fn empty_query_output_has_no_targets() {
    assert_eq!(decode_query_result(&[]).unwrap().target.len(), 0);
}

fn rule_target(name: &str, class: &str) -> Vec<u8> {
    let mut rule = Vec::new();
    bytes_field(&mut rule, 1, name.as_bytes());
    bytes_field(&mut rule, 2, class.as_bytes());
    let mut t = Vec::new();
    varint_field(&mut t, 1, 1);
    bytes_field(&mut t, 2, &rule);
    t
}

fn query_of(targets: &[Vec<u8>]) -> Vec<u8> {
    let mut q = Vec::new();
    for t in targets {
        bytes_field(&mut q, 1, t);
    }
    q
}

#[test]
fn one_cc_binary_query_gives_one_runnable_target_and_one_line() {
    let root = query_of(&[rule_target("//app:main", "cc_binary")]);
    let external = query_of(&[]);
    let names = external_dependency_names(&decode_query_result(&external).unwrap());
    assert!(names.is_empty());
    let details = build_target_details(&root, &vec![]).unwrap();
    let stored = encode_target_details(&details);
    let loaded = decode_target_details(&stored).unwrap();
    assert_eq!(loaded.target_detail.len(), 1);
    let d = &loaded.target_detail[0];
    assert_eq!(d.label, "//app:main");
    assert_eq!(d.description, "cc_binary");
    assert!(d.is_executable);
    assert!(!d.is_test);
    let listed = filter_targets(&loaded.target_detail, false, false, None);
    let lines: Vec<String> = listed.iter().map(target_json_line).collect();
    assert_eq!(lines, vec!["{\"label\":\"//app:main\",\"description\":\"cc_binary\"}\n".to_string()]);
}

#[test]
fn external_workspaces_are_appended_and_failures_dropped() {
    let root = query_of(&[rule_target("//:lib", "cc_library")]);
    let foo = query_of(&[rule_target("@foo//:test", "cc_test")]);
    let bar = query_of(&[rule_target("@bar//:tool", "py_binary")]);
    let externals = vec![Some(foo), None, Some(vec![0xFF]), Some(bar)];
    let details = build_target_details(&root, &externals).unwrap();
    let labels: Vec<&str> = details.target_detail.iter().map(|d| d.label.as_str()).collect();
    assert_eq!(labels, vec!["//:lib", "@foo//:test", "@bar//:tool"]);
    assert!(details.target_detail[1].is_test);
    assert!(details.target_detail[2].is_executable);
}

#[test]
fn root_output_that_does_not_decode_is_an_error() {
    assert!(build_target_details(&[0x0A, 0x09], &vec![]).is_err());
}

#[test]
fn non_rule_targets_are_skipped_in_listing() {
    let mut source = Vec::new();
    varint_field(&mut source, 1, 2);
    let root = query_of(&[source, rule_target("//a:b", "sh_test")]);
    let details = build_target_details(&root, &vec![]).unwrap();
    assert_eq!(details.target_detail.len(), 1);
    assert_eq!(details.target_detail[0].label, "//a:b");
}

#[test]
fn external_query_selects_only_top_level_dependencies() {
    let q = query_of(&[
        rule_target("//external:foo", "http_archive"),
        rule_target("//external:foo/sub", "alias"),
        rule_target("//external:WORKSPACE.bazel", "filegroup"),
        rule_target("//other:bar", "cc_library"),
    ]);
    let names = external_dependency_names(&decode_query_result(&q).unwrap());
    assert_eq!(names, vec!["foo".to_string()]);
}

#[test]
fn cached_dataset_is_read_twice_without_running() {
    let options = UpdateQueryOptions {
        workspace_name: "ws".to_string(),
        filename: "query".to_string(),
        query: "//...".to_string(),
    };
    for _ in 0..2 {
        match query_step("/cache/bzlq", &options, true) {
            CacheStep::Read(p) => assert_eq!(p, "/cache/bzlq/ws/query.bin"),
            CacheStep::Run(_) => panic!("a cached dataset was fetched again"),
        }
    }
    match query_step("/cache/bzlq", &options, false) {
        CacheStep::Run(run) => {
            assert_eq!(run.dir, "/cache/bzlq/ws");
            assert_eq!(run.path, "/cache/bzlq/ws/query.bin");
            assert_eq!(run.args, vec!["query", "//...", "--output=proto"]);
        }
        CacheStep::Read(_) => panic!("a missing dataset was read"),
    }
}

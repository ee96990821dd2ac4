use bzlq::cache::{get_cache_dir, get_query_bin_file_path, update_external, update_query, UpdateQueryOptions};
use bzlq::codec::{decode_target_details, encode_target_details};
use bzlq::rule::{create_target_details, is_executable_rule, is_test_rule, Attribute, Rule, TargetDetail};
use bzlq::targets::{external_dependency_name, filter_targets, target_json_line, TargetDetails};
use bzlq::text::{chars_of, has_char, has_prefix, has_suffix, str_eq};
use bzlq::workspace::{find_bazel_workspace_path, get_workspace_name, WorkspaceError};

fn rule(class: &str, attrs: Vec<Attribute>) -> Rule {
    Rule { name: "//pkg:t".to_string(), rule_class: class.to_string(), attribute: attrs }
}

fn linkshared(v: bool) -> Attribute {
    Attribute { name: Some("linkshared".to_string()), boolean_value: v }
}

fn flags(r: &Rule) -> (bool, bool) {
    (is_executable_rule(r), is_test_rule(r))
}

#[test]
fn classifier_table() {
    assert_eq!(flags(&rule("cc_library", vec![])), (false, false));
    assert_eq!(flags(&rule("cc_binary", vec![])), (true, false));
    assert_eq!(flags(&rule("cc_binary", vec![linkshared(true)])), (false, false));
    assert_eq!(flags(&rule("cc_test", vec![])), (true, true));
    assert_eq!(flags(&rule("py_binary", vec![])), (true, false));
    assert_eq!(flags(&rule("genrule", vec![])), (false, false));
}

#[test]
fn linkshared_false_or_on_other_classes_keeps_runnable() {
    assert_eq!(flags(&rule("cc_binary", vec![linkshared(false)])), (true, false));
    assert_eq!(flags(&rule("cc_test", vec![linkshared(true)])), (true, true));
    assert_eq!(flags(&rule("go_binary", vec![linkshared(true)])), (true, false));
    let unnamed = Attribute { name: None, boolean_value: true };
    assert_eq!(flags(&rule("cc_binary", vec![unnamed])), (true, false));
}

#[test]
fn target_details_copy_label_and_class() {
    let d = create_target_details(&rule("sh_test", vec![]));
    assert_eq!(d.label, "//pkg:t");
    assert_eq!(d.description, "sh_test");
    assert!(d.is_executable && d.is_test);
}

fn detail(label: &str, exe: bool, test: bool) -> TargetDetail {
    TargetDetail {
        label: label.to_string(),
        description: "r".to_string(),
        is_executable: exe,
        is_test: test,
    }
}

fn five() -> Vec<TargetDetail> {
    vec![
        detail("//app:a", true, false),
        detail("//app:b", false, false),
        detail("//lib:c", true, true),
        detail("//app/x:d", true, true),
        detail("//tools:e", false, true),
    ]
}

fn labels(v: &[TargetDetail]) -> Vec<&str> {
    v.iter().map(|d| d.label.as_str()).collect()
}

#[test]
fn run_only_with_search_prefix() {
    let all = five();
    let r = filter_targets(&all, true, false, Some("//app"));
    assert_eq!(labels(&r), vec!["//app:a", "//app/x:d"]);
}

#[test]
fn filters_compose_and_empty_search_matches_all() {
    let all = five();
    assert_eq!(labels(&filter_targets(&all, false, false, None)).len(), 5);
    assert_eq!(labels(&filter_targets(&all, false, false, Some(""))).len(), 5);
    assert_eq!(labels(&filter_targets(&all, false, true, None)), vec!["//lib:c", "//app/x:d", "//tools:e"]);
    assert_eq!(labels(&filter_targets(&all, true, true, Some("//app"))), vec!["//app/x:d"]);
    assert!(filter_targets(&all, false, false, Some("//nothing")).is_empty());
}

#[test]
fn json_line_shape() {
    assert_eq!(
        target_json_line(&detail("//a:b", true, false)),
        "{\"label\":\"//a:b\",\"description\":\"r\"}\n"
    );
}

fn round_trip(ds: Vec<TargetDetail>) {
    let v = TargetDetails { target_detail: ds };
    let bytes = encode_target_details(&v);
    assert_eq!(decode_target_details(&bytes).unwrap(), v);
}

#[test]
fn targets_dataset_round_trips() {
    round_trip(vec![]);
    round_trip(vec![detail("//a:b", true, false)]);
    round_trip(vec![detail("//a:b", true, false), detail("//a:b", false, true), detail("//ü:ß", true, true)]);
}

#[test]
fn empty_targets_dataset_is_empty_bytes() {
    let bytes = encode_target_details(&TargetDetails { target_detail: vec![] });
    assert!(bytes.is_empty());
}

#[test]
fn truncated_targets_dataset_is_an_error() {
    let bytes = encode_target_details(&TargetDetails { target_detail: vec![detail("//a:b", true, false)] });
    assert!(decode_target_details(&bytes[..bytes.len() - 1]).is_err());
}

fn comps(p: &[&str]) -> Vec<String> {
    p.iter().map(|s| s.to_string()).collect()
}

#[test]
fn locator_finds_module_three_levels_up() {
    let base = comps(&["home", "ws", "a", "b", "c"]);
    let present = comps(&["/home/ws/MODULE.bazel", "/home/ws/a/b/c/BUILD"]);
    let loc = find_bazel_workspace_path(&base, &present).unwrap();
    assert_eq!(loc.root, "/home/ws");
    assert_eq!(loc.marker_path, "/home/ws/MODULE.bazel");
    assert_eq!(loc.marker, "MODULE.bazel");
}

#[test]
fn locator_outside_any_workspace_is_not_found() {
    let base = comps(&["tmp", "x", "y"]);
    let present = comps(&["/tmp/x/y/file.txt"]);
    assert_eq!(find_bazel_workspace_path(&base, &present), Err(WorkspaceError::NotFound));
}

#[test]
fn locator_prefers_module_then_nearest() {
    let base = comps(&["w", "sub"]);
    let present = comps(&["/w/sub/WORKSPACE", "/w/sub/WORKSPACE.bazel", "/w/MODULE.bazel"]);
    let loc = find_bazel_workspace_path(&base, &present).unwrap();
    assert_eq!(loc.marker_path, "/w/sub/WORKSPACE.bazel");
    assert_eq!(loc.root, "/w/sub");
    let root = find_bazel_workspace_path(&comps(&["a"]), &comps(&["/WORKSPACE"])).unwrap();
    assert_eq!(root.root, "/");
    assert_eq!(root.marker_path, "/WORKSPACE");
}

#[test]
fn module_name_is_read() {
    assert_eq!(get_workspace_name("MODULE.bazel", "module(name = \"my_mod\", version = \"1.0\")\n"), Ok("my_mod".to_string()));
    assert_eq!(get_workspace_name("MODULE.bazel", "module ( name=\"m\" )"), Ok("m".to_string()));
}

#[test]
fn workspace_name_is_read_from_workspace_files() {
    assert_eq!(get_workspace_name("WORKSPACE", "# c\nworkspace(name = \"ws\")\n"), Ok("ws".to_string()));
    assert_eq!(get_workspace_name("WORKSPACE.bazel", "workspace(\n  name = \"w2\")"), Ok("w2".to_string()));
    assert_eq!(get_workspace_name("MODULE.bazel", "workspace(name = \"ws\")"), Err(WorkspaceError::Parse));
}

#[test]
fn missing_name_statement_is_a_parse_error() {
    assert_eq!(get_workspace_name("WORKSPACE", "load(\"x\")\n"), Err(WorkspaceError::Parse));
    assert_eq!(get_workspace_name("MODULE.bazel", "module(name = \"open\"\n)"), Err(WorkspaceError::Parse));
    assert_eq!(get_workspace_name("MODULE.bazel", ""), Err(WorkspaceError::Parse));
}

#[test]
fn cache_paths() {
    assert_eq!(get_cache_dir("/c/bzlq", "ws"), "/c/bzlq/ws");
    assert_eq!(get_query_bin_file_path("/c/bzlq", "ws", "targets"), "/c/bzlq/ws/targets.bin");
    let run = update_external("/c/bzlq", "ws");
    assert_eq!(run.path, "/c/bzlq/ws/external.bin");
    assert_eq!(run.args, vec!["query", "//external:*", "--output=proto"]);
    let options = UpdateQueryOptions {
        workspace_name: "dep".to_string(),
        filename: "query".to_string(),
        query: "@dep//...".to_string(),
    };
    let run = update_query("/c", &options);
    assert_eq!(run.dir, "/c/dep");
    assert_eq!(run.args[1], "@dep//...");
}

#[test]
fn dependency_name_of_labels() {
    assert_eq!(external_dependency_name("//external:foo"), Some("foo".to_string()));
    assert_eq!(external_dependency_name("//external:foo/sub"), None);
    assert_eq!(external_dependency_name("//external:WORKSPACE.bazel"), None);
    assert_eq!(external_dependency_name("//other:bar"), None);
}

#[test]
fn text_helpers() {
    assert_eq!(chars_of("aß"), vec!['a', 'ß']);
    assert!(has_prefix("//app:x", "//app"));
    assert!(!has_prefix("//a", "//app"));
    assert!(has_suffix("cc_test", "_test"));
    assert!(!has_suffix("test", "_test"));
    assert!(has_char("a/b", '/'));
    assert!(str_eq("x", "x") && !str_eq("x", "y"));
}

fn query(targets: Vec<(&str, &str)>) -> bzlq::targets::QueryResult {
    bzlq::targets::QueryResult {
        target: targets
            .into_iter()
            .map(|(name, class)| bzlq::targets::Target {
                type_: bzlq::targets::Discriminator::Rule,
                rule: Some(rule_named(name, class)),
            })
            .collect(),
    }
}

fn rule_named(name: &str, class: &str) -> Rule {
    Rule { name: name.to_string(), rule_class: class.to_string(), attribute: vec![] }
}

#[test]
fn external_targets_skip_failed_workspaces() {
    let externals = vec![
        Some(query(vec![("@a//:t", "cc_test")])),
        None,
        Some(query(vec![("@b//:x", "genrule"), ("@b//:y", "py_binary")])),
    ];
    let r = bzlq::list_external_targets(&externals);
    assert_eq!(labels(&r), vec!["@a//:t", "@b//:x", "@b//:y"]);
    let merged = bzlq::create_target_details_message(&query(vec![("//:r", "java_binary")]), &externals);
    assert_eq!(labels(&merged.target_detail), vec!["//:r", "@a//:t", "@b//:x", "@b//:y"]);
}

#[test]
fn listing_skips_targets_without_rules() {
    let mut q = query(vec![("//:a", "cc_library")]);
    q.target.push(bzlq::targets::Target { type_: bzlq::targets::Discriminator::GeneratedFile, rule: None });
    q.target.push(bzlq::targets::Target {
        type_: bzlq::targets::Discriminator::PackageGroup,
        rule: Some(rule_named("//:g", "cc_binary")),
    });
    let r = bzlq::list_targets(&q);
    assert_eq!(labels(&r), vec!["//:a"]);
}

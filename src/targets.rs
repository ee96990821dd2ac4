use vstd::prelude::*;
use vstd::slice::slice_subrange;
use crate::rule::{
    create_target_details, detail_of, details_view, DetailModel, Rule, RuleModel, TargetDetail,
};
use crate::text::{
    chars_of, ends_with, has_char, has_prefix, has_suffix, push_chars, starts_with,
    string_from_chars,
};

verus! {

/// The kind of a target in a query result.
#[derive(Clone, Copy, Debug, PartialEq, Eq, Structural)]
pub enum Discriminator {
    Rule,
    SourceFile,
    GeneratedFile,
    PackageGroup,
    EnvironmentGroup,
}

/// One target of a query result; only a rule carries a payload.
#[derive(Clone, Debug)]
pub struct Target {
    pub type_: Discriminator,
    pub rule: Option<Rule>,
}

/// The decoded output of one query.
#[derive(Clone, Debug)]
pub struct QueryResult {
    pub target: Vec<Target>,
}

/// What a `Target` holds, as plain values.
pub struct TargetModel {
    pub type_: Discriminator,
    pub rule: Option<RuleModel>,
}

impl View for Target {
    type V = TargetModel;

    open spec fn view(&self) -> TargetModel {
        TargetModel {
            type_: self.type_,
            rule: match self.rule {
                Some(r) => Some(r@),
                None => None,
            },
        }
    }
}

/// The models of a sequence of targets.
pub open spec fn targets_view(v: Seq<Target>) -> Seq<TargetModel> {
    v.map_values(|t: Target| t@)
}

/// The merged summary of a workspace and its external workspaces.
#[derive(Clone, Debug, PartialEq, Eq)]
pub struct TargetDetails {
    pub target_detail: Vec<TargetDetail>,
}

/// The rule of a target that classification reads: rule targets only.
pub open spec fn rule_of(t: TargetModel) -> Option<RuleModel> {
    if t.type_ == Discriminator::Rule {
        t.rule
    } else {
        None
    }
}

/// The summaries of the rule targets, in order; other targets are skipped.
pub open spec fn rule_details(ts: Seq<TargetModel>) -> Seq<DetailModel>
    decreases ts.len(),
{
    if ts.len() == 0 {
        Seq::empty()
    } else {
        let rest = rule_details(ts.drop_last());
        match rule_of(ts.last()) {
            Some(r) => rest.push(detail_of(r)),
            None => rest,
        }
    }
}

/// The prefix of the labels of external repositories.
pub open spec fn external_prefix() -> Seq<char> {
    "//external:"@
}

/// The external workspace that a label names, if it names one that can be
/// resolved on its own.
pub open spec fn dependency_name(label: Seq<char>) -> Option<Seq<char>> {
    let name = label.skip(external_prefix().len() as int);
    if starts_with(label, external_prefix()) && !ends_with(label, "WORKSPACE.bazel"@)
        && !name.contains('/') {
        Some(name)
    } else {
        None
    }
}

/// The external workspaces named by the rule targets, in order.
pub open spec fn dependency_names(ts: Seq<TargetModel>) -> Seq<Seq<char>>
    decreases ts.len(),
{
    if ts.len() == 0 {
        Seq::empty()
    } else {
        let rest = dependency_names(ts.drop_last());
        match rule_of(ts.last()) {
            Some(r) => match dependency_name(r.name) {
                Some(n) => rest.push(n),
                None => rest,
            },
            None => rest,
        }
    }
}

/// The views of a sequence of strings.
pub open spec fn names_view(v: Seq<String>) -> Seq<Seq<char>> {
    v.map_values(|s: String| s@)
}

/// The summaries of the external workspaces that resolved, in order; a
/// failed one (`None`) adds nothing.
pub open spec fn external_details(es: Seq<Option<QueryResult>>) -> Seq<DetailModel>
    decreases es.len(),
{
    if es.len() == 0 {
        Seq::empty()
    } else {
        let rest = external_details(es.drop_last());
        match es.last() {
            Some(q) => rest + rule_details(targets_view(q.target@)),
            None => rest,
        }
    }
}

/// A summary passes the listing filters: executable if `run_only`, a test if
/// `test_only`, and its label begins with `search` where that is not empty.
pub open spec fn is_listed(
    d: DetailModel,
    run_only: bool,
    test_only: bool,
    search: Option<Seq<char>>,
) -> bool {
    &&& run_only ==> d.is_executable
    &&& test_only ==> d.is_test
    &&& match search {
        Some(s) => s.len() == 0 || starts_with(d.label, s),
        None => true,
    }
}

/// The summaries that pass the listing filters, in order.
pub open spec fn listed(
    ds: Seq<DetailModel>,
    run_only: bool,
    test_only: bool,
    search: Option<Seq<char>>,
) -> Seq<DetailModel>
    decreases ds.len(),
{
    if ds.len() == 0 {
        Seq::empty()
    } else {
        let rest = listed(ds.drop_last(), run_only, test_only, search);
        if is_listed(ds.last(), run_only, test_only, search) {
            rest.push(ds.last())
        } else {
            rest
        }
    }
}

/// The summaries of the rule targets of a query result, in order.
pub fn list_targets(query: &QueryResult) -> (r: Vec<TargetDetail>)
    ensures
        details_view(r@) == rule_details(targets_view(query.target@)),
{
    let ts = &query.target;
    let mut r: Vec<TargetDetail> = Vec::new();
    let mut i: usize = 0;
    while i < ts.len()
        invariant
            i <= ts.len(),
            details_view(r@) == rule_details(targets_view(ts@).take(i as int)),
        decreases ts.len() - i,
    {
        assert(targets_view(ts@).take(i + 1).drop_last() == targets_view(ts@).take(i as int));
        assert(targets_view(ts@).take(i + 1).last() == ts@[i as int]@);
        let t = &ts[i];
        if t.type_ == Discriminator::Rule {
            if let Some(rule) = &t.rule {
                let d = create_target_details(rule);
                r.push(d);
            }
        }
        assert(details_view(r@) == rule_details(targets_view(ts@).take(i + 1)));
        i = i + 1;
    }
    assert(targets_view(ts@).take(ts.len() as int) == targets_view(ts@));
    r
}

/// The external workspace named by a label, if any.
pub fn external_dependency_name(label: &str) -> (r: Option<String>)
    ensures
        match r {
            Some(n) => dependency_name(label@) == Some(n@),
            None => dependency_name(label@) is None,
        },
{
    if !has_prefix(label, "//external:") || has_suffix(label, "WORKSPACE.bazel") {
        return None;
    }
    let chars = chars_of(label);
    let prefix = chars_of("//external:");
    let name = string_from_chars(slice_subrange(chars.as_slice(), prefix.len(), chars.len()));
    assert(name@ == label@.skip(external_prefix().len() as int));
    if has_char(name.as_str(), '/') {
        None
    } else {
        Some(name)
    }
}

/// The external workspaces named by the rule targets of the `//external:*`
/// query, in order.
pub fn external_dependency_names(query: &QueryResult) -> (r: Vec<String>)
    ensures
        names_view(r@) == dependency_names(targets_view(query.target@)),
{
    let ts = &query.target;
    let mut r: Vec<String> = Vec::new();
    let mut i: usize = 0;
    while i < ts.len()
        invariant
            i <= ts.len(),
            names_view(r@) == dependency_names(targets_view(ts@).take(i as int)),
        decreases ts.len() - i,
    {
        assert(targets_view(ts@).take(i + 1).drop_last() == targets_view(ts@).take(i as int));
        assert(targets_view(ts@).take(i + 1).last() == ts@[i as int]@);
        let t = &ts[i];
        if t.type_ == Discriminator::Rule {
            if let Some(rule) = &t.rule {
                if let Some(n) = external_dependency_name(rule.name.as_str()) {
                    r.push(n);
                }
            }
        }
        assert(names_view(r@) == dependency_names(targets_view(ts@).take(i + 1)));
        i = i + 1;
    }
    assert(targets_view(ts@).take(ts.len() as int) == targets_view(ts@));
    r
}

/// The summaries of the external workspaces, in order: those of each one
/// that resolved; one that failed (`None`) is left out.
pub fn list_external_targets(externals: &Vec<Option<QueryResult>>) -> (r: Vec<TargetDetail>)
    ensures
        details_view(r@) == external_details(externals@),
{
    let mut all: Vec<TargetDetail> = Vec::new();
    let mut i: usize = 0;
    while i < externals.len()
        invariant
            i <= externals.len(),
            details_view(all@) == external_details(externals@.take(i as int)),
        decreases externals.len() - i,
    {
        assert(externals@.take(i + 1).drop_last() == externals@.take(i as int));
        assert(externals@.take(i + 1).last() == externals@[i as int]);
        if let Some(q) = &externals[i] {
            let mut more = list_targets(q);
            let ghost before = all@;
            all.append(&mut more);
            assert(details_view(all@) == details_view(before) + rule_details(
                targets_view(q.target@),
            ));
        }
        i = i + 1;
    }
    assert(externals@.take(externals.len() as int) == externals@);
    all
}

/// Merges the root workspace's query result with those of its external
/// workspaces: root targets first, then each external workspace that
/// resolved, in order; one that failed (`None`) is left out.
pub fn create_target_details_message(
    root: &QueryResult,
    externals: &Vec<Option<QueryResult>>,
) -> (r: TargetDetails)
    ensures
        details_view(r.target_detail@) == rule_details(targets_view(root.target@))
            + external_details(externals@),
{
    let mut all = list_targets(root);
    let mut more = list_external_targets(externals);
    all.append(&mut more);
    TargetDetails { target_detail: all }
}

/// The summaries that pass the listing filters, in their order.
pub fn filter_targets(
    details: &Vec<TargetDetail>,
    run_only: bool,
    test_only: bool,
    search: Option<&str>,
) -> (r: Vec<TargetDetail>)
    ensures
        details_view(r@) == listed(
            details_view(details@),
            run_only,
            test_only,
            match search {
                Some(s) => Some(s@),
                None => None,
            },
        ),
{
    let ghost s = match search {
        Some(s) => Some(s@),
        None => None::<Seq<char>>,
    };
    let mut r: Vec<TargetDetail> = Vec::new();
    let mut i: usize = 0;
    while i < details.len()
        invariant
            i <= details.len(),
            s == match search {
                Some(s) => Some(s@),
                None => None::<Seq<char>>,
            },
            details_view(r@) == listed(details_view(details@.take(i as int)), run_only, test_only, s),
        decreases details.len() - i,
    {
        assert(details_view(details@.take(i + 1)).drop_last() == details_view(
            details@.take(i as int),
        ));
        assert(details_view(details@.take(i + 1)).last() == details@[i as int]@);
        let d = &details[i];
        let keep = (!run_only || d.is_executable) && (!test_only || d.is_test) && match search {
            Some(p) => p.is_empty() || has_prefix(d.label.as_str(), p),
            None => true,
        };
        if keep {
            r.push(d.duplicate());
        }
        assert(details_view(r@) == listed(
            details_view(details@.take(i + 1)),
            run_only,
            test_only,
            s,
        ));
        i = i + 1;
    }
    assert(details@.take(details.len() as int) == details@);
    r
}

/// The line that lists a summary: `{"label":"<label>","description":"<description>"}`
/// and a newline.
pub open spec fn json_line(d: DetailModel) -> Seq<char> {
    "{\"label\":\""@ + d.label + "\",\"description\":\""@ + d.description + "\"}\n"@
}

/// The line that lists a summary.
pub fn target_json_line(d: &TargetDetail) -> (r: String)
    ensures
        r@ == json_line(d@),
{
    let mut c: Vec<char> = Vec::new();
    push_chars(&mut c, "{\"label\":\"");
    push_chars(&mut c, d.label.as_str());
    push_chars(&mut c, "\",\"description\":\"");
    push_chars(&mut c, d.description.as_str());
    push_chars(&mut c, "\"}\n");
    string_from_chars(c.as_slice())
}

} // verus!

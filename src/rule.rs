use vstd::prelude::*;
use crate::text::{ends_with, has_suffix, str_eq};

verus! {

/// One attribute of a rule, as far as classification reads it.
#[derive(Clone, Debug)]
pub struct Attribute {
    pub name: Option<String>,
    pub boolean_value: bool,
}

/// A rule record of a query result.
#[derive(Clone, Debug)]
pub struct Rule {
    pub name: String,
    pub rule_class: String,
    pub attribute: Vec<Attribute>,
}

/// What an `Attribute` holds, as plain values.
pub struct AttributeModel {
    pub name: Option<Seq<char>>,
    pub boolean_value: bool,
}

/// What a `Rule` holds, as plain values.
pub struct RuleModel {
    pub name: Seq<char>,
    pub rule_class: Seq<char>,
    pub attribute: Seq<AttributeModel>,
}

impl View for Attribute {
    type V = AttributeModel;

    open spec fn view(&self) -> AttributeModel {
        AttributeModel {
            name: match self.name {
                Some(n) => Some(n@),
                None => None,
            },
            boolean_value: self.boolean_value,
        }
    }
}

/// The models of a sequence of attributes.
pub open spec fn attributes_view(v: Seq<Attribute>) -> Seq<AttributeModel> {
    v.map_values(|a: Attribute| a@)
}

impl View for Rule {
    type V = RuleModel;

    open spec fn view(&self) -> RuleModel {
        RuleModel {
            name: self.name@,
            rule_class: self.rule_class@,
            attribute: attributes_view(self.attribute@),
        }
    }
}

/// Summary of one discovered target.
#[derive(Clone, Debug, PartialEq, Eq)]
pub struct TargetDetail {
    pub label: String,
    pub description: String,
    pub is_executable: bool,
    pub is_test: bool,
}

/// What a `TargetDetail` holds, as plain values.
pub struct DetailModel {
    pub label: Seq<char>,
    pub description: Seq<char>,
    pub is_executable: bool,
    pub is_test: bool,
}

impl View for TargetDetail {
    type V = DetailModel;

    open spec fn view(&self) -> DetailModel {
        DetailModel {
            label: self.label@,
            description: self.description@,
            is_executable: self.is_executable,
            is_test: self.is_test,
        }
    }
}

impl TargetDetail {
    /// A copy of this summary.
    pub fn duplicate(&self) -> (r: TargetDetail)
        ensures
            r@ == self@,
    {
        TargetDetail {
            label: self.label.clone(),
            description: self.description.clone(),
            is_executable: self.is_executable,
            is_test: self.is_test,
        }
    }
}

/// The models of a sequence of target details.
pub open spec fn details_view(v: Seq<TargetDetail>) -> Seq<DetailModel> {
    v.map_values(|d: TargetDetail| d@)
}

/// A test rule: its class ends with `_test`.
pub open spec fn is_test_class(class: Seq<char>) -> bool {
    ends_with(class, "_test"@)
}

/// The attribute is named `linkshared` and set to true.
pub open spec fn is_linkshared(a: AttributeModel) -> bool {
    &&& a.name == Some("linkshared"@)
    &&& a.boolean_value
}

/// A `cc_binary` that builds a shared library is not runnable.
pub open spec fn builds_shared_library(rule: RuleModel) -> bool {
    rule.rule_class == "cc_binary"@ && exists|i: int|
        0 <= i < rule.attribute.len() && #[trigger] is_linkshared(rule.attribute[i])
}

/// A runnable rule: a `_binary` or `_test` class, but for a shared `cc_binary`.
pub open spec fn is_executable_spec(rule: RuleModel) -> bool {
    (ends_with(rule.rule_class, "_binary"@) || is_test_class(rule.rule_class))
        && !builds_shared_library(rule)
}

/// The summary that classification makes of a rule.
pub open spec fn detail_of(rule: RuleModel) -> DetailModel {
    DetailModel {
        label: rule.name,
        description: rule.rule_class,
        is_executable: is_executable_spec(rule),
        is_test: is_test_class(rule.rule_class),
    }
}

fn has_linkshared(attrs: &Vec<Attribute>) -> (r: bool)
    ensures
        r == exists|i: int|
            0 <= i < attrs@.len() && #[trigger] is_linkshared(attributes_view(attrs@)[i]),
{
    let mut i: usize = 0;
    while i < attrs.len()
        invariant
            i <= attrs.len(),
            forall|j: int| 0 <= j < i ==> !#[trigger] is_linkshared(attributes_view(attrs@)[j]),
        decreases attrs.len() - i,
    {
        let attr = &attrs[i];
        if let Some(name) = &attr.name {
            if str_eq(name.as_str(), "linkshared") && attr.boolean_value {
                assert(is_linkshared(attributes_view(attrs@)[i as int]));
                return true;
            }
        }
        i = i + 1;
    }
    false
}

/// Whether the rule is runnable.
pub fn is_executable_rule(rule: &Rule) -> (r: bool)
    ensures
        r == is_executable_spec(rule@),
{
    let class = rule.rule_class.as_str();
    if has_suffix(class, "_binary") || has_suffix(class, "_test") {
        if str_eq(class, "cc_binary") {
            let shared = has_linkshared(&rule.attribute);
            assert(rule@.attribute == attributes_view(rule.attribute@));
            assert(shared == builds_shared_library(rule@));
            !shared
        } else {
            true
        }
    } else {
        false
    }
}

/// Whether the rule is a test.
pub fn is_test_rule(rule: &Rule) -> (r: bool)
    ensures
        r == is_test_class(rule.rule_class@),
{
    has_suffix(rule.rule_class.as_str(), "_test")
}

/// The summary of a rule: its label, its class as description, and its two flags.
pub fn create_target_details(rule: &Rule) -> (r: TargetDetail)
    ensures
        r@ == detail_of(rule@),
{
    TargetDetail {
        label: rule.name.clone(),
        description: rule.rule_class.clone(),
        is_executable: is_executable_rule(rule),
        is_test: is_test_rule(rule),
    }
}

} // verus!

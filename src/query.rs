use vstd::prelude::*;
use crate::codec::{field_value_view, flag_field, flag_of, text_field, text_of, DecodeError};
use crate::rule::{attributes_view, Attribute, AttributeModel, Rule, RuleModel};
use crate::rule::{details_view, DetailModel};
use crate::targets::{
    create_target_details_message, external_details, rule_details, targets_view, Discriminator,
    QueryResult, Target, TargetDetails, TargetModel,
};
use crate::wire::{fields, fields_view, read_fields, FieldValue, WireValue};

verus! {

/// An attribute with one more field read: its name (field 1) and its
/// boolean value (field 14); other fields are passed over.
pub open spec fn apply_attribute_field(a: AttributeModel, f: (nat, WireValue)) -> Option<
    AttributeModel,
> {
    if f.0 == 1 {
        match text_of(f.1) {
            Some(s) => Some(AttributeModel { name: Some(s), ..a }),
            None => None,
        }
    } else if f.0 == 14 {
        match flag_of(f.1) {
            Some(x) => Some(AttributeModel { boolean_value: x, ..a }),
            None => None,
        }
    } else {
        Some(a)
    }
}

/// Reads the fields `fs` into the attribute `a`.
pub open spec fn attribute_fold(a: AttributeModel, fs: Seq<(nat, WireValue)>) -> Option<
    AttributeModel,
>
    decreases fs.len(),
{
    if fs.len() == 0 {
        Some(a)
    } else {
        match apply_attribute_field(a, fs[0]) {
            Some(b) => attribute_fold(b, fs.skip(1)),
            None => None,
        }
    }
}

/// The attribute that a message holds.
pub open spec fn decode_attribute(b: Seq<u8>) -> Option<AttributeModel> {
    match fields(b) {
        Some(fs) => attribute_fold(AttributeModel { name: None, boolean_value: false }, fs),
        None => None,
    }
}

/// A rule with one more field read: its name (field 1), its class
/// (field 2) and one more attribute (field 4); other fields are passed over.
pub open spec fn apply_rule_field(r: RuleModel, f: (nat, WireValue)) -> Option<RuleModel> {
    if f.0 == 1 {
        match text_of(f.1) {
            Some(s) => Some(RuleModel { name: s, ..r }),
            None => None,
        }
    } else if f.0 == 2 {
        match text_of(f.1) {
            Some(s) => Some(RuleModel { rule_class: s, ..r }),
            None => None,
        }
    } else if f.0 == 4 {
        match f.1 {
            WireValue::Bytes(b) => match decode_attribute(b) {
                Some(a) => Some(RuleModel { attribute: r.attribute.push(a), ..r }),
                None => None,
            },
            _ => None,
        }
    } else {
        Some(r)
    }
}

/// Reads the fields `fs` into the rule `r`.
pub open spec fn rule_fold(r: RuleModel, fs: Seq<(nat, WireValue)>) -> Option<RuleModel>
    decreases fs.len(),
{
    if fs.len() == 0 {
        Some(r)
    } else {
        match apply_rule_field(r, fs[0]) {
            Some(q) => rule_fold(q, fs.skip(1)),
            None => None,
        }
    }
}

/// The rule that a message holds.
pub open spec fn decode_rule(b: Seq<u8>) -> Option<RuleModel> {
    match fields(b) {
        Some(fs) => rule_fold(
            RuleModel { name: Seq::empty(), rule_class: Seq::empty(), attribute: Seq::empty() },
            fs,
        ),
        None => None,
    }
}

/// The kind of target that a value on the wire stands for.
pub open spec fn discriminator_of(v: nat) -> Option<Discriminator> {
    if v == 1 {
        Some(Discriminator::Rule)
    } else if v == 2 {
        Some(Discriminator::SourceFile)
    } else if v == 3 {
        Some(Discriminator::GeneratedFile)
    } else if v == 4 {
        Some(Discriminator::PackageGroup)
    } else if v == 5 {
        Some(Discriminator::EnvironmentGroup)
    } else {
        None
    }
}

/// A target with one more field read: its kind (field 1) and its rule
/// (field 2); other fields are passed over.
pub open spec fn apply_target_field(t: TargetModel, f: (nat, WireValue)) -> Option<TargetModel> {
    if f.0 == 1 {
        match f.1 {
            WireValue::Varint(v) => match discriminator_of(v) {
                Some(k) => Some(TargetModel { type_: k, ..t }),
                None => None,
            },
            _ => None,
        }
    } else if f.0 == 2 {
        match f.1 {
            WireValue::Bytes(b) => match decode_rule(b) {
                Some(r) => Some(TargetModel { rule: Some(r), ..t }),
                None => None,
            },
            _ => None,
        }
    } else {
        Some(t)
    }
}

/// Reads the fields `fs` into the target `t`.
pub open spec fn target_fold(t: TargetModel, fs: Seq<(nat, WireValue)>) -> Option<TargetModel>
    decreases fs.len(),
{
    if fs.len() == 0 {
        Some(t)
    } else {
        match apply_target_field(t, fs[0]) {
            Some(u) => target_fold(u, fs.skip(1)),
            None => None,
        }
    }
}

/// The target that a message holds; its kind is a rule unless it says
/// otherwise.
pub open spec fn decode_target(b: Seq<u8>) -> Option<TargetModel> {
    match fields(b) {
        Some(fs) => target_fold(TargetModel { type_: Discriminator::Rule, rule: None }, fs),
        None => None,
    }
}

/// Reads the fields `fs` of a query result after the targets `acc`.
pub open spec fn query_fold(acc: Seq<TargetModel>, fs: Seq<(nat, WireValue)>) -> Option<
    Seq<TargetModel>,
>
    decreases fs.len(),
{
    if fs.len() == 0 {
        Some(acc)
    } else if fs[0].0 == 1 {
        match fs[0].1 {
            WireValue::Bytes(b) => match decode_target(b) {
                Some(t) => query_fold(acc.push(t), fs.skip(1)),
                None => None,
            },
            _ => None,
        }
    } else {
        query_fold(acc, fs.skip(1))
    }
}

/// The targets of a query result in the build tool's binary output.
pub open spec fn decode_query(b: Seq<u8>) -> Option<Seq<TargetModel>> {
    match fields(b) {
        Some(fs) => query_fold(Seq::empty(), fs),
        None => None,
    }
}

fn decode_attribute_exec(b: &[u8]) -> (r: Result<Attribute, DecodeError>)
    ensures
        match decode_attribute(b@) {
            Some(a) => r matches Ok(x) && x@ == a,
            None => r is Err,
        },
{
    let fs = match read_fields(b) {
        Some(fs) => fs,
        None => {
            return Err(DecodeError::Malformed);
        },
    };
    let ghost all = fields_view(fs@);
    let mut a = Attribute { name: None, boolean_value: false };
    let mut i: usize = 0;
    assert(all.skip(0) == all);
    while i < fs.len()
        invariant
            i <= fs.len(),
            all == fields_view(fs@),
            fields(b@) == Some(all),
            attribute_fold(AttributeModel { name: None, boolean_value: false }, all)
                == attribute_fold(a@, all.skip(i as int)),
        decreases fs.len() - i,
    {
        let f = &fs[i];
        assert(all.skip(i as int)[0] == f@);
        assert(all.skip(i as int).skip(1) == all.skip(i + 1));
        assert(f@.1 == field_value_view(&f.value));
        if f.num == 1 {
            match text_field(&f.value) {
                Some(s) => {
                    a.name = Some(s);
                },
                None => {
                    return Err(DecodeError::Malformed);
                },
            }
        } else if f.num == 14 {
            match flag_field(&f.value) {
                Some(x) => {
                    a.boolean_value = x;
                },
                None => {
                    return Err(DecodeError::Malformed);
                },
            }
        }
        i = i + 1;
    }
    Ok(a)
}

fn decode_rule_exec(b: &[u8]) -> (r: Result<Rule, DecodeError>)
    ensures
        match decode_rule(b@) {
            Some(q) => r matches Ok(x) && x@ == q,
            None => r is Err,
        },
{
    let fs = match read_fields(b) {
        Some(fs) => fs,
        None => {
            return Err(DecodeError::Malformed);
        },
    };
    let ghost all = fields_view(fs@);
    let mut rule = Rule { name: String::new(), rule_class: String::new(), attribute: Vec::new() };
    let mut i: usize = 0;
    assert(all.skip(0) == all);
    assert(attributes_view(rule.attribute@) == Seq::<AttributeModel>::empty());
    while i < fs.len()
        invariant
            i <= fs.len(),
            all == fields_view(fs@),
            fields(b@) == Some(all),
            rule_fold(
                RuleModel { name: Seq::empty(), rule_class: Seq::empty(), attribute: Seq::empty() },
                all,
            ) == rule_fold(rule@, all.skip(i as int)),
        decreases fs.len() - i,
    {
        let f = &fs[i];
        assert(all.skip(i as int)[0] == f@);
        assert(all.skip(i as int).skip(1) == all.skip(i + 1));
        assert(f@.1 == field_value_view(&f.value));
        if f.num == 1 {
            match text_field(&f.value) {
                Some(s) => {
                    rule.name = s;
                },
                None => {
                    return Err(DecodeError::Malformed);
                },
            }
        } else if f.num == 2 {
            match text_field(&f.value) {
                Some(s) => {
                    rule.rule_class = s;
                },
                None => {
                    return Err(DecodeError::Malformed);
                },
            }
        } else if f.num == 4 {
            match &f.value {
                FieldValue::Bytes(m) => {
                    match decode_attribute_exec(m.as_slice()) {
                        Ok(a) => {
                            let ghost before = attributes_view(rule.attribute@);
                            rule.attribute.push(a);
                            assert(attributes_view(rule.attribute@) == before.push(a@));
                        },
                        Err(e) => {
                            return Err(e);
                        },
                    }
                },
                _ => {
                    return Err(DecodeError::Malformed);
                },
            }
        }
        i = i + 1;
    }
    Ok(rule)
}

fn discriminator_exec(v: u64) -> (r: Option<Discriminator>)
    ensures
        r == discriminator_of(v as nat),
{
    if v == 1 {
        Some(Discriminator::Rule)
    } else if v == 2 {
        Some(Discriminator::SourceFile)
    } else if v == 3 {
        Some(Discriminator::GeneratedFile)
    } else if v == 4 {
        Some(Discriminator::PackageGroup)
    } else if v == 5 {
        Some(Discriminator::EnvironmentGroup)
    } else {
        None
    }
}

fn decode_target_exec(b: &[u8]) -> (r: Result<Target, DecodeError>)
    ensures
        match decode_target(b@) {
            Some(t) => r matches Ok(x) && x@ == t,
            None => r is Err,
        },
{
    let fs = match read_fields(b) {
        Some(fs) => fs,
        None => {
            return Err(DecodeError::Malformed);
        },
    };
    let ghost all = fields_view(fs@);
    let mut t = Target { type_: Discriminator::Rule, rule: None };
    let mut i: usize = 0;
    assert(all.skip(0) == all);
    while i < fs.len()
        invariant
            i <= fs.len(),
            all == fields_view(fs@),
            fields(b@) == Some(all),
            target_fold(TargetModel { type_: Discriminator::Rule, rule: None }, all)
                == target_fold(t@, all.skip(i as int)),
        decreases fs.len() - i,
    {
        let f = &fs[i];
        assert(all.skip(i as int)[0] == f@);
        assert(all.skip(i as int).skip(1) == all.skip(i + 1));
        if f.num == 1 {
            match &f.value {
                FieldValue::Varint(v) => {
                    match discriminator_exec(*v) {
                        Some(k) => {
                            t.type_ = k;
                        },
                        None => {
                            return Err(DecodeError::Malformed);
                        },
                    }
                },
                _ => {
                    return Err(DecodeError::Malformed);
                },
            }
        } else if f.num == 2 {
            match &f.value {
                FieldValue::Bytes(m) => {
                    match decode_rule_exec(m.as_slice()) {
                        Ok(q) => {
                            t.rule = Some(q);
                        },
                        Err(e) => {
                            return Err(e);
                        },
                    }
                },
                _ => {
                    return Err(DecodeError::Malformed);
                },
            }
        }
        i = i + 1;
    }
    Ok(t)
}

/// Decodes the build tool's binary query output: the targets in order,
/// each with its kind and, for a rule, its name, class and attributes.
pub fn decode_query_result(b: &[u8]) -> (r: Result<QueryResult, DecodeError>)
    ensures
        match decode_query(b@) {
            Some(ts) => r matches Ok(q) && targets_view(q.target@) == ts,
            None => r is Err,
        },
{
    let fs = match read_fields(b) {
        Some(fs) => fs,
        None => {
            return Err(DecodeError::Malformed);
        },
    };
    let ghost all = fields_view(fs@);
    let mut out: Vec<Target> = Vec::new();
    let mut i: usize = 0;
    assert(all.skip(0) == all);
    assert(targets_view(out@) == Seq::<TargetModel>::empty());
    while i < fs.len()
        invariant
            i <= fs.len(),
            all == fields_view(fs@),
            fields(b@) == Some(all),
            query_fold(Seq::empty(), all) == query_fold(targets_view(out@), all.skip(i as int)),
        decreases fs.len() - i,
    {
        let f = &fs[i];
        assert(all.skip(i as int)[0] == f@);
        assert(all.skip(i as int).skip(1) == all.skip(i + 1));
        if f.num == 1 {
            match &f.value {
                FieldValue::Bytes(m) => {
                    match decode_target_exec(m.as_slice()) {
                        Ok(t) => {
                            let ghost before = targets_view(out@);
                            out.push(t);
                            assert(targets_view(out@) == before.push(t@));
                        },
                        Err(e) => {
                            return Err(e);
                        },
                    }
                },
                _ => {
                    return Err(DecodeError::Malformed);
                },
            }
        }
        i = i + 1;
    }
    Ok(QueryResult { target: out })
}

/// The bytes of each external workspace's query output, where it could be
/// fetched.
pub open spec fn fetched_view(es: Seq<Option<Vec<u8>>>) -> Seq<Option<Seq<u8>>> {
    es.map_values(
        |o: Option<Vec<u8>>|
            match o {
                Some(v) => Some(v@),
                None => None,
            },
    )
}

/// The summaries of the external workspaces whose output was fetched and
/// decodes, in order; the others add nothing.
pub open spec fn fetched_details(es: Seq<Option<Seq<u8>>>) -> Seq<DetailModel>
    decreases es.len(),
{
    if es.len() == 0 {
        Seq::empty()
    } else {
        let rest = fetched_details(es.drop_last());
        match es.last() {
            Some(b) => match decode_query(b) {
                Some(ts) => rest + rule_details(ts),
                None => rest,
            },
            None => rest,
        }
    }
}

/// Builds the summaries of a workspace from the query output of its root
/// (`//...`) and of each of its external workspaces (`@dep//...`, `None`
/// where it could not be fetched). A root output that does not decode is an
/// error; an external one that does not decode is left out.
pub fn build_target_details(root: &[u8], externals: &Vec<Option<Vec<u8>>>) -> (r: Result<
    TargetDetails,
    DecodeError,
>)
    ensures
        match decode_query(root@) {
            Some(ts) => r matches Ok(d) && details_view(d.target_detail@) == rule_details(ts)
                + fetched_details(fetched_view(externals@)),
            None => r is Err,
        },
{
    let root_query = decode_query_result(root)?;
    let ghost fetched = fetched_view(externals@);
    let mut decoded: Vec<Option<QueryResult>> = Vec::new();
    let mut i: usize = 0;
    while i < externals.len()
        invariant
            i <= externals.len(),
            fetched == fetched_view(externals@),
            decoded@.len() == i,
            external_details(decoded@) == fetched_details(fetched.take(i as int)),
        decreases externals.len() - i,
    {
        assert(fetched.take(i + 1).drop_last() == fetched.take(i as int));
        assert(fetched.take(i + 1).last() == fetched[i as int]);
        let ghost before = decoded@;
        match &externals[i] {
            Some(b) => match decode_query_result(b.as_slice()) {
                Ok(q) => {
                    decoded.push(Some(q));
                },
                Err(_) => {
                    decoded.push(None);
                },
            },
            None => {
                decoded.push(None);
            },
        }
        assert(decoded@.drop_last() == before);
        i = i + 1;
    }
    assert(fetched.take(externals.len() as int) == fetched);
    Ok(create_target_details_message(&root_query, &decoded))
}

} // verus!

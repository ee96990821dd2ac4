use vstd::prelude::*;
use vstd::utf8::{decode_utf8, encode_utf8, valid_utf8};
use crate::rule::{details_view, DetailModel, TargetDetail};
use crate::targets::TargetDetails;
use crate::wire::{
    field, fields, fields_view, lemma_fields_cons, lemma_varint64_decodes, read_fields,
    varint_bytes, write_varint, FieldValue, WireValue,
};

verus! {

/// Bytes that do not decode as the expected message.
#[derive(Clone, Copy, Debug, PartialEq, Eq, Structural)]
pub enum DecodeError {
    Malformed,
}

/// A length-delimited field.
pub open spec fn bytes_field(num: nat, b: Seq<u8>) -> Seq<u8> {
    varint_bytes(num * 8 + 2) + varint_bytes(b.len()) + b
}

/// A varint field.
pub open spec fn varint_field(num: nat, v: nat) -> Seq<u8> {
    varint_bytes(num * 8) + varint_bytes(v)
}

/// A flag on the wire.
pub open spec fn flag(b: bool) -> nat {
    if b {
        1
    } else {
        0
    }
}

/// A summary as a message: label, description, and the two flags.
pub open spec fn encode_detail(d: DetailModel) -> Seq<u8> {
    bytes_field(1, encode_utf8(d.label)) + bytes_field(2, encode_utf8(d.description))
        + varint_field(3, flag(d.is_executable)) + varint_field(4, flag(d.is_test))
}

/// The `targets` dataset: one length-delimited field per summary, in order.
pub open spec fn encode_details(ds: Seq<DetailModel>) -> Seq<u8>
    decreases ds.len(),
{
    if ds.len() == 0 {
        Seq::empty()
    } else {
        bytes_field(1, encode_detail(ds[0])) + encode_details(ds.skip(1))
    }
}

/// A text field holds UTF-8.
pub open spec fn text_of(v: WireValue) -> Option<Seq<char>> {
    match v {
        WireValue::Bytes(b) => if valid_utf8(b) {
            Some(decode_utf8(b))
        } else {
            None
        },
        _ => None,
    }
}

/// A flag field holds a varint; any value but zero is true.
pub open spec fn flag_of(v: WireValue) -> Option<bool> {
    match v {
        WireValue::Varint(x) => Some(x != 0),
        _ => None,
    }
}

/// A summary with one more field read; a later field overrides an earlier
/// one, and unknown fields are passed over.
pub open spec fn apply_detail_field(d: DetailModel, f: (nat, WireValue)) -> Option<DetailModel> {
    if f.0 == 1 {
        match text_of(f.1) {
            Some(s) => Some(DetailModel { label: s, ..d }),
            None => None,
        }
    } else if f.0 == 2 {
        match text_of(f.1) {
            Some(s) => Some(DetailModel { description: s, ..d }),
            None => None,
        }
    } else if f.0 == 3 {
        match flag_of(f.1) {
            Some(x) => Some(DetailModel { is_executable: x, ..d }),
            None => None,
        }
    } else if f.0 == 4 {
        match flag_of(f.1) {
            Some(x) => Some(DetailModel { is_test: x, ..d }),
            None => None,
        }
    } else {
        Some(d)
    }
}

/// Reads the fields `fs` into the summary `d`.
pub open spec fn detail_fold(d: DetailModel, fs: Seq<(nat, WireValue)>) -> Option<DetailModel>
    decreases fs.len(),
{
    if fs.len() == 0 {
        Some(d)
    } else {
        match apply_detail_field(d, fs[0]) {
            Some(e) => detail_fold(e, fs.skip(1)),
            None => None,
        }
    }
}

/// The summary with every field at its default.
pub open spec fn empty_detail() -> DetailModel {
    DetailModel { label: Seq::empty(), description: Seq::empty(), is_executable: false, is_test: false }
}

/// The summary that a message holds.
pub open spec fn decode_detail(b: Seq<u8>) -> Option<DetailModel> {
    match fields(b) {
        Some(fs) => detail_fold(empty_detail(), fs),
        None => None,
    }
}

/// Reads the fields `fs` of the `targets` dataset after the summaries `acc`.
pub open spec fn details_fold(acc: Seq<DetailModel>, fs: Seq<(nat, WireValue)>) -> Option<
    Seq<DetailModel>,
>
    decreases fs.len(),
{
    if fs.len() == 0 {
        Some(acc)
    } else if fs[0].0 == 1 {
        match fs[0].1 {
            WireValue::Bytes(b) => match decode_detail(b) {
                Some(d) => details_fold(acc.push(d), fs.skip(1)),
                None => None,
            },
            _ => None,
        }
    } else {
        details_fold(acc, fs.skip(1))
    }
}

/// The summaries that the `targets` dataset holds.
pub open spec fn decode_details(b: Seq<u8>) -> Option<Seq<DetailModel>> {
    match fields(b) {
        Some(fs) => details_fold(Seq::empty(), fs),
        None => None,
    }
}

fn write_bytes_field(out: &mut Vec<u8>, num: u64, b: &[u8])
    requires
        1 <= num < 0x1000_0000,
    ensures
        final(out)@ == old(out)@ + bytes_field(num as nat, b@),
{
    let _len = b.len();
    write_varint(out, num * 8 + 2);
    write_varint(out, b.len() as u64);
    let ghost mid = out@;
    let mut i: usize = 0;
    while i < b.len()
        invariant
            i <= b@.len(),
            out@ == mid + b@.subrange(0, i as int),
        decreases b@.len() - i,
    {
        out.push(b[i]);
        assert(b@.subrange(0, i + 1) == b@.subrange(0, i as int).push(b@[i as int]));
        i = i + 1;
    }
    assert(b@.subrange(0, b@.len() as int) == b@);
}

fn write_varint_field(out: &mut Vec<u8>, num: u64, v: u64)
    requires
        1 <= num < 0x1000_0000,
    ensures
        final(out)@ == old(out)@ + varint_field(num as nat, v as nat),
{
    write_varint(out, num * 8);
    write_varint(out, v);
}

fn encode_detail_exec(d: &TargetDetail) -> (r: Vec<u8>)
    ensures
        r@ == encode_detail(d@),
{
    let mut out: Vec<u8> = Vec::new();
    write_bytes_field(&mut out, 1, d.label.as_str().as_bytes());
    write_bytes_field(&mut out, 2, d.description.as_str().as_bytes());
    write_varint_field(&mut out, 3, if d.is_executable { 1 } else { 0 });
    write_varint_field(&mut out, 4, if d.is_test { 1 } else { 0 });
    out
}

/// The bytes of the `targets` dataset for `details`.
pub fn encode_target_details(details: &TargetDetails) -> (r: Vec<u8>)
    ensures
        r@ == encode_details(details_view(details.target_detail@)),
{
    let ds = &details.target_detail;
    let ghost all = details_view(ds@);
    let mut out: Vec<u8> = Vec::new();
    let mut i: usize = 0;
    assert(all.skip(0) == all);
    while i < ds.len()
        invariant
            i <= ds.len(),
            all == details_view(ds@),
            out@ + encode_details(all.skip(i as int)) == encode_details(all),
        decreases ds.len() - i,
    {
        let msg = encode_detail_exec(&ds[i]);
        let ghost before = out@;
        assert(all.skip(i as int)[0] == ds@[i as int]@);
        assert(all.skip(i as int).skip(1) == all.skip(i + 1));
        write_bytes_field(&mut out, 1, msg.as_slice());
        assert(before + encode_details(all.skip(i as int)) == out@ + encode_details(
            all.skip(i + 1),
        ));
        i = i + 1;
    }
    assert(encode_details(all.skip(ds.len() as int)) == Seq::<u8>::empty());
    assert(out@ + Seq::<u8>::empty() == out@);
    out
}

/// Relies on `std::str::from_utf8`: it accepts exactly the valid UTF-8
/// sequences, and the text is the one that they encode.
#[verifier::external_body]
fn utf8_string(b: &[u8]) -> (r: Option<String>)
    ensures
        match r {
            Some(s) => valid_utf8(b@) && s@ == decode_utf8(b@),
            None => !valid_utf8(b@),
        },
{
    match std::str::from_utf8(b) {
        Ok(s) => Some(s.to_string()),
        Err(_) => None,
    }
}

/// The text that a field holds, if it holds UTF-8 bytes.
pub(crate) fn text_field(v: &FieldValue) -> (r: Option<String>)
    ensures
        match text_of(field_value_view(v)) {
            Some(t) => r matches Some(s) && s@ == t,
            None => r is None,
        },
{
    match v {
        FieldValue::Bytes(b) => utf8_string(b.as_slice()),
        _ => None,
    }
}

/// The model of a field value.
pub open spec fn field_value_view(v: &FieldValue) -> WireValue {
    match *v {
        FieldValue::Varint(x) => WireValue::Varint(x as nat),
        FieldValue::Bytes(b) => WireValue::Bytes(b@),
        FieldValue::Fixed => WireValue::Fixed,
    }
}

/// The flag that a field holds, if it holds a varint.
pub(crate) fn flag_field(v: &FieldValue) -> (r: Option<bool>)
    ensures
        r == flag_of(field_value_view(v)),
{
    match v {
        FieldValue::Varint(x) => Some(*x != 0),
        _ => None,
    }
}

fn decode_detail_exec(b: &[u8]) -> (r: Result<TargetDetail, DecodeError>)
    ensures
        match decode_detail(b@) {
            Some(d) => r matches Ok(t) && t@ == d,
            None => r is Err,
        },
{
    let fs = match read_fields(b) {
        Some(fs) => fs,
        None => {
            return Err(DecodeError::Malformed);
        },
    };
    let ghost all = fields_view(fs@);
    let mut d = TargetDetail {
        label: String::new(),
        description: String::new(),
        is_executable: false,
        is_test: false,
    };
    let mut i: usize = 0;
    assert(all.skip(0) == all);
    while i < fs.len()
        invariant
            i <= fs.len(),
            all == fields_view(fs@),
            fields(b@) == Some(all),
            detail_fold(empty_detail(), all) == detail_fold(d@, all.skip(i as int)),
        decreases fs.len() - i,
    {
        let f = &fs[i];
        assert(all.skip(i as int)[0] == f@);
        assert(all.skip(i as int).skip(1) == all.skip(i + 1));
        assert(f@.1 == field_value_view(&f.value));
        if f.num == 1 {
            match text_field(&f.value) {
                Some(s) => {
                    d.label = s;
                },
                None => {
                    return Err(DecodeError::Malformed);
                },
            }
        } else if f.num == 2 {
            match text_field(&f.value) {
                Some(s) => {
                    d.description = s;
                },
                None => {
                    return Err(DecodeError::Malformed);
                },
            }
        } else if f.num == 3 {
            match flag_field(&f.value) {
                Some(x) => {
                    d.is_executable = x;
                },
                None => {
                    return Err(DecodeError::Malformed);
                },
            }
        } else if f.num == 4 {
            match flag_field(&f.value) {
                Some(x) => {
                    d.is_test = x;
                },
                None => {
                    return Err(DecodeError::Malformed);
                },
            }
        }
        i = i + 1;
    }
    Ok(d)
}

/// The summaries that the bytes of the `targets` dataset hold.
pub fn decode_target_details(b: &[u8]) -> (r: Result<TargetDetails, DecodeError>)
    ensures
        match decode_details(b@) {
            Some(ds) => r matches Ok(t) && details_view(t.target_detail@) == ds,
            None => r is Err,
        },
{
    let fs = match read_fields(b) {
        Some(fs) => fs,
        None => {
            return Err(DecodeError::Malformed);
        },
    };
    let ghost all = fields_view(fs@);
    let mut out: Vec<TargetDetail> = Vec::new();
    let mut i: usize = 0;
    assert(all.skip(0) == all);
    assert(details_view(out@) == Seq::<DetailModel>::empty());
    while i < fs.len()
        invariant
            i <= fs.len(),
            all == fields_view(fs@),
            fields(b@) == Some(all),
            details_fold(Seq::empty(), all) == details_fold(details_view(out@), all.skip(i as int)),
        decreases fs.len() - i,
    {
        let f = &fs[i];
        assert(all.skip(i as int)[0] == f@);
        assert(all.skip(i as int).skip(1) == all.skip(i + 1));
        if f.num == 1 {
            match &f.value {
                FieldValue::Bytes(m) => {
                    match decode_detail_exec(m.as_slice()) {
                        Ok(d) => {
                            let ghost before = details_view(out@);
                            out.push(d);
                            assert(details_view(out@) == before.push(d@));
                        },
                        Err(e) => {
                            return Err(e);
                        },
                    }
                },
                _ => {
                    return Err(DecodeError::Malformed);
                },
            }
        }
        i = i + 1;
    }
    Ok(TargetDetails { target_detail: out })
}

proof fn lemma_bytes_field(num: nat, b: Seq<u8>, rest: Seq<u8>)
    requires
        1 <= num < 0x1000_0000,
        b.len() <= u64::MAX,
    ensures
        field(bytes_field(num, b) + rest) == Some(
            (num, WireValue::Bytes(b), bytes_field(num, b).len()),
        ),
        bytes_field(num, b).len() > 0,
{
    let tag = num * 8 + 2;
    let t = varint_bytes(tag);
    let l = varint_bytes(b.len());
    let x = bytes_field(num, b) + rest;
    assert(x =~= t + (l + (b + rest)));
    lemma_varint64_decodes(tag, l + (b + rest));
    assert(x.skip(t.len() as int) =~= l + (b + rest));
    lemma_varint64_decodes(b.len(), b + rest);
    assert(tag / 8 == num);
    assert(tag % 8 == 2);
    assert((l + (b + rest)).subrange(l.len() as int, (l.len() + b.len()) as int) =~= b);
}

proof fn lemma_varint_field(num: nat, v: nat, rest: Seq<u8>)
    requires
        1 <= num < 0x1000_0000,
        v <= u64::MAX,
    ensures
        field(varint_field(num, v) + rest) == Some(
            (num, WireValue::Varint(v), varint_field(num, v).len()),
        ),
        varint_field(num, v).len() > 0,
{
    let tag = num * 8;
    let t = varint_bytes(tag);
    let x = varint_field(num, v) + rest;
    assert(x =~= t + (varint_bytes(v) + rest));
    lemma_varint64_decodes(tag, varint_bytes(v) + rest);
    assert(x.skip(t.len() as int) =~= varint_bytes(v) + rest);
    lemma_varint64_decodes(v, rest);
    assert(tag / 8 == num);
    assert(tag % 8 == 0);
}

proof fn lemma_detail_decodes(d: DetailModel)
    requires
        encode_detail(d).len() <= u64::MAX,
    ensures
        decode_detail(encode_detail(d)) == Some(d),
{
    broadcast use vstd::utf8::encode_utf8_valid_utf8, vstd::utf8::encode_utf8_decode_utf8;

    let a = bytes_field(1, encode_utf8(d.label));
    let b = bytes_field(2, encode_utf8(d.description));
    let c = varint_field(3, flag(d.is_executable));
    let e = varint_field(4, flag(d.is_test));
    let empty = Seq::<u8>::empty();
    assert(encode_detail(d) =~= a + (b + (c + (e + empty))));
    lemma_varint_field(4, flag(d.is_test), empty);
    lemma_fields_cons(e, empty, 4, WireValue::Varint(flag(d.is_test)));
    lemma_varint_field(3, flag(d.is_executable), e + empty);
    lemma_fields_cons(c, e + empty, 3, WireValue::Varint(flag(d.is_executable)));
    lemma_bytes_field(2, encode_utf8(d.description), c + (e + empty));
    lemma_fields_cons(b, c + (e + empty), 2, WireValue::Bytes(encode_utf8(d.description)));
    lemma_bytes_field(1, encode_utf8(d.label), b + (c + (e + empty)));
    lemma_fields_cons(a, b + (c + (e + empty)), 1, WireValue::Bytes(encode_utf8(d.label)));
    let fs = seq![
        (1nat, WireValue::Bytes(encode_utf8(d.label))),
        (2nat, WireValue::Bytes(encode_utf8(d.description))),
        (3nat, WireValue::Varint(flag(d.is_executable))),
        (4nat, WireValue::Varint(flag(d.is_test))),
    ];
    assert(fields(encode_detail(d)) == Some(fs)) by {
        assert(fields(empty) == Some(Seq::<(nat, WireValue)>::empty()));
        assert(seq![(4nat, WireValue::Varint(flag(d.is_test)))] + Seq::<(nat, WireValue)>::empty() =~= fs.skip(3));
        assert(seq![(3nat, WireValue::Varint(flag(d.is_executable)))] + fs.skip(3) =~= fs.skip(2));
        assert(seq![(2nat, WireValue::Bytes(encode_utf8(d.description)))] + fs.skip(2) =~= fs.skip(1));
        assert(seq![(1nat, WireValue::Bytes(encode_utf8(d.label)))] + fs.skip(1) =~= fs);
    }
    assert(fs.skip(1).skip(1) =~= fs.skip(2));
    assert(fs.skip(2).skip(1) =~= fs.skip(3));
    assert(fs.skip(3).skip(1) =~= Seq::<(nat, WireValue)>::empty());
    let d1 = DetailModel { label: d.label, ..empty_detail() };
    let d2 = DetailModel { description: d.description, ..d1 };
    let d3 = DetailModel { is_executable: d.is_executable, ..d2 };
    assert(fs.skip(3)[0] == fs[3]);
    assert(fs.skip(2)[0] == fs[2]);
    assert(fs.skip(1)[0] == fs[1]);
    assert(flag(d.is_test) != 0 <==> d.is_test);
    assert(flag(d.is_executable) != 0 <==> d.is_executable);
    assert(detail_fold(DetailModel { is_test: d.is_test, ..d3 }, fs.skip(3).skip(1)) == Some(d));
    assert(detail_fold(d3, fs.skip(3)) == Some(d));
    assert(detail_fold(d2, fs.skip(2)) == Some(d));
    assert(detail_fold(d1, fs.skip(1)) == Some(d));
}

/// The fields of the `targets` dataset for `ds`.
pub open spec fn detail_fields(ds: Seq<DetailModel>) -> Seq<(nat, WireValue)>
    decreases ds.len(),
{
    if ds.len() == 0 {
        Seq::empty()
    } else {
        seq![(1nat, WireValue::Bytes(encode_detail(ds[0])))] + detail_fields(ds.skip(1))
    }
}

proof fn lemma_details_fields(ds: Seq<DetailModel>)
    requires
        encode_details(ds).len() <= u64::MAX,
    ensures
        fields(encode_details(ds)) == Some(detail_fields(ds)),
        forall|i: int| 0 <= i < ds.len() ==> encode_detail(#[trigger] ds[i]).len() <= u64::MAX,
    decreases ds.len(),
{
    if ds.len() > 0 {
        let a = bytes_field(1, encode_detail(ds[0]));
        lemma_details_fields(ds.skip(1));
        lemma_bytes_field(1, encode_detail(ds[0]), encode_details(ds.skip(1)));
        lemma_fields_cons(a, encode_details(ds.skip(1)), 1, WireValue::Bytes(encode_detail(ds[0])));
        assert forall|i: int| 0 <= i < ds.len() implies encode_detail(#[trigger] ds[i]).len()
            <= u64::MAX by {
            if i > 0 {
                assert(ds[i] == ds.skip(1)[i - 1]);
            }
        }
    }
}

proof fn lemma_details_fold(acc: Seq<DetailModel>, ds: Seq<DetailModel>)
    requires
        forall|i: int| 0 <= i < ds.len() ==> encode_detail(#[trigger] ds[i]).len() <= u64::MAX,
    ensures
        details_fold(acc, detail_fields(ds)) == Some(acc + ds),
    decreases ds.len(),
{
    if ds.len() == 0 {
        assert(acc + ds =~= acc);
    } else {
        lemma_detail_decodes(ds[0]);
        assert forall|i: int| 0 <= i < ds.skip(1).len() implies encode_detail(
            #[trigger] ds.skip(1)[i],
        ).len() <= u64::MAX by {
            assert(ds.skip(1)[i] == ds[i + 1]);
        }
        lemma_details_fold(acc.push(ds[0]), ds.skip(1));
        let fs = detail_fields(ds);
        assert(fs.skip(1) =~= detail_fields(ds.skip(1)));
        assert(acc.push(ds[0]) + ds.skip(1) =~= acc + ds);
    }
}

/// Writing summaries to the `targets` dataset and reading them back gives
/// the same summaries, in the same order, duplicates included, wherever the
/// dataset's size fits in 64 bits.
pub proof fn lemma_target_details_round_trip(ds: Seq<DetailModel>)
    requires
        encode_details(ds).len() <= u64::MAX,
    ensures
        decode_details(encode_details(ds)) == Some(ds),
{
    lemma_details_fields(ds);
    lemma_details_fold(Seq::empty(), ds);
    assert(Seq::<DetailModel>::empty() + ds =~= ds);
}

} // verus!

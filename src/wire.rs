use vstd::prelude::*;
use vstd::slice::slice_subrange;

verus! {

/// The value of a base-128 varint of at most `n` bytes at the front of `b`
/// (low groups first, the high bit of a byte marking that more follow), and
/// how many bytes it takes.
pub open spec fn varint(b: Seq<u8>, n: nat) -> Option<(nat, nat)>
    decreases n,
{
    let _len = b.len();
    if n == 0 || b.len() == 0 {
        None
    } else if b[0] < 128 {
        Some((b[0] as nat, 1))
    } else {
        match varint(b.skip(1), (n - 1) as nat) {
            Some((v, k)) => Some(((b[0] - 128) as nat + 128 * v, k + 1)),
            None => None,
        }
    }
}

/// A varint of at most ten bytes whose value fits in 64 bits.
pub open spec fn varint64(b: Seq<u8>) -> Option<(nat, nat)> {
    match varint(b, 10) {
        Some((v, k)) => if v <= u64::MAX {
            Some((v, k))
        } else {
            None
        },
        None => None,
    }
}

/// The shortest varint encoding of `v`.
pub open spec fn varint_bytes(v: nat) -> Seq<u8>
    decreases v,
{
    if v < 128 {
        seq![v as u8]
    } else {
        seq![(v % 128 + 128) as u8] + varint_bytes(v / 128)
    }
}

/// The value of a field on the wire.
pub enum WireValue {
    Varint(nat),
    Bytes(Seq<u8>),
    Fixed,
}

/// The field at the front of `b`: its number, its value and how many bytes
/// it takes. Groups and field number 0 are refused.
pub open spec fn field(b: Seq<u8>) -> Option<(nat, WireValue, nat)> {
    match varint64(b) {
        None => None,
        Some((tag, k)) => {
            let num = tag / 8;
            let wire = tag % 8;
            let rest = b.skip(k as int);
            if num == 0 {
                None
            } else if wire == 0 {
                match varint64(rest) {
                    Some((v, j)) => Some((num, WireValue::Varint(v), k + j)),
                    None => None,
                }
            } else if wire == 1 {
                if 8 <= rest.len() {
                    Some((num, WireValue::Fixed, k + 8))
                } else {
                    None
                }
            } else if wire == 2 {
                match varint64(rest) {
                    Some((l, j)) => if j + l <= rest.len() {
                        Some((num, WireValue::Bytes(rest.subrange(j as int, (j + l) as int)), k + j + l))
                    } else {
                        None
                    },
                    None => None,
                }
            } else if wire == 5 {
                if 4 <= rest.len() {
                    Some((num, WireValue::Fixed, k + 4))
                } else {
                    None
                }
            } else {
                None
            }
        },
    }
}

/// The fields of a message, in order.
pub open spec fn fields(b: Seq<u8>) -> Option<Seq<(nat, WireValue)>>
    decreases b.len(),
{
    if b.len() == 0 {
        Some(Seq::empty())
    } else {
        match field(b) {
            Some((num, v, k)) => if 0 < k <= b.len() {
                match fields(b.skip(k as int)) {
                    Some(rest) => Some(seq![(num, v)] + rest),
                    None => None,
                }
            } else {
                None
            },
            None => None,
        }
    }
}

/// A field as decoded.
pub enum FieldValue {
    Varint(u64),
    Bytes(Vec<u8>),
    Fixed,
}

/// One field of a message.
pub struct Field {
    pub num: u64,
    pub value: FieldValue,
}

impl View for Field {
    type V = (nat, WireValue);

    open spec fn view(&self) -> (nat, WireValue) {
        (
            self.num as nat,
            match self.value {
                FieldValue::Varint(v) => WireValue::Varint(v as nat),
                FieldValue::Bytes(b) => WireValue::Bytes(b@),
                FieldValue::Fixed => WireValue::Fixed,
            },
        )
    }
}

/// The models of a sequence of fields.
pub open spec fn fields_view(v: Seq<Field>) -> Seq<(nat, WireValue)> {
    v.map_values(|f: Field| f@)
}

proof fn lemma_varint_len_bound(b: Seq<u8>, n: nat)
    ensures
        match varint(b, n) {
            Some((v, k)) => 1 <= k <= b.len(),
            None => true,
        },
    decreases n,
{
    if n > 0 && b.len() > 0 && b[0] >= 128 {
        lemma_varint_len_bound(b.skip(1), (n - 1) as nat);
    }
}

/// Relies on protobuf's `CodedInputStream::read_raw_varint64` over `b`: it
/// reads a varint of at most ten bytes, refuses a tenth byte above 1 and a
/// varint cut short, and `pos` then counts the bytes read.
#[verifier::external_body]
fn raw_varint(b: &[u8]) -> (r: Option<(u64, u64)>)
    ensures
        match varint64(b@) {
            Some((v, k)) => r == Some((v as u64, k as u64)),
            None => r is None,
        },
{
    let mut input = protobuf::CodedInputStream::from_bytes(b);
    match input.read_raw_varint64() {
        Ok(v) => Some((v, input.pos())),
        Err(_) => None,
    }
}

/// Reads a varint of at most ten bytes that fits in 64 bits at `pos`: its
/// value and the position after it.
pub fn read_varint(b: &[u8], pos: usize) -> (r: Option<(u64, usize)>)
    requires
        pos <= b@.len(),
    ensures
        match varint64(b@.skip(pos as int)) {
            Some((v, k)) => r == Some((v as u64, (pos + k) as usize)) && pos + k <= b@.len(),
            None => r is None,
        },
{
    let rest = slice_subrange(b, pos, b.len());
    assert(rest@ == b@.skip(pos as int));
    proof {
        lemma_varint_len_bound(rest@, 10);
    }
    match raw_varint(rest) {
        Some((v, k)) => Some((v, pos + k as usize)),
        None => None,
    }
}

/// Relies on protobuf's `CodedOutputStream::write_raw_varint64` on a `Vec`:
/// it appends the shortest varint encoding of `v`; writing to a `Vec` does
/// not fail.
#[verifier::external_body]
pub(crate) fn write_varint(out: &mut Vec<u8>, v: u64)
    ensures
        final(out)@ == old(out)@ + varint_bytes(v as nat),
{
    let mut output = protobuf::CodedOutputStream::vec(out);
    let _written = output.write_raw_varint64(v);
    let _flushed = output.flush();
}

/// Reads the field at `pos`: the field and the position after it.
pub fn read_field(b: &[u8], pos: usize) -> (r: Option<(Field, usize)>)
    requires
        pos <= b@.len(),
    ensures
        match field(b@.skip(pos as int)) {
            Some((num, v, k)) => r matches Some((f, next)) && f@ == (num, v) && next == pos + k
                && next <= b@.len(),
            None => r is None,
        },
{
    let ghost rest = b@.skip(pos as int);
    let _len = b.len();
    let first = read_varint(b, pos);
    if first.is_none() {
        return None;
    }
    let (tag, p) = first.unwrap();
    assert(varint64(b@.skip(pos as int)) is Some);
    assert(first == Some((tag, p)));
    assert(pos <= p <= b@.len());
    let num = tag / 8;
    let wire = tag % 8;
    assert(b@.skip(p as int) =~= rest.skip(p - pos));
    if num == 0 {
        return None;
    }
    if wire == 0 {
        match read_varint(b, p) {
            Some((v, q)) => Some((Field { num, value: FieldValue::Varint(v) }, q)),
            None => None,
        }
    } else if wire == 1 {
        if b.len() - p >= 8 {
            Some((Field { num, value: FieldValue::Fixed }, p + 8))
        } else {
            None
        }
    } else if wire == 2 {
        match read_varint(b, p) {
            Some((l, q)) => {
                if l <= (b.len() - q) as u64 {
                    let len = l as usize;
                    let end = q + len;
                    let mut bytes: Vec<u8> = Vec::new();
                    let mut i: usize = q;
                    while i < end
                        invariant
                            q <= i <= end <= b@.len(),
                            end == q + len,
                            len == l,
                            bytes@ == b@.subrange(q as int, i as int),
                        decreases end - i,
                    {
                        bytes.push(b[i]);
                        assert(b@.subrange(q as int, i + 1) == b@.subrange(q as int, i as int).push(b@[i as int]));
                        i = i + 1;
                    }
                    assert(rest.skip(p - pos).subrange(q - p, q - p + l) =~= b@.subrange(q as int, q + l));
                    Some((Field { num, value: FieldValue::Bytes(bytes) }, end))
                } else {
                    None
                }
            },
            None => None,
        }
    } else if wire == 5 {
        if b.len() - p >= 4 {
            Some((Field { num, value: FieldValue::Fixed }, p + 4))
        } else {
            None
        }
    } else {
        None
    }
}

/// Splits a message into its fields, in order.
pub fn read_fields(b: &[u8]) -> (r: Option<Vec<Field>>)
    ensures
        match fields(b@) {
            Some(fs) => r matches Some(v) && fields_view(v@) == fs,
            None => r is None,
        },
{
    let mut out: Vec<Field> = Vec::new();
    let mut pos: usize = 0;
    assert(b@.skip(0) == b@);
    while pos < b.len()
        invariant
            pos <= b@.len(),
            fields(b@) == match fields(b@.skip(pos as int)) {
                Some(rest) => Some(fields_view(out@) + rest),
                None => None::<Seq<(nat, WireValue)>>,
            },
        decreases b.len() - pos,
    {
        match read_field(b, pos) {
            Some((f, next)) => {
                assert(b@.skip(pos as int).skip(next - pos) == b@.skip(next as int));
                let ghost before = fields_view(out@);
                out.push(f);
                assert(fields_view(out@) == before.push(f@));
                assert(forall|rest: Seq<(nat, WireValue)>|
                    before + (seq![f@] + rest) == before.push(f@) + rest);
                pos = next;
            },
            None => {
                return None;
            },
        }
    }
    assert(b@.skip(pos as int).len() == 0);
    assert(fields_view(out@) + Seq::<(nat, WireValue)>::empty() == fields_view(out@));
    Some(out)
}

/// `128` to the power `k`.
pub open spec fn pow128(k: nat) -> nat
    decreases k,
{
    if k == 0 {
        1
    } else {
        128 * pow128((k - 1) as nat)
    }
}

proof fn lemma_varint_len(v: nat, k: nat)
    requires
        1 <= k,
        v < pow128(k),
    ensures
        varint_bytes(v).len() <= k,
    decreases v,
{
    if v >= 128 {
        assert(k >= 2) by {
            if k == 1 {
                assert(pow128(1) == 128 * pow128(0));
            }
        }
        assert(pow128(k) == 128 * pow128((k - 1) as nat));
        assert(v / 128 < pow128((k - 1) as nat));
        lemma_varint_len(v / 128, (k - 1) as nat);
    }
}

proof fn lemma_varint_decodes(v: nat, rest: Seq<u8>, n: nat)
    requires
        varint_bytes(v).len() <= n,
    ensures
        varint(varint_bytes(v) + rest, n) == Some((v, varint_bytes(v).len())),
    decreases v,
{
    let b = varint_bytes(v) + rest;
    if v < 128 {
        assert(b[0] == v as u8);
    } else {
        lemma_varint_decodes(v / 128, rest, (n - 1) as nat);
        assert(b[0] == (v % 128 + 128) as u8);
        assert(b.skip(1) =~= varint_bytes(v / 128) + rest);
    }
}

/// A varint that fits in 64 bits reads back, whatever follows it.
pub proof fn lemma_varint64_decodes(v: nat, rest: Seq<u8>)
    requires
        v <= u64::MAX,
    ensures
        varint64(varint_bytes(v) + rest) == Some((v, varint_bytes(v).len())),
{
    reveal_with_fuel(pow128, 11);
    assert(u64::MAX < pow128(10));
    lemma_varint_len(v, 10);
    lemma_varint_decodes(v, rest, 10);
}

/// A field at the front of the bytes is followed by the fields of the rest.
pub proof fn lemma_fields_cons(a: Seq<u8>, rest: Seq<u8>, num: nat, v: WireValue)
    requires
        a.len() > 0,
        field(a + rest) == Some((num, v, a.len())),
    ensures
        fields(a + rest) == match fields(rest) {
            Some(fs) => Some(seq![(num, v)] + fs),
            None => None::<Seq<(nat, WireValue)>>,
        },
{
    assert((a + rest).skip(a.len() as int) =~= rest);
}

} // verus!

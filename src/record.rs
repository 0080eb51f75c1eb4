use vstd::prelude::*;
use vstd::utf8::encode_utf8;

use crate::error::{outcome_of, too_small, Outcome, ReadFromBytesError};
use crate::layout::{eff_offset, eff_size, field_end, layout_fits, total_size, FieldOverrides};
use crate::numeric::{lemma_int_of_bytes_range, load_int, width, IntKind};
use crate::layout::{calculate_field_offsets, lemma_offset_depends_on_prefix};
use crate::text::{load_blob, load_text, BytesArray, InlineCString};
use crate::FromBytes;

verus! {

/// The mathematical content of a decodable value.
pub enum ValueModel {
    Int(IntKind, int),
    Bytes(Seq<u8>),
    Text(Seq<char>),
    Record(Seq<FieldModel>),
}

/// The mathematical content of one field of an aggregate.
pub struct FieldModel {
    pub name: Seq<char>,
    pub overrides: FieldOverrides,
    pub value: ValueModel,
}

/// The overrides of each field, in order.
pub open spec fn overrides_of(fs: Seq<FieldModel>) -> Seq<FieldOverrides> {
    Seq::new(fs.len(), |i: int| fs[i].overrides)
}

/// The size that each field's value reports, in order.
pub open spec fn sizes_of(fs: Seq<FieldModel>) -> Seq<usize>
    decreases fs, 0nat,
{
    Seq::new(fs.len(), |i: int| if 0 <= i < fs.len() { size_of(fs[i].value) } else { 0 })
}

/// The size a value reports: an integer's width, a blob's length, the length of a text's
/// UTF-8 encoding, an aggregate's total size (`usize::MAX` where its layout does not fit).
pub open spec fn size_of(v: ValueModel) -> usize
    decreases v, 1nat,
{
    match v {
        ValueModel::Int(k, _) => width(k) as usize,
        ValueModel::Bytes(s) => s.len() as usize,
        ValueModel::Text(t) => encode_utf8(t).len() as usize,
        ValueModel::Record(fs) => record_size(overrides_of(fs), sizes_of(fs)),
    }
}

/// An aggregate's total size given its overrides and its fields' own sizes.
pub open spec fn record_size(o: Seq<FieldOverrides>, own: Seq<usize>) -> usize {
    if layout_fits(o, own) {
        total_size(o, own) as usize
    } else {
        usize::MAX
    }
}

/// Start of field `i` in the fields as they stand.
pub open spec fn span_start(cur: Seq<FieldModel>, i: int) -> nat {
    eff_offset(overrides_of(cur), sizes_of(cur), i)
}

/// End of field `i` in the fields as they stand.
pub open spec fn span_end(cur: Seq<FieldModel>, i: int) -> nat {
    field_end(overrides_of(cur), sizes_of(cur), i)
}

/// `n`, or `usize::MAX` where `n` is beyond it.
pub open spec fn saturate(n: nat) -> nat {
    if n <= usize::MAX {
        n
    } else {
        usize::MAX as nat
    }
}

/// A blob field with a size override: the override is the blob's configured length.
pub open spec fn sized_blob(f: FieldModel) -> bool {
    f.value is Bytes && f.overrides.size is Some
}

/// The state of the fields `fs` and the outcome after fields `0..i` have been decoded in
/// order. The span of each field is worked out anew when its turn comes, from the fields
/// as they stand then (those before it already decoded). A field that ends beyond the
/// buffer fails as too small; a blob with a size override takes that many bytes; any other
/// field decodes from its own sub-slice. The first failure stops the decode.
pub open spec fn decode_prefix(fs: Seq<FieldModel>, b: Seq<u8>, i: int) -> (
    Seq<FieldModel>,
    Outcome,
)
    decreases fs, i,
{
    if i <= 0 || i > fs.len() {
        (fs, Outcome::Done)
    } else {
        let (cur, o) = decode_prefix(fs, b, i - 1);
        let k = i - 1;
        if o != Outcome::Done {
            (cur, o)
        } else if span_end(cur, k) > b.len() {
            (cur, Outcome::TooSmall(saturate(span_end(cur, k)), b.len()))
        } else {
            let sub = b.subrange(span_start(cur, k) as int, span_end(cur, k) as int);
            let (v2, o2) = if sized_blob(fs[k]) {
                let (s2, ob) = load_blob(
                    Seq::new(fs[k].overrides.size.unwrap() as nat, |j: int| 0u8),
                    sub,
                );
                (ValueModel::Bytes(s2), ob)
            } else {
                load_value(fs[k].value, sub)
            };
            (cur.update(k, FieldModel { value: v2, ..fs[k] }), o2)
        }
    }
}

/// What decoding `b` into an aggregate with fields `fs` yields. A buffer shorter than the
/// total size (worked out from the sizes before the call) fails before any field changes.
/// Otherwise the fields decode in order as `decode_prefix` says; fields after the first
/// that fails keep their values.
pub open spec fn load_record(fs: Seq<FieldModel>, b: Seq<u8>) -> (Seq<FieldModel>, Outcome)
    decreases fs, fs.len() + 1,
{
    let o = overrides_of(fs);
    let own = sizes_of(fs);
    if !layout_fits(o, own) {
        (fs, Outcome::TooSmall(usize::MAX as nat, b.len()))
    } else if b.len() < total_size(o, own) {
        (fs, Outcome::TooSmall(total_size(o, own), b.len()))
    } else {
        decode_prefix(fs, b, fs.len() as int)
    }
}

/// What decoding `b` into a value yields: the new value and the outcome.
pub open spec fn load_value(v: ValueModel, b: Seq<u8>) -> (ValueModel, Outcome)
    decreases v, 0int,
{
    match v {
        ValueModel::Int(k, x) => {
            let (y, o) = load_int(k, x, b);
            (ValueModel::Int(k, y), o)
        },
        ValueModel::Bytes(s) => {
            let (s2, o) = load_blob(s, b);
            (ValueModel::Bytes(s2), o)
        },
        ValueModel::Text(t) => {
            let (t2, o) = load_text(t, b);
            (ValueModel::Text(t2), o)
        },
        ValueModel::Record(fs) => {
            let (fs2, o) = load_record(fs, b);
            (ValueModel::Record(fs2), o)
        },
    }
}

/// A decodable value: a fixed-width integer, a byte blob, a text, or an aggregate.
#[derive(Debug, PartialEq, Eq)]
pub enum Value {
    U8(u8),
    U16(u16),
    U32(u32),
    U64(u64),
    U128(u128),
    I8(i8),
    I16(i16),
    I32(i32),
    I64(i64),
    I128(i128),
    Usize(usize),
    Isize(isize),
    Bytes(BytesArray),
    Text(InlineCString),
    Record(Record),
}

/// One field of an aggregate: its name, its declared overrides and its value.
#[derive(Debug, PartialEq, Eq)]
pub struct Field {
    pub name: String,
    pub overrides: FieldOverrides,
    pub value: Value,
}

/// An aggregate: fields in declaration order, laid out one after another unless an
/// override says otherwise.
#[derive(Debug, PartialEq, Eq)]
pub struct Record {
    fields: Vec<Field>,
}

/// The content of a value.
pub open spec fn value_model(v: &Value) -> ValueModel
    decreases v, 1nat,
{
    match v {
        Value::U8(x) => ValueModel::Int(IntKind::U8, *x as int),
        Value::U16(x) => ValueModel::Int(IntKind::U16, *x as int),
        Value::U32(x) => ValueModel::Int(IntKind::U32, *x as int),
        Value::U64(x) => ValueModel::Int(IntKind::U64, *x as int),
        Value::U128(x) => ValueModel::Int(IntKind::U128, *x as int),
        Value::I8(x) => ValueModel::Int(IntKind::I8, *x as int),
        Value::I16(x) => ValueModel::Int(IntKind::I16, *x as int),
        Value::I32(x) => ValueModel::Int(IntKind::I32, *x as int),
        Value::I64(x) => ValueModel::Int(IntKind::I64, *x as int),
        Value::I128(x) => ValueModel::Int(IntKind::I128, *x as int),
        Value::Usize(x) => ValueModel::Int(IntKind::Usize, *x as int),
        Value::Isize(x) => ValueModel::Int(IntKind::Isize, *x as int),
        Value::Bytes(a) => ValueModel::Bytes(a.bytes@),
        Value::Text(t) => ValueModel::Text(t.contents@),
        Value::Record(r) => ValueModel::Record(fields_model(r.spec_fields())),
    }
}

/// The content of each field, in order.
pub open spec fn fields_model(fs: Seq<Field>) -> Seq<FieldModel>
    decreases fs, 0nat,
{
    Seq::new(
        fs.len(),
        |i: int|
            FieldModel {
                name: fs[i].name@,
                overrides: fs[i].overrides,
                value: if 0 <= i < fs.len() {
                    value_model(&fs[i].value)
                } else {
                    ValueModel::Bytes(Seq::empty())
                },
            },
    )
}

impl View for Value {
    type V = ValueModel;

    open spec fn view(&self) -> ValueModel {
        value_model(self)
    }
}

impl View for Record {
    type V = Seq<FieldModel>;

    open spec fn view(&self) -> Seq<FieldModel> {
        fields_model(self.spec_fields())
    }
}

fn layout_inputs(fields: &Vec<Field>) -> (r: (Vec<FieldOverrides>, Vec<usize>))
    ensures
        r.0@ == overrides_of(fields_model(fields@)),
        r.1@ == sizes_of(fields_model(fields@)),
    decreases fields, 0nat,
{
    let ghost fs = fields_model(fields@);
    let mut ovs: Vec<FieldOverrides> = Vec::new();
    let mut own: Vec<usize> = Vec::new();
    let mut i: usize = 0;
    while i < fields.len()
        invariant
            i <= fields@.len(),
            fs == fields_model(fields@),
            ovs@ == overrides_of(fs).subrange(0, i as int),
            own@ == sizes_of(fs).subrange(0, i as int),
        decreases fields@.len() - i,
    {
        let f = &fields[i];
        proof {
            assert(fs[i as int].value == value_model(&fields@[i as int].value));
        }
        ovs.push(f.overrides);
        own.push(value_size(&f.value));
        i = i + 1;
        proof {
            assert(ovs@ =~= overrides_of(fs).subrange(0, i as int));
            assert(own@ =~= sizes_of(fs).subrange(0, i as int));
        }
    }
    assert(ovs@ =~= overrides_of(fs));
    assert(own@ =~= sizes_of(fs));
    (ovs, own)
}

fn value_size(v: &Value) -> (r: usize)
    ensures
        r == size_of(v@),
    decreases v, 1nat,
{
    match v {
        Value::U8(x) => x.bytes_size(),
        Value::U16(x) => x.bytes_size(),
        Value::U32(x) => x.bytes_size(),
        Value::U64(x) => x.bytes_size(),
        Value::U128(x) => x.bytes_size(),
        Value::I8(x) => x.bytes_size(),
        Value::I16(x) => x.bytes_size(),
        Value::I32(x) => x.bytes_size(),
        Value::I64(x) => x.bytes_size(),
        Value::I128(x) => x.bytes_size(),
        Value::Usize(x) => x.bytes_size(),
        Value::Isize(x) => x.bytes_size(),
        Value::Bytes(a) => a.bytes_size(),
        Value::Text(t) => t.bytes_size(),
        Value::Record(rec) => {
            let (ovs, own) = layout_inputs(&rec.fields);
            match calculate_field_offsets(ovs.as_slice(), own.as_slice()) {
                None => usize::MAX,
                Some(lay) => {
                    let n = lay.len();
                    if n == 0 {
                        0
                    } else {
                        assert(field_end(ovs@, own@, n - 1) <= usize::MAX);
                        lay[n - 1].0 + lay[n - 1].1
                    }
                },
            }
        },
    }
}

/// The bytes of `b` from `start` up to `end`.
fn slice_range(b: &[u8], start: usize, end: usize) -> (r: &[u8])
    requires
        start <= end <= b@.len(),
    ensures
        r@ == b@.subrange(start as int, end as int),
{
    vstd::slice::slice_subrange(b, start, end)
}

proof fn lemma_fields_model_append(a: Seq<Field>, c: Seq<Field>)
    ensures
        fields_model(a + c) =~= fields_model(a) + fields_model(c),
{
    assert forall|j: int| 0 <= j < a.len() + c.len() implies #[trigger] fields_model(a + c)[j] == (
    fields_model(a) + fields_model(c))[j] by {
        if j < a.len() {
            assert((a + c)[j] == a[j]);
        } else {
            assert((a + c)[j] == c[j - a.len()]);
        }
    }
}

proof fn lemma_fields_model_subrange(a: Seq<Field>, s: int, e: int)
    requires
        0 <= s <= e <= a.len(),
    ensures
        fields_model(a.subrange(s, e)) =~= fields_model(a).subrange(s, e),
{
    assert forall|j: int| 0 <= j < e - s implies #[trigger] fields_model(a.subrange(s, e))[j]
        == fields_model(a).subrange(s, e)[j] by {
        assert(a.subrange(s, e)[j] == a[s + j]);
    }
}

fn load_value_exec(v: &mut Value, b: &[u8]) -> (r: Result<(), ReadFromBytesError>)
    ensures
        (final(v)@, outcome_of(r)) == load_value(old(v)@, b@),
    decreases *old(v), 1nat,
{
    let mut taken = Value::U8(0);
    core::mem::swap(v, &mut taken);
    match taken {
        Value::U8(mut x) => {
            proof {
                if b@.len() >= width(IntKind::U8) {
                    lemma_int_of_bytes_range(IntKind::U8, b@);
                }
            }
            let r = x.load_from_bytes(b);
            *v = Value::U8(x);
            r
        },
        Value::U16(mut x) => {
            proof {
                if b@.len() >= width(IntKind::U16) {
                    lemma_int_of_bytes_range(IntKind::U16, b@);
                }
            }
            let r = x.load_from_bytes(b);
            *v = Value::U16(x);
            r
        },
        Value::U32(mut x) => {
            proof {
                if b@.len() >= width(IntKind::U32) {
                    lemma_int_of_bytes_range(IntKind::U32, b@);
                }
            }
            let r = x.load_from_bytes(b);
            *v = Value::U32(x);
            r
        },
        Value::U64(mut x) => {
            proof {
                if b@.len() >= width(IntKind::U64) {
                    lemma_int_of_bytes_range(IntKind::U64, b@);
                }
            }
            let r = x.load_from_bytes(b);
            *v = Value::U64(x);
            r
        },
        Value::U128(mut x) => {
            proof {
                if b@.len() >= width(IntKind::U128) {
                    lemma_int_of_bytes_range(IntKind::U128, b@);
                }
            }
            let r = x.load_from_bytes(b);
            *v = Value::U128(x);
            r
        },
        Value::I8(mut x) => {
            proof {
                if b@.len() >= width(IntKind::I8) {
                    lemma_int_of_bytes_range(IntKind::I8, b@);
                }
            }
            let r = x.load_from_bytes(b);
            *v = Value::I8(x);
            r
        },
        Value::I16(mut x) => {
            proof {
                if b@.len() >= width(IntKind::I16) {
                    lemma_int_of_bytes_range(IntKind::I16, b@);
                }
            }
            let r = x.load_from_bytes(b);
            *v = Value::I16(x);
            r
        },
        Value::I32(mut x) => {
            proof {
                if b@.len() >= width(IntKind::I32) {
                    lemma_int_of_bytes_range(IntKind::I32, b@);
                }
            }
            let r = x.load_from_bytes(b);
            *v = Value::I32(x);
            r
        },
        Value::I64(mut x) => {
            proof {
                if b@.len() >= width(IntKind::I64) {
                    lemma_int_of_bytes_range(IntKind::I64, b@);
                }
            }
            let r = x.load_from_bytes(b);
            *v = Value::I64(x);
            r
        },
        Value::I128(mut x) => {
            proof {
                if b@.len() >= width(IntKind::I128) {
                    lemma_int_of_bytes_range(IntKind::I128, b@);
                }
            }
            let r = x.load_from_bytes(b);
            *v = Value::I128(x);
            r
        },
        Value::Usize(mut x) => {
            proof {
                if b@.len() >= width(IntKind::Usize) {
                    lemma_int_of_bytes_range(IntKind::Usize, b@);
                }
            }
            let r = x.load_from_bytes(b);
            *v = Value::Usize(x);
            r
        },
        Value::Isize(mut x) => {
            proof {
                if b@.len() >= width(IntKind::Isize) {
                    lemma_int_of_bytes_range(IntKind::Isize, b@);
                }
            }
            let r = x.load_from_bytes(b);
            *v = Value::Isize(x);
            r
        },
        Value::Bytes(mut a) => {
            let r = a.load_from_bytes(b);
            *v = Value::Bytes(a);
            r
        },
        Value::Text(mut t) => {
            let r = t.load_from_bytes(b);
            *v = Value::Text(t);
            r
        },
        Value::Record(mut rec) => {
            let r = load_fields(&mut rec.fields, b);
            *v = Value::Record(rec);
            r
        },
    }
}

/// Decoding leaves the number of fields, their overrides and the fields not yet reached
/// as they were.
pub proof fn lemma_prefix_shape(fs: Seq<FieldModel>, b: Seq<u8>, i: int)
    requires
        0 <= i <= fs.len(),
    ensures
        decode_prefix(fs, b, i).0.len() == fs.len(),
        overrides_of(decode_prefix(fs, b, i).0) =~= overrides_of(fs),
        forall|j: int| i <= j < fs.len() ==> #[trigger] decode_prefix(fs, b, i).0[j] == fs[j],
    decreases i,
{
    if i > 0 {
        lemma_prefix_shape(fs, b, i - 1);
    }
}

/// A field keeps, through the rest of the decode, the value its own turn gave it.
pub proof fn lemma_prefix_keeps(fs: Seq<FieldModel>, b: Seq<u8>, k: int, m: int)
    requires
        0 <= k < m <= fs.len(),
    ensures
        decode_prefix(fs, b, m).0[k] == decode_prefix(fs, b, k + 1).0[k],
    decreases m,
{
    if m > k + 1 {
        lemma_prefix_keeps(fs, b, k, m - 1);
        lemma_prefix_shape(fs, b, m - 1);
    }
}

/// Once a field has failed, decoding goes no further.
pub proof fn lemma_failure_persists(fs: Seq<FieldModel>, b: Seq<u8>, i: int, m: int)
    requires
        0 <= i <= m <= fs.len(),
        decode_prefix(fs, b, i).1 != Outcome::Done,
    ensures
        decode_prefix(fs, b, m) == decode_prefix(fs, b, i),
    decreases m - i,
{
    if i < m {
        lemma_failure_persists(fs, b, i, m - 1);
    }
}

#[verifier::rlimit(80)]
fn load_fields(fields: &mut Vec<Field>, b: &[u8]) -> (r: Result<(), ReadFromBytesError>)
    ensures
        (fields_model(final(fields)@), outcome_of(r)) == load_record(fields_model(old(fields)@), b@),
    decreases *old(fields), 0nat,
{
    let ghost fs0 = fields_model(fields@);
    let ghost old_fields = fields@;
    let n = fields.len();
    let (ovs, own) = layout_inputs(fields);
    let lay = match calculate_field_offsets(ovs.as_slice(), own.as_slice()) {
        None => {
            return too_small(usize::MAX, b.len());
        },
        Some(l) => l,
    };
    let total = if n == 0 {
        0
    } else {
        assert(field_end(ovs@, own@, n - 1) <= usize::MAX);
        lay[n - 1].0 + lay[n - 1].1
    };
    if b.len() < total {
        return too_small(total, b.len());
    }
    let mut rest: Vec<Field> = Vec::new();
    core::mem::swap(fields, &mut rest);
    let mut result: Result<(), ReadFromBytesError> = Ok(());
    let mut stopped = false;
    let mut i: usize = 0;
    let mut prev_off: usize = 0;
    let mut prev_size: usize = 0;
    let ghost mut cur = fs0;
    proof {
        lemma_prefix_shape(fs0, b@, 0);
    }
    while i < n && !stopped
        invariant
            n == fs0.len(),
            n == old_fields.len(),
            old_fields == old(fields)@,
            fs0 == fields_model(old_fields),
            i <= n,
            fields@.len() == i,
            rest@ == old_fields.subrange(i as int, n as int),
            cur.len() == n,
            fields_model(fields@) == cur.subrange(0, i as int),
            forall|j: int| i <= j < n ==> cur[j] == fs0[j],
            overrides_of(cur) == overrides_of(fs0),
            !stopped ==> decode_prefix(fs0, b@, i as int) == (cur, Outcome::Done),
            !stopped ==> result is Ok,
            stopped ==> decode_prefix(fs0, b@, n as int) == (cur, outcome_of(result)),
            !stopped && i > 0 ==> prev_off as nat == span_start(cur, i - 1),
            !stopped && i > 0 ==> prev_size as nat == eff_size(
                overrides_of(cur),
                sizes_of(cur),
                i - 1,
            ),
        decreases n - i,
    {
        let mut f = rest.remove(0);
        let ghost fi = f;
        let ghost ii = i as int;
        assert(fi == old_fields[ii]);
        assert(cur[ii] == fs0[ii]);
        assert(fs0[ii].value == value_model(&fi.value));
        assert(overrides_of(cur)[ii] == fi.overrides);
        let own_size = value_size(&f.value);
        assert(sizes_of(cur)[ii] == own_size);
        let size = match f.overrides.size {
            Some(s) => s,
            None => own_size,
        };
        let mut fits = true;
        let mut offset: usize = 0;
        match f.overrides.offset {
            Some(x) => {
                offset = x;
            },
            None => {
                if i > 0 {
                    if prev_off > usize::MAX - prev_size {
                        fits = false;
                    } else {
                        offset = prev_off + prev_size;
                    }
                }
            },
        }
        assert(fits ==> offset as nat == span_start(cur, ii));
        assert(!fits ==> span_start(cur, ii) > usize::MAX);
        assert(size as nat == eff_size(overrides_of(cur), sizes_of(cur), ii));
        let ghost pre = fields@;
        if !fits || offset > usize::MAX - size {
            result = too_small(usize::MAX, b.len());
            stopped = true;
            fields.push(f);
            proof {
                lemma_failure_persists(fs0, b@, ii + 1, n as int);
            }
        } else if offset + size > b.len() {
            result = too_small(offset + size, b.len());
            stopped = true;
            fields.push(f);
            proof {
                lemma_failure_persists(fs0, b@, ii + 1, n as int);
            }
        } else {
            let sub = slice_range(b, offset, offset + size);
            let sized: Option<usize> = match &f.value {
                Value::Bytes(_) => f.overrides.size,
                _ => None,
            };
            let r = match sized {
                Some(s) => {
                    let mut a = BytesArray::with_size(s);
                    assert(a@ =~= Seq::new(s as nat, |j: int| 0u8));
                    let r = a.load_from_bytes(sub);
                    f.value = Value::Bytes(a);
                    r
                },
                None => {
                    proof {
                        vstd::std_specs::vec::axiom_vec_index_decreases(*old(fields), ii);
                        assert(decreases_to!(fi => fi.value));
                    }
                    load_value_exec(&mut f.value, sub)
                },
            };
            let new_size = value_size(&f.value);
            let ghost old_cur = cur;
            proof {
                cur = cur.update(ii, FieldModel { value: value_model(&f.value), ..fs0[ii] });
                assert(sizes_of(cur)[ii] == new_size);
                assert(overrides_of(cur) =~= overrides_of(old_cur));
                assert forall|j: int| 0 <= j < ii implies sizes_of(cur)[j] == sizes_of(old_cur)[j] by {
                    assert(cur[j] == old_cur[j]);
                }
                lemma_offset_depends_on_prefix(overrides_of(cur), sizes_of(cur), sizes_of(old_cur), ii);
            }
            prev_off = offset;
            prev_size = match f.overrides.size {
                Some(s) => s,
                None => new_size,
            };
            fields.push(f);
            if r.is_err() {
                result = r;
                stopped = true;
                proof {
                    lemma_failure_persists(fs0, b@, ii + 1, n as int);
                }
            }
        }
        proof {
            assert(fields@ == pre + seq![f]);
            lemma_fields_model_append(pre, seq![f]);
            assert(fields_model(seq![f]) =~= seq![cur[ii]]);
            assert(fields_model(fields@) =~= cur.subrange(0, ii + 1));
        }
        i = i + 1;
    }
    let ghost pre = fields@;
    fields.append(&mut rest);
    proof {
        assert(fields@ == pre + old_fields.subrange(i as int, n as int));
        lemma_fields_model_append(pre, old_fields.subrange(i as int, n as int));
        lemma_fields_model_subrange(old_fields, i as int, n as int);
        assert(fields_model(fields@) =~= cur);
    }
    result
}

impl FromBytes for Value {
    open spec fn spec_size(v: ValueModel) -> nat {
        size_of(v) as nat
    }

    open spec fn spec_load(v: ValueModel, bytes: Seq<u8>) -> (ValueModel, Outcome) {
        load_value(v, bytes)
    }

    fn load_from_bytes(&mut self, bytes: &[u8]) -> (r: Result<(), ReadFromBytesError>) {
        load_value_exec(self, bytes)
    }

    fn bytes_size(&self) -> (r: usize) {
        value_size(self)
    }
}

impl FromBytes for Record {
    open spec fn spec_size(fs: Seq<FieldModel>) -> nat {
        size_of(ValueModel::Record(fs)) as nat
    }

    open spec fn spec_load(fs: Seq<FieldModel>, bytes: Seq<u8>) -> (Seq<FieldModel>, Outcome) {
        load_record(fs, bytes)
    }

    fn load_from_bytes(&mut self, bytes: &[u8]) -> (r: Result<(), ReadFromBytesError>) {
        load_fields(&mut self.fields, bytes)
    }

    fn bytes_size(&self) -> (r: usize) {
        let (ovs, own) = layout_inputs(&self.fields);
        match calculate_field_offsets(ovs.as_slice(), own.as_slice()) {
            None => usize::MAX,
            Some(lay) => {
                let n = lay.len();
                if n == 0 {
                    0
                } else {
                    assert(field_end(ovs@, own@, n - 1) <= usize::MAX);
                    lay[n - 1].0 + lay[n - 1].1
                }
            },
        }
    }
}

impl Field {
    /// A field with no overrides.
    pub fn new(name: String, value: Value) -> (r: Field)
        ensures
            r.name@ == name@,
            r.overrides == (FieldOverrides { size: None, offset: None }),
            r.value@ == value@,
    {
        Field { name, overrides: FieldOverrides { size: None, offset: None }, value }
    }

    /// The same field with an explicit size.
    pub fn with_size(self, size: usize) -> (r: Field)
        ensures
            r.name@ == self.name@,
            r.overrides == (FieldOverrides { size: Some(size), ..self.overrides }),
            r.value@ == self.value@,
    {
        Field { overrides: FieldOverrides { size: Some(size), ..self.overrides }, ..self }
    }

    /// The same field with an explicit offset.
    pub fn with_offset(self, offset: usize) -> (r: Field)
        ensures
            r.name@ == self.name@,
            r.overrides == (FieldOverrides { offset: Some(offset), ..self.overrides }),
            r.value@ == self.value@,
    {
        Field { overrides: FieldOverrides { offset: Some(offset), ..self.overrides }, ..self }
    }
}

impl Record {
    /// The fields, in declaration order.
    pub closed spec fn spec_fields(&self) -> Seq<Field> {
        self.fields@
    }

    /// The fields, in declaration order.
    pub fn fields(&self) -> (r: &Vec<Field>)
        ensures
            r@ == self.spec_fields(),
    {
        &self.fields
    }
    /// An aggregate of the given fields; `None` where there are none, since an aggregate
    /// without fields has no total size.
    pub fn new(fields: Vec<Field>) -> (r: Option<Record>)
        ensures
            r is Some <==> fields@.len() > 0,
            r matches Some(rec) ==> rec.spec_fields() == fields@,
    {
        if fields.len() == 0 {
            None
        } else {
            Some(Record { fields })
        }
    }

    /// The resolved (offset, size) of each field from the fields' current sizes, or `None`
    /// where some field would end beyond what a `usize` can hold.
    pub fn layout(&self) -> (r: Option<Vec<(usize, usize)>>)
        ensures
            r is Some <==> layout_fits(overrides_of(self@), sizes_of(self@)),
            r matches Some(l) ==> {
                &&& l@.len() == self@.len()
                &&& forall|i: int|
                    0 <= i < l@.len() ==> (#[trigger] l@[i].0 as nat) == eff_offset(
                        overrides_of(self@),
                        sizes_of(self@),
                        i,
                    ) && (l@[i].1 as nat) == eff_size(overrides_of(self@), sizes_of(self@), i)
            },
    {
        let (ovs, own) = layout_inputs(&self.fields);
        calculate_field_offsets(ovs.as_slice(), own.as_slice())
    }
}

} // verus!

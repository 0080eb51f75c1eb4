use vstd::prelude::*;

use crate::error::Outcome;
use crate::layout::{
    eff_offset, eff_size, field_end, layout_fits, lemma_sequential_layout, no_overrides, prefix_sum, total_size,
};
use crate::numeric::{load_int, width, IntKind};
use crate::record::{
    decode_prefix, lemma_failure_persists, lemma_prefix_keeps, lemma_prefix_shape, load_record,
    load_value, overrides_of, size_of, sized_blob, sizes_of, span_end, span_start, FieldModel,
    ValueModel,
};

verus! {

/// An integer decodes from exactly its width in bytes, and a slice one byte shorter fails
/// as too small, reporting the width and the slice's length.
pub proof fn lemma_int_exact_width(k: IntKind, x: int, b: Seq<u8>)
    ensures
        b.len() == width(k) ==> load_int(k, x, b).1 == Outcome::Done,
        b.len() + 1 == width(k) ==> load_int(k, x, b) == (
            x,
            Outcome::TooSmall(width(k), (width(k) - 1) as nat),
        ),
{
}

/// A buffer shorter than an aggregate's total size fails as too small, reporting that size
/// and the buffer's length, and leaves every field as it was.
pub proof fn lemma_short_buffer(fs: Seq<FieldModel>, b: Seq<u8>)
    requires
        b.len() < size_of(ValueModel::Record(fs)),
    ensures
        load_record(fs, b) == (
            fs,
            Outcome::TooSmall(size_of(ValueModel::Record(fs)) as nat, b.len()),
        ),
{
    let o = overrides_of(fs);
    let own = sizes_of(fs);
    if layout_fits(o, own) {
        if fs.len() > 0 {
            assert(field_end(o, own, fs.len() - 1) <= usize::MAX);
        }
    }
}

/// Where an aggregate decodes completely, a field that is itself an aggregate holds what
/// decoding it alone from its own sub-slice gives, the sub-slice being worked out when its
/// turn came (from the fields before it as decoded).
pub proof fn lemma_nested_decode(fs: Seq<FieldModel>, b: Seq<u8>, i: int)
    requires
        0 <= i < fs.len(),
        load_record(fs, b).1 == Outcome::Done,
        fs[i].value is Record,
    ensures
        span_end(decode_prefix(fs, b, i).0, i) <= b.len(),
        load_record(fs, b).0[i].value == load_value(
            fs[i].value,
            b.subrange(
                span_start(decode_prefix(fs, b, i).0, i) as int,
                span_end(decode_prefix(fs, b, i).0, i) as int,
            ),
        ).0,
{
    let n = fs.len() as int;
    if decode_prefix(fs, b, i).1 != Outcome::Done {
        lemma_failure_persists(fs, b, i, n);
    }
    if decode_prefix(fs, b, i + 1).1 != Outcome::Done {
        lemma_failure_persists(fs, b, i + 1, n);
    }
    lemma_prefix_keeps(fs, b, i, n);
    lemma_prefix_shape(fs, b, i);
}

/// Decoding `b` into `v` leaves the sizes that every aggregate's layout reads as they were,
/// at every depth of nesting.
pub open spec fn sizes_stable(v: ValueModel, b: Seq<u8>) -> bool
    decreases v, 0nat,
{
    match v {
        ValueModel::Record(fs) => {
            &&& sizes_of(load_record(fs, b).0) == sizes_of(fs)
            &&& fields_stable(fs, b, 0)
        },
        _ => true,
    }
}

/// Every field from the `i`-th on that lies within `b` is `sizes_stable` on its sub-slice.
pub open spec fn fields_stable(fs: Seq<FieldModel>, b: Seq<u8>, i: int) -> bool
    decreases fs, fs.len() - i,
{
    if i < 0 || i >= fs.len() {
        true
    } else {
        &&& (span_end(fs, i) <= b.len() ==> sizes_stable(
            fs[i].value,
            b.subrange(span_start(fs, i) as int, span_end(fs, i) as int),
        ))
        &&& fields_stable(fs, b, i + 1)
    }
}

proof fn lemma_fields_stable(fs: Seq<FieldModel>, b: Seq<u8>, s: int, i: int)
    requires
        0 <= s <= i < fs.len(),
        fields_stable(fs, b, s),
        span_end(fs, i) <= b.len(),
    ensures
        sizes_stable(fs[i].value, b.subrange(span_start(fs, i) as int, span_end(fs, i) as int)),
    decreases i - s,
{
    if s < i {
        lemma_fields_stable(fs, b, s + 1, i);
    }
}

/// Decoding the same buffer a second time into the value that a successful decode left
/// gives that value again, wherever the first decode kept the sizes that layouts read.
pub proof fn lemma_idempotent(v: ValueModel, b: Seq<u8>)
    requires
        load_value(v, b).1 == Outcome::Done,
        sizes_stable(v, b),
    ensures
        load_value(load_value(v, b).0, b) == (load_value(v, b).0, Outcome::Done),
    decreases v, 0int,
{
    if let ValueModel::Record(fs) = v {
        lemma_idempotent_record(fs, b);
    }
}

/// In a complete decode whose sizes stay as they were, each field's turn sees the layout
/// of `fs` itself.
proof fn lemma_step_spans(fs: Seq<FieldModel>, b: Seq<u8>, k: int)
    requires
        0 <= k < fs.len(),
        load_record(fs, b).1 == Outcome::Done,
        sizes_of(load_record(fs, b).0) == sizes_of(fs),
    ensures
        decode_prefix(fs, b, k).1 == Outcome::Done,
        decode_prefix(fs, b, k + 1).1 == Outcome::Done,
        span_start(decode_prefix(fs, b, k).0, k) == span_start(fs, k),
        span_end(decode_prefix(fs, b, k).0, k) == span_end(fs, k),
        load_record(fs, b).0[k] == decode_prefix(fs, b, k + 1).0[k],
{
    let n = fs.len() as int;
    let cur = decode_prefix(fs, b, k).0;
    let fin = load_record(fs, b).0;
    if decode_prefix(fs, b, k).1 != Outcome::Done {
        lemma_failure_persists(fs, b, k, n);
    }
    if decode_prefix(fs, b, k + 1).1 != Outcome::Done {
        lemma_failure_persists(fs, b, k + 1, n);
    }
    lemma_prefix_keeps(fs, b, k, n);
    lemma_prefix_shape(fs, b, k);
    lemma_prefix_shape(fs, b, n);
    assert forall|j: int| 0 <= j < fs.len() implies sizes_of(cur)[j] == sizes_of(fs)[j] by {
        if j < k {
            lemma_prefix_keeps(fs, b, j, k);
            lemma_prefix_keeps(fs, b, j, n);
            assert(sizes_of(fin)[j] == sizes_of(fs)[j]);
        } else {
            assert(cur[j] == fs[j]);
        }
    }
    assert(sizes_of(cur) =~= sizes_of(fs));
}

#[verifier::rlimit(60)]
proof fn lemma_idempotent_record(fs: Seq<FieldModel>, b: Seq<u8>)
    requires
        load_record(fs, b).1 == Outcome::Done,
        sizes_stable(ValueModel::Record(fs), b),
    ensures
        load_record(load_record(fs, b).0, b) == (load_record(fs, b).0, Outcome::Done),
    decreases fs, fs.len() + 1,
{
    let n = fs.len() as int;
    let fs1 = load_record(fs, b).0;
    lemma_prefix_shape(fs, b, n);
    assert(sizes_of(fs1) == sizes_of(fs));
    assert(overrides_of(fs1) == overrides_of(fs));
    lemma_second_pass(fs, b, n);
}

#[verifier::rlimit(60)]
proof fn lemma_second_pass(fs: Seq<FieldModel>, b: Seq<u8>, m: int)
    requires
        0 <= m <= fs.len(),
        load_record(fs, b).1 == Outcome::Done,
        sizes_stable(ValueModel::Record(fs), b),
        load_record(fs, b).0.len() == fs.len(),
        overrides_of(load_record(fs, b).0) == overrides_of(fs),
    ensures
        decode_prefix(load_record(fs, b).0, b, m) == (load_record(fs, b).0, Outcome::Done),
    decreases fs, m,
{
    let fs1 = load_record(fs, b).0;
    if m > 0 {
        lemma_second_pass(fs, b, m - 1);
        let k = m - 1;
        lemma_step_spans(fs, b, k);
        assert(span_start(fs1, k) == span_start(fs, k));
        assert(span_end(fs1, k) == span_end(fs, k));
        let sub = b.subrange(span_start(fs, k) as int, span_end(fs, k) as int);
        lemma_prefix_shape(fs, b, k);
        let cur = decode_prefix(fs, b, k).0;
        assert(cur[k] == fs[k]);
        assert(span_end(cur, k) <= b.len());
        if sized_blob(fs[k]) {
            assert(fs1[k].value is Bytes);
            assert(sized_blob(fs1[k]));
        } else {
            lemma_fields_stable(fs, b, 0, k);
            lemma_idempotent(fs[k].value, sub);
            assert(fs1[k].value == load_value(fs[k].value, sub).0);
            assert(!sized_blob(fs1[k]));
            assert(load_value(fs1[k].value, sub) == (fs1[k].value, Outcome::Done));
        }
        assert(fs1[k].overrides == fs[k].overrides);
        assert(decode_prefix(fs1, b, m).0 =~= fs1);
    }
}
/// An aggregate without overrides whose fields' sizes add up to at most `usize::MAX`
/// reports that sum as its size.
pub proof fn lemma_record_size_is_sum(fs: Seq<FieldModel>)
    requires
        fs.len() > 0,
        no_overrides(overrides_of(fs)),
        prefix_sum(sizes_of(fs), fs.len() as int) <= usize::MAX,
    ensures
        size_of(ValueModel::Record(fs)) as nat == prefix_sum(sizes_of(fs), fs.len() as int),
{
    let o = overrides_of(fs);
    let own = sizes_of(fs);
    lemma_sequential_layout(o, own);
    assert forall|i: int| 0 <= i < o.len() implies #[trigger] field_end(o, own, i) <= usize::MAX by {
        assert(o[i].size is None);
        assert(eff_offset(o, own, i) == prefix_sum(own, i));
        assert(eff_size(o, own, i) == own[i] as nat);
        assert(field_end(o, own, i) == prefix_sum(own, i + 1));
        lemma_prefix_sum_monotone(own, i + 1, fs.len() as int);
    }
}

proof fn lemma_prefix_sum_monotone(own: Seq<usize>, i: int, j: int)
    requires
        0 <= i <= j,
    ensures
        prefix_sum(own, i) <= prefix_sum(own, j),
    decreases j - i,
{
    if i < j {
        lemma_prefix_sum_monotone(own, i, j - 1);
    }
}

} // verus!

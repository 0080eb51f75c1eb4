use vstd::prelude::*;

verus! {

/// The overrides declared on one field of an aggregate: an explicit size and an explicit
/// offset from the start of the aggregate, each optional.
#[derive(Clone, Copy, Debug, PartialEq, Eq)]
pub struct FieldOverrides {
    pub size: Option<usize>,
    pub offset: Option<usize>,
}

/// Effective size of field `i`: its size override, else the size the field reports.
pub open spec fn eff_size(o: Seq<FieldOverrides>, own: Seq<usize>, i: int) -> nat {
    match o[i].size {
        Some(s) => s as nat,
        None => own[i] as nat,
    }
}

/// Effective offset of field `i`: its offset override, else where the previous field ends
/// (0 for the first field).
pub open spec fn eff_offset(o: Seq<FieldOverrides>, own: Seq<usize>, i: int) -> nat
    decreases i, 0nat,
{
    match o[i].offset {
        Some(x) => x as nat,
        None => if i <= 0 {
            0
        } else {
            field_end(o, own, i - 1)
        },
    }
}

/// Where field `i` ends: its effective offset plus its effective size.
pub open spec fn field_end(o: Seq<FieldOverrides>, own: Seq<usize>, i: int) -> nat
    decreases i, 1nat,
{
    eff_offset(o, own, i) + eff_size(o, own, i)
}

/// Total size of an aggregate: where its last field ends.
pub open spec fn total_size(o: Seq<FieldOverrides>, own: Seq<usize>) -> nat {
    if o.len() == 0 {
        0
    } else {
        field_end(o, own, o.len() - 1)
    }
}

/// Every field ends at a position that a `usize` can hold.
pub open spec fn layout_fits(o: Seq<FieldOverrides>, own: Seq<usize>) -> bool {
    forall|i: int| 0 <= i < o.len() ==> #[trigger] field_end(o, own, i) <= usize::MAX
}

/// Resolves the (offset, size) of every field in one left-to-right pass, or `None` where
/// some field would end beyond what a `usize` can hold.
pub fn calculate_field_offsets(overrides: &[FieldOverrides], own: &[usize]) -> (r: Option<
    Vec<(usize, usize)>,
>)
    requires
        overrides@.len() == own@.len(),
    ensures
        r is Some <==> layout_fits(overrides@, own@),
        r matches Some(l) ==> {
            &&& l@.len() == overrides@.len()
            &&& forall|i: int|
                0 <= i < l@.len() ==> (#[trigger] l@[i].0 as nat) == eff_offset(overrides@, own@, i)
                    && (l@[i].1 as nat) == eff_size(overrides@, own@, i)
        },
{
    let n = overrides.len();
    let mut res: Vec<(usize, usize)> = Vec::with_capacity(n);
    let mut last_offset: usize = 0;
    let mut last_size: usize = 0;
    let mut i: usize = 0;
    while i < n
        invariant
            n == overrides@.len(),
            n == own@.len(),
            i <= n,
            res@.len() == i,
            forall|j: int| 0 <= j < i ==> #[trigger] field_end(overrides@, own@, j) <= usize::MAX,
            forall|j: int|
                0 <= j < i ==> #[trigger] res@[j] == (
                    eff_offset(overrides@, own@, j) as usize,
                    eff_size(overrides@, own@, j) as usize,
                ) && (res@[j].0 as nat) == eff_offset(overrides@, own@, j) && (res@[j].1 as nat)
                    == eff_size(overrides@, own@, j),
            i > 0 ==> last_offset as nat == eff_offset(overrides@, own@, i - 1),
            i > 0 ==> last_size as nat == eff_size(overrides@, own@, i - 1),
            i == 0 ==> last_offset == 0 && last_size == 0,
        decreases n - i,
    {
        let size = match overrides[i].size {
            Some(s) => s,
            None => own[i],
        };
        let offset = match overrides[i].offset {
            Some(x) => x,
            None => {
                if i == 0 {
                    0
                } else {
                    assert(field_end(overrides@, own@, i - 1) <= usize::MAX);
                    last_offset + last_size
                }
            },
        };
        assert(offset as nat == eff_offset(overrides@, own@, i as int));
        assert(size as nat == eff_size(overrides@, own@, i as int));
        if offset > usize::MAX - size {
            assert(field_end(overrides@, own@, i as int) > usize::MAX);
            return None;
        }
        res.push((offset, size));
        last_offset = offset;
        last_size = size;
        i = i + 1;
    }
    Some(res)
}

/// The sum of the first `i` sizes.
pub open spec fn prefix_sum(own: Seq<usize>, i: int) -> nat
    decreases i,
{
    if i <= 0 {
        0
    } else {
        prefix_sum(own, i - 1) + own[i - 1] as nat
    }
}

/// No field carries an override.
pub open spec fn no_overrides(o: Seq<FieldOverrides>) -> bool {
    forall|i: int| 0 <= i < o.len() ==> (#[trigger] o[i]).size is None && o[i].offset is None
}

/// Without overrides, each field starts where the sizes of the fields before it add up to,
/// and the aggregate's total size is the sum of all field sizes.
pub proof fn lemma_sequential_layout(o: Seq<FieldOverrides>, own: Seq<usize>)
    requires
        o.len() == own.len(),
        no_overrides(o),
    ensures
        forall|i: int| 0 <= i < o.len() ==> #[trigger] eff_offset(o, own, i) == prefix_sum(own, i),
        total_size(o, own) == prefix_sum(own, o.len() as int),
{
    assert forall|i: int| 0 <= i < o.len() implies #[trigger] eff_offset(o, own, i) == prefix_sum(
        own,
        i,
    ) by {
        lemma_sequential_offset(o, own, i);
    }
    if o.len() > 0 {
        lemma_sequential_offset(o, own, o.len() - 1);
    }
}

proof fn lemma_sequential_offset(o: Seq<FieldOverrides>, own: Seq<usize>, i: int)
    requires
        o.len() == own.len(),
        no_overrides(o),
        0 <= i < o.len(),
    ensures
        eff_offset(o, own, i) == prefix_sum(own, i),
    decreases i,
{
    assert(o[i].offset is None);
    if i > 0 {
        lemma_sequential_offset(o, own, i - 1);
        assert(o[i - 1].size is None);
    }
}

/// The overrides `o` with an explicit offset `x` put on field `k`.
pub open spec fn with_offset(o: Seq<FieldOverrides>, k: int, x: usize) -> Seq<FieldOverrides> {
    o.update(k, FieldOverrides { offset: Some(x), ..o[k] })
}

/// An offset override on field `k` leaves the offsets of the fields before it as they were,
/// and a next field without an offset override of its own starts where field `k` now ends.
pub proof fn lemma_offset_override(o: Seq<FieldOverrides>, own: Seq<usize>, k: int, x: usize)
    requires
        o.len() == own.len(),
        0 <= k < o.len(),
    ensures
        forall|j: int|
            0 <= j < k ==> #[trigger] eff_offset(with_offset(o, k, x), own, j) == eff_offset(
                o,
                own,
                j,
            ),
        eff_offset(with_offset(o, k, x), own, k) == x as nat,
        k + 1 < o.len() && o[k + 1].offset is None ==> eff_offset(with_offset(o, k, x), own, k + 1)
            == x as nat + eff_size(o, own, k),
{
    let o2 = with_offset(o, k, x);
    assert forall|j: int| 0 <= j < k implies #[trigger] eff_offset(o2, own, j) == eff_offset(
        o,
        own,
        j,
    ) by {
        lemma_prefix_unchanged(o, o2, own, j, k);
    }
    if k + 1 < o.len() && o[k + 1].offset is None {
        assert(o2[k + 1] == o[k + 1]);
        assert(eff_size(o2, own, k) == eff_size(o, own, k));
        assert(eff_offset(o2, own, k) == x as nat);
        assert(eff_offset(o2, own, k + 1) == field_end(o2, own, k));
    }
}

proof fn lemma_prefix_unchanged(
    o: Seq<FieldOverrides>,
    o2: Seq<FieldOverrides>,
    own: Seq<usize>,
    j: int,
    k: int,
)
    requires
        0 <= j < k <= o.len(),
        o2.len() == o.len(),
        forall|i: int| 0 <= i < k ==> o2[i] == o[i],
    ensures
        eff_offset(o2, own, j) == eff_offset(o, own, j),
    decreases j,
{
    if j > 0 {
        lemma_prefix_unchanged(o, o2, own, j - 1, k);
    }
}

/// The offset of field `i` depends on the sizes of the fields before it only.
pub proof fn lemma_offset_depends_on_prefix(
    o: Seq<FieldOverrides>,
    own: Seq<usize>,
    own2: Seq<usize>,
    i: int,
)
    requires
        0 <= i,
        forall|j: int| 0 <= j < i ==> own[j] == own2[j],
    ensures
        eff_offset(o, own, i) == eff_offset(o, own2, i),
    decreases i,
{
    if i > 0 {
        lemma_offset_depends_on_prefix(o, own, own2, i - 1);
    }
}

} // verus!

use vstd::prelude::*;
use vstd::arithmetic::div_mod::{lemma_fundamental_div_mod, lemma_basic_div};

verus! {

broadcast use vstd::seq::group_seq_axioms;

/// `x` rounded up to a multiple of `a`.
pub open spec fn align_up(x: int, a: int) -> int {
    if a <= 0 {
        x
    } else {
        ((x + a - 1) / a) * a
    }
}

/// End offset of the last field of a struct whose fields have the given
/// sizes and alignments: each field starts at the next multiple of its
/// alignment.
pub open spec fn fields_end(sizes: Seq<int>, aligns: Seq<int>) -> int
    decreases sizes.len(),
{
    if sizes.len() == 0 || aligns.len() != sizes.len() {
        0
    } else {
        align_up(fields_end(sizes.drop_last(), aligns.drop_last()), aligns.last()) + sizes.last()
    }
}

/// Largest element, or 0 for the empty sequence.
pub open spec fn seq_max(s: Seq<int>) -> int
    decreases s.len(),
{
    if s.len() == 0 {
        0
    } else if s.last() > seq_max(s.drop_last()) {
        s.last()
    } else {
        seq_max(s.drop_last())
    }
}

/// Alignment of a struct: that of its most aligned field, at least 1.
pub open spec fn struct_align(aligns: Seq<int>) -> int {
    if seq_max(aligns) > 1 {
        seq_max(aligns)
    } else {
        1
    }
}

/// Size of a struct: the end of its last field rounded up to its alignment.
pub open spec fn struct_size(sizes: Seq<int>, aligns: Seq<int>) -> int {
    align_up(fields_end(sizes, aligns), struct_align(aligns))
}

/// Index of the first element that is the largest.
pub open spec fn first_max(s: Seq<int>) -> int
    decreases s.len(),
{
    if s.len() <= 1 {
        0
    } else if s.last() > s[first_max(s.drop_last())] {
        s.len() - 1
    } else {
        first_max(s.drop_last())
    }
}

pub open spec fn ints(v: Seq<u64>) -> Seq<int> {
    v.map_values(|x: u64| x as int)
}

/// Field sizes of a union's lowered struct: the most aligned member, then
/// padding bytes up to the size of the largest member if any are needed.
pub open spec fn union_sizes(sizes: Seq<int>, aligns: Seq<int>) -> Seq<int> {
    if sizes.len() == 0 {
        Seq::empty()
    } else {
        let i = first_max(aligns);
        let pad = seq_max(sizes) - sizes[i];
        if pad > 0 {
            seq![sizes[i], pad]
        } else {
            seq![sizes[i]]
        }
    }
}

pub open spec fn union_aligns(sizes: Seq<int>, aligns: Seq<int>) -> Seq<int> {
    if sizes.len() == 0 {
        Seq::empty()
    } else {
        let i = first_max(aligns);
        let pad = seq_max(sizes) - sizes[i];
        if pad > 0 {
            seq![aligns[i], 1]
        } else {
            seq![aligns[i]]
        }
    }
}

pub open spec fn union_size(sizes: Seq<int>, aligns: Seq<int>) -> int {
    struct_size(union_sizes(sizes, aligns), union_aligns(sizes, aligns))
}

pub open spec fn union_align(sizes: Seq<int>, aligns: Seq<int>) -> int {
    struct_align(union_aligns(sizes, aligns))
}

/// Size of an enum lowered as `{ i32 tag, union of its payloads }`.
pub open spec fn enum_size(sizes: Seq<int>, aligns: Seq<int>) -> int {
    struct_size(
        seq![4, union_size(sizes, aligns)],
        seq![4, union_align(sizes, aligns)],
    )
}

pub open spec fn enum_align(sizes: Seq<int>, aligns: Seq<int>) -> int {
    struct_align(seq![4, union_align(sizes, aligns)])
}

pub proof fn lemma_align_up(x: int, a: int)
    requires
        x >= 0,
        a >= 1,
    ensures
        x <= align_up(x, a) < x + a,
        x == 0 ==> align_up(x, a) == 0,
        a == 1 ==> align_up(x, a) == x,
{
    lemma_fundamental_div_mod(x + a - 1, a);
    let q = (x + a - 1) / a;
    let r = (x + a - 1) % a;
    assert(0 <= r < a);
    assert(q * a == x + a - 1 - r) by (nonlinear_arith)
        requires
            x + a - 1 == a * q + r,
    ;
    if x == 0 {
        lemma_basic_div(a - 1, a);
    }
}

proof fn lemma_first_max(s: Seq<int>)
    requires
        s.len() > 0,
    ensures
        0 <= first_max(s) < s.len(),
        forall|k: int| 0 <= k < s.len() ==> #[trigger] s[k] <= s[first_max(s)],
    decreases s.len(),
{
    if s.len() > 1 {
        lemma_first_max(s.drop_last());
        lemma_seq_max(s.drop_last());
        assert forall|k: int| 0 <= k < s.len() implies #[trigger] s[k] <= s[first_max(s)] by {
            if k < s.len() - 1 {
                assert(s.drop_last()[k] == s[k]);
            }
        }
    }
}

pub proof fn lemma_seq_max(s: Seq<int>)
    ensures
        forall|k: int| 0 <= k < s.len() ==> #[trigger] s[k] <= seq_max(s),
        s.len() > 0 && seq_max(s) > 0 ==> exists|k: int| 0 <= k < s.len() && s[k] == seq_max(s),
        seq_max(s) >= 0,
    decreases s.len(),
{
    if s.len() > 0 {
        lemma_seq_max(s.drop_last());
        assert forall|k: int| 0 <= k < s.len() implies #[trigger] s[k] <= seq_max(s) by {
            if k < s.len() - 1 {
                assert(s.drop_last()[k] == s[k]);
            }
        }
        if seq_max(s) > 0 && seq_max(s) != s.last() {
            let k = choose|k: int| 0 <= k < s.drop_last().len() && s.drop_last()[k] == seq_max(s.drop_last());
            assert(s[k] == seq_max(s));
        }
    }
}

proof fn lemma_fields_end_one(x: int, a: int)
    requires
        a >= 1,
    ensures
        fields_end(seq![x], seq![a]) == x,
{
    assert(seq![x].drop_last() =~= Seq::<int>::empty());
    assert(seq![a].drop_last() =~= Seq::<int>::empty());
    assert(fields_end(Seq::<int>::empty(), Seq::<int>::empty()) == 0);
    lemma_align_up(0, a);
}

proof fn lemma_fields_end_two(x: int, a: int, y: int, b: int)
    requires
        a >= 1,
    ensures
        fields_end(seq![x, y], seq![a, b]) == align_up(x, b) + y,
{
    assert(seq![x, y].drop_last() =~= seq![x]);
    assert(seq![a, b].drop_last() =~= seq![a]);
    lemma_fields_end_one(x, a);
}

proof fn lemma_max_one(a: int)
    ensures
        seq_max(seq![a]) == if a > 0 { a } else { 0 },
{
    assert(seq![a].drop_last() =~= Seq::<int>::empty());
    assert(seq_max(Seq::<int>::empty()) == 0);
    assert(seq![a].last() == a);
}

proof fn lemma_max_two(a: int, b: int)
    ensures
        seq_max(seq![a, b]) == if b > seq_max(seq![a]) { b } else { seq_max(seq![a]) },
{
    assert(seq![a, b].drop_last() =~= seq![a]);
}

/// An enum lowered as `{ i32 tag, union of its payloads }` is at least four
/// bytes larger than its largest payload, and is aligned to the larger of
/// four and the alignments of its payloads.
pub proof fn lemma_enum_layout(sizes: Seq<int>, aligns: Seq<int>)
    requires
        sizes.len() == aligns.len(),
        forall|k: int| 0 <= k < sizes.len() ==> sizes[k] >= 0 && aligns[k] >= 1,
    ensures
        enum_size(sizes, aligns) >= 4 + seq_max(sizes),
        enum_align(sizes, aligns) == if seq_max(aligns) > 4 {
            seq_max(aligns)
        } else {
            4
        },
{
    let us = union_size(sizes, aligns);
    let ua = union_align(sizes, aligns);
    lemma_seq_max(sizes);
    lemma_seq_max(aligns);
    if sizes.len() == 0 {
        assert(fields_end(Seq::<int>::empty(), Seq::<int>::empty()) == 0);
        lemma_align_up(0, 1);
        assert(us == 0);
        assert(ua == 1);
    } else {
        lemma_first_max(aligns);
        let i = first_max(aligns);
        assert(aligns[i] == seq_max(aligns)) by {
            assert(aligns[0] <= seq_max(aligns));
            let k = choose|k: int| 0 <= k < aligns.len() && aligns[k] == seq_max(aligns);
            assert(aligns[k] <= aligns[i]);
        }
        let pad = seq_max(sizes) - sizes[i];
        assert(sizes[i] <= seq_max(sizes));
        lemma_max_one(aligns[i]);
        if pad > 0 {
            lemma_fields_end_two(sizes[i], aligns[i], pad, 1);
            lemma_align_up(sizes[i], 1);
            lemma_max_two(aligns[i], 1);
        } else {
            lemma_fields_end_one(sizes[i], aligns[i]);
        }
        assert(ua == aligns[i]);
        lemma_align_up(seq_max(sizes), aligns[i]);
        assert(us >= seq_max(sizes));
    }
    assert(ua >= 1);
    lemma_fields_end_two(4, 4, us, ua);
    lemma_max_one(4);
    lemma_max_two(4, ua);
    lemma_align_up(4, ua);
    let end = fields_end(seq![4, us], seq![4, ua]);
    assert(end >= 4 + us);
    lemma_align_up(end, struct_align(seq![4, ua]));
}





/// The lowered form of a union: which member leads it and how many padding
/// bytes follow that member.
pub struct UnionLayout {
    /// Index of the most aligned member, the first among equals.
    pub field: usize,
    /// Bytes from the end of that member to the size of the largest member.
    pub padding: u64,
}

/// Chooses the lowered form of a union with members of the given sizes and
/// alignments: the most aligned member, padded with bytes up to the size of
/// the largest member. A union without members has none.
pub fn lower_union(sizes: &Vec<u64>, aligns: &Vec<u64>) -> (r: Option<UnionLayout>)
    requires
        sizes.len() == aligns.len(),
    ensures
        r is None <==> sizes.len() == 0,
        r matches Some(l) ==> {
            &&& l.field == first_max(ints(aligns@))
            &&& l.field < sizes.len()
            &&& l.padding == seq_max(ints(sizes@)) - sizes@[l.field as int]
        },
{
    if sizes.len() == 0 {
        return None;
    }
    let ghost si = ints(sizes@);
    let ghost ai = ints(aligns@);
    let mut union_align: u64 = aligns[0];
    let mut union_size: u64 = sizes[0];
    let mut field: usize = 0;
    let mut k: usize = 1;
    proof {
        assert(si.take(1).drop_last() =~= Seq::<int>::empty());
        assert(ai.take(1).drop_last() =~= Seq::<int>::empty());
        assert(seq_max(Seq::<int>::empty()) == 0);
    }
    while k < sizes.len()
        invariant
            1 <= k <= sizes.len() == aligns.len(),
            si == ints(sizes@),
            ai == ints(aligns@),
            field < k,
            field == first_max(ai.take(k as int)),
            union_align == aligns@[field as int],
            union_size == seq_max(si.take(k as int)),
        decreases sizes.len() - k,
    {
        proof {
            assert(si.take(k + 1).drop_last() =~= si.take(k as int));
            assert(ai.take(k + 1).drop_last() =~= ai.take(k as int));
            assert(ai.take(k as int)[field as int] == ai[field as int]);
        }
        if aligns[k] > union_align {
            union_align = aligns[k];
            field = k;
        }
        if sizes[k] > union_size {
            union_size = sizes[k];
        }
        k = k + 1;
    }
    proof {
        assert(si.take(sizes.len() as int) =~= si);
        assert(ai.take(aligns.len() as int) =~= ai);
        lemma_seq_max(si);
        assert(si[field as int] == sizes@[field as int]);
    }
    Some(UnionLayout { field, padding: union_size - sizes[field] })
}





} // verus!

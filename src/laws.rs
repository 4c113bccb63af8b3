use vstd::prelude::*;
use vstd::set_lib::{lemma_int_range, lemma_len_subset, set_int_range};

use crate::btf::{align_spec, composite_align, lookup, members_align, size_spec, skip_spec, table_outcome, Btf};
use crate::bytes::Endian;
use crate::decode::{info_at, info_kind, rec_len, record_outcome};
use crate::error::BtfError;
use crate::types::{BtfMember, BtfType};

verus! {

/// The records of a table that decodes lie end to end: the first starts
/// where decoding starts, each next one where the one before ends, and the
/// last ends exactly at the end of the table, with nothing left over.
#[verifier::rlimit(40)]
pub proof fn lemma_records_tile_table(d: Seq<u8>, off: nat, s: Seq<u8>, e: Endian)
    requires
        off <= d.len(),
        table_outcome(d, off, s, e) is Ok,
    ensures
        ({
            let offs = table_outcome(d, off, s, e)->Ok_0;
            &&& offs.len() == 0 <==> off == d.len()
            &&& offs.len() > 0 ==> offs[0] == off
            &&& forall|i: int| 0 <= i < offs.len() - 1 ==> #[trigger] offs[i + 1] == offs[i] + rec_len(d, offs[i], e)
            &&& offs.len() > 0 ==> offs.last() + rec_len(d, offs.last(), e) == d.len()
        }),
    decreases d.len() - off,
{
    if off < d.len() {
        let next = off + rec_len(d, off as int, e);
        lemma_records_tile_table(d, next, s, e);
        let rest = table_outcome(d, next, s, e)->Ok_0;
        let offs = table_outcome(d, off, s, e)->Ok_0;
        assert(offs == seq![off as int] + rest);
        assert forall|i: int| 0 <= i < offs.len() - 1 implies #[trigger] offs[i + 1] == offs[i] + rec_len(d, offs[i], e) by {
            if i > 0 {
                assert(offs[i] == rest[i - 1]);
                assert(offs[i + 1] == rest[(i - 1) + 1]);
            } else {
                assert(offs[1] == rest[0]);
            }
        }
    }
}

/// An alignment found within `f` steps is found, unchanged, with more steps.
pub proof fn lemma_align_fuel_mono(ts: Seq<BtfType>, ps: u32, id: u32, f: nat, g: nat)
    requires
        f <= g,
        align_spec(ts, ps, id, f) is Some,
    ensures
        align_spec(ts, ps, id, g) == align_spec(ts, ps, id, f),
    decreases f, 0nat, 0nat,
{
    match lookup(ts, id) {
        Some(BtfType::Volatile(m)) => lemma_align_fuel_mono(ts, ps, m.type_id, (f - 1) as nat, (g - 1) as nat),
        Some(BtfType::Const(m)) => lemma_align_fuel_mono(ts, ps, m.type_id, (f - 1) as nat, (g - 1) as nat),
        Some(BtfType::Restrict(m)) => lemma_align_fuel_mono(ts, ps, m.type_id, (f - 1) as nat, (g - 1) as nat),
        Some(BtfType::Typedef(m)) => lemma_align_fuel_mono(ts, ps, m.type_id, (f - 1) as nat, (g - 1) as nat),
        Some(BtfType::Array(a)) => lemma_align_fuel_mono(ts, ps, a.val_type_id, (f - 1) as nat, (g - 1) as nat),
        Some(BtfType::Struct(c)) => if c.members@.len() > 0 {
            assert(align_spec(ts, ps, id, f) == composite_align(ts, ps, c.members@, (f - 1) as nat));
            assert(align_spec(ts, ps, id, g) == composite_align(ts, ps, c.members@, (g - 1) as nat));
            lemma_members_fuel_mono(ts, ps, c.members@, c.members@.len(), (f - 1) as nat, (g - 1) as nat);
        },
        Some(BtfType::Union(c)) => if c.members@.len() > 0 {
            assert(align_spec(ts, ps, id, f) == composite_align(ts, ps, c.members@, (f - 1) as nat));
            assert(align_spec(ts, ps, id, g) == composite_align(ts, ps, c.members@, (g - 1) as nat));
            lemma_members_fuel_mono(ts, ps, c.members@, c.members@.len(), (f - 1) as nat, (g - 1) as nat);
        },
        _ => {},
    }
}

/// The member fold of alignments, like each alignment, does not change with
/// more steps once it is found.
pub proof fn lemma_members_fuel_mono(ts: Seq<BtfType>, ps: u32, ms: Seq<BtfMember>, k: nat, f: nat, g: nat)
    requires
        f <= g,
        members_align(ts, ps, ms, k, f) is Some,
    ensures
        members_align(ts, ps, ms, k, g) == members_align(ts, ps, ms, k, f),
    decreases f, 1nat, k,
{
    if k > 0 {
        lemma_members_fuel_mono(ts, ps, ms, (k - 1) as nat, f, g);
        lemma_align_fuel_mono(ts, ps, ms[k - 1].type_id, f, g);
    }
}

/// The member fold is at least each member's alignment, is 0 for no members,
/// and otherwise is the alignment of one of them.
pub proof fn lemma_members_align_max(ts: Seq<BtfType>, ps: u32, ms: Seq<BtfMember>, k: nat, f: nat)
    requires
        members_align(ts, ps, ms, k, f) is Some,
    ensures
        k == 0 ==> members_align(ts, ps, ms, k, f) == Some(0u32),
        forall|i: int| 0 <= i < k ==> ((#[trigger] align_spec(ts, ps, ms[i].type_id, f)) matches Some(x)
            && x <= members_align(ts, ps, ms, k, f)->Some_0),
        k > 0 ==> exists|i: int| 0 <= i < k
            && #[trigger] align_spec(ts, ps, ms[i].type_id, f) == members_align(ts, ps, ms, k, f),
    decreases k,
{
    if k > 0 {
        let j = k - 1;
        lemma_members_align_max(ts, ps, ms, j as nat, f);
        let prev = members_align(ts, ps, ms, j as nat, f)->Some_0;
        let x = align_spec(ts, ps, ms[j].type_id, f)->Some_0;
        if j == 0 || x > prev {
            assert(align_spec(ts, ps, ms[j].type_id, f) == members_align(ts, ps, ms, k, f));
        } else {
            let i = choose|i: int| 0 <= i < j
                && #[trigger] align_spec(ts, ps, ms[i].type_id, f) == members_align(ts, ps, ms, j as nat, f);
            assert(align_spec(ts, ps, ms[i].type_id, f) == members_align(ts, ps, ms, k, f));
        }
    }
}

/// Queries depend on the descriptors and the pointer width alone, so asking
/// the same question again, of the same graph, gives the same answer.
pub proof fn lemma_queries_repeatable(b1: &Btf, b2: &Btf, id: u32)
    requires
        b1.types_view() == b2.types_view(),
        b1.ptr_size_view() == b2.ptr_size_view(),
    ensures
        b1.size_of_spec(id) == b2.size_of_spec(id),
        b1.align_of_spec(id) == b2.align_of_spec(id),
        b1.skip_mods_spec(id) == b2.skip_mods_spec(id),
        b1.skip_mods_and_typedefs_spec(id) == b2.skip_mods_and_typedefs_spec(id),
{
}

/// The members of a struct or union; empty for other descriptors.
pub open spec fn members_of(t: BtfType) -> Seq<BtfMember> {
    match t {
        BtfType::Struct(c) => c.members@,
        BtfType::Union(c) => c.members@,
        _ => Seq::empty(),
    }
}

/// Whether `t` is a volatile, const, restrict or typedef that refers to `next`.
pub open spec fn is_modifier_to(t: BtfType, next: u32) -> bool {
    match t {
        BtfType::Volatile(m) => m.type_id == next,
        BtfType::Const(m) => m.type_id == next,
        BtfType::Restrict(m) => m.type_id == next,
        BtfType::Typedef(m) => m.type_id == next,
        _ => false,
    }
}

/// Whether `t` is a volatile, const, restrict or typedef.
pub open spec fn is_modifier(t: BtfType) -> bool {
    t is Volatile || t is Const || t is Restrict || t is Typedef
}

/// Whether the ids `c` form a chain of modifiers ending in a descriptor that
/// is none: each id but the last holds a modifier referring to the next, and
/// the last holds a descriptor that is no modifier. No id repeats.
pub open spec fn is_modifier_chain(ts: Seq<BtfType>, c: Seq<u32>) -> bool {
    &&& c.len() >= 1
    &&& c.no_duplicates()
    &&& forall|i: int| 0 <= i < c.len() - 1 ==> (#[trigger] lookup(ts, c[i]) matches Some(t) && is_modifier_to(t, c[i + 1]))
    &&& lookup(ts, c.last()) matches Some(t) && !is_modifier(t)
}

/// A chain of distinct ids that all have descriptors is no longer than the
/// sequence of descriptors.
proof fn lemma_chain_shorter_than_graph(ts: Seq<BtfType>, c: Seq<u32>)
    requires
        c.no_duplicates(),
        forall|i: int| 0 <= i < c.len() ==> #[trigger] lookup(ts, c[i]) is Some,
    ensures
        c.len() <= ts.len(),
{
    let ci = c.map_values(|x: u32| x as int);
    assert(ci.no_duplicates()) by {
        assert forall|i: int, j: int| 0 <= i < ci.len() && 0 <= j < ci.len() && i != j implies ci[i] != ci[j] by {
            assert(c[i] != c[j]);
        }
    }
    ci.unique_seq_to_set();
    lemma_int_range(1, ts.len() as int + 1);
    assert forall|x: int| ci.to_set().contains(x) implies set_int_range(1, ts.len() as int + 1).contains(x) by {
        let i = choose|i: int| 0 <= i < ci.len() && ci[i] == x;
        assert(lookup(ts, c[i]) is Some);
    }
    lemma_len_subset(ci.to_set(), set_int_range(1, ts.len() as int + 1));
}

/// Each step along a modifier chain takes one step of the budget and leaves
/// the queries' results unchanged.
proof fn lemma_chain_prefix(ts: Seq<BtfType>, ps: u32, c: Seq<u32>, k: int, fuel: nat)
    requires
        is_modifier_chain(ts, c),
        c.len() <= fuel,
        0 <= k < c.len(),
    ensures
        skip_spec(ts, c[0], fuel, true) == skip_spec(ts, c[k], (fuel - k) as nat, true),
        size_spec(ts, ps, c[0], fuel) == size_spec(ts, ps, c[k], (fuel - k) as nat),
        align_spec(ts, ps, c[0], fuel) == align_spec(ts, ps, c[k], (fuel - k) as nat),
    decreases k,
{
    if k > 0 {
        lemma_chain_prefix(ts, ps, c, k - 1, fuel);
        assert(lookup(ts, c[k - 1]) matches Some(t) && is_modifier_to(t, c[k]));
    }
}

/// Following a chain of volatile, const, restrict and typedef descriptors
/// without a repeated id ends at its last id, and the head's size and
/// alignment are those of the last id computed with the steps that remain
/// after the chain; and these equal the last id's own size and alignment.
pub proof fn lemma_modifier_chain(b: &Btf, c: Seq<u32>)
    requires
        is_modifier_chain(b.types_view(), c),
    ensures
        b.skip_mods_and_typedefs_spec(c[0]) == Some(c.last()),
        b.size_of_spec(c[0]) == size_spec(b.types_view(), b.ptr_size_view(), c.last(),
            (b.types_view().len() - (c.len() - 1)) as nat),
        b.align_of_spec(c[0]) == align_spec(b.types_view(), b.ptr_size_view(), c.last(),
            (b.types_view().len() - (c.len() - 1)) as nat),
        b.size_of_spec(c[0]) == b.size_of_spec(c.last()),
        b.align_of_spec(c[0]) == b.align_of_spec(c.last()),
{
    let ts = b.types_view();
    let ps = b.ptr_size_view();
    let n = ts.len();
    let k = c.len() - 1;
    assert forall|i: int| 0 <= i < c.len() implies #[trigger] lookup(ts, c[i]) is Some by {
        if i < c.len() - 1 {
            assert(lookup(ts, c[i]) matches Some(t) && is_modifier_to(t, c[i + 1]));
        }
    }
    lemma_chain_shorter_than_graph(ts, c);
    lemma_chain_prefix(ts, ps, c, k, n);
    lemma_chain_prefix(ts, ps, c, k, (n + k) as nat);
    lemma_size_fuel_enough(ts, ps, c[0], (n + k) as nat);
    lemma_align_fuel_enough(ts, ps, c[0], (n + k) as nat);
}

/// An array of `k` elements whose element type has size `s` has size `k * s`,
/// or no size where that product does not fit in 32 bits; an array whose
/// element type has no size has none either.
pub proof fn lemma_array_size(b: &Btf, id: u32)
    requires
        lookup(b.types_view(), id) matches Some(t) && t is Array,
    ensures
        ({
            let a = lookup(b.types_view(), id)->Some_0->Array_0;
            &&& b.size_of_spec(a.val_type_id) is None ==> b.size_of_spec(id) is None
            &&& b.size_of_spec(a.val_type_id) matches Some(s) ==> b.size_of_spec(id) == (if a.nelems * s <= u32::MAX {
                Some((a.nelems * s) as u32)
            } else {
                None
            })
        }),
{
    let ts = b.types_view();
    let ps = b.ptr_size_view();
    let n = ts.len();
    lemma_size_fuel_enough(ts, ps, id, n + 1);
}

/// The alignment of a struct or union is the largest of its members'
/// alignments: at least each of them, and equal to one of them. A struct or
/// union without members has alignment 1.
pub proof fn lemma_composite_align(b: &Btf, id: u32)
    requires
        lookup(b.types_view(), id) matches Some(t) && (t is Struct || t is Union),
        b.align_of_spec(id) is Some,
    ensures
        members_of(lookup(b.types_view(), id)->Some_0).len() == 0 ==> b.align_of_spec(id) == Some(1u32),
        forall|i: int| 0 <= i < members_of(lookup(b.types_view(), id)->Some_0).len()
            ==> ((#[trigger] b.align_of_spec(members_of(lookup(b.types_view(), id)->Some_0)[i].type_id)) matches Some(x)
            && x <= b.align_of_spec(id)->Some_0),
        members_of(lookup(b.types_view(), id)->Some_0).len() > 0 ==> exists|i: int|
            0 <= i < members_of(lookup(b.types_view(), id)->Some_0).len()
            && #[trigger] b.align_of_spec(members_of(lookup(b.types_view(), id)->Some_0)[i].type_id) == b.align_of_spec(id),
{
    let ts = b.types_view();
    let ps = b.ptr_size_view();
    let n = ts.len();
    let t = lookup(ts, id)->Some_0;
    let ms = members_of(t);
    let f = (n - 1) as nat;
    assert(b.align_of_spec(id) == composite_align(ts, ps, ms, f));
    if ms.len() > 0 {
        lemma_members_align_max(ts, ps, ms, ms.len(), f);
        let a = b.align_of_spec(id)->Some_0;
        assert forall|i: int| 0 <= i < ms.len() implies ((#[trigger] b.align_of_spec(ms[i].type_id)) matches Some(x) && x <= a) by {
            assert(align_spec(ts, ps, ms[i].type_id, f) matches Some(x) && x <= a);
            lemma_align_fuel_mono(ts, ps, ms[i].type_id, f, n);
        }
        let i = choose|i: int| 0 <= i < ms.len()
            && #[trigger] align_spec(ts, ps, ms[i].type_id, f) == members_align(ts, ps, ms, ms.len(), f);
        lemma_align_fuel_mono(ts, ps, ms[i].type_id, f, n);
        assert(b.align_of_spec(ms[i].type_id) == Some(a));
    }
}

/// A record whose kind code is 0 (void) or above 15 is rejected with
/// `InvalidKind`, whatever follows it, and decoding the table from that
/// record on fails with that error.
pub proof fn lemma_unknown_kind_rejected(d: Seq<u8>, off: nat, s: Seq<u8>, e: Endian)
    requires
        off + 12 <= d.len(),
        info_kind(info_at(d, off as int, e)) == 0 || info_kind(info_at(d, off as int, e)) > 15,
    ensures
        record_outcome(d, off as int, s, e) == Err::<(), BtfError>(BtfError::InvalidKind),
        table_outcome(d, off, s, e) == Err::<Seq<int>, BtfError>(BtfError::InvalidKind),
{
    reveal(record_outcome);
}

/// A record of a known kind that would end past the end of the table, or
/// whose common header does not fit in it, is rejected with `OutOfBounds`,
/// and decoding the table from that record on fails with that error.
pub proof fn lemma_overrun_rejected(d: Seq<u8>, off: nat, s: Seq<u8>, e: Endian)
    requires
        off < d.len(),
        off + 12 > d.len() || (1 <= info_kind(info_at(d, off as int, e)) <= 15 && off + rec_len(d, off as int, e) > d.len()),
    ensures
        record_outcome(d, off as int, s, e) == Err::<(), BtfError>(BtfError::OutOfBounds),
        table_outcome(d, off, s, e) == Err::<Seq<int>, BtfError>(BtfError::OutOfBounds),
{
    reveal(record_outcome);
}

/// The id that the size computation moves on to from `id`: the referenced
/// type of a qualifier or typedef, the element type of an array.
pub open spec fn size_next(ts: Seq<BtfType>, id: u32) -> Option<u32> {
    match lookup(ts, id) {
        Some(BtfType::Volatile(m)) => Some(m.type_id),
        Some(BtfType::Const(m)) => Some(m.type_id),
        Some(BtfType::Restrict(m)) => Some(m.type_id),
        Some(BtfType::Typedef(m)) => Some(m.type_id),
        Some(BtfType::Array(a)) => Some(a.val_type_id),
        _ => None,
    }
}

/// The id reached from `id` after `k` moves of the size computation.
pub open spec fn size_walk(ts: Seq<BtfType>, id: u32, k: nat) -> u32
    decreases k,
{
    if k == 0 {
        id
    } else {
        size_walk(ts, size_next(ts, id)->Some_0, (k - 1) as nat)
    }
}

/// The size computation from `id` moves `m` times and then stops.
pub open spec fn size_stops(ts: Seq<BtfType>, id: u32, m: nat) -> bool {
    &&& forall|j: nat| j < m ==> (#[trigger] size_next(ts, size_walk(ts, id, j))) is Some
    &&& size_next(ts, size_walk(ts, id, m)) is None
}

/// One more move of the walk applies one more step of the computation.
proof fn lemma_walk_step(ts: Seq<BtfType>, id: u32, k: nat)
    ensures
        size_walk(ts, id, k + 1) == size_next(ts, size_walk(ts, id, k))->Some_0,
    decreases k,
{
    let t = size_next(ts, id)->Some_0;
    assert(size_walk(ts, id, k + 1) == size_walk(ts, t, k));
    if k > 0 {
        lemma_walk_step(ts, t, (k - 1) as nat);
        assert(size_walk(ts, id, k) == size_walk(ts, t, (k - 1) as nat));
    } else {
        assert(size_walk(ts, t, 0) == t);
    }
}

/// Walks that meet the same id go on together.
proof fn lemma_walk_shift(ts: Seq<BtfType>, i: nat, j: nat, id: u32, t: nat)
    requires
        size_walk(ts, id, i) == size_walk(ts, id, j),
    ensures
        size_walk(ts, id, i + t) == size_walk(ts, id, j + t),
    decreases t,
{
    if t > 0 {
        lemma_walk_shift(ts, i, j, id, (t - 1) as nat);
        lemma_walk_step(ts, id, (i + t - 1) as nat);
        lemma_walk_step(ts, id, (j + t - 1) as nat);
    }
}

/// A walk that stops after `m` moves stops after `m - 1` from the next id.
proof fn lemma_stops_next(ts: Seq<BtfType>, id: u32, m: nat)
    requires
        size_stops(ts, id, m),
        m > 0,
    ensures
        size_stops(ts, size_next(ts, id)->Some_0, (m - 1) as nat),
{
    let t = size_next(ts, id)->Some_0;
    assert(size_next(ts, size_walk(ts, id, 0)) is Some);
    assert forall|j: nat| j < m - 1 implies (#[trigger] size_next(ts, size_walk(ts, t, j))) is Some by {
        assert(size_walk(ts, id, j + 1) == size_walk(ts, t, j));
        assert(size_next(ts, size_walk(ts, id, j + 1)) is Some);
    }
    assert(size_walk(ts, id, m) == size_walk(ts, t, (m - 1) as nat));
}

/// Once the size computation stops, more steps change nothing.
proof fn lemma_size_settles(ts: Seq<BtfType>, ps: u32, id: u32, m: nat, f: nat, g: nat)
    requires
        size_stops(ts, id, m),
        m < f,
        m < g,
    ensures
        size_spec(ts, ps, id, f) == size_spec(ts, ps, id, g),
    decreases m,
{
    if m > 0 {
        lemma_stops_next(ts, id, m);
        assert(size_next(ts, size_walk(ts, id, 0)) is Some);
        lemma_size_settles(ts, ps, size_next(ts, id)->Some_0, (m - 1) as nat, (f - 1) as nat, (g - 1) as nat);
    }
}

/// Where the size computation stops at an id without a descriptor, the size
/// is unknown.
proof fn lemma_size_stops_missing(ts: Seq<BtfType>, ps: u32, id: u32, m: nat, g: nat)
    requires
        size_stops(ts, id, m),
        lookup(ts, size_walk(ts, id, m)) is None,
        m < g,
    ensures
        size_spec(ts, ps, id, g) is None,
    decreases m,
{
    if m > 0 {
        lemma_stops_next(ts, id, m);
        assert(size_next(ts, size_walk(ts, id, 0)) is Some);
        assert(size_walk(ts, id, m) == size_walk(ts, size_next(ts, id)->Some_0, (m - 1) as nat));
        lemma_size_stops_missing(ts, ps, size_next(ts, id)->Some_0, (m - 1) as nat, (g - 1) as nat);
    }
}

/// Where the size computation does not stop within `f` steps, `f` steps give
/// no size.
proof fn lemma_size_runs_out(ts: Seq<BtfType>, ps: u32, id: u32, f: nat)
    requires
        forall|m: nat| m < f ==> !#[trigger] size_stops(ts, id, m),
    ensures
        size_spec(ts, ps, id, f) is None,
    decreases f,
{
    if f > 0 {
        assert(!size_stops(ts, id, 0));
        let t = size_next(ts, id)->Some_0;
        assert forall|m: nat| m < f - 1 implies !#[trigger] size_stops(ts, t, m) by {
            if size_stops(ts, t, m) {
                assert forall|j: nat| j < m + 1 implies (#[trigger] size_next(ts, size_walk(ts, id, j))) is Some by {
                    if j > 0 {
                        assert(size_walk(ts, id, j) == size_walk(ts, t, (j - 1) as nat));
                    }
                }
                assert(size_walk(ts, id, m + 1) == size_walk(ts, t, m));
                assert(size_stops(ts, id, m + 1));
            }
        }
        lemma_size_runs_out(ts, ps, t, (f - 1) as nat);
    }
}

/// The ids that the size computation passes before it stops are distinct
/// and have descriptors, so it stops within as many moves as there are
/// descriptors, and after exactly that many only at an id without one.
proof fn lemma_size_stops_early(ts: Seq<BtfType>, id: u32, m: nat)
    requires
        size_stops(ts, id, m),
    ensures
        m <= ts.len(),
        m == ts.len() ==> lookup(ts, size_walk(ts, id, m)) is None,
{
    let k: nat = if lookup(ts, size_walk(ts, id, m)) is Some { m + 1 } else { m };
    let c = Seq::new(k, |j: int| size_walk(ts, id, j as nat));
    assert forall|i: int, j: int| 0 <= i < j < k implies c[i] != c[j] by {
        if c[i] == c[j] {
            lemma_walk_shift(ts, i as nat, j as nat, id, (m - j) as nat);
            let p = (i + m - j) as nat;
            assert(size_walk(ts, id, p) == size_walk(ts, id, m));
            assert(size_next(ts, size_walk(ts, id, p)) is Some);
        }
    }
    assert forall|i: int| 0 <= i < c.len() implies #[trigger] lookup(ts, c[i]) is Some by {
        if i < m {
            assert(size_next(ts, size_walk(ts, id, i as nat)) is Some);
        }
    }
    lemma_chain_shorter_than_graph(ts, c);
}

/// The size computed with as many steps as there are descriptors does not
/// change with more steps.
pub proof fn lemma_size_fuel_enough(ts: Seq<BtfType>, ps: u32, id: u32, g: nat)
    requires
        g >= ts.len(),
    ensures
        size_spec(ts, ps, id, g) == size_spec(ts, ps, id, ts.len()),
{
    let n = ts.len();
    if exists|m: nat| m < n && size_stops(ts, id, m) {
        let m = choose|m: nat| m < n && size_stops(ts, id, m);
        lemma_size_settles(ts, ps, id, m, g, n);
    } else if exists|m: nat| m < g && size_stops(ts, id, m) {
        let m = choose|m: nat| m < g && size_stops(ts, id, m);
        lemma_size_stops_early(ts, id, m);
        lemma_size_stops_missing(ts, ps, id, m, g);
        lemma_size_runs_out(ts, ps, id, n);
    } else {
        lemma_size_runs_out(ts, ps, id, g);
        lemma_size_runs_out(ts, ps, id, n);
    }
}

/// Where the member fold has no value, some member's alignment has none.
proof fn lemma_members_none_member(ts: Seq<BtfType>, ps: u32, ms: Seq<BtfMember>, k: nat, f: nat) -> (i: int)
    requires
        members_align(ts, ps, ms, k, f) is None,
    ensures
        0 <= i < k,
        align_spec(ts, ps, ms[i].type_id, f) is None,
    decreases k,
{
    if members_align(ts, ps, ms, (k - 1) as nat, f) is None {
        lemma_members_none_member(ts, ps, ms, (k - 1) as nat, f)
    } else {
        k - 1
    }
}

/// An alignment that is known with `f` steps but not with `f - 1` comes with
/// a path of `f` ids, each a step of the computation from the one before,
/// along which it is known with the steps left but not with one fewer.
proof fn lemma_align_stuck_path(ts: Seq<BtfType>, ps: u32, id: u32, f: nat) -> (p: Seq<u32>)
    requires
        f >= 1,
        align_spec(ts, ps, id, f) is Some,
        align_spec(ts, ps, id, (f - 1) as nat) is None,
    ensures
        p.len() == f,
        forall|i: int| 0 <= i < f ==> align_spec(ts, ps, #[trigger] p[i], (f - i) as nat) is Some
            && align_spec(ts, ps, p[i], (f - i - 1) as nat) is None,
    decreases f,
{
    if f == 1 {
        seq![id]
    } else {
        let c: u32 = match lookup(ts, id) {
            Some(BtfType::Volatile(m)) => m.type_id,
            Some(BtfType::Const(m)) => m.type_id,
            Some(BtfType::Restrict(m)) => m.type_id,
            Some(BtfType::Typedef(m)) => m.type_id,
            Some(BtfType::Array(a)) => a.val_type_id,
            _ => {
                let ms = members_of(lookup(ts, id)->Some_0);
                assert(align_spec(ts, ps, id, f) == composite_align(ts, ps, ms, (f - 1) as nat));
                assert(align_spec(ts, ps, id, (f - 1) as nat) == composite_align(ts, ps, ms, (f - 2) as nat));
                let i = lemma_members_none_member(ts, ps, ms, ms.len(), (f - 2) as nat);
                lemma_members_align_max(ts, ps, ms, ms.len(), (f - 1) as nat);
                assert(align_spec(ts, ps, ms[i].type_id, (f - 1) as nat) is Some);
                ms[i].type_id
            },
        };
        let rest = lemma_align_stuck_path(ts, ps, c, (f - 1) as nat);
        let p = seq![id] + rest;
        assert forall|i: int| 0 <= i < f implies align_spec(ts, ps, #[trigger] p[i], (f - i) as nat) is Some
            && align_spec(ts, ps, p[i], (f - i - 1) as nat) is None by {
            if i > 0 {
                assert(p[i] == rest[i - 1]);
            }
        }
        p
    }
}

/// The alignment computed with as many steps as there are descriptors does
/// not change with more steps.
pub proof fn lemma_align_fuel_enough(ts: Seq<BtfType>, ps: u32, id: u32, g: nat)
    requires
        g >= ts.len(),
    ensures
        align_spec(ts, ps, id, g) == align_spec(ts, ps, id, ts.len()),
    decreases g,
{
    let n = ts.len();
    if align_spec(ts, ps, id, n) is Some {
        lemma_align_fuel_mono(ts, ps, id, n, g);
    } else if g > n && align_spec(ts, ps, id, g) is Some {
        if align_spec(ts, ps, id, (g - 1) as nat) is None {
            let p = lemma_align_stuck_path(ts, ps, id, g);
            assert forall|i: int, j: int| 0 <= i < j < p.len() implies p[i] != p[j] by {
                if p[i] == p[j] {
                    lemma_align_fuel_mono(ts, ps, p[j], (g - j) as nat, (g - i - 1) as nat);
                }
            }
            assert forall|i: int| 0 <= i < p.len() implies #[trigger] lookup(ts, p[i]) is Some by {
                assert(align_spec(ts, ps, p[i], (g - i) as nat) is Some);
            }
            lemma_chain_shorter_than_graph(ts, p);
        } else {
            lemma_align_fuel_enough(ts, ps, id, (g - 1) as nat);
            lemma_align_fuel_mono(ts, ps, id, (g - 1) as nat, g);
        }
    }
}

/// Where every member's alignment is known with `f` steps, so is the fold.
proof fn lemma_members_all_known(ts: Seq<BtfType>, ps: u32, ms: Seq<BtfMember>, k: nat, f: nat)
    requires
        k <= ms.len(),
        forall|i: int| 0 <= i < k ==> (#[trigger] align_spec(ts, ps, ms[i].type_id, f)) is Some,
    ensures
        members_align(ts, ps, ms, k, f) is Some,
    decreases k,
{
    if k > 0 {
        lemma_members_all_known(ts, ps, ms, (k - 1) as nat, f);
        assert(align_spec(ts, ps, ms[k - 1].type_id, f) is Some);
    }
}

/// A struct or union whose members all have a known alignment has a known
/// alignment itself (the largest of theirs, by `lemma_composite_align`).
pub proof fn lemma_composite_align_known(b: &Btf, id: u32)
    requires
        lookup(b.types_view(), id) matches Some(t) && (t is Struct || t is Union),
        forall|i: int| 0 <= i < members_of(lookup(b.types_view(), id)->Some_0).len()
            ==> (#[trigger] b.align_of_spec(members_of(lookup(b.types_view(), id)->Some_0)[i].type_id)) is Some,
    ensures
        b.align_of_spec(id) is Some,
{
    let ts = b.types_view();
    let ps = b.ptr_size_view();
    let n = ts.len();
    let ms = members_of(lookup(ts, id)->Some_0);
    assert(align_spec(ts, ps, id, n + 1) == composite_align(ts, ps, ms, n));
    if ms.len() > 0 {
        assert forall|i: int| 0 <= i < ms.len() implies (#[trigger] align_spec(ts, ps, ms[i].type_id, n)) is Some by {
            assert(b.align_of_spec(ms[i].type_id) is Some);
        }
        lemma_members_all_known(ts, ps, ms, ms.len(), n);
    }
    lemma_align_fuel_enough(ts, ps, id, n + 1);
}

} // verus!

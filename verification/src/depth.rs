//! The depth limit on named references, and the registries for which it is
//! never reached.

use crate::decode::{
    decode, decode_fields, decode_segment, lemma_decode_fields, lemma_shape_fields, reach,
};
use crate::registry::{category_in, depth_of, TypeTable};
use crate::schema::{SegmentModel, StructureModel, TypeCategory};
use crate::shape::{shape, shape_fields, shape_segment};
use vstd::prelude::*;

verus! {

/// Whether the field `seg` follows a named reference: it owns no structure,
/// its type is a composite, and a layout is registered under the type's name.
pub open spec fn follows_reference(t: TypeTable, seg: SegmentModel) -> bool {
    seg.nested is None && category_in(t, seg.ty_name) == TypeCategory::Struct
        && t.structures.contains_key(seg.ty_name)
}

/// Whether every named reference that a field of `s` follows, at any level
/// of owned structures, leads to a layout of a rank below `limit`.
pub open spec fn references_below(
    t: TypeTable,
    rank: Map<Seq<char>, nat>,
    s: StructureModel,
    limit: nat,
) -> bool
    decreases s,
{
    forall|i: int|
        0 <= i < s.segments.len() ==> match (#[trigger] s.segments[i]).nested {
            Some(inner) => references_below(t, rank, *inner, limit),
            None => follows_reference(t, s.segments[i]) ==> rank.contains_key(s.segments[i].ty_name)
                && rank[s.segments[i].ty_name] < limit,
        }
}

/// Whether `rank` ranks the registered layouts: every layout has a rank and
/// follows references only to layouts of a lower rank. Such a ranking exists
/// exactly where no layout refers to itself, directly or through others.
pub open spec fn ranked(t: TypeTable, rank: Map<Seq<char>, nat>) -> bool {
    forall|name: Seq<char>| #[trigger]
        t.structures.contains_key(name) ==> rank.contains_key(name) && references_below(
            t,
            rank,
            t.structures[name],
            rank[name],
        )
}

/// The registered layouts of a rank below `limit`.
pub open spec fn ranked_below(t: TypeTable, rank: Map<Seq<char>, nat>, limit: nat) -> Set<
    Seq<char>,
> {
    t.structures.dom().filter(|name: Seq<char>| rank.contains_key(name) && rank[name] < limit)
}

/// How many registered layouts have a rank below `limit`: as deep as
/// references can go from a layout that refers to ranks below `limit` only.
pub open spec fn count_below(t: TypeTable, rank: Map<Seq<char>, nat>, limit: nat) -> nat {
    ranked_below(t, rank, limit).len()
}

/// There are no more layouts below a rank than there are layouts.
pub proof fn lemma_count_below_depth(t: TypeTable, rank: Map<Seq<char>, nat>, limit: nat)
    requires
        t.structures.dom().finite(),
    ensures
        count_below(t, rank, limit) <= depth_of(t),
{
    t.structures.dom().lemma_len_filter(
        |name: Seq<char>| rank.contains_key(name) && rank[name] < limit,
    );
}

/// Below the rank of a layout that is itself below `limit` there are fewer
/// layouts than below `limit`.
pub proof fn lemma_count_below_step(
    t: TypeTable,
    rank: Map<Seq<char>, nat>,
    name: Seq<char>,
    limit: nat,
)
    requires
        t.structures.dom().finite(),
        t.structures.contains_key(name),
        rank.contains_key(name),
        rank[name] < limit,
    ensures
        count_below(t, rank, rank[name]) < count_below(t, rank, limit),
{
    let lower = ranked_below(t, rank, rank[name]);
    let upper = ranked_below(t, rank, limit);
    t.structures.dom().lemma_len_filter(
        |other: Seq<char>| rank.contains_key(other) && rank[other] < limit,
    );
    assert(upper.contains(name));
    assert(lower.subset_of(upper.remove(name)));
    vstd::set_lib::lemma_len_subset(lower, upper.remove(name));
}


/// References below one limit are below every greater one.
pub proof fn lemma_references_below_more(
    t: TypeTable,
    rank: Map<Seq<char>, nat>,
    s: StructureModel,
    limit: nat,
    more: nat,
)
    requires
        references_below(t, rank, s, limit),
        limit <= more,
    ensures
        references_below(t, rank, s, more),
    decreases s,
{
    assert forall|i: int| 0 <= i < s.segments.len() implies match (#[trigger] s.segments[i]).nested {
        Some(inner) => references_below(t, rank, *inner, more),
        None => follows_reference(t, s.segments[i]) ==> rank.contains_key(s.segments[i].ty_name)
            && rank[s.segments[i].ty_name] < more,
    } by {
        match s.segments[i].nested {
            Some(inner) => {
                lemma_references_below_more(t, rank, *inner, limit, more);
            },
            None => {},
        }
    }
}

/// With fuel up to the rank of every layout referred to, more fuel changes
/// no shape.
pub proof fn lemma_shape_fuel(
    t: TypeTable,
    rank: Map<Seq<char>, nat>,
    s: StructureModel,
    limit: nat,
    fuel: nat,
    other: nat,
)
    requires
        ranked(t, rank),
        t.structures.dom().finite(),
        references_below(t, rank, s, limit),
        count_below(t, rank, limit) <= fuel,
        count_below(t, rank, limit) <= other,
    ensures
        shape(t, s, fuel) == shape(t, s, other),
    decreases limit, s, 1nat,
{
    if s.members is None {
        let n = s.segments.len();
        lemma_shape_fields(t, s, fuel, n);
        lemma_shape_fields(t, s, other, n);
        assert forall|i: int| 0 <= i < n implies shape_fields(t, s, fuel, n)[i] == shape_fields(
            t,
            s,
            other,
            n,
        )[i] by {
            lemma_shape_segment_fuel(t, rank, s.segments[i], limit, fuel, other);
        }
        assert(shape_fields(t, s, fuel, n) =~= shape_fields(t, s, other, n));
    }
}

/// Whether the references of the field `seg` lead to layouts of a rank below
/// `limit`.
pub open spec fn field_references_below(
    t: TypeTable,
    rank: Map<Seq<char>, nat>,
    seg: SegmentModel,
    limit: nat,
) -> bool {
    match seg.nested {
        Some(inner) => references_below(t, rank, *inner, limit),
        None => follows_reference(t, seg) ==> rank.contains_key(seg.ty_name) && rank[seg.ty_name]
            < limit,
    }
}

/// The same for the shape of one field.
pub proof fn lemma_shape_segment_fuel(
    t: TypeTable,
    rank: Map<Seq<char>, nat>,
    seg: SegmentModel,
    limit: nat,
    fuel: nat,
    other: nat,
)
    requires
        ranked(t, rank),
        t.structures.dom().finite(),
        field_references_below(t, rank, seg, limit),
        count_below(t, rank, limit) <= fuel,
        count_below(t, rank, limit) <= other,
    ensures
        shape_segment(t, seg, fuel) == shape_segment(t, seg, other),
    decreases limit, seg, 0nat,
{
    match seg.nested {
        Some(inner) => {
            lemma_shape_fuel(t, rank, *inner, limit, fuel, other);
        },
        None => {
            if follows_reference(t, seg) {
                let lower = rank[seg.ty_name];
                assert(t.structures.contains_key(seg.ty_name));
                lemma_count_below_step(t, rank, seg.ty_name, limit);
                lemma_shape_fuel(
                    t,
                    rank,
                    t.structures[seg.ty_name],
                    lower,
                    (fuel - 1) as nat,
                    (other - 1) as nat,
                );
            }
        },
    }
}

/// With fuel up to the rank of every layout referred to, more fuel changes
/// no decoded tree.
pub proof fn lemma_decode_fuel(
    t: TypeTable,
    rank: Map<Seq<char>, nat>,
    s: StructureModel,
    digits: Seq<char>,
    limit: nat,
    fuel: nat,
    other: nat,
)
    requires
        ranked(t, rank),
        t.structures.dom().finite(),
        references_below(t, rank, s, limit),
        count_below(t, rank, limit) <= fuel,
        count_below(t, rank, limit) <= other,
    ensures
        decode(t, s, digits, fuel) == decode(t, s, digits, other),
    decreases limit, s, 1nat,
{
    if s.members is None {
        let n = s.segments.len();
        lemma_decode_fields(t, s, digits, fuel, n);
        lemma_decode_fields(t, s, digits, other, n);
        assert forall|i: int| 0 <= i < n implies decode_fields(t, s, digits, fuel, n)[i]
            == decode_fields(t, s, digits, other, n)[i] by {
            lemma_decode_segment_fuel(
                t,
                rank,
                s.segments[i],
                reach(t, s, digits, i),
                limit,
                fuel,
                other,
            );
        }
        assert(decode_fields(t, s, digits, fuel, n) =~= decode_fields(t, s, digits, other, n));
    }
}

/// The same for the tree of one field.
pub proof fn lemma_decode_segment_fuel(
    t: TypeTable,
    rank: Map<Seq<char>, nat>,
    seg: SegmentModel,
    digits: Option<Seq<char>>,
    limit: nat,
    fuel: nat,
    other: nat,
)
    requires
        ranked(t, rank),
        t.structures.dom().finite(),
        field_references_below(t, rank, seg, limit),
        count_below(t, rank, limit) <= fuel,
        count_below(t, rank, limit) <= other,
    ensures
        decode_segment(t, seg, digits, fuel) == decode_segment(t, seg, digits, other),
    decreases limit, seg, 0nat,
{
    match digits {
        None => {
            lemma_shape_segment_fuel(t, rank, seg, limit, fuel, other);
        },
        Some(d) => match seg.nested {
            Some(inner) => {
                lemma_decode_fuel(t, rank, *inner, d, limit, fuel, other);
            },
            None => {
                if follows_reference(t, seg) {
                    let lower = rank[seg.ty_name];
                    assert(t.structures.contains_key(seg.ty_name));
                    lemma_count_below_step(t, rank, seg.ty_name, limit);
                    lemma_decode_fuel(
                        t,
                        rank,
                        t.structures[seg.ty_name],
                        d,
                        lower,
                        (fuel - 1) as nat,
                        (other - 1) as nat,
                    );
                }
            },
        },
    }
}

/// Where the registered layouts can be ranked, that is, where none refers
/// to itself, directly or through others, the depth limit is never reached:
/// a registered layout decodes, and has the shape, that it would have with
/// any greater allowance of depth.
pub proof fn lemma_depth_suffices(
    t: TypeTable,
    rank: Map<Seq<char>, nat>,
    name: Seq<char>,
    digits: Seq<char>,
    more: nat,
)
    requires
        t.structures.dom().finite(),
        ranked(t, rank),
        t.structures.contains_key(name),
        depth_of(t) <= more,
    ensures
        decode(t, t.structures[name], digits, depth_of(t)) == decode(
            t,
            t.structures[name],
            digits,
            more,
        ),
        shape(t, t.structures[name], depth_of(t)) == shape(t, t.structures[name], more),
{
    let s = t.structures[name];
    lemma_count_below_depth(t, rank, rank[name]);
    lemma_decode_fuel(t, rank, s, digits, rank[name], depth_of(t), more);
    lemma_shape_fuel(t, rank, s, rank[name], depth_of(t), more);
}

} // verus!

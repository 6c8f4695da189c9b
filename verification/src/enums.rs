//! Building an enumerated type from its tags and names.

use crate::layout::{max_msb, width_covers_fields};
use crate::schema::{EnumDefinition, SegmentModel, StructureModel, TypeSegment, TypeStructure};
use std::collections::HashMap;
use vstd::arithmetic::power2::{lemma_pow2_unfold, pow2};
use vstd::prelude::*;

verus! {

/// One member of an enumerated type as the design document lists it.
#[derive(Debug, Clone)]
pub struct RawEnumMember {
    pub tag: u64,
    pub name: String,
}

/// The tag table that a list of members stands for; of two members with one
/// tag the later counts.
pub open spec fn tag_table(members: Seq<RawEnumMember>) -> Map<u64, Seq<char>>
    decreases members.len(),
{
    if members.len() == 0 {
        Map::empty()
    } else {
        tag_table(members.drop_last()).insert(members.last().tag, members.last().name@)
    }
}

/// The greatest tag among `members`; 0 when there is none.
pub open spec fn max_tag(members: Seq<RawEnumMember>) -> nat
    decreases members.len(),
{
    if members.len() == 0 {
        0
    } else {
        let before = max_tag(members.drop_last());
        if members.last().tag > before {
            members.last().tag as nat
        } else {
            before
        }
    }
}

/// The number of binary digits of `n`; 0 has none.
pub open spec fn bit_length(n: nat) -> nat
    decreases n,
{
    if n == 0 {
        0
    } else {
        1 + bit_length(n / 2)
    }
}

/// The width of an enumerated type whose greatest tag is `greatest`: the
/// digits needed to write it, and one bit at least.
pub open spec fn enum_width(greatest: nat) -> nat {
    if greatest == 0 {
        1
    } else {
        bit_length(greatest)
    }
}

/// `enum_width` is the least width, of one bit or more, that holds the
/// greatest tag: the tag is below 2^width, and below no smaller power of two
/// unless the width is 1.
pub proof fn lemma_enum_width(greatest: nat)
    ensures
        enum_width(greatest) >= 1,
        greatest < pow2(enum_width(greatest)),
        enum_width(greatest) > 1 ==> pow2((enum_width(greatest) - 1) as nat) <= greatest,
{
    lemma_bit_length(greatest);
    if greatest == 0 {
        lemma_pow2_unfold(1);
        assert(pow2(0) == 1) by {
            vstd::arithmetic::power2::lemma2_to64();
        }
    }
}

/// `n` has `bit_length(n)` binary digits.
pub proof fn lemma_bit_length(n: nat)
    ensures
        n < pow2(bit_length(n)),
        n > 0 ==> pow2((bit_length(n) - 1) as nat) <= n,
    decreases n,
{
    if n == 0 {
        assert(pow2(0) == 1) by {
            vstd::arithmetic::power2::lemma2_to64();
        }
    } else {
        lemma_bit_length(n / 2);
        lemma_pow2_unfold(bit_length(n));
        if n / 2 > 0 {
            lemma_pow2_unfold(bit_length(n / 2));
        } else {
            assert(pow2(0) == 1) by {
                vstd::arithmetic::power2::lemma2_to64();
            }
        }
    }
}

/// A 64-bit number has at most 64 binary digits.
pub proof fn lemma_bit_length_u64(n: u64)
    ensures
        bit_length(n as nat) <= 64,
{
    lemma_bit_length(n as nat);
    if bit_length(n as nat) > 64 {
        vstd::arithmetic::power2::lemma2_to64_rest();
        let top = (bit_length(n as nat) - 1) as nat;
        if top > 64 {
            vstd::arithmetic::power2::lemma_pow2_strictly_increases(64, top);
        }
    }
}

/// The enumerated type called `name` with the members `members`: its tag
/// table, its width, and one segment over the whole width that carries the
/// name.
pub open spec fn enum_model(name: Seq<char>, members: Seq<RawEnumMember>) -> StructureModel {
    let width = enum_width(max_tag(members));
    StructureModel {
        total_width: width,
        segments: seq![
            SegmentModel {
                name: None,
                msb: (width - 1) as nat,
                lsb: 0,
                ty_name: name,
                nested: None,
            },
        ],
        members: Some(tag_table(members)),
    }
}

/// An enumerated type is one bit wider than the upper bound of its one
/// segment.
pub proof fn lemma_enum_width_covers(name: Seq<char>, members: Seq<RawEnumMember>)
    ensures
        width_covers_fields(enum_model(name, members)),
{
    let model = enum_model(name, members);
    assert(model.segments.drop_last() =~= Seq::<SegmentModel>::empty());
    assert(max_msb(model.segments.drop_last()) == 0);
    assert(max_msb(model.segments) == model.segments[0].msb);
}

/// The number of binary digits of `n`.
pub fn bits_of(n: u64) -> (width: usize)
    ensures
        width == bit_length(n as nat),
        width <= 64,
{
    let mut rest: u64 = n;
    let mut width: usize = 0;
    proof {
        lemma_bit_length_u64(n);
    }
    while rest > 0
        invariant
            bit_length(n as nat) == width + bit_length(rest as nat),
            width + bit_length(rest as nat) <= 64,
        decreases rest,
    {
        rest = rest / 2;
        width += 1;
    }
    width
}

/// Builds the enumerated type called `name` from its members.
pub fn build_enum(name: &str, members: &[RawEnumMember]) -> (built: TypeStructure)
    ensures
        built@ == enum_model(name@, members@),
{
    let mut table: HashMap<u64, String> = HashMap::new();
    let mut greatest: u64 = 0;
    let mut i: usize = 0;
    while i < members.len()
        invariant
            i <= members@.len(),
            greatest == max_tag(members@.take(i as int)),
            (EnumDefinition { members: table })@ == tag_table(members@.take(i as int)),
        decreases members@.len() - i,
    {
        let ghost before = EnumDefinition { members: table }@;
        assert(members@.take(i + 1).drop_last() =~= members@.take(i as int));
        if members[i].tag > greatest {
            greatest = members[i].tag;
        }
        table.insert(members[i].tag, members[i].name.clone());
        assert((EnumDefinition { members: table })@ =~= before.insert(
            members@[i as int].tag,
            members@[i as int].name@,
        ));
        i += 1;
    }
    assert(members@.take(i as int) =~= members@);
    let width: usize = if greatest == 0 {
        1
    } else {
        bits_of(greatest)
    };
    let segment = TypeSegment {
        name: None,
        msb: width - 1,
        lsb: 0,
        ty_name: name.to_owned(),
        nested_structure: None,
    };
    let mut segments: Vec<TypeSegment> = Vec::new();
    segments.push(segment);
    let built = TypeStructure {
        total_width: width,
        segments,
        enum_definition: Some(EnumDefinition { members: table }),
    };
    proof {
        crate::schema::lemma_segment_models_push(Seq::empty(), segment);
        assert(built@.segments =~= enum_model(name@, members@).segments);
    }
    built
}

} // verus!

//! Building the fields of a composite type from a flat list of bit-bounded
//! segments whose names may be dotted paths.

use crate::schema::{
    lemma_segment_models_add, lemma_segment_models_push, segment_models, SegmentModel,
    StructureModel, TypeSegment, TypeStructure,
};
use crate::text::{chars_between, chars_of, same_chars, string_of};
use vstd::prelude::*;

verus! {

/// One segment of a typedef as the design document lists it: an optional
/// dotted field path, the name of the field's type, and its two bit bounds
/// (`max` the upper one), of which the magnitudes count.
#[derive(Debug, Clone)]
pub struct RawSegment {
    pub var_name: Option<String>,
    pub ty_name: String,
    pub min: isize,
    pub max: isize,
    pub width: usize,
}

/// Model of a segment that waits to be placed: its remaining path and its
/// bit bounds.
pub ghost struct RawModel {
    pub name: Option<Seq<char>>,
    pub ty_name: Seq<char>,
    pub msb: nat,
    pub lsb: nat,
}

/// The magnitude of `x`.
pub open spec fn magnitude(x: int) -> nat {
    if x >= 0 {
        x as nat
    } else {
        (-x) as nat
    }
}

impl View for RawSegment {
    type V = RawModel;

    open spec fn view(&self) -> RawModel {
        RawModel {
            name: match self.var_name {
                Some(n) => Some(n@),
                None => None,
            },
            ty_name: self.ty_name@,
            msb: magnitude(self.max as int),
            lsb: magnitude(self.min as int),
        }
    }
}

/// The models of raw segments, in order.
pub open spec fn raw_models(raws: Seq<RawSegment>) -> Seq<RawModel> {
    Seq::new(raws.len(), |i: int| raws[i]@)
}

/// The index of the first `'.'` of `s`, or the length of `s` when it has none.
pub open spec fn dot_index(s: Seq<char>) -> int
    decreases s.len(),
{
    if s.len() == 0 {
        0
    } else {
        let before = dot_index(s.drop_last());
        if before < s.len() - 1 {
            before
        } else if s.last() == '.' {
            s.len() - 1
        } else {
            s.len() as int
        }
    }
}

/// `dot_index` is the least index that holds a `'.'`.
pub proof fn lemma_dot_index(s: Seq<char>)
    ensures
        0 <= dot_index(s) <= s.len(),
        dot_index(s) < s.len() ==> s[dot_index(s)] == '.',
        forall|j: int| 0 <= j < dot_index(s) ==> s[j] != '.',
    decreases s.len(),
{
    if s.len() > 0 {
        let front = s.drop_last();
        lemma_dot_index(front);
        assert forall|j: int| 0 <= j < dot_index(s) implies s[j] != '.' by {
            if j < front.len() {
                assert(front[j] == s[j]);
            }
        }
    }
}

/// A `'.'` with none before it is the first.
pub proof fn lemma_dot_index_is(s: Seq<char>, d: int)
    requires
        0 <= d <= s.len(),
        forall|j: int| 0 <= j < d ==> s[j] != '.',
        d < s.len() ==> s[d] == '.',
    ensures
        dot_index(s) == d,
{
    lemma_dot_index(s);
    let r = dot_index(s);
    if r < d {
        assert(s[r] == '.');
    }
}

/// Whether `s` holds a `'.'`.
pub open spec fn has_dot(s: Seq<char>) -> bool {
    dot_index(s) < s.len()
}

/// The first component of a dotted path.
pub open spec fn head(s: Seq<char>) -> Seq<char> {
    s.take(dot_index(s))
}

/// What follows the first `'.'` of a dotted path; a path without one is left
/// as it is.
pub open spec fn tail(s: Seq<char>) -> Seq<char> {
    if has_dot(s) {
        s.skip(dot_index(s) + 1)
    } else {
        s
    }
}

/// The path of a raw segment; a segment without a name has the empty path.
pub open spec fn path_of(r: RawModel) -> Seq<char> {
    match r.name {
        Some(n) => n,
        None => Seq::empty(),
    }
}

/// The name under which a raw segment is grouped.
pub open spec fn group_key(r: RawModel) -> Seq<char> {
    head(path_of(r))
}

/// `r` with the first component of its path removed.
pub open spec fn stripped(r: RawModel) -> RawModel {
    RawModel {
        name: match r.name {
            Some(n) => Some(tail(n)),
            None => None,
        },
        ty_name: r.ty_name,
        msb: r.msb,
        lsb: r.lsb,
    }
}

/// The segments of `raws` whose group key is `key` (`want`) or is not
/// (`!want`), in their order.
pub open spec fn select(raws: Seq<RawModel>, key: Seq<char>, want: bool) -> Seq<RawModel>
    decreases raws.len(),
{
    if raws.len() == 0 {
        Seq::empty()
    } else {
        let front = select(raws.drop_last(), key, want);
        if (group_key(raws.last()) == key) == want {
            front.push(raws.last())
        } else {
            front
        }
    }
}

/// Whether some segment of `raws` still has a dotted path.
pub open spec fn any_dotted(raws: Seq<RawModel>) -> bool {
    exists|i: int| 0 <= i < raws.len() && has_dot(path_of(#[trigger] raws[i]))
}

/// Every segment of `raws`, stripped.
pub open spec fn all_stripped(raws: Seq<RawModel>) -> Seq<RawModel> {
    Seq::new(raws.len(), |i: int| stripped(raws[i]))
}

/// The field that a raw segment without further nesting becomes.
pub open spec fn leaf(r: RawModel) -> SegmentModel {
    SegmentModel { name: r.name, msb: r.msb, lsb: r.lsb, ty_name: r.ty_name, nested: None }
}

/// The leaf fields of `raws`, in order.
pub open spec fn leaves(raws: Seq<RawModel>) -> Seq<SegmentModel> {
    Seq::new(raws.len(), |i: int| leaf(raws[i]))
}

/// The greatest `msb` among `segments`; 0 when there is none.
pub open spec fn max_msb(segments: Seq<SegmentModel>) -> nat
    decreases segments.len(),
{
    if segments.len() == 0 {
        0
    } else {
        let before = max_msb(segments.drop_last());
        if segments.last().msb > before {
            segments.last().msb
        } else {
            before
        }
    }
}

/// The least `lsb` among `segments`; 0 when there is none.
pub open spec fn min_lsb(segments: Seq<SegmentModel>) -> nat
    decreases segments.len(),
{
    if segments.len() == 0 {
        0
    } else if segments.len() == 1 {
        segments.last().lsb
    } else {
        let before = min_lsb(segments.drop_last());
        if segments.last().lsb < before {
            segments.last().lsb
        } else {
            before
        }
    }
}

/// The type name that marks a field built from a group of dotted names.
pub open spec fn compound_name() -> Seq<char> {
    "Compound"@
}

/// The composite type whose fields are `segments`.
pub open spec fn composite(segments: Seq<SegmentModel>) -> StructureModel {
    StructureModel { total_width: max_msb(segments) + 1, segments, members: None }
}

/// The field called `key` that owns the fields `inner`: its bounds are the
/// outermost bounds of `inner`.
pub open spec fn compound(key: Seq<char>, inner: Seq<SegmentModel>) -> SegmentModel {
    SegmentModel {
        name: Some(key),
        msb: max_msb(inner),
        lsb: min_lsb(inner),
        ty_name: compound_name(),
        nested: Some(Box::new(composite(inner))),
    }
}

/// The sum of the lengths of the paths of `raws`.
pub open spec fn total_len(raws: Seq<RawModel>) -> nat
    decreases raws.len(),
{
    if raws.len() == 0 {
        0
    } else {
        total_len(raws.drop_last()) + path_of(raws.last()).len()
    }
}

/// The fields that a flat list of raw segments stands for. The segments are
/// grouped by the first component of their paths, the groups in the order in
/// which they first occur. A group in which a path is still dotted becomes
/// one field that owns the fields of the group, built in the same way from
/// the stripped paths; any other group gives one leaf field per segment.
pub open spec fn grouped(raws: Seq<RawModel>) -> Seq<SegmentModel>
    decreases total_len(raws), raws.len(),
{
    if raws.len() == 0 {
        Seq::empty()
    } else {
        let key = group_key(raws[0]);
        let group = select(raws, key, true);
        let rest = select(raws, key, false);
        proof {
            lemma_select_measures(raws, key);
            lemma_stripped_measure(group);
        }
        let first = if any_dotted(group) {
            seq![compound(key, grouped(all_stripped(group)))]
        } else {
            leaves(group)
        };
        first + grouped(rest)
    }
}

/// A group and the rest share out the segments and the lengths of their
/// paths; the group of the first segment's key is not empty.
pub proof fn lemma_select_measures(raws: Seq<RawModel>, key: Seq<char>)
    ensures
        select(raws, key, true).len() + select(raws, key, false).len() == raws.len(),
        total_len(select(raws, key, true)) + total_len(select(raws, key, false)) == total_len(raws),
        raws.len() > 0 && key == group_key(raws[0]) ==> select(raws, key, true).len() > 0,
    decreases raws.len(),
{
    if raws.len() > 0 {
        let front = raws.drop_last();
        lemma_select_measures(front, key);
        let last = raws.last();
        if group_key(last) == key {
            assert(select(raws, key, true).drop_last() =~= select(front, key, true));
        } else {
            assert(select(raws, key, false).drop_last() =~= select(front, key, false));
        }
        if front.len() > 0 {
            assert(front[0] == raws[0]);
        }
    }
}

/// Stripping shortens no path, and shortens one when a path is dotted.
pub proof fn lemma_stripped_measure(raws: Seq<RawModel>)
    ensures
        total_len(all_stripped(raws)) <= total_len(raws),
        any_dotted(raws) ==> total_len(all_stripped(raws)) < total_len(raws),
    decreases raws.len(),
{
    if raws.len() > 0 {
        let front = raws.drop_last();
        let last = raws.last();
        lemma_stripped_measure(front);
        assert(all_stripped(raws).drop_last() =~= all_stripped(front));
        assert(all_stripped(raws).last() == stripped(last));
        lemma_dot_index(path_of(last));
        if any_dotted(raws) {
            let i = choose|i: int| 0 <= i < raws.len() && has_dot(path_of(#[trigger] raws[i]));
            if i < front.len() {
                assert(front[i] == raws[i]);
                assert(any_dotted(front));
            }
        }
    }
}

/// Whether a composite type, and every composite that one of its fields
/// owns, is one bit wider than the highest upper bound among its fields.
pub open spec fn width_covers_fields(s: StructureModel) -> bool
    decreases s,
{
    &&& s.total_width == max_msb(s.segments) + 1
    &&& forall|i: int|
        0 <= i < s.segments.len() ==> ((#[trigger] s.segments[i]).nested matches Some(inner)
            ==> width_covers_fields(*inner))
}

/// Whether every composite owned by a field of `segments` satisfies
/// `width_covers_fields`.
pub open spec fn owned_widths_cover(segments: Seq<SegmentModel>) -> bool {
    forall|i: int|
        0 <= i < segments.len() ==> ((#[trigger] segments[i]).nested matches Some(inner)
            ==> width_covers_fields(*inner))
}

/// Every composite type that `grouped` builds is one bit wider than the
/// highest upper bound among its fields, at every level of nesting; and a
/// list that is not empty gives at least one field.
pub proof fn lemma_grouped_widths(raws: Seq<RawModel>)
    ensures
        owned_widths_cover(grouped(raws)),
        width_covers_fields(composite(grouped(raws))),
        raws.len() > 0 ==> grouped(raws).len() > 0,
    decreases total_len(raws), raws.len(),
{
    if raws.len() > 0 {
        let key = group_key(raws[0]);
        let group = select(raws, key, true);
        let rest = select(raws, key, false);
        lemma_select_measures(raws, key);
        lemma_stripped_measure(group);
        lemma_grouped_widths(rest);
        let first = if any_dotted(group) {
            seq![compound(key, grouped(all_stripped(group)))]
        } else {
            leaves(group)
        };
        if any_dotted(group) {
            lemma_grouped_widths(all_stripped(group));
        }
        let all = first + grouped(rest);
        assert(all == grouped(raws));
        assert forall|i: int| 0 <= i < all.len() implies ((#[trigger] all[i]).nested matches Some(
            inner,
        ) ==> width_covers_fields(*inner)) by {
            if i < first.len() {
                assert(all[i] == first[i]);
            } else {
                assert(all[i] == grouped(rest)[i - first.len()]);
            }
        }
    }
}

/// The greatest magnitude that a bit bound can have.
pub open spec fn bound_limit() -> nat {
    (isize::MAX + 1) as nat
}

/// A segment that waits to be placed, with its remaining path as characters.
struct Pending {
    path: Option<Vec<char>>,
    ty_name: String,
    msb: usize,
    lsb: usize,
}

impl View for Pending {
    type V = RawModel;

    closed spec fn view(&self) -> RawModel {
        RawModel {
            name: match self.path {
                Some(p) => Some(p@),
                None => None,
            },
            ty_name: self.ty_name@,
            msb: self.msb as nat,
            lsb: self.lsb as nat,
        }
    }
}

/// The models of waiting segments, in order.
spec fn pending_models(items: Seq<Pending>) -> Seq<RawModel> {
    Seq::new(items.len(), |i: int| items[i]@)
}

/// Whether no waiting segment has an upper bound beyond `bound_limit`.
spec fn within_limit(items: Seq<Pending>) -> bool {
    forall|i: int| 0 <= i < items.len() ==> (#[trigger] items[i]).msb <= bound_limit()
}

fn magnitude_of(x: isize) -> (m: usize)
    ensures
        m == magnitude(x as int),
        m <= bound_limit(),
{
    if x >= 0 {
        x as usize
    } else if x == isize::MIN {
        (isize::MAX as usize) + 1
    } else {
        (-x) as usize
    }
}

fn first_dot(chars: &[char]) -> (d: usize)
    ensures
        d == dot_index(chars@),
{
    let mut d: usize = 0;
    while d < chars.len() && chars[d] != '.'
        invariant
            d <= chars@.len(),
            forall|j: int| 0 <= j < d ==> chars@[j] != '.',
        decreases chars@.len() - d,
    {
        d += 1;
    }
    proof {
        lemma_dot_index_is(chars@, d as int);
    }
    d
}

fn pending_of(raw: &RawSegment) -> (p: Pending)
    ensures
        p@ == raw@,
        p.msb <= bound_limit(),
{
    let path = match &raw.var_name {
        Some(n) => Some(chars_of(n.as_str())),
        None => None,
    };
    Pending {
        path,
        ty_name: raw.ty_name.clone(),
        msb: magnitude_of(raw.max),
        lsb: magnitude_of(raw.min),
    }
}

fn has_key(item: &Pending, key: &[char]) -> (yes: bool)
    ensures
        yes == (group_key(item@) == key@),
{
    match &item.path {
        Some(p) => {
            let d: usize = first_dot(p.as_slice());
            let front = chars_between(p.as_slice(), 0, d);
            same_chars(front.as_slice(), key)
        },
        None => {
            assert(head(Seq::<char>::empty()) =~= Seq::<char>::empty());
            assert((key@.len() == 0) == (key@ =~= Seq::<char>::empty()));
            key.len() == 0
        },
    }
}

fn key_of(item: &Pending) -> (key: Vec<char>)
    ensures
        key@ == group_key(item@),
{
    match &item.path {
        Some(p) => {
            let d: usize = first_dot(p.as_slice());
            chars_between(p.as_slice(), 0, d)
        },
        None => {
            assert(head(Seq::<char>::empty()) =~= Seq::<char>::empty());
            Vec::new()
        },
    }
}

fn is_dotted(item: &Pending) -> (yes: bool)
    ensures
        yes == has_dot(path_of(item@)),
{
    match &item.path {
        Some(p) => first_dot(p.as_slice()) < p.len(),
        None => false,
    }
}

fn copy_of(item: &Pending) -> (copy: Pending)
    ensures
        copy@ == item@,
        copy.msb == item.msb,
{
    let path = match &item.path {
        Some(p) => Some(chars_between(p.as_slice(), 0, p.len())),
        None => None,
    };
    proof {
        if item.path is Some {
            let p = item.path->0;
            assert(p@.subrange(0, p@.len() as int) =~= p@);
        }
    }
    Pending { path, ty_name: item.ty_name.clone(), msb: item.msb, lsb: item.lsb }
}

fn strip(item: &Pending) -> (shorter: Pending)
    ensures
        shorter@ == stripped(item@),
        shorter.msb == item.msb,
{
    let path = match &item.path {
        Some(p) => {
            let d: usize = first_dot(p.as_slice());
            if d < p.len() {
                Some(chars_between(p.as_slice(), d + 1, p.len()))
            } else {
                assert(p@.subrange(0, p@.len() as int) =~= p@);
                Some(chars_between(p.as_slice(), 0, p.len()))
            }
        },
        None => None,
    };
    Pending { path, ty_name: item.ty_name.clone(), msb: item.msb, lsb: item.lsb }
}

fn leaf_of(item: &Pending) -> (segment: TypeSegment)
    ensures
        segment@ == leaf(item@),
        segment.msb == item.msb,
{
    let name = match &item.path {
        Some(p) => Some(string_of(p.as_slice())),
        None => None,
    };
    TypeSegment {
        name,
        msb: item.msb,
        lsb: item.lsb,
        ty_name: item.ty_name.clone(),
        nested_structure: None,
    }
}

/// The outermost bit bounds of `segments`.
pub fn bounds_of(segments: &Vec<TypeSegment>) -> (bounds: (usize, usize))
    ensures
        bounds.0 == max_msb(segment_models(segments@)),
        bounds.1 == min_lsb(segment_models(segments@)),
{
    let mut hi: usize = 0;
    let mut lo: usize = 0;
    let mut i: usize = 0;
    while i < segments.len()
        invariant
            i <= segments@.len(),
            hi == max_msb(segment_models(segments@.take(i as int))),
            lo == min_lsb(segment_models(segments@.take(i as int))),
        decreases segments@.len() - i,
    {
        proof {
            let before = segments@.take(i as int);
            assert(segments@.take(i + 1) =~= before.push(segments@[i as int]));
            lemma_segment_models_push(before, segments@[i as int]);
            assert(segment_models(before).push(segments@[i as int]@).drop_last() =~= segment_models(
                before,
            ));
            crate::schema::lemma_segment_models(before);
        }
        if segments[i].msb > hi {
            hi = segments[i].msb;
        }
        if i == 0 || segments[i].lsb < lo {
            lo = segments[i].lsb;
        }
        i += 1;
    }
    assert(segments@.take(i as int) =~= segments@);
    (hi, lo)
}

/// Adding a segment to a run adds it to the chosen ones when its key fits.
proof fn lemma_select_step(raws: Seq<RawModel>, i: int, key: Seq<char>, want: bool)
    requires
        0 <= i < raws.len(),
    ensures
        select(raws.take(i + 1), key, want) == if (group_key(raws[i]) == key) == want {
            select(raws.take(i), key, want).push(raws[i])
        } else {
            select(raws.take(i), key, want)
        },
{
    assert(raws.take(i + 1).drop_last() =~= raws.take(i));
}

/// Whether some waiting segment still has a dotted path.
spec fn any_pending_dotted(items: Seq<Pending>) -> bool {
    any_dotted(pending_models(items))
}

/// One more segment has a dotted path among them where it has one itself or
/// one did before.
proof fn lemma_any_dotted_push(raws: Seq<RawModel>, last: RawModel)
    ensures
        any_dotted(raws.push(last)) == (any_dotted(raws) || has_dot(path_of(last))),
{
    let more = raws.push(last);
    if any_dotted(raws) {
        let w = choose|w: int| 0 <= w < raws.len() && has_dot(path_of(#[trigger] raws[w]));
        assert(more[w] == raws[w]);
    }
    if has_dot(path_of(last)) {
        assert(more[raws.len() as int] == last);
    }
    if any_dotted(more) {
        let w = choose|w: int| 0 <= w < more.len() && has_dot(path_of(#[trigger] more[w]));
        if w < raws.len() {
            assert(more[w] == raws[w]);
        }
    }
}

/// Parts `items` into the segments whose group key is `key` and the others,
/// each in their order.
fn partition(items: &Vec<Pending>, key: &[char]) -> (parts: (Vec<Pending>, Vec<Pending>))
    requires
        within_limit(items@),
    ensures
        pending_models(parts.0@) == select(pending_models(items@), key@, true),
        pending_models(parts.1@) == select(pending_models(items@), key@, false),
        within_limit(parts.0@),
        within_limit(parts.1@),
{
    let ghost raws = pending_models(items@);
    let mut group: Vec<Pending> = Vec::new();
    let mut rest: Vec<Pending> = Vec::new();
    let mut i: usize = 0;
    while i < items.len()
        invariant
            i <= items@.len(),
            raws == pending_models(items@),
            within_limit(items@),
            pending_models(group@) == select(raws.take(i as int), key@, true),
            pending_models(rest@) == select(raws.take(i as int), key@, false),
            within_limit(group@),
            within_limit(rest@),
        decreases items@.len() - i,
    {
        let item = &items[i];
        proof {
            lemma_select_step(raws, i as int, key@, true);
            lemma_select_step(raws, i as int, key@, false);
        }
        if has_key(item, key) {
            let ghost before = pending_models(group@);
            group.push(copy_of(item));
            assert(pending_models(group@) =~= before.push(item@));
        } else {
            let ghost before = pending_models(rest@);
            rest.push(copy_of(item));
            assert(pending_models(rest@) =~= before.push(item@));
        }
        i += 1;
    }
    assert(raws.take(i as int) =~= raws);
    (group, rest)
}

/// Whether a segment of `items` still has a dotted path.
fn has_dotted(items: &Vec<Pending>) -> (yes: bool)
    ensures
        yes == any_pending_dotted(items@),
{
    let ghost raws = pending_models(items@);
    let mut i: usize = 0;
    while i < items.len()
        invariant
            i <= items@.len(),
            raws == pending_models(items@),
            !any_dotted(raws.take(i as int)),
        decreases items@.len() - i,
    {
        proof {
            assert(raws.take(i + 1) =~= raws.take(i as int).push(raws[i as int]));
            lemma_any_dotted_push(raws.take(i as int), raws[i as int]);
        }
        if is_dotted(&items[i]) {
            proof {
                assert(has_dot(path_of(raws[i as int])));
            }
            return true;
        }
        i += 1;
    }
    assert(raws.take(i as int) =~= raws);
    false
}

/// Every segment of `items`, stripped.
fn strip_all(items: &Vec<Pending>) -> (out: Vec<Pending>)
    requires
        within_limit(items@),
    ensures
        pending_models(out@) == all_stripped(pending_models(items@)),
        within_limit(out@),
{
    let mut out: Vec<Pending> = Vec::new();
    let mut j: usize = 0;
    while j < items.len()
        invariant
            j <= items@.len(),
            within_limit(items@),
            within_limit(out@),
            pending_models(out@) == all_stripped(pending_models(items@)).take(j as int),
        decreases items@.len() - j,
    {
        let ghost before = pending_models(out@);
        out.push(strip(&items[j]));
        assert(pending_models(out@) =~= before.push(stripped(items@[j as int]@)));
        j += 1;
        assert(all_stripped(pending_models(items@)).take(j as int) =~= all_stripped(
            pending_models(items@),
        ).take(j - 1).push(stripped(items@[j - 1]@)));
    }
    assert(all_stripped(pending_models(items@)).take(j as int) =~= all_stripped(
        pending_models(items@),
    ));
    out
}

/// The leaf fields of `items`, in order.
fn leaves_of(items: &Vec<Pending>) -> (out: Vec<TypeSegment>)
    requires
        within_limit(items@),
    ensures
        segment_models(out@) == leaves(pending_models(items@)),
        forall|k: int| 0 <= k < out@.len() ==> (#[trigger] out@[k]).msb <= bound_limit(),
{
    let mut out: Vec<TypeSegment> = Vec::new();
    let mut j: usize = 0;
    while j < items.len()
        invariant
            j <= items@.len(),
            within_limit(items@),
            segment_models(out@) == leaves(pending_models(items@)).take(j as int),
            forall|k: int| 0 <= k < out@.len() ==> (#[trigger] out@[k]).msb <= bound_limit(),
        decreases items@.len() - j,
    {
        let segment = leaf_of(&items[j]);
        proof {
            lemma_segment_models_push(out@, segment);
        }
        out.push(segment);
        j += 1;
        assert(leaves(pending_models(items@)).take(j as int) =~= leaves(
            pending_models(items@),
        ).take(j - 1).push(leaf(items@[j - 1]@)));
    }
    assert(leaves(pending_models(items@)).take(j as int) =~= leaves(pending_models(items@)));
    out
}

/// The field called `key` that owns the fields `inner`.
fn compound_of(key: &[char], inner: Vec<TypeSegment>) -> (segment: TypeSegment)
    requires
        forall|k: int| 0 <= k < inner@.len() ==> (#[trigger] inner@[k]).msb <= bound_limit(),
    ensures
        segment@ == compound(key@, segment_models(inner@)),
        segment.msb <= bound_limit(),
{
    let bounds = bounds_of(&inner);
    proof {
        lemma_models_within_limit(inner@);
    }
    let ghost inner_models = segment_models(inner@);
    let structure = TypeStructure { total_width: bounds.0 + 1, segments: inner, enum_definition: None };
    assert(structure@ == composite(inner_models));
    TypeSegment {
        name: Some(string_of(key)),
        msb: bounds.0,
        lsb: bounds.1,
        ty_name: "Compound".to_owned(),
        nested_structure: Some(Box::new(structure)),
    }
}

/// Builds the fields of `items`: group by group, and for a group with
/// dotted paths from the stripped paths of the group.
fn build_segments(items: Vec<Pending>) -> (out: Vec<TypeSegment>)
    requires
        within_limit(items@),
    ensures
        segment_models(out@) == grouped(pending_models(items@)),
        forall|i: int| 0 <= i < out@.len() ==> (#[trigger] out@[i]).msb <= bound_limit(),
    decreases total_len(pending_models(items@)),
{
    let ghost raws = pending_models(items@);
    let mut out: Vec<TypeSegment> = Vec::new();
    let mut remaining: Vec<Pending> = items;
    while remaining.len() > 0
        invariant
            raws == pending_models(items@),
            within_limit(remaining@),
            total_len(pending_models(remaining@)) <= total_len(raws),
            segment_models(out@) + grouped(pending_models(remaining@)) == grouped(raws),
            forall|i: int| 0 <= i < out@.len() ==> (#[trigger] out@[i]).msb <= bound_limit(),
        decreases remaining@.len(),
    {
        let ghost now = pending_models(remaining@);
        let key = key_of(&remaining[0]);
        let (group, rest) = partition(&remaining, key.as_slice());
        proof {
            lemma_select_measures(now, key@);
            lemma_stripped_measure(pending_models(group@));
        }
        let mut first: Vec<TypeSegment> = if has_dotted(&group) {
            let inner = build_segments(strip_all(&group));
            let segment = compound_of(key.as_slice(), inner);
            let mut one: Vec<TypeSegment> = Vec::new();
            proof {
                lemma_segment_models_push(one@, segment);
                assert(segment_models(one@.push(segment)) =~= seq![segment@]);
            }
            one.push(segment);
            one
        } else {
            leaves_of(&group)
        };
        proof {
            lemma_segment_models_add(out@, first@);
            assert(grouped(now) == segment_models(first@) + grouped(pending_models(rest@)));
            assert((segment_models(out@) + segment_models(first@)) + grouped(pending_models(rest@))
                =~= segment_models(out@) + (segment_models(first@) + grouped(
                pending_models(rest@),
            )));
        }
        out.append(&mut first);
        remaining = rest;
    }
    assert(segment_models(out@) + Seq::<SegmentModel>::empty() =~= segment_models(out@));
    out
}

/// The greatest upper bound is no greater than a limit on all of them.
proof fn lemma_max_msb_bound(segments: Seq<SegmentModel>, limit: nat)
    requires
        forall|i: int| 0 <= i < segments.len() ==> (#[trigger] segments[i]).msb <= limit,
    ensures
        max_msb(segments) <= limit,
    decreases segments.len(),
{
    if segments.len() > 0 {
        let front = segments.drop_last();
        assert forall|i: int| 0 <= i < front.len() implies (#[trigger] front[i]).msb <= limit by {
            assert(front[i] == segments[i]);
        }
        lemma_max_msb_bound(front, limit);
    }
}

/// Segments within the limit have models whose greatest upper bound is
/// within it.
proof fn lemma_models_within_limit(segments: Seq<TypeSegment>)
    requires
        forall|i: int| 0 <= i < segments.len() ==> (#[trigger] segments[i]).msb <= bound_limit(),
    ensures
        max_msb(segment_models(segments)) <= bound_limit(),
        segment_models(segments).len() == segments.len(),
{
    crate::schema::lemma_segment_models(segments);
    let models = segment_models(segments);
    assert forall|i: int| 0 <= i < models.len() implies (#[trigger] models[i]).msb <= bound_limit() by {
        assert(models[i] == segments[i]@);
    }
    lemma_max_msb_bound(models, bound_limit());
}

/// Builds the fields of a composite type from the flat list of its raw
/// segments: see `grouped`.
pub fn process_nested_segments(raw_segments: &[RawSegment]) -> (out: Vec<TypeSegment>)
    ensures
        segment_models(out@) == grouped(raw_models(raw_segments@)),
        max_msb(segment_models(out@)) < usize::MAX,
{
    let mut items: Vec<Pending> = Vec::new();
    let mut i: usize = 0;
    while i < raw_segments.len()
        invariant
            i <= raw_segments@.len(),
            within_limit(items@),
            pending_models(items@) == raw_models(raw_segments@).take(i as int),
        decreases raw_segments@.len() - i,
    {
        let ghost before = pending_models(items@);
        items.push(pending_of(&raw_segments[i]));
        assert(pending_models(items@) =~= before.push(raw_segments@[i as int]@));
        i += 1;
        assert(raw_models(raw_segments@).take(i as int) =~= raw_models(raw_segments@).take(i - 1).push(
            raw_segments@[i - 1]@,
        ));
    }
    assert(raw_models(raw_segments@).take(i as int) =~= raw_models(raw_segments@));
    let out = build_segments(items);
    proof {
        lemma_models_within_limit(out@);
    }
    out
}

} // verus!

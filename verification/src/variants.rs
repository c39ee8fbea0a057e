//! The database name and id of each variant of a lookup-table enum.
use vstd::prelude::*;
use std::ops::Range;
use crate::attributes::{MetaItem, MetaModel, MetaValue, MetaValueModel};
use crate::case_style::{case_converted, convert_case, CaseStyle};
use crate::errors::{AttrError, AttrFault};
use crate::skip_ids::{covers, in_range, is_skipped, sorted_disjoint};
use crate::text::same_text;

verus! {

/// A variant of the enum: its identifier and the items of its `#[db(..)]`
/// attributes, in order.
#[derive(Clone, Debug, PartialEq, Eq)]
pub struct VariantInput {
    pub ident: String,
    pub metas: Vec<MetaItem>,
}

/// The content of a [`VariantInput`].
pub ghost struct VariantModel {
    pub ident: Seq<char>,
    pub metas: Seq<MetaModel>,
}

impl View for VariantInput {
    type V = VariantModel;

    open spec fn view(&self) -> VariantModel {
        VariantModel { ident: self.ident@, metas: self.metas@.map_values(|m: MetaItem| m@) }
    }
}

/// What the mapping holds for one variant.
#[derive(Clone, Debug, PartialEq, Eq)]
pub struct VariantData {
    pub ident: String,
    pub db_name: String,
    pub id: i32,
}

/// The content of a [`VariantData`].
pub ghost struct VariantDataModel {
    pub ident: Seq<char>,
    pub db_name: Seq<char>,
    pub id: int,
}

impl View for VariantData {
    type V = VariantDataModel;

    open spec fn view(&self) -> VariantDataModel {
        VariantDataModel { ident: self.ident@, db_name: self.db_name@, id: self.id as int }
    }
}

/// Why one item of a variant attribute is refused, if it is.
pub open spec fn variant_meta_fault(m: MetaModel) -> Option<AttrFault> {
    if m.key == "id"@ {
        match m.value {
            MetaValueModel::Int(n) => if i32::MIN <= n <= i32::MAX {
                None
            } else {
                Some(AttrFault::InvalidValue("id"@))
            },
            _ => Some(AttrFault::InvalidValue("id"@)),
        }
    } else if m.key == "name"@ {
        match m.value {
            MetaValueModel::Str(_) => None,
            _ => Some(AttrFault::InvalidValue("name"@)),
        }
    } else {
        Some(AttrFault::UnknownAttribute(m.key))
    }
}

/// The first refused item of a list.
pub open spec fn variant_metas_fault(ms: Seq<MetaModel>) -> Option<AttrFault>
    decreases ms.len(),
{
    if ms.len() == 0 {
        None
    } else {
        match variant_metas_fault(ms.drop_last()) {
            Some(f) => Some(f),
            None => variant_meta_fault(ms.last()),
        }
    }
}

/// The id that the last `id` item gives, if any.
pub open spec fn explicit_id(ms: Seq<MetaModel>) -> Option<int>
    decreases ms.len(),
{
    if ms.len() == 0 {
        None
    } else if ms.last().key == "id"@ && ms.last().value is Int {
        Some(ms.last().value->Int_0 as int)
    } else {
        explicit_id(ms.drop_last())
    }
}

/// The name that the last `name` item gives, if any.
pub open spec fn explicit_name(ms: Seq<MetaModel>) -> Option<Seq<char>>
    decreases ms.len(),
{
    if ms.len() == 0 {
        None
    } else if ms.last().key == "name"@ && ms.last().value is Str {
        Some(ms.last().value->Str_0)
    } else {
        explicit_name(ms.drop_last())
    }
}

/// The first refused item among all variants, in order.
pub open spec fn variants_fault(vs: Seq<VariantModel>) -> Option<AttrFault>
    decreases vs.len(),
{
    if vs.len() == 0 {
        None
    } else {
        match variants_fault(vs.drop_last()) {
            Some(f) => Some(f),
            None => variant_metas_fault(vs.last().metas),
        }
    }
}

/// The smallest id from `c` on that no range of `rs` holds, whatever the
/// order of the ranges.  No range holds the largest `i32`, so the search
/// always ends.
pub open spec fn next_free(c: int, rs: Seq<Range<i32>>) -> int
    decreases i32::MAX - c,
{
    if covers(rs, c) {
        proof {
            let i = choose|i: int| 0 <= i < rs.len() && #[trigger] in_range(rs[i], c);
        }
        next_free(c + 1, rs)
    } else {
        c
    }
}

/// The first free id is free, and every id between the counter and it is held.
proof fn lemma_next_free(c: int, rs: Seq<Range<i32>>)
    ensures
        next_free(c, rs) >= c,
        !covers(rs, next_free(c, rs)),
        forall|y: int| c <= y < next_free(c, rs) ==> #[trigger] covers(rs, y),
        covers(rs, c) ==> next_free(c, rs) > c,
        c <= i32::MAX ==> next_free(c, rs) <= i32::MAX,
    decreases i32::MAX - c,
{
    if covers(rs, c) {
        let i = choose|i: int| 0 <= i < rs.len() && #[trigger] in_range(rs[i], c);
        lemma_next_free(c + 1, rs);
        assert forall|y: int| c <= y < next_free(c, rs) implies #[trigger] covers(rs, y) by {
            if y > c {
                assert(c + 1 <= y < next_free(c + 1, rs));
            }
        }
    }
    if c <= i32::MAX && next_free(c, rs) > i32::MAX {
        assert(covers(rs, i32::MAX as int));
        let i = choose|i: int| 0 <= i < rs.len() && #[trigger] in_range(rs[i], i32::MAX as int);
    }
}

/// Lists that hold the same ids have the same free ids.
proof fn lemma_next_free_same(c: int, a: Seq<Range<i32>>, b: Seq<Range<i32>>)
    requires
        forall|x: int| #[trigger] covers(a, x) <==> covers(b, x),
    ensures
        next_free(c, a) == next_free(c, b),
    decreases i32::MAX - c,
{
    if covers(a, c) {
        let i = choose|i: int| 0 <= i < a.len() && #[trigger] in_range(a[i], c);
        lemma_next_free_same(c + 1, a, b);
    }
}

/// The ids of the variants and the value of the counter afterwards: a
/// variant with an explicit id keeps it and leaves the counter alone; any
/// other variant takes the first free id from the counter on, and the counter
/// moves past it.  The counter starts at 1.
pub open spec fn id_assignment(explicit: Seq<Option<int>>, rs: Seq<Range<i32>>) -> (Seq<int>, int)
    decreases explicit.len(),
{
    if explicit.len() == 0 {
        (Seq::empty(), 1)
    } else {
        let (ids, c) = id_assignment(explicit.drop_last(), rs);
        match explicit.last() {
            Some(n) => (ids.push(n), c),
            None => {
                let id = next_free(c, rs);
                (ids.push(id), id + 1)
            },
        }
    }
}

/// The explicit ids of the variants.
pub open spec fn explicit_ids(vs: Seq<VariantModel>) -> Seq<Option<int>> {
    vs.map_values(|v: VariantModel| explicit_id(v.metas))
}

/// The entry of variant `i`, given its id.
pub open spec fn variant_entry(vs: Seq<VariantModel>, default_names: Seq<Seq<char>>, i: int, id: int) -> VariantDataModel {
    VariantDataModel {
        ident: vs[i].ident,
        db_name: match explicit_name(vs[i].metas) {
            Some(n) => n,
            None => default_names[i],
        },
        id: id,
    }
}

/// What the mapping holds for the variants, given the names that the casing
/// gives their identifiers.
pub open spec fn assigned_variants(
    vs: Seq<VariantModel>,
    default_names: Seq<Seq<char>>,
    rs: Seq<Range<i32>>,
) -> Result<Seq<VariantDataModel>, AttrFault> {
    match variants_fault(vs) {
        Some(f) => Err(f),
        None => {
            let (ids, c) = id_assignment(explicit_ids(vs), rs);
            if c > i32::MAX {
                Err(AttrFault::IdOverflow)
            } else {
                Ok(Seq::new(vs.len(), |i: int| variant_entry(vs, default_names, i, ids[i])))
            }
        },
    }
}

/// The first id from `counter` on that the sorted ranges do not hold.
fn first_free_id(counter: i32, skip_ranges: &Vec<Range<i32>>) -> (res: i32)
    requires
        sorted_disjoint(skip_ranges@),
    ensures
        res as int == next_free(counter as int, skip_ranges@),
{
    let ghost rs = skip_ranges@;
    let ghost end: int = next_free(counter as int, rs);
    proof {
        lemma_next_free(counter as int, rs);
    }
    let mut cur = counter;
    while is_skipped(cur, skip_ranges.as_slice())
        invariant
            sorted_disjoint(rs),
            skip_ranges@ == rs,
            counter <= cur <= end,
            end <= i32::MAX,
            end == next_free(counter as int, rs),
            !covers(rs, end),
            forall|y: int| counter <= y < end ==> #[trigger] covers(rs, y),
        decreases end - cur,
    {
        cur = cur + 1;
    }
    proof {
        if cur < end {
            assert(covers(rs, cur as int));
        }
    }
    cur
}

/// Once a prefix of the items holds a refused item, the first refusal stays.
proof fn lemma_metas_fault_prefix(ms: Seq<MetaModel>, k: int)
    requires
        0 <= k <= ms.len(),
        variant_metas_fault(ms.take(k)) is Some,
    ensures
        variant_metas_fault(ms) == variant_metas_fault(ms.take(k)),
    decreases ms.len() - k,
{
    if k < ms.len() {
        assert(ms.take(k + 1).drop_last() =~= ms.take(k));
        lemma_metas_fault_prefix(ms, k + 1);
    } else {
        assert(ms.take(k) =~= ms);
    }
}

/// Reads the `id` and `name` items of one variant.
fn scan_variant_metas(metas: &Vec<MetaItem>) -> (res: Result<(Option<i32>, Option<String>), AttrError>)
    ensures
        res matches Err(e) ==> variant_metas_fault(metas@.map_values(|m: MetaItem| m@)) == Some(e@),
        res matches Ok((id, name)) ==> {
            &&& variant_metas_fault(metas@.map_values(|m: MetaItem| m@)) is None
            &&& match id {
                Some(n) => explicit_id(metas@.map_values(|m: MetaItem| m@)) == Some(n as int),
                None => explicit_id(metas@.map_values(|m: MetaItem| m@)) is None,
            }
            &&& match name {
                Some(n) => explicit_name(metas@.map_values(|m: MetaItem| m@)) == Some(n@),
                None => explicit_name(metas@.map_values(|m: MetaItem| m@)) is None,
            }
        },
{
    let ghost ms = metas@.map_values(|m: MetaItem| m@);
    let mut id: Option<i32> = None;
    let mut name: Option<String> = None;
    let mut i: usize = 0;
    while i < metas.len()
        invariant
            i <= metas@.len(),
            ms == metas@.map_values(|m: MetaItem| m@),
            variant_metas_fault(ms.take(i as int)) is None,
            match id {
                Some(n) => explicit_id(ms.take(i as int)) == Some(n as int),
                None => explicit_id(ms.take(i as int)) is None,
            },
            match name {
                Some(n) => explicit_name(ms.take(i as int)) == Some(n@),
                None => explicit_name(ms.take(i as int)) is None,
            },
        decreases metas@.len() - i,
    {
        let m = &metas[i];
        assert(ms.take(i + 1).drop_last() =~= ms.take(i as int));
        assert(ms.take(i + 1).last() == m@);
        if same_text(m.key.as_str(), "id") {
            match &m.value {
                MetaValue::Int(n) => {
                    if *n < i32::MIN as i64 || *n > i32::MAX as i64 {
                        proof {
                            lemma_metas_fault_prefix(ms, i + 1);
                        }
                        return Err(AttrError::InvalidValue(String::from_str("id")));
                    }
                    id = Some(*n as i32);
                },
                _ => {
                    proof {
                        lemma_metas_fault_prefix(ms, i + 1);
                    }
                    return Err(AttrError::InvalidValue(String::from_str("id")));
                },
            }
        } else if same_text(m.key.as_str(), "name") {
            match &m.value {
                MetaValue::Str(s) => {
                    name = Some(s.clone());
                },
                _ => {
                    proof {
                        lemma_metas_fault_prefix(ms, i + 1);
                    }
                    return Err(AttrError::InvalidValue(String::from_str("name")));
                },
            }
        } else {
            proof {
                lemma_metas_fault_prefix(ms, i + 1);
            }
            return Err(AttrError::UnknownAttribute(m.key.clone()));
        }
        i = i + 1;
    }
    assert(ms.take(metas@.len() as int) =~= ms);
    Ok((id, name))
}

/// Once a prefix of the variants holds a refused item, the first refusal stays.
proof fn lemma_variants_fault_prefix(vs: Seq<VariantModel>, k: int)
    requires
        0 <= k <= vs.len(),
        variants_fault(vs.take(k)) is Some,
    ensures
        variants_fault(vs) == variants_fault(vs.take(k)),
    decreases vs.len() - k,
{
    if k < vs.len() {
        assert(vs.take(k + 1).drop_last() =~= vs.take(k));
        lemma_variants_fault_prefix(vs, k + 1);
    } else {
        assert(vs.take(k) =~= vs);
    }
}

/// Lists that hold the same ids give the same numbering.
proof fn lemma_id_assignment_same(ex: Seq<Option<int>>, a: Seq<Range<i32>>, b: Seq<Range<i32>>)
    requires
        forall|x: int| #[trigger] covers(a, x) <==> covers(b, x),
    ensures
        id_assignment(ex, a) == id_assignment(ex, b),
    decreases ex.len(),
{
    if ex.len() > 0 {
        lemma_id_assignment_same(ex.drop_last(), a, b);
        lemma_next_free_same(id_assignment(ex.drop_last(), a).1, a, b);
    }
}

/// The counter never goes back.
proof fn lemma_counter_grows(ex: Seq<Option<int>>, rs: Seq<Range<i32>>, k: int)
    requires
        0 <= k <= ex.len(),
    ensures
        id_assignment(ex.take(k), rs).1 <= id_assignment(ex, rs).1,
        id_assignment(ex, rs).0.len() == ex.len(),
    decreases ex.len() - k,
{
    if k < ex.len() {
        lemma_counter_grows(ex, rs, k + 1);
        assert(ex.take(k + 1).drop_last() =~= ex.take(k));
        lemma_next_free(id_assignment(ex.take(k), rs).1, rs);
    } else {
        assert(ex.take(k) =~= ex);
    }
    lemma_assignment_len(ex, rs);
}

proof fn lemma_assignment_len(ex: Seq<Option<int>>, rs: Seq<Range<i32>>)
    ensures
        id_assignment(ex, rs).0.len() == ex.len(),
        id_assignment(ex, rs).1 >= 1,
    decreases ex.len(),
{
    if ex.len() > 0 {
        lemma_assignment_len(ex.drop_last(), rs);
        lemma_next_free(id_assignment(ex.drop_last(), rs).1, rs);
    }
}

/// Gives each variant its database name and id, once the names that the
/// casing gives the identifiers are known.
pub fn assign_variant_data(
    variants: &Vec<VariantInput>,
    default_names: &Vec<String>,
    skip_ranges: &Vec<Range<i32>>,
) -> (res: Result<Vec<VariantData>, AttrError>)
    requires
        default_names@.len() == variants@.len(),
    ensures
        res matches Ok(v) ==> assigned_variants(
            variants@.map_values(|v: VariantInput| v@),
            default_names@.map_values(|s: String| s@),
            skip_ranges@,
        ) == Ok::<Seq<VariantDataModel>, AttrFault>(v@.map_values(|d: VariantData| d@)),
        res matches Err(e) ==> assigned_variants(
            variants@.map_values(|v: VariantInput| v@),
            default_names@.map_values(|s: String| s@),
            skip_ranges@,
        ) == Err::<Seq<VariantDataModel>, AttrFault>(e@),
{
    let ghost vs = variants@.map_values(|v: VariantInput| v@);
    let ghost names = default_names@.map_values(|s: String| s@);
    let ghost ex = explicit_ids(vs);
    let mut ids_given: Vec<Option<i32>> = Vec::new();
    let mut names_given: Vec<Option<String>> = Vec::new();
    let mut i: usize = 0;
    while i < variants.len()
        invariant
            i <= variants@.len(),
            vs == variants@.map_values(|v: VariantInput| v@),
            ex == explicit_ids(vs),
            variants_fault(vs.take(i as int)) is None,
            ids_given@.len() == i,
            names_given@.len() == i,
            forall|j: int| 0 <= j < i ==> match #[trigger] ids_given@[j] {
                Some(n) => ex[j] == Some(n as int),
                None => ex[j] is None,
            },
            forall|j: int| 0 <= j < i ==> match #[trigger] names_given@[j] {
                Some(n) => explicit_name(vs[j].metas) == Some(n@),
                None => explicit_name(vs[j].metas) is None,
            },
        decreases variants@.len() - i,
    {
        assert(vs.take(i + 1).drop_last() =~= vs.take(i as int));
        assert(vs.take(i + 1).last() == vs[i as int]);
        match scan_variant_metas(&variants[i].metas) {
            Ok((id, name)) => {
                ids_given.push(id);
                names_given.push(name);
            },
            Err(e) => {
                proof {
                    lemma_variants_fault_prefix(vs, i + 1);
                }
                return Err(e);
            },
        }
        i = i + 1;
    }
    assert(vs.take(variants@.len() as int) =~= vs);
    let sorted = crate::skip_ids::normalize_ranges(skip_ranges);
    let ghost rs = sorted@;
    proof {
        crate::skip_ids::lemma_normalized_sorted(rs);
        lemma_id_assignment_same(ex, rs, skip_ranges@);
    }
    let mut out: Vec<VariantData> = Vec::new();
    let mut counter: i64 = 1;
    let mut k: usize = 0;
    proof {
        lemma_counter_grows(ex, rs, 0);
        assert(ex.take(0) =~= Seq::<Option<int>>::empty());
    }
    while k < variants.len()
        invariant
            k <= variants@.len(),
            variants@.len() == ids_given@.len(),
            variants@.len() == names_given@.len(),
            variants@.len() == default_names@.len(),
            vs == variants@.map_values(|v: VariantInput| v@),
            names == default_names@.map_values(|s: String| s@),
            rs == sorted@,
            sorted_disjoint(rs),
            id_assignment(ex, rs) == id_assignment(ex, skip_ranges@),
            ex == explicit_ids(vs),
            variants_fault(vs) is None,
            forall|j: int| 0 <= j < variants@.len() ==> match #[trigger] ids_given@[j] {
                Some(n) => ex[j] == Some(n as int),
                None => ex[j] is None,
            },
            forall|j: int| 0 <= j < variants@.len() ==> match #[trigger] names_given@[j] {
                Some(n) => explicit_name(vs[j].metas) == Some(n@),
                None => explicit_name(vs[j].metas) is None,
            },
            1 <= counter <= i32::MAX,
            counter == id_assignment(ex.take(k as int), rs).1,
            out@.len() == k,
            forall|j: int| 0 <= j < k ==> (#[trigger] out@[j])@ == variant_entry(vs, names, j, id_assignment(ex.take(k as int), rs).0[j]),
            id_assignment(ex.take(k as int), rs).0.len() == k,
        decreases variants@.len() - k,
    {
        let ghost prev = id_assignment(ex.take(k as int), rs);
        assert(ex.take(k + 1).drop_last() =~= ex.take(k as int));
        assert(ex.take(k + 1).last() == ex[k as int]);
        let id: i32 = match ids_given[k] {
            Some(n) => n,
            None => {
                let found = first_free_id(counter as i32, &sorted);
                proof {
                    lemma_next_free(counter as int, rs);
                }
                if found == i32::MAX {
                    proof {
                        lemma_counter_grows(ex, rs, k + 1);
                    }
                    return Err(AttrError::IdOverflow);
                }
                counter = found as i64 + 1;
                found
            },
        };
        let db_name = match &names_given[k] {
            Some(n) => n.clone(),
            None => default_names[k].clone(),
        };
        let ghost before = out@;
        out.push(VariantData { ident: variants[k].ident.clone(), db_name, id });
        proof {
            let next = id_assignment(ex.take(k + 1), rs);
            assert(next.0 == prev.0.push(id as int));
            assert forall|j: int| 0 <= j < k + 1 implies (#[trigger] out@[j])@ == variant_entry(vs, names, j, next.0[j]) by {
                if j < k {
                    assert(out@[j] == before[j]);
                }
            }
        }
        k = k + 1;
    }
    proof {
        assert(ex.take(variants@.len() as int) =~= ex);
        let (ids, c) = id_assignment(ex, rs);
        assert(out@.map_values(|d: VariantData| d@) =~= Seq::new(vs.len(), |i: int| variant_entry(vs, names, i, ids[i])));
    }
    Ok(out)
}

/// The names that the casing gives the identifiers of the variants.
pub open spec fn cased_names(vs: Seq<VariantModel>, case: CaseStyle) -> Seq<Seq<char>> {
    vs.map_values(|v: VariantModel| case_converted(v.ident, case))
}

/// Gives each variant of a lookup-table enum its database name and id.
///
/// The name is the last `name` item of the variant, or else the identifier
/// in the given casing.  The id is the last `id` item, or else the next id of
/// the automatic numbering, which starts at 1 and passes over the ids that
/// any of `skip_ranges` holds, in whatever order the ranges are given.
pub fn process_variants(
    variants: &Vec<VariantInput>,
    case: CaseStyle,
    skip_ranges: &Vec<Range<i32>>,
) -> (res: Result<Vec<VariantData>, AttrError>)
    ensures
        res matches Ok(v) ==> assigned_variants(
            variants@.map_values(|v: VariantInput| v@),
            cased_names(variants@.map_values(|v: VariantInput| v@), case),
            skip_ranges@,
        ) == Ok::<Seq<VariantDataModel>, AttrFault>(v@.map_values(|d: VariantData| d@)),
        res matches Err(e) ==> assigned_variants(
            variants@.map_values(|v: VariantInput| v@),
            cased_names(variants@.map_values(|v: VariantInput| v@), case),
            skip_ranges@,
        ) == Err::<Seq<VariantDataModel>, AttrFault>(e@),
{
    let ghost vs = variants@.map_values(|v: VariantInput| v@);
    let mut names: Vec<String> = Vec::new();
    let mut i: usize = 0;
    while i < variants.len()
        invariant
            i <= variants@.len(),
            vs == variants@.map_values(|v: VariantInput| v@),
            names@.len() == i,
            forall|j: int| 0 <= j < i ==> (#[trigger] names@[j])@ == case_converted(vs[j].ident, case),
        decreases variants@.len() - i,
    {
        names.push(convert_case(variants[i].ident.as_str(), case));
        i = i + 1;
    }
    assert(names@.map_values(|s: String| s@) =~= cased_names(vs, case));
    assign_variant_data(variants, &names, skip_ranges)
}

/// The automatic numbering: explicit ids are kept; the other variants receive,
/// in order, strictly increasing ids from 1 on that no skipped range holds,
/// and every free id below the counter goes to one of them.
pub proof fn lemma_auto_ids(ex: Seq<Option<int>>, rs: Seq<Range<i32>>)
    ensures
        id_assignment(ex, rs).0.len() == ex.len(),
        forall|i: int| 0 <= i < ex.len() && ex[i] is Some ==> #[trigger] id_assignment(ex, rs).0[i] == ex[i]->0,
        forall|i: int| 0 <= i < ex.len() && ex[i] is None ==> !covers(rs, #[trigger] id_assignment(ex, rs).0[i])
            && 1 <= id_assignment(ex, rs).0[i] < id_assignment(ex, rs).1,
        forall|i: int, j: int| 0 <= i < j < ex.len() && ex[i] is None && ex[j] is None
            ==> #[trigger] id_assignment(ex, rs).0[i] < #[trigger] id_assignment(ex, rs).0[j],
        forall|y: int| 1 <= y < id_assignment(ex, rs).1 && !covers(rs, y) ==> exists|i: int|
            0 <= i < ex.len() && ex[i] is None && #[trigger] id_assignment(ex, rs).0[i] == y,
    decreases ex.len(),
{
    if ex.len() > 0 {
        let d = ex.drop_last();
        lemma_auto_ids(d, rs);
        lemma_assignment_len(d, rs);
        let (ids0, c0) = id_assignment(d, rs);
        let (ids, c) = id_assignment(ex, rs);
        let n = ex.len() - 1;
        assert forall|i: int| 0 <= i < n implies ids[i] == ids0[i] && ex[i] == d[i] by {}
        if ex.last() is None {
            let id = next_free(c0, rs);
            lemma_next_free(c0, rs);
            assert(!covers(rs, id));
            assert forall|y: int| 1 <= y < c && !covers(rs, y) implies exists|i: int|
                0 <= i < ex.len() && ex[i] is None && #[trigger] ids[i] == y by {
                if y < c0 {
                    let i = choose|i: int| 0 <= i < d.len() && d[i] is None && #[trigger] ids0[i] == y;
                    assert(ids[i] == y);
                } else {
                    assert(y == id);
                    assert(ids[n] == y);
                }
            }
        } else {
            assert forall|y: int| 1 <= y < c && !covers(rs, y) implies exists|i: int|
                0 <= i < ex.len() && ex[i] is None && #[trigger] ids[i] == y by {
                let i = choose|i: int| 0 <= i < d.len() && d[i] is None && #[trigger] ids0[i] == y;
                assert(ids[i] == y);
            }
        }
    }
}

} // verus!

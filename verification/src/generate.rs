//! What the derives generate for an enum, as plain values: the test that
//! checks the mapping, and the content of the generated implementations.
use vstd::prelude::*;
use crate::attributes::{
    check_features, diesel_type_path, enabled_features, id_type_named, EnumKind, IdType, PathModel, RunnerFeatures,
    RunnerModel, TestRunner, TypePath,
};
use crate::case_style::{case_converted, convert_case, CaseStyle};
use crate::container::{
    block_views, blocks_wf, container_outcome, lemma_diesel_sql_type_sets_id_type, lemma_pg_diesel_sql_type,
    no_db_item, pg_container_outcome, sql_type_item, AttrBlock, BlockModel, ContainerAttrs, PgContainerAttrs,
};
use crate::errors::{AttrError, AttrFault};
use crate::variants::{
    assigned_variants, cased_names, process_variants, VariantData, VariantDataModel, VariantInput,
    VariantModel,
};

verus! {

/// The test that the derive generates to check the mapping against the database.
#[derive(Clone, Debug, PartialEq, Eq)]
pub struct GeneratedTest {
    /// The name of the test function.
    pub fn_name: String,
    /// The runner that the test calls.
    pub runner: TestRunner,
    /// The method of the runner that the test calls.
    pub check_method: &'static str,
}

/// The content of a [`GeneratedTest`].
pub ghost struct GeneratedTestModel {
    pub fn_name: Seq<char>,
    pub runner: RunnerModel,
    pub check_method: Seq<char>,
}

impl View for GeneratedTest {
    type V = GeneratedTestModel;

    open spec fn view(&self) -> GeneratedTestModel {
        GeneratedTestModel { fn_name: self.fn_name@, runner: self.runner@, check_method: self.check_method@ }
    }
}

/// The name of the generated test: the enum's name in snake case followed
/// by `_db_enum_check`.
pub open spec fn test_fn_name(enum_ident: Seq<char>) -> Seq<char> {
    case_converted(enum_ident, CaseStyle::Snake) + "_db_enum_check"@
}

/// The runner method that checks each kind of mapping.
pub open spec fn check_method_name(kind: EnumKind) -> Seq<char> {
    match kind {
        EnumKind::PgEnum => "check_pg_enum"@,
        EnumKind::LookupTable => "check_enum"@,
    }
}

/// The generated test for a runner.
pub open spec fn test_for(runner: RunnerModel, kind: EnumKind, enum_ident: Seq<char>) -> GeneratedTestModel {
    GeneratedTestModel { fn_name: test_fn_name(enum_ident), runner, check_method: check_method_name(kind) }
}

impl TestRunner {
    /// The test that checks the mapping of the enum with this runner.
    pub fn generate_test(&self, enum_kind: EnumKind, enum_ident: &str) -> (res: GeneratedTest)
        ensures
            res@ == test_for(self@, enum_kind, enum_ident@),
    {
        let mut fn_name = convert_case(enum_ident, CaseStyle::Snake);
        fn_name.append("_db_enum_check");
        let check_method = match enum_kind {
            EnumKind::PgEnum => "check_pg_enum",
            EnumKind::LookupTable => "check_enum",
        };
        GeneratedTest { fn_name, runner: self.duplicate(), check_method }
    }
}

/// The test that the settings call for: none with `skip_test`.
pub open spec fn planned_test(
    skip_test: bool,
    runner: Option<RunnerModel>,
    kind: EnumKind,
    enum_ident: Seq<char>,
) -> Option<GeneratedTestModel> {
    match runner {
        Some(r) => if skip_test {
            None
        } else {
            Some(test_for(r, kind, enum_ident))
        },
        None => None,
    }
}

/// The test as a model.
pub open spec fn test_view(t: Option<GeneratedTest>) -> Option<GeneratedTestModel> {
    match t {
        Some(g) => Some(g@),
        None => None,
    }
}

fn plan_test(
    skip_test: bool,
    runner: &Option<TestRunner>,
    kind: EnumKind,
    enum_ident: &str,
) -> (res: Option<GeneratedTest>)
    ensures
        test_view(res) == planned_test(skip_test, crate::container::runner_view(*runner), kind, enum_ident@),
{
    match runner {
        Some(r) => if skip_test {
            None
        } else {
            Some(r.generate_test(kind, enum_ident))
        },
        None => None,
    }
}

/// An enum as the derives see it: its name, its attributes and its variants.
#[derive(Clone, Debug, PartialEq, Eq)]
pub struct EnumItem {
    pub ident: String,
    pub attrs: Vec<AttrBlock>,
    pub variants: Vec<VariantInput>,
}

/// The content of an [`EnumItem`].
pub ghost struct EnumModel {
    pub ident: Seq<char>,
    pub attrs: Seq<BlockModel>,
    pub variants: Seq<VariantModel>,
}

impl View for EnumItem {
    type V = EnumModel;

    open spec fn view(&self) -> EnumModel {
        EnumModel {
            ident: self.ident@,
            attrs: block_views(self.attrs@),
            variants: self.variants@.map_values(|v: VariantInput| v@),
        }
    }
}

impl EnumItem {
    /// Every path in the attributes has a segment.
    pub open spec fn wf(&self) -> bool {
        blocks_wf(self.attrs@)
    }
}

/// What the lookup-table derive implements for an enum.
#[derive(Clone, Debug, PartialEq, Eq)]
pub struct DbEnumImpl {
    pub enum_ident: String,
    pub table_path: TypePath,
    pub table_name: String,
    pub name_column: String,
    pub id_type: IdType,
    /// The name and id of each variant, in the order of the enum.
    pub variants: Vec<VariantData>,
    pub generated_test: Option<GeneratedTest>,
}

/// The content of a [`DbEnumImpl`].
pub ghost struct DbEnumImplModel {
    pub enum_ident: Seq<char>,
    pub table_path: PathModel,
    pub table_name: Seq<char>,
    pub name_column: Seq<char>,
    pub id_type: IdType,
    pub variants: Seq<VariantDataModel>,
    pub generated_test: Option<GeneratedTestModel>,
}

impl View for DbEnumImpl {
    type V = DbEnumImplModel;

    open spec fn view(&self) -> DbEnumImplModel {
        DbEnumImplModel {
            enum_ident: self.enum_ident@,
            table_path: self.table_path@,
            table_name: self.table_name@,
            name_column: self.name_column@,
            id_type: self.id_type,
            variants: self.variants@.map_values(|d: VariantData| d@),
            generated_test: test_view(self.generated_test),
        }
    }
}

/// What the lookup-table derive implements for an enum, or why it refuses it.
pub open spec fn db_enum_outcome(item: EnumModel, features: RunnerFeatures) -> Result<DbEnumImplModel, AttrFault> {
    if enabled_features(features).len() > 1 {
        Err(AttrFault::MultipleDefaultRunners(enabled_features(features)))
    } else {
        match container_outcome(case_converted(item.ident, CaseStyle::Snake), item.attrs, true, features) {
            Err(f) => Err(f),
            Ok(c) => match assigned_variants(item.variants, cased_names(item.variants, c.common.case), c.skip_ranges) {
                Err(f) => Err(f),
                Ok(vs) => Ok(DbEnumImplModel {
                    enum_ident: item.ident,
                    table_path: c.table_path,
                    table_name: c.table_name,
                    name_column: c.name_column,
                    id_type: c.id_type,
                    variants: vs,
                    generated_test: planned_test(c.common.skip_test, c.common.test_runner, EnumKind::LookupTable, item.ident),
                }),
            },
        }
    }
}

/// Reads an enum for the lookup-table derive: checks the features, reads the
/// attributes, and gives each variant its name and id.
pub fn db_enum_derive(item: &EnumItem, features: RunnerFeatures) -> (res: Result<DbEnumImpl, AttrError>)
    requires
        item.wf(),
    ensures
        match db_enum_outcome(item@, features) {
            Ok(m) => res matches Ok(d) && d@ == m,
            Err(f) => res matches Err(e) && e@ == f,
        },
{
    check_features(features)?;
    let attrs = ContainerAttrs::parse(item.ident.as_str(), &item.attrs, true, features)?;
    let variants = process_variants(&item.variants, attrs.common_attrs.case, &attrs.skip_ranges)?;
    let generated_test = plan_test(
        attrs.common_attrs.skip_test,
        &attrs.common_attrs.test_runner,
        EnumKind::LookupTable,
        item.ident.as_str(),
    );
    Ok(DbEnumImpl {
        enum_ident: item.ident.clone(),
        table_path: attrs.table_path,
        table_name: attrs.table_name,
        name_column: attrs.name_column,
        id_type: attrs.id_type,
        variants,
        generated_test,
    })
}

/// The id type that the attribute macro of a lookup-table enum passes to
/// `#[diesel(sql_type = ..)]`, as the path of its `diesel::sql_types` type.
pub fn db_enum_proc_macro(item: &EnumItem, features: RunnerFeatures) -> (res: Result<TypePath, AttrError>)
    requires
        item.wf(),
    ensures
        match container_outcome(case_converted(item@.ident, CaseStyle::Snake), item@.attrs, false, features) {
            Ok(c) => res matches Ok(p) && p@ == diesel_type_path(c.id_type),
            Err(f) => res matches Err(e) && e@ == f,
        },
{
    let attrs = ContainerAttrs::parse(item.ident.as_str(), &item.attrs, false, features)?;
    Ok(attrs.id_type.diesel_type())
}

/// What the Postgres derive implements for an enum.
#[derive(Clone, Debug, PartialEq, Eq)]
pub struct PgEnumImpl {
    pub enum_ident: String,
    pub sql_type_path: TypePath,
    pub pg_enum_name: String,
    /// The name in Postgres of each variant, in the order of the enum.
    pub variant_names: Vec<String>,
    pub generated_test: Option<GeneratedTest>,
}

/// The content of a [`PgEnumImpl`].
pub ghost struct PgEnumImplModel {
    pub enum_ident: Seq<char>,
    pub sql_type_path: PathModel,
    pub pg_enum_name: Seq<char>,
    pub variant_names: Seq<Seq<char>>,
    pub generated_test: Option<GeneratedTestModel>,
}

impl View for PgEnumImpl {
    type V = PgEnumImplModel;

    open spec fn view(&self) -> PgEnumImplModel {
        PgEnumImplModel {
            enum_ident: self.enum_ident@,
            sql_type_path: self.sql_type_path@,
            pg_enum_name: self.pg_enum_name@,
            variant_names: self.variant_names@.map_values(|s: String| s@),
            generated_test: test_view(self.generated_test),
        }
    }
}

/// What the Postgres derive implements for an enum, or why it refuses it.
/// The name of each variant is its identifier in the casing of the enum;
/// the Postgres derive reads no variant attributes.
pub open spec fn pg_enum_outcome(item: EnumModel, features: RunnerFeatures) -> Result<PgEnumImplModel, AttrFault> {
    if enabled_features(features).len() > 1 {
        Err(AttrFault::MultipleDefaultRunners(enabled_features(features)))
    } else {
        match pg_container_outcome(item.ident, item.attrs, true, features) {
            Err(f) => Err(f),
            Ok(c) => Ok(PgEnumImplModel {
                enum_ident: item.ident,
                sql_type_path: c.sql_type_path,
                pg_enum_name: c.pg_enum_name,
                variant_names: cased_names(item.variants, c.common.case),
                generated_test: planned_test(c.common.skip_test, c.common.test_runner, EnumKind::PgEnum, item.ident),
            }),
        }
    }
}

/// Reads an enum for the Postgres derive.
pub fn pg_enum_derive_impl(item: &EnumItem, features: RunnerFeatures) -> (res: Result<PgEnumImpl, AttrError>)
    requires
        item.wf(),
    ensures
        match pg_enum_outcome(item@, features) {
            Ok(m) => res matches Ok(d) && d@ == m,
            Err(f) => res matches Err(e) && e@ == f,
        },
{
    check_features(features)?;
    let attrs = PgContainerAttrs::parse(item.ident.as_str(), &item.attrs, true, features)?;
    let ghost vs = item.variants@.map_values(|v: VariantInput| v@);
    let mut variant_names: Vec<String> = Vec::new();
    let mut i: usize = 0;
    while i < item.variants.len()
        invariant
            i <= item.variants@.len(),
            vs == item.variants@.map_values(|v: VariantInput| v@),
            variant_names@.len() == i,
            forall|j: int| 0 <= j < i ==> (#[trigger] variant_names@[j])@ == case_converted(vs[j].ident, attrs.common_attrs.case),
        decreases item.variants@.len() - i,
    {
        variant_names.push(convert_case(item.variants[i].ident.as_str(), attrs.common_attrs.case));
        i = i + 1;
    }
    assert(variant_names@.map_values(|s: String| s@) =~= cased_names(vs, attrs.common_attrs.case));
    let generated_test = plan_test(
        attrs.common_attrs.skip_test,
        &attrs.common_attrs.test_runner,
        EnumKind::PgEnum,
        item.ident.as_str(),
    );
    Ok(PgEnumImpl {
        enum_ident: item.ident.clone(),
        sql_type_path: attrs.sql_type_path,
        pg_enum_name: attrs.pg_enum_name,
        variant_names,
        generated_test,
    })
}

/// The custom type that the attribute macro of a Postgres enum passes to
/// `#[diesel(sql_type = ..)]`.
pub fn pg_enum_proc_macro(item: &EnumItem, features: RunnerFeatures) -> (res: Result<TypePath, AttrError>)
    requires
        item.wf(),
    ensures
        match pg_container_outcome(item@.ident, item@.attrs, false, features) {
            Ok(c) => res matches Ok(p) && p@ == c.sql_type_path,
            Err(f) => res matches Err(e) && e@ == f,
        },
{
    let attrs = PgContainerAttrs::parse(item.ident.as_str(), &item.attrs, false, features)?;
    Ok(attrs.sql_type_path)
}

/// The lookup-table derive generates the checking test exactly when the
/// attributes do not say `skip_test`.
pub proof fn lemma_test_generated_unless_skipped(item: EnumModel, features: RunnerFeatures)
    ensures
        db_enum_outcome(item, features) matches Ok(d) ==> (container_outcome(
            case_converted(item.ident, CaseStyle::Snake),
            item.attrs,
            true,
            features,
        ) matches Ok(c) && (d.generated_test is Some <==> !c.common.skip_test)),
        pg_enum_outcome(item, features) matches Ok(d) ==> (pg_container_outcome(
            item.ident,
            item.attrs,
            true,
            features,
        ) matches Ok(c) && (d.generated_test is Some <==> !c.common.skip_test)),
{
    crate::container::lemma_runner_iff_not_skipped(
        case_converted(item.ident, CaseStyle::Snake),
        item.ident,
        item.attrs,
        true,
        features,
    );
}

/// The first variant, in the order of the enum, whose database name is
/// `name`: the arm that the generated `from_db_name` takes, and so the variant
/// that reading back the text or the Postgres bytes of a name gives.
pub open spec fn variant_named(vs: Seq<VariantDataModel>, name: Seq<char>) -> Option<int>
    decreases vs.len(),
{
    if vs.len() == 0 {
        None
    } else {
        match variant_named(vs.drop_last(), name) {
            Some(k) => Some(k),
            None => if vs.last().db_name == name {
                Some(vs.len() - 1)
            } else {
                None
            },
        }
    }
}

/// The first variant, in the order of the enum, whose id is `id`: the arm
/// that the generated `from_db_id` takes, and so the variant that reading back
/// a written id gives.
pub open spec fn variant_with_id(vs: Seq<VariantDataModel>, id: int) -> Option<int>
    decreases vs.len(),
{
    if vs.len() == 0 {
        None
    } else {
        match variant_with_id(vs.drop_last(), id) {
            Some(k) => Some(k),
            None => if vs.last().id == id {
                Some(vs.len() - 1)
            } else {
                None
            },
        }
    }
}

/// The first position of `name` among the Postgres names of the variants:
/// the arm that the generated `from_db_name` and `from_sql` take.
pub open spec fn pg_variant_named(names: Seq<Seq<char>>, name: Seq<char>) -> Option<int>
    decreases names.len(),
{
    if names.len() == 0 {
        None
    } else {
        match pg_variant_named(names.drop_last(), name) {
            Some(k) => Some(k),
            None => if names.last() == name {
                Some(names.len() - 1)
            } else {
                None
            },
        }
    }
}

/// No two variants share a database name.
pub open spec fn names_distinct(vs: Seq<VariantDataModel>) -> bool {
    forall|i: int, j: int| 0 <= i < j < vs.len() ==> (#[trigger] vs[i]).db_name != (#[trigger] vs[j]).db_name
}

/// No two variants share an id.
pub open spec fn ids_distinct(vs: Seq<VariantDataModel>) -> bool {
    forall|i: int, j: int| 0 <= i < j < vs.len() ==> (#[trigger] vs[i]).id != (#[trigger] vs[j]).id
}

proof fn lemma_variant_named_finds(vs: Seq<VariantDataModel>, k: int)
    requires
        names_distinct(vs),
        0 <= k < vs.len(),
    ensures
        variant_named(vs, vs[k].db_name) == Some(k),
    decreases vs.len(),
{
    let d = vs.drop_last();
    let n = vs.len() - 1;
    if k < n {
        assert(names_distinct(d)) by {
            assert forall|i: int, j: int| 0 <= i < j < d.len() implies (#[trigger] d[i]).db_name != (#[trigger] d[j]).db_name by {
                assert(d[i] == vs[i] && d[j] == vs[j]);
            }
        }
        assert(d[k] == vs[k]);
        lemma_variant_named_finds(d, k);
    } else {
        lemma_variant_named_misses(d, vs[k].db_name);
    }
}

proof fn lemma_variant_named_misses(vs: Seq<VariantDataModel>, name: Seq<char>)
    requires
        forall|i: int| 0 <= i < vs.len() ==> (#[trigger] vs[i]).db_name != name,
    ensures
        variant_named(vs, name) is None,
    decreases vs.len(),
{
    if vs.len() > 0 {
        let d = vs.drop_last();
        assert forall|i: int| 0 <= i < d.len() implies (#[trigger] d[i]).db_name != name by {
            assert(d[i] == vs[i]);
        }
        lemma_variant_named_misses(d, name);
        assert(vs.last() == vs[vs.len() - 1]);
    }
}

proof fn lemma_variant_with_id_finds(vs: Seq<VariantDataModel>, k: int)
    requires
        ids_distinct(vs),
        0 <= k < vs.len(),
    ensures
        variant_with_id(vs, vs[k].id) == Some(k),
    decreases vs.len(),
{
    let d = vs.drop_last();
    let n = vs.len() - 1;
    if k < n {
        assert(ids_distinct(d)) by {
            assert forall|i: int, j: int| 0 <= i < j < d.len() implies (#[trigger] d[i]).id != (#[trigger] d[j]).id by {
                assert(d[i] == vs[i] && d[j] == vs[j]);
            }
        }
        assert(d[k] == vs[k]);
        lemma_variant_with_id_finds(d, k);
    } else {
        lemma_variant_with_id_misses(d, vs[k].id);
    }
}

proof fn lemma_variant_with_id_misses(vs: Seq<VariantDataModel>, id: int)
    requires
        forall|i: int| 0 <= i < vs.len() ==> (#[trigger] vs[i]).id != id,
    ensures
        variant_with_id(vs, id) is None,
    decreases vs.len(),
{
    if vs.len() > 0 {
        let d = vs.drop_last();
        assert forall|i: int| 0 <= i < d.len() implies (#[trigger] d[i]).id != id by {
            assert(d[i] == vs[i]);
        }
        lemma_variant_with_id_misses(d, id);
        assert(vs.last() == vs[vs.len() - 1]);
    }
}

proof fn lemma_pg_variant_named_finds(names: Seq<Seq<char>>, k: int)
    requires
        names.no_duplicates(),
        0 <= k < names.len(),
    ensures
        pg_variant_named(names, names[k]) == Some(k),
    decreases names.len(),
{
    let d = names.drop_last();
    let n = names.len() - 1;
    if k < n {
        assert(d.no_duplicates()) by {
            assert forall|i: int, j: int| 0 <= i < d.len() && 0 <= j < d.len() && i != j implies d[i] != d[j] by {
                assert(d[i] == names[i] && d[j] == names[j]);
            }
        }
        assert(d[k] == names[k]);
        lemma_pg_variant_named_finds(d, k);
    } else {
        lemma_pg_variant_named_misses(d, names[k]);
    }
}

proof fn lemma_pg_variant_named_misses(names: Seq<Seq<char>>, name: Seq<char>)
    requires
        forall|i: int| 0 <= i < names.len() ==> #[trigger] names[i] != name,
    ensures
        pg_variant_named(names, name) is None,
    decreases names.len(),
{
    if names.len() > 0 {
        let d = names.drop_last();
        assert forall|i: int| 0 <= i < d.len() implies #[trigger] d[i] != name by {
            assert(d[i] == names[i]);
        }
        lemma_pg_variant_named_misses(d, name);
        assert(names.last() == names[names.len() - 1]);
    }
}

/// The lookups of a lookup-table enum undo its mappings: the k-th arm of the
/// generated code is the k-th variant of the enum, and when no two variants
/// share a name (an id), looking up the name (the id) of a variant, or
/// reading back its written text (id), gives that variant again.
pub proof fn lemma_db_enum_round_trip(item: EnumModel, features: RunnerFeatures)
    requires
        db_enum_outcome(item, features) is Ok,
    ensures
        ({
            let d = db_enum_outcome(item, features)->Ok_0;
            &&& d.variants.len() == item.variants.len()
            &&& forall|k: int| 0 <= k < d.variants.len() ==> (#[trigger] d.variants[k]).ident == item.variants[k].ident
            &&& names_distinct(d.variants) ==> forall|k: int|
                0 <= k < d.variants.len() ==> variant_named(d.variants, (#[trigger] d.variants[k]).db_name) == Some(k)
            &&& ids_distinct(d.variants) ==> forall|k: int|
                0 <= k < d.variants.len() ==> variant_with_id(d.variants, (#[trigger] d.variants[k]).id) == Some(k)
        }),
{
    let d = db_enum_outcome(item, features)->Ok_0;
    if names_distinct(d.variants) {
        assert forall|k: int| 0 <= k < d.variants.len() implies variant_named(d.variants, (#[trigger] d.variants[k]).db_name) == Some(k) by {
            lemma_variant_named_finds(d.variants, k);
        }
    }
    if ids_distinct(d.variants) {
        assert forall|k: int| 0 <= k < d.variants.len() implies variant_with_id(d.variants, (#[trigger] d.variants[k]).id) == Some(k) by {
            lemma_variant_with_id_finds(d.variants, k);
        }
    }
}

/// The lookups of a Postgres enum undo its mappings: the k-th name is the
/// k-th variant's identifier in the casing of the enum, and when no two
/// variants share a name, looking up the name of a variant, or reading back
/// the bytes written for it, gives that variant again.
pub proof fn lemma_pg_enum_round_trip(item: EnumModel, features: RunnerFeatures)
    requires
        pg_enum_outcome(item, features) is Ok,
    ensures
        ({
            let d = pg_enum_outcome(item, features)->Ok_0;
            let c = pg_container_outcome(item.ident, item.attrs, true, features)->Ok_0;
            &&& d.variant_names.len() == item.variants.len()
            &&& forall|k: int| 0 <= k < d.variant_names.len()
                ==> #[trigger] d.variant_names[k] == case_converted(item.variants[k].ident, c.common.case)
            &&& d.variant_names.no_duplicates() ==> forall|k: int|
                0 <= k < d.variant_names.len() ==> pg_variant_named(d.variant_names, #[trigger] d.variant_names[k]) == Some(k)
        }),
{
    let d = pg_enum_outcome(item, features)->Ok_0;
    if d.variant_names.no_duplicates() {
        assert forall|k: int| 0 <= k < d.variant_names.len() implies pg_variant_named(d.variant_names, #[trigger] d.variant_names[k]) == Some(k) by {
            lemma_pg_variant_named_finds(d.variant_names, k);
        }
    }
}


/// The generated test calls the check of the enum's kind: `check_pg_enum` for
/// a Postgres enum, `check_enum` for a lookup table; it is named after the
/// enum in snake case and runs on the runner that the settings resolve.
pub proof fn lemma_generated_test_matches_kind(item: EnumModel, features: RunnerFeatures)
    ensures
        pg_enum_outcome(item, features) matches Ok(d) ==> (d.generated_test matches Some(t) ==> {
            &&& t.check_method == "check_pg_enum"@
            &&& t.fn_name == case_converted(item.ident, CaseStyle::Snake) + "_db_enum_check"@
            &&& pg_container_outcome(item.ident, item.attrs, true, features) matches Ok(c)
            &&& c.common.test_runner == Some(t.runner)
        }),
        db_enum_outcome(item, features) matches Ok(d) ==> (d.generated_test matches Some(t) ==> {
            &&& t.check_method == "check_enum"@
            &&& t.fn_name == case_converted(item.ident, CaseStyle::Snake) + "_db_enum_check"@
            &&& container_outcome(case_converted(item.ident, CaseStyle::Snake), item.attrs, true, features) matches Ok(c)
            &&& c.common.test_runner == Some(t.runner)
        }),
{
}

/// The lookup-table derive keeps the settings that its attributes give: id
/// type, table and name column.  In particular, with a first attribute
/// `#[diesel(sql_type = p)]` and no `id_type` item, the id type is the one
/// that `p` names.
pub proof fn lemma_db_enum_keeps_settings(item: EnumModel, features: RunnerFeatures)
    ensures
        db_enum_outcome(item, features) matches Ok(d) ==> {
            &&& container_outcome(case_converted(item.ident, CaseStyle::Snake), item.attrs, true, features) matches Ok(c)
            &&& d.id_type == c.id_type
            &&& d.table_path == c.table_path
            &&& d.table_name == c.table_name
            &&& d.name_column == c.name_column
        },
        forall|p: PathModel, rest: Seq<BlockModel>|
            item.attrs == seq![BlockModel::Diesel(seq![sql_type_item(p)])] + rest && no_db_item(rest, "id_type"@)
                ==> (#[trigger] db_enum_outcome(item, features) matches Ok(d) ==> id_type_named(p.segments.last()) == Some(
                d.id_type,
            )),
{
    assert forall|p: PathModel, rest: Seq<BlockModel>|
        item.attrs == seq![BlockModel::Diesel(seq![sql_type_item(p)])] + rest && no_db_item(rest, "id_type"@)
            implies (#[trigger] db_enum_outcome(item, features) matches Ok(d) ==> id_type_named(p.segments.last()) == Some(
            d.id_type,
        )) by {
        lemma_diesel_sql_type_sets_id_type(case_converted(item.ident, CaseStyle::Snake), p, rest, features);
    }
}

/// The Postgres derive keeps the custom type and the Postgres name that its
/// attributes give; with a first attribute `#[diesel(sql_type = p)]` and no
/// `sql_type` item in `#[db(..)]`, the custom type is `p`.
pub proof fn lemma_pg_enum_keeps_settings(item: EnumModel, features: RunnerFeatures)
    ensures
        pg_enum_outcome(item, features) matches Ok(d) ==> {
            &&& pg_container_outcome(item.ident, item.attrs, true, features) matches Ok(c)
            &&& d.sql_type_path == c.sql_type_path
            &&& d.pg_enum_name == c.pg_enum_name
        },
        forall|p: PathModel, rest: Seq<BlockModel>|
            item.attrs == seq![BlockModel::Diesel(seq![sql_type_item(p)])] + rest && no_db_item(rest, "sql_type"@)
                ==> (#[trigger] pg_enum_outcome(item, features) matches Ok(d) ==> d.sql_type_path == p),
{
    assert forall|p: PathModel, rest: Seq<BlockModel>|
        item.attrs == seq![BlockModel::Diesel(seq![sql_type_item(p)])] + rest && no_db_item(rest, "sql_type"@)
            implies (#[trigger] pg_enum_outcome(item, features) matches Ok(d) ==> d.sql_type_path == p) by {
        lemma_pg_diesel_sql_type(item.ident, p, rest, features);
    }
}

} // verus!

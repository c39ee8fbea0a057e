//! The settings of an enum, read from its `#[db(..)]` and `#[diesel(..)]`
//! attributes.
use vstd::prelude::*;
use std::ops::Range;
use crate::attributes::{
    default_runner_for, id_type_named, path_of, EnumKind, IdType, MetaItem, MetaModel, MetaValue,
    MetaValueModel, PathModel, RunnerFeatures, RunnerModel, TestRunner, TypePath,
};
use crate::case_style::{case_converted, case_named, convert_case, CaseStyle};
use crate::errors::{AttrError, AttrFault};
use crate::skip_ids::SkipIdEntry;
use crate::text::same_text;

verus! {

/// An attribute of the enum: the items of a `#[db(..)]` or of a
/// `#[diesel(..)]` attribute, in order.  Other attributes play no part.
#[derive(Clone, Debug, PartialEq, Eq)]
pub enum AttrBlock {
    Db(Vec<MetaItem>),
    Diesel(Vec<MetaItem>),
}

/// The contents of a list of items.
pub open spec fn meta_views(items: Seq<MetaItem>) -> Seq<MetaModel> {
    items.map_values(|m: MetaItem| m@)
}

/// The content of an [`AttrBlock`].
pub ghost enum BlockModel {
    Db(Seq<MetaModel>),
    Diesel(Seq<MetaModel>),
}

impl View for AttrBlock {
    type V = BlockModel;

    open spec fn view(&self) -> BlockModel {
        match self {
            AttrBlock::Db(items) => BlockModel::Db(meta_views(items@)),
            AttrBlock::Diesel(items) => BlockModel::Diesel(meta_views(items@)),
        }
    }
}

impl AttrBlock {
    /// Every path in the attribute has a segment.
    pub open spec fn wf(&self) -> bool {
        match self {
            AttrBlock::Db(items) => forall|i: int| 0 <= i < items@.len() ==> (#[trigger] items@[i]).value.wf(),
            AttrBlock::Diesel(items) => forall|i: int| 0 <= i < items@.len() ==> (#[trigger] items@[i]).value.wf(),
        }
    }
}

/// Every attribute has only paths with a segment.
pub open spec fn blocks_wf(blocks: Seq<AttrBlock>) -> bool {
    forall|i: int| 0 <= i < blocks.len() ==> (#[trigger] blocks[i]).wf()
}

/// Every path in a model value has a segment.
pub open spec fn value_wf(v: MetaValueModel) -> bool {
    match v {
        MetaValueModel::Path(p) => p.segments.len() > 0,
        _ => true,
    }
}

/// The settings shared by both kinds of mapping.
#[derive(Clone, Debug, PartialEq, Eq)]
pub struct CommonAttrs {
    pub test_runner: Option<TestRunner>,
    pub case: CaseStyle,
    pub skip_test: bool,
}

/// The content of a [`CommonAttrs`].
pub ghost struct CommonModel {
    pub test_runner: Option<RunnerModel>,
    pub case: CaseStyle,
    pub skip_test: bool,
}

/// The runner as a model.
pub open spec fn runner_view(r: Option<TestRunner>) -> Option<RunnerModel> {
    match r {
        Some(t) => Some(t@),
        None => None,
    }
}

impl View for CommonAttrs {
    type V = CommonModel;

    open spec fn view(&self) -> CommonModel {
        CommonModel { test_runner: runner_view(self.test_runner), case: self.case, skip_test: self.skip_test }
    }
}

/// What the attributes of a lookup-table enum set, before defaults apply.
pub ghost struct LookupSettings {
    pub table_name: Option<Seq<char>>,
    pub table_path: Option<PathModel>,
    pub name_column: Option<Seq<char>>,
    pub test_runner: Option<RunnerModel>,
    pub case: Option<CaseStyle>,
    pub id_type: Option<IdType>,
    pub skip_ids: Option<Seq<SkipIdEntry>>,
    pub skip_test: bool,
}

/// Nothing set yet.
pub open spec fn no_lookup_settings() -> LookupSettings {
    LookupSettings {
        table_name: None,
        table_path: None,
        name_column: None,
        test_runner: None,
        case: None,
        id_type: None,
        skip_ids: None,
        skip_test: false,
    }
}

/// The effect of one item of a `#[db(..)]` attribute of a lookup-table enum.
pub open spec fn lookup_item(st: LookupSettings, m: MetaModel) -> Result<LookupSettings, AttrFault> {
    if m.key == "skip_test"@ {
        match m.value {
            MetaValueModel::Flag => Ok(LookupSettings { skip_test: true, ..st }),
            _ => Err(AttrFault::InvalidValue(m.key)),
        }
    } else if m.key == "id_type"@ {
        match m.value {
            MetaValueModel::Path(p) => match id_type_named(p.segments.last()) {
                Some(t) => Ok(LookupSettings { id_type: Some(t), ..st }),
                None => Err(AttrFault::UnknownSqlType),
            },
            _ => Err(AttrFault::InvalidValue(m.key)),
        }
    } else if m.key == "skip_ids"@ {
        match m.value {
            MetaValueModel::List(l) => Ok(LookupSettings { skip_ids: Some(l), ..st }),
            _ => Err(AttrFault::InvalidValue(m.key)),
        }
    } else if m.key == "table"@ {
        match m.value {
            MetaValueModel::Path(p) => Ok(LookupSettings { table_path: Some(p), ..st }),
            _ => Err(AttrFault::InvalidValue(m.key)),
        }
    } else if m.key == "table_name"@ {
        match m.value {
            MetaValueModel::Str(v) => Ok(LookupSettings { table_name: Some(v), ..st }),
            _ => Err(AttrFault::InvalidValue(m.key)),
        }
    } else if m.key == "name_column"@ {
        match m.value {
            MetaValueModel::Path(p) => if !p.leading_colon && p.segments.len() == 1 {
                Ok(LookupSettings { name_column: Some(p.segments[0]), ..st })
            } else {
                Err(AttrFault::InvalidValue(m.key))
            },
            _ => Err(AttrFault::InvalidValue(m.key)),
        }
    } else if m.key == "async_runner"@ {
        match m.value {
            MetaValueModel::Path(p) => Ok(LookupSettings { test_runner: Some(RunnerModel::Async(p)), ..st }),
            _ => Err(AttrFault::InvalidValue(m.key)),
        }
    } else if m.key == "sync_runner"@ {
        match m.value {
            MetaValueModel::Path(p) => Ok(LookupSettings { test_runner: Some(RunnerModel::Sync(p)), ..st }),
            _ => Err(AttrFault::InvalidValue(m.key)),
        }
    } else if m.key == "case"@ {
        match m.value {
            MetaValueModel::Str(v) => match case_named(v) {
                Some(c) => Ok(LookupSettings { case: Some(c), ..st }),
                None => Err(AttrFault::InvalidCase),
            },
            _ => Err(AttrFault::InvalidValue(m.key)),
        }
    } else {
        Err(AttrFault::UnknownAttribute(m.key))
    }
}

/// The effect of the items of a `#[db(..)]` attribute, in order; the first
/// refused item stops the reading.
pub open spec fn lookup_items(st: LookupSettings, ms: Seq<MetaModel>) -> Result<LookupSettings, AttrFault>
    decreases ms.len(),
{
    if ms.len() == 0 {
        Ok(st)
    } else {
        match lookup_items(st, ms.drop_last()) {
            Ok(s) => lookup_item(s, ms.last()),
            Err(f) => Err(f),
        }
    }
}

/// The effect of one item of a `#[diesel(..)]` attribute: `sql_type` sets
/// the id type, other items are passed over.
pub open spec fn lookup_diesel_item(st: LookupSettings, m: MetaModel) -> Result<LookupSettings, AttrFault> {
    if m.key == "sql_type"@ {
        match m.value {
            MetaValueModel::Path(p) => match id_type_named(p.segments.last()) {
                Some(t) => Ok(LookupSettings { id_type: Some(t), ..st }),
                None => Err(AttrFault::UnknownSqlType),
            },
            _ => Err(AttrFault::InvalidValue(m.key)),
        }
    } else {
        Ok(st)
    }
}

/// The effect of the items of a `#[diesel(..)]` attribute, in order.
pub open spec fn lookup_diesel_items(st: LookupSettings, ms: Seq<MetaModel>) -> Result<LookupSettings, AttrFault>
    decreases ms.len(),
{
    if ms.len() == 0 {
        Ok(st)
    } else {
        match lookup_diesel_items(st, ms.drop_last()) {
            Ok(s) => lookup_diesel_item(s, ms.last()),
            Err(f) => Err(f),
        }
    }
}

/// The effect of one attribute: a `#[diesel(..)]` attribute counts only for
/// the derive and only while no id type is set.
pub open spec fn lookup_block(st: LookupSettings, b: BlockModel, is_derive: bool) -> Result<LookupSettings, AttrFault> {
    match b {
        BlockModel::Db(ms) => lookup_items(st, ms),
        BlockModel::Diesel(ms) => if is_derive && st.id_type is None {
            lookup_diesel_items(st, ms)
        } else {
            Ok(st)
        },
    }
}

/// The settings that the attributes of a lookup-table enum set, in order.
pub open spec fn lookup_settings(blocks: Seq<BlockModel>, is_derive: bool) -> Result<LookupSettings, AttrFault>
    decreases blocks.len(),
{
    if blocks.len() == 0 {
        Ok(no_lookup_settings())
    } else {
        match lookup_settings(blocks.drop_last(), is_derive) {
            Ok(s) => lookup_block(s, blocks.last(), is_derive),
            Err(f) => Err(f),
        }
    }
}

/// The settings of a lookup-table enum while they are read.
struct LookupCollect {
    table_name: Option<String>,
    table_path: Option<TypePath>,
    name_column: Option<String>,
    test_runner: Option<TestRunner>,
    case: Option<CaseStyle>,
    id_type: Option<IdType>,
    skip_ids: Option<Vec<SkipIdEntry>>,
    skip_test: bool,
}

impl View for LookupCollect {
    type V = LookupSettings;

    closed spec fn view(&self) -> LookupSettings {
        LookupSettings {
            table_name: match self.table_name {
                Some(s) => Some(s@),
                None => None,
            },
            table_path: match self.table_path {
                Some(p) => Some(p@),
                None => None,
            },
            name_column: match self.name_column {
                Some(s) => Some(s@),
                None => None,
            },
            test_runner: runner_view(self.test_runner),
            case: self.case,
            id_type: self.id_type,
            skip_ids: match self.skip_ids {
                Some(l) => Some(l@),
                None => None,
            },
            skip_test: self.skip_test,
        }
    }
}

fn copy_entries(l: &Vec<SkipIdEntry>) -> (res: Vec<SkipIdEntry>)
    ensures
        res@ == l@,
{
    let mut out: Vec<SkipIdEntry> = Vec::new();
    let mut i: usize = 0;
    while i < l.len()
        invariant
            i <= l@.len(),
            out@ == l@.take(i as int),
        decreases l@.len() - i,
    {
        out.push(l[i]);
        assert(out@ =~= l@.take(i + 1));
        i = i + 1;
    }
    assert(l@.take(l@.len() as int) =~= l@);
    out
}

impl LookupCollect {
    /// A table path that was given has a segment.
    spec fn paths_wf(&self) -> bool {
        self.table_path matches Some(p) ==> p.wf()
    }

    fn new() -> (res: LookupCollect)
        ensures
            res@ == no_lookup_settings(),
            res.paths_wf(),
    {
        LookupCollect {
            table_name: None,
            table_path: None,
            name_column: None,
            test_runner: None,
            case: None,
            id_type: None,
            skip_ids: None,
            skip_test: false,
        }
    }

    fn apply_item(&mut self, m: &MetaItem) -> (res: Result<(), AttrError>)
        requires
            m.value.wf(),
        ensures
            match lookup_item(old(self)@, m@) {
                Ok(s) => res is Ok && final(self)@ == s,
                Err(f) => res matches Err(e) && e@ == f,
            },
            old(self).paths_wf() ==> final(self).paths_wf(),
    {
        let key = m.key.as_str();
        if same_text(key, "skip_test") {
            match &m.value {
                MetaValue::Flag => {
                    self.skip_test = true;
                    Ok(())
                },
                _ => Err(AttrError::InvalidValue(m.key.clone())),
            }
        } else if same_text(key, "id_type") {
            match &m.value {
                MetaValue::Path(p) => {
                    let t = IdType::from_path(p)?;
                    self.id_type = Some(t);
                    Ok(())
                },
                _ => Err(AttrError::InvalidValue(m.key.clone())),
            }
        } else if same_text(key, "skip_ids") {
            match &m.value {
                MetaValue::List(l) => {
                    self.skip_ids = Some(copy_entries(l));
                    Ok(())
                },
                _ => Err(AttrError::InvalidValue(m.key.clone())),
            }
        } else if same_text(key, "table") {
            match &m.value {
                MetaValue::Path(p) => {
                    self.table_path = Some(p.duplicate());
                    Ok(())
                },
                _ => Err(AttrError::InvalidValue(m.key.clone())),
            }
        } else if same_text(key, "table_name") {
            match &m.value {
                MetaValue::Str(v) => {
                    self.table_name = Some(v.clone());
                    Ok(())
                },
                _ => Err(AttrError::InvalidValue(m.key.clone())),
            }
        } else if same_text(key, "name_column") {
            match &m.value {
                MetaValue::Path(p) => {
                    if !p.leading_colon && p.segments.len() == 1 {
                        self.name_column = Some(p.segments[0].clone());
                        Ok(())
                    } else {
                        Err(AttrError::InvalidValue(m.key.clone()))
                    }
                },
                _ => Err(AttrError::InvalidValue(m.key.clone())),
            }
        } else if same_text(key, "async_runner") {
            match &m.value {
                MetaValue::Path(p) => {
                    self.test_runner = Some(TestRunner::Async(p.duplicate()));
                    Ok(())
                },
                _ => Err(AttrError::InvalidValue(m.key.clone())),
            }
        } else if same_text(key, "sync_runner") {
            match &m.value {
                MetaValue::Path(p) => {
                    self.test_runner = Some(TestRunner::Sync(p.duplicate()));
                    Ok(())
                },
                _ => Err(AttrError::InvalidValue(m.key.clone())),
            }
        } else if same_text(key, "case") {
            match &m.value {
                MetaValue::Str(v) => {
                    let c = CaseStyle::from_name(v.as_str())?;
                    self.case = Some(c);
                    Ok(())
                },
                _ => Err(AttrError::InvalidValue(m.key.clone())),
            }
        } else {
            Err(AttrError::UnknownAttribute(m.key.clone()))
        }
    }
    fn apply_diesel_item(&mut self, m: &MetaItem) -> (res: Result<(), AttrError>)
        requires
            m.value.wf(),
        ensures
            match lookup_diesel_item(old(self)@, m@) {
                Ok(s) => res is Ok && final(self)@ == s,
                Err(f) => res matches Err(e) && e@ == f,
            },
            old(self).paths_wf() ==> final(self).paths_wf(),
    {
        if same_text(m.key.as_str(), "sql_type") {
            match &m.value {
                MetaValue::Path(p) => {
                    let t = IdType::from_path(p)?;
                    self.id_type = Some(t);
                    Ok(())
                },
                _ => Err(AttrError::InvalidValue(m.key.clone())),
            }
        } else {
            Ok(())
        }
    }

    fn apply_block(&mut self, b: &AttrBlock, is_derive: bool) -> (res: Result<(), AttrError>)
        requires
            b.wf(),
        ensures
            match lookup_block(old(self)@, b@, is_derive) {
                Ok(s) => res is Ok && final(self)@ == s,
                Err(f) => res matches Err(e) && e@ == f,
            },
            old(self).paths_wf() ==> final(self).paths_wf(),
    {
        match b {
            AttrBlock::Db(items) => {
                let ghost ms = meta_views(items@);
                let ghost start = self@;
                let mut i: usize = 0;
                assert(ms.take(0) =~= Seq::<MetaModel>::empty());
                while i < items.len()
                    invariant
                        i <= items@.len(),
                        ms == meta_views(items@),
                        forall|k: int| 0 <= k < items@.len() ==> (#[trigger] items@[k]).value.wf(),
                        lookup_items(start, ms.take(i as int)) == Ok::<LookupSettings, AttrFault>(self@),
                        b@ == BlockModel::Db(ms),
                        start == old(self)@,
                        old(self).paths_wf() ==> self.paths_wf(),
                    decreases items@.len() - i,
                {
                    assert(ms.take(i + 1).drop_last() =~= ms.take(i as int));
                    assert(ms.take(i + 1).last() == items@[i as int]@);
                    let ghost before = self@;
                    let r = self.apply_item(&items[i]);
                    if let Err(e) = r {
                        proof {
                            assert(lookup_item(before, items@[i as int]@) == Err::<LookupSettings, AttrFault>(e@));
                            assert(lookup_items(start, ms.take(i + 1)) == Err::<LookupSettings, AttrFault>(e@));
                            lemma_lookup_items_stop(start, ms, i + 1);
                        }
                        return Err(e);
                    }
                    i = i + 1;
                }
                assert(ms.take(items@.len() as int) =~= ms);
                Ok(())
            },
            AttrBlock::Diesel(items) => {
                if !is_derive || self.id_type.is_some() {
                    return Ok(());
                }
                let ghost ms = meta_views(items@);
                let ghost start = self@;
                let mut i: usize = 0;
                assert(ms.take(0) =~= Seq::<MetaModel>::empty());
                while i < items.len()
                    invariant
                        i <= items@.len(),
                        ms == meta_views(items@),
                        forall|k: int| 0 <= k < items@.len() ==> (#[trigger] items@[k]).value.wf(),
                        lookup_diesel_items(start, ms.take(i as int)) == Ok::<LookupSettings, AttrFault>(self@),
                        b@ == BlockModel::Diesel(ms),
                        start == old(self)@,
                        old(self).paths_wf() ==> self.paths_wf(),
                        is_derive,
                        start.id_type is None,
                    decreases items@.len() - i,
                {
                    assert(ms.take(i + 1).drop_last() =~= ms.take(i as int));
                    assert(ms.take(i + 1).last() == items@[i as int]@);
                    let ghost before = self@;
                    let r = self.apply_diesel_item(&items[i]);
                    if let Err(e) = r {
                        proof {
                            assert(lookup_diesel_item(before, items@[i as int]@) == Err::<LookupSettings, AttrFault>(e@));
                            assert(lookup_diesel_items(start, ms.take(i + 1)) == Err::<LookupSettings, AttrFault>(e@));
                            lemma_lookup_diesel_items_stop(start, ms, i + 1);
                        }
                        return Err(e);
                    }
                    i = i + 1;
                }
                assert(ms.take(items@.len() as int) =~= ms);
                Ok(())
            },
        }
    }
}

proof fn lemma_lookup_items_stop(st: LookupSettings, ms: Seq<MetaModel>, k: int)
    requires
        0 <= k <= ms.len(),
        lookup_items(st, ms.take(k)) is Err,
    ensures
        lookup_items(st, ms) == lookup_items(st, ms.take(k)),
    decreases ms.len() - k,
{
    if k < ms.len() {
        assert(ms.take(k + 1).drop_last() =~= ms.take(k));
        lemma_lookup_items_stop(st, ms, k + 1);
    } else {
        assert(ms.take(k) =~= ms);
    }
}

proof fn lemma_lookup_diesel_items_stop(st: LookupSettings, ms: Seq<MetaModel>, k: int)
    requires
        0 <= k <= ms.len(),
        lookup_diesel_items(st, ms.take(k)) is Err,
    ensures
        lookup_diesel_items(st, ms) == lookup_diesel_items(st, ms.take(k)),
    decreases ms.len() - k,
{
    if k < ms.len() {
        assert(ms.take(k + 1).drop_last() =~= ms.take(k));
        lemma_lookup_diesel_items_stop(st, ms, k + 1);
    } else {
        assert(ms.take(k) =~= ms);
    }
}

/// The settings of a lookup-table enum.
#[derive(Clone, Debug, PartialEq, Eq)]
pub struct ContainerAttrs {
    pub table_path: TypePath,
    pub table_name: String,
    pub name_column: String,
    pub id_type: IdType,
    /// The ids that the automatic numbering passes over, as a normalized list.
    pub skip_ranges: Vec<Range<i32>>,
    pub common_attrs: CommonAttrs,
}

/// The content of a [`ContainerAttrs`].
pub ghost struct ContainerModel {
    pub table_path: PathModel,
    pub table_name: Seq<char>,
    pub name_column: Seq<char>,
    pub id_type: IdType,
    pub skip_ranges: Seq<Range<i32>>,
    pub common: CommonModel,
}

impl View for ContainerAttrs {
    type V = ContainerModel;

    open spec fn view(&self) -> ContainerModel {
        ContainerModel {
            table_path: self.table_path@,
            table_name: self.table_name@,
            name_column: self.name_column@,
            id_type: self.id_type,
            skip_ranges: self.skip_ranges@,
            common: self.common_attrs@,
        }
    }
}

/// The test runner after the checks: `skip_test` and a runner exclude each
/// other, and without `skip_test` a runner is needed, given or by default.
pub open spec fn resolved_runner(
    skip_test: bool,
    runner: Option<RunnerModel>,
    kind: EnumKind,
    features: RunnerFeatures,
) -> Result<Option<RunnerModel>, AttrFault> {
    if skip_test && runner is Some {
        Err(AttrFault::SkipTestWithRunner)
    } else if !skip_test && runner is None {
        match default_runner_for(kind, features) {
            Some(r) => Ok(Some(r)),
            None => Err(AttrFault::MissingRunner),
        }
    } else {
        Ok(runner)
    }
}

/// The table path when none is given: `crate::schema::` and the enum's name
/// in snake case with an `s` added.
pub open spec fn default_table_path(snake_name: Seq<char>) -> PathModel {
    path_of(false, seq!["crate"@, "schema"@, snake_name + "s"@])
}

/// The settings of a lookup-table enum, given its name in snake case.
pub open spec fn container_outcome(
    snake_name: Seq<char>,
    blocks: Seq<BlockModel>,
    is_derive: bool,
    features: RunnerFeatures,
) -> Result<ContainerModel, AttrFault> {
    match lookup_settings(blocks, is_derive) {
        Err(f) => Err(f),
        Ok(st) => match resolved_runner(st.skip_test, st.test_runner, EnumKind::LookupTable, features) {
            Err(f) => Err(f),
            Ok(runner) => {
                let skip = match st.skip_ids {
                    Some(l) => l,
                    None => Seq::empty(),
                };
                if !crate::skip_ids::entries_fit(skip) {
                    Err(AttrFault::InvalidSkipIds)
                } else {
                    let path = match st.table_path {
                        Some(p) => p,
                        None => default_table_path(snake_name),
                    };
                    Ok(ContainerModel {
                        table_path: path,
                        table_name: match st.table_name {
                            Some(n) => n,
                            None => path.segments.last(),
                        },
                        name_column: match st.name_column {
                            Some(n) => n,
                            None => "name"@,
                        },
                        id_type: match st.id_type {
                            Some(t) => t,
                            None => IdType::I32,
                        },
                        skip_ranges: crate::skip_ids::normalized_form(skip),
                        common: CommonModel {
                            test_runner: runner,
                            case: match st.case {
                                Some(c) => c,
                                None => CaseStyle::Snake,
                            },
                            skip_test: st.skip_test,
                        },
                    })
                }
            },
        },
    }
}

/// The contents of a list of attributes.
pub open spec fn block_views(blocks: Seq<AttrBlock>) -> Seq<BlockModel> {
    blocks.map_values(|b: AttrBlock| b@)
}

fn collect_lookup(attrs: &Vec<AttrBlock>, is_derive: bool) -> (res: Result<LookupCollect, AttrError>)
    requires
        blocks_wf(attrs@),
    ensures
        match lookup_settings(block_views(attrs@), is_derive) {
            Ok(s) => res matches Ok(c) && c@ == s,
            Err(f) => res matches Err(e) && e@ == f,
        },
        res matches Ok(c) ==> c.paths_wf(),
{
    let ghost bs = block_views(attrs@);
    let mut c = LookupCollect::new();
    let mut i: usize = 0;
    assert(bs.take(0) =~= Seq::<BlockModel>::empty());
    while i < attrs.len()
        invariant
            i <= attrs@.len(),
            bs == block_views(attrs@),
            blocks_wf(attrs@),
            lookup_settings(bs.take(i as int), is_derive) == Ok::<LookupSettings, AttrFault>(c@),
            c.paths_wf(),
        decreases attrs@.len() - i,
    {
        assert(bs.take(i + 1).drop_last() =~= bs.take(i as int));
        assert(bs.take(i + 1).last() == attrs@[i as int]@);
        let ghost before = c@;
        let r = c.apply_block(&attrs[i], is_derive);
        if let Err(e) = r {
            proof {
                assert(lookup_settings(bs.take(i + 1), is_derive) == Err::<LookupSettings, AttrFault>(e@));
                lemma_lookup_settings_stop(bs, is_derive, i + 1);
            }
            return Err(e);
        }
        i = i + 1;
    }
    assert(bs.take(attrs@.len() as int) =~= bs);
    Ok(c)
}

proof fn lemma_lookup_settings_stop(bs: Seq<BlockModel>, is_derive: bool, k: int)
    requires
        0 <= k <= bs.len(),
        lookup_settings(bs.take(k), is_derive) is Err,
    ensures
        lookup_settings(bs, is_derive) == lookup_settings(bs.take(k), is_derive),
    decreases bs.len() - k,
{
    if k < bs.len() {
        assert(bs.take(k + 1).drop_last() =~= bs.take(k));
        lemma_lookup_settings_stop(bs, is_derive, k + 1);
    } else {
        assert(bs.take(k) =~= bs);
    }
}

fn resolve_runner(
    skip_test: bool,
    runner: Option<TestRunner>,
    kind: EnumKind,
    features: RunnerFeatures,
) -> (res: Result<Option<TestRunner>, AttrError>)
    ensures
        match resolved_runner(skip_test, runner_view(runner), kind, features) {
            Ok(r) => res matches Ok(t) && runner_view(t) == r,
            Err(f) => res matches Err(e) && e@ == f,
        },
{
    if skip_test && runner.is_some() {
        return Err(AttrError::SkipTestWithRunner);
    }
    if !skip_test && runner.is_none() {
        match TestRunner::default_runner(kind, features) {
            Some(r) => Ok(Some(r)),
            None => Err(AttrError::MissingRunner),
        }
    } else {
        Ok(runner)
    }
}

impl ContainerAttrs {
    /// Reads the settings of a lookup-table enum from its attributes, given
    /// the enum's name in snake case (for the default table path).
    ///
    /// `is_derive` tells whether the derive reads them, in which case the
    /// `sql_type` of a `#[diesel(..)]` attribute gives the id type when no
    /// id type is set before it.
    pub fn resolve(
        snake_name: &str,
        attrs: &Vec<AttrBlock>,
        is_derive: bool,
        features: RunnerFeatures,
    ) -> (res: Result<ContainerAttrs, AttrError>)
        requires
            blocks_wf(attrs@),
        ensures
            match container_outcome(snake_name@, block_views(attrs@), is_derive, features) {
                Ok(m) => res matches Ok(c) && c@ == m,
                Err(f) => res matches Err(e) && e@ == f,
            },
            res matches Ok(c) ==> crate::skip_ids::normalized(c.skip_ranges@),
            res matches Ok(c) ==> c.table_path.wf(),
    {
        let c = collect_lookup(attrs, is_derive)?;
        let ghost st = c@;
        let test_runner = resolve_runner(c.skip_test, c.test_runner, EnumKind::LookupTable, features)?;
        let entries = match c.skip_ids {
            Some(l) => l,
            None => Vec::new(),
        };
        let ghost skip = entries@;
        let skip_ranges = match crate::skip_ids::normalize_skip_ids(&entries) {
            Ok(r) => r,
            Err(e) => {
                return Err(e);
            },
        };
        let table_path = match c.table_path {
            Some(p) => p,
            None => {
                let mut last = String::from_str(snake_name);
                last.append("s");
                let segments = vec![String::from_str("crate"), String::from_str("schema"), last];
                assert(segments@.map_values(|s: String| s@) =~= seq!["crate"@, "schema"@, snake_name@ + "s"@]);
                TypePath { leading_colon: false, segments }
            },
        };
        let table_name = match c.table_name {
            Some(n) => n,
            None => table_path.last_segment().clone(),
        };
        let name_column = match c.name_column {
            Some(n) => n,
            None => String::from_str("name"),
        };
        let id_type = match c.id_type {
            Some(t) => t,
            None => IdType::I32,
        };
        let case = match c.case {
            Some(k) => k,
            None => CaseStyle::Snake,
        };
        Ok(ContainerAttrs {
            table_path,
            table_name,
            name_column,
            id_type,
            skip_ranges,
            common_attrs: CommonAttrs { test_runner, case, skip_test: c.skip_test },
        })
    }
}

impl ContainerAttrs {
    /// Reads the settings of a lookup-table enum from its attributes.
    pub fn parse(
        enum_ident: &str,
        attrs: &Vec<AttrBlock>,
        is_derive: bool,
        features: RunnerFeatures,
    ) -> (res: Result<ContainerAttrs, AttrError>)
        requires
            blocks_wf(attrs@),
        ensures
            match container_outcome(case_converted(enum_ident@, CaseStyle::Snake), block_views(attrs@), is_derive, features) {
                Ok(m) => res matches Ok(c) && c@ == m,
                Err(f) => res matches Err(e) && e@ == f,
            },
            res matches Ok(c) ==> crate::skip_ids::normalized(c.skip_ranges@),
            res matches Ok(c) ==> c.table_path.wf(),
    {
        let snake_name = convert_case(enum_ident, CaseStyle::Snake);
        ContainerAttrs::resolve(snake_name.as_str(), attrs, is_derive, features)
    }
}

/// What the attributes of a Postgres enum set, before defaults apply.
pub ghost struct PgSettings {
    pub sql_type_path: Option<PathModel>,
    pub pg_enum_name: Option<Seq<char>>,
    pub test_runner: Option<RunnerModel>,
    pub case: Option<CaseStyle>,
    pub skip_test: bool,
}

/// Nothing set yet.
pub open spec fn no_pg_settings() -> PgSettings {
    PgSettings { sql_type_path: None, pg_enum_name: None, test_runner: None, case: None, skip_test: false }
}

/// The effect of one item of a `#[db(..)]` attribute of a Postgres enum.
pub open spec fn pg_item(st: PgSettings, m: MetaModel) -> Result<PgSettings, AttrFault> {
    if m.key == "skip_test"@ {
        match m.value {
            MetaValueModel::Flag => Ok(PgSettings { skip_test: true, ..st }),
            _ => Err(AttrFault::InvalidValue(m.key)),
        }
    } else if m.key == "sql_type"@ {
        match m.value {
            MetaValueModel::Path(p) => Ok(PgSettings { sql_type_path: Some(p), ..st }),
            _ => Err(AttrFault::InvalidValue(m.key)),
        }
    } else if m.key == "name"@ {
        match m.value {
            MetaValueModel::Str(v) => Ok(PgSettings { pg_enum_name: Some(v), ..st }),
            _ => Err(AttrFault::InvalidValue(m.key)),
        }
    } else if m.key == "async_runner"@ {
        match m.value {
            MetaValueModel::Path(p) => Ok(PgSettings { test_runner: Some(RunnerModel::Async(p)), ..st }),
            _ => Err(AttrFault::InvalidValue(m.key)),
        }
    } else if m.key == "sync_runner"@ {
        match m.value {
            MetaValueModel::Path(p) => Ok(PgSettings { test_runner: Some(RunnerModel::Sync(p)), ..st }),
            _ => Err(AttrFault::InvalidValue(m.key)),
        }
    } else if m.key == "case"@ {
        match m.value {
            MetaValueModel::Str(v) => match case_named(v) {
                Some(c) => Ok(PgSettings { case: Some(c), ..st }),
                None => Err(AttrFault::InvalidCase),
            },
            _ => Err(AttrFault::InvalidValue(m.key)),
        }
    } else {
        Err(AttrFault::UnknownAttribute(m.key))
    }
}

/// The effect of the items of a `#[db(..)]` attribute, in order.
pub open spec fn pg_items(st: PgSettings, ms: Seq<MetaModel>) -> Result<PgSettings, AttrFault>
    decreases ms.len(),
{
    if ms.len() == 0 {
        Ok(st)
    } else {
        match pg_items(st, ms.drop_last()) {
            Ok(s) => pg_item(s, ms.last()),
            Err(f) => Err(f),
        }
    }
}

/// The effect of one item of a `#[diesel(..)]` attribute: `sql_type` sets
/// the custom type, other items are passed over.
pub open spec fn pg_diesel_item(st: PgSettings, m: MetaModel) -> Result<PgSettings, AttrFault> {
    if m.key == "sql_type"@ {
        match m.value {
            MetaValueModel::Path(p) => Ok(PgSettings { sql_type_path: Some(p), ..st }),
            _ => Err(AttrFault::InvalidValue(m.key)),
        }
    } else {
        Ok(st)
    }
}

/// The effect of the items of a `#[diesel(..)]` attribute, in order.
pub open spec fn pg_diesel_items(st: PgSettings, ms: Seq<MetaModel>) -> Result<PgSettings, AttrFault>
    decreases ms.len(),
{
    if ms.len() == 0 {
        Ok(st)
    } else {
        match pg_diesel_items(st, ms.drop_last()) {
            Ok(s) => pg_diesel_item(s, ms.last()),
            Err(f) => Err(f),
        }
    }
}

/// The effect of one attribute: a `#[diesel(..)]` attribute counts only for
/// the derive and only while no custom type is set.
pub open spec fn pg_block(st: PgSettings, b: BlockModel, is_derive: bool) -> Result<PgSettings, AttrFault> {
    match b {
        BlockModel::Db(ms) => pg_items(st, ms),
        BlockModel::Diesel(ms) => if is_derive && st.sql_type_path is None {
            pg_diesel_items(st, ms)
        } else {
            Ok(st)
        },
    }
}

/// The settings that the attributes of a Postgres enum set, in order.
pub open spec fn pg_settings(blocks: Seq<BlockModel>, is_derive: bool) -> Result<PgSettings, AttrFault>
    decreases blocks.len(),
{
    if blocks.len() == 0 {
        Ok(no_pg_settings())
    } else {
        match pg_settings(blocks.drop_last(), is_derive) {
            Ok(s) => pg_block(s, blocks.last(), is_derive),
            Err(f) => Err(f),
        }
    }
}

/// The settings of a Postgres enum while they are read.
struct PgCollect {
    sql_type_path: Option<TypePath>,
    pg_enum_name: Option<String>,
    test_runner: Option<TestRunner>,
    case: Option<CaseStyle>,
    skip_test: bool,
}

impl View for PgCollect {
    type V = PgSettings;

    closed spec fn view(&self) -> PgSettings {
        PgSettings {
            sql_type_path: match self.sql_type_path {
                Some(p) => Some(p@),
                None => None,
            },
            pg_enum_name: match self.pg_enum_name {
                Some(s) => Some(s@),
                None => None,
            },
            test_runner: runner_view(self.test_runner),
            case: self.case,
            skip_test: self.skip_test,
        }
    }
}

impl PgCollect {
    /// A custom type that was given has a segment.
    spec fn paths_wf(&self) -> bool {
        self.sql_type_path matches Some(p) ==> p.wf()
    }

    fn new() -> (res: PgCollect)
        ensures
            res@ == no_pg_settings(),
            res.paths_wf(),
    {
        PgCollect { sql_type_path: None, pg_enum_name: None, test_runner: None, case: None, skip_test: false }
    }

    fn apply_item(&mut self, m: &MetaItem) -> (res: Result<(), AttrError>)
        requires
            m.value.wf(),
        ensures
            match pg_item(old(self)@, m@) {
                Ok(s) => res is Ok && final(self)@ == s,
                Err(f) => res matches Err(e) && e@ == f,
            },
            old(self).paths_wf() ==> final(self).paths_wf(),
    {
        let key = m.key.as_str();
        if same_text(key, "skip_test") {
            match &m.value {
                MetaValue::Flag => {
                    self.skip_test = true;
                    Ok(())
                },
                _ => Err(AttrError::InvalidValue(m.key.clone())),
            }
        } else if same_text(key, "sql_type") {
            match &m.value {
                MetaValue::Path(p) => {
                    self.sql_type_path = Some(p.duplicate());
                    Ok(())
                },
                _ => Err(AttrError::InvalidValue(m.key.clone())),
            }
        } else if same_text(key, "name") {
            match &m.value {
                MetaValue::Str(v) => {
                    self.pg_enum_name = Some(v.clone());
                    Ok(())
                },
                _ => Err(AttrError::InvalidValue(m.key.clone())),
            }
        } else if same_text(key, "async_runner") {
            match &m.value {
                MetaValue::Path(p) => {
                    self.test_runner = Some(TestRunner::Async(p.duplicate()));
                    Ok(())
                },
                _ => Err(AttrError::InvalidValue(m.key.clone())),
            }
        } else if same_text(key, "sync_runner") {
            match &m.value {
                MetaValue::Path(p) => {
                    self.test_runner = Some(TestRunner::Sync(p.duplicate()));
                    Ok(())
                },
                _ => Err(AttrError::InvalidValue(m.key.clone())),
            }
        } else if same_text(key, "case") {
            match &m.value {
                MetaValue::Str(v) => {
                    let c = CaseStyle::from_name(v.as_str())?;
                    self.case = Some(c);
                    Ok(())
                },
                _ => Err(AttrError::InvalidValue(m.key.clone())),
            }
        } else {
            Err(AttrError::UnknownAttribute(m.key.clone()))
        }
    }

    fn apply_diesel_item(&mut self, m: &MetaItem) -> (res: Result<(), AttrError>)
        requires
            m.value.wf(),
        ensures
            match pg_diesel_item(old(self)@, m@) {
                Ok(s) => res is Ok && final(self)@ == s,
                Err(f) => res matches Err(e) && e@ == f,
            },
            old(self).paths_wf() ==> final(self).paths_wf(),
    {
        if same_text(m.key.as_str(), "sql_type") {
            match &m.value {
                MetaValue::Path(p) => {
                    self.sql_type_path = Some(p.duplicate());
                    Ok(())
                },
                _ => Err(AttrError::InvalidValue(m.key.clone())),
            }
        } else {
            Ok(())
        }
    }

    fn apply_block(&mut self, b: &AttrBlock, is_derive: bool) -> (res: Result<(), AttrError>)
        requires
            b.wf(),
        ensures
            match pg_block(old(self)@, b@, is_derive) {
                Ok(s) => res is Ok && final(self)@ == s,
                Err(f) => res matches Err(e) && e@ == f,
            },
            old(self).paths_wf() ==> final(self).paths_wf(),
    {
        match b {
            AttrBlock::Db(items) => {
                let ghost ms = meta_views(items@);
                let ghost start = self@;
                let mut i: usize = 0;
                assert(ms.take(0) =~= Seq::<MetaModel>::empty());
                while i < items.len()
                    invariant
                        i <= items@.len(),
                        ms == meta_views(items@),
                        forall|k: int| 0 <= k < items@.len() ==> (#[trigger] items@[k]).value.wf(),
                        pg_items(start, ms.take(i as int)) == Ok::<PgSettings, AttrFault>(self@),
                        b@ == BlockModel::Db(ms),
                        start == old(self)@,
                        old(self).paths_wf() ==> self.paths_wf(),
                    decreases items@.len() - i,
                {
                    assert(ms.take(i + 1).drop_last() =~= ms.take(i as int));
                    assert(ms.take(i + 1).last() == items@[i as int]@);
                    let ghost before = self@;
                    let r = self.apply_item(&items[i]);
                    if let Err(e) = r {
                        proof {
                            assert(pg_item(before, items@[i as int]@) == Err::<PgSettings, AttrFault>(e@));
                            assert(pg_items(start, ms.take(i + 1)) == Err::<PgSettings, AttrFault>(e@));
                            lemma_pg_items_stop(start, ms, i + 1);
                        }
                        return Err(e);
                    }
                    i = i + 1;
                }
                assert(ms.take(items@.len() as int) =~= ms);
                Ok(())
            },
            AttrBlock::Diesel(items) => {
                if !is_derive || self.sql_type_path.is_some() {
                    return Ok(());
                }
                let ghost ms = meta_views(items@);
                let ghost start = self@;
                let mut i: usize = 0;
                assert(ms.take(0) =~= Seq::<MetaModel>::empty());
                while i < items.len()
                    invariant
                        i <= items@.len(),
                        ms == meta_views(items@),
                        forall|k: int| 0 <= k < items@.len() ==> (#[trigger] items@[k]).value.wf(),
                        pg_diesel_items(start, ms.take(i as int)) == Ok::<PgSettings, AttrFault>(self@),
                        b@ == BlockModel::Diesel(ms),
                        start == old(self)@,
                        old(self).paths_wf() ==> self.paths_wf(),
                        is_derive,
                        start.sql_type_path is None,
                    decreases items@.len() - i,
                {
                    assert(ms.take(i + 1).drop_last() =~= ms.take(i as int));
                    assert(ms.take(i + 1).last() == items@[i as int]@);
                    let ghost before = self@;
                    let r = self.apply_diesel_item(&items[i]);
                    if let Err(e) = r {
                        proof {
                            assert(pg_diesel_item(before, items@[i as int]@) == Err::<PgSettings, AttrFault>(e@));
                            assert(pg_diesel_items(start, ms.take(i + 1)) == Err::<PgSettings, AttrFault>(e@));
                            lemma_pg_diesel_items_stop(start, ms, i + 1);
                        }
                        return Err(e);
                    }
                    i = i + 1;
                }
                assert(ms.take(items@.len() as int) =~= ms);
                Ok(())
            },
        }
    }
}

proof fn lemma_pg_items_stop(st: PgSettings, ms: Seq<MetaModel>, k: int)
    requires
        0 <= k <= ms.len(),
        pg_items(st, ms.take(k)) is Err,
    ensures
        pg_items(st, ms) == pg_items(st, ms.take(k)),
    decreases ms.len() - k,
{
    if k < ms.len() {
        assert(ms.take(k + 1).drop_last() =~= ms.take(k));
        lemma_pg_items_stop(st, ms, k + 1);
    } else {
        assert(ms.take(k) =~= ms);
    }
}

proof fn lemma_pg_diesel_items_stop(st: PgSettings, ms: Seq<MetaModel>, k: int)
    requires
        0 <= k <= ms.len(),
        pg_diesel_items(st, ms.take(k)) is Err,
    ensures
        pg_diesel_items(st, ms) == pg_diesel_items(st, ms.take(k)),
    decreases ms.len() - k,
{
    if k < ms.len() {
        assert(ms.take(k + 1).drop_last() =~= ms.take(k));
        lemma_pg_diesel_items_stop(st, ms, k + 1);
    } else {
        assert(ms.take(k) =~= ms);
    }
}

proof fn lemma_pg_settings_stop(bs: Seq<BlockModel>, is_derive: bool, k: int)
    requires
        0 <= k <= bs.len(),
        pg_settings(bs.take(k), is_derive) is Err,
    ensures
        pg_settings(bs, is_derive) == pg_settings(bs.take(k), is_derive),
    decreases bs.len() - k,
{
    if k < bs.len() {
        assert(bs.take(k + 1).drop_last() =~= bs.take(k));
        lemma_pg_settings_stop(bs, is_derive, k + 1);
    } else {
        assert(bs.take(k) =~= bs);
    }
}

fn collect_pg(attrs: &Vec<AttrBlock>, is_derive: bool) -> (res: Result<PgCollect, AttrError>)
    requires
        blocks_wf(attrs@),
    ensures
        match pg_settings(block_views(attrs@), is_derive) {
            Ok(s) => res matches Ok(c) && c@ == s,
            Err(f) => res matches Err(e) && e@ == f,
        },
        res matches Ok(c) ==> c.paths_wf(),
{
    let ghost bs = block_views(attrs@);
    let mut c = PgCollect::new();
    let mut i: usize = 0;
    assert(bs.take(0) =~= Seq::<BlockModel>::empty());
    while i < attrs.len()
        invariant
            i <= attrs@.len(),
            bs == block_views(attrs@),
            blocks_wf(attrs@),
            pg_settings(bs.take(i as int), is_derive) == Ok::<PgSettings, AttrFault>(c@),
            c.paths_wf(),
        decreases attrs@.len() - i,
    {
        assert(bs.take(i + 1).drop_last() =~= bs.take(i as int));
        assert(bs.take(i + 1).last() == attrs@[i as int]@);
        let r = c.apply_block(&attrs[i], is_derive);
        if let Err(e) = r {
            proof {
                assert(pg_settings(bs.take(i + 1), is_derive) == Err::<PgSettings, AttrFault>(e@));
                lemma_pg_settings_stop(bs, is_derive, i + 1);
            }
            return Err(e);
        }
        i = i + 1;
    }
    assert(bs.take(attrs@.len() as int) =~= bs);
    Ok(c)
}

/// The settings of a Postgres enum.
#[derive(Clone, Debug, PartialEq, Eq)]
pub struct PgContainerAttrs {
    pub sql_type_path: TypePath,
    pub pg_enum_name: String,
    pub common_attrs: CommonAttrs,
}

/// The content of a [`PgContainerAttrs`].
pub ghost struct PgContainerModel {
    pub sql_type_path: PathModel,
    pub pg_enum_name: Seq<char>,
    pub common: CommonModel,
}

impl View for PgContainerAttrs {
    type V = PgContainerModel;

    open spec fn view(&self) -> PgContainerModel {
        PgContainerModel {
            sql_type_path: self.sql_type_path@,
            pg_enum_name: self.pg_enum_name@,
            common: self.common_attrs@,
        }
    }
}

/// The custom type when none is given: `crate::schema::sql_types::` and the
/// enum's name.
pub open spec fn default_sql_type_path(enum_ident: Seq<char>) -> PathModel {
    path_of(false, seq!["crate"@, "schema"@, "sql_types"@, enum_ident])
}

/// The settings of a Postgres enum.  Without a `name`, the name of the type in
/// Postgres is the last segment of the custom type in snake case.
pub open spec fn pg_container_outcome(
    enum_ident: Seq<char>,
    blocks: Seq<BlockModel>,
    is_derive: bool,
    features: RunnerFeatures,
) -> Result<PgContainerModel, AttrFault> {
    match pg_settings(blocks, is_derive) {
        Err(f) => Err(f),
        Ok(st) => match resolved_runner(st.skip_test, st.test_runner, EnumKind::PgEnum, features) {
            Err(f) => Err(f),
            Ok(runner) => {
                let path = match st.sql_type_path {
                    Some(p) => p,
                    None => default_sql_type_path(enum_ident),
                };
                Ok(PgContainerModel {
                    sql_type_path: path,
                    pg_enum_name: match st.pg_enum_name {
                        Some(n) => n,
                        None => case_converted(path.segments.last(), CaseStyle::Snake),
                    },
                    common: CommonModel {
                        test_runner: runner,
                        case: match st.case {
                            Some(c) => c,
                            None => CaseStyle::Snake,
                        },
                        skip_test: st.skip_test,
                    },
                })
            },
        },
    }
}

impl PgContainerAttrs {
    /// Reads the settings of a Postgres enum from its attributes.
    ///
    /// `is_derive` tells whether the derive reads them, in which case the
    /// `sql_type` of a `#[diesel(..)]` attribute gives the custom type when
    /// none is set before it.
    pub fn parse(
        enum_ident: &str,
        attrs: &Vec<AttrBlock>,
        is_derive: bool,
        features: RunnerFeatures,
    ) -> (res: Result<PgContainerAttrs, AttrError>)
        requires
            blocks_wf(attrs@),
        ensures
            match pg_container_outcome(enum_ident@, block_views(attrs@), is_derive, features) {
                Ok(m) => res matches Ok(c) && c@ == m,
                Err(f) => res matches Err(e) && e@ == f,
            },
            res matches Ok(c) ==> c.sql_type_path.wf(),
    {
        let c = collect_pg(attrs, is_derive)?;
        let test_runner = resolve_runner(c.skip_test, c.test_runner, EnumKind::PgEnum, features)?;
        let sql_type_path = match c.sql_type_path {
            Some(p) => p,
            None => {
                let segments = vec![
                    String::from_str("crate"),
                    String::from_str("schema"),
                    String::from_str("sql_types"),
                    String::from_str(enum_ident),
                ];
                assert(segments@.map_values(|s: String| s@) =~= seq!["crate"@, "schema"@, "sql_types"@, enum_ident@]);
                TypePath { leading_colon: false, segments }
            },
        };
        let pg_enum_name = match c.pg_enum_name {
            Some(n) => n,
            None => convert_case(sql_type_path.last_segment().as_str(), CaseStyle::Snake),
        };
        let case = match c.case {
            Some(k) => k,
            None => CaseStyle::Snake,
        };
        Ok(PgContainerAttrs {
            sql_type_path,
            pg_enum_name,
            common_attrs: CommonAttrs { test_runner, case, skip_test: c.skip_test },
        })
    }
}

/// Whenever the attributes are accepted, there is a test runner exactly when
/// `skip_test` is absent, for both kinds of enum.
pub proof fn lemma_runner_iff_not_skipped(
    snake_name: Seq<char>,
    enum_ident: Seq<char>,
    blocks: Seq<BlockModel>,
    is_derive: bool,
    features: RunnerFeatures,
)
    ensures
        container_outcome(snake_name, blocks, is_derive, features) matches Ok(c)
            ==> (c.common.test_runner is Some <==> !c.common.skip_test),
        pg_container_outcome(enum_ident, blocks, is_derive, features) matches Ok(c)
            ==> (c.common.test_runner is Some <==> !c.common.skip_test),
{
}


/// No item of the `#[db(..)]` attributes has the key.
pub open spec fn no_db_item(blocks: Seq<BlockModel>, key: Seq<char>) -> bool {
    forall|i: int, j: int|
        0 <= i < blocks.len() && blocks[i] is Db && 0 <= j < blocks[i]->Db_0.len()
            ==> (#[trigger] blocks[i]->Db_0[j]).key != key
}

/// The item `sql_type = p`.
pub open spec fn sql_type_item(p: PathModel) -> MetaModel {
    MetaModel { key: "sql_type"@, value: MetaValueModel::Path(p) }
}

/// Items without the key leave what the key sets as it was.
proof fn lemma_lookup_items_keep(st: LookupSettings, ms: Seq<MetaModel>, key: Seq<char>)
    requires
        forall|j: int| 0 <= j < ms.len() ==> (#[trigger] ms[j]).key != key,
    ensures
        lookup_items(st, ms) matches Ok(s) ==> {
            &&& key == "table_name"@ ==> s.table_name == st.table_name
            &&& key == "table"@ ==> s.table_path == st.table_path
            &&& key == "id_type"@ ==> s.id_type == st.id_type
        },
    decreases ms.len(),
{
    if ms.len() > 0 {
        let d = ms.drop_last();
        assert forall|j: int| 0 <= j < d.len() implies (#[trigger] d[j]).key != key by {
            assert(d[j] == ms[j]);
        }
        lemma_lookup_items_keep(st, d, key);
        assert(ms.last() == ms[ms.len() - 1]);
    }
}

/// A `#[diesel(..)]` attribute sets nothing but the id type.
proof fn lemma_lookup_diesel_items_keep(st: LookupSettings, ms: Seq<MetaModel>)
    ensures
        lookup_diesel_items(st, ms) matches Ok(s) ==> s.table_name == st.table_name && s.table_path == st.table_path,
    decreases ms.len(),
{
    if ms.len() > 0 {
        lemma_lookup_diesel_items_keep(st, ms.drop_last());
    }
}

/// Attributes without a `table_name` (`table`) item leave the table name
/// (path) unset.
proof fn lemma_lookup_settings_table(blocks: Seq<BlockModel>, is_derive: bool)
    ensures
        lookup_settings(blocks, is_derive) matches Ok(st) ==> {
            &&& no_db_item(blocks, "table_name"@) ==> st.table_name is None
            &&& no_db_item(blocks, "table"@) ==> st.table_path is None
        },
    decreases blocks.len(),
{
    if blocks.len() > 0 {
        let d = blocks.drop_last();
        let n = blocks.len() - 1;
        assert forall|key: Seq<char>| no_db_item(blocks, key) implies no_db_item(d, key) by {
            assert forall|i: int, j: int|
                0 <= i < d.len() && d[i] is Db && 0 <= j < d[i]->Db_0.len() implies (#[trigger] d[i]->Db_0[j]).key != key by {
                assert(d[i] == blocks[i]);
            }
        }
        lemma_lookup_settings_table(d, is_derive);
        if let Ok(s) = lookup_settings(d, is_derive) {
            match blocks[n] {
                BlockModel::Db(ms) => {
                    if no_db_item(blocks, "table_name"@) {
                        assert forall|j: int| 0 <= j < ms.len() implies (#[trigger] ms[j]).key != "table_name"@ by {
                            assert(blocks[n]->Db_0[j] == ms[j]);
                        }
                        lemma_lookup_items_keep(s, ms, "table_name"@);
                    }
                    if no_db_item(blocks, "table"@) {
                        assert forall|j: int| 0 <= j < ms.len() implies (#[trigger] ms[j]).key != "table"@ by {
                            assert(blocks[n]->Db_0[j] == ms[j]);
                        }
                        lemma_lookup_items_keep(s, ms, "table"@);
                    }
                },
                BlockModel::Diesel(ms) => {
                    lemma_lookup_diesel_items_keep(s, ms);
                },
            }
        }
    }
}

/// The table of a lookup-table enum: the `table` item gives its path, else it
/// is `crate::schema::` and the enum's snake-case name with an `s`; without a
/// `table_name` item its name is the last segment of that path, whichever it is.
pub proof fn lemma_table_name_from_path(
    snake_name: Seq<char>,
    blocks: Seq<BlockModel>,
    is_derive: bool,
    features: RunnerFeatures,
)
    ensures
        container_outcome(snake_name, blocks, is_derive, features) matches Ok(c) ==> {
            &&& no_db_item(blocks, "table_name"@) ==> c.table_name == c.table_path.segments.last()
            &&& no_db_item(blocks, "table"@) ==> c.table_path == default_table_path(snake_name)
            &&& no_db_item(blocks, "table"@) && no_db_item(blocks, "table_name"@) ==> c.table_name == snake_name + "s"@
        },
{
    lemma_lookup_settings_table(blocks, is_derive);
    let p = default_table_path(snake_name);
    assert(p.segments.last() == snake_name + "s"@);
}

/// With the first item `sql_type = p`, a `#[diesel(..)]` attribute read by
/// the derive sets the id type that `p` names; the attribute macro passes it over.
proof fn lemma_lookup_first_diesel(p: PathModel)
    ensures
        lookup_settings(seq![BlockModel::Diesel(seq![sql_type_item(p)])], true) == (match id_type_named(p.segments.last()) {
            Some(t) => Ok::<LookupSettings, AttrFault>(LookupSettings { id_type: Some(t), ..no_lookup_settings() }),
            None => Err(AttrFault::UnknownSqlType),
        }),
        lookup_settings(seq![BlockModel::Diesel(seq![sql_type_item(p)])], false) == Ok::<LookupSettings, AttrFault>(no_lookup_settings()),
{
    let m = sql_type_item(p);
    let b = seq![BlockModel::Diesel(seq![m])];
    assert(b.drop_last() =~= Seq::<BlockModel>::empty());
    assert(b.last() == BlockModel::Diesel(seq![m]));
    assert(seq![m].drop_last() =~= Seq::<MetaModel>::empty());
    assert(seq![m].last() == m);
    let st = no_lookup_settings();
    assert(lookup_settings(Seq::<BlockModel>::empty(), true) == Ok::<LookupSettings, AttrFault>(st));
    assert(lookup_settings(Seq::<BlockModel>::empty(), false) == Ok::<LookupSettings, AttrFault>(st));
    assert(lookup_diesel_items(st, Seq::<MetaModel>::empty()) == Ok::<LookupSettings, AttrFault>(st));
    assert(lookup_diesel_items(st, seq![m]) == lookup_diesel_item(st, m));
    assert(lookup_block(st, b.last(), true) == lookup_diesel_items(st, seq![m]));
    assert(lookup_settings(b, true) == lookup_block(st, b.last(), true));
    assert(lookup_settings(b, false) == lookup_block(st, b.last(), false));
}

/// After the first attribute, later attributes without an `id_type` item keep
/// the id type: a `#[diesel(..)]` one counts only for the derive while no id
/// type is set.
proof fn lemma_lookup_settings_keep_id(blocks: Seq<BlockModel>, is_derive: bool)
    requires
        blocks.len() >= 1,
        no_db_item(blocks.drop_first(), "id_type"@),
        is_derive ==> (lookup_settings(seq![blocks[0]], is_derive) matches Ok(s0) ==> s0.id_type is Some),
    ensures
        lookup_settings(blocks, is_derive) matches Ok(s) ==> lookup_settings(seq![blocks[0]], is_derive) matches Ok(s0)
            && s.id_type == s0.id_type,
    decreases blocks.len(),
{
    if blocks.len() == 1 {
        assert(blocks =~= seq![blocks[0]]);
    } else {
        let d = blocks.drop_last();
        let n = blocks.len() - 1;
        assert(d[0] == blocks[0]);
        assert(d.drop_first() =~= blocks.drop_first().drop_last());
        assert forall|i: int, j: int|
            0 <= i < d.drop_first().len() && d.drop_first()[i] is Db && 0 <= j < d.drop_first()[i]->Db_0.len()
                implies (#[trigger] d.drop_first()[i]->Db_0[j]).key != "id_type"@ by {
            assert(d.drop_first()[i] == blocks.drop_first()[i]);
        }
        lemma_lookup_settings_keep_id(d, is_derive);
        if let Ok(s) = lookup_settings(d, is_derive) {
            assert(blocks.drop_first()[n - 1] == blocks[n]);
            match blocks[n] {
                BlockModel::Db(ms) => {
                    assert forall|j: int| 0 <= j < ms.len() implies (#[trigger] ms[j]).key != "id_type"@ by {
                        assert(blocks.drop_first()[n - 1]->Db_0[j] == ms[j]);
                    }
                    lemma_lookup_items_keep(s, ms, "id_type"@);
                },
                BlockModel::Diesel(ms) => {},
            }
        }
    }
}

/// The id type of a lookup-table enum whose first attribute is
/// `#[diesel(sql_type = p)]` and whose `#[db(..)]` attributes have no
/// `id_type` item: for the derive, the type that `p` names (an unknown name is
/// refused); for the attribute macro, which passes `#[diesel(..)]` over, the
/// default `Integer`.
pub proof fn lemma_diesel_sql_type_sets_id_type(
    snake_name: Seq<char>,
    p: PathModel,
    rest: Seq<BlockModel>,
    features: RunnerFeatures,
)
    requires
        no_db_item(rest, "id_type"@),
    ensures
        container_outcome(snake_name, seq![BlockModel::Diesel(seq![sql_type_item(p)])] + rest, true, features) matches Ok(c)
            ==> id_type_named(p.segments.last()) == Some(c.id_type),
        id_type_named(p.segments.last()) is None ==> container_outcome(
            snake_name,
            seq![BlockModel::Diesel(seq![sql_type_item(p)])] + rest,
            true,
            features,
        ) is Err,
        container_outcome(snake_name, seq![BlockModel::Diesel(seq![sql_type_item(p)])] + rest, false, features) matches Ok(c)
            ==> c.id_type == IdType::I32,
{
    let bs = seq![BlockModel::Diesel(seq![sql_type_item(p)])] + rest;
    assert(bs.drop_first() =~= rest);
    assert(seq![bs[0]] =~= seq![BlockModel::Diesel(seq![sql_type_item(p)])]);
    lemma_lookup_first_diesel(p);
    lemma_lookup_settings_keep_id(bs, true);
    lemma_lookup_settings_keep_id(bs, false);
    if id_type_named(p.segments.last()) is None {
        lemma_lookup_settings_stop_first(bs, true);
    }
}

/// Once the first attribute is refused, the whole list is.
proof fn lemma_lookup_settings_stop_first(blocks: Seq<BlockModel>, is_derive: bool)
    requires
        blocks.len() >= 1,
        lookup_settings(seq![blocks[0]], is_derive) is Err,
    ensures
        lookup_settings(blocks, is_derive) is Err,
    decreases blocks.len(),
{
    if blocks.len() == 1 {
        assert(blocks =~= seq![blocks[0]]);
    } else {
        let d = blocks.drop_last();
        assert(d[0] == blocks[0]);
        lemma_lookup_settings_stop_first(d, is_derive);
    }
}

/// Items without the key leave what the key sets as it was.
proof fn lemma_pg_items_keep(st: PgSettings, ms: Seq<MetaModel>, key: Seq<char>)
    requires
        forall|j: int| 0 <= j < ms.len() ==> (#[trigger] ms[j]).key != key,
    ensures
        pg_items(st, ms) matches Ok(s) ==> {
            &&& key == "sql_type"@ ==> s.sql_type_path == st.sql_type_path
            &&& key == "name"@ ==> s.pg_enum_name == st.pg_enum_name
        },
    decreases ms.len(),
{
    if ms.len() > 0 {
        let d = ms.drop_last();
        assert forall|j: int| 0 <= j < d.len() implies (#[trigger] d[j]).key != key by {
            assert(d[j] == ms[j]);
        }
        lemma_pg_items_keep(st, d, key);
        assert(ms.last() == ms[ms.len() - 1]);
    }
}

/// A `#[diesel(..)]` attribute sets nothing but the custom type.
proof fn lemma_pg_diesel_items_keep(st: PgSettings, ms: Seq<MetaModel>)
    ensures
        pg_diesel_items(st, ms) matches Ok(s) ==> s.pg_enum_name == st.pg_enum_name,
    decreases ms.len(),
{
    if ms.len() > 0 {
        lemma_pg_diesel_items_keep(st, ms.drop_last());
    }
}

/// Attributes without a `name` item leave the Postgres name unset.
proof fn lemma_pg_settings_name(blocks: Seq<BlockModel>, is_derive: bool)
    requires
        no_db_item(blocks, "name"@),
    ensures
        pg_settings(blocks, is_derive) matches Ok(st) ==> st.pg_enum_name is None,
    decreases blocks.len(),
{
    if blocks.len() > 0 {
        let d = blocks.drop_last();
        let n = blocks.len() - 1;
        assert forall|i: int, j: int|
            0 <= i < d.len() && d[i] is Db && 0 <= j < d[i]->Db_0.len() implies (#[trigger] d[i]->Db_0[j]).key != "name"@ by {
            assert(d[i] == blocks[i]);
        }
        lemma_pg_settings_name(d, is_derive);
        if let Ok(s) = pg_settings(d, is_derive) {
            match blocks[n] {
                BlockModel::Db(ms) => {
                    assert forall|j: int| 0 <= j < ms.len() implies (#[trigger] ms[j]).key != "name"@ by {
                        assert(blocks[n]->Db_0[j] == ms[j]);
                    }
                    lemma_pg_items_keep(s, ms, "name"@);
                },
                BlockModel::Diesel(ms) => {
                    lemma_pg_diesel_items_keep(s, ms);
                },
            }
        }
    }
}

/// After the first attribute, later attributes without a `sql_type` item in
/// `#[db(..)]` keep the custom type, once it is set or when the attribute
/// macro reads them.
proof fn lemma_pg_settings_keep(blocks: Seq<BlockModel>, is_derive: bool)
    requires
        blocks.len() >= 1,
        no_db_item(blocks.drop_first(), "sql_type"@),
        is_derive ==> (pg_settings(seq![blocks[0]], is_derive) matches Ok(s0) ==> s0.sql_type_path is Some),
    ensures
        pg_settings(blocks, is_derive) matches Ok(s) ==> pg_settings(seq![blocks[0]], is_derive) matches Ok(s0)
            && s.sql_type_path == s0.sql_type_path,
    decreases blocks.len(),
{
    if blocks.len() == 1 {
        assert(blocks =~= seq![blocks[0]]);
    } else {
        let d = blocks.drop_last();
        let n = blocks.len() - 1;
        assert(d[0] == blocks[0]);
        assert(d.drop_first() =~= blocks.drop_first().drop_last());
        assert forall|i: int, j: int|
            0 <= i < d.drop_first().len() && d.drop_first()[i] is Db && 0 <= j < d.drop_first()[i]->Db_0.len()
                implies (#[trigger] d.drop_first()[i]->Db_0[j]).key != "sql_type"@ by {
            assert(d.drop_first()[i] == blocks.drop_first()[i]);
        }
        lemma_pg_settings_keep(d, is_derive);
        if let Ok(s) = pg_settings(d, is_derive) {
            assert(blocks.drop_first()[n - 1] == blocks[n]);
            match blocks[n] {
                BlockModel::Db(ms) => {
                    assert forall|j: int| 0 <= j < ms.len() implies (#[trigger] ms[j]).key != "sql_type"@ by {
                        assert(blocks.drop_first()[n - 1]->Db_0[j] == ms[j]);
                    }
                    lemma_pg_items_keep(s, ms, "sql_type"@);
                },
                BlockModel::Diesel(ms) => {},
            }
        }
    }
}

/// A `#[diesel(..)]` attribute counts for the derive only, and only while no
/// custom type is set: there its `sql_type = p` sets the custom type, and the
/// items after it that are not `sql_type` change nothing.
pub proof fn lemma_pg_diesel_block(st: PgSettings, p: PathModel, rest: Seq<MetaModel>, ms: Seq<MetaModel>)
    requires
        forall|j: int| 0 <= j < rest.len() ==> (#[trigger] rest[j]).key != "sql_type"@,
    ensures
        st.sql_type_path is None ==> pg_block(st, BlockModel::Diesel(seq![sql_type_item(p)] + rest), true)
            == Ok::<PgSettings, AttrFault>(PgSettings { sql_type_path: Some(p), ..st }),
        pg_block(st, BlockModel::Diesel(ms), false) == Ok::<PgSettings, AttrFault>(st),
        st.sql_type_path is Some ==> pg_block(st, BlockModel::Diesel(ms), true) == Ok::<PgSettings, AttrFault>(st),
    decreases rest.len(),
{
    reveal_strlit("sql_type");
    let m = sql_type_item(p);
    if rest.len() == 0 {
        assert(seq![m] + rest =~= seq![m]);
        assert(seq![m].drop_last() =~= Seq::<MetaModel>::empty());
        assert(seq![m].last() == m);
        assert(pg_diesel_items(st, Seq::<MetaModel>::empty()) == Ok::<PgSettings, AttrFault>(st));
        assert(pg_diesel_items(st, seq![m]) == pg_diesel_item(st, m));
    } else {
        let r = rest.drop_last();
        assert forall|j: int| 0 <= j < r.len() implies (#[trigger] r[j]).key != "sql_type"@ by {
            assert(r[j] == rest[j]);
        }
        lemma_pg_diesel_block(st, p, r, ms);
        assert((seq![sql_type_item(p)] + rest).drop_last() =~= seq![sql_type_item(p)] + r);
        assert((seq![sql_type_item(p)] + rest).last() == rest[rest.len() - 1]);
    }
}

/// The custom type of a Postgres enum whose first attribute is
/// `#[diesel(sql_type = p)]` and whose `#[db(..)]` attributes have no
/// `sql_type` item: `p` for the derive, whose Postgres name is then by default
/// the last segment of `p` in snake case; for the attribute macro, which
/// passes `#[diesel(..)]` over, the default `crate::schema::sql_types::` path.
pub proof fn lemma_pg_diesel_sql_type(
    enum_ident: Seq<char>,
    p: PathModel,
    rest: Seq<BlockModel>,
    features: RunnerFeatures,
)
    requires
        no_db_item(rest, "sql_type"@),
    ensures
        pg_container_outcome(enum_ident, seq![BlockModel::Diesel(seq![sql_type_item(p)])] + rest, true, features) matches Ok(c)
            ==> c.sql_type_path == p && (no_db_item(rest, "name"@) ==> c.pg_enum_name == case_converted(
            p.segments.last(),
            CaseStyle::Snake,
        )),
        pg_container_outcome(enum_ident, seq![BlockModel::Diesel(seq![sql_type_item(p)])] + rest, false, features) matches Ok(c)
            ==> c.sql_type_path == default_sql_type_path(enum_ident),
{
    let b0 = BlockModel::Diesel(seq![sql_type_item(p)]);
    let bs = seq![b0] + rest;
    assert(bs.drop_first() =~= rest);
    assert(seq![bs[0]] =~= seq![b0]);
    assert(seq![b0].drop_last() =~= Seq::<BlockModel>::empty());
    lemma_pg_diesel_block(no_pg_settings(), p, Seq::empty(), seq![sql_type_item(p)]);
    assert(seq![sql_type_item(p)] + Seq::<MetaModel>::empty() =~= seq![sql_type_item(p)]);
    assert(seq![b0].last() == b0);
    assert(pg_settings(Seq::<BlockModel>::empty(), true) == Ok::<PgSettings, AttrFault>(no_pg_settings()));
    assert(pg_settings(Seq::<BlockModel>::empty(), false) == Ok::<PgSettings, AttrFault>(no_pg_settings()));
    assert(pg_settings(seq![b0], true) == pg_block(no_pg_settings(), b0, true));
    assert(pg_settings(seq![b0], false) == pg_block(no_pg_settings(), b0, false));
    lemma_pg_settings_keep(bs, true);
    lemma_pg_settings_keep(bs, false);
    if no_db_item(rest, "name"@) {
        assert forall|i: int, j: int|
            0 <= i < bs.len() && bs[i] is Db && 0 <= j < bs[i]->Db_0.len() implies (#[trigger] bs[i]->Db_0[j]).key != "name"@ by {
            assert(bs[i] == rest[i - 1]);
        }
        lemma_pg_settings_name(bs, true);
    }
}


} // verus!

//! The attributes of an enum, in plain values, and the rules that turn
//! them into the settings of the generated mapping.
use vstd::prelude::*;
use crate::errors::AttrError;
use crate::skip_ids::SkipIdEntry;
use crate::text::same_text;

verus! {

/// A Rust path such as `crate::schema::users` or `::diesel::sql_types::Integer`.
#[derive(Clone, Debug, PartialEq, Eq)]
pub struct TypePath {
    /// The path starts with `::`.
    pub leading_colon: bool,
    /// The identifiers of the path, in order.
    pub segments: Vec<String>,
}

/// The content of a [`TypePath`].
pub ghost struct PathModel {
    pub leading_colon: bool,
    pub segments: Seq<Seq<char>>,
}

impl View for TypePath {
    type V = PathModel;

    open spec fn view(&self) -> PathModel {
        PathModel {
            leading_colon: self.leading_colon,
            segments: self.segments@.map_values(|s: String| s@),
        }
    }
}

/// A path with `n` segments written by hand.
pub open spec fn path_of(leading_colon: bool, segments: Seq<Seq<char>>) -> PathModel {
    PathModel { leading_colon, segments }
}

impl TypePath {
    /// The path has at least one segment, as every path that Rust parses does.
    pub open spec fn wf(&self) -> bool {
        self.segments@.len() > 0
    }

    /// A copy of the path.
    pub fn duplicate(&self) -> (res: TypePath)
        ensures
            res@ == self@,
            res.segments@.len() == self.segments@.len(),
    {
        let mut segments: Vec<String> = Vec::new();
        let mut i: usize = 0;
        while i < self.segments.len()
            invariant
                i <= self.segments@.len(),
                segments@.len() == i,
                forall|j: int| 0 <= j < i ==> (#[trigger] segments@[j])@ == self.segments@[j]@,
            decreases self.segments@.len() - i,
        {
            segments.push(self.segments[i].clone());
            i = i + 1;
        }
        assert(segments@.map_values(|s: String| s@) =~= self.segments@.map_values(|s: String| s@));
        TypePath { leading_colon: self.leading_colon, segments }
    }

    /// The last identifier of the path.
    pub fn last_segment(&self) -> (res: &String)
        requires
            self.wf(),
        ensures
            res@ == self@.segments.last(),
    {
        &self.segments[self.segments.len() - 1]
    }
}

fn text_vec2(a: &str, b: &str) -> (res: Vec<String>)
    ensures
        res@.map_values(|s: String| s@) == seq![a@, b@],
        res@.len() == 2,
{
    let v = vec![String::from_str(a), String::from_str(b)];
    assert(v@.map_values(|s: String| s@) =~= seq![a@, b@]);
    v
}

fn text_vec3(a: &str, b: &str, c: &str) -> (res: Vec<String>)
    ensures
        res@.map_values(|s: String| s@) == seq![a@, b@, c@],
        res@.len() == 3,
{
    let v = vec![String::from_str(a), String::from_str(b), String::from_str(c)];
    assert(v@.map_values(|s: String| s@) =~= seq![a@, b@, c@]);
    v
}

/// The value given to a key inside `#[db(..)]` or `#[diesel(..)]`.
#[derive(Clone, Debug, PartialEq, Eq)]
pub enum MetaValue {
    /// The key stands alone, as in `skip_test`.
    Flag,
    /// A string literal, as in `table_name = "types"`.
    Str(String),
    /// An integer literal, as in `id = 20`.
    Int(i64),
    /// A path, as in `table = crate::schema::types`.
    Path(TypePath),
    /// A list of ids and id ranges, as in `skip_ids(1..6, 6, 7..=10)`.
    List(Vec<SkipIdEntry>),
    /// Any other form.
    Other,
}

/// The content of a [`MetaValue`].
pub ghost enum MetaValueModel {
    Flag,
    Str(Seq<char>),
    Int(i64),
    Path(PathModel),
    List(Seq<SkipIdEntry>),
    Other,
}

impl View for MetaValue {
    type V = MetaValueModel;

    open spec fn view(&self) -> MetaValueModel {
        match self {
            MetaValue::Flag => MetaValueModel::Flag,
            MetaValue::Str(s) => MetaValueModel::Str(s@),
            MetaValue::Int(n) => MetaValueModel::Int(*n),
            MetaValue::Path(p) => MetaValueModel::Path(p@),
            MetaValue::List(l) => MetaValueModel::List(l@),
            MetaValue::Other => MetaValueModel::Other,
        }
    }
}

impl MetaValue {
    /// Every path in the value has a segment.
    pub open spec fn wf(&self) -> bool {
        match self {
            MetaValue::Path(p) => p.wf(),
            _ => true,
        }
    }
}

/// One `key = value` item inside an attribute.
#[derive(Clone, Debug, PartialEq, Eq)]
pub struct MetaItem {
    pub key: String,
    pub value: MetaValue,
}

/// The content of a [`MetaItem`].
pub ghost struct MetaModel {
    pub key: Seq<char>,
    pub value: MetaValueModel,
}

impl View for MetaItem {
    type V = MetaModel;

    open spec fn view(&self) -> MetaModel {
        MetaModel { key: self.key@, value: self.value@ }
    }
}

/// The integer types of `diesel::sql_types` that can hold the ids of a table.
#[derive(Clone, Copy, Debug, PartialEq, Eq, Hash)]
pub enum IdType {
    I8,
    I16,
    I32,
    I64,
}

impl Default for IdType {
    fn default() -> (res: IdType)
        ensures
            res == IdType::I32,
    {
        IdType::I32
    }
}

/// The name of the `diesel::sql_types` type of each id type.
pub open spec fn sql_type_name(t: IdType) -> Seq<char> {
    match t {
        IdType::I8 => "TinyInt"@,
        IdType::I16 => "SmallInt"@,
        IdType::I32 => "Integer"@,
        IdType::I64 => "BigInt"@,
    }
}

/// The id type whose `diesel::sql_types` type has the given name.
pub open spec fn id_type_named(name: Seq<char>) -> Option<IdType> {
    if name == "TinyInt"@ {
        Some(IdType::I8)
    } else if name == "SmallInt"@ {
        Some(IdType::I16)
    } else if name == "Integer"@ {
        Some(IdType::I32)
    } else if name == "BigInt"@ {
        Some(IdType::I64)
    } else {
        None
    }
}

/// The Rust integer type of each id type.
pub open spec fn rust_type_name(t: IdType) -> Seq<char> {
    match t {
        IdType::I8 => "i8"@,
        IdType::I16 => "i16"@,
        IdType::I32 => "i32"@,
        IdType::I64 => "i64"@,
    }
}

/// The full path of the `diesel::sql_types` type of an id type.
pub open spec fn diesel_type_path(t: IdType) -> PathModel {
    path_of(true, seq!["diesel"@, "sql_types"@, sql_type_name(t)])
}

impl IdType {
    /// Reads the id type from the last segment of a path to one of the
    /// integer types of `diesel::sql_types`.
    pub fn from_path(path: &TypePath) -> (res: Result<IdType, AttrError>)
        requires
            path.wf(),
        ensures
            res matches Ok(t) ==> id_type_named(path@.segments.last()) == Some(t),
            res is Err ==> id_type_named(path@.segments.last()) is None
                && res->Err_0 == AttrError::UnknownSqlType,
    {
        let ident = path.last_segment().as_str();
        if same_text(ident, "TinyInt") {
            Ok(IdType::I8)
        } else if same_text(ident, "SmallInt") {
            Ok(IdType::I16)
        } else if same_text(ident, "Integer") {
            Ok(IdType::I32)
        } else if same_text(ident, "BigInt") {
            Ok(IdType::I64)
        } else {
            Err(AttrError::UnknownSqlType)
        }
    }

    /// The Rust integer type that holds the ids.
    pub fn rust_type(&self) -> (res: &'static str)
        ensures
            res@ == rust_type_name(*self),
    {
        match self {
            IdType::I8 => "i8",
            IdType::I16 => "i16",
            IdType::I32 => "i32",
            IdType::I64 => "i64",
        }
    }

    /// The `diesel::sql_types` type of the id column.
    pub fn diesel_type(&self) -> (res: TypePath)
        ensures
            res@ == diesel_type_path(*self),
            res.wf(),
    {
        let name = match self {
            IdType::I8 => "TinyInt",
            IdType::I16 => "SmallInt",
            IdType::I32 => "Integer",
            IdType::I64 => "BigInt",
        };
        TypePath { leading_colon: true, segments: text_vec3("diesel", "sql_types", name) }
    }
}

/// Reading back the type that `diesel_type` names gives the same id type.
pub proof fn lemma_id_type_roundtrip(t: IdType)
    ensures
        id_type_named(diesel_type_path(t).segments.last()) == Some(t),
{
    reveal_strlit("TinyInt");
    reveal_strlit("SmallInt");
    reveal_strlit("Integer");
    reveal_strlit("BigInt");
    let s = seq!["diesel"@, "sql_types"@, sql_type_name(t)];
    assert(s.last() == sql_type_name(t));
    match t {
        IdType::I8 => {},
        IdType::I16 => {
            assert("SmallInt"@ != "TinyInt"@);
        },
        IdType::I32 => {
            assert("Integer"@[0] != "TinyInt"@[0]);
            assert("Integer"@ != "SmallInt"@);
        },
        IdType::I64 => {
            assert("BigInt"@ != "TinyInt"@);
            assert("BigInt"@ != "SmallInt"@);
            assert("BigInt"@ != "Integer"@);
        },
    }
}

/// The two kinds of mapping: a Postgres enum, or a lookup table with ids.
#[derive(Clone, Copy, Debug, PartialEq, Eq)]
pub enum EnumKind {
    PgEnum,
    LookupTable,
}

impl EnumKind {
    /// Returns `true` if the enum kind is [`EnumKind::PgEnum`].
    pub fn is_pg_enum(self) -> (res: bool)
        ensures
            res == (self == EnumKind::PgEnum),
    {
        match self {
            EnumKind::PgEnum => true,
            EnumKind::LookupTable => false,
        }
    }
}

/// The runner that the generated test calls, by the path of its type.
#[derive(Clone, Debug, PartialEq, Eq)]
pub enum TestRunner {
    Sync(TypePath),
    Async(TypePath),
}

/// The content of a [`TestRunner`].
pub ghost enum RunnerModel {
    Sync(PathModel),
    Async(PathModel),
}

impl View for TestRunner {
    type V = RunnerModel;

    open spec fn view(&self) -> RunnerModel {
        match self {
            TestRunner::Sync(p) => RunnerModel::Sync(p@),
            TestRunner::Async(p) => RunnerModel::Async(p@),
        }
    }
}

/// The crate features that choose a default test runner.
#[derive(Clone, Copy, Debug, PartialEq, Eq, Default)]
pub struct RunnerFeatures {
    pub default_sqlite_runner: bool,
    pub default_pg_runner: bool,
    pub crate_runner: bool,
    pub async_crate_runner: bool,
}

/// The default runner that the enabled features choose for an enum kind.
pub open spec fn default_runner_for(kind: EnumKind, f: RunnerFeatures) -> Option<RunnerModel> {
    if f.default_sqlite_runner && kind != EnumKind::PgEnum {
        Some(RunnerModel::Async(path_of(true, seq!["diesel_enums"@, "AsyncSqliteRunner"@])))
    } else if f.default_pg_runner {
        Some(RunnerModel::Async(path_of(true, seq!["diesel_enums"@, "AsyncPgRunner"@])))
    } else if f.crate_runner {
        Some(RunnerModel::Sync(path_of(false, seq!["crate"@, "db_test_runner"@, "DbTestRunner"@])))
    } else if f.async_crate_runner {
        Some(RunnerModel::Async(path_of(false, seq!["crate"@, "db_test_runner"@, "DbTestRunner"@])))
    } else {
        None
    }
}

/// The names of the enabled runner features, in the order of the manifest.
pub open spec fn enabled_features(f: RunnerFeatures) -> Seq<Seq<char>> {
    (if f.default_sqlite_runner { seq!["default-sqlite-runner"@] } else { Seq::empty() })
        + (if f.default_pg_runner { seq!["default-pg-runner"@] } else { Seq::empty() })
        + (if f.crate_runner { seq!["crate-runner"@] } else { Seq::empty() })
        + (if f.async_crate_runner { seq!["async-crate-runner"@] } else { Seq::empty() })
}

impl TestRunner {
    /// The runner that the enabled features choose, if any.
    pub fn default_runner(enum_kind: EnumKind, features: RunnerFeatures) -> (res: Option<TestRunner>)
        ensures
            res matches Some(r) ==> default_runner_for(enum_kind, features) == Some(r@),
            res is None ==> default_runner_for(enum_kind, features) is None,
            res matches Some(r) ==> r.path().wf(),
    {
        let is_pg_enum = enum_kind.is_pg_enum();
        if features.default_sqlite_runner && !is_pg_enum {
            Some(TestRunner::Async(TypePath { leading_colon: true, segments: text_vec2("diesel_enums", "AsyncSqliteRunner") }))
        } else if features.default_pg_runner {
            Some(TestRunner::Async(TypePath { leading_colon: true, segments: text_vec2("diesel_enums", "AsyncPgRunner") }))
        } else if features.crate_runner {
            Some(TestRunner::Sync(TypePath { leading_colon: false, segments: text_vec3("crate", "db_test_runner", "DbTestRunner") }))
        } else if features.async_crate_runner {
            Some(TestRunner::Async(TypePath { leading_colon: false, segments: text_vec3("crate", "db_test_runner", "DbTestRunner") }))
        } else {
            None
        }
    }

    /// A copy of the runner.
    pub fn duplicate(&self) -> (res: TestRunner)
        ensures
            res@ == self@,
    {
        match self {
            TestRunner::Sync(p) => TestRunner::Sync(p.duplicate()),
            TestRunner::Async(p) => TestRunner::Async(p.duplicate()),
        }
    }

    /// The path of the runner's type.
    pub open spec fn path(&self) -> TypePath {
        match self {
            TestRunner::Sync(p) => *p,
            TestRunner::Async(p) => *p,
        }
    }
}

/// Refuses a build in which more than one feature chooses a default runner.
pub fn check_features(features: RunnerFeatures) -> (res: Result<(), AttrError>)
    ensures
        res is Ok <==> enabled_features(features).len() <= 1,
        res matches Err(e) ==> e@ == crate::errors::AttrFault::MultipleDefaultRunners(enabled_features(features)),
{
    let mut enabled: Vec<String> = Vec::new();
    if features.default_sqlite_runner {
        enabled.push(String::from_str("default-sqlite-runner"));
    }
    if features.default_pg_runner {
        enabled.push(String::from_str("default-pg-runner"));
    }
    if features.crate_runner {
        enabled.push(String::from_str("crate-runner"));
    }
    if features.async_crate_runner {
        enabled.push(String::from_str("async-crate-runner"));
    }
    assert(enabled@.map_values(|s: String| s@) =~= enabled_features(features));
    if enabled.len() > 1 {
        Err(AttrError::MultipleDefaultRunners(enabled))
    } else {
        Ok(())
    }
}


/// The path of the runner that a crate provides itself.
pub open spec fn crate_runner_path() -> PathModel {
    path_of(false, seq!["crate"@, "db_test_runner"@, "DbTestRunner"@])
}

/// The runners that the features select: `default-sqlite-runner` (for lookup
/// tables only) and `default-pg-runner` select the asynchronous runners of the
/// library, `crate-runner` a synchronous and `async-crate-runner` an
/// asynchronous runner at `crate::db_test_runner::DbTestRunner`.  Only
/// `crate-runner` ever gives a synchronous runner; without a feature that
/// applies there is none.
pub proof fn lemma_feature_runners(kind: EnumKind, f: RunnerFeatures)
    ensures
        ({
            let library = f.default_pg_runner || (f.default_sqlite_runner && kind == EnumKind::LookupTable);
            &&& default_runner_for(kind, f) is None <==> !library && !f.crate_runner && !f.async_crate_runner
            &&& default_runner_for(kind, f) matches Some(RunnerModel::Sync(p)) ==> f.crate_runner && p == crate_runner_path()
            &&& !library && f.crate_runner ==> default_runner_for(kind, f) == Some(RunnerModel::Sync(crate_runner_path()))
            &&& !library && !f.crate_runner && f.async_crate_runner ==> default_runner_for(kind, f) == Some(
                RunnerModel::Async(crate_runner_path()),
            )
            &&& f.default_sqlite_runner && kind == EnumKind::LookupTable ==> default_runner_for(kind, f) == Some(
                RunnerModel::Async(path_of(true, seq!["diesel_enums"@, "AsyncSqliteRunner"@])),
            )
            &&& f.default_pg_runner && !(f.default_sqlite_runner && kind == EnumKind::LookupTable) ==> default_runner_for(
                kind,
                f,
            ) == Some(RunnerModel::Async(path_of(true, seq!["diesel_enums"@, "AsyncPgRunner"@])))
        }),
{
}

} // verus!

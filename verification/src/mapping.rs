//! The consistency check between the variants of an enum and the variants
//! found in the database, and the errors it reports.
use vstd::prelude::*;
use crate::text::{bright_cyan, bright_green, bright_red, bright_yellow, decimal_string, decimal_text, painted};

verus! {

/// An error that can occur when trying to create an instance of a mapped enum from a string.
#[derive(Clone, Debug, PartialEq, Eq, Hash)]
pub struct UnknownVariantError {
    pub enum_name: String,
    pub variant: String,
}

/// An error that can occur when trying to create an instance of a mapped enum from a number.
#[derive(Clone, Debug, PartialEq, Eq, Hash)]
pub struct UnknownIdError {
    pub enum_name: String,
    pub id: i64,
}

/// Represents a mismatch between a Rust variant and a database variant.
#[derive(Clone, Debug, PartialEq, Eq, Hash)]
pub struct IdMismatch {
    variant: String,
    /// The id found in the database.
    pub expected: i64,
    /// The id that the Rust enum gives the variant.
    pub found: i64,
}

/// The content of an [`IdMismatch`]: the variant's name, the id in the
/// database and the id in the Rust enum.
pub ghost struct MismatchModel {
    pub variant: Seq<char>,
    pub expected: i64,
    pub found: i64,
}

impl View for IdMismatch {
    type V = MismatchModel;

    closed spec fn view(&self) -> MismatchModel {
        MismatchModel { variant: self.variant@, expected: self.expected, found: self.found }
    }
}

impl IdMismatch {
    /// Builds a mismatch for the named variant.
    pub fn new(variant: String, expected: i64, found: i64) -> (res: IdMismatch)
        ensures
            res@ == (MismatchModel { variant: variant@, expected, found }),
    {
        IdMismatch { variant, expected, found }
    }

    /// Returns the variant's name for this mismatch.
    pub fn variant(&self) -> (res: &str)
        ensures
            res@ == self@.variant,
    {
        self.variant.as_str()
    }

    /// The id found in the database.
    pub fn expected(&self) -> (res: i64)
        ensures
            res == self@.expected,
    {
        self.expected
    }

    /// The id that the Rust enum gives the variant.
    pub fn found(&self) -> (res: i64)
        ensures
            res == self@.found,
    {
        self.found
    }
}

/// Where the database variants come from.
#[derive(Clone, Debug, PartialEq, Eq, Hash)]
pub enum DbEnumSource {
    /// A custom enum type of Postgres, by name.
    CustomEnum(String),
    /// A lookup table, by name.
    Table(String),
}

/// The content of a [`DbEnumSource`].
pub ghost enum SourceModel {
    CustomEnum(Seq<char>),
    Table(Seq<char>),
}

impl View for DbEnumSource {
    type V = SourceModel;

    open spec fn view(&self) -> SourceModel {
        match self {
            DbEnumSource::CustomEnum(n) => SourceModel::CustomEnum(n@),
            DbEnumSource::Table(n) => SourceModel::Table(n@),
        }
    }
}

/// The name of the enum type or of the table.
pub open spec fn source_name(s: SourceModel) -> Seq<char> {
    match s {
        SourceModel::CustomEnum(n) => n,
        SourceModel::Table(n) => n,
    }
}

/// The word for the kind of source.
pub open spec fn source_kind(s: SourceModel) -> Seq<char> {
    match s {
        SourceModel::CustomEnum(_) => "enum"@,
        SourceModel::Table(_) => "table"@,
    }
}

impl DbEnumSource {
    /// The name of the enum type or of the table.
    pub fn name(&self) -> (res: &str)
        ensures
            res@ == source_name(self@),
    {
        match self {
            DbEnumSource::CustomEnum(name) => name.as_str(),
            DbEnumSource::Table(name) => name.as_str(),
        }
    }

    /// `enum` for a custom enum type, `table` for a table.
    pub fn db_type(&self) -> (res: &'static str)
        ensures
            res@ == source_kind(self@),
    {
        match self {
            DbEnumSource::CustomEnum(_) => "enum",
            DbEnumSource::Table(_) => "table",
        }
    }
}

/// An error that is produced when a rust enum does not match a database enum or table.
///
/// It includes the list of errors that may occur simultaneously, such as id mismatches as well as missing variants.
#[derive(Clone, Debug, PartialEq, Eq, Hash)]
pub struct DbEnumError {
    rust_enum_name: String,
    db_source: DbEnumSource,
    /// The list of variants that are missing from the database.
    pub missing_from_db: Vec<String>,
    /// The list of variants that are missing from the Rust enum.
    pub missing_from_rust: Vec<String>,
    /// The list of ID mismatches between the Rust and database enum.
    ///
    /// This is always empty for Postgres enums since they do not have IDs.
    pub id_mismatches: Vec<IdMismatch>,
}

/// The content of a [`DbEnumError`].
pub ghost struct DbEnumErrorModel {
    pub rust_enum_name: Seq<char>,
    pub db_source: SourceModel,
    pub missing_from_db: Seq<Seq<char>>,
    pub missing_from_rust: Seq<Seq<char>>,
    pub id_mismatches: Seq<MismatchModel>,
}

impl View for DbEnumError {
    type V = DbEnumErrorModel;

    closed spec fn view(&self) -> DbEnumErrorModel {
        DbEnumErrorModel {
            rust_enum_name: self.rust_enum_name@,
            db_source: self.db_source@,
            missing_from_db: self.missing_from_db@.map_values(|s: String| s@),
            missing_from_rust: self.missing_from_rust@.map_values(|s: String| s@),
            id_mismatches: self.id_mismatches@.map_values(|m: IdMismatch| m@),
        }
    }
}

impl DbEnumError {
    /// An error for the given enum and source that lists nothing yet.
    pub fn new(rust_enum: &str, db_source: DbEnumSource) -> (res: DbEnumError)
        ensures
            res@.rust_enum_name == rust_enum@,
            res@.db_source == db_source@,
            res@.missing_from_db.len() == 0,
            res@.missing_from_rust.len() == 0,
            res@.id_mismatches.len() == 0,
    {
        DbEnumError {
            rust_enum_name: String::from_str(rust_enum),
            db_source,
            missing_from_db: Vec::new(),
            missing_from_rust: Vec::new(),
            id_mismatches: Vec::new(),
        }
    }

    /// The three lists are empty.
    pub open spec fn clean(self) -> bool {
        &&& self@.missing_from_db.len() == 0
        &&& self@.missing_from_rust.len() == 0
        &&& self@.id_mismatches.len() == 0
    }

    /// Tells whether the error lists nothing.
    pub fn is_clean(&self) -> (res: bool)
        ensures
            res == self.clean(),
    {
        self.missing_from_db.len() == 0 && self.missing_from_rust.len() == 0
            && self.id_mismatches.len() == 0
    }

    /// The name of the Rust enum.
    pub fn rust_enum_name(&self) -> (res: &str)
        ensures
            res@ == self@.rust_enum_name,
    {
        self.rust_enum_name.as_str()
    }

    /// Where the database variants came from.
    pub fn db_source(&self) -> (res: &DbEnumSource)
        ensures
            res@ == self@.db_source,
    {
        &self.db_source
    }

    /// The variants that are missing from the database.
    pub fn missing_from_db(&self) -> (res: &Vec<String>)
        ensures
            res@.map_values(|s: String| s@) == self@.missing_from_db,
    {
        &self.missing_from_db
    }

    /// The variants that are missing from the Rust enum.
    pub fn missing_from_rust(&self) -> (res: &Vec<String>)
        ensures
            res@.map_values(|s: String| s@) == self@.missing_from_rust,
    {
        &self.missing_from_rust
    }

    /// The id mismatches between the Rust enum and the database.
    pub fn id_mismatches(&self) -> (res: &Vec<IdMismatch>)
        ensures
            res@.map_values(|m: IdMismatch| m@) == self@.id_mismatches,
    {
        &self.id_mismatches
    }
}

/// Some mapping has the name.
pub open spec fn has_name(ms: Seq<(i64, Seq<char>)>, name: Seq<char>) -> bool {
    exists|i: int| 0 <= i < ms.len() && #[trigger] ms[i].1 == name
}

/// The position of the last mapping with the name, or -1.
pub open spec fn last_index(ms: Seq<(i64, Seq<char>)>, name: Seq<char>) -> int
    decreases ms.len(),
{
    if ms.len() == 0 {
        -1
    } else if ms.last().1 == name {
        ms.len() - 1
    } else {
        last_index(ms.drop_last(), name)
    }
}

/// The id that the mappings give a name: that of its last mapping, as when
/// the mappings are collected into a map.
pub open spec fn mapped_id(ms: Seq<(i64, Seq<char>)>, name: Seq<char>) -> i64 {
    ms[last_index(ms, name)].0
}

/// The names of the rows.
pub open spec fn row_names(rows: Seq<(i64, Seq<char>)>) -> Seq<Seq<char>> {
    rows.map_values(|r: (i64, Seq<char>)| r.1)
}

/// The row matches a mapping that no earlier row matched.
pub open spec fn row_matches(ms: Seq<(i64, Seq<char>)>, earlier: Seq<(i64, Seq<char>)>, name: Seq<char>) -> bool {
    has_name(ms, name) && !row_names(earlier).contains(name)
}

/// The names of the rows that match no mapping, or whose mapping an earlier
/// row already matched, in the order of the rows.
pub open spec fn missing_from_rust_of(ms: Seq<(i64, Seq<char>)>, rows: Seq<(i64, Seq<char>)>) -> Seq<Seq<char>>
    decreases rows.len(),
{
    if rows.len() == 0 {
        Seq::empty()
    } else {
        let rest = missing_from_rust_of(ms, rows.drop_last());
        if row_matches(ms, rows.drop_last(), rows.last().1) {
            rest
        } else {
            rest.push(rows.last().1)
        }
    }
}

/// The rows that match a mapping with another id, as name, id in the
/// database and id in the mapping, in the order of the rows.
pub open spec fn mismatches_of(ms: Seq<(i64, Seq<char>)>, rows: Seq<(i64, Seq<char>)>) -> Seq<MismatchModel>
    decreases rows.len(),
{
    if rows.len() == 0 {
        Seq::empty()
    } else {
        let rest = mismatches_of(ms, rows.drop_last());
        let r = rows.last();
        if row_matches(ms, rows.drop_last(), r.1) && r.0 != mapped_id(ms, r.1) {
            rest.push(MismatchModel { variant: r.1, expected: r.0, found: mapped_id(ms, r.1) })
        } else {
            rest
        }
    }
}

/// The names among the first `n` mappings that no row has, each once, in
/// the order of their last mappings.
pub open spec fn missing_from_db_upto(ms: Seq<(i64, Seq<char>)>, rows: Seq<(i64, Seq<char>)>, n: int) -> Seq<Seq<char>>
    decreases n,
{
    if n <= 0 {
        Seq::empty()
    } else {
        let rest = missing_from_db_upto(ms, rows, n - 1);
        let name = ms[n - 1].1;
        if last_index(ms, name) == n - 1 && !row_names(rows).contains(name) {
            rest.push(name)
        } else {
            rest
        }
    }
}

/// The names of the mappings that no row has, each once.
pub open spec fn missing_from_db_of(ms: Seq<(i64, Seq<char>)>, rows: Seq<(i64, Seq<char>)>) -> Seq<Seq<char>> {
    missing_from_db_upto(ms, rows, ms.len() as int)
}

/// The pairs with the names as character sequences.
pub open spec fn pair_views(v: Seq<(i64, String)>) -> Seq<(i64, Seq<char>)> {
    v.map_values(|p: (i64, String)| (p.0, p.1@))
}

proof fn lemma_last_index(ms: Seq<(i64, Seq<char>)>, name: Seq<char>)
    ensures
        -1 <= last_index(ms, name) < ms.len(),
        last_index(ms, name) >= 0 <==> has_name(ms, name),
        last_index(ms, name) >= 0 ==> ms[last_index(ms, name)].1 == name,
        forall|j: int| last_index(ms, name) < j < ms.len() ==> #[trigger] ms[j].1 != name,
    decreases ms.len(),
{
    if ms.len() > 0 {
        lemma_last_index(ms.drop_last(), name);
        if ms.last().1 != name {
            if has_name(ms, name) {
                let i = choose|i: int| 0 <= i < ms.len() && #[trigger] ms[i].1 == name;
                assert(ms.drop_last()[i].1 == name);
            }
            if has_name(ms.drop_last(), name) {
                let i = choose|i: int| 0 <= i < ms.drop_last().len() && #[trigger] ms.drop_last()[i].1 == name;
                assert(ms[i].1 == name);
            }
            assert forall|j: int| last_index(ms, name) < j < ms.len() implies #[trigger] ms[j].1 != name by {
                if j < ms.len() - 1 {
                    assert(ms.drop_last()[j] == ms[j]);
                }
            }
        } else {
            assert(ms[ms.len() - 1].1 == name);
        }
    }
}

proof fn lemma_contains_push(s: Seq<Seq<char>>, x: Seq<char>, y: Seq<char>)
    ensures
        s.push(x).contains(y) <==> (s.contains(y) || x == y),
{
    if s.contains(y) {
        let i = choose|i: int| 0 <= i < s.len() && s[i] == y;
        assert(s.push(x)[i] == y);
    }
    if x == y {
        assert(s.push(x)[s.len() as int] == y);
    }
    if s.push(x).contains(y) {
        let i = choose|i: int| 0 <= i < s.push(x).len() && s.push(x)[i] == y;
        if i < s.len() {
            assert(s[i] == y);
        }
    }
}

/// The position of the last mapping with the given name.
fn find_last(ms: &Vec<(i64, String)>, name: &String) -> (res: Option<usize>)
    ensures
        match res {
            Some(j) => j as int == last_index(pair_views(ms@), name@),
            None => last_index(pair_views(ms@), name@) == -1,
        },
{
    let ghost pv = pair_views(ms@);
    proof {
        lemma_last_index(pv, name@);
    }
    let mut j: usize = ms.len();
    while j > 0
        invariant
            j <= ms@.len(),
            pv == pair_views(ms@),
            -1 <= last_index(pv, name@) < ms@.len(),
            last_index(pv, name@) >= 0 ==> pv[last_index(pv, name@)].1 == name@,
            forall|k: int| last_index(pv, name@) < k < ms@.len() ==> #[trigger] pv[k].1 != name@,
            last_index(pv, name@) < j,
        decreases j,
    {
        let k = j - 1;
        if ms[k].1 == *name {
            assert(pv[k as int].1 == name@);
            return Some(k);
        }
        assert(pv[k as int].1 != name@);
        j = k;
    }
    None
}

/// The three lists of a consistency check.
struct Differences {
    missing_from_db: Vec<String>,
    missing_from_rust: Vec<String>,
    id_mismatches: Vec<IdMismatch>,
}

/// Compares the variants of a Rust enum, as (id, name) mappings, with the
/// rows found in the database.
fn compare_variants(ms: &Vec<(i64, String)>, rows: &Vec<(i64, String)>) -> (res: Differences)
    ensures
        res.missing_from_db@.map_values(|s: String| s@) == missing_from_db_of(pair_views(ms@), pair_views(rows@)),
        res.missing_from_rust@.map_values(|s: String| s@) == missing_from_rust_of(pair_views(ms@), pair_views(rows@)),
        res.id_mismatches@.map_values(|m: IdMismatch| m@) == mismatches_of(pair_views(ms@), pair_views(rows@)),
{
    let ghost pm = pair_views(ms@);
    let ghost pr = pair_views(rows@);
    let mut matched: Vec<bool> = Vec::new();
    let mut j: usize = 0;
    while j < ms.len()
        invariant
            j <= ms@.len(),
            matched@.len() == j,
            forall|i: int| 0 <= i < j ==> !(#[trigger] matched@[i]),
        decreases ms@.len() - j,
    {
        matched.push(false);
        j = j + 1;
    }
    let mut missing_from_rust: Vec<String> = Vec::new();
    let mut id_mismatches: Vec<IdMismatch> = Vec::new();
    let mut p: usize = 0;
    assert(row_names(pr.take(0)) =~= Seq::<Seq<char>>::empty());
    while p < rows.len()
        invariant
            p <= rows@.len(),
            pm == pair_views(ms@),
            pr == pair_views(rows@),
            matched@.len() == ms@.len(),
            forall|i: int| 0 <= i < ms@.len() ==> (#[trigger] matched@[i] <==> (
                last_index(pm, pm[i].1) == i && row_names(pr.take(p as int)).contains(pm[i].1))),
            missing_from_rust@.map_values(|s: String| s@) == missing_from_rust_of(pm, pr.take(p as int)),
            id_mismatches@.map_values(|m: IdMismatch| m@) == mismatches_of(pm, pr.take(p as int)),
        decreases rows@.len() - p,
    {
        let ghost before = pr.take(p as int);
        let ghost name = pr[p as int].1;
        assert(pr.take(p + 1).drop_last() =~= before);
        assert(pr.take(p + 1).last() == pr[p as int]);
        assert(row_names(pr.take(p + 1)) =~= row_names(before).push(name));
        proof {
            lemma_last_index(pm, name);
        }
        let found = find_last(ms, &rows[p].1);
        let ghost old_matched = matched@;
        let ghost old_rust = missing_from_rust@.map_values(|s: String| s@);
        let ghost old_mis = id_mismatches@.map_values(|m: IdMismatch| m@);
        let mut is_match = false;
        match found {
            Some(k) => {
                if !matched[k] {
                    is_match = true;
                    matched.set(k, true);
                    if rows[p].0 != ms[k].0 {
                        id_mismatches.push(IdMismatch::new(rows[p].1.clone(), rows[p].0, ms[k].0));
                    }
                }
            },
            None => {},
        }
        if !is_match {
            missing_from_rust.push(rows[p].1.clone());
        }
        proof {
            assert(is_match == row_matches(pm, before, name)) by {
                if let Some(k) = found {
                    assert(pm[k as int].1 == name);
                    assert(old_matched[k as int] <==> row_names(before).contains(name));
                }
            }
            assert forall|i: int| 0 <= i < ms@.len() implies (#[trigger] matched@[i] <==> (
                last_index(pm, pm[i].1) == i && row_names(pr.take(p + 1)).contains(pm[i].1))) by {
                assert(old_matched[i] <==> (last_index(pm, pm[i].1) == i && row_names(before).contains(pm[i].1)));
                lemma_contains_push(row_names(before), name, pm[i].1);
                if let Some(k) = found {
                    if i == k {
                        assert(pm[i].1 == name);
                    } else {
                        if pm[i].1 == name && last_index(pm, pm[i].1) == i {
                            assert(false);
                        }
                    }
                } else {
                    if pm[i].1 == name {
                        assert(has_name(pm, name));
                    }
                }
            }
            assert(missing_from_rust@.map_values(|s: String| s@) =~= missing_from_rust_of(pm, pr.take(p + 1)));
            assert(id_mismatches@.map_values(|m: IdMismatch| m@) =~= mismatches_of(pm, pr.take(p + 1)));
        }
        p = p + 1;
    }
    assert(pr.take(rows@.len() as int) =~= pr);
    let mut missing_from_db: Vec<String> = Vec::new();
    let mut i: usize = 0;
    while i < ms.len()
        invariant
            i <= ms@.len(),
            pm == pair_views(ms@),
            pr == pair_views(rows@),
            matched@.len() == ms@.len(),
            forall|q: int| 0 <= q < ms@.len() ==> (#[trigger] matched@[q] <==> (
                last_index(pm, pm[q].1) == q && row_names(pr).contains(pm[q].1))),
            missing_from_db@.map_values(|s: String| s@) == missing_from_db_upto(pm, pr, i as int),
        decreases ms@.len() - i,
    {
        let is_last = match find_last(ms, &ms[i].1) {
            Some(k) => k == i,
            None => false,
        };
        if is_last && !matched[i] {
            missing_from_db.push(ms[i].1.clone());
        }
        assert(missing_from_db@.map_values(|s: String| s@) =~= missing_from_db_upto(pm, pr, i + 1));
        i = i + 1;
    }
    Differences { missing_from_db, missing_from_rust, id_mismatches }
}

/// The error that a check reports, before it is known to be clean.
pub open spec fn check_report(
    rust_enum_name: Seq<char>,
    source: SourceModel,
    ms: Seq<(i64, Seq<char>)>,
    rows: Seq<(i64, Seq<char>)>,
) -> DbEnumErrorModel {
    DbEnumErrorModel {
        rust_enum_name,
        db_source: source,
        missing_from_db: missing_from_db_of(ms, rows),
        missing_from_rust: missing_from_rust_of(ms, rows),
        id_mismatches: mismatches_of(ms, rows),
    }
}

/// The report lists nothing.
pub open spec fn report_clean(e: DbEnumErrorModel) -> bool {
    &&& e.missing_from_db.len() == 0
    &&& e.missing_from_rust.len() == 0
    &&& e.id_mismatches.len() == 0
}

/// Verifies that an enum is mapped correctly to a database table, given the
/// (id, name) mappings of its variants and the (id, name) rows of the table.
///
/// A row whose name no variant has, or whose variant an earlier row already
/// matched, is missing from the Rust enum; a row whose variant has another id
/// is an id mismatch; a variant name that no row has is missing from the
/// database.  When a name is mapped more than once, its last mapping counts.
pub fn check_db_mapping(
    rust_enum_name: &str,
    table_name: &str,
    variant_mappings: &Vec<(i64, String)>,
    db_variants: Vec<(i64, String)>,
) -> (res: Result<(), DbEnumError>)
    ensures
        res is Ok <==> report_clean(
            check_report(rust_enum_name@, SourceModel::Table(table_name@), pair_views(variant_mappings@), pair_views(db_variants@)),
        ),
        res matches Err(e) ==> e@ == check_report(
            rust_enum_name@,
            SourceModel::Table(table_name@),
            pair_views(variant_mappings@),
            pair_views(db_variants@),
        ),
{
    let mut error = DbEnumError::new(rust_enum_name, DbEnumSource::Table(String::from_str(table_name)));
    let diffs = compare_variants(variant_mappings, &db_variants);
    error.missing_from_db = diffs.missing_from_db;
    error.missing_from_rust = diffs.missing_from_rust;
    error.id_mismatches = diffs.id_mismatches;
    if error.is_clean() {
        Ok(())
    } else {
        Err(error)
    }
}

/// Names paired with the id 0, for a mapping that has no ids.
pub open spec fn without_ids(names: Seq<Seq<char>>) -> Seq<(i64, Seq<char>)> {
    names.map_values(|n: Seq<char>| (0i64, n))
}

proof fn lemma_no_mismatch_without_ids(ms: Seq<(i64, Seq<char>)>, rows: Seq<(i64, Seq<char>)>)
    requires
        forall|i: int| 0 <= i < ms.len() ==> (#[trigger] ms[i]).0 == 0,
        forall|i: int| 0 <= i < rows.len() ==> (#[trigger] rows[i]).0 == 0,
    ensures
        mismatches_of(ms, rows).len() == 0,
    decreases rows.len(),
{
    if rows.len() > 0 {
        lemma_no_mismatch_without_ids(ms, rows.drop_last());
        lemma_last_index(ms, rows.last().1);
        assert(rows[rows.len() - 1].0 == 0);
    }
}

fn names_without_ids(names: &Vec<String>) -> (res: Vec<(i64, String)>)
    ensures
        pair_views(res@) == without_ids(names@.map_values(|s: String| s@)),
{
    let mut out: Vec<(i64, String)> = Vec::new();
    let mut i: usize = 0;
    while i < names.len()
        invariant
            i <= names@.len(),
            out@.len() == i,
            forall|j: int| 0 <= j < i ==> (#[trigger] out@[j]).0 == 0 && out@[j].1@ == names@[j]@,
        decreases names@.len() - i,
    {
        out.push((0, names[i].clone()));
        i = i + 1;
    }
    assert(pair_views(out@) =~= without_ids(names@.map_values(|s: String| s@)));
    out
}

/// Verifies that an enum is mapped correctly to a custom enum type of
/// Postgres, given the names of its variants and those of the type.
///
/// A name of the type that no variant has, or that an earlier name of the
/// type already matched, is missing from the Rust enum; a variant name that
/// the type lacks is missing from the database.  There are no ids.
pub fn check_pg_mapping(
    rust_enum_name: &str,
    pg_enum_name: &str,
    variant_mappings: &Vec<String>,
    pg_variants: Vec<String>,
) -> (res: Result<(), DbEnumError>)
    ensures
        res is Ok <==> report_clean(
            check_report(
                rust_enum_name@,
                SourceModel::CustomEnum(pg_enum_name@),
                without_ids(variant_mappings@.map_values(|s: String| s@)),
                without_ids(pg_variants@.map_values(|s: String| s@)),
            ),
        ),
        res matches Err(e) ==> e@ == check_report(
            rust_enum_name@,
            SourceModel::CustomEnum(pg_enum_name@),
            without_ids(variant_mappings@.map_values(|s: String| s@)),
            without_ids(pg_variants@.map_values(|s: String| s@)),
        ),
        res matches Err(e) ==> e@.id_mismatches.len() == 0,
{
    let mut error = DbEnumError::new(rust_enum_name, DbEnumSource::CustomEnum(String::from_str(pg_enum_name)));
    let ms = names_without_ids(variant_mappings);
    let rows = names_without_ids(&pg_variants);
    let diffs = compare_variants(&ms, &rows);
    proof {
        lemma_no_mismatch_without_ids(pair_views(ms@), pair_views(rows@));
    }
    error.missing_from_db = diffs.missing_from_db;
    error.missing_from_rust = diffs.missing_from_rust;
    error.id_mismatches = diffs.id_mismatches;
    if error.is_clean() {
        Ok(())
    } else {
        Err(error)
    }
}

/// The rows and the mappings describe the same enum: each name appears in
/// one row only, every row names a variant and carries that variant's id, and
/// every variant has a row.
pub open spec fn mapping_consistent(ms: Seq<(i64, Seq<char>)>, rows: Seq<(i64, Seq<char>)>) -> bool {
    &&& forall|p: int, q: int| 0 <= p < q < rows.len() ==> (#[trigger] rows[p]).1 != (#[trigger] rows[q]).1
    &&& forall|p: int| 0 <= p < rows.len() ==> has_name(ms, (#[trigger] rows[p]).1)
        && rows[p].0 == mapped_id(ms, rows[p].1)
    &&& forall|j: int| 0 <= j < ms.len() ==> row_names(rows).contains((#[trigger] ms[j]).1)
}

spec fn rows_fit(ms: Seq<(i64, Seq<char>)>, rows: Seq<(i64, Seq<char>)>) -> bool {
    forall|p: int| 0 <= p < rows.len() ==> #[trigger] row_matches(ms, rows.take(p), rows[p].1)
}

spec fn ids_agree(ms: Seq<(i64, Seq<char>)>, rows: Seq<(i64, Seq<char>)>) -> bool {
    forall|p: int| 0 <= p < rows.len() ==> #[trigger] row_matches(ms, rows.take(p), rows[p].1)
        ==> rows[p].0 == mapped_id(ms, rows[p].1)
}

proof fn lemma_take_of_drop_last(rows: Seq<(i64, Seq<char>)>, p: int)
    requires
        0 <= p < rows.len(),
    ensures
        rows.drop_last().take(p) == rows.take(p),
{
    assert(rows.drop_last().take(p) =~= rows.take(p));
}

proof fn lemma_missing_from_rust_empty(ms: Seq<(i64, Seq<char>)>, rows: Seq<(i64, Seq<char>)>)
    ensures
        missing_from_rust_of(ms, rows).len() == 0 <==> rows_fit(ms, rows),
        mismatches_of(ms, rows).len() == 0 <==> ids_agree(ms, rows),
    decreases rows.len(),
{
    if rows.len() > 0 {
        let d = rows.drop_last();
        let n = rows.len() - 1;
        lemma_missing_from_rust_empty(ms, d);
        assert(rows.take(n) =~= d);
        assert forall|p: int| 0 <= p < n implies (#[trigger] row_matches(ms, rows.take(p), rows[p].1)
            == row_matches(ms, d.take(p), d[p].1)) by {
            lemma_take_of_drop_last(rows, p);
        }
        if rows_fit(ms, rows) {
            assert forall|p: int| 0 <= p < d.len() implies #[trigger] row_matches(ms, d.take(p), d[p].1) by {
                assert(row_matches(ms, rows.take(p), rows[p].1));
            }
            assert(row_matches(ms, rows.take(n), rows[n].1));
        }
        if rows_fit(ms, d) && row_matches(ms, d, rows.last().1) {
            assert forall|p: int| 0 <= p < rows.len() implies #[trigger] row_matches(ms, rows.take(p), rows[p].1) by {
                if p < n {
                    assert(row_matches(ms, d.take(p), d[p].1));
                }
            }
        }
        if ids_agree(ms, rows) {
            assert forall|p: int| 0 <= p < d.len() && #[trigger] row_matches(ms, d.take(p), d[p].1) implies d[p].0
                == mapped_id(ms, d[p].1) by {
                assert(row_matches(ms, rows.take(p), rows[p].1));
            }
            assert(row_matches(ms, rows.take(n), rows[n].1) ==> rows[n].0 == mapped_id(ms, rows[n].1));
        }
        if ids_agree(ms, d) && (row_matches(ms, d, rows.last().1) ==> rows.last().0 == mapped_id(ms, rows.last().1)) {
            assert forall|p: int| 0 <= p < rows.len() && #[trigger] row_matches(ms, rows.take(p), rows[p].1)
                implies rows[p].0 == mapped_id(ms, rows[p].1) by {
                if p < n {
                    assert(row_matches(ms, d.take(p), d[p].1));
                }
            }
        }
    }
}

proof fn lemma_missing_from_db_empty(ms: Seq<(i64, Seq<char>)>, rows: Seq<(i64, Seq<char>)>, n: int)
    requires
        0 <= n <= ms.len(),
    ensures
        missing_from_db_upto(ms, rows, n).len() == 0 <==> forall|j: int|
            0 <= j < n && last_index(ms, (#[trigger] ms[j]).1) == j ==> row_names(rows).contains(ms[j].1),
    decreases n,
{
    if n > 0 {
        lemma_missing_from_db_empty(ms, rows, n - 1);
    }
}

/// A check reports nothing exactly when the rows and the mappings describe the
/// same enum: each database name appears once, every database name is a
/// variant with the same id, and every variant is in the database.
pub proof fn lemma_check_clean_iff_consistent(
    rust_enum_name: Seq<char>,
    source: SourceModel,
    ms: Seq<(i64, Seq<char>)>,
    rows: Seq<(i64, Seq<char>)>,
)
    ensures
        report_clean(check_report(rust_enum_name, source, ms, rows)) <==> mapping_consistent(ms, rows),
{
    lemma_missing_from_rust_empty(ms, rows);
    lemma_missing_from_db_empty(ms, rows, ms.len() as int);
    let names = row_names(rows);
    // rows_fit and ids_agree together say the first two parts of consistency.
    assert forall|p: int| 0 <= p < rows.len() implies (row_names(rows.take(p)).contains(rows[p].1) <==> exists|q: int|
        0 <= q < p && #[trigger] rows[q].1 == rows[p].1) by {
        let t = row_names(rows.take(p));
        if t.contains(rows[p].1) {
            let q = choose|q: int| 0 <= q < t.len() && t[q] == rows[p].1;
            assert(rows[q].1 == rows[p].1);
        }
        if exists|q: int| 0 <= q < p && #[trigger] rows[q].1 == rows[p].1 {
            let q = choose|q: int| 0 <= q < p && #[trigger] rows[q].1 == rows[p].1;
            assert(t[q] == rows[p].1);
        }
    }
    if rows_fit(ms, rows) && ids_agree(ms, rows) {
        assert forall|p: int, q: int| 0 <= p < q < rows.len() implies (#[trigger] rows[p]).1 != (#[trigger] rows[q]).1 by {
            assert(row_matches(ms, rows.take(q), rows[q].1));
        }
        assert forall|p: int| 0 <= p < rows.len() implies has_name(ms, (#[trigger] rows[p]).1)
            && rows[p].0 == mapped_id(ms, rows[p].1) by {
            assert(row_matches(ms, rows.take(p), rows[p].1));
        }
    }
    if mapping_consistent(ms, rows) {
        assert forall|p: int| 0 <= p < rows.len() implies #[trigger] row_matches(ms, rows.take(p), rows[p].1) by {
            assert(has_name(ms, rows[p].1));
            if row_names(rows.take(p)).contains(rows[p].1) {
                let q = choose|q: int| 0 <= q < p && #[trigger] rows[q].1 == rows[p].1;
                assert(rows[q].1 != rows[p].1);
            }
        }
    }
    // The last mapping of each name stands for all mappings of that name.
    assert forall|j: int| 0 <= j < ms.len() implies (#[trigger] ms[j]).1 == ms[last_index(ms, ms[j].1)].1
        && 0 <= last_index(ms, ms[j].1) < ms.len()
        && last_index(ms, ms[last_index(ms, ms[j].1)].1) == last_index(ms, ms[j].1) by {
        lemma_last_index(ms, ms[j].1);
    }
    if forall|j: int| 0 <= j < ms.len() && last_index(ms, (#[trigger] ms[j]).1) == j ==> names.contains(ms[j].1) {
        assert forall|j: int| 0 <= j < ms.len() implies names.contains((#[trigger] ms[j]).1) by {
            let k = last_index(ms, ms[j].1);
            assert(last_index(ms, ms[k].1) == k);
        }
    }
}

/// The list items of a report: one line per name.
pub open spec fn bullet_lines(names: Seq<Seq<char>>) -> Seq<char>
    decreases names.len(),
{
    if names.len() == 0 {
        Seq::empty()
    } else {
        bullet_lines(names.drop_last()) + "    \u{2022} "@ + names.last() + "\n"@
    }
}

/// The lines that describe the id mismatches of a report.
pub open spec fn mismatch_lines(ms: Seq<MismatchModel>) -> Seq<char>
    decreases ms.len(),
{
    if ms.len() == 0 {
        Seq::empty()
    } else {
        let m = ms.last();
        mismatch_lines(ms.drop_last()) + "\n  - Wrong id mapping for `"@ + painted('9', '3', m.variant)
            + "`\n"@ + "    Expected: "@ + painted('9', '2', decimal_text(m.expected as int)) + "\n"@
            + "    Found: "@ + painted('9', '1', decimal_text(m.found as int)) + "\n"@
    }
}

/// The text of a report, as it is displayed.
pub open spec fn report_text(e: DbEnumErrorModel) -> Seq<char> {
    "\n \u{274c} The rust enum `"@ + painted('9', '3', e.rust_enum_name) + "` and the database "@
        + source_kind(e.db_source) + " `"@ + painted('9', '6', source_name(e.db_source))
        + "` are out of sync: \n"@
        + (if e.missing_from_db.len() > 0 {
            "\n  - Variants missing from the "@ + painted('9', '6', "database"@) + ":\n"@
                + bullet_lines(e.missing_from_db)
        } else {
            Seq::empty()
        })
        + (if e.missing_from_rust.len() > 0 {
            "\n  - Variants missing from the "@ + painted('9', '3', "rust enum"@) + ":\n"@
                + bullet_lines(e.missing_from_rust)
        } else {
            Seq::empty()
        })
        + mismatch_lines(e.id_mismatches)
}

fn append_bullets(out: &mut String, names: &Vec<String>)
    ensures
        final(out)@ == old(out)@ + bullet_lines(names@.map_values(|s: String| s@)),
{
    let ghost start = out@;
    let ghost views = names@.map_values(|s: String| s@);
    let mut i: usize = 0;
    while i < names.len()
        invariant
            i <= names@.len(),
            views == names@.map_values(|s: String| s@),
            out@ == start + bullet_lines(views.take(i as int)),
        decreases names@.len() - i,
    {
        out.append("    \u{2022} ");
        out.append(names[i].as_str());
        out.append("\n");
        assert(views.take(i + 1).drop_last() =~= views.take(i as int));
        assert(out@ =~= start + bullet_lines(views.take(i + 1)));
        i = i + 1;
    }
    assert(views.take(names@.len() as int) =~= views);
}

fn append_mismatches(out: &mut String, ms: &Vec<IdMismatch>)
    ensures
        final(out)@ == old(out)@ + mismatch_lines(ms@.map_values(|m: IdMismatch| m@)),
{
    let ghost start = out@;
    let ghost views = ms@.map_values(|m: IdMismatch| m@);
    let mut i: usize = 0;
    while i < ms.len()
        invariant
            i <= ms@.len(),
            views == ms@.map_values(|m: IdMismatch| m@),
            out@ == start + mismatch_lines(views.take(i as int)),
        decreases ms@.len() - i,
    {
        let m = &ms[i];
        out.append("\n  - Wrong id mapping for `");
        let v = bright_yellow(m.variant.as_str());
        out.append(v.as_str());
        out.append("`\n");
        out.append("    Expected: ");
        let e = decimal_string(m.expected);
        let e = bright_green(e.as_str());
        out.append(e.as_str());
        out.append("\n");
        out.append("    Found: ");
        let f = decimal_string(m.found);
        let f = bright_red(f.as_str());
        out.append(f.as_str());
        out.append("\n");
        assert(views.take(i + 1).drop_last() =~= views.take(i as int));
        assert(views.take(i + 1).last() == m@);
        assert(out@ =~= start + mismatch_lines(views.take(i + 1)));
        i = i + 1;
    }
    assert(views.take(ms@.len() as int) =~= views);
}

impl DbEnumError {
    /// The text that displays the error, with the names and ids coloured for
    /// a terminal.
    pub fn message(&self) -> (res: String)
        ensures
            res@ == report_text(self@),
    {
        let mut out = String::from_str("\n \u{274c} The rust enum `");
        let n = bright_yellow(self.rust_enum_name.as_str());
        out.append(n.as_str());
        out.append("` and the database ");
        out.append(self.db_source.db_type());
        out.append(" `");
        let src = bright_cyan(self.db_source.name());
        out.append(src.as_str());
        out.append("` are out of sync: \n");
        let ghost head = out@;
        if self.missing_from_db.len() > 0 {
            out.append("\n  - Variants missing from the ");
            let w = bright_cyan("database");
            out.append(w.as_str());
            out.append(":\n");
            append_bullets(&mut out, &self.missing_from_db);
        }
        let ghost with_db = out@;
        assert(with_db =~= head + (if self@.missing_from_db.len() > 0 {
            "\n  - Variants missing from the "@ + painted('9', '6', "database"@) + ":\n"@
                + bullet_lines(self@.missing_from_db)
        } else {
            Seq::<char>::empty()
        }));
        if self.missing_from_rust.len() > 0 {
            out.append("\n  - Variants missing from the ");
            let w = bright_yellow("rust enum");
            out.append(w.as_str());
            out.append(":\n");
            append_bullets(&mut out, &self.missing_from_rust);
        }
        let ghost with_rust = out@;
        assert(with_rust =~= with_db + (if self@.missing_from_rust.len() > 0 {
            "\n  - Variants missing from the "@ + painted('9', '3', "rust enum"@) + ":\n"@
                + bullet_lines(self@.missing_from_rust)
        } else {
            Seq::<char>::empty()
        }));
        append_mismatches(&mut out, &self.id_mismatches);
        assert(out@ =~= report_text(self@));
        out
    }
}

/// The names of the database and of the enum describe the same enum: each
/// database name appears once, every database name is a variant, and every
/// variant is in the database.
pub open spec fn names_consistent(ms: Seq<Seq<char>>, rows: Seq<Seq<char>>) -> bool {
    &&& forall|p: int, q: int| 0 <= p < q < rows.len() ==> #[trigger] rows[p] != #[trigger] rows[q]
    &&& forall|p: int| 0 <= p < rows.len() ==> ms.contains(#[trigger] rows[p])
    &&& forall|j: int| 0 <= j < ms.len() ==> rows.contains(#[trigger] ms[j])
}

/// A check of a Postgres enum reports nothing exactly when its names and the
/// names of the database type describe the same enum.
pub proof fn lemma_pg_check_clean_iff_consistent(
    rust_enum_name: Seq<char>,
    source: SourceModel,
    ms: Seq<Seq<char>>,
    rows: Seq<Seq<char>>,
)
    ensures
        report_clean(check_report(rust_enum_name, source, without_ids(ms), without_ids(rows)))
            <==> names_consistent(ms, rows),
{
    let pm = without_ids(ms);
    let pr = without_ids(rows);
    lemma_check_clean_iff_consistent(rust_enum_name, source, pm, pr);
    assert(row_names(pr) =~= rows);
    assert forall|n: Seq<char>| has_name(pm, n) <==> ms.contains(n) by {
        if has_name(pm, n) {
            let i = choose|i: int| 0 <= i < pm.len() && #[trigger] pm[i].1 == n;
            assert(ms[i] == n);
        }
        if ms.contains(n) {
            let i = choose|i: int| 0 <= i < ms.len() && ms[i] == n;
            assert(pm[i].1 == n);
        }
    }
    assert forall|n: Seq<char>| has_name(pm, n) implies mapped_id(pm, n) == 0 by {
        lemma_last_index(pm, n);
    }
    if names_consistent(ms, rows) {
        assert forall|p: int| 0 <= p < pr.len() implies has_name(pm, (#[trigger] pr[p]).1)
            && pr[p].0 == mapped_id(pm, pr[p].1) by {
            assert(ms.contains(rows[p]));
        }
        assert forall|p: int, q: int| 0 <= p < q < pr.len() implies (#[trigger] pr[p]).1 != (#[trigger] pr[q]).1 by {
            assert(rows[p] != rows[q]);
        }
        assert forall|j: int| 0 <= j < pm.len() implies row_names(pr).contains((#[trigger] pm[j]).1) by {
            assert(rows.contains(ms[j]));
        }
    }
    if mapping_consistent(pm, pr) {
        assert forall|p: int| 0 <= p < rows.len() implies ms.contains(#[trigger] rows[p]) by {
            assert(has_name(pm, pr[p].1));
        }
        assert forall|p: int, q: int| 0 <= p < q < rows.len() implies #[trigger] rows[p] != #[trigger] rows[q] by {
            assert(pr[p].1 != pr[q].1);
        }
        assert forall|j: int| 0 <= j < ms.len() implies rows.contains(#[trigger] ms[j]) by {
            assert(row_names(pr).contains(pm[j].1));
        }
    }
}

} // verus!

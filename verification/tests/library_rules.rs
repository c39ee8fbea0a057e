use diesel_enums::attributes::{
    check_features, EnumKind, IdType, MetaItem, MetaValue, RunnerFeatures, TestRunner, TypePath,
};
use diesel_enums::case_style::CaseStyle;
use diesel_enums::container::{AttrBlock, ContainerAttrs, PgContainerAttrs};
use diesel_enums::errors::AttrError;
use diesel_enums::generate::{db_enum_derive, db_enum_proc_macro, pg_enum_proc_macro, EnumItem};
use diesel_enums::skip_ids::{is_skipped, normalize_skip_ids, SkipIdEntry};
use diesel_enums::variants::{assign_variant_data, process_variants, VariantInput};

fn path(leading_colon: bool, segments: &[&str]) -> TypePath {
    TypePath { leading_colon, segments: segments.iter().map(|s| s.to_string()).collect() }
}

fn item(key: &str, value: MetaValue) -> MetaItem {
    MetaItem { key: key.to_string(), value }
}

fn db(items: Vec<MetaItem>) -> Vec<AttrBlock> {
    vec![AttrBlock::Db(items)]
}

fn plain(names: &[&str]) -> Vec<VariantInput> {
    names.iter().map(|n| VariantInput { ident: n.to_string(), metas: vec![] }).collect()
}

fn skip() -> MetaItem {
    item("skip_test", MetaValue::Flag)
}

#[test]
fn is_skipped_binary_search() {
    let ranges = vec![1..6, 6..7, 7..11, 20..25];
    for id in 1..11 {
        assert!(is_skipped(id, &ranges));
    }
    assert!(!is_skipped(0, &ranges));
    assert!(!is_skipped(11, &ranges));
    assert!(!is_skipped(19, &ranges));
    assert!(is_skipped(24, &ranges));
    assert!(!is_skipped(25, &ranges));
    assert!(!is_skipped(3, &[]));
}

#[test]
fn normalize_merges_and_sorts() {
    let entries = vec![
        SkipIdEntry::Inclusive(7, 10),
        SkipIdEntry::Single(6),
        SkipIdEntry::HalfOpen(1, 6),
        SkipIdEntry::HalfOpen(30, 20),
        SkipIdEntry::Single(15),
    ];
    assert_eq!(normalize_skip_ids(&entries).unwrap(), vec![1..11, 15..16]);
    assert_eq!(normalize_skip_ids(&vec![]).unwrap(), vec![]);
}

#[test]
fn normalize_refuses_largest_id() {
    assert_eq!(normalize_skip_ids(&vec![SkipIdEntry::Single(i32::MAX)]), Err(AttrError::InvalidSkipIds));
    assert_eq!(normalize_skip_ids(&vec![SkipIdEntry::Inclusive(3, i32::MAX)]), Err(AttrError::InvalidSkipIds));
    assert_eq!(normalize_skip_ids(&vec![SkipIdEntry::HalfOpen(3, i32::MAX)]).unwrap(), vec![3..i32::MAX]);
}

#[test]
fn auto_ids_skip_and_keep_explicit() {
    let mut variants = plain(&["A", "B", "C", "D"]);
    variants[1].metas.push(item("id", MetaValue::Int(100)));
    variants[2].metas.push(item("name", MetaValue::Str("custom".to_string())));
    let data = process_variants(&variants, CaseStyle::Snake, &vec![2..4]).unwrap();
    let ids: Vec<i32> = data.iter().map(|d| d.id).collect();
    assert_eq!(ids, vec![1, 100, 4, 5]);
    let names: Vec<&str> = data.iter().map(|d| d.db_name.as_str()).collect();
    assert_eq!(names, vec!["a", "b", "custom", "d"]);
}

#[test]
fn auto_ids_skip_out_of_order_ranges() {
    let variants = plain(&["A", "B"]);
    let data = process_variants(&variants, CaseStyle::Snake, &vec![7..11, 1..6]).unwrap();
    let ids: Vec<i32> = data.iter().map(|d| d.id).collect();
    assert_eq!(ids, vec![6, 11]);
}

#[test]
fn auto_ids_skip_touching_and_empty_ranges() {
    let variants = plain(&["A", "B", "C"]);
    let data = process_variants(&variants, CaseStyle::Snake, &vec![1..6, 6..7, 7..11, 20..20]).unwrap();
    let ids: Vec<i32> = data.iter().map(|d| d.id).collect();
    assert_eq!(ids, vec![11, 12, 13]);
    let overlapping = process_variants(&variants, CaseStyle::Snake, &vec![3..8, 2..5, 9..10]).unwrap();
    let ids: Vec<i32> = overlapping.iter().map(|d| d.id).collect();
    assert_eq!(ids, vec![1, 8, 10]);
}

#[test]
fn last_variant_item_wins() {
    let mut variants = plain(&["Only"]);
    variants[0].metas.push(item("id", MetaValue::Int(3)));
    variants[0].metas.push(item("id", MetaValue::Int(9)));
    variants[0].metas.push(item("name", MetaValue::Str("x".to_string())));
    variants[0].metas.push(item("name", MetaValue::Str("y".to_string())));
    let data = assign_variant_data(&variants, &vec!["only".to_string()], &vec![]).unwrap();
    assert_eq!(data[0].id, 9);
    assert_eq!(data[0].db_name, "y");
}

#[test]
fn variant_attribute_errors() {
    let mut unknown = plain(&["A"]);
    unknown[0].metas.push(item("rename", MetaValue::Str("x".to_string())));
    assert_eq!(process_variants(&unknown, CaseStyle::Snake, &vec![]), Err(AttrError::UnknownAttribute("rename".to_string())));
    let mut wide = plain(&["A"]);
    wide[0].metas.push(item("id", MetaValue::Int(1 << 40)));
    assert_eq!(process_variants(&wide, CaseStyle::Snake, &vec![]), Err(AttrError::InvalidValue("id".to_string())));
    let mut not_text = plain(&["A"]);
    not_text[0].metas.push(item("name", MetaValue::Int(1)));
    assert_eq!(process_variants(&not_text, CaseStyle::Snake, &vec![]), Err(AttrError::InvalidValue("name".to_string())));
}

#[test]
fn auto_id_overflow() {
    let variants = plain(&["A", "B"]);
    let ranges = vec![1..i32::MAX];
    assert_eq!(process_variants(&variants, CaseStyle::Snake, &ranges), Err(AttrError::IdOverflow));
    let one = plain(&["A"]);
    let ranges = vec![1..(i32::MAX - 1)];
    assert_eq!(process_variants(&one, CaseStyle::Snake, &ranges).unwrap()[0].id, i32::MAX - 1);
}

#[test]
fn case_conversions() {
    let variants = plain(&["NotAPokemonType"]);
    let expect = [
        (CaseStyle::Snake, "not_a_pokemon_type"),
        (CaseStyle::UpperSnake, "NOT_A_POKEMON_TYPE"),
        (CaseStyle::Camel, "notAPokemonType"),
        (CaseStyle::Pascal, "NotAPokemonType"),
        (CaseStyle::Lower, "not a pokemon type"),
        (CaseStyle::Upper, "NOT A POKEMON TYPE"),
        (CaseStyle::Kebab, "not-a-pokemon-type"),
    ];
    for (case, name) in expect {
        assert_eq!(process_variants(&variants, case, &vec![]).unwrap()[0].db_name, name);
    }
}

#[test]
fn case_names() {
    assert_eq!(CaseStyle::from_name("kebab-case"), Ok(CaseStyle::Kebab));
    assert_eq!(CaseStyle::from_name("UPPER_SNAKE"), Ok(CaseStyle::UpperSnake));
    assert_eq!(CaseStyle::from_name("Snake"), Err(AttrError::InvalidCase));
}

#[test]
fn id_types() {
    for t in [IdType::I8, IdType::I16, IdType::I32, IdType::I64] {
        assert_eq!(IdType::from_path(&t.diesel_type()), Ok(t));
    }
    assert_eq!(IdType::I16.rust_type(), "i16");
    assert_eq!(IdType::I64.diesel_type(), path(true, &["diesel", "sql_types", "BigInt"]));
    assert_eq!(IdType::from_path(&path(false, &["Text"])), Err(AttrError::UnknownSqlType));
    assert_eq!(IdType::default(), IdType::I32);
}

#[test]
fn default_runners() {
    let sqlite = RunnerFeatures { default_sqlite_runner: true, ..RunnerFeatures::default() };
    assert_eq!(
        TestRunner::default_runner(EnumKind::LookupTable, sqlite),
        Some(TestRunner::Async(path(true, &["diesel_enums", "AsyncSqliteRunner"])))
    );
    assert_eq!(TestRunner::default_runner(EnumKind::PgEnum, sqlite), None);
    let krate = RunnerFeatures { crate_runner: true, ..RunnerFeatures::default() };
    assert_eq!(
        TestRunner::default_runner(EnumKind::PgEnum, krate),
        Some(TestRunner::Sync(path(false, &["crate", "db_test_runner", "DbTestRunner"])))
    );
    assert_eq!(TestRunner::default_runner(EnumKind::LookupTable, RunnerFeatures::default()), None);
    assert!(EnumKind::PgEnum.is_pg_enum());
    assert!(!EnumKind::LookupTable.is_pg_enum());
}

#[test]
fn feature_conflicts() {
    assert_eq!(check_features(RunnerFeatures::default()), Ok(()));
    let two = RunnerFeatures { default_pg_runner: true, async_crate_runner: true, ..RunnerFeatures::default() };
    let err = check_features(two).unwrap_err();
    assert_eq!(
        err,
        AttrError::MultipleDefaultRunners(vec!["default-pg-runner".to_string(), "async-crate-runner".to_string()])
    );
    assert_eq!(
        err.message(),
        "Found more than one feature for the default runner: default-pg-runner, async-crate-runner. Please choose only one"
    );
}

#[test]
fn container_defaults() {
    let attrs = ContainerAttrs::parse("PokemonType", &db(vec![skip()]), true, RunnerFeatures::default()).unwrap();
    assert_eq!(attrs.table_path, path(false, &["crate", "schema", "pokemon_types"]));
    assert_eq!(attrs.table_name, "pokemon_types");
    assert_eq!(attrs.name_column, "name");
    assert_eq!(attrs.id_type, IdType::I32);
    assert!(attrs.skip_ranges.is_empty());
    assert_eq!(attrs.common_attrs.case, CaseStyle::Snake);
    assert!(attrs.common_attrs.skip_test);
    assert_eq!(attrs.common_attrs.test_runner, None);
}

#[test]
fn container_settings() {
    let items = vec![
        item("table", MetaValue::Path(path(false, &["schema", "kinds"]))),
        item("name_column", MetaValue::Path(path(false, &["label"]))),
        item("id_type", MetaValue::Path(path(true, &["diesel", "sql_types", "SmallInt"]))),
        item("sync_runner", MetaValue::Path(path(false, &["Runner"]))),
        item("skip_ids", MetaValue::List(vec![SkipIdEntry::Single(2)])),
    ];
    let attrs = ContainerAttrs::parse("Kind", &db(items), true, RunnerFeatures::default()).unwrap();
    assert_eq!(attrs.table_name, "kinds");
    assert_eq!(attrs.name_column, "label");
    assert_eq!(attrs.id_type, IdType::I16);
    assert_eq!(attrs.skip_ranges, vec![2..3]);
    assert_eq!(attrs.common_attrs.test_runner, Some(TestRunner::Sync(path(false, &["Runner"]))));
}

#[test]
fn diesel_sql_type_only_for_derive() {
    let blocks = vec![
        AttrBlock::Diesel(vec![item("sql_type", MetaValue::Path(path(false, &["diesel", "sql_types", "BigInt"])))]),
        AttrBlock::Db(vec![skip()]),
    ];
    let derived = ContainerAttrs::parse("A", &blocks, true, RunnerFeatures::default()).unwrap();
    assert_eq!(derived.id_type, IdType::I64);
    let macro_attrs = ContainerAttrs::parse("A", &blocks, false, RunnerFeatures::default()).unwrap();
    assert_eq!(macro_attrs.id_type, IdType::I32);
    let first_wins = vec![
        AttrBlock::Db(vec![skip(), item("id_type", MetaValue::Path(path(false, &["TinyInt"])))]),
        AttrBlock::Diesel(vec![item("sql_type", MetaValue::Path(path(false, &["BigInt"])))]),
    ];
    assert_eq!(ContainerAttrs::parse("A", &first_wins, true, RunnerFeatures::default()).unwrap().id_type, IdType::I8);
}

#[test]
fn container_errors() {
    let f = RunnerFeatures::default();
    assert_eq!(ContainerAttrs::parse("A", &db(vec![]), true, f), Err(AttrError::MissingRunner));
    let both = vec![skip(), item("async_runner", MetaValue::Path(path(false, &["R"])))];
    assert_eq!(ContainerAttrs::parse("A", &db(both), true, f), Err(AttrError::SkipTestWithRunner));
    let unknown = vec![skip(), item("tabel", MetaValue::Flag)];
    assert_eq!(ContainerAttrs::parse("A", &db(unknown), true, f), Err(AttrError::UnknownAttribute("tabel".to_string())));
    let bad_case = vec![skip(), item("case", MetaValue::Str("Title".to_string()))];
    assert_eq!(ContainerAttrs::parse("A", &db(bad_case), true, f), Err(AttrError::InvalidCase));
    let bad_type = vec![skip(), item("id_type", MetaValue::Path(path(false, &["Text"])))];
    assert_eq!(ContainerAttrs::parse("A", &db(bad_type), true, f), Err(AttrError::UnknownSqlType));
    let bad_value = vec![item("table_name", MetaValue::Flag)];
    assert_eq!(ContainerAttrs::parse("A", &db(bad_value), true, f), Err(AttrError::InvalidValue("table_name".to_string())));
    let bad_ids = vec![skip(), item("skip_ids", MetaValue::List(vec![SkipIdEntry::Single(i32::MAX)]))];
    assert_eq!(ContainerAttrs::parse("A", &db(bad_ids), true, f), Err(AttrError::InvalidSkipIds));
    let with_default = RunnerFeatures { default_pg_runner: true, ..RunnerFeatures::default() };
    let attrs = ContainerAttrs::parse("A", &db(vec![]), true, with_default).unwrap();
    assert_eq!(attrs.common_attrs.test_runner, Some(TestRunner::Async(path(true, &["diesel_enums", "AsyncPgRunner"]))));
}

#[test]
fn error_messages() {
    assert_eq!(AttrError::SkipTestWithRunner.message(), "Cannot use `skip_test` if a runner is specified");
    assert_eq!(AttrError::UnknownAttribute("x".to_string()).message(), "Unknown attribute");
    assert!(AttrError::MissingRunner.message().starts_with("Missing test runner."));
}

#[test]
fn pg_container_defaults() {
    let attrs = PgContainerAttrs::parse("PokemonTypes", &db(vec![skip()]), true, RunnerFeatures::default()).unwrap();
    assert_eq!(attrs.sql_type_path, path(false, &["crate", "schema", "sql_types", "PokemonTypes"]));
    assert_eq!(attrs.pg_enum_name, "pokemon_types");
    let named = vec![
        skip(),
        item("sql_type", MetaValue::Path(path(false, &["sql_types", "PokemonType"]))),
        item("name", MetaValue::Str("kind".to_string())),
    ];
    let attrs = PgContainerAttrs::parse("PokemonTypes", &db(named), true, RunnerFeatures::default()).unwrap();
    assert_eq!(attrs.pg_enum_name, "kind");
    let unnamed = vec![skip(), item("sql_type", MetaValue::Path(path(false, &["sql_types", "PokemonType"])))];
    let attrs = PgContainerAttrs::parse("X", &db(unnamed), true, RunnerFeatures::default()).unwrap();
    assert_eq!(attrs.pg_enum_name, "pokemon_type");
    let lookup_key = vec![skip(), item("table", MetaValue::Path(path(false, &["t"])))];
    assert_eq!(
        PgContainerAttrs::parse("X", &db(lookup_key), true, RunnerFeatures::default()),
        Err(AttrError::UnknownAttribute("table".to_string()))
    );
}

#[test]
fn derive_plans() {
    let item_ = EnumItem {
        ident: "PokemonType".to_string(),
        attrs: db(vec![item("async_runner", MetaValue::Path(path(false, &["SqliteRunner"])))]),
        variants: plain(&["Grass", "Fire"]),
    };
    let plan = db_enum_derive(&item_, RunnerFeatures::default()).unwrap();
    let test = plan.generated_test.unwrap();
    assert_eq!(test.fn_name, "pokemon_type_db_enum_check");
    assert_eq!(test.check_method, "check_enum");
    assert_eq!(test.runner, TestRunner::Async(path(false, &["SqliteRunner"])));
    assert_eq!(plan.variants.len(), 2);
    assert_eq!(plan.variants[1].db_name, "fire");
    assert_eq!(plan.variants[1].id, 2);
    assert_eq!(db_enum_proc_macro(&item_, RunnerFeatures::default()).unwrap(), path(true, &["diesel", "sql_types", "Integer"]));
    let skipped = EnumItem { attrs: db(vec![skip()]), ..item_.clone() };
    assert!(db_enum_derive(&skipped, RunnerFeatures::default()).unwrap().generated_test.is_none());
    let pg = EnumItem { attrs: db(vec![skip()]), ..item_ };
    assert_eq!(
        pg_enum_proc_macro(&pg, RunnerFeatures::default()).unwrap(),
        path(false, &["crate", "schema", "sql_types", "PokemonType"])
    );
    let conflict = RunnerFeatures { default_sqlite_runner: true, crate_runner: true, ..RunnerFeatures::default() };
    assert!(matches!(db_enum_derive(&pg, conflict), Err(AttrError::MultipleDefaultRunners(_))));
}

#[test]
fn generate_pg_test() {
    let runner = TestRunner::Sync(path(false, &["Runner"]));
    let test = runner.generate_test(EnumKind::PgEnum, "HTTPStatus");
    assert_eq!(test.check_method, "check_pg_enum");
    assert_eq!(test.fn_name, "http_status_db_enum_check");
}

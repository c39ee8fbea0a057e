use diesel_enums::attributes::{MetaItem, MetaValue, RunnerFeatures, TypePath};
use diesel_enums::container::AttrBlock;
use diesel_enums::generate::{db_enum_derive, pg_enum_derive_impl, EnumItem};
use diesel_enums::mapping::{check_db_mapping, check_pg_mapping, DbEnumError};
use diesel_enums::skip_ids::SkipIdEntry;
use diesel_enums::variants::VariantInput;

fn pokemon_types() -> Vec<&'static str> {
    vec![
        "Grass", "Poison", "Fire", "Flying", "Water", "Bug", "Normal", "Electric", "Ground", "Fairy",
        "Fighting", "Psychic", "Rock", "Steel", "Ice", "Ghost", "Dragon", "Dark",
    ]
}

fn path(segments: &[&str]) -> TypePath {
    TypePath { leading_colon: false, segments: segments.iter().map(|s| s.to_string()).collect() }
}

fn item(key: &str, value: MetaValue) -> MetaItem {
    MetaItem { key: key.to_string(), value }
}

fn text(s: &str) -> MetaValue {
    MetaValue::Str(s.to_string())
}

fn plain(names: &[&str]) -> Vec<VariantInput> {
    names.iter().map(|n| VariantInput { ident: n.to_string(), metas: vec![] }).collect()
}

/// The rows of the `types` table: the Pokemon types in PascalCase, numbered from 1.
fn types_rows() -> Vec<(i64, String)> {
    pokemon_types().iter().enumerate().map(|(i, n)| (i as i64 + 1, n.to_string())).collect()
}

/// The variants of the `pokemon_type` enum of Postgres, in snake case.
fn pg_rows() -> Vec<String> {
    pokemon_types().iter().map(|n| n.to_lowercase()).collect()
}

fn check_lookup(enum_ident: &str, attrs: Vec<MetaItem>, variants: Vec<VariantInput>, rows: Vec<(i64, String)>) -> Result<(), DbEnumError> {
    let item = EnumItem { ident: enum_ident.to_string(), attrs: vec![AttrBlock::Db(attrs)], variants };
    let plan = db_enum_derive(&item, RunnerFeatures::default()).unwrap();
    let mappings: Vec<(i64, String)> = plan.variants.iter().map(|v| (v.id as i64, v.db_name.clone())).collect();
    check_db_mapping(&plan.enum_ident, &plan.table_name, &mappings, rows)
}

fn check_pg(enum_ident: &str, attrs: Vec<MetaItem>, variants: Vec<VariantInput>) -> Result<(), DbEnumError> {
    let item = EnumItem { ident: enum_ident.to_string(), attrs: vec![AttrBlock::Db(attrs)], variants };
    let plan = pg_enum_derive_impl(&item, RunnerFeatures::default()).unwrap();
    check_pg_mapping(&plan.enum_ident, &plan.pg_enum_name, &plan.variant_names, pg_rows())
}

fn types_table_attrs(extra: Vec<MetaItem>) -> Vec<MetaItem> {
    let mut attrs = vec![
        item("skip_test", MetaValue::Flag),
        item("table", MetaValue::Path(path(&["types"]))),
        item("case", text("PascalCase")),
    ];
    attrs.extend(extra);
    attrs
}

#[test]
fn sqlite_tests_you_shall_pass() {
    let attrs = vec![
        item("async_runner", MetaValue::Path(path(&["SqliteRunner"]))),
        item("table", MetaValue::Path(path(&["types"]))),
        item("case", text("PascalCase")),
    ];
    check_lookup("PokemonType", attrs, plain(&pokemon_types()), types_rows()).unwrap_or_else(|e| panic!("{}", e.message()));
}

#[test]
fn sqlite_tests_wrong_casing() {
    let attrs = vec![item("table", MetaValue::Path(path(&["types"]))), item("skip_test", MetaValue::Flag)];
    let errors = check_lookup("Types", attrs, plain(&pokemon_types()), types_rows()).unwrap_err();
    assert_eq!(errors.missing_from_db.len(), 18);
    assert_eq!(errors.missing_from_rust.len(), 18);
}

#[test]
fn name_mismatch() {
    let mut variants = plain(&pokemon_types());
    variants[0].metas.push(item("name", text("abc")));
    let errors = check_lookup("Types", types_table_attrs(vec![]), variants, types_rows()).unwrap_err();
    assert_eq!(errors.missing_from_db.len(), 1);
    assert_eq!(errors.missing_from_db.first().unwrap(), "abc");
    assert_eq!(errors.missing_from_rust.len(), 1);
    assert_eq!(errors.missing_from_rust.first().unwrap(), "Grass");
}

#[test]
fn id_mismatch() {
    let mut variants = plain(&pokemon_types());
    variants[0].metas.push(item("id", MetaValue::Int(20)));
    let errors = check_lookup("Types", types_table_attrs(vec![]), variants, types_rows()).unwrap_err();
    let mismatch = errors.id_mismatches.first().unwrap();
    assert_eq!(mismatch.variant(), "Grass");
    assert_eq!(mismatch.expected, 1);
    assert_eq!(mismatch.found, 20);
}

#[test]
fn skipped_ids() {
    let skip = item(
        "skip_ids",
        MetaValue::List(vec![SkipIdEntry::HalfOpen(1, 6), SkipIdEntry::Single(6), SkipIdEntry::Inclusive(7, 10)]),
    );
    let errors = check_lookup("Types", types_table_attrs(vec![skip]), plain(&pokemon_types()), types_rows()).unwrap_err();
    assert_eq!(errors.id_mismatches.len(), 18);
    for (i, mismatch) in errors.id_mismatches.iter().enumerate() {
        assert_eq!(mismatch.expected, (i + 1) as i64);
        assert_eq!(mismatch.found, (i + 11) as i64);
    }
}

#[test]
fn custom_table_name() {
    let attrs = vec![
        item("async_runner", MetaValue::Path(path(&["SqliteRunner"]))),
        item("table", MetaValue::Path(path(&["types"]))),
        item("case", text("PascalCase")),
        item("table_name", text("types")),
    ];
    assert!(check_lookup("PokeTypes", attrs, plain(&pokemon_types()), types_rows()).is_ok());
}

#[test]
fn altered_casing() {
    let lower: Vec<String> = pokemon_types().iter().map(|n| n.to_lowercase()).collect();
    let names: Vec<&str> = lower.iter().map(|s| s.as_str()).collect();
    let attrs = vec![
        item("async_runner", MetaValue::Path(path(&["SqliteRunner"]))),
        item("table", MetaValue::Path(path(&["types"]))),
        item("case", text("PascalCase")),
    ];
    assert!(check_lookup("Types", attrs, plain(&names), types_rows()).is_ok());
}

#[test]
fn wrong_status() {
    let rows = vec![(1, "offline".to_string()), (2, "active".to_string()), (3, "busy".to_string())];
    let attrs = vec![item("skip_test", MetaValue::Flag), item("table", MetaValue::Path(path(&["statuses"])))];
    assert!(check_lookup("WrongStatus", attrs, plain(&["Offline", "Active"]), rows).is_err());
}

#[test]
fn readme_status_passes() {
    let rows = vec![(1, "offline".to_string()), (2, "active".to_string()), (3, "busy".to_string())];
    let attrs = vec![
        item("async_runner", MetaValue::Path(path(&["SqliteRunner"]))),
        item("table", MetaValue::Path(path(&["statuses"]))),
    ];
    assert!(check_lookup("Status", attrs, plain(&["Offline", "Active", "Busy"]), rows).is_ok());
}

fn pg_attrs(extra: Vec<MetaItem>) -> Vec<MetaItem> {
    let mut attrs = vec![item("sql_type", MetaValue::Path(path(&["sql_types", "PokemonType"])))];
    attrs.extend(extra);
    attrs
}

#[test]
fn pg_tests_you_shall_pass() {
    let attrs = pg_attrs(vec![item("async_runner", MetaValue::Path(path(&["PgRunner"])))]);
    check_pg("PokemonTypes", attrs, plain(&pokemon_types())).unwrap()
}

#[test]
fn pg_tests_wrong_casing() {
    let attrs = pg_attrs(vec![item("skip_test", MetaValue::Flag), item("case", text("UPPERCASE"))]);
    let errors = check_pg("PokemonTypes", attrs, plain(&pokemon_types())).unwrap_err();
    assert_eq!(errors.missing_from_db.len(), 18);
    assert_eq!(errors.missing_from_rust.len(), 18);
}

#[test]
fn missing_db_variant() {
    let without_grass: Vec<&str> = pokemon_types().into_iter().skip(1).collect();
    let errors = check_pg("PokemonTypes", pg_attrs(vec![item("skip_test", MetaValue::Flag)]), plain(&without_grass)).unwrap_err();
    let e = errors.missing_from_rust.first().unwrap();
    assert_eq!(e, "grass");
}

#[test]
fn extra_variant() {
    let mut names = vec!["NotAPokemonType"];
    names.extend(pokemon_types());
    let errors = check_pg("PokemonTypes", pg_attrs(vec![item("skip_test", MetaValue::Flag)]), plain(&names)).unwrap_err();
    let e = errors.missing_from_db.first().unwrap();
    assert_eq!(e, "not_a_pokemon_type");
}

#[test]
fn lookup_plan_round_trips() {
    let attrs = vec![
        item("skip_test", MetaValue::Flag),
        item("case", text("PascalCase")),
        item("skip_ids", MetaValue::List(vec![SkipIdEntry::HalfOpen(3, 5)])),
    ];
    let item_ = EnumItem { ident: "PokemonType".to_string(), attrs: vec![AttrBlock::Db(attrs)], variants: plain(&pokemon_types()) };
    let plan = db_enum_derive(&item_, RunnerFeatures::default()).unwrap();
    assert_eq!(plan.variants.len(), 18);
    for (k, v) in plan.variants.iter().enumerate() {
        assert_eq!(v.ident, pokemon_types()[k]);
        assert_eq!(plan.variants.iter().position(|w| w.db_name == v.db_name), Some(k));
        assert_eq!(plan.variants.iter().position(|w| w.id == v.id), Some(k));
    }
    assert_eq!(plan.variants[2].id, 5);
}

#[test]
fn pg_plan_round_trips() {
    let attrs = pg_attrs(vec![item("skip_test", MetaValue::Flag)]);
    let item_ = EnumItem { ident: "PokemonTypes".to_string(), attrs: vec![AttrBlock::Db(attrs)], variants: plain(&pokemon_types()) };
    let plan = pg_enum_derive_impl(&item_, RunnerFeatures::default()).unwrap();
    assert_eq!(plan.variant_names, pg_rows());
    for (k, name) in plan.variant_names.iter().enumerate() {
        assert_eq!(plan.variant_names.iter().position(|w| w == name), Some(k));
    }
}

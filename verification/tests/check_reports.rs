use diesel_enums::mapping::{check_db_mapping, check_pg_mapping, DbEnumError, DbEnumSource, IdMismatch};

fn rows(pairs: &[(i64, &str)]) -> Vec<(i64, String)> {
    pairs.iter().map(|(i, n)| (*i, n.to_string())).collect()
}

#[test]
fn consistent_mapping_is_ok() {
    let m = rows(&[(1, "a"), (2, "b")]);
    assert_eq!(check_db_mapping("E", "t", &m, rows(&[(2, "b"), (1, "a")])), Ok(()));
}

#[test]
fn duplicate_rows_and_names() {
    let m = rows(&[(1, "a"), (5, "a"), (2, "b")]);
    let err = check_db_mapping("E", "t", &m, rows(&[(1, "a"), (1, "a"), (3, "c")])).unwrap_err();
    assert_eq!(err.missing_from_rust, vec!["a".to_string(), "c".to_string()]);
    assert_eq!(err.missing_from_db, vec!["b".to_string()]);
    assert_eq!(err.id_mismatches, vec![IdMismatch::new("a".to_string(), 1, 5)]);
    assert_eq!(err.rust_enum_name(), "E");
    assert_eq!(err.db_source(), &DbEnumSource::Table("t".to_string()));
    assert_eq!(err.missing_from_rust(), &err.missing_from_rust);
    assert_eq!(err.missing_from_db(), &vec!["b".to_string()]);
    let mismatch = &err.id_mismatches()[0];
    assert_eq!((mismatch.variant(), mismatch.expected(), mismatch.found()), ("a", 1, 5));
}

#[test]
fn pg_mapping_has_no_mismatches() {
    let m = vec!["x".to_string(), "y".to_string()];
    let err = check_pg_mapping("E", "kind", &m, vec!["y".to_string(), "z".to_string()]).unwrap_err();
    assert!(err.id_mismatches.is_empty());
    assert_eq!(err.missing_from_db, vec!["x".to_string()]);
    assert_eq!(err.missing_from_rust, vec!["z".to_string()]);
    assert_eq!(err.db_source().db_type(), "enum");
    assert_eq!(err.db_source().name(), "kind");
    assert_eq!(check_pg_mapping("E", "kind", &m, vec!["x".to_string(), "y".to_string()]), Ok(()));
}

#[test]
fn new_error_is_clean() {
    let e = DbEnumError::new("E", DbEnumSource::CustomEnum("k".to_string()));
    assert!(e.is_clean());
    assert_eq!(DbEnumSource::Table("t".to_string()).db_type(), "table");
}

#[test]
fn report_text() {
    let err = check_db_mapping("Kind", "kinds", &rows(&[(1, "a"), (-7, "b")]), rows(&[(1, "c"), (3, "b")])).unwrap_err();
    let expected: String = [
        "\n \u{274c} The rust enum `\x1b[93mKind\x1b[39m` and the database table `\x1b[96mkinds\x1b[39m` are out of sync: \n",
        "\n  - Variants missing from the \x1b[96mdatabase\x1b[39m:\n",
        "    \u{2022} a\n",
        "\n  - Variants missing from the \x1b[93mrust enum\x1b[39m:\n",
        "    \u{2022} c\n",
        "\n  - Wrong id mapping for `\x1b[93mb\x1b[39m`\n",
        "    Expected: \x1b[92m3\x1b[39m\n",
        "    Found: \x1b[91m-7\x1b[39m\n",
    ]
    .concat();
    assert_eq!(err.message(), expected);
}

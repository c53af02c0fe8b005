use distribuito::aggregate::AggregateComponents;
use distribuito::column::{Aggregate, Column};
use distribuito::error::DbError;
use distribuito::query::QueryResult;
use distribuito::storage::{Database, Table, TableDefinition, TableStats};
use distribuito::value::{ColumnType, ColumnValue, FloatArith, JsonValue};

/// Float arithmetic over bit patterns, backed by the hardware.
struct RealFloat;

impl FloatArith for RealFloat {
    fn add_bits(&self, a: u64, b: u64) -> u64 {
        (f64::from_bits(a) + f64::from_bits(b)).to_bits()
    }

    fn div_bits(&self, a: u64, b: u64) -> u64 {
        (f64::from_bits(a) / f64::from_bits(b)).to_bits()
    }

    fn int_to_bits(&self, v: i64) -> u64 {
        (v as f64).to_bits()
    }
}

fn col(name: &str, ty: ColumnType) -> Column {
    Column::new(name.to_string(), ty)
}

fn names(ns: &[&str]) -> Vec<String> {
    ns.iter().map(|s| s.to_string()).collect()
}

fn jint(x: i64) -> JsonValue {
    JsonValue::Int(x)
}

fn jstr(s: &str) -> JsonValue {
    JsonValue::Str(s.to_string())
}

fn people_db() -> Database {
    let mut db = Database::new();
    db.create_table(
        "people".to_string(),
        vec![col("name", ColumnType::String), col("age", ColumnType::Integer)],
    )
    .unwrap();
    db
}

fn rows_of(qr: QueryResult) -> Vec<Vec<ColumnValue>> {
    match qr {
        QueryResult::Rows(rows) => rows.into_iter().map(|r| r.into_values()).collect(),
        QueryResult::AggregatedRows(_) => panic!("expected plain rows"),
    }
}

#[test]
fn round_trip_two_rows() {
    let mut db = people_db();
    db.insert(
        "people",
        names(&["name", "age"]),
        vec![vec![jstr("alice"), jint(30)], vec![jstr("bob"), jint(25)]],
        7,
        &RealFloat,
    )
    .unwrap();
    let qr = db
        .query("people", names(&["name", "age"]), None, &RealFloat)
        .unwrap();
    let rows = rows_of(qr);
    assert_eq!(rows.len(), 2);
    assert!(rows[0][0] == ColumnValue::String("alice".to_string()));
    assert!(rows[0][1] == ColumnValue::Integer(30));
    assert!(rows[1][0] == ColumnValue::String("bob".to_string()));
    assert!(rows[1][1] == ColumnValue::Integer(25));
}

#[test]
fn sparse_column_reads_null() {
    let mut db = Database::new();
    db.create_table(
        "events".to_string(),
        vec![col("a", ColumnType::Integer), col("b", ColumnType::Integer)],
    )
    .unwrap();
    db.insert("events", names(&["a"]), vec![vec![jint(1)], vec![jint(2)]], 1, &RealFloat)
        .unwrap();
    db.insert("events", names(&["b"]), vec![vec![jint(10)]], 2, &RealFloat)
        .unwrap();
    let rows = rows_of(
        db.query("events", names(&["a", "b"]), None, &RealFloat).unwrap(),
    );
    assert_eq!(rows.len(), 3);
    assert!(rows[0][0] == ColumnValue::Integer(1) && rows[0][1] == ColumnValue::Null);
    assert!(rows[1][0] == ColumnValue::Integer(2) && rows[1][1] == ColumnValue::Null);
    assert!(rows[2][0] == ColumnValue::Null && rows[2][1] == ColumnValue::Integer(10));
}

#[test]
fn local_aggregation_count_sum_avg() {
    let mut db = Database::new();
    db.create_table("nums".to_string(), vec![col("x", ColumnType::Integer)])
        .unwrap();
    db.insert(
        "nums",
        names(&["x"]),
        vec![vec![jint(1)], vec![jint(2)], vec![jint(3)], vec![jint(4)]],
        1,
        &RealFloat,
    )
    .unwrap();
    let qr = db
        .query("nums", names(&["count(x)", "sum(x)", "avg(x)"]), None, &RealFloat)
        .unwrap();
    match qr {
        QueryResult::AggregatedRows(ars) => {
            assert_eq!(ars.len(), 1);
            let (values, aggs) = {
                let ar = ars.into_iter().next().unwrap();
                ar.into_values()
            };
            assert_eq!(values.len(), 0);
            assert_eq!(aggs.len(), 3);
            assert!(aggs[0].0 == ColumnValue::Integer(4));
            assert!(aggs[1].0 == ColumnValue::Integer(10));
            assert!(aggs[2].0 == ColumnValue::Integer(2));
            // The recoverable states: count, sum, and avg's sum then count.
            assert!(aggs[0].1 == vec![ColumnValue::Integer(4)]);
            assert!(aggs[1].1 == vec![ColumnValue::Integer(10)]);
            assert!(aggs[2].1 == vec![ColumnValue::Integer(10), ColumnValue::Integer(4)]);
        }
        _ => panic!("expected aggregated rows"),
    }
}

#[test]
fn grouped_aggregation() {
    let mut db = Database::new();
    db.create_table(
        "t".to_string(),
        vec![col("c", ColumnType::String), col("v", ColumnType::Integer)],
    )
    .unwrap();
    db.insert(
        "t",
        names(&["c", "v"]),
        vec![
            vec![jstr("red"), jint(1)],
            vec![jstr("red"), jint(2)],
            vec![jstr("blue"), jint(10)],
        ],
        1,
        &RealFloat,
    )
    .unwrap();
    let qr = db
        .query(
            "t",
            names(&["c", "sum(v)"]),
            Some(names(&["c"])),
            &RealFloat,
        )
        .unwrap();
    match qr {
        QueryResult::AggregatedRows(ars) => {
            assert_eq!(ars.len(), 2);
            let mut seen_red = false;
            let mut seen_blue = false;
            for ar in ars {
                let (values, aggs) = ar.into_values();
                assert_eq!(values.len(), 1);
                assert_eq!(aggs.len(), 1);
                if values[0] == ColumnValue::String("red".to_string()) {
                    assert!(aggs[0].0 == ColumnValue::Integer(3));
                    seen_red = true;
                } else if values[0] == ColumnValue::String("blue".to_string()) {
                    assert!(aggs[0].0 == ColumnValue::Integer(10));
                    seen_blue = true;
                } else {
                    panic!("unexpected group");
                }
            }
            assert!(seen_red && seen_blue);
        }
        _ => panic!("expected aggregated rows"),
    }
}

#[test]
fn type_error_leaves_row_count_unchanged() {
    let mut db = Database::new();
    db.create_table("t".to_string(), vec![col("x", ColumnType::Integer)])
        .unwrap();
    db.insert("t", names(&["x"]), vec![vec![jint(5)]], 1, &RealFloat)
        .unwrap();
    let err = db
        .insert("t", names(&["x"]), vec![vec![jstr("hello")]], 2, &RealFloat)
        .unwrap_err();
    assert!(matches!(err, DbError::TypeMismatch { .. }));
    let rows = rows_of(db.query("t", names(&["x"]), None, &RealFloat).unwrap());
    assert_eq!(rows.len(), 1);
}

#[test]
fn create_twice_keeps_existing_data() {
    let mut db = Database::new();
    let schema = || vec![col("x", ColumnType::Integer)];
    db.create_table("t".to_string(), schema()).unwrap();
    db.insert("t", names(&["x"]), vec![vec![jint(1)]], 1, &RealFloat)
        .unwrap();
    db.create_table("t".to_string(), schema()).unwrap();
    let rows = rows_of(db.query("t", names(&["x"]), None, &RealFloat).unwrap());
    assert_eq!(rows.len(), 1);
    assert!(rows[0][0] == ColumnValue::Integer(1));
}

#[test]
fn long_string_truncated_at_fixed_width() {
    let mut db = Database::new();
    db.create_table("t".to_string(), vec![col("s", ColumnType::String)])
        .unwrap();
    let long = "a".repeat(300);
    db.insert("t", names(&["s"]), vec![vec![jstr(&long)]], 1, &RealFloat)
        .unwrap();
    let rows = rows_of(db.query("t", names(&["s"]), None, &RealFloat).unwrap());
    assert!(rows[0][0] == ColumnValue::String("a".repeat(256)));
}

#[test]
fn short_string_round_trips_trimmed() {
    let mut db = Database::new();
    db.create_table("t".to_string(), vec![col("s", ColumnType::String)])
        .unwrap();
    db.insert("t", names(&["s"]), vec![vec![jstr("alice")]], 1, &RealFloat)
        .unwrap();
    let rows = rows_of(db.query("t", names(&["s"]), None, &RealFloat).unwrap());
    assert!(rows[0][0] == ColumnValue::String("alice".to_string()));
}

#[test]
fn integer_into_float_column_stores_float() {
    let mut db = Database::new();
    db.create_table("t".to_string(), vec![col("f", ColumnType::Float)])
        .unwrap();
    db.insert("t", names(&["f"]), vec![vec![jint(3)]], 1, &RealFloat)
        .unwrap();
    let rows = rows_of(db.query("t", names(&["f"]), None, &RealFloat).unwrap());
    assert!(rows[0][0] == ColumnValue::Float(3.0f64.to_bits()));
}

#[test]
fn float_sum_uses_backend() {
    let mut db = Database::new();
    db.create_table("t".to_string(), vec![col("f", ColumnType::Float)])
        .unwrap();
    db.insert(
        "t",
        names(&["f"]),
        vec![
            vec![JsonValue::Float(1.5f64.to_bits())],
            vec![JsonValue::Float(2.5f64.to_bits())],
        ],
        1,
        &RealFloat,
    )
    .unwrap();
    let qr = db.query("t", names(&["sum(f)"]), None, &RealFloat).unwrap();
    match qr {
        QueryResult::AggregatedRows(ars) => {
            let (_, aggs) = ars.into_iter().next().unwrap().into_values();
            assert!(aggs[0].0 == ColumnValue::Float(4.0f64.to_bits()));
        }
        _ => panic!("expected aggregated rows"),
    }
}

#[test]
fn avg_over_zero_rows_is_null() {
    let comp = AggregateComponents::Avg {
        sum: ColumnValue::Integer(0),
        count: ColumnValue::Integer(0),
    };
    let (value, comps) = comp.compute(&RealFloat);
    assert!(value == ColumnValue::Null);
    assert!(comps == vec![ColumnValue::Integer(0), ColumnValue::Integer(0)]);
}

#[test]
fn unknown_aggregate_name_counts() {
    assert!(matches!(Aggregate::parse("median"), Aggregate::Count));
    assert!(matches!(Aggregate::parse("CoUnT"), Aggregate::Count));
    assert!(matches!(Aggregate::parse("SUM"), Aggregate::Sum));
    assert!(matches!(Aggregate::parse("Avg"), Aggregate::Avg));
}

#[test]
fn unknown_column_and_table_errors() {
    let mut db = people_db();
    let err = db
        .insert("people", names(&["nope"]), vec![vec![jint(1)]], 1, &RealFloat)
        .unwrap_err();
    assert!(matches!(err, DbError::UnknownColumn));
    let err = db
        .insert("absent", names(&["x"]), vec![vec![jint(1)]], 1, &RealFloat)
        .unwrap_err();
    assert!(matches!(err, DbError::UnknownTable));
    let err = match db.query("people", names(&["nope"]), None, &RealFloat) {
        Err(e) => e,
        Ok(_) => panic!("expected an error"),
    };
    assert!(matches!(err, DbError::UnknownColumn));
}

#[test]
fn row_arity_and_unsupported_value_errors() {
    let mut db = people_db();
    let err = db
        .insert("people", names(&["age"]), vec![vec![jint(1), jint(2)]], 1, &RealFloat)
        .unwrap_err();
    assert!(matches!(err, DbError::RowArity));
    let err = db
        .insert("people", names(&["age"]), vec![vec![JsonValue::Null]], 1, &RealFloat)
        .unwrap_err();
    assert!(matches!(err, DbError::UnsupportedValue));
    let err = db
        .insert("people", names(&["age"]), vec![vec![JsonValue::Other]], 1, &RealFloat)
        .unwrap_err();
    assert!(matches!(err, DbError::UnsupportedValue));
}

#[test]
fn duplicate_insert_column_rejected() {
    let mut db = people_db();
    let err = db
        .insert(
            "people",
            names(&["age", "age"]),
            vec![vec![jint(1), jint(2)]],
            1,
            &RealFloat,
        )
        .unwrap_err();
    assert!(matches!(err, DbError::DuplicateColumn));
}

#[test]
fn stats_and_file_sizes_follow_the_layout() {
    let mut db = Database::new();
    db.create_table(
        "t".to_string(),
        vec![col("x", ColumnType::Integer), col("s", ColumnType::String)],
    )
    .unwrap();
    db.insert(
        "t",
        names(&["x", "s"]),
        vec![vec![jint(1), jstr("a")], vec![jint(2), jstr("b")]],
        9,
        &RealFloat,
    )
    .unwrap();
    let i = db.find_table("t").unwrap();
    let table: &Table = &db.tables[i];
    let stats = table.stats_bytes();
    assert_eq!(stats.len(), 16);
    let index = table.index_bytes();
    assert_eq!(index.len(), 32);
    // row_count and next_row_id agree and equal the index entries.
    let parsed = TableStats::from_bytes(&stats);
    assert_eq!(parsed.row_count, 2);
    assert_eq!(parsed.next_index, 2);
    // Each column file is a whole number of fixed-width entries.
    assert_eq!(table.column_file_bytes(0).len(), 2 * (16 + 8));
    assert_eq!(table.column_file_bytes(1).len(), 2 * (16 + 256));
}

#[test]
fn stats_from_short_bytes_reads_zero() {
    let parsed = TableStats::from_bytes(&[]);
    assert_eq!(parsed.row_count, 0);
    assert_eq!(parsed.next_index, 0);
    let parsed = TableStats::from_bytes(&[1, 0, 0, 0, 0, 0, 0, 0]);
    assert_eq!(parsed.row_count, 1);
    assert_eq!(parsed.next_index, 0);
}

#[test]
fn load_round_trips_table_images() {
    let mut db = Database::new();
    db.create_table(
        "t".to_string(),
        vec![col("x", ColumnType::Integer), col("s", ColumnType::String)],
    )
    .unwrap();
    db.insert(
        "t",
        names(&["x", "s"]),
        vec![vec![jint(7), jstr("seven")]],
        3,
        &RealFloat,
    )
    .unwrap();
    let i = db.find_table("t").unwrap();
    let table = &db.tables[i];
    let stats = table.stats_bytes();
    let index = table.index_bytes();
    let cols = vec![table.column_file_bytes(0), table.column_file_bytes(1)];
    let def = TableDefinition::new(
        "t".to_string(),
        vec![col("x", ColumnType::Integer), col("s", ColumnType::String)],
    );
    let loaded = def.load(&stats, &index, &cols).unwrap();
    let qr = loaded
        .query(names(&["x", "s"]), None, &RealFloat)
        .unwrap();
    let rows = rows_of(qr);
    assert_eq!(rows.len(), 1);
    assert!(rows[0][0] == ColumnValue::Integer(7));
    assert!(rows[0][1] == ColumnValue::String("seven".to_string()));
}

#[test]
fn load_rejects_malformed_images() {
    let def = TableDefinition::new("t".to_string(), vec![col("x", ColumnType::Integer)]);
    // An index image that is not a whole number of entries is corrupt.
    let err = match def.load(&[0u8; 16], &[0u8; 7], &vec![Vec::new()]) {
        Err(e) => e,
        Ok(_) => panic!("expected an error"),
    };
    assert!(matches!(err, DbError::Corrupt));
}

#[test]
fn open_reconstructs_columns_from_file_names() {
    let files = vec![
        ".index.dsto".to_string(),
        ".stats.dsto".to_string(),
        "age.integer.dsto".to_string(),
        "name.string.dsto".to_string(),
        "junk.txt".to_string(),
    ];
    let def = TableDefinition::open("people".to_string(), &files);
    assert_eq!(def.columns.len(), 2);
    assert!(def.columns[0] == col("age", ColumnType::Integer));
    assert!(def.columns[1] == col("name", ColumnType::String));
}

#[test]
fn float_into_integer_column_is_a_type_mismatch() {
    let mut db = Database::new();
    db.create_table("t".to_string(), vec![col("x", ColumnType::Integer)])
        .unwrap();
    let err = db
        .insert(
            "t",
            names(&["x"]),
            vec![vec![JsonValue::Float(1.5f64.to_bits())]],
            1,
            &RealFloat,
        )
        .unwrap_err();
    assert!(matches!(err, DbError::TypeMismatch { .. }));
}

#[test]
fn unknown_group_by_column_is_rejected() {
    let mut db = people_db();
    let err = match db.query(
        "people",
        names(&["count(age)"]),
        Some(names(&["nope"])),
        &RealFloat,
    ) {
        Err(e) => e,
        Ok(_) => panic!("expected an error"),
    };
    assert!(matches!(err, DbError::UnknownColumn));
}

#[test]
fn embedded_nul_truncates_the_stored_string() {
    let mut db = Database::new();
    db.create_table("t".to_string(), vec![col("s", ColumnType::String)])
        .unwrap();
    db.insert("t", names(&["s"]), vec![vec![jstr("ab\0cd")]], 1, &RealFloat)
        .unwrap();
    let rows = rows_of(db.query("t", names(&["s"]), None, &RealFloat).unwrap());
    assert!(rows[0][0] == ColumnValue::String("ab".to_string()));
}

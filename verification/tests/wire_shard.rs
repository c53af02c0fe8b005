use distribuito::codec::{decode_value_payload, encode_string_payload, encode_value_payload, until_null_char, FromDisk};
use distribuito::column::{parse_column_file_name, try_parse_queried_column, Aggregate};
use distribuito::config::InstanceRole;
use distribuito::query::QueryResult;
use distribuito::shard::{build_url, next_shard_index};
use distribuito::storage::Database;
use distribuito::value::{ColumnType, ColumnValue, FloatArith, JsonValue};
use distribuito::wire::{serialize_query_result, InsertRequest, QueryResponse};

struct RealFloat;

impl FloatArith for RealFloat {
    fn add_bits(&self, a: u64, b: u64) -> u64 {
        (f64::from_bits(a) + f64::from_bits(b)).to_bits()
    }

    fn div_bits(&self, a: u64, b: u64) -> u64 {
        (f64::from_bits(a) / f64::from_bits(b)).to_bits()
    }

    fn int_to_bits(&self, v: i64) -> u64 {
        (v as f64).to_bits()
    }
}

fn names(ns: &[&str]) -> Vec<String> {
    ns.iter().map(|s| s.to_string()).collect()
}

fn jint(x: i64) -> JsonValue {
    JsonValue::Int(x)
}

#[test]
fn empty_result_serializes_as_empty_variant() {
    let response = serialize_query_result(QueryResult::Rows(Vec::new()));
    match response {
        QueryResponse::Empty { errors } => assert!(errors.is_empty()),
        _ => panic!("expected the empty variant"),
    }
    let response = serialize_query_result(QueryResult::AggregatedRows(Vec::new()));
    assert!(matches!(response, QueryResponse::Empty { .. }));
}

#[test]
fn split_partitions_the_batch() {
    let mut request = InsertRequest {
        insert: names(&["v"]),
        into: "t".to_string(),
        values: (1..=7).map(|x| vec![jint(x)]).collect(),
    };
    let chunks = request.split(3);
    assert_eq!(chunks.len(), 3);
    assert_eq!(chunks[0].values.len(), 3);
    assert_eq!(chunks[1].values.len(), 3);
    assert_eq!(chunks[2].values.len(), 1);
    for chunk in &chunks {
        assert_eq!(chunk.insert, names(&["v"]));
        assert_eq!(chunk.into, "t");
    }
}

#[test]
fn split_of_empty_batch_yields_one_empty_chunk() {
    let mut request = InsertRequest {
        insert: names(&["v"]),
        into: "t".to_string(),
        values: Vec::new(),
    };
    let chunks = request.split(3);
    assert_eq!(chunks.len(), 1);
    assert!(chunks[0].values.is_empty());
}

fn count_sum_avg(db: &Database) -> QueryResult {
    db.query(
        "t",
        names(&["count(v)", "sum(v)", "avg(v)"]),
        None,
        &RealFloat,
    )
    .unwrap()
}

#[test]
fn sharded_merge_is_exact() {
    // One master and two shards, each holding a stripe of the batch.
    let schema = || {
        vec![distribuito::column::Column::new(
            "v".to_string(),
            ColumnType::Integer,
        )]
    };
    let mut master = Database::new();
    let mut shard1 = Database::new();
    let mut shard2 = Database::new();
    master.create_table("t".to_string(), schema()).unwrap();
    shard1.create_table("t".to_string(), schema()).unwrap();
    shard2.create_table("t".to_string(), schema()).unwrap();

    let mut request = InsertRequest {
        insert: names(&["v"]),
        into: "t".to_string(),
        values: vec![
            vec![jint(4)],
            vec![jint(8)],
            vec![jint(15)],
            vec![jint(16)],
            vec![jint(23)],
            vec![jint(42)],
        ],
    };
    let mut chunks = request.split(3);
    let local = chunks.remove(0);
    master
        .insert("t", local.insert, local.values, 1, &RealFloat)
        .unwrap();
    let c1 = chunks.remove(0);
    shard1.insert("t", c1.insert, c1.values, 1, &RealFloat).unwrap();
    let c2 = chunks.remove(0);
    shard2.insert("t", c2.insert, c2.values, 1, &RealFloat).unwrap();

    // Each peer's result crosses the wire and is rehydrated before merging.
    let peer1 = serialize_query_result(count_sum_avg(&shard1))
        .to_query_result()
        .unwrap();
    let peer2 = serialize_query_result(count_sum_avg(&shard2))
        .to_query_result()
        .unwrap();
    let merged = count_sum_avg(&master)
        .merge(peer1, &RealFloat)
        .unwrap()
        .merge(peer2, &RealFloat)
        .unwrap();
    match merged {
        QueryResult::AggregatedRows(ars) => {
            assert_eq!(ars.len(), 1);
            let (_, aggs) = ars.into_iter().next().unwrap().into_values();
            assert!(aggs[0].0 == ColumnValue::Integer(6));
            assert!(aggs[1].0 == ColumnValue::Integer(108));
            assert!(aggs[2].0 == ColumnValue::Integer(18));
        }
        _ => panic!("expected aggregated rows"),
    }
}

#[test]
fn merging_different_variants_fails() {
    let rows = QueryResult::Rows(Vec::new());
    let aggs = QueryResult::AggregatedRows(Vec::new());
    let err = match rows.merge(aggs, &RealFloat) {
        Err(e) => e,
        Ok(_) => panic!("expected an error"),
    };
    assert!(matches!(err, distribuito::error::DbError::MergeVariantMismatch));
}

#[test]
fn round_robin_counter_wraps() {
    assert_eq!(next_shard_index(0, 3), 1);
    assert_eq!(next_shard_index(1, 3), 2);
    assert_eq!(next_shard_index(2, 3), 0);
    assert_eq!(next_shard_index(0, 1), 0);
}

#[test]
fn url_of_a_shard_operation() {
    assert_eq!(build_url("127.0.0.1:8080", "insert"), "http://127.0.0.1:8080/insert");
}

#[test]
fn column_file_names_parse_strictly() {
    assert_eq!(
        parse_column_file_name("age.integer.dsto"),
        Some(("age".to_string(), ColumnType::Integer))
    );
    assert_eq!(
        parse_column_file_name("a_1.float.dsto"),
        Some(("a_1".to_string(), ColumnType::Float))
    );
    assert_eq!(parse_column_file_name(".index.dsto"), None);
    assert_eq!(parse_column_file_name("x.integer"), None);
    assert_eq!(parse_column_file_name("x.integer.dsto.bak"), None);
    assert_eq!(parse_column_file_name("x.null.dsto"), None);
    assert_eq!(parse_column_file_name("x y.integer.dsto"), None);
    assert_eq!(parse_column_file_name("x.bogus.dsto"), None);
}

#[test]
fn select_tokens_parse_as_aggregates_or_names() {
    let (agg, name) = try_parse_queried_column("count(x)");
    assert!(matches!(agg, Some(Aggregate::Count)));
    assert_eq!(name, "x");
    let (agg, name) = try_parse_queried_column(" sum ( y ) ");
    assert!(matches!(agg, Some(Aggregate::Sum)));
    assert_eq!(name, "y");
    let (agg, name) = try_parse_queried_column("plain");
    assert!(agg.is_none());
    assert_eq!(name, "plain");
    let (agg, name) = try_parse_queried_column("(x)");
    assert!(agg.is_none());
    assert_eq!(name, "(x)");
}

#[test]
fn payload_codec_round_trips() {
    let payload = encode_string_payload("ab");
    assert_eq!(payload.len(), 256);
    assert_eq!(&payload[0..2], b"ab");
    assert!(payload[2..].iter().all(|&b| b == 0));
    let decoded = decode_value_payload(ColumnType::String, &payload).unwrap();
    assert!(decoded == ColumnValue::String("ab".to_string()));

    let v = ColumnValue::Integer(-5);
    let bytes = encode_value_payload(&v);
    assert_eq!(bytes.len(), 8);
    let back = decode_value_payload(ColumnType::Integer, &bytes).unwrap();
    assert!(back == ColumnValue::Integer(-5));

    let v = ColumnValue::Float(2.75f64.to_bits());
    let bytes = encode_value_payload(&v);
    let back = decode_value_payload(ColumnType::Float, &bytes).unwrap();
    assert!(back == ColumnValue::Float(2.75f64.to_bits()));
}

#[test]
fn value_arithmetic_follows_the_promotion_table() {
    let a = ColumnValue::Integer(2).add(ColumnValue::Integer(3), &RealFloat);
    assert!(a == ColumnValue::Integer(5));
    let a = ColumnValue::Integer(2).add(ColumnValue::Float(0.5f64.to_bits()), &RealFloat);
    assert!(a == ColumnValue::Float(2.5f64.to_bits()));
    let a = ColumnValue::String("x".to_string()).add(ColumnValue::Integer(1), &RealFloat);
    assert!(a == ColumnValue::Null);
    let d = ColumnValue::Integer(7).div(ColumnValue::Integer(2), &RealFloat);
    assert!(d == ColumnValue::Integer(3));
    let d = ColumnValue::Integer(7).div(ColumnValue::Integer(0), &RealFloat);
    assert!(d == ColumnValue::Null);
    let d = ColumnValue::Float(1.0f64.to_bits()).div(ColumnValue::Integer(2), &RealFloat);
    assert!(d == ColumnValue::Float(0.5f64.to_bits()));
}

#[test]
fn instance_roles_parse_and_name() {
    assert!(matches!(InstanceRole::parse("master"), Some(InstanceRole::Master)));
    assert!(matches!(InstanceRole::parse("slave"), Some(InstanceRole::Slave)));
    assert!(InstanceRole::parse("other").is_none());
    assert_eq!(InstanceRole::Master.name(), "master");
    assert_eq!(InstanceRole::Slave.name(), "slave");
}

#[test]
fn nul_trimming_takes_the_prefix() {
    assert_eq!(until_null_char(&[104, 105, 0, 7, 9]), vec![104, 105]);
    assert_eq!(until_null_char(&[0, 1, 2]), Vec::<u8>::new());
    assert_eq!(until_null_char(&[1, 2, 3]), vec![1, 2, 3]);
}

#[test]
fn from_disk_decodes_raw_column_data() {
    let v = ColumnValue::from_disk(ColumnType::Integer, 9i64.to_le_bytes().to_vec());
    assert!(v == ColumnValue::Integer(9));
    let mut data = b"hey".to_vec();
    data.resize(256, 0);
    let v = ColumnValue::from_disk(ColumnType::String, data);
    assert!(v == ColumnValue::String("hey".to_string()));
}

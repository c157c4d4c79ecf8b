use prisma_core_challenge::query_engine::{ParseError, Query};
use prisma_core_challenge::record::Record;
use std::collections::HashMap;

fn record(pairs: &[(&str, &str)]) -> Record {
    Record {
        columns: pairs
            .iter()
            .map(|(c, v)| (c.to_string(), v.to_string()))
            .collect(),
    }
}

fn load_test_data() -> Vec<Record> {
    vec![
        record(&[("col1", "1"), ("col2", "A"), ("col3", "3")]),
        record(&[("col1", "2"), ("col2", "B"), ("col3", "6")]),
        record(&[("col1", "3"), ("col2", "C"), ("col3", "9")]),
        record(&[("col1", "4"), ("col2", "D"), ("col3", "2")]),
    ]
}

fn record_to_hashmap(record: &Record) -> HashMap<String, String> {
    record.columns.iter().cloned().collect()
}

fn run_query(records: &[Record], query_str: &str) -> Vec<Record> {
    Query::new(records).query(query_str).unwrap().run()
}

#[test]
fn test_query_filter_gt() {
    let records = load_test_data();

    let query_str = "PROJECT col1, col2 FILTER col3 > 5";
    let result = run_query(&records, query_str);

    assert_eq!(result.len(), 2);

    let record0_map = record_to_hashmap(&result[0]);
    assert_eq!(record0_map.get("col1"), Some(&"2".to_string()));
    assert_eq!(record0_map.get("col2"), Some(&"B".to_string()));

    let record1_map = record_to_hashmap(&result[1]);
    assert_eq!(record1_map.get("col1"), Some(&"3".to_string()));
    assert_eq!(record1_map.get("col2"), Some(&"C".to_string()));
}

#[test]
fn test_query_filter_lt() {
    let records = load_test_data();

    let query_str = "PROJECT col1, col2 FILTER col3 < 5";
    let result = run_query(&records, query_str);

    assert_eq!(result.len(), 2);

    let record0_map = record_to_hashmap(&result[0]);
    assert_eq!(record0_map.get("col1"), Some(&"1".to_string()));
    assert_eq!(record0_map.get("col2"), Some(&"A".to_string()));

    let record1_map = record_to_hashmap(&result[1]);
    assert_eq!(record1_map.get("col1"), Some(&"4".to_string()));
    assert_eq!(record1_map.get("col2"), Some(&"D".to_string()));
}

#[test]
fn test_query_filter_equal() {
    let records = load_test_data();

    let query_str = "PROJECT col1 FILTER col3 = 6";
    let result = run_query(&records, query_str);

    assert_eq!(result.len(), 1);

    let record_map = record_to_hashmap(&result[0]);
    assert_eq!(record_map.get("col1"), Some(&"2".to_string()));
}

#[test]
fn test_query_filter_string_comparisson() {
    let records = load_test_data();

    let query_str = "PROJECT col1, col2 FILTER col2 = A";
    let result = run_query(&records, query_str);

    assert_eq!(result.len(), 1);

    let record_map = record_to_hashmap(&result[0]);
    assert_eq!(record_map.get("col1"), Some(&"1".to_string()));
    assert_eq!(record_map.get("col2"), Some(&"A".to_string()));
}

#[test]
fn results_keep_input_column_order() {
    let records = load_test_data();
    let result = run_query(&records, "PROJECT col2, col1 FILTER col3 > 5");
    let names: Vec<&str> = result[0].columns.iter().map(|(c, _)| c.as_str()).collect();
    assert_eq!(names, vec!["col1", "col2"]);
}

#[test]
fn unsupported_operator_matches_nothing() {
    let records = load_test_data();
    let result = run_query(&records, "PROJECT col1, col2 FILTER col3 >= 5");
    assert!(result.is_empty());
    assert!(!Query::compare("6", "5", ">="));
}

#[test]
fn unknown_projection_gives_empty_records() {
    let records = load_test_data();
    let result = run_query(&records, "PROJECT colX FILTER col3 > 5");
    assert_eq!(result.len(), 2);
    assert!(result.iter().all(|r| r.columns.is_empty()));
}

#[test]
fn no_filter_returns_every_record_projected() {
    let records = load_test_data();
    let result = run_query(&records, "PROJECT col2");
    assert_eq!(result.len(), 4);
    let values: Vec<&str> = result.iter().map(|r| r.columns[0].1.as_str()).collect();
    assert_eq!(values, vec!["A", "B", "C", "D"]);
    assert!(result.iter().all(|r| r.columns.len() == 1));
}

#[test]
fn empty_projection_keeps_no_column() {
    let records = load_test_data();
    let result = run_query(&records, "FILTER col3 = 9");
    assert_eq!(result.len(), 1);
    assert!(result[0].columns.is_empty());
}

#[test]
fn projection_twice_is_projection_once() {
    let records = load_test_data();
    let query = Query::new(&records).query("PROJECT col3, col1").unwrap();
    let once = query.project_columns(&records[1]);
    let twice = query.project_columns(&once);
    assert_eq!(once.columns, twice.columns);
    assert_eq!(
        once.columns,
        vec![
            ("col1".to_string(), "2".to_string()),
            ("col3".to_string(), "6".to_string())
        ]
    );
}

#[test]
fn numbers_compare_as_integers() {
    assert!(Query::compare("10", "9", ">"));
    assert!(!Query::compare("9", "10", ">"));
    assert!(Query::compare("-3", "2", "<"));
    assert!(Query::compare("+7", "7", "="));
    assert!(Query::compare("007", "7", "="));
}

#[test]
fn text_compares_lexicographically() {
    assert!(!Query::compare("10", "9x", ">"));
    assert!(Query::compare("b", "a", ">"));
    assert!(Query::compare("abc", "abd", "<"));
    assert!(Query::compare("ab", "abc", "<"));
    assert!(!Query::compare("A", "a", ">"));
}

#[test]
fn text_equality_is_exact() {
    assert!(Query::compare("A", "A", "="));
    assert!(!Query::compare("A", "a", "="));
    assert!(!Query::compare("7", "7 ", "="));
    assert!(!Query::compare("x1", "x01", "="));
}

#[test]
fn out_of_range_integers_compare_as_text() {
    // 2147483648 does not fit in 32 bits, so both sides are compared as text.
    assert!(!Query::compare("2147483648", "3", ">"));
    assert!(Query::compare("2147483647", "3", ">"));
    assert!(Query::compare("-2147483648", "0", "<"));
}

#[test]
fn record_without_filter_column_is_excluded() {
    let mut records = load_test_data();
    records.insert(1, record(&[("col1", "9"), ("col2", "Z")]));
    for op in [">", "<", "=", "!"] {
        let q = format!("PROJECT col1 FILTER col3 {} 0", op);
        let result = run_query(&records, &q);
        assert!(result.iter().all(|r| r.columns[0].1 != "9"));
    }
    let result = run_query(&records, "PROJECT col1 FILTER col3 > 0");
    assert_eq!(result.len(), 4);
}

#[test]
fn first_column_of_a_name_decides() {
    let records = vec![record(&[("k", "1"), ("k", "5")])];
    assert_eq!(run_query(&records, "PROJECT k FILTER k = 1").len(), 1);
    assert_eq!(run_query(&records, "PROJECT k FILTER k = 5").len(), 0);
}

#[test]
fn filter_without_three_words_is_an_error() {
    let records = load_test_data();
    for q in ["PROJECT col1 FILTER col3 >", "FILTER", "PROJECT col1 FILTER col3", "FILTER a b"] {
        match Query::new(&records).query(q) {
            Err(e) => assert_eq!(e, ParseError::MalformedFilterClause),
            Ok(_) => panic!("expected an error for {}", q),
        }
    }
}

#[test]
fn lower_case_keywords_and_extra_words() {
    let records = load_test_data();
    let result = run_query(&records, "select project col1 filter col3 > 5 trailing");
    assert_eq!(result.len(), 2);
    assert_eq!(result[0].columns, vec![("col1".to_string(), "2".to_string())]);
    assert_eq!(run_query(&records, "Project col1 FILTER col3 > 5")[0].columns.len(), 0);
}

#[test]
fn bare_comma_names_an_empty_column() {
    let records = vec![record(&[("", "e"), ("a", "1")])];
    let result = run_query(&records, "PROJECT a ,");
    assert_eq!(
        result[0].columns,
        vec![("".to_string(), "e".to_string()), ("a".to_string(), "1".to_string())]
    );
}

#[test]
fn any_white_space_separates_words() {
    let records = load_test_data();
    let result = run_query(&records, "\tPROJECT\ncol1,\u{3000}col2 \u{a0}FILTER  col3\r\n=\t6 ");
    assert_eq!(
        result[0].columns,
        vec![("col1".to_string(), "2".to_string()), ("col2".to_string(), "B".to_string())]
    );
    assert_eq!(result.len(), 1);
}

#[test]
fn later_filter_replaces_earlier_one() {
    let records = load_test_data();
    let result = run_query(&records, "FILTER col3 > 5 PROJECT col1 FILTER col3 < 3");
    assert_eq!(result.len(), 1);
    assert_eq!(result[0].columns[0].1, "4");
}

#[test]
fn projections_accumulate_over_queries() {
    let records = load_test_data();
    let result = Query::new(&records)
        .query("PROJECT col1")
        .unwrap()
        .query("PROJECT col3 FILTER col2 = D")
        .unwrap()
        .run();
    assert_eq!(
        result[0].columns,
        vec![("col1".to_string(), "4".to_string()), ("col3".to_string(), "2".to_string())]
    );
}

#[test]
fn empty_input_gives_empty_result() {
    let records: Vec<Record> = Vec::new();
    assert!(run_query(&records, "PROJECT col1").is_empty());
    let all = run_query(&load_test_data(), "");
    assert_eq!(all.len(), 4);
    assert!(all.iter().all(|r| r.columns.is_empty()));
}

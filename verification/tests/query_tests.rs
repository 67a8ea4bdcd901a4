use doclayer::compare::value_eq;
use doclayer::error::DocumentStoreError;
use doclayer::evaluator::DocumentEvaluator;
use doclayer::page::Page;
use doclayer::page::PaginationParams;
use doclayer::query::Filter;
use doclayer::query::Query;
use doclayer::query::SortDirection;
use doclayer::sanitizer::ValueSanitizer;
use doclayer::store::InMemoryStore;
use doclayer::value::Value;

fn record(field: &str, v: Value) -> Value {
    Value::Object(vec![(field.to_string(), v)])
}

fn text(s: &str) -> Value {
    Value::Text(s.to_string())
}

fn field_number(doc: &Value, field: &str) -> i64 {
    match doc {
        Value::Object(fields) => {
            for (k, v) in fields {
                if k == field {
                    match v {
                        Value::Number(n) => return *n,
                        _ => panic!("field is not a number"),
                    }
                }
            }
            panic!("field is missing")
        },
        _ => panic!("not a record"),
    }
}

#[test]
fn pagination_selects_the_second_decade() {
    let mut store = InMemoryStore::new();
    let docs: Vec<(u128, Value)> = (1..=100u128)
        .map(|i| (i, record("v", Value::Number(i as i64))))
        .collect();
    store.insert_documents(docs, "nums").unwrap();
    let query = Query::builder()
        .sort("v", SortDirection::Asc)
        .offset(10)
        .limit(10)
        .build();
    let out = store.query_documents(&query, "nums").unwrap();
    let values: Vec<i64> = out.iter().map(|d| field_number(d, "v")).collect();
    assert_eq!(values, (11..=20).collect::<Vec<i64>>());
}

#[test]
fn descending_sort_reverses_the_comparison() {
    let mut store = InMemoryStore::new();
    let docs: Vec<(u128, Value)> = (1..=4u128)
        .map(|i| (i, record("v", Value::Number(i as i64))))
        .collect();
    store.insert_documents(docs, "nums").unwrap();
    let query = Query::builder().sort("v", SortDirection::Desc).build();
    let out = store.query_documents(&query, "nums").unwrap();
    let values: Vec<i64> = out.iter().map(|d| field_number(d, "v")).collect();
    assert_eq!(values, vec![4, 3, 2, 1]);
}

#[test]
fn records_missing_the_sort_field_sort_as_null() {
    let mut store = InMemoryStore::new();
    store
        .insert_documents(
            vec![
                (1, record("v", Value::Number(5))),
                (2, record("w", Value::Number(9))),
                (3, record("v", Value::Number(2))),
            ],
            "c",
        )
        .unwrap();
    let query = Query::builder().sort("v", SortDirection::Asc).build();
    let out = store.query_documents(&query, "c").unwrap();
    // the record without the field sorts under the null key, which is
    // incomparable with the numbers: the stable insertion never moves a
    // record across one it cannot compare with, so the stored order stays
    assert_eq!(out.len(), 3);
    assert_eq!(field_number(&out[0], "v"), 5);
    assert_eq!(field_number(&out[1], "w"), 9);
    assert_eq!(field_number(&out[2], "v"), 2);
}

#[test]
fn any_of_is_symmetric_between_field_and_query() {
    let with_tags = record(
        "tags",
        Value::Array(vec![text("b"), text("c")]),
    );
    let query_tags = Value::Array(vec![text("a"), text("b")]);
    let expr = Filter::any_of("tags", query_tags.clone());
    assert_eq!(
        DocumentEvaluator::new(&with_tags).evaluate(&expr).unwrap(),
        true
    );
    let other = record("tags", Value::Array(vec![text("x")]));
    assert_eq!(
        DocumentEvaluator::new(&other).evaluate(&expr).unwrap(),
        false
    );
    // a scalar field intersects when the query array holds it
    let scalar = record("tags", text("b"));
    assert_eq!(
        DocumentEvaluator::new(&scalar).evaluate(&expr).unwrap(),
        true
    );
}

#[test]
fn none_of_negates_any_of() {
    let with_tags = record("tags", Value::Array(vec![text("b")]));
    let expr = Filter::none_of("tags", Value::Array(vec![text("a"), text("b")]));
    assert_eq!(
        DocumentEvaluator::new(&with_tags).evaluate(&expr).unwrap(),
        false
    );
    let other = record("tags", Value::Array(vec![text("x")]));
    assert_eq!(
        DocumentEvaluator::new(&other).evaluate(&expr).unwrap(),
        true
    );
}

#[test]
fn exists_tests_presence_not_nullness() {
    let with_null_age = record("age", Value::Null);
    let exists = Filter::field_exists("age");
    let not_exists = Filter::field_not_exists("age");
    assert_eq!(
        DocumentEvaluator::new(&with_null_age).evaluate(&exists).unwrap(),
        true
    );
    assert_eq!(
        DocumentEvaluator::new(&with_null_age).evaluate(&not_exists).unwrap(),
        false
    );
    let without = record("name", text("a"));
    assert_eq!(
        DocumentEvaluator::new(&without).evaluate(&exists).unwrap(),
        false
    );
}

#[test]
fn comparisons_follow_the_partial_order() {
    let rec = record("v", Value::Number(10));
    let gt = |bound: i64| Filter::gt("v", Value::Number(bound));
    assert_eq!(DocumentEvaluator::new(&rec).evaluate(&gt(5)).unwrap(), true);
    assert_eq!(DocumentEvaluator::new(&rec).evaluate(&gt(10)).unwrap(), false);
    let gte = Filter::gte("v", Value::Number(10));
    assert_eq!(DocumentEvaluator::new(&rec).evaluate(&gte).unwrap(), true);
    let lt = Filter::lt("v", Value::Number(11));
    assert_eq!(DocumentEvaluator::new(&rec).evaluate(&lt).unwrap(), true);
    // a number never orders against a string
    let cross = Filter::gt("v", text("5"));
    assert_eq!(DocumentEvaluator::new(&rec).evaluate(&cross).unwrap(), false);
    let cross_lt = Filter::lt("v", text("5"));
    assert_eq!(
        DocumentEvaluator::new(&rec).evaluate(&cross_lt).unwrap(),
        false
    );
}

#[test]
fn equality_is_structural_and_variant_wise() {
    let rec = record("v", Value::Number(3));
    let eq = Filter::eq("v", Value::Number(3));
    let ne_cross = Filter::ne("v", text("3"));
    assert_eq!(DocumentEvaluator::new(&rec).evaluate(&eq).unwrap(), true);
    assert_eq!(DocumentEvaluator::new(&rec).evaluate(&ne_cross).unwrap(), true);
    let nested_a = record(
        "m",
        Value::Object(vec![
            ("x".to_string(), Value::Number(1)),
            ("y".to_string(), Value::Number(2)),
        ]),
    );
    // object equality ignores entry order
    let flipped = Value::Object(vec![
        ("y".to_string(), Value::Number(2)),
        ("x".to_string(), Value::Number(1)),
    ]);
    let eq_obj = Filter::eq("m", flipped);
    assert_eq!(DocumentEvaluator::new(&nested_a).evaluate(&eq_obj).unwrap(), true);
}

#[test]
fn string_operators_are_case_sensitive_and_exact() {
    let rec = record("s", text("hello world"));
    let contains = Filter::contains("s", text("lo wo"));
    let not_there = Filter::contains("s", text("LO"));
    let starts = Filter::starts_with("s", text("hell"));
    let ends = Filter::ends_with("s", text("orld"));
    let ev = |e| DocumentEvaluator::new(&rec).evaluate(e).unwrap();
    assert_eq!(ev(&contains), true);
    assert_eq!(ev(&not_there), false);
    assert_eq!(ev(&starts), true);
    assert_eq!(ev(&ends), true);
}

#[test]
fn not_contains_holds_for_missing_fields() {
    let rec = record("other", text("x"));
    let expr = Filter::not_contains("s", text("a"));
    assert_eq!(DocumentEvaluator::new(&rec).evaluate(&expr).unwrap(), true);
    let contains = Filter::contains("s", text("a"));
    assert_eq!(DocumentEvaluator::new(&rec).evaluate(&contains).unwrap(), false);
}

#[test]
fn empty_and_matches_empty_or_does_not() {
    let rec = record("v", Value::Number(1));
    let and = Filter::and(vec![]);
    let or = Filter::or(vec![]);
    assert_eq!(DocumentEvaluator::new(&rec).evaluate(&and).unwrap(), true);
    assert_eq!(DocumentEvaluator::new(&rec).evaluate(&or).unwrap(), false);
    let both = Filter::eq("v", Value::Number(1))
        .and(Filter::gt("v", Value::Number(0)))
        .not();
    assert_eq!(DocumentEvaluator::new(&rec).evaluate(&both).unwrap(), false);
}

#[test]
fn malformed_records_are_reported_not_skipped() {
    let mut store = InMemoryStore::new();
    store
        .insert_documents(vec![(1, Value::Number(3))], "c")
        .unwrap();
    let query = Query::builder().filter(Filter::eq("v", Value::Number(3))).build();
    let err = store.query_documents(&query, "c").unwrap_err();
    assert!(matches!(err, DocumentStoreError::InvalidDocument(_)));
    let bad = Value::Array(vec![]);
    let err = DocumentEvaluator::new(&bad)
        .evaluate(&Filter::eq("v", Value::Number(3)))
        .unwrap_err();
    assert!(matches!(err, DocumentStoreError::InvalidDocument(_)));
}

#[test]
fn filtering_keeps_input_order() {
    let docs = vec![
        record("v", Value::Number(1)),
        record("v", Value::Number(8)),
        record("v", Value::Number(3)),
        record("v", Value::Number(9)),
    ];
    let expr = Filter::gt("v", Value::Number(2));
    let out = DocumentEvaluator::filter_documents(&docs, &expr).unwrap();
    let values: Vec<i64> = out.iter().map(|d| field_number(d, "v")).collect();
    assert_eq!(values, vec![8, 3, 9]);
}

#[test]
fn paginate_selects_page_and_neighbours() {
    let items: Vec<i64> = (1..=100).collect();
    let params = PaginationParams::new(2, 10);
    assert_eq!(params.offset(), 10);
    let page = params.paginate(items);
    assert_eq!(page.items, (11..=20).collect::<Vec<i64>>());
    assert_eq!(page.count, 100);
    assert_eq!(page.next_page, Some(3));
    assert_eq!(page.previous_page, Some(1));
}

#[test]
fn paginate_past_the_end_is_empty() {
    let items: Vec<i64> = (1..=5).collect();
    let page = PaginationParams::new(3, 10).paginate(items);
    assert_eq!(page.items.len(), 0);
    assert_eq!(page.count, 0);
    assert_eq!(page.next_page, None);
    assert_eq!(page.previous_page, None);
}

#[test]
fn pagination_builders_fall_back_to_defaults() {
    let params = PaginationParams::builder().with_per_page(25).build();
    assert_eq!(params.page, 1);
    assert_eq!(params.per_page, 25);
    let page: Page<i64> = Page::builder(vec![1, 2])
        .with_count(7)
        .with_next_page(Some(2))
        .with_previous_page(None)
        .build();
    assert_eq!(page.items, vec![1, 2]);
    assert_eq!(page.count, 7);
    assert_eq!(page.next_page, Some(2));
    assert_eq!(page.previous_page, None);
}

#[test]
fn sanitizer_escapes_and_restores_strings() {
    let sanitized = ValueSanitizer::sanitize_string("a.b$c");
    assert_eq!(sanitized, "a__dot__b__dollar__c");
    assert_eq!(ValueSanitizer::restore_string(&sanitized), "a.b$c");
    assert_eq!(ValueSanitizer::sanitize_string("plain"), "plain");
}

#[test]
fn sanitizer_walks_keys_and_nested_values() {
    let doc = Value::Object(vec![(
        "a.b".to_string(),
        Value::Array(vec![text("x$y")]),
    )]);
    let sanitized = ValueSanitizer::sanitize_value(&doc);
    let expected = Value::Object(vec![(
        "a__dot__b".to_string(),
        Value::Array(vec![text("x__dollar__y")]),
    )]);
    assert!(value_eq(&sanitized, &expected));
    let restored = ValueSanitizer::restore_value(&sanitized);
    assert!(value_eq(&restored, &doc));
}

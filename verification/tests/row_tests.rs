use std::rc::Rc;

use cratedb::json::Json;
use cratedb::row::{Row, ColumnIndex, ByIndex, ByColumnName};

fn get_row() -> Row {
    let entries = vec![
        ("str".to_owned(), 0usize),
        ("uint".to_owned(), 1usize),
        ("float".to_owned(), 2usize),
        ("bool".to_owned(), 3usize),
        ("sint".to_owned(), 4usize),
        ("array".to_owned(), 5usize),
        ("array_of_arrays".to_owned(), 6usize),
    ];
    let headers = ColumnIndex { entries };

    let v = vec![
        Json::Str("hello".to_string()),
        Json::Num("1234".to_string()),
        Json::Num("3.141528".to_string()),
        Json::Bool(true),
        Json::Num("-1234".to_string()),
        Json::Arr(vec![
            Json::Num("1".to_string()),
            Json::Num("2".to_string()),
            Json::Num("3".to_string()),
            Json::Num("4".to_string()),
        ]),
        Json::Arr(vec![
            Json::Arr(vec![Json::Num("1".to_string()), Json::Num("1".to_string())]),
            Json::Arr(vec![Json::Num("2".to_string()), Json::Num("2".to_string())]),
        ]),
    ];

    Row::new(v, Rc::new(headers))
}

fn num_array(values: &[&str]) -> Vec<Json> {
    values.iter().map(|v| Json::Num(v.to_string())).collect()
}

#[test]
fn by_column_name() {
    let row = get_row();
    assert_eq!(
        ByColumnName::as_string(&row, &"str".to_owned()),
        Some("hello".to_owned())
    );
    assert_eq!(ByColumnName::as_u64(&row, &"uint".to_owned()), Some(1234u64));
    assert_eq!(
        ByColumnName::num_lexeme(&row, &"float".to_owned())
            .unwrap()
            .parse::<f64>()
            .unwrap(),
        3.141528
    );
    assert_eq!(ByColumnName::as_bool(&row, &"bool".to_owned()), Some(true));
    assert_eq!(ByColumnName::as_i64(&row, &"sint".to_owned()), Some(-1234i64));
    assert_eq!(
        ByColumnName::as_array(&row, &"array".to_owned()),
        Some(num_array(&["1", "2", "3", "4"]))
    );
    assert_eq!(
        ByColumnName::as_array(&row, &"array_of_arrays".to_owned()),
        Some(vec![
            Json::Arr(num_array(&["1", "1"])),
            Json::Arr(num_array(&["2", "2"])),
        ])
    );
}

#[test]
fn by_index() {
    let row = get_row();
    assert_eq!(ByIndex::as_string(&row, 0), Some("hello".to_owned()));
    assert_eq!(ByIndex::as_u64(&row, 1), Some(1234u64));
    assert_eq!(
        ByIndex::num_lexeme(&row, 2).unwrap().parse::<f64>().unwrap(),
        3.141528
    );
    assert_eq!(ByIndex::as_bool(&row, 3), Some(true));
    assert_eq!(ByIndex::as_i64(&row, 4), Some(-1234i64));
    assert_eq!(ByIndex::as_array(&row, 5), Some(num_array(&["1", "2", "3", "4"])));
    assert_eq!(
        ByIndex::as_array(&row, 6),
        Some(vec![
            Json::Arr(num_array(&["1", "1"])),
            Json::Arr(num_array(&["2", "2"])),
        ])
    );
}

#[test]
fn type_mismatch_gives_none() {
    let row = get_row();
    // a value of another type reads as None, never as a failure
    assert_eq!(ByIndex::as_string(&row, 1), None);
    assert_eq!(ByIndex::as_bool(&row, 0), None);
    assert_eq!(ByIndex::as_i64(&row, 0), None);
    assert_eq!(ByIndex::as_u64(&row, 4), None);
    assert_eq!(ByIndex::as_array(&row, 0), None);
    // a fractional number is no integer
    assert_eq!(ByIndex::as_i64(&row, 2), None);
}

#[test]
fn absent_column_gives_none() {
    let row = get_row();
    assert_eq!(ByColumnName::as_string(&row, &"missing".to_owned()), None);
    assert_eq!(ByColumnName::as_i64(&row, &"missing".to_owned()), None);
}

#[test]
fn by_name_matches_by_index() {
    let row = get_row();
    assert_eq!(
        ByColumnName::as_string(&row, &"str".to_owned()),
        ByIndex::as_string(&row, 0)
    );
    assert_eq!(
        ByColumnName::as_u64(&row, &"uint".to_owned()),
        ByIndex::as_u64(&row, 1)
    );
}

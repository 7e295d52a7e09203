use std::rc::Rc;

use colstore::aggregator::Aggregator;
use colstore::columns::{Batch, Column};
use colstore::expression::{Expr, FuncType};
use colstore::query_engine::{LimitClause, Query, QueryStats};
use colstore::value::ValueType;

fn s(x: &str) -> ValueType {
    ValueType::Str(x.to_string())
}

fn sample_batch() -> Batch {
    Batch {
        cols: vec![
            Column::new("url", vec![s("/"), s("/x"), s("/")]),
            Column::new(
                "loadtime",
                vec![ValueType::Integer(500), ValueType::Integer(1500), ValueType::Integer(900)],
            ),
            Column::new(
                "timestamp",
                vec![ValueType::Timestamp(2000), ValueType::Timestamp(2000), ValueType::Timestamp(500)],
            ),
        ],
    }
}

fn batch_of(urls: &[&str], loads: &[i64]) -> Batch {
    Batch {
        cols: vec![
            Column::new("url", urls.iter().map(|u| s(u)).collect()),
            Column::new("loadtime", loads.iter().map(|l| ValueType::Integer(*l)).collect()),
        ],
    }
}

fn names(v: &[String]) -> Vec<&str> {
    v.iter().map(|x| x.as_str()).collect()
}

#[test]
fn select_with_conjunction_filter() {
    let q = Query {
        select: vec![Expr::col("url")],
        filter: Expr::func(
            FuncType::And,
            Expr::func(FuncType::LT, Expr::col("loadtime"), Expr::Const(ValueType::Integer(1000))),
            Expr::func(FuncType::GT, Expr::col("timestamp"), Expr::Const(ValueType::Timestamp(1000))),
        ),
        aggregate: vec![],
        limit: None,
    };
    let r = q.run(&sample_batch());
    assert_eq!(r.rows, vec![vec![s("/")]]);
    assert_eq!(r.stats.rows_scanned, 3);
    assert_eq!(names(&r.colnames), vec!["url"]);
}

#[test]
fn equality_on_string_column() {
    let q = Query {
        select: vec![Expr::col("timestamp"), Expr::col("loadtime")],
        filter: Expr::func(FuncType::Equals, Expr::col("url"), Expr::Const(s("/"))),
        aggregate: vec![],
        limit: None,
    };
    let r = q.run(&sample_batch());
    assert_eq!(
        r.rows,
        vec![
            vec![ValueType::Timestamp(2000), ValueType::Integer(500)],
            vec![ValueType::Timestamp(500), ValueType::Integer(900)],
        ]
    );
    assert_eq!(names(&r.colnames), vec!["timestamp", "loadtime"]);
}

#[test]
fn count_aggregate() {
    let q = Query {
        select: vec![Expr::col("url")],
        filter: Expr::Const(ValueType::Bool(true)),
        aggregate: vec![(Aggregator::Count, Expr::Const(ValueType::Integer(0)))],
        limit: None,
    };
    let r = q.run(&sample_batch());
    assert_eq!(
        r.rows,
        vec![vec![s("/"), ValueType::Integer(2)], vec![s("/x"), ValueType::Integer(1)]]
    );
    assert_eq!(names(&r.colnames), vec!["url", "count_0"]);
    assert_eq!(r.stats.rows_scanned, 3);
}

#[test]
fn sum_aggregate() {
    let q = Query {
        select: vec![Expr::col("url")],
        filter: Expr::Const(ValueType::Bool(true)),
        aggregate: vec![(Aggregator::Sum, Expr::col("loadtime"))],
        limit: None,
    };
    let r = q.run(&sample_batch());
    assert_eq!(
        r.rows,
        vec![vec![s("/"), ValueType::Integer(1400)], vec![s("/x"), ValueType::Integer(1500)]]
    );
    assert_eq!(names(&r.colnames), vec!["url", "sum_0"]);
}

#[test]
fn sum_over_missing_column() {
    let q = Query {
        select: vec![],
        filter: Expr::Const(ValueType::Bool(true)),
        aggregate: vec![(Aggregator::Sum, Expr::col("doesntexist"))],
        limit: None,
    };
    let r = q.run(&sample_batch());
    assert!(r.rows.is_empty());
    assert_eq!(names(&r.colnames), vec!["sum_0"]);
    assert_eq!(r.stats.rows_scanned, 0);
}

#[test]
fn batch_composition_of_select() {
    let q = Query {
        select: vec![Expr::col("url")],
        filter: Expr::Const(ValueType::Bool(true)),
        aggregate: vec![],
        limit: None,
    };
    let batches = vec![batch_of(&["/a", "/b"], &[1, 2]), batch_of(&["/c", "/d", "/e"], &[3, 4, 5])];
    let r = q.run_batches(&batches);
    assert_eq!(r.rows.len(), 5);
    assert_eq!(r.rows[4], vec![s("/e")]);
    assert_eq!(r.stats.rows_scanned, 5);
    let a = q.run(&batches[0]);
    let b = q.run(&batches[1]);
    assert_eq!(a.stats.rows_scanned + b.stats.rows_scanned, r.stats.rows_scanned);
}

#[test]
fn batch_composition_merges_groups() {
    let q = Query {
        select: vec![Expr::col("url")],
        filter: Expr::Const(ValueType::Bool(true)),
        aggregate: vec![
            (Aggregator::Count, Expr::Const(ValueType::Integer(0))),
            (Aggregator::Sum, Expr::col("loadtime")),
        ],
        limit: None,
    };
    let batches = vec![batch_of(&["/", "/x"], &[10, 20]), batch_of(&["/", "/y", "/"], &[1, 2, 3])];
    let r = q.run_batches(&batches);
    assert_eq!(
        r.rows,
        vec![
            vec![s("/"), ValueType::Integer(3), ValueType::Integer(14)],
            vec![s("/x"), ValueType::Integer(1), ValueType::Integer(20)],
            vec![s("/y"), ValueType::Integer(1), ValueType::Integer(2)],
        ]
    );
    assert_eq!(names(&r.colnames), vec!["url", "count_0", "sum_1"]);
}

#[test]
fn result_column_naming() {
    let q = Query {
        select: vec![
            Expr::col("url"),
            Expr::func(FuncType::Add, Expr::col("loadtime"), Expr::Const(ValueType::Integer(1))),
            Expr::Const(ValueType::Integer(7)),
        ],
        filter: Expr::Const(ValueType::Bool(true)),
        aggregate: vec![
            (Aggregator::Sum, Expr::col("loadtime")),
            (Aggregator::Count, Expr::Const(ValueType::Null)),
        ],
        limit: None,
    };
    assert_eq!(
        names(&q.result_column_names()),
        vec!["url", "col_0", "col_1", "sum_0", "count_1"]
    );
}

#[test]
fn rows_scanned_ignores_filter() {
    for keep in [true, false] {
        let q = Query {
            select: vec![Expr::col("url")],
            filter: Expr::Const(ValueType::Bool(keep)),
            aggregate: vec![],
            limit: None,
        };
        let r = q.run(&sample_batch());
        assert_eq!(r.stats.rows_scanned, 3);
        assert_eq!(r.rows.len(), if keep { 3 } else { 0 });
    }
}

#[test]
fn non_bool_filter_skips_rows() {
    let q = Query {
        select: vec![Expr::col("url")],
        filter: Expr::Const(ValueType::Integer(1)),
        aggregate: vec![],
        limit: None,
    };
    let r = q.run(&sample_batch());
    assert!(r.rows.is_empty());
    assert_eq!(r.stats.rows_scanned, 3);
}

#[test]
fn uneven_columns_truncate() {
    let b = Batch {
        cols: vec![
            Column::new("a", vec![ValueType::Integer(1), ValueType::Integer(2), ValueType::Integer(3)]),
            Column::new("b", vec![ValueType::Integer(4)]),
        ],
    };
    let q = Query {
        select: vec![Expr::col("a"), Expr::col("b")],
        filter: Expr::Const(ValueType::Bool(true)),
        aggregate: vec![],
        limit: None,
    };
    let r = q.run(&b);
    assert_eq!(r.rows, vec![vec![ValueType::Integer(1), ValueType::Integer(4)]]);
    assert_eq!(r.stats.rows_scanned, 1);
}

#[test]
fn limit_clause_truncates() {
    let q = Query {
        select: vec![Expr::col("loadtime")],
        filter: Expr::Const(ValueType::Bool(true)),
        aggregate: vec![],
        limit: Some(LimitClause { limit: 1, offset: 1 }),
    };
    let r = q.run(&sample_batch());
    assert_eq!(r.rows, vec![vec![ValueType::Integer(1500)]]);
    assert_eq!(r.stats.rows_scanned, 3);
}

#[test]
fn arithmetic_and_mismatched_variants() {
    let b = sample_batch();
    let q = Query {
        select: vec![
            Expr::func(FuncType::Subtract, Expr::col("timestamp"), Expr::Const(ValueType::Integer(5))),
            Expr::func(FuncType::Add, Expr::col("url"), Expr::Const(ValueType::Integer(5))),
            Expr::func(FuncType::Negate, Expr::col("loadtime"), Expr::Const(ValueType::Null)),
            Expr::func(FuncType::LT, Expr::col("url"), Expr::Const(ValueType::Integer(5))),
            Expr::func(FuncType::Or, Expr::Const(ValueType::Bool(false)), Expr::Const(ValueType::Bool(true))),
            Expr::func(FuncType::LT, Expr::col("url"), Expr::Const(s("/a"))),
        ],
        filter: Expr::Const(ValueType::Bool(true)),
        aggregate: vec![],
        limit: None,
    };
    let r = q.run(&b);
    assert_eq!(
        r.rows[0],
        vec![
            ValueType::Timestamp(1995),
            ValueType::Null,
            ValueType::Integer(-500),
            ValueType::Bool(false),
            ValueType::Bool(true),
            ValueType::Bool(true),
        ]
    );
    assert_eq!(r.rows[1][5], ValueType::Bool(false));
}

#[test]
fn string_sets_compare_by_content() {
    let a = ValueType::StrSet(Rc::new(vec!["a".to_string(), "b".to_string()]));
    let b = ValueType::StrSet(Rc::new(vec!["a".to_string(), "b".to_string()]));
    let c = ValueType::StrSet(Rc::new(vec!["a".to_string()]));
    assert_eq!(a, b);
    assert_ne!(a, c);
    assert_ne!(ValueType::Integer(1), ValueType::Timestamp(1));
}

#[test]
fn stats_add() {
    let a = QueryStats { runtime_ns: 10, rows_scanned: 3 };
    let b = QueryStats { runtime_ns: 5, rows_scanned: 4 };
    let c = a.add(b);
    assert_eq!(c.runtime_ns, 15);
    assert_eq!(c.rows_scanned, 7);
    let z = QueryStats { runtime_ns: 0, rows_scanned: 0 };
    assert_eq!(a.add(z), a);
}

#[test]
fn aggregator_reduce() {
    assert_eq!(Aggregator::Count.reduce(&ValueType::Integer(4), &s("x")), ValueType::Integer(5));
    assert_eq!(Aggregator::Sum.reduce(&ValueType::Integer(4), &ValueType::Integer(6)), ValueType::Integer(10));
    assert_eq!(Aggregator::Sum.reduce(&ValueType::Integer(4), &s("x")), ValueType::Integer(4));
    assert_eq!(Aggregator::Sum.zero(), ValueType::Integer(0));
}

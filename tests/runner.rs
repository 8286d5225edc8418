use batch_query::batch::run_blocking;
use batch_query::outcome::{ConfigError, QueryOutcome};
use batch_query::runner::BatchQueryRunner;
use std::cell::Cell;

fn keys(names: &[&str]) -> Vec<String> {
    names.iter().map(|s| s.to_string()).collect()
}

fn fetch(key: String) -> Result<String, String> {
    if key == "b" {
        Err(format!("no item for {}", key))
    } else {
        Ok(format!("item-{}", key))
    }
}

fn describe(o: &QueryOutcome<String, String>) -> String {
    match o {
        QueryOutcome::Success { key, item } => format!("S({},{})", key, item),
        QueryOutcome::Failure { key, error } => format!("F({},{})", key, error),
        QueryOutcome::Cancelled { key } => format!("C({})", key),
    }
}

fn describe_all(v: &[QueryOutcome<String, String>]) -> Vec<String> {
    v.iter().map(describe).collect()
}

#[test]
fn failure_for_one_key_stays_in_its_slot() {
    let r = run_blocking(keys(&["a", "b", "c"]), fetch, 2).unwrap();
    assert_eq!(
        describe_all(&r),
        vec!["S(a,item-a)", "F(b,no item for b)", "S(c,item-c)"]
    );
    assert!(r[0].is_success());
    assert!(r[1].is_failure());
    assert!(r[2].is_success());
}

#[test]
fn empty_batch_gives_empty_result() {
    let r = run_blocking(Vec::new(), fetch, 3).unwrap();
    assert!(r.is_empty());
}

#[test]
fn zero_bound_is_refused_before_any_call() {
    let calls = Cell::new(0u32);
    let r = run_blocking(
        keys(&["a"]),
        |k: String| {
            calls.set(calls.get() + 1);
            fetch(k)
        },
        0,
    );
    assert_eq!(r.unwrap_err(), ConfigError { max_concurrency: 0 });
    assert_eq!(calls.get(), 0);
}

#[test]
fn negative_bound_is_refused() {
    let r = run_blocking(keys(&["a", "b"]), fetch, -4);
    assert_eq!(r.unwrap_err(), ConfigError { max_concurrency: -4 });
    assert!(BatchQueryRunner::<String, String>::new(keys(&["a"]), -1).is_err());
}

#[test]
fn executor_runs_once_per_key_with_duplicates() {
    let calls = Cell::new(0u32);
    let r = run_blocking(
        keys(&["x", "x", "y"]),
        |k: String| {
            calls.set(calls.get() + 1);
            fetch(k)
        },
        1,
    )
    .unwrap();
    assert_eq!(calls.get(), 3);
    assert_eq!(describe_all(&r), vec!["S(x,item-x)", "S(x,item-x)", "S(y,item-y)"]);
}

#[test]
fn result_length_matches_keys() {
    let ks: Vec<String> = (0..50).map(|i| format!("k{}", i)).collect();
    let r = run_blocking(ks.clone(), fetch, 7).unwrap();
    assert_eq!(r.len(), ks.len());
    for (o, k) in r.iter().zip(ks.iter()) {
        assert_eq!(o.key(), k);
    }
}

#[test]
fn out_of_order_completion_keeps_input_order() {
    let mut r = BatchQueryRunner::<String, String>::new(keys(&["a", "b", "c", "d"]), 4).unwrap();
    let mut launched = Vec::new();
    while let Some(i) = r.try_launch() {
        launched.push(i);
    }
    assert_eq!(launched, vec![0, 1, 2, 3]);
    for &i in [3usize, 1, 0, 2].iter() {
        assert!(r.is_running(i));
        let key = r.key(i).clone();
        r.complete(i, fetch(key));
        assert!(!r.is_running(i));
    }
    assert!(r.is_done());
    assert_eq!(
        describe_all(&r.finish()),
        vec!["S(a,item-a)", "F(b,no item for b)", "S(c,item-c)", "S(d,item-d)"]
    );
}

#[test]
fn bound_of_one_keeps_one_query_in_flight() {
    let mut r = BatchQueryRunner::<String, String>::new(keys(&["a", "b", "c"]), 1).unwrap();
    assert_eq!(r.try_launch(), Some(0));
    assert_eq!(r.in_flight(), 1);
    assert_eq!(r.try_launch(), None);
    assert!(!r.is_running(1));
    r.complete(0, Ok("one".to_string()));
    assert_eq!(r.in_flight(), 0);
    assert_eq!(r.try_launch(), Some(1));
    assert_eq!(r.try_launch(), None);
    r.complete(1, Err("down".to_string()));
    assert_eq!(r.try_launch(), Some(2));
    assert!(!r.is_done());
    r.complete(2, Ok("three".to_string()));
    assert_eq!(r.try_launch(), None);
    assert!(r.is_done());
    assert_eq!(
        describe_all(&r.finish()),
        vec!["S(a,one)", "F(b,down)", "S(c,three)"]
    );
}

#[test]
fn bound_of_two_launches_two_at_once() {
    let mut r = BatchQueryRunner::<u32, u32>::new(keys(&["a", "b", "c"]), 2).unwrap();
    assert_eq!(r.try_launch(), Some(0));
    assert_eq!(r.try_launch(), Some(1));
    assert_eq!(r.try_launch(), None);
    assert_eq!(r.in_flight(), 2);
    r.complete(1, Ok(7));
    assert_eq!(r.try_launch(), Some(2));
    assert_eq!(r.len(), 3);
}

#[test]
fn cancel_before_start_reports_every_key_cancelled() {
    let mut r = BatchQueryRunner::<String, String>::new(keys(&["a", "b", "c"]), 2).unwrap();
    r.cancel();
    assert_eq!(r.try_launch(), None);
    assert!(r.is_done());
    let out = r.finish();
    assert_eq!(describe_all(&out), vec!["C(a)", "C(b)", "C(c)"]);
    assert!(out.iter().all(|o| o.is_cancelled()));
}

#[test]
fn cancel_mid_run_lets_in_flight_finish() {
    let mut r = BatchQueryRunner::<String, String>::new(keys(&["a", "b", "c", "d"]), 2).unwrap();
    assert_eq!(r.try_launch(), Some(0));
    assert_eq!(r.try_launch(), Some(1));
    r.cancel();
    assert!(!r.is_done());
    r.complete(0, Ok("first".to_string()));
    assert_eq!(r.try_launch(), None);
    r.complete(1, Err("late".to_string()));
    assert!(r.is_done());
    assert_eq!(
        describe_all(&r.finish()),
        vec!["S(a,first)", "F(b,late)", "C(c)", "C(d)"]
    );
}

#[test]
fn unfinished_key_is_reported_cancelled() {
    let mut r = BatchQueryRunner::<String, String>::new(keys(&["a", "b"]), 2).unwrap();
    assert_eq!(r.try_launch(), Some(0));
    r.cancel();
    assert_eq!(describe_all(&r.finish()), vec!["C(a)", "C(b)"]);
}

#[test]
fn outcome_from_result_and_key() {
    let s: QueryOutcome<u8, u8> = QueryOutcome::from_result("k".to_string(), Ok(1));
    let f: QueryOutcome<u8, u8> = QueryOutcome::from_result("m".to_string(), Err(2));
    assert!(s.is_success() && !s.is_failure() && !s.is_cancelled());
    assert!(f.is_failure() && !f.is_success());
    assert_eq!(s.key(), "k");
    assert_eq!(f.key(), "m");
    assert!(matches!(f, QueryOutcome::Failure { error: 2, .. }));
}

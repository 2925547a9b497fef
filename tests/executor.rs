use lazyplan::error::PlanError;
use lazyplan::executor::{
    comma_delimited, copy_frame, slice_offsets, Column, DataFrame, ExecutionState, Executor, SortExec,
};
use lazyplan::plan::SortArguments;
use lazyplan::sort::sort_order;

fn frame(cols: Vec<(&str, Vec<Option<i64>>)>) -> DataFrame {
    DataFrame {
        columns: cols
            .into_iter()
            .map(|(n, v)| Column { name: n.to_string(), values: v })
            .collect(),
    }
}

fn sort_exec(df: DataFrame, by: &[&str], descending: Vec<bool>, nulls_last: bool, slice: Option<(i64, usize)>) -> SortExec {
    SortExec {
        input: Box::new(Executor::DataFrame(df)),
        by_column: by.iter().map(|s| s.to_string()).collect(),
        args: SortArguments { descending, nulls_last, maintain_order: true, slice },
    }
}

#[test]
fn sort_ascending_nulls_last() {
    let df = frame(vec![("a", vec![Some(3), None, Some(1)])]);
    let exec = sort_exec(df, &["a"], vec![false], true, None);
    let mut state = ExecutionState::new(false, false);
    let out = exec.execute(&mut state).unwrap();
    assert_eq!(out.columns[0].values, vec![Some(1), Some(3), None]);
    assert_eq!(out.columns[0].name, "a");
}

#[test]
fn sort_descending_nulls_first_with_second_key() {
    let df = frame(vec![
        ("k", vec![Some(1), Some(2), None, Some(2), Some(1)]),
        ("v", vec![Some(10), Some(20), Some(30), Some(5), Some(7)]),
    ]);
    let exec = sort_exec(df, &["k", "v"], vec![true, false], false, None);
    let mut state = ExecutionState::new(false, false);
    let out = exec.execute(&mut state).unwrap();
    assert_eq!(out.columns[0].values, vec![None, Some(2), Some(2), Some(1), Some(1)]);
    assert_eq!(out.columns[1].values, vec![Some(30), Some(5), Some(20), Some(7), Some(10)]);
}

#[test]
fn sort_is_stable_and_sliced() {
    let df = frame(vec![
        ("k", vec![Some(2), Some(1), Some(2), Some(1)]),
        ("row", vec![Some(0), Some(1), Some(2), Some(3)]),
    ]);
    let exec = sort_exec(df, &["k"], vec![false], true, Some((1, 2)));
    let mut state = ExecutionState::new(false, true);
    let out = exec.execute(&mut state).unwrap();
    assert_eq!(out.columns[1].values, vec![Some(3), Some(0)]);
    assert_eq!(state.profile, vec!["sort(k)".to_string()]);
    let df2 = frame(vec![("k", vec![Some(5), Some(4), Some(3)])]);
    let exec2 = sort_exec(df2, &["k"], vec![false], true, Some((-2, 5)));
    let out2 = exec2.execute(&mut ExecutionState::new(false, false)).unwrap();
    assert_eq!(out2.columns[0].values, vec![Some(4), Some(5)]);
}

#[test]
fn cancelled_execution_stops() {
    let df = frame(vec![("a", vec![Some(1)])]);
    let exec = sort_exec(df, &["a"], vec![false], true, None);
    let mut state = ExecutionState::new(true, false);
    state.cancel();
    assert!(state.should_stop().is_err());
    assert_eq!(exec.execute(&mut state).err(), Some(PlanError::Cancelled));
    let branch = state.split();
    assert!(branch.stop);
    assert!(branch.profile.is_empty());
}

#[test]
fn sort_errors_on_bad_arguments() {
    let df = frame(vec![("a", vec![Some(1)])]);
    let missing = sort_exec(df, &["b"], vec![false], true, None);
    let mut state = ExecutionState::new(false, false);
    assert_eq!(missing.execute(&mut state).err(), Some(PlanError::ComputeError));
    let df = frame(vec![("a", vec![Some(1)])]);
    let flags = sort_exec(df, &["a"], vec![false, true], true, None);
    assert_eq!(flags.execute(&mut state).err(), Some(PlanError::ComputeError));
    let ragged = frame(vec![("a", vec![Some(1), Some(2)]), ("b", vec![Some(1)])]);
    let exec = sort_exec(ragged, &["a"], vec![false], true, None);
    assert_eq!(exec.execute(&mut state).err(), Some(PlanError::ComputeError));
}

#[test]
fn sort_order_of_rows() {
    let keys = vec![vec![Some(3), None, Some(1), Some(3)]];
    assert_eq!(sort_order(&keys, &vec![false], true, 4), vec![2, 0, 3, 1]);
    assert_eq!(sort_order(&keys, &vec![true], false, 4), vec![1, 0, 3, 2]);
    assert_eq!(sort_order(&keys, &vec![false], true, 0), Vec::<usize>::new());
}

#[test]
fn slice_offsets_clamp() {
    assert_eq!(slice_offsets(0, 5, 3), (0, 3));
    assert_eq!(slice_offsets(1, 1, 3), (1, 2));
    assert_eq!(slice_offsets(-1, 5, 3), (2, 3));
    assert_eq!(slice_offsets(-10, 7, 3), (0, 0));
    assert_eq!(slice_offsets(-10, 8, 3), (0, 1));
    assert_eq!(slice_offsets(-10, 9, 3), (0, 2));
    assert_eq!(slice_offsets(7, 2, 3), (3, 3));
}

#[test]
fn profile_label() {
    let by = vec!["a".to_string(), "b".to_string()];
    assert_eq!(comma_delimited("sort".to_string(), &by), "sort(a, b)");
    assert_eq!(comma_delimited("sort".to_string(), &vec![]), "sort()");
    let df = frame(vec![("a", vec![Some(1), None])]);
    let copy = copy_frame(&df);
    assert_eq!(copy.columns[0].values, vec![Some(1), None]);
    assert_eq!(df.height(), 2);
}

#[test]
fn nested_sort_propagates_and_sorts() {
    let df = frame(vec![("a", vec![Some(2), Some(1), Some(3)]), ("b", vec![Some(1), Some(1), Some(0)])]);
    let inner = sort_exec(df, &["a"], vec![true], true, None);
    let outer = SortExec {
        input: Box::new(Executor::Sort(inner)),
        by_column: vec!["b".to_string()],
        args: SortArguments { descending: vec![false], nulls_last: true, maintain_order: true, slice: None },
    };
    let mut state = ExecutionState::new(false, false);
    let out = Executor::Sort(outer).execute(&mut state).unwrap();
    assert_eq!(out.columns[0].values, vec![Some(3), Some(2), Some(1)]);
    let df = frame(vec![("a", vec![Some(1)])]);
    let bad = sort_exec(df, &["missing"], vec![false], true, None);
    let outer = SortExec {
        input: Box::new(Executor::Sort(bad)),
        by_column: vec!["a".to_string()],
        args: SortArguments { descending: vec![false], nulls_last: true, maintain_order: true, slice: None },
    };
    assert_eq!(outer.execute(&mut state).err(), Some(PlanError::ComputeError));
}

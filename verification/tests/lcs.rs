use diffimg::lcs::{diff, lcs_table, EditOp};

fn rows(names: &[&str]) -> Vec<String> {
    names.iter().map(|s| s.to_string()).collect()
}

fn unchanged(script: &[EditOp]) -> usize {
    script
        .iter()
        .filter(|op| matches!(op, EditOp::Unchanged(_, _)))
        .count()
}

#[test]
fn identical_rows_give_only_unchanged_steps() {
    let a = rows(&["r0", "r1", "r2", "r1"]);
    let script = diff(&a, &a.clone());
    assert_eq!(
        script,
        vec![
            EditOp::Unchanged(0, 0),
            EditOp::Unchanged(1, 1),
            EditOp::Unchanged(2, 2),
            EditOp::Unchanged(3, 3),
        ]
    );
}

#[test]
fn two_empty_sequences_give_an_empty_script() {
    assert_eq!(diff(&Vec::new(), &Vec::new()), Vec::new());
}

#[test]
fn everything_is_added_to_an_empty_sequence() {
    let b = rows(&["x", "y"]);
    assert_eq!(diff(&Vec::new(), &b), vec![EditOp::Added(0), EditOp::Added(1)]);
}

#[test]
fn everything_is_removed_toward_an_empty_sequence() {
    let a = rows(&["x", "y", "z"]);
    assert_eq!(
        diff(&a, &Vec::new()),
        vec![EditOp::Removed(0), EditOp::Removed(1), EditOp::Removed(2)]
    );
}

#[test]
fn one_inserted_row_gives_one_added_step() {
    let a = rows(&["a", "b", "c", "d"]);
    for k in 0..=a.len() {
        let mut b = a.clone();
        b.insert(k, "new".to_string());
        let script = diff(&a, &b);
        let mut expected = Vec::new();
        for t in 0..k {
            expected.push(EditOp::Unchanged(t, t));
        }
        expected.push(EditOp::Added(k));
        for t in k..a.len() {
            expected.push(EditOp::Unchanged(t, t + 1));
        }
        assert_eq!(script, expected);
    }
}

#[test]
fn a_row_inserted_after_its_equals_is_reported_at_the_start_of_the_run() {
    let a = rows(&["a", "x", "x", "b"]);
    let mut b = a.clone();
    b.insert(3, "x".to_string());
    assert_eq!(
        diff(&a, &b),
        vec![
            EditOp::Unchanged(0, 0),
            EditOp::Added(1),
            EditOp::Unchanged(1, 2),
            EditOp::Unchanged(2, 3),
            EditOp::Unchanged(3, 4),
        ]
    );
}

#[test]
fn one_removed_row_gives_one_removed_step() {
    let a = rows(&["a", "b", "c"]);
    let b = rows(&["a", "c"]);
    assert_eq!(
        diff(&a, &b),
        vec![
            EditOp::Unchanged(0, 0),
            EditOp::Removed(1),
            EditOp::Unchanged(2, 1),
        ]
    );
}

#[test]
fn a_replaced_row_is_removed_before_it_is_added() {
    let a = rows(&["a", "old", "c"]);
    let b = rows(&["a", "new", "c"]);
    assert_eq!(
        diff(&a, &b),
        vec![
            EditOp::Unchanged(0, 0),
            EditOp::Removed(1),
            EditOp::Added(1),
            EditOp::Unchanged(2, 2),
        ]
    );
    assert_eq!(
        diff(&rows(&["x"]), &rows(&["y"])),
        vec![EditOp::Removed(0), EditOp::Added(0)]
    );
}

#[test]
fn the_table_holds_the_lengths_of_common_subsequences() {
    let a = rows(&["a", "b", "c", "b"]);
    let b = rows(&["b", "c", "a", "b"]);
    let table = lcs_table(&a, &b);
    assert_eq!(
        table,
        vec![
            vec![0, 0, 0, 0, 0],
            vec![0, 0, 0, 1, 1],
            vec![0, 1, 1, 1, 2],
            vec![0, 1, 2, 2, 2],
            vec![0, 1, 2, 2, 3],
        ]
    );
}

#[test]
fn a_script_walks_both_sequences_and_keeps_the_longest_common_part() {
    let a = rows(&["a", "b", "c", "b", "d", "a", "b"]);
    let b = rows(&["b", "d", "c", "a", "b", "a"]);
    let script = diff(&a, &b);
    let table = lcs_table(&a, &b);
    assert_eq!(unchanged(&script), table[a.len()][b.len()]);
    assert_eq!(script.len(), a.len() + b.len() - table[a.len()][b.len()]);
    let mut old_next = 0;
    let mut new_next = 0;
    for op in &script {
        match *op {
            EditOp::Unchanged(p, q) => {
                assert_eq!((p, q), (old_next, new_next));
                assert_eq!(a[p], b[q]);
                old_next += 1;
                new_next += 1;
            }
            EditOp::Removed(p) => {
                assert_eq!(p, old_next);
                old_next += 1;
            }
            EditOp::Added(q) => {
                assert_eq!(q, new_next);
                new_next += 1;
            }
        }
    }
    assert_eq!((old_next, new_next), (a.len(), b.len()));
}

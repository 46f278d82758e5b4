use ::myers_diff::{apply_edit_actions, myers_diff, EditAction};

/// Brute-force longest-common-subsequence length, as a reference for
/// minimality checks on small inputs.
fn lcs_len(a: &[&str], b: &[&str]) -> usize {
    if a.is_empty() || b.is_empty() {
        0
    } else if a[0] == b[0] {
        1 + lcs_len(&a[1..], &b[1..])
    } else {
        lcs_len(&a[1..], b).max(lcs_len(a, &b[1..]))
    }
}

fn counts(actions: &[EditAction]) -> (usize, usize) {
    let mut adds = 0;
    let mut deletes = 0;
    for a in actions {
        match a {
            EditAction::Add(_, _) => adds += 1,
            EditAction::Delete(_) => deletes += 1,
        }
    }
    (adds, deletes)
}

/// Applying the produced actions to `before` must reproduce `after`, and the
/// action count must be minimal against the brute-force LCS reference.
fn check_diff(before: &[&str], after: &[&str]) -> Vec<EditAction> {
    let (len_of_lcs, actions) = myers_diff(0, before, after).expect("failed to diff");

    // round trip through the renderer
    let rebuilt = apply_edit_actions(before, &actions).expect("script must apply cleanly");
    let expected: Vec<String> = after.iter().map(|s| s.to_string()).collect();
    assert_eq!(rebuilt, expected);

    // minimality against the brute-force reference
    let lcs = lcs_len(before, after);
    assert_eq!(len_of_lcs, lcs);
    let (adds, deletes) = counts(&actions);
    assert_eq!(adds + deletes, before.len() + after.len() - 2 * lcs);

    actions
}

#[test]
fn round_trip_and_minimality_on_small_pairs() {
    let pairs: Vec<(Vec<&str>, Vec<&str>)> = vec![
        (vec!["0", "1", "2"], vec!["1", "2"]),
        (vec!["0", "1", "2"], vec!["0", "1"]),
        (vec!["0", "1", "2"], vec!["0", "2"]),
        (vec!["0", "1"], vec!["0", "1", "2"]),
        (vec!["0", "1"], vec!["0", "2", "1"]),
        (vec!["0", "1"], vec!["2", "0", "1"]),
        (vec!["0", "1"], vec!["01", "1", "2", "3"]),
        (vec!["a", "b", "c", "a", "b", "b", "a"], vec!["c", "b", "a", "b", "a", "c"]),
        (vec!["x", "y", "z"], vec!["p", "q"]),
        (vec!["hello world"], vec!["hello world", "I added one line"]),
        (vec!["hello world", "this line will be deleted"], vec!["hello world"]),
        (
            vec!["hello world", "This line would be preserved"],
            vec![
                "hello world!!",
                "This line would be preserved",
                "And I added 3rd line,",
                "and 4th line",
            ],
        ),
    ];
    for (before, after) in pairs {
        check_diff(&before, &after);
    }
}

#[test]
fn empty_before() {
    let before: Vec<&str> = vec![];
    let after = vec!["a", "b"];
    let (len_of_lcs, actions) = myers_diff(0, &before, &after).expect("failed to diff");
    assert_eq!(len_of_lcs, 0);
    assert_eq!(
        actions,
        vec![EditAction::Add(0, "a".to_string()), EditAction::Add(0, "b".to_string())]
    );
    check_diff(&before, &after);
}

#[test]
fn empty_after() {
    let before = vec!["a", "b"];
    let after: Vec<&str> = vec![];
    let (len_of_lcs, actions) = myers_diff(0, &before, &after).expect("failed to diff");
    assert_eq!(len_of_lcs, 0);
    assert_eq!(actions, vec![EditAction::Delete(0), EditAction::Delete(0)]);
    check_diff(&before, &after);
}

#[test]
fn both_empty() {
    let before: Vec<&str> = vec![];
    let after: Vec<&str> = vec![];
    let (len_of_lcs, actions) = myers_diff(0, &before, &after).expect("failed to diff");
    assert_eq!(len_of_lcs, 0);
    assert_eq!(actions, vec![]);
}

#[test]
fn identical_sequences_need_no_actions() {
    let before = vec!["a", "b", "c"];
    let after = vec!["a", "b", "c"];
    let (len_of_lcs, actions) = myers_diff(0, &before, &after).expect("failed to diff");
    assert_eq!(len_of_lcs, 3);
    assert_eq!(actions, vec![]);
}

#[test]
fn disjoint_single_elements() {
    let before = vec!["a"];
    let after = vec!["b"];
    let actions = check_diff(&before, &after);
    let (adds, deletes) = counts(&actions);
    assert_eq!(adds, 1);
    assert_eq!(deletes, 1);
}

#[test]
fn single_inserted_element() {
    let before = vec!["a"];
    let after = vec!["a", "b"];
    let (len_of_lcs, actions) = myers_diff(0, &before, &after).expect("failed to diff");
    assert_eq!(len_of_lcs, 1);
    assert_eq!(actions, vec![EditAction::Add(1, "b".to_string())]);
    check_diff(&before, &after);
}

#[test]
fn single_deleted_element() {
    let before = vec!["a", "b"];
    let after = vec!["a"];
    let (len_of_lcs, actions) = myers_diff(0, &before, &after).expect("failed to diff");
    assert_eq!(len_of_lcs, 1);
    assert_eq!(actions, vec![EditAction::Delete(1)]);
    check_diff(&before, &after);
}

#[test]
fn identical_inputs_give_identical_scripts() {
    let before = vec!["a", "b", "c", "d"];
    let after = vec!["b", "x", "c", "y"];
    let first = myers_diff(0, &before, &after).expect("failed to diff");
    let second = myers_diff(0, &before, &after).expect("failed to diff");
    assert_eq!(first, second);
}

#[test]
fn anchor_accessor_returns_position() {
    let add = EditAction::Add(3, "x".to_string());
    let delete = EditAction::Delete(7);
    assert_eq!(*add.index(), 3);
    assert_eq!(*delete.index(), 7);
}

#[test]
fn renderer_rejects_script_that_does_not_apply() {
    let before = vec!["a"];
    // anchored past the end of `before`: no run of matches reaches cursor 5
    assert_eq!(apply_edit_actions(&before, &[EditAction::Delete(5)]), None);
    // a deletion with nothing left to delete
    assert_eq!(
        apply_edit_actions(&[], &[EditAction::Delete(0)]),
        None
    );
}

#[test]
fn base_offsets_all_anchors() {
    let before: Vec<&str> = vec![];
    let after = vec!["a"];
    let (new_base, actions) = myers_diff(5, &before, &after).expect("failed to diff");
    assert_eq!(new_base, 5);
    assert_eq!(actions, vec![EditAction::Add(5, "a".to_string())]);
}

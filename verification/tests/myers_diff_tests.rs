use ::myers_diff::{myers_diff, EditAction};

#[test]
fn add_one_line() {
    let before = "\
hello world";
    let after = "\
hello world
I added one line
";

    let before = before.lines().collect::<Vec<&str>>();
    let after = after.lines().collect::<Vec<&str>>();

    let (len_of_lcs, edit_actions) = myers_diff(0, &before, &after).expect("failed to diff");

    assert_eq!(len_of_lcs, 1);
    assert_eq!(edit_actions, vec![EditAction::Add(1, "I added one line".to_string())]);
}

#[test]
fn delete_one_line() {
    let before = "\
hello world
this line will be deleted";
    let after = "\
hello world";

    let before = before.lines().collect::<Vec<&str>>();
    let after = after.lines().collect::<Vec<&str>>();

    let (len_of_lcs, edit_actions) =
        myers_diff(0, &before, &after).expect("failed to detect deletion");

    assert_eq!(len_of_lcs, 1);
    assert_eq!(edit_actions, vec![EditAction::Delete(1)]);
}

#[test]
fn myers_diff_modify_and_add_multiple_lines() {
    let before = "\
hello world
This line would be preserved";
    let after = "\
hello world!!
This line would be preserved
And I added 3rd line,
and 4th line";

    let before = before.lines().collect::<Vec<&str>>();
    let after = after.lines().collect::<Vec<&str>>();

    let (len_of_lcs, edit_actions) = myers_diff(0, &before, &after).expect("failed to diff");

    assert_eq!(len_of_lcs, 1);
    assert_eq!(
        edit_actions,
        vec![
            EditAction::Add(0, "hello world!!".to_string()),
            EditAction::Delete(0),
            EditAction::Add(1, "And I added 3rd line,".to_string()),
            EditAction::Add(1, "and 4th line".to_string())
        ]
    );
}

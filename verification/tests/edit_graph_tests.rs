use ::myers_diff::{EditGraph, MiddleSnake};

#[test]
fn delete_1() {
    let a = vec!["0", "1", "2"];
    let b = vec!["1", "2"];

    let mut edit_graph = EditGraph::new(&a, &b);
    let middle_snake = edit_graph.find_middle_snake().expect("failed to find middle_snake");

    assert_eq!(middle_snake, MiddleSnake::from_edit_graph(1, 1, 3));
}

#[test]
fn delete_2() {
    let a = vec!["0", "1", "2"];
    let b = vec!["0", "1"];
    let mut edit_graph = EditGraph::new(&a, &b);
    let middle_snake = edit_graph.find_middle_snake().expect("failed to find middle_snake");

    assert_eq!(middle_snake, MiddleSnake::from_edit_graph(0, 0, 2));
}

#[test]
fn delete_3() {
    let a = vec!["0", "1", "2"];
    let b = vec!["0", "2"];
    let mut edit_graph = EditGraph::new(&a, &b);
    let middle_snake = edit_graph.find_middle_snake().expect("failed to find middle_snake");

    assert_eq!(middle_snake, MiddleSnake::from_edit_graph(1, 2, 3));
}

#[test]
fn add_1() {
    let a = vec!["0", "1"];
    let b = vec!["0", "1", "2'"];

    let mut edit_graph = EditGraph::new(&a, &b);
    let middle_snake = edit_graph.find_middle_snake().expect("failed to find middle_snake");

    assert_eq!(middle_snake, MiddleSnake::from_edit_graph(0, 0, 2));
}

#[test]
fn add_2() {
    let a = vec!["0", "1"];
    let b = vec!["0", "2", "1"];

    let mut edit_graph = EditGraph::new(&a, &b);
    let middle_snake = edit_graph.find_middle_snake().expect("failed to find middle_snake");

    assert_eq!(middle_snake, MiddleSnake::from_edit_graph(-1, 1, 2))
}

#[test]
fn add_3() {
    let a = vec!["0", "1"];
    let b = vec!["2", "0", "1"];

    let mut edit_graph = EditGraph::new(&a, &b);
    let middle_snake = edit_graph.find_middle_snake().expect("failed to find middle_snake");

    assert_eq!(middle_snake, MiddleSnake::from_edit_graph(-1, 0, 2))
}

#[test]
fn modify_1() {
    let a = vec!["0", "1"];
    let b = vec!["01", "1", "2", "3"];

    let mut edit_graph = EditGraph::new(&a, &b);
    let middle_snake = edit_graph.find_middle_snake().expect("failed to find middle snake");

    assert_eq!(middle_snake, MiddleSnake::from_edit_graph(0, 1, 2));
}

#[test]
fn modify_single_line() {
    let a = ["0"];
    let b = ["1"];

    let mut edit_graph = EditGraph::new(&a, &b);
    let middle_snake = edit_graph.find_middle_snake().expect("failed to find middle_snake");

    assert_eq!(middle_snake, MiddleSnake::from_edit_graph(-1, 0, 0));
}

#[test]
fn edit_graph_modify_and_add_multiple_lines() {
    let before = "\
hello world
This line would be preserved";
    let after = "\
hello world!!
This line would be preserved
And I added 3rd line,
and 4th line";

    let before = before.lines().collect::<Vec<&str>>();
    let after = after.lines().collect::<Vec<&str>>();

    let mut edit_graph = EditGraph::new(&before, &after);
    let middle_snake = edit_graph.find_middle_snake().expect("failed to find middle snake");

    assert_eq!(middle_snake, MiddleSnake::from_edit_graph(0, 1, 2));
}

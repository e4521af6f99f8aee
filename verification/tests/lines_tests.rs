use rayon::iter::{IntoParallelRefIterator, ParallelIterator};
use sp::lines::{par_split_pipe_by_lines, split_pipe_by_lines};

#[test]
fn split_pipe_by_lines_test() {
    let pipe = "This\nis\na\ntest".to_string();
    let result = split_pipe_by_lines(pipe);
    let expected = vec!["This", "is", "a", "test"];
    assert_eq!(result, expected);
}

#[test]
fn par_split_pipe_by_lines_test() {
    let pipe = "This\nis\na\ntest".to_string();
    let result = par_split_pipe_by_lines(pipe);
    let expected = vec!["This", "is", "a", "test"];
    assert!(result.par_iter().any(|x| expected.contains(&x.as_str())));
}

#[test]
fn split_empty_input_gives_no_lines() {
    assert_eq!(split_pipe_by_lines(String::new()), Vec::<String>::new());
    assert_eq!(par_split_pipe_by_lines(String::new()), Vec::<String>::new());
}

#[test]
fn split_without_terminator_gives_one_line() {
    assert_eq!(split_pipe_by_lines("no newline".to_string()), vec!["no newline"]);
}

#[test]
fn split_keeps_interior_empty_lines() {
    assert_eq!(split_pipe_by_lines("a\n\nb".to_string()), vec!["a", "", "b"]);
}

#[test]
fn split_drops_final_terminator() {
    assert_eq!(split_pipe_by_lines("a\nb\n".to_string()), vec!["a", "b"]);
}

#[test]
fn split_strips_carriage_return_before_newline() {
    assert_eq!(split_pipe_by_lines("a\r\nb".to_string()), vec!["a", "b"]);
}

#[test]
fn split_keeps_final_bare_carriage_return() {
    assert_eq!(split_pipe_by_lines("a\r".to_string()), vec!["a\r"]);
}

#[test]
fn par_split_strips_final_bare_carriage_return() {
    assert_eq!(par_split_pipe_by_lines("a\r".to_string()), vec!["a"]);
}

#[test]
fn par_split_is_permutation_of_sequential_split() {
    let pipe = "gamma\nalpha\nbeta\nalpha".to_string();
    let mut seq_lines = split_pipe_by_lines(pipe.clone());
    let mut par_lines = par_split_pipe_by_lines(pipe);
    seq_lines.sort();
    par_lines.sort();
    assert_eq!(seq_lines, par_lines);
}

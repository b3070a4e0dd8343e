use nature_common::error::NatureError;
use nature_common::instance_para::{get_para_and_key_from_para, make_key_and_para};

#[test]
fn key_para_make() {
    let keys = vec!["a", "b", "c", "d", "e"];
    let idx = vec![3, 1];
    let result = make_key_and_para(&keys, &idx, "-").unwrap();
    assert_eq!(result.0, "d-b");
    assert_eq!(result.1, "a-c-e");
}

#[test]
fn empty_para() {
    let result = get_para_and_key_from_para("", &vec![]).unwrap();
    assert_eq!(result.0, "");
    assert_eq!(result.1, "");
    let result = get_para_and_key_from_para("a,b,c", &vec![]).unwrap();
    assert_eq!(result.0, "");
    assert_eq!(result.1, "");
}

#[test]
fn normal_test() {
    let result = get_para_and_key_from_para("a/b/c", &vec![0]).unwrap();
    assert_eq!(result.0, "a");
    assert_eq!(result.1, "b/c");
    let result = get_para_and_key_from_para("a/b/c", &vec![1]).unwrap();
    assert_eq!(result.0, "b");
    assert_eq!(result.1, "a/c");
    let result = get_para_and_key_from_para("a/b/c", &vec![2]).unwrap();
    assert_eq!(result.0, "c");
    assert_eq!(result.1, "a/b");
    let result = get_para_and_key_from_para("a/b/c", &vec![0, 1]).unwrap();
    assert_eq!(result.0, "a/b");
    assert_eq!(result.1, "c");
    let result = get_para_and_key_from_para("a/b/c", &vec![1, 2]).unwrap();
    assert_eq!(result.0, "b/c");
    assert_eq!(result.1, "a");
    let result = get_para_and_key_from_para("a/b/c", &vec![0, 2]).unwrap();
    assert_eq!(result.0, "a/c");
    assert_eq!(result.1, "b");

    let result = get_para_and_key_from_para("a/b/c", &vec![1, 0]).unwrap();
    assert_eq!(result.0, "b/a");
    assert_eq!(result.1, "c");
    let result = get_para_and_key_from_para("a/b/c", &vec![2, 1]).unwrap();
    assert_eq!(result.0, "c/b");
    assert_eq!(result.1, "a");
    let result = get_para_and_key_from_para("a/b/c", &vec![2, 0]).unwrap();
    assert_eq!(result.0, "c/a");
    assert_eq!(result.1, "b");
}

#[test]
fn position_outside_the_keys_is_refused() {
    assert_eq!(
        get_para_and_key_from_para("a/b/c", &vec![3]),
        Err(NatureError::VerifyError("outbound index".to_string()))
    );
    assert_eq!(
        make_key_and_para(&vec!["a"], &vec![0, 1], "-"),
        Err(NatureError::VerifyError("outbound index".to_string()))
    );
}

#[test]
fn all_keys_picked_leaves_nothing() {
    let result = get_para_and_key_from_para("a/b", &vec![1, 0, 1]).unwrap();
    assert_eq!(result.0, "b/a/b");
    assert_eq!(result.1, "");
    let result = get_para_and_key_from_para("", &vec![0]).unwrap();
    assert_eq!(result.0, "");
    assert_eq!(result.1, "");
}

use task_slayer::commands::CommandError;
use task_slayer::messages::{
    command_message, path_message, repo_message, selector_message, update_message,
};
use task_slayer::model::{RepoError, StorageError};
use task_slayer::paths::PathError;
use task_slayer::selector::{parse_selector, SelectorError};
use task_slayer::update::UpdateError;

#[test]
fn selector_refusals_quote_the_text() {
    assert_eq!(
        selector_message(&SelectorError::InvalidRangeStart("x".to_string())),
        "invalid range start: \"x\""
    );
    assert_eq!(
        selector_message(&SelectorError::InvalidRangeEnd("y".to_string())),
        "invalid range end: \"y\""
    );
    assert_eq!(
        selector_message(&SelectorError::ReversedRange("5-3".to_string())),
        "range end is less than start: 5-3"
    );
    assert_eq!(selector_message(&SelectorError::InvalidId("abc".to_string())), "invalid id: \"abc\"");
}

#[test]
fn quoting_escapes_special_characters() {
    assert_eq!(
        selector_message(&SelectorError::InvalidId("a\"b\n".to_string())),
        "invalid id: \"a\\\"b\\n\""
    );
}

#[test]
fn parsed_selector_errors_read_as_before() {
    let e = parse_selector("abc").unwrap_err();
    assert_eq!(selector_message(&e), "invalid id: \"abc\"");
    let e = parse_selector("a-3").unwrap_err();
    assert_eq!(selector_message(&e), "invalid range start: \"a\"");
    let e = parse_selector("3-b").unwrap_err();
    assert_eq!(selector_message(&e), "invalid range end: \"b\"");
    let e = parse_selector("5-3").unwrap_err();
    assert_eq!(selector_message(&e), "range end is less than start: 5-3");
}

#[test]
fn repository_refusals() {
    assert_eq!(repo_message(&RepoError::EmptyDescription), "description cannot be empty");
    assert_eq!(repo_message(&RepoError::IdCounterOverflow), "ID counter overflow");
    assert_eq!(
        repo_message(&RepoError::ClockUnavailable),
        "cannot read the system clock as a time since 1970"
    );
    assert_eq!(repo_message(&RepoError::NoIdsGiven), "no task ids given");
    assert_eq!(repo_message(&RepoError::NoTasksMatched), "no tasks matched the given ids");
    assert_eq!(repo_message(&RepoError::TaskNotFound(42)), "task id not found: 42");
    assert_eq!(
        repo_message(&RepoError::Storage(StorageError { message: "reading /x".to_string() })),
        "reading /x"
    );
}

#[test]
fn missing_ids_are_joined_by_commas() {
    assert_eq!(repo_message(&RepoError::IdsNotFound(vec![7])), "task ids not found: 7");
    assert_eq!(
        repo_message(&RepoError::IdsNotFound(vec![3, 10, 200])),
        "task ids not found: 3, 10, 200"
    );
}

#[test]
fn command_refusals_use_the_inner_wording() {
    assert_eq!(
        command_message(&CommandError::Repo(RepoError::NoIdsGiven)),
        "no task ids given"
    );
    assert_eq!(
        command_message(&CommandError::Selector(SelectorError::InvalidId("q".to_string()))),
        "invalid id: \"q\""
    );
}

#[test]
fn missing_home() {
    assert_eq!(path_message(&PathError::HomeNotSet), "HOME is not set");
}

#[test]
fn update_refusals() {
    assert_eq!(
        update_message(&UpdateError::NoAsset, "v1.2.0"),
        "no 'tslay' asset found in release v1.2.0"
    );
    assert_eq!(
        update_message(&UpdateError::TooLarge, ""),
        "downloaded binary exceeds max size of 10485760 bytes"
    );
    assert_eq!(
        update_message(&UpdateError::MissingDigest, "v1"),
        "no digest available \u{2014} refusing to install unverified binary"
    );
    assert_eq!(
        update_message(
            &UpdateError::DigestMismatch { expected: "ab".to_string(), actual: "cd".to_string() },
            "v1"
        ),
        "digest mismatch: expected ab, got cd"
    );
}

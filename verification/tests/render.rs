use task_slayer::model::{Task, Timestamp};
use task_slayer::render::{
    created_message, decimal_string, full_lines, id_width, marked_message, pending_lines,
    removed_message, updated_message,
};

fn task(id: u64, description: &str, completed: bool) -> Task {
    Task {
        id,
        description: description.to_string(),
        completed,
        created_at: Timestamp { secs: 0, nanos: 0 },
    }
}

#[test]
fn decimal_strings() {
    assert_eq!(decimal_string(0), "0");
    assert_eq!(decimal_string(1234), "1234");
    assert_eq!(decimal_string(u64::MAX), "18446744073709551615");
}

#[test]
fn id_width_is_at_least_two() {
    assert_eq!(id_width(&[]), 2);
    assert_eq!(id_width(&[task(7, "a", false)]), 2);
    assert_eq!(id_width(&[task(7, "a", false), task(123, "b", false)]), 3);
}

#[test]
fn pending_listing_as_documented() {
    let tasks = vec![task(1, "Buy oat milk", false), task(2, "Buy eggs", false)];
    assert_eq!(
        pending_lines(&tasks),
        vec!["ID Description", "-- -----------", "1  Buy oat milk", "2  Buy eggs", "", "2 tasks."]
    );
}

#[test]
fn full_listing_as_documented() {
    let tasks = vec![task(1, "Buy oat milk", true), task(2, "Buy eggs", false)];
    assert_eq!(
        full_lines(&tasks),
        vec![
            "ID \u{2713} Description",
            "-- - -----------",
            "1  \u{2713} Buy oat milk",
            "2    Buy eggs",
            "",
            "2 tasks."
        ]
    );
}

#[test]
fn listing_of_one_task_says_task() {
    let tasks = vec![task(100, "x", false)];
    assert_eq!(
        pending_lines(&tasks),
        vec!["ID  Description", "--- -----------", "100 x", "", "1 task."]
    );
}

#[test]
fn empty_listing() {
    assert_eq!(pending_lines(&[]), vec!["0 tasks."]);
    assert_eq!(full_lines(&[]), vec!["0 tasks."]);
}

#[test]
fn messages() {
    assert_eq!(created_message(1), "Created task 1.");
    assert_eq!(updated_message(12), "Updated task 12.");
    assert_eq!(marked_message(true, 1), "Marked 1 task done.");
    assert_eq!(marked_message(false, 3), "Marked 3 tasks undone.");
    assert_eq!(removed_message(0), "Removed 0 tasks.");
    assert_eq!(removed_message(1), "Removed 1 task.");
}

use task_slayer::paths::{data_file_location, PathError};

#[test]
fn xdg_data_home_wins() {
    assert_eq!(
        data_file_location(Some("/data".into()), Some("/home/u".into())).unwrap(),
        vec!["/data", "tslay", "tasks.json"]
    );
}

#[test]
fn empty_xdg_data_home_falls_back_to_home() {
    assert_eq!(
        data_file_location(Some(String::new()), Some("/home/u".into())).unwrap(),
        vec!["/home/u", ".local", "share", "tslay", "tasks.json"]
    );
    assert_eq!(
        data_file_location(None, Some("/home/u".into())).unwrap(),
        vec!["/home/u", ".local", "share", "tslay", "tasks.json"]
    );
}

#[test]
fn no_home_is_an_error() {
    assert!(matches!(data_file_location(None, None), Err(PathError::HomeNotSet)));
}

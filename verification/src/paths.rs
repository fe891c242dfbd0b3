//! Where the task file lives.
use vstd::prelude::*;
use vstd::string::*;
use crate::render::lines_text;

verus! {

/// The data directory could not be found.
#[derive(Debug)]
pub enum PathError {
    /// Neither `XDG_DATA_HOME` nor `HOME` is set.
    HomeNotSet,
}

/// The path of the task file, segment by segment: under `XDG_DATA_HOME`
/// when that is set and not empty, else under `HOME/.local/share`.
pub open spec fn data_file_segments(xdg_data_home: Option<Seq<char>>, home: Option<Seq<char>>) -> Option<
    Seq<Seq<char>>,
> {
    match xdg_data_home {
        Some(dir) if dir.len() > 0 => Some(seq![dir, "tslay"@, "tasks.json"@]),
        _ => match home {
            Some(h) => Some(seq![h, ".local"@, "share"@, "tslay"@, "tasks.json"@]),
            None => None,
        },
    }
}

pub open spec fn text_of(s: Option<String>) -> Option<Seq<char>> {
    match s {
        Some(v) => Some(v@),
        None => None,
    }
}

/// The segments of the task file's path, given the values of
/// `XDG_DATA_HOME` and `HOME`.
pub fn data_file_location(xdg_data_home: Option<String>, home: Option<String>) -> (r: Result<
    Vec<String>,
    PathError,
>)
    ensures
        match data_file_segments(text_of(xdg_data_home), text_of(home)) {
            Some(segs) => r matches Ok(v) && lines_text(v@) == segs,
            None => r matches Err(e) && e is HomeNotSet,
        },
{
    let mut v: Vec<String> = Vec::new();
    match xdg_data_home {
        Some(dir) if !dir.as_str().is_empty() => {
            v.push(dir);
        },
        _ => match home {
            Some(h) => {
                v.push(h);
                v.push(String::from_str(".local"));
                v.push(String::from_str("share"));
            },
            None => {
                return Err(PathError::HomeNotSet);
            },
        },
    }
    v.push(String::from_str("tslay"));
    v.push(String::from_str("tasks.json"));
    assert(lines_text(v@) =~= data_file_segments(text_of(xdg_data_home), text_of(home))->Some_0);
    Ok(v)
}

} // verus!

//! The wording of every error that the command line reports.
use vstd::prelude::*;
use vstd::string::*;
use crate::commands::CommandError;
use crate::model::{RepoError, RepoFault};
use crate::paths::PathError;
use crate::render::{decimal, push_decimal};
use crate::selector::{SelectorError, SelectorFault};
use crate::update::{UpdateError, MAX_BINARY_SIZE};

verus! {

/// What std's `Debug` formatting writes for a string: the string in double
/// quotes, with its special characters escaped.
pub uninterp spec fn debug_text(s: Seq<char>) -> Seq<char>;

/// Calls std's `Debug` formatting of a `str` through `format!("{:?}")`. The
/// contract claims only that the result is `debug_text` of the characters,
/// a function of them alone; the escaping rules are std's and are not
/// written out here.
#[verifier::external_body]
fn debug_quoted(s: &str) -> (r: String)
    ensures
        r@ == debug_text(s@),
{
    format!("{s:?}")
}

/// The ids in decimal, separated by `, `.
pub open spec fn joined_ids(ids: Seq<u64>) -> Seq<char>
    decreases ids.len(),
{
    if ids.len() == 0 {
        Seq::empty()
    } else if ids.len() == 1 {
        decimal(ids[0] as nat)
    } else {
        joined_ids(ids.drop_last()) + ", "@ + decimal(ids.last() as nat)
    }
}

/// How a selector that could not be read is reported.
pub open spec fn selector_text(f: SelectorFault) -> Seq<char> {
    match f {
        SelectorFault::RangeStart(a) => "invalid range start: "@ + debug_text(a),
        SelectorFault::RangeEnd(b) => "invalid range end: "@ + debug_text(b),
        SelectorFault::Reversed(s) => "range end is less than start: "@ + s,
        SelectorFault::Id(s) => "invalid id: "@ + debug_text(s),
    }
}

/// How a failed operation on the tasks is reported.
pub open spec fn repo_text(f: RepoFault) -> Seq<char> {
    match f {
        RepoFault::EmptyDescription => "description cannot be empty"@,
        RepoFault::IdCounterOverflow => "ID counter overflow"@,
        RepoFault::ClockUnavailable => "cannot read the system clock as a time since 1970"@,
        RepoFault::NoIdsGiven => "no task ids given"@,
        RepoFault::NoTasksMatched => "no tasks matched the given ids"@,
        RepoFault::IdsNotFound(ids) => "task ids not found: "@ + joined_ids(ids),
        RepoFault::TaskNotFound(id) => "task id not found: "@ + decimal(id as nat),
        RepoFault::Storage(m) => m,
    }
}

/// How a failed command is reported.
pub open spec fn command_text(e: CommandError) -> Seq<char> {
    match e {
        CommandError::Selector(e) => selector_text(e@),
        CommandError::Repo(e) => repo_text(e@),
    }
}

/// How a missing data directory is reported.
pub open spec fn path_text(e: PathError) -> Seq<char> {
    match e {
        PathError::HomeNotSet => "HOME is not set"@,
    }
}

/// How a refused update of the release tagged `tag` is reported.
pub open spec fn update_text(e: UpdateError, tag: Seq<char>) -> Seq<char> {
    match e {
        UpdateError::NoAsset => "no 'tslay' asset found in release "@ + tag,
        UpdateError::TooLarge => "downloaded binary exceeds max size of "@ + decimal(
            MAX_BINARY_SIZE as nat,
        ) + " bytes"@,
        UpdateError::MissingDigest => "no digest available \u{2014} refusing to install unverified binary"@,
        UpdateError::DigestMismatch { expected, actual } => "digest mismatch: expected "@ + expected@
            + ", got "@ + actual@,
    }
}

/// Appends the ids in decimal, separated by `, `.
fn push_joined_ids(s: &mut String, ids: &[u64])
    ensures
        final(s)@ == old(s)@ + joined_ids(ids@),
{
    let ghost start = s@;
    let mut i: usize = 0;
    assert(ids@.take(0) =~= Seq::<u64>::empty());
    while i < ids.len()
        invariant
            i <= ids@.len(),
            s@ == start + joined_ids(ids@.take(i as int)),
        decreases ids@.len() - i,
    {
        let ghost before = s@;
        let ghost next = ids@.take(i + 1);
        assert(next.drop_last() =~= ids@.take(i as int));
        assert(next.last() == ids@[i as int]);
        if i > 0 {
            s.append(", ");
        }
        push_decimal(s, ids[i]);
        assert(s@ =~= start + joined_ids(next));
        i = i + 1;
    }
    assert(ids@.take(ids@.len() as int) =~= ids@);
}

/// How a selector that could not be read is reported.
pub fn selector_message(e: &SelectorError) -> (r: String)
    ensures
        r@ == selector_text(e@),
{
    match e {
        SelectorError::InvalidRangeStart(a) => {
            let mut s = String::from_str("invalid range start: ");
            s.append(debug_quoted(a.as_str()).as_str());
            s
        },
        SelectorError::InvalidRangeEnd(b) => {
            let mut s = String::from_str("invalid range end: ");
            s.append(debug_quoted(b.as_str()).as_str());
            s
        },
        SelectorError::ReversedRange(t) => {
            let mut s = String::from_str("range end is less than start: ");
            s.append(t.as_str());
            s
        },
        SelectorError::InvalidId(t) => {
            let mut s = String::from_str("invalid id: ");
            s.append(debug_quoted(t.as_str()).as_str());
            s
        },
    }
}

/// How a failed operation on the tasks is reported.
pub fn repo_message(e: &RepoError) -> (r: String)
    ensures
        r@ == repo_text(e@),
{
    match e {
        RepoError::EmptyDescription => String::from_str("description cannot be empty"),
        RepoError::IdCounterOverflow => String::from_str("ID counter overflow"),
        RepoError::ClockUnavailable => String::from_str(
            "cannot read the system clock as a time since 1970",
        ),
        RepoError::NoIdsGiven => String::from_str("no task ids given"),
        RepoError::NoTasksMatched => String::from_str("no tasks matched the given ids"),
        RepoError::IdsNotFound(ids) => {
            let mut s = String::from_str("task ids not found: ");
            push_joined_ids(&mut s, ids.as_slice());
            s
        },
        RepoError::TaskNotFound(id) => {
            let mut s = String::from_str("task id not found: ");
            push_decimal(&mut s, *id);
            s
        },
        RepoError::Storage(f) => f.message.clone(),
    }
}

/// How a failed command is reported.
pub fn command_message(e: &CommandError) -> (r: String)
    ensures
        r@ == command_text(*e),
{
    match e {
        CommandError::Selector(e) => selector_message(e),
        CommandError::Repo(e) => repo_message(e),
    }
}

/// How a missing data directory is reported.
pub fn path_message(e: &PathError) -> (r: String)
    ensures
        r@ == path_text(*e),
{
    match e {
        PathError::HomeNotSet => String::from_str("HOME is not set"),
    }
}

/// How a refused update of the release tagged `tag` is reported.
pub fn update_message(e: &UpdateError, tag: &str) -> (r: String)
    ensures
        r@ == update_text(*e, tag@),
{
    match e {
        UpdateError::NoAsset => {
            let mut s = String::from_str("no 'tslay' asset found in release ");
            s.append(tag);
            s
        },
        UpdateError::TooLarge => {
            let mut s = String::from_str("downloaded binary exceeds max size of ");
            push_decimal(&mut s, MAX_BINARY_SIZE);
            s.append(" bytes");
            s
        },
        UpdateError::MissingDigest => String::from_str(
            "no digest available \u{2014} refusing to install unverified binary",
        ),
        UpdateError::DigestMismatch { expected, actual } => {
            let mut s = String::from_str("digest mismatch: expected ");
            s.append(expected.as_str());
            s.append(", got ");
            s.append(actual.as_str());
            s
        },
    }
}

} // verus!

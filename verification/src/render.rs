//! The text that the commands print, line by line.
use vstd::prelude::*;
use vstd::string::*;
use crate::model::{Task, TaskView, views};

verus! {

/// The decimal digits of `n`, without leading zeros.
pub open spec fn decimal(n: nat) -> Seq<char>
    decreases n,
{
    if n < 10 {
        seq![(48 + n) as char]
    } else {
        decimal(n / 10).push((48 + n % 10) as char)
    }
}

/// `k` copies of `c`.
pub open spec fn repeated(c: char, k: nat) -> Seq<char> {
    Seq::new(k, |i: int| c)
}

/// `s` padded with spaces on the right to at least `w` characters.
pub open spec fn padded(s: Seq<char>, w: nat) -> Seq<char> {
    if s.len() >= w {
        s
    } else {
        s + repeated(' ', (w - s.len()) as nat)
    }
}

/// The largest id among the tasks, or 0 when there are none.
pub open spec fn max_id(tasks: Seq<TaskView>) -> u64
    decreases tasks.len(),
{
    if tasks.len() == 0 {
        0
    } else {
        let m = max_id(tasks.drop_last());
        if tasks.last().id > m {
            tasks.last().id
        } else {
            m
        }
    }
}

/// The width of the id column: the digits of the largest id, at least 2.
pub open spec fn id_column(tasks: Seq<TaskView>) -> nat {
    let d = decimal(max_id(tasks) as nat).len();
    if d > 2 {
        d
    } else {
        2
    }
}

/// `task` or `tasks`, as the count asks.
pub open spec fn noun(n: nat) -> Seq<char> {
    if n == 1 {
        "task"@
    } else {
        "tasks"@
    }
}

/// The closing line of a listing: `2 tasks.`
pub open spec fn count_line(n: nat) -> Seq<char> {
    decimal(n) + " "@ + noun(n) + "."@
}

/// The row of a pending listing: the id padded to the column, then the
/// description.
pub open spec fn pending_row(t: TaskView, w: nat) -> Seq<char> {
    padded(decimal(t.id as nat), w) + " "@ + t.description
}

/// The row of a full listing: the id, a check mark for a completed task
/// (a space otherwise), then the description.
pub open spec fn full_row(t: TaskView, w: nat) -> Seq<char> {
    padded(decimal(t.id as nat), w) + " "@ + (if t.completed {
        "\u{2713}"@
    } else {
        " "@
    }) + " "@ + t.description
}

/// The lines that list pending tasks.
pub open spec fn pending_text(tasks: Seq<TaskView>) -> Seq<Seq<char>> {
    if tasks.len() == 0 {
        seq!["0 tasks."@]
    } else {
        let w = id_column(tasks);
        seq![padded("ID"@, w) + " Description"@, repeated('-', w) + " -----------"@] + Seq::new(
            tasks.len(),
            |i: int| pending_row(tasks[i], w),
        ) + seq![Seq::empty(), count_line(tasks.len())]
    }
}

/// The lines that list all tasks.
pub open spec fn full_text(tasks: Seq<TaskView>) -> Seq<Seq<char>> {
    if tasks.len() == 0 {
        seq!["0 tasks."@]
    } else {
        let w = id_column(tasks);
        seq![
            padded("ID"@, w) + " \u{2713} Description"@,
            repeated('-', w) + " - -----------"@,
        ] + Seq::new(tasks.len(), |i: int| full_row(tasks[i], w)) + seq![
            Seq::empty(),
            count_line(tasks.len()),
        ]
    }
}

/// `Created task 1.`
pub open spec fn created_line(id: u64) -> Seq<char> {
    "Created task "@ + decimal(id as nat) + "."@
}

/// `Updated task 1.`
pub open spec fn updated_line(id: u64) -> Seq<char> {
    "Updated task "@ + decimal(id as nat) + "."@
}

/// `Marked 2 tasks done.` or `Marked 1 task undone.`
pub open spec fn marked_line(completed: bool, n: nat) -> Seq<char> {
    "Marked "@ + decimal(n) + " "@ + noun(n) + (if completed {
        " done"@
    } else {
        " undone"@
    }) + "."@
}

/// `Removed 2 tasks.`
pub open spec fn removed_line(n: nat) -> Seq<char> {
    "Removed "@ + decimal(n) + " "@ + noun(n) + "."@
}

/// The lines, each as characters.
pub open spec fn lines_text(lines: Seq<String>) -> Seq<Seq<char>> {
    lines.map_values(|s: String| s@)
}

/// Calls `String::push`, which std documents as appending the character to
/// the end of the string: the contract claims that the characters become the
/// old ones followed by `c`.
#[verifier::external_body]
pub(crate) fn push_char(s: &mut String, c: char)
    ensures
        final(s)@ == old(s)@.push(c),
{
    s.push(c);
}

/// Appends the decimal digits of `n`.
pub(crate) fn push_decimal(s: &mut String, n: u64)
    ensures
        final(s)@ == old(s)@ + decimal(n as nat),
    decreases n,
{
    let ghost start = s@;
    if n >= 10 {
        push_decimal(s, n / 10);
    }
    let d = (n % 10) as u8;
    let c = (48u8 + d) as char;
    assert(c == (48 + (n as nat) % 10) as char);
    push_char(s, c);
    if n >= 10 {
        assert(s@ =~= start + decimal(n as nat));
    } else {
        assert(s@ =~= start + decimal(n as nat));
    }
}

/// Appends `k` copies of `c`.
fn push_repeated(s: &mut String, c: char, k: usize)
    ensures
        final(s)@ == old(s)@ + repeated(c, k as nat),
{
    let ghost start = s@;
    let mut i: usize = 0;
    while i < k
        invariant
            i <= k,
            s@ =~= start + repeated(c, i as nat),
        decreases k - i,
    {
        push_char(s, c);
        i = i + 1;
    }
}

/// Appends `text` and pads it with spaces to at least `w` characters.
fn push_padded(s: &mut String, text: &str, w: usize)
    ensures
        final(s)@ == old(s)@ + padded(text@, w as nat),
{
    s.append(text);
    let n = text.unicode_len();
    if n < w {
        push_repeated(s, ' ', w - n);
    }
    assert(s@ =~= old(s)@ + padded(text@, w as nat));
}

/// The decimal digits of `n`.
pub fn decimal_string(n: u64) -> (r: String)
    ensures
        r@ == decimal(n as nat),
{
    let mut s = String::new();
    push_decimal(&mut s, n);
    assert(s@ =~= decimal(n as nat));
    s
}

/// The width of the id column: the digits of the largest id, at least 2.
pub fn id_width(tasks: &[Task]) -> (w: usize)
    ensures
        w == id_column(views(tasks@)),
{
    let ghost all = views(tasks@);
    let mut max: u64 = 0;
    let mut i: usize = 0;
    assert(all.take(0) =~= Seq::<TaskView>::empty());
    while i < tasks.len()
        invariant
            i <= tasks@.len(),
            all == views(tasks@),
            max == max_id(all.take(i as int)),
        decreases tasks@.len() - i,
    {
        assert(all.take(i + 1).drop_last() =~= all.take(i as int));
        assert(all.take(i + 1).last() == tasks@[i as int]@);
        if tasks[i].id > max {
            max = tasks[i].id;
        }
        i = i + 1;
    }
    assert(all.take(tasks@.len() as int) =~= all);
    let digits = decimal_string(max);
    let d = digits.unicode_len();
    if d > 2 {
        d
    } else {
        2
    }
}

fn push_count_noun(s: &mut String, n: usize)
    ensures
        final(s)@ == old(s)@ + decimal(n as nat) + " "@ + noun(n as nat),
{
    push_decimal(s, n as u64);
    if n == 1 {
        s.append(" task");
    } else {
        s.append(" tasks");
    }
    proof {
        reveal_strlit(" task");
        reveal_strlit(" tasks");
        reveal_strlit(" ");
        reveal_strlit("task");
        reveal_strlit("tasks");
    }
    assert(s@ =~= old(s)@ + decimal(n as nat) + " "@ + noun(n as nat));
}

fn count_text(n: usize) -> (r: String)
    ensures
        r@ == count_line(n as nat),
{
    let mut s = String::new();
    push_count_noun(&mut s, n);
    s.append(".");
    assert(s@ =~= count_line(n as nat));
    s
}

/// The header, the separator and the rows of a listing, then an empty line
/// and the count; `0 tasks.` alone when there is nothing to list.
fn listing(tasks: &[Task], full: bool) -> (r: Vec<String>)
    ensures
        lines_text(r@) == if full {
            full_text(views(tasks@))
        } else {
            pending_text(views(tasks@))
        },
{
    let ghost all = views(tasks@);
    let mut lines: Vec<String> = Vec::new();
    if tasks.len() == 0 {
        lines.push(String::from_str("0 tasks."));
        assert(lines_text(lines@) =~= seq!["0 tasks."@]);
        return lines;
    }
    let w = id_width(tasks);
    let mut header = String::new();
    push_padded(&mut header, "ID", w);
    let mut rule = String::new();
    push_repeated(&mut rule, '-', w);
    if full {
        header.append(" \u{2713} Description");
        rule.append(" - -----------");
    } else {
        header.append(" Description");
        rule.append(" -----------");
    }
    lines.push(header);
    lines.push(rule);
    let mut i: usize = 0;
    while i < tasks.len()
        invariant
            i <= tasks@.len(),
            all == views(tasks@),
            w == id_column(all),
            lines@.len() == 2 + i,
            lines@[0]@ == if full {
                padded("ID"@, w as nat) + " \u{2713} Description"@
            } else {
                padded("ID"@, w as nat) + " Description"@
            },
            lines@[1]@ == if full {
                repeated('-', w as nat) + " - -----------"@
            } else {
                repeated('-', w as nat) + " -----------"@
            },
            forall|j: int|
                0 <= j < i ==> #[trigger] lines@[2 + j]@ == if full {
                    full_row(all[j], w as nat)
                } else {
                    pending_row(all[j], w as nat)
                },
        decreases tasks@.len() - i,
    {
        let t = &tasks[i];
        assert(all[i as int] == t@);
        let mut row = String::new();
        let id = decimal_string(t.id);
        push_padded(&mut row, id.as_str(), w);
        row.append(" ");
        if full {
            if t.completed {
                row.append("\u{2713}");
            } else {
                row.append(" ");
            }
            row.append(" ");
        }
        row.append(t.description.as_str());
        if full {
            assert(row@ =~= full_row(all[i as int], w as nat));
        } else {
            assert(row@ =~= pending_row(all[i as int], w as nat));
        }
        lines.push(row);
        i = i + 1;
    }
    lines.push(String::new());
    lines.push(count_text(tasks.len()));
    proof {
        let n = tasks@.len();
        assert(all.len() == n);
        let expected = if full {
            full_text(all)
        } else {
            pending_text(all)
        };
        assert(expected.len() == n + 4);
        assert(lines_text(lines@).len() == n + 4);
        assert forall|j: int| 0 <= j < n + 4 implies #[trigger] lines_text(lines@)[j] == expected[j] by {
            assert(lines_text(lines@)[j] == lines@[j]@);
            if 2 <= j < n + 2 {
                assert(lines@[2 + (j - 2)]@ == if full {
                    full_row(all[j - 2], w as nat)
                } else {
                    pending_row(all[j - 2], w as nat)
                });
            }
        }
    }
    if full {
        assert(lines_text(lines@) =~= full_text(all));
    } else {
        assert(lines_text(lines@) =~= pending_text(all));
    }
    lines
}

/// The lines that list pending tasks.
pub fn pending_lines(tasks: &[Task]) -> (r: Vec<String>)
    ensures
        lines_text(r@) == pending_text(views(tasks@)),
{
    listing(tasks, false)
}

/// The lines that list all tasks, with a check mark for the completed ones.
pub fn full_lines(tasks: &[Task]) -> (r: Vec<String>)
    ensures
        lines_text(r@) == full_text(views(tasks@)),
{
    listing(tasks, true)
}

/// `Created task 1.`
pub fn created_message(id: u64) -> (r: String)
    ensures
        r@ == created_line(id),
{
    let mut s = String::from_str("Created task ");
    push_decimal(&mut s, id);
    s.append(".");
    s
}

/// `Updated task 1.`
pub fn updated_message(id: u64) -> (r: String)
    ensures
        r@ == updated_line(id),
{
    let mut s = String::from_str("Updated task ");
    push_decimal(&mut s, id);
    s.append(".");
    s
}

/// `Marked 2 tasks done.` or `Marked 1 task undone.`
pub fn marked_message(completed: bool, n: usize) -> (r: String)
    ensures
        r@ == marked_line(completed, n as nat),
{
    let mut s = String::from_str("Marked ");
    push_count_noun(&mut s, n);
    if completed {
        s.append(" done.");
    } else {
        s.append(" undone.");
    }
    proof {
        reveal_strlit(" done.");
        reveal_strlit(" undone.");
        reveal_strlit(" done");
        reveal_strlit(" undone");
        reveal_strlit(".");
    }
    assert(s@ =~= marked_line(completed, n as nat));
    s
}

/// `Removed 2 tasks.`
pub fn removed_message(n: usize) -> (r: String)
    ensures
        r@ == removed_line(n as nat),
{
    let mut s = String::from_str("Removed ");
    push_count_noun(&mut s, n);
    s.append(".");
    s
}

} // verus!

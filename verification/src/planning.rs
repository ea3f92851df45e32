//! The planning tools' pure logic: validating a todo's status and laying a
//! todo list out for the reader. The store that keeps plans and todos lives
//! outside this crate.

use vstd::prelude::*;

use crate::text::{concat_string, spec_decimal, str_eq, u64_to_string};

verus! {

/// The statuses a todo may take.
pub open spec fn valid_status(status: Seq<char>) -> bool {
    status == "pending"@ || status == "in_progress"@ || status == "completed"@
}

pub fn is_valid_todo_status(status: &str) -> (r: bool)
    ensures
        r == valid_status(status@),
{
    str_eq(status, "pending") || str_eq(status, "in_progress") || str_eq(status, "completed")
}

/// The checkbox drawn for a status.
pub open spec fn status_icon(status: Seq<char>) -> Seq<char> {
    if status == "completed"@ {
        "[x]"@
    } else if status == "in_progress"@ {
        "[~]"@
    } else {
        "[ ]"@
    }
}

/// One listed todo: its id, its checkbox, its text.
pub open spec fn todo_row(id: int, content: Seq<char>, status: Seq<char>) -> Seq<char> {
    "#"@ + spec_decimal(id) + " "@ + status_icon(status) + " "@ + content
}

/// The rows of the todos `[0, upto)`, each on its own line.
pub open spec fn todo_rows(todos: Seq<(u64, String, String)>, upto: int) -> Seq<char>
    decreases upto,
{
    if upto <= 0 {
        Seq::empty()
    } else {
        todo_rows(todos, upto - 1) + (if upto > 1 {
            "\n"@
        } else {
            Seq::empty()
        }) + todo_row(todos[upto - 1].0 as int, todos[upto - 1].1@, todos[upto - 1].2@)
    }
}

/// Lay the todo list out, one numbered row per item.
pub fn format_todo_list(todos: &Vec<(u64, String, String)>) -> (r: String)
    ensures
        r@ == todo_rows(todos@, todos@.len() as int),
{
    let mut out = String::new();
    let mut i: usize = 0;
    while i < todos.len()
        invariant
            i <= todos@.len(),
            out@ == todo_rows(todos@, i as int),
        decreases todos@.len() - i,
    {
        if i > 0 {
            out = concat_string(out, "\n");
        }
        out = concat_string(out, "#");
        let digits = u64_to_string(todos[i].0);
        out = concat_string(out, digits.as_str());
        out = concat_string(out, " ");
        let status = &todos[i].2;
        let icon: &str = if str_eq(status.as_str(), "completed") {
            "[x]"
        } else if str_eq(status.as_str(), "in_progress") {
            "[~]"
        } else {
            "[ ]"
        };
        out = concat_string(out, icon);
        out = concat_string(out, " ");
        out = concat_string(out, todos[i].1.as_str());
        i += 1;
    }
    out
}

} // verus!

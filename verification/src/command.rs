//! Parsing of command lines and the decision step behind the line-based
//! front end: verb recognition, one-based position conversion, and the
//! dispatch of one parsed command against the store.

use vstd::prelude::*;
use vstd::string::{StrSliceExecFns, StringExecFns};

use crate::digits::parse_numeral;
use crate::store::{insert_view, remove_view, toggle_view, ToDos};
use crate::strutil::str_eq;

verus! {

/// A recognized command verb.
#[derive(Debug, Clone, Copy, PartialEq, Eq, Structural)]
pub enum Action {
    Add,
    Update,
    Remove,
    Exit,
    Help,
}

/// A parsed command line: the verb and the rest of the line.
#[derive(Debug)]
pub struct NewArgs {
    pub action: Action,
    pub suffix: String,
}

/// The verb named by a word, if any.
pub open spec fn action_of(s: Seq<char>) -> Option<Action> {
    if s == "add"@ {
        Some(Action::Add)
    } else if s == "update"@ {
        Some(Action::Update)
    } else if s == "remove"@ {
        Some(Action::Remove)
    } else if s == "exit"@ {
        Some(Action::Exit)
    } else if s == "help"@ {
        Some(Action::Help)
    } else {
        None
    }
}

/// Recognizes a command verb; anything else is rejected.
pub fn get_action(action_str: &str) -> (r: Result<Action, &'static str>)
    ensures
        match r {
            Ok(a) => action_of(action_str@) == Some(a),
            Err(m) => action_of(action_str@) is None && m@ == "Invalid Action!"@,
        },
{
    if str_eq(action_str, "add") {
        Ok(Action::Add)
    } else if str_eq(action_str, "update") {
        Ok(Action::Update)
    } else if str_eq(action_str, "remove") {
        Ok(Action::Remove)
    } else if str_eq(action_str, "exit") {
        Ok(Action::Exit)
    } else if str_eq(action_str, "help") {
        Ok(Action::Help)
    } else {
        Err("Invalid Action!")
    }
}

/// Position of the first space at or after `i`.
pub open spec fn find_space(s: Seq<char>, i: int) -> Option<int>
    decreases s.len() - i,
    when 0 <= i <= s.len()
{
    if i >= s.len() {
        None
    } else if s[i] == ' ' {
        Some(i)
    } else {
        find_space(s, i + 1)
    }
}

/// The word before the first space, or the whole line when it has none.
pub open spec fn head_of(s: Seq<char>) -> Seq<char> {
    match find_space(s, 0) {
        Some(k) => s.subrange(0, k),
        None => s,
    }
}

/// Everything after the first space, or empty when the line has none.
pub open spec fn tail_of(s: Seq<char>) -> Seq<char> {
    match find_space(s, 0) {
        Some(k) => s.subrange(k + 1, s.len() as int),
        None => Seq::empty(),
    }
}

/// Splits a line at its first space into a verb and the rest, and recognizes
/// the verb; a line without a space is all verb, with an empty rest.
pub fn parse_input(line: &str) -> (r: Result<NewArgs, &'static str>)
    ensures
        match r {
            Ok(args) => action_of(head_of(line@)) == Some(args.action) && args.suffix@ == tail_of(
                line@,
            ),
            Err(m) => action_of(head_of(line@)) is None && m@ == "Invalid Action!"@,
        },
{
    let n = line.unicode_len();
    let mut i: usize = 0;
    loop
        invariant
            0 <= i <= n,
            n == line@.len(),
            find_space(line@, 0) == find_space(line@, i as int),
        decreases n - i,
    {
        if i == n {
            return match get_action(line) {
                Ok(a) => Ok(NewArgs { action: a, suffix: String::new() }),
                Err(m) => Err(m),
            };
        }
        if line.get_char(i) == ' ' {
            let head = line.substring_char(0, i);
            let rest = line.substring_char(i + 1, n);
            return match get_action(head) {
                Ok(a) => Ok(NewArgs { action: a, suffix: String::from_str(rest) }),
                Err(m) => Err(m),
            };
        }
        i = i + 1;
    }
}

/// The value of a whole string read as a decimal numeral: an optional leading
/// plus sign, then at least one digit, the value fitting the machine word,
/// and nothing after the digits.
pub open spec fn numeral_of(s: Seq<char>) -> Option<nat> {
    let start: int = if s.len() > 0 && s[0] == '+' {
        1
    } else {
        0
    };
    match parse_numeral(s, start) {
        Some(vj) => if vj.1 == s.len() {
            Some(vj.0)
        } else {
            None
        },
        None => None,
    }
}

/// Converts a one-based user-facing position into a zero-based index,
/// rejecting anything that is not a numeral and any position outside
/// `[1, list_size]`.
pub fn convert_position_to_index(position: &str, list_size: usize) -> (r: Result<
    usize,
    &'static str,
>)
    ensures
        match r {
            Ok(idx) => numeral_of(position@) == Some((idx + 1) as nat) && idx < list_size,
            Err(m) => match numeral_of(position@) {
                Some(p) => (p < 1 || p > list_size) && m@ == "Not a valid index"@,
                None => m@ == "Not a valid Number"@,
            },
        },
{
    let n = position.unicode_len();
    let start: usize = if n > 0 && position.get_char(0) == '+' {
        1
    } else {
        0
    };
    match crate::digits::scan_numeral(position, start) {
        None => Err("Not a valid Number"),
        Some((v, j)) => {
            if j != n {
                Err("Not a valid Number")
            } else if v < 1 || v > list_size {
                Err("Not a valid index")
            } else {
                Ok(v - 1)
            }
        },
    }
}

/// The help text shown for unrecognized or malformed input.
pub fn get_help_string() -> (r: &'static str)
    ensures
        r@
            == "This are valid inputs:\n add \"todo\", update \"number\", remove \"number\" , exit or help"@,
{
    "This are valid inputs:\n add \"todo\", update \"number\", remove \"number\" , exit or help"
}

/// What the front end should do after one command step.
#[derive(Debug, Clone, Copy)]
pub enum Reply {
    /// The list changed; persist it and show it.
    Changed,
    /// The command was rejected with a message; the list is unchanged.
    Rejected(&'static str),
    /// Show the help text.
    Help,
    /// Leave the loop.
    Bye,
}

/// Applies one parsed command to the store and says what the front end
/// should do next. Add appends; Update and Remove convert the one-based
/// suffix and toggle or delete, rejecting a bad position without touching
/// the list; Help and Exit change nothing.
pub fn handle_args(args: NewArgs, todos: &mut ToDos) -> (r: Reply)
    requires
        old(todos).wf(),
    ensures
        final(todos).wf(),
        match args.action {
            Action::Add => r is Changed && final(todos)@ == insert_view(
                old(todos)@,
                args.suffix@,
            ),
            Action::Update => match numeral_of(args.suffix@) {
                Some(p) => if 1 <= p <= old(todos)@.len() {
                    r is Changed && final(todos)@ == toggle_view(old(todos)@, p - 1)
                } else {
                    r is Rejected && final(todos)@ == old(todos)@
                },
                None => r is Rejected && final(todos)@ == old(todos)@,
            },
            Action::Remove => match numeral_of(args.suffix@) {
                Some(p) => if 1 <= p <= old(todos)@.len() {
                    r is Changed && final(todos)@ == remove_view(old(todos)@, p - 1)
                } else {
                    r is Rejected && final(todos)@ == old(todos)@
                },
                None => r is Rejected && final(todos)@ == old(todos)@,
            },
            Action::Help => r is Help && final(todos)@ == old(todos)@,
            Action::Exit => r is Bye && final(todos)@ == old(todos)@,
        },
{
    match args.action {
        Action::Add => {
            todos.insert(args.suffix);
            Reply::Changed
        },
        Action::Update => match convert_position_to_index(
            args.suffix.as_str(),
            todos.todos.len(),
        ) {
            Ok(index) => {
                let _ = todos.update(index);
                Reply::Changed
            },
            Err(m) => Reply::Rejected(m),
        },
        Action::Remove => match convert_position_to_index(
            args.suffix.as_str(),
            todos.todos.len(),
        ) {
            Ok(index) => {
                let _ = todos.remove(index);
                Reply::Changed
            },
            Err(m) => Reply::Rejected(m),
        },
        Action::Help => Reply::Help,
        Action::Exit => Reply::Bye,
    }
}

} // verus!

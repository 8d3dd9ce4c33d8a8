//! The command grammar of the directory service.
//!
//! One line of input parses to exactly one [`Command`]. The grammar, over
//! whitespace-separated tokens, is
//!
//! ```text
//! add <employee> to <department>
//! retrieve all
//! retrieve <department>
//! quit
//! ```
//!
//! with strict arity: extra or missing tokens, in any rule, give
//! [`Command::Unknown`]. Parsing is total and never fails.

use vstd::prelude::*;
use crate::tokenizer::{tokens, tokenize};

verus! {

/// A parsed command, holding its string arguments.
pub enum Command {
    /// Record an employee under a department.
    Add(String, String),
    /// Ask for one department's employees.
    Retrieve(String),
    /// Ask for every department's employees.
    RetrieveAll,
    /// End the session.
    Quit,
    /// Anything that matches no rule of the grammar.
    Unknown,
}

/// The mathematical shape of a command: the same variants over character
/// sequences.
pub enum CommandModel {
    Add(Seq<char>, Seq<char>),
    Retrieve(Seq<char>),
    RetrieveAll,
    Quit,
    Unknown,
}

impl View for Command {
    type V = CommandModel;

    open spec fn view(&self) -> CommandModel {
        match self {
            Command::Add(e, d) => CommandModel::Add(e@, d@),
            Command::Retrieve(d) => CommandModel::Retrieve(d@),
            Command::RetrieveAll => CommandModel::RetrieveAll,
            Command::Quit => CommandModel::Quit,
            Command::Unknown => CommandModel::Unknown,
        }
    }
}

/// The token sequences that the `add` rule accepts.
pub open spec fn is_add_form(toks: Seq<Seq<char>>) -> bool {
    toks.len() == 4 && toks[0] == "add"@ && toks[2] == "to"@
}

/// The token sequences that the `retrieve all` rule accepts.
pub open spec fn is_retrieve_all_form(toks: Seq<Seq<char>>) -> bool {
    toks.len() == 2 && toks[0] == "retrieve"@ && toks[1] == "all"@
}

/// The token sequences that the single-department `retrieve` rule accepts.
pub open spec fn is_retrieve_form(toks: Seq<Seq<char>>) -> bool {
    toks.len() == 2 && toks[0] == "retrieve"@ && toks[1] != "all"@
}

/// The token sequences that the `quit` rule accepts.
pub open spec fn is_quit_form(toks: Seq<Seq<char>>) -> bool {
    toks.len() == 1 && toks[0] == "quit"@
}

/// Whether some rule of the grammar accepts the tokens.
pub open spec fn grammar_matches(toks: Seq<Seq<char>>) -> bool {
    ||| is_add_form(toks)
    ||| is_retrieve_all_form(toks)
    ||| is_retrieve_form(toks)
    ||| is_quit_form(toks)
}

/// The command that a token sequence parses to.
pub open spec fn spec_parse(toks: Seq<Seq<char>>) -> CommandModel {
    if is_add_form(toks) {
        CommandModel::Add(toks[1], toks[3])
    } else if is_retrieve_all_form(toks) {
        CommandModel::RetrieveAll
    } else if is_retrieve_form(toks) {
        CommandModel::Retrieve(toks[1])
    } else if is_quit_form(toks) {
        CommandModel::Quit
    } else {
        CommandModel::Unknown
    }
}

/// Whether the token equals the literal keyword.
fn is_keyword(tok: &String, kw: &str) -> (r: bool)
    ensures
        r == (tok@ == kw@),
{
    let owned = String::from_str(kw);
    *tok == owned
}

/// Parses one line of raw text into the command it denotes.
///
/// The line is split on whitespace runs and the tokens are matched against
/// the grammar; a line that no rule accepts gives `Command::Unknown`.
pub fn parse(line: &str) -> (c: Command)
    ensures
        c@ == spec_parse(tokens(line@)),
{
    let toks = tokenize(line);
    let n = toks.len();
    if n == 4 && is_keyword(&toks[0], "add") && is_keyword(&toks[2], "to") {
        let mut toks = toks;
        let department = toks.remove(3);
        let employee = toks.remove(1);
        Command::Add(employee, department)
    } else if n == 2 && is_keyword(&toks[0], "retrieve") && is_keyword(&toks[1], "all") {
        Command::RetrieveAll
    } else if n == 2 && is_keyword(&toks[0], "retrieve") {
        let mut toks = toks;
        let department = toks.remove(1);
        Command::Retrieve(department)
    } else if n == 1 && is_keyword(&toks[0], "quit") {
        Command::Quit
    } else {
        Command::Unknown
    }
}

} // verus!

//! Applying commands to the directory, and running whole sessions.
//!
//! Executing a command is a pure transformation of the pair
//! (command, directory): only `Add` changes the store, and every command
//! produces exactly one [`Response`], the value behind the console output.
//! Nothing here can fail: a missing department and an unknown command are
//! ordinary responses, not errors.
//!
//! A session processes lines in order and stops at the first line that
//! parses to `quit`; [`lemma_quit_stops`] states that the lines after a
//! `quit` never reach the store.

use vstd::prelude::*;
use crate::command::{Command, CommandModel, spec_parse, grammar_matches, parse};
use crate::directory::{
    Directory,
    DirRep,
    rep_add,
    rep_employees,
    rep_has,
    rep_keys,
};
use crate::order::sorted_strs;
use crate::tokenizer::tokens;

verus! {

/// What executing one command answers; the caller renders it to the console.
pub enum Response {
    /// An employee was recorded; nothing is printed for it.
    Added,
    /// One department with its employees sorted ascending.
    Department { name: String, employees: Vec<String> },
    /// The department asked for was never added to.
    NotFound { name: String },
    /// Every department, sorted ascending, each with its employees sorted.
    AllDepartments { departments: Vec<(String, Vec<String>)> },
    /// The session is over.
    Terminate,
    /// The input matched no rule of the grammar.
    Unknown,
}

/// The mathematical shape of a response.
pub enum ResponseModel {
    Added,
    Department { name: Seq<char>, employees: Seq<Seq<char>> },
    NotFound { name: Seq<char> },
    AllDepartments { departments: Seq<(Seq<char>, Seq<Seq<char>>)> },
    Terminate,
    Unknown,
}

impl View for Response {
    type V = ResponseModel;

    open spec fn view(&self) -> ResponseModel {
        match self {
            Response::Added => ResponseModel::Added,
            Response::Department { name, employees } => ResponseModel::Department {
                name: name@,
                employees: employees.deep_view(),
            },
            Response::NotFound { name } => ResponseModel::NotFound { name: name@ },
            Response::AllDepartments { departments } => ResponseModel::AllDepartments {
                departments: departments.deep_view(),
            },
            Response::Terminate => ResponseModel::Terminate,
            Response::Unknown => ResponseModel::Unknown,
        }
    }
}

impl DeepView for Response {
    type V = ResponseModel;

    open spec fn deep_view(&self) -> ResponseModel {
        self@
    }
}

/// The directory model after one command: `Add` records its employee, every
/// other command reads only.
pub open spec fn step_rep(rep: DirRep, c: CommandModel) -> DirRep {
    match c {
        CommandModel::Add(e, k) => rep_add(rep, e, k),
        _ => rep,
    }
}

/// `out` holds the same strings as `src`, sorted ascending.
pub open spec fn sorted_copy_ok(src: Seq<Seq<char>>, out: Seq<Seq<char>>) -> bool {
    sorted_strs(out) && out.to_multiset() == src.to_multiset()
}

/// `ds` lists every department of `rep` exactly once, sorted ascending,
/// each with a sorted copy of its employees.
pub open spec fn all_departments_ok(rep: DirRep, ds: DirRep) -> bool {
    &&& ds.len() == rep.len()
    &&& sorted_strs(rep_keys(ds))
    &&& rep_keys(ds).to_multiset() == rep_keys(rep).to_multiset()
    &&& forall|i: int|
        0 <= i < ds.len() ==> sorted_copy_ok(
            rep_employees(rep, (#[trigger] ds[i]).0),
            ds[i].1,
        )
}

/// The response owed to command `c` against the directory model `rep`.
pub open spec fn response_ok(rep: DirRep, c: CommandModel, r: ResponseModel) -> bool {
    match c {
        CommandModel::Add(_, _) => r is Added,
        CommandModel::Retrieve(dep) => if rep_has(rep, dep) {
            match r {
                ResponseModel::Department { name, employees } => name == dep && sorted_copy_ok(
                    rep_employees(rep, dep),
                    employees,
                ),
                _ => false,
            }
        } else {
            r == ResponseModel::NotFound { name: dep }
        },
        CommandModel::RetrieveAll => match r {
            ResponseModel::AllDepartments { departments } => all_departments_ok(rep, departments),
            _ => false,
        },
        CommandModel::Quit => r is Terminate,
        CommandModel::Unknown => r is Unknown,
    }
}

/// Applies one command to the directory and returns the response owed for
/// it. Only `Add` changes the directory.
pub fn execute(c: Command, dir: &mut Directory) -> (r: Response)
    requires
        old(dir).wf(),
    ensures
        final(dir).wf(),
        final(dir).rep() == step_rep(old(dir).rep(), c@),
        response_ok(old(dir).rep(), c@, r@),
{
    match c {
        Command::Add(employee, department) => {
            dir.add(employee, department);
            Response::Added
        },
        Command::Retrieve(department) => {
            match dir.retrieve(department.as_str()) {
                Some(emps) => Response::Department { name: department, employees: emps },
                None => Response::NotFound { name: department },
            }
        },
        Command::RetrieveAll => Response::AllDepartments { departments: dir.retrieve_all() },
        Command::Quit => Response::Terminate,
        Command::Unknown => Response::Unknown,
    }
}

/// A line that no rule of the grammar accepts parses to `Unknown`, and
/// executing `Unknown` leaves the directory exactly as it was.
pub proof fn lemma_unknown_is_harmless(rep: DirRep, toks: Seq<Seq<char>>)
    requires
        !grammar_matches(toks),
    ensures
        spec_parse(toks) == CommandModel::Unknown,
        step_rep(rep, spec_parse(toks)) == rep,
{
}

/// The directory model after a session: the lines are parsed and applied in
/// order, and the first line parsing to `quit` ends the session.
pub open spec fn spec_session(rep: DirRep, lines: Seq<Seq<char>>) -> DirRep
    decreases lines.len(),
{
    if lines.len() == 0 {
        rep
    } else {
        let c = spec_parse(tokens(lines[0]));
        if c is Quit {
            rep
        } else {
            spec_session(step_rep(rep, c), lines.drop_first())
        }
    }
}

/// How many lines of a session are processed: everything up to and
/// including the first line parsing to `quit`, or all of them.
pub open spec fn processed_count(lines: Seq<Seq<char>>) -> int
    decreases lines.len(),
{
    if lines.len() == 0 {
        0
    } else if spec_parse(tokens(lines[0])) is Quit {
        1
    } else {
        1 + processed_count(lines.drop_first())
    }
}

/// When no line parses to `quit`, every line is processed.
proof fn lemma_no_quit_count(lines: Seq<Seq<char>>)
    requires
        forall|j: int| 0 <= j < lines.len() ==> !(spec_parse(tokens(#[trigger] lines[j])) is Quit),
    ensures
        processed_count(lines) == lines.len(),
    decreases lines.len(),
{
    if lines.len() > 0 {
        assert forall|j: int|
            0 <= j < lines.drop_first().len() implies !(spec_parse(
            tokens(#[trigger] lines.drop_first()[j]),
        ) is Quit) by {
            assert(lines.drop_first()[j] == lines[j + 1]);
        }
        lemma_no_quit_count(lines.drop_first());
    }
}

/// Extending a quit-free session by one line processes that line last.
proof fn lemma_session_snoc(rep: DirRep, lines: Seq<Seq<char>>, x: Seq<char>)
    requires
        forall|j: int| 0 <= j < lines.len() ==> !(spec_parse(tokens(#[trigger] lines[j])) is Quit),
    ensures
        spec_session(rep, lines.push(x)) == if spec_parse(tokens(x)) is Quit {
            spec_session(rep, lines)
        } else {
            step_rep(spec_session(rep, lines), spec_parse(tokens(x)))
        },
        processed_count(lines.push(x)) == lines.len() + 1,
    decreases lines.len(),
{
    let full = lines.push(x);
    if lines.len() == 0 {
        assert(full[0] == x);
        assert(full.drop_first() =~= Seq::<Seq<char>>::empty());
        assert(processed_count(Seq::<Seq<char>>::empty()) == 0);
        assert(processed_count(full) == 1);
        if !(spec_parse(tokens(x)) is Quit) {
            let repx = step_rep(rep, spec_parse(tokens(x)));
            assert(spec_session(repx, Seq::<Seq<char>>::empty()) == repx);
        }
    } else {
        assert(full[0] == lines[0]);
        assert(full.drop_first() =~= lines.drop_first().push(x));
        assert forall|j: int|
            0 <= j < lines.drop_first().len() implies !(spec_parse(
            tokens(#[trigger] lines.drop_first()[j]),
        ) is Quit) by {
            assert(lines.drop_first()[j] == lines[j + 1]);
        }
        let c0 = spec_parse(tokens(lines[0]));
        assert(!(c0 is Quit));
        lemma_session_snoc(step_rep(rep, c0), lines.drop_first(), x);
        assert(spec_session(rep, full) == spec_session(step_rep(rep, c0), full.drop_first()));
        assert(spec_session(rep, lines) == spec_session(step_rep(rep, c0), lines.drop_first()));
        assert(processed_count(full) == 1 + processed_count(full.drop_first()));
        assert(processed_count(lines) == 1 + processed_count(lines.drop_first()));
    }
}

/// Once a line parses to `quit`, the lines after it never touch the
/// directory: the whole session leaves the store exactly where the session
/// cut off at that line leaves it.
pub proof fn lemma_quit_stops(rep: DirRep, lines: Seq<Seq<char>>, i: int)
    requires
        0 <= i < lines.len(),
        spec_parse(tokens(lines[i])) is Quit,
    ensures
        spec_session(rep, lines) == spec_session(rep, lines.take(i + 1)),
    decreases i,
{
    let cut = lines.take(i + 1);
    assert(cut[0] == lines[0]);
    if spec_parse(tokens(lines[0])) is Quit {
    } else {
        assert(i > 0);
        assert(lines.drop_first()[i - 1] == lines[i]);
        lemma_quit_stops(step_rep(rep, spec_parse(tokens(lines[0]))), lines.drop_first(), i - 1);
        assert(lines.drop_first().take(i) =~= cut.drop_first());
    }
}

/// Runs a whole session: parses and executes each line in order, answering
/// one response per processed line, and stops after the first line that
/// parses to `quit`. Lines after that first `quit` are never executed.
pub fn run_session(lines: &Vec<String>, dir: &mut Directory) -> (r: Vec<Response>)
    requires
        old(dir).wf(),
    ensures
        final(dir).wf(),
        final(dir).rep() == spec_session(old(dir).rep(), lines.deep_view()),
        r@.len() == processed_count(lines.deep_view()),
        forall|j: int|
            0 <= j < r@.len() ==> response_ok(
                spec_session(old(dir).rep(), lines.deep_view().take(j)),
                spec_parse(tokens(lines.deep_view()[j])),
                #[trigger] r.deep_view()[j],
            ),
{
    let ghost lv = lines.deep_view();
    let ghost rep0 = dir.rep();
    let n = lines.len();
    let mut out: Vec<Response> = Vec::new();
    let mut i: usize = 0;
    proof {
        assert(lv.take(0) =~= Seq::<Seq<char>>::empty());
    }
    loop
        invariant
            dir.wf(),
            i <= n,
            n == lv.len(),
            lv == lines.deep_view(),
            rep0 == old(dir).rep(),
            out@.len() == i,
            forall|j: int| 0 <= j < i ==> !(spec_parse(tokens(#[trigger] lv[j])) is Quit),
            dir.rep() == spec_session(rep0, lv.take(i as int)),
            forall|j: int|
                0 <= j < i ==> response_ok(
                    spec_session(rep0, lv.take(j)),
                    spec_parse(tokens(lv[j])),
                    #[trigger] out.deep_view()[j],
                ),
        ensures
            dir.wf(),
            dir.rep() == spec_session(rep0, lv),
            out@.len() == processed_count(lv),
            forall|j: int|
                0 <= j < out@.len() ==> response_ok(
                    spec_session(rep0, lv.take(j)),
                    spec_parse(tokens(lv[j])),
                    #[trigger] out.deep_view()[j],
                ),
        decreases n - i,
    {
        if i >= n {
            proof {
                assert(lv.take(n as int) =~= lv);
                lemma_no_quit_count(lv);
            }
            break;
        }
        let line = &lines[i];
        let c = parse(line.as_str());
        proof {
            assert(lv[i as int] == lines@[i as int]@);
        }
        let is_quit = matches!(c, Command::Quit);
        let resp = execute(c, dir);
        let ghost pre_out = out.deep_view();
        out.push(resp);
        proof {
            assert(out.deep_view() =~= pre_out.push(resp@));
            assert(lv.take(i as int + 1) =~= lv.take(i as int).push(lv[i as int]));
            lemma_session_snoc(rep0, lv.take(i as int), lv[i as int]);
        }
        if is_quit {
            proof {
                lemma_quit_stops(rep0, lv, i as int);
                assert(spec_session(rep0, lv.take(i as int + 1)) == spec_session(
                    rep0,
                    lv.take(i as int),
                ));
                assert(processed_count(lv) == i + 1) by {
                    lemma_count_first_quit(lv, i as int);
                }
            }
            return out;
        }
        i = i + 1;
    }
    out
}

/// With no earlier `quit`, a session's processed lines end at the first
/// `quit` inclusive.
proof fn lemma_count_first_quit(lines: Seq<Seq<char>>, i: int)
    requires
        0 <= i < lines.len(),
        forall|j: int| 0 <= j < i ==> !(spec_parse(tokens(#[trigger] lines[j])) is Quit),
        spec_parse(tokens(lines[i])) is Quit,
    ensures
        processed_count(lines) == i + 1,
    decreases i,
{
    if i > 0 {
        assert forall|j: int|
            0 <= j < i - 1 implies !(spec_parse(tokens(#[trigger] lines.drop_first()[j])) is Quit) by {
            assert(lines.drop_first()[j] == lines[j + 1]);
        }
        assert(lines.drop_first()[i - 1] == lines[i]);
        lemma_count_first_quit(lines.drop_first(), i - 1);
    }
}

} // verus!

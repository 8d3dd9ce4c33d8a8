//! The employee directory: a mapping from department names to the employees
//! recorded under them.
//!
//! A department exists exactly when an add has targeted it; departments are
//! never pre-populated or removed, and employee names may repeat. Writes keep
//! insertion order; reads return sorted copies and never change the store.
//!
//! The mathematical model of a directory is a sequence of
//! `(department, employees)` pairs with pairwise-distinct departments, in the
//! order the departments were first added.

use vstd::prelude::*;
use crate::order::{sorted_strs, sort_strings, str_eq};

verus! {

/// The model of a directory: department names paired with their employee
/// lists, in first-add order.
pub type DirRep = Seq<(Seq<char>, Seq<Seq<char>>)>;

/// The department names of the model, in order.
pub open spec fn rep_keys(rep: DirRep) -> Seq<Seq<char>> {
    rep.map_values(|e: (Seq<char>, Seq<Seq<char>>)| e.0)
}

/// Whether the model holds the department `k`.
pub open spec fn rep_has(rep: DirRep, k: Seq<char>) -> bool {
    rep_keys(rep).contains(k)
}

/// The position of the first pair holding the department `k`.
pub open spec fn rep_index_of(rep: DirRep, k: Seq<char>) -> int
    decreases rep.len(),
{
    if rep.len() == 0 {
        0
    } else if rep[0].0 == k {
        0
    } else {
        1 + rep_index_of(rep.drop_first(), k)
    }
}

/// The employees recorded under the department `k`, in insertion order;
/// empty when the department is absent.
pub open spec fn rep_employees(rep: DirRep, k: Seq<char>) -> Seq<Seq<char>> {
    if rep_has(rep, k) {
        rep[rep_index_of(rep, k)].1
    } else {
        Seq::empty()
    }
}

/// A well-formed model holds each department at most once.
pub open spec fn rep_wf(rep: DirRep) -> bool {
    forall|i: int, j: int|
        0 <= i < j < rep.len() ==> (#[trigger] rep[i]).0 != (#[trigger] rep[j]).0
}

/// The model after recording employee `e` under department `k`: the pair of
/// an existing department grows by `e` at the end, and an absent department
/// is appended with `e` as its one employee.
pub open spec fn rep_add(rep: DirRep, e: Seq<char>, k: Seq<char>) -> DirRep {
    if rep_has(rep, k) {
        let i = rep_index_of(rep, k);
        rep.update(i, (k, rep[i].1.push(e)))
    } else {
        rep.push((k, seq![e]))
    }
}

/// Within bounds, the first pair holding `k` is at `rep_index_of(rep, k)`,
/// and no earlier pair holds it.
pub proof fn lemma_index_of(rep: DirRep, k: Seq<char>)
    requires
        rep_has(rep, k),
    ensures
        0 <= rep_index_of(rep, k) < rep.len(),
        rep[rep_index_of(rep, k)].0 == k,
        forall|j: int| 0 <= j < rep_index_of(rep, k) ==> (#[trigger] rep[j]).0 != k,
    decreases rep.len(),
{
    let i = choose|i: int| 0 <= i < rep_keys(rep).len() && rep_keys(rep)[i] == k;
    if rep[0].0 != k {
        assert(rep_keys(rep.drop_first()).contains(k)) by {
            assert(i != 0);
            assert(rep_keys(rep.drop_first())[i - 1] == k);
        }
        lemma_index_of(rep.drop_first(), k);
        let r = rep_index_of(rep.drop_first(), k);
        assert(rep[1 + r] == rep.drop_first()[r]);
        assert forall|j: int| 0 <= j < 1 + r implies (#[trigger] rep[j]).0 != k by {
            if j > 0 {
                assert(rep.drop_first()[j - 1] == rep[j]);
            }
        }
    }
}

/// A pair holding `k` with no earlier pair holding it stands exactly at
/// `rep_index_of(rep, k)`.
proof fn lemma_first_occurrence(rep: DirRep, k: Seq<char>, i: int)
    requires
        0 <= i < rep.len(),
        rep[i].0 == k,
        forall|j: int| 0 <= j < i ==> (#[trigger] rep[j]).0 != k,
    ensures
        rep_has(rep, k),
        rep_index_of(rep, k) == i,
    decreases rep.len(),
{
    assert(rep_keys(rep)[i] == k);
    if i > 0 {
        assert(rep[0].0 != k);
        assert(rep.drop_first()[i - 1] == rep[i]);
        assert forall|j: int| 0 <= j < i - 1 implies (#[trigger] rep.drop_first()[j]).0 != k by {
            assert(rep.drop_first()[j] == rep[j + 1]);
        }
        lemma_first_occurrence(rep.drop_first(), k, i - 1);
    }
}

/// Two models with the same department names in the same places index each
/// department at the same position.
proof fn lemma_index_of_same_keys(rep1: DirRep, rep2: DirRep, k: Seq<char>)
    requires
        rep1.len() == rep2.len(),
        forall|j: int| 0 <= j < rep1.len() ==> (#[trigger] rep1[j]).0 == (#[trigger] rep2[j]).0,
    ensures
        rep_index_of(rep1, k) == rep_index_of(rep2, k),
    decreases rep1.len(),
{
    if rep1.len() != 0 && rep1[0].0 != k {
        assert forall|j: int|
            0 <= j < rep1.drop_first().len() implies (#[trigger] rep1.drop_first()[j]).0
            == (#[trigger] rep2.drop_first()[j]).0 by {
            assert(rep1.drop_first()[j] == rep1[j + 1]);
            assert(rep2.drop_first()[j] == rep2[j + 1]);
        }
        lemma_index_of_same_keys(rep1.drop_first(), rep2.drop_first(), k);
    }
}

/// Adding keeps the model well-formed.
pub proof fn lemma_add_wf(rep: DirRep, e: Seq<char>, k: Seq<char>)
    requires
        rep_wf(rep),
    ensures
        rep_wf(rep_add(rep, e, k)),
{
    if rep_has(rep, k) {
        lemma_index_of(rep, k);
    } else {
        let rep2 = rep.push((k, seq![e]));
        assert forall|i: int, j: int|
            0 <= i < j < rep2.len() implies (#[trigger] rep2[i]).0 != (#[trigger] rep2[j]).0 by {
            if j == rep.len() {
                assert(rep_keys(rep)[i] == rep[i].0);
            }
        }
    }
}

/// What adding does, department by department: the targeted department's
/// list grows by exactly the one employee at the end — duplicates included —
/// and every other department's list stays as it was. An existing department
/// keeps the department order; a new one is appended to it.
pub proof fn lemma_add_effect(rep: DirRep, e: Seq<char>, k: Seq<char>)
    requires
        rep_wf(rep),
    ensures
        rep_has(rep_add(rep, e, k), k),
        rep_employees(rep_add(rep, e, k), k) == rep_employees(rep, k).push(e),
        forall|k2: Seq<char>|
            k2 != k ==> #[trigger] rep_employees(rep_add(rep, e, k), k2) == rep_employees(
                rep,
                k2,
            ),
        forall|k2: Seq<char>|
            k2 != k ==> (#[trigger] rep_has(rep_add(rep, e, k), k2) == rep_has(rep, k2)),
        rep_keys(rep_add(rep, e, k)) == if rep_has(rep, k) {
            rep_keys(rep)
        } else {
            rep_keys(rep).push(k)
        },
{
    let rep2 = rep_add(rep, e, k);
    if rep_has(rep, k) {
        lemma_index_of(rep, k);
        let i = rep_index_of(rep, k);
        assert(rep_keys(rep2) =~= rep_keys(rep));
        assert forall|j: int| 0 <= j < i implies (#[trigger] rep2[j]).0 != k by {}
        lemma_first_occurrence(rep2, k, i);
        assert(rep_employees(rep2, k) == rep[i].1.push(e));
        assert forall|k2: Seq<char>|
            k2 != k implies #[trigger] rep_employees(rep2, k2) == rep_employees(rep, k2) by {
            assert(rep_has(rep2, k2) == rep_has(rep, k2));
            if rep_has(rep, k2) {
                lemma_index_of(rep, k2);
                lemma_index_of_same_keys(rep, rep2, k2);
                assert(rep_index_of(rep2, k2) != i);
            }
        }
    } else {
        let n = rep.len() as int;
        assert(rep_keys(rep2) =~= rep_keys(rep).push(k));
        assert forall|j: int| 0 <= j < n implies (#[trigger] rep2[j]).0 != k by {
            assert(rep_keys(rep)[j] == rep[j].0);
        }
        assert(rep2[n].0 == k);
        lemma_first_occurrence(rep2, k, n);
        assert(rep_employees(rep2, k) =~= seq![e]);
        assert(rep_employees(rep, k).push(e) =~= seq![e]);
        assert forall|k2: Seq<char>|
            k2 != k implies #[trigger] rep_has(rep2, k2) == rep_has(rep, k2) by {
            if rep_keys(rep2).contains(k2) {
                let i = choose|i: int| 0 <= i < rep_keys(rep2).len() && rep_keys(rep2)[i] == k2;
                assert(i < n);
                assert(rep_keys(rep)[i] == k2);
            } else if rep_keys(rep).contains(k2) {
                let i = choose|i: int| 0 <= i < rep_keys(rep).len() && rep_keys(rep)[i] == k2;
                assert(rep_keys(rep2)[i] == k2);
            }
        }
        assert forall|k2: Seq<char>|
            k2 != k implies #[trigger] rep_employees(rep2, k2) == rep_employees(rep, k2) by {
            assert(rep_has(rep2, k2) == rep_has(rep, k2));
            if rep_has(rep, k2) {
                lemma_index_of(rep, k2);
                lemma_first_occurrence(rep2, k2, rep_index_of(rep, k2));
            }
        }
    }
}

/// Adds accumulate: recording two employees under one department, in order,
/// appends both to its list in that order, whatever the department held.
pub proof fn lemma_add_accumulates(rep: DirRep, e1: Seq<char>, e2: Seq<char>, k: Seq<char>)
    requires
        rep_wf(rep),
    ensures
        rep_employees(rep_add(rep_add(rep, e1, k), e2, k), k) == rep_employees(rep, k).push(
            e1,
        ).push(e2),
{
    lemma_add_effect(rep, e1, k);
    lemma_add_wf(rep, e1, k);
    lemma_add_effect(rep_add(rep, e1, k), e2, k);
}

/// Duplicates are preserved: recording the same employee under the same
/// department twice keeps both copies of the name.
pub proof fn lemma_duplicates_preserved(rep: DirRep, e: Seq<char>, k: Seq<char>)
    requires
        rep_wf(rep),
    ensures
        rep_employees(rep_add(rep_add(rep, e, k), e, k), k) == rep_employees(rep, k).push(e).push(
            e,
        ),
{
    lemma_add_accumulates(rep, e, e, k);
}

/// The in-memory directory.
pub struct Directory {
    depts: Vec<(String, Vec<String>)>,
}

impl Directory {
    /// The model of this directory.
    pub closed spec fn rep(&self) -> DirRep {
        self.depts.deep_view()
    }

    /// Whether the directory is well-formed: no department twice.
    pub open spec fn wf(&self) -> bool {
        rep_wf(self.rep())
    }

    /// Whether the department `k` has been added to.
    pub open spec fn has_dept(&self, k: Seq<char>) -> bool {
        rep_has(self.rep(), k)
    }

    /// The employees under department `k`, in insertion order.
    pub open spec fn employees(&self, k: Seq<char>) -> Seq<Seq<char>> {
        rep_employees(self.rep(), k)
    }

    /// Creates an empty directory.
    pub fn new() -> (d: Directory)
        ensures
            d.wf(),
            d.rep() == Seq::<(Seq<char>, Seq<Seq<char>>)>::empty(),
    {
        let d = Directory { depts: Vec::new() };
        proof {
            assert(d.rep() =~= Seq::<(Seq<char>, Seq<Seq<char>>)>::empty());
        }
        d
    }

    /// The position of department `department`, when present.
    fn find(&self, department: &str) -> (r: Option<usize>)
        ensures
            r matches Some(i) ==> i < self.rep().len() && self.rep()[i as int].0 == department@
                && rep_index_of(self.rep(), department@) == i && self.has_dept(department@),
            r is None ==> !self.has_dept(department@),
    {
        let n = self.depts.len();
        for i in 0..n
            invariant
                n == self.rep().len(),
                forall|j: int| 0 <= j < i ==> (#[trigger] self.rep()[j]).0 != department@,
        {
            if str_eq(self.depts[i].0.as_str(), department) {
                proof {
                    lemma_first_occurrence(self.rep(), department@, i as int);
                }
                return Some(i);
            }
        }
        proof {
            if self.has_dept(department@) {
                let i = choose|i: int|
                    0 <= i < rep_keys(self.rep()).len() && rep_keys(self.rep())[i] == department@;
                assert(self.rep()[i].0 == department@);
            }
        }
        None
    }

    /// Records `employee` under `department`, creating the department at the
    /// end of the directory if it is absent. Nothing is deduplicated.
    pub fn add(&mut self, employee: String, department: String)
        requires
            old(self).wf(),
        ensures
            final(self).wf(),
            final(self).rep() == rep_add(old(self).rep(), employee@, department@),
    {
        let ghost pre = self.rep();
        proof {
            lemma_add_wf(pre, employee@, department@);
        }
        let found = self.find(department.as_str());
        match found {
            Some(i) => {
                self.depts[i].1.push(employee);
                proof {
                    assert(self.rep() =~~= pre.update(
                        i as int,
                        (department@, pre[i as int].1.push(employee@)),
                    ));
                }
            },
            None => {
                let mut emps: Vec<String> = Vec::new();
                emps.push(employee);
                self.depts.push((department, emps));
                proof {
                    assert(emps.deep_view() =~~= seq![employee@]);
                    assert(self.rep() =~~= pre.push((department@, seq![employee@])));
                }
            },
        }
    }

    /// Returns the employees of `department` sorted ascending, or `None`
    /// exactly when the department was never added to. The directory itself
    /// is untouched.
    pub fn retrieve(&self, department: &str) -> (r: Option<Vec<String>>)
        requires
            self.wf(),
        ensures
            r is Some <==> self.has_dept(department@),
            r matches Some(emps) ==> sorted_strs(emps.deep_view()) && emps.deep_view().to_multiset()
                == self.employees(department@).to_multiset() && emps@.len() == self.employees(
                department@,
            ).len(),
    {
        let found = self.find(department);
        match found {
            Some(i) => {
                let sorted = sort_strings(&self.depts[i].1);
                proof {
                    broadcast use vstd::seq_lib::group_to_multiset_ensures;

                    assert(self.depts@[i as int].1.deep_view() == self.employees(department@));
                }
                Some(sorted)
            },
            None => None,
        }
    }

    /// Returns every department paired with its sorted employees, the
    /// departments sorted ascending, whatever order they were added in.
    pub fn retrieve_all(&self) -> (r: Vec<(String, Vec<String>)>)
        requires
            self.wf(),
        ensures
            r@.len() == self.rep().len(),
            sorted_strs(rep_keys(r.deep_view())),
            rep_keys(r.deep_view()).to_multiset() == rep_keys(self.rep()).to_multiset(),
            forall|i: int|
                0 <= i < r@.len() ==> sorted_strs((#[trigger] r.deep_view()[i]).1)
                    && r.deep_view()[i].1.to_multiset() == self.employees(
                    r.deep_view()[i].0,
                ).to_multiset(),
    {
        let n = self.depts.len();
        let mut keys: Vec<String> = Vec::new();
        proof {
            assert(keys.deep_view() =~~= rep_keys(self.rep()).take(0));
        }
        for i in 0..n
            invariant
                n == self.rep().len(),
                keys.deep_view() == rep_keys(self.rep()).take(i as int),
        {
            proof {
                assert(keys.deep_view().len() == rep_keys(self.rep()).take(i as int).len());
            }
            keys.push(self.depts[i].0.clone());
            proof {
                assert(rep_keys(self.rep())[i as int] == self.rep()[i as int].0);
                assert(self.rep()[i as int].0 == self.depts@[i as int].0@);
                assert(keys.deep_view()[i as int] == self.depts@[i as int].0@);
                assert forall|j: int| 0 <= j < i + 1 implies keys.deep_view()[j] == rep_keys(
                    self.rep(),
                ).take(i as int + 1)[j] by {
                    if j < i {
                        assert(keys.deep_view()[j] == rep_keys(self.rep()).take(i as int)[j]);
                    }
                }
                assert(keys.deep_view() =~~= rep_keys(self.rep()).take(i as int + 1));
            }
        }
        proof {
            assert(rep_keys(self.rep()).take(n as int) =~~= rep_keys(self.rep()));
        }
        let sorted_keys = sort_strings(&keys);
        let m = sorted_keys.len();
        let mut out: Vec<(String, Vec<String>)> = Vec::new();
        for i in 0..m
            invariant
                self.wf(),
                m == sorted_keys@.len(),
                m == self.rep().len(),
                sorted_strs(sorted_keys.deep_view()),
                sorted_keys.deep_view().to_multiset() == rep_keys(self.rep()).to_multiset(),
                out@.len() == i,
                forall|j: int|
                    0 <= j < i ==> (#[trigger] out.deep_view()[j]).0 == sorted_keys.deep_view()[j],
                forall|j: int|
                    0 <= j < i ==> sorted_strs((#[trigger] out.deep_view()[j]).1)
                        && out.deep_view()[j].1.to_multiset() == self.employees(
                        out.deep_view()[j].0,
                    ).to_multiset(),
        {
            proof {
                broadcast use vstd::seq_lib::group_to_multiset_ensures;

                assert(sorted_keys.deep_view().contains(sorted_keys.deep_view()[i as int]));
                assert(rep_keys(self.rep()).to_multiset().count(sorted_keys.deep_view()[i as int])
                    > 0);
                assert(rep_keys(self.rep()).contains(sorted_keys.deep_view()[i as int]));
            }
            let key = sorted_keys[i].clone();
            let emps = self.retrieve(key.as_str());
            match emps {
                Some(emps) => {
                    let ghost pre_out = out.deep_view();
                    out.push((key, emps));
                    proof {
                        assert(out.deep_view() =~~= pre_out.push(
                            (sorted_keys.deep_view()[i as int], emps.deep_view()),
                        ));
                    }
                },
                None => {
                    proof {
                        assert(false);
                    }
                },
            }
        }
        proof {
            assert(rep_keys(out.deep_view()) =~~= sorted_keys.deep_view());
        }
        out
    }
}

} // verus!

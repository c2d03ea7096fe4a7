//! A company roster: employees grouped by department, fed by plain text
//! commands, read back in alphabetical order.

use crate::text::{sort_strings, sorted_lex, split_words, string_views, words};
use vstd::prelude::*;

verus! {

/// Where `d` stands in the department list, or `-1` when it is absent.
pub open spec fn dept_index(m: Seq<(Seq<char>, Seq<Seq<char>>)>, d: Seq<char>) -> int
    decreases m.len(),
{
    if m.len() == 0 {
        -1
    } else if m[0].0 == d {
        0
    } else if dept_index(m.drop_first(), d) == -1 {
        -1
    } else {
        dept_index(m.drop_first(), d) + 1
    }
}

/// Whether the roster has a department named `d`.
pub open spec fn has_dept(m: Seq<(Seq<char>, Seq<Seq<char>>)>, d: Seq<char>) -> bool {
    dept_index(m, d) >= 0
}

/// The employees of department `d`, in the order they were added, or
/// nothing when there is no such department.
pub open spec fn members(m: Seq<(Seq<char>, Seq<Seq<char>>)>, d: Seq<char>) -> Seq<Seq<char>> {
    if has_dept(m, d) {
        m[dept_index(m, d)].1
    } else {
        Seq::empty()
    }
}

/// All employees of the roster, department by department.
pub open spec fn all_members(m: Seq<(Seq<char>, Seq<Seq<char>>)>) -> Seq<Seq<char>>
    decreases m.len(),
{
    if m.len() == 0 {
        Seq::empty()
    } else {
        m[0].1 + all_members(m.drop_first())
    }
}

/// The first position whose department name is `d` is the index.
pub proof fn lemma_dept_index_at(m: Seq<(Seq<char>, Seq<Seq<char>>)>, d: Seq<char>, i: int)
    requires
        0 <= i < m.len(),
        m[i].0 == d,
        forall|t: int| 0 <= t < i ==> m[t].0 != d,
    ensures
        dept_index(m, d) == i,
    decreases m.len(),
{
    if i > 0 {
        assert(forall|t: int| 0 <= t < i - 1 ==> m.drop_first()[t] == m[t + 1]);
        lemma_dept_index_at(m.drop_first(), d, i - 1);
    }
}

/// A name that no position carries is absent.
pub proof fn lemma_dept_index_none(m: Seq<(Seq<char>, Seq<Seq<char>>)>, d: Seq<char>)
    requires
        forall|t: int| 0 <= t < m.len() ==> m[t].0 != d,
    ensures
        dept_index(m, d) == -1,
    decreases m.len(),
{
    if m.len() > 0 {
        lemma_dept_index_none(m.drop_first(), d);
    }
}

/// A department appended at the end adds its members at the end.
pub proof fn lemma_all_members_push(
    m: Seq<(Seq<char>, Seq<Seq<char>>)>,
    p: (Seq<char>, Seq<Seq<char>>),
)
    ensures
        all_members(m.push(p)) =~= all_members(m) + p.1,
    decreases m.len(),
{
    if m.len() == 0 {
        assert(m.push(p).drop_first() =~= m);
    } else {
        assert(m.push(p).drop_first() =~= m.drop_first().push(p));
        lemma_all_members_push(m.drop_first(), p);
    }
}

/// Employees grouped by department, in the order departments were first
/// mentioned.
pub struct Company {
    departments: Vec<(String, Vec<String>)>,
}

impl Company {
    /// The roster as a sequence of department names with their members,
    /// in first-mention order.
    pub closed spec fn model(&self) -> Seq<(Seq<char>, Seq<Seq<char>>)> {
        self.departments@.map_values(|p: (String, Vec<String>)| (p.0@, string_views(p.1@)))
    }

    /// An empty roster.
    pub fn new() -> (c: Company)
        ensures
            c.model().len() == 0,
    {
        Company { departments: Vec::new() }
    }

    /// Adds `employee` to `department`: to the end of its member list
    /// when the department exists, else as the sole member of a new
    /// department at the end of the roster.
    pub fn add_employee(&mut self, department: &str, employee: &str)
        ensures
            ({
                let m0 = old(self).model();
                let m1 = final(self).model();
                if has_dept(m0, department@) {
                    m1 =~~= m0.update(
                        dept_index(m0, department@),
                        (department@, members(m0, department@).push(employee@)),
                    )
                } else {
                    m1 =~~= m0.push((department@, seq![employee@]))
                }
            }),
    {
        let key = department.to_owned();
        let n = self.departments.len();
        let mut i: usize = 0;
        while i < n
            invariant
                n == self.departments@.len(),
                i <= n,
                self.departments@ == old(self).departments@,
                key@ == department@,
                forall|t: int| 0 <= t < i ==> #[trigger] self.model()[t].0 != department@,
            decreases n - i,
        {
            if self.departments[i].0 == key {
                proof {
                    assert(self.model()[i as int].0 == department@);
                    lemma_dept_index_at(self.model(), department@, i as int);
                }
                let ghost m0 = self.model();
                let ghost d0 = self.departments@;
                let pair = self.departments.remove(i);
                let (name, mut members_vec) = pair;
                proof {
                    assert(name == d0[i as int].0);
                    assert(members_vec@ == d0[i as int].1@);
                }
                let owned = employee.to_owned();
                members_vec.push(owned);
                self.departments.insert(i, (name, members_vec));
                proof {
                    assert(self.departments@.len() == d0.len());
                    assert(forall|k: int|
                        0 <= k < d0.len() && k != i ==> self.departments@[k] == d0[k]);
                    assert(self.departments@[i as int].0@ == department@);
                    assert(string_views(self.departments@[i as int].1@) =~= m0[i as int].1.push(
                        employee@,
                    ));
                    assert(self.model() =~~= m0.update(
                        i as int,
                        (department@, m0[i as int].1.push(employee@)),
                    ));
                }
                return ;
            }
            i = i + 1;
        }
        proof {
            lemma_dept_index_none(self.model(), department@);
        }
        let ghost m0 = self.model();
        let mut first_members: Vec<String> = Vec::new();
        first_members.push(employee.to_owned());
        self.departments.push((key, first_members));
        proof {
            assert(string_views(first_members@) =~= seq![employee@]);
            assert(self.model() =~~= m0.push((department@, seq![employee@])));
        }
    }

    /// The employees of `department`, sorted alphabetically; an unknown
    /// department has none.
    pub fn employees_in_department(&self, department: &str) -> (r: Vec<String>)
        ensures
            sorted_lex(string_views(r@)),
            string_views(r@).to_multiset() == members(self.model(), department@).to_multiset(),
    {
        let key = department.to_owned();
        let n = self.departments.len();
        let mut i: usize = 0;
        while i < n
            invariant
                n == self.departments@.len(),
                key@ == department@,
                i <= n,
                forall|t: int| 0 <= t < i ==> #[trigger] self.model()[t].0 != department@,
            decreases n - i,
        {
            if self.departments[i].0 == key {
                proof {
                    assert(self.model()[i as int].0 == department@);
                    lemma_dept_index_at(self.model(), department@, i as int);
                }
                let mut found: Vec<String> = Vec::new();
                let dept = &self.departments[i].1;
                let mut j: usize = 0;
                proof {
                    assert(string_views(found@) =~= Seq::<Seq<char>>::empty());
                }
                while j < dept.len()
                    invariant
                        j <= dept@.len(),
                        string_views(found@) =~= string_views(dept@).take(j as int),
                    decreases dept@.len() - j,
                {
                    let ghost views0 = string_views(found@);
                    found.push(dept[j].clone());
                    proof {
                        assert(string_views(found@) =~= views0.push(dept@[j as int]@));
                        assert(string_views(dept@).take(j + 1) =~= string_views(dept@).take(
                            j as int,
                        ).push(string_views(dept@)[j as int]));
                    }
                    j = j + 1;
                }
                proof {
                    assert(string_views(dept@).take(dept@.len() as int) =~= string_views(dept@));
                    assert(string_views(dept@) =~= members(self.model(), department@));
                }
                return sort_strings(found);
            }
            i = i + 1;
        }
        proof {
            lemma_dept_index_none(self.model(), department@);
            assert(members(self.model(), department@) =~= Seq::<Seq<char>>::empty());
        }
        let empty: Vec<String> = Vec::new();
        proof {
            assert(string_views(empty@) =~= Seq::<Seq<char>>::empty());
        }
        empty
    }

    /// Every employee of the company, sorted alphabetically.
    pub fn employees_in_company(&self) -> (r: Vec<String>)
        ensures
            sorted_lex(string_views(r@)),
            string_views(r@).to_multiset() == all_members(self.model()).to_multiset(),
    {
        let n = self.departments.len();
        let mut gathered: Vec<String> = Vec::new();
        let mut i: usize = 0;
        proof {
            assert(self.model().take(0) =~= Seq::<(Seq<char>, Seq<Seq<char>>)>::empty());
            assert(string_views(gathered@) =~= all_members(self.model().take(0)));
        }
        while i < n
            invariant
                n == self.departments@.len(),
                i <= n,
                string_views(gathered@) =~= all_members(self.model().take(i as int)),
            decreases n - i,
        {
            let dept = &self.departments[i].1;
            let mut j: usize = 0;
            let ghost before = string_views(gathered@);
            while j < dept.len()
                invariant
                    j <= dept@.len(),
                    dept@ == self.departments@[i as int].1@,
                    i < n == self.departments@.len(),
                    string_views(gathered@) =~= before + string_views(dept@).take(j as int),
                decreases dept@.len() - j,
            {
                let ghost views0 = string_views(gathered@);
                gathered.push(dept[j].clone());
                proof {
                    assert(string_views(gathered@) =~= views0.push(dept@[j as int]@));
                    assert(string_views(dept@).take(j + 1) =~= string_views(dept@).take(
                        j as int,
                    ).push(string_views(dept@)[j as int]));
                }
                j = j + 1;
            }
            proof {
                assert(string_views(dept@).take(dept@.len() as int) =~= string_views(dept@));
                assert(self.model().take(i + 1) =~= self.model().take(i as int).push(
                    self.model()[i as int],
                ));
                lemma_all_members_push(self.model().take(i as int), self.model()[i as int]);
                assert(self.model()[i as int].1 == string_views(dept@));
                assert(string_views(gathered@) =~= all_members(self.model().take(i + 1)));
            }
            i = i + 1;
        }
        proof {
            assert(self.model().take(n as int) =~= self.model());
        }
        sort_strings(gathered)
    }

    /// Applies one text command to the roster.  `Add NAME to DEPT` adds
    /// an employee; `List DEPT` and `ListAll` name readable listings and
    /// change nothing; anything else is unrecognised.  The result says
    /// whether the command was recognised.
    pub fn parse_command(&mut self, command: &str) -> (r: bool)
        ensures
            ({
                let ws = words(command@);
                let m0 = old(self).model();
                let m1 = final(self).model();
                if ws.len() >= 4 && ws[0] == "Add"@ && ws[2] == "to"@ {
                    r == true && (if has_dept(m0, ws[3]) {
                        m1 =~~= m0.update(
                            dept_index(m0, ws[3]),
                            (ws[3], members(m0, ws[3]).push(ws[1])),
                        )
                    } else {
                        m1 =~~= m0.push((ws[3], seq![ws[1]]))
                    })
                } else if ws.len() >= 2 && ws[0] == "List"@ {
                    r == true && m1 == m0
                } else if ws.len() >= 1 && ws[0] == "ListAll"@ {
                    r == true && m1 == m0
                } else {
                    r == false && m1 == m0
                }
            }),
    {
        let ws = split_words(command);
        proof {
            reveal_strlit("Add");
            reveal_strlit("to");
            reveal_strlit("List");
            reveal_strlit("ListAll");
        }
        if ws.len() == 0 {
            return false;
        }
        let add_word = "Add".to_owned();
        let to_word = "to".to_owned();
        let list_word = "List".to_owned();
        let list_all_word = "ListAll".to_owned();
        proof {
            assert(string_views(ws@)[0] == ws@[0]@);
        }
        if ws[0] == add_word {
            if ws.len() >= 4 {
                proof {
                    assert(string_views(ws@)[2] == ws@[2]@);
                    assert(string_views(ws@)[1] == ws@[1]@);
                    assert(string_views(ws@)[3] == ws@[3]@);
                }
                if ws[2] == to_word {
                    self.add_employee(ws[3].as_str(), ws[1].as_str());
                    return true;
                }
            }
            return false;
        }
        if ws[0] == list_word {
            return ws.len() >= 2;
        }
        if ws[0] == list_all_word {
            return true;
        }
        false
    }
}

} // verus!

use vstd::prelude::*;
use vstd::string::*;

use crate::error::LaunchError;
use crate::text::has_char;

verus! {

/// An environment as its ordered list of (name, value) entries.
pub type Vars = Seq<(Seq<char>, Seq<char>)>;

/// Which end of a path list a new entry goes to.
#[derive(Debug, Clone, Copy, PartialEq, Eq, Structural)]
pub enum Position {
    Prefix,
    Suffix,
}

/// The index of the entry named `k`, searching from the end.
pub open spec fn key_pos(vars: Vars, k: Seq<char>) -> Option<int>
    decreases vars.len(),
{
    if vars.len() == 0 {
        None
    } else if vars.last().0 == k {
        Some(vars.len() - 1)
    } else {
        key_pos(vars.drop_last(), k)
    }
}

/// The value of variable `k`, if it is set.
pub open spec fn lookup(vars: Vars, k: Seq<char>) -> Option<Seq<char>> {
    match key_pos(vars, k) {
        Some(i) => Some(vars[i].1),
        None => None,
    }
}

/// `vars` with `k` set to `v`: an existing entry is overwritten in place,
/// a new one goes to the end.
pub open spec fn assign(vars: Vars, k: Seq<char>, v: Seq<char>) -> Vars {
    match key_pos(vars, k) {
        Some(i) => vars.update(i, (k, v)),
        None => vars.push((k, v)),
    }
}

/// No two entries share a name.
pub open spec fn keys_unique(vars: Vars) -> bool {
    forall|i: int, j: int| 0 <= i < j < vars.len() ==> vars[i].0 != vars[j].0
}

/// The path list `cur` with `v` added at the given end, entries joined by `:`.
pub open spec fn path_list_insert(cur: Seq<char>, pos: Position, v: Seq<char>) -> Seq<char> {
    match pos {
        Position::Prefix => v + seq![':'] + cur,
        Position::Suffix => cur + seq![':'] + v,
    }
}

/// The effect of adding `v` to path-list variable `k`: an unset variable becomes `v`;
/// a set one gets `v` as a new entry, which fails when `v` holds the separator `:`.
pub open spec fn modified(vars: Vars, k: Seq<char>, pos: Position, v: Seq<char>) -> Result<
    Vars,
    LaunchError,
> {
    match lookup(vars, k) {
        None => Ok(assign(vars, k, v)),
        Some(cur) => if v.contains(':') {
            Err(LaunchError::Encoding)
        } else {
            Ok(assign(vars, k, path_list_insert(cur, pos, v)))
        },
    }
}

/// The `NAME=VALUE` line of one entry.
pub open spec fn export_line(e: (Seq<char>, Seq<char>)) -> Seq<char> {
    e.0 + seq!['='] + e.1
}

/// Every name and value can be handed to a process: none holds a NUL character.
pub open spec fn exportable(vars: Vars) -> bool {
    forall|i: int| 0 <= i < vars.len() ==> !vars[i].0.contains('\0') && !vars[i].1.contains('\0')
}

proof fn lemma_key_pos_bounds(vars: Vars, k: Seq<char>)
    ensures
        match key_pos(vars, k) {
            Some(i) => 0 <= i < vars.len() && vars[i].0 == k,
            None => forall|j: int| 0 <= j < vars.len() ==> vars[j].0 != k,
        },
    decreases vars.len(),
{
    if vars.len() > 0 && vars.last().0 != k {
        let pre = vars.drop_last();
        lemma_key_pos_bounds(pre, k);
        assert(forall|j: int| 0 <= j < pre.len() ==> pre[j] == vars[j]);
    }
}

pub proof fn lemma_lookup_assign(vars: Vars, k: Seq<char>, v: Seq<char>)
    ensures
        lookup(assign(vars, k, v), k) == Some(v),
    decreases vars.len(),
{
    let a = assign(vars, k, v);
    if vars.len() > 0 && vars.last().0 != k {
        let pre = vars.drop_last();
        lemma_key_pos_bounds(pre, k);
        match key_pos(pre, k) {
            Some(i) => {
                assert(a.drop_last() =~= assign(pre, k, v));
                assert(a.last() == vars.last());
                lemma_lookup_assign(pre, k, v);
                lemma_key_pos_bounds(a.drop_last(), k);
                assert(key_pos(a, k) == key_pos(a.drop_last(), k));
                let j = key_pos(a.drop_last(), k)->Some_0;
                assert(a[j] == a.drop_last()[j]);
            },
            None => {},
        }
    }
}

/// Adding to a path list: an unset variable becomes exactly the new entry; a set
/// variable with value `x` becomes `v:x` at the front and `x:v` at the back, for an
/// entry `v` that holds no separator `:`.
pub proof fn modify_var_path_list(vars: Vars, k: Seq<char>, pos: Position, v: Seq<char>)
    ensures
        lookup(vars, k) is None ==> modified(vars, k, pos, v) is Ok && lookup(
            modified(vars, k, pos, v)->Ok_0,
            k,
        ) == Some(v),
        lookup(vars, k) is Some && !v.contains(':') ==> modified(vars, k, pos, v) is Ok
            && lookup(modified(vars, k, pos, v)->Ok_0, k) == Some(
            match pos {
                Position::Prefix => v + seq![':'] + lookup(vars, k)->Some_0,
                Position::Suffix => lookup(vars, k)->Some_0 + seq![':'] + v,
            },
        ),
{
    lemma_lookup_assign(vars, k, v);
    if lookup(vars, k) is Some {
        lemma_lookup_assign(vars, k, path_list_insert(lookup(vars, k)->Some_0, pos, v));
    }
}

/// An in-memory environment variable table.
pub struct Env {
    vars: Vec<(String, String)>,
}

impl View for Env {
    type V = Vars;

    closed spec fn view(&self) -> Vars {
        self.vars@.map_values(|e: (String, String)| (e.0@, e.1@))
    }
}

impl Env {
    /// An empty environment.
    pub fn new() -> (r: Env)
        ensures
            r@ == Seq::<(Seq<char>, Seq<char>)>::empty(),
            keys_unique(r@),
    {
        let r = Env { vars: Vec::new() };
        assert(r@ =~= Seq::<(Seq<char>, Seq<char>)>::empty());
        r
    }

    /// The number of variables set.
    pub fn len(&self) -> (r: usize)
        ensures
            r == self@.len(),
    {
        self.vars.len()
    }

    fn find(&self, k: &str) -> (r: Option<usize>)
        ensures
            match r {
                Some(i) => key_pos(self@, k@) == Some(i as int) && i < self@.len(),
                None => key_pos(self@, k@) is None,
            },
    {
        let key = String::from_str(k);
        let mut i = self.vars.len();
        assert(self@.subrange(0, i as int) =~= self@);
        while i > 0
            invariant
                i <= self.vars.len(),
                key@ == k@,
                key_pos(self@, k@) == key_pos(self@.subrange(0, i as int), k@),
            decreases i,
        {
            let ghost pre = self@.subrange(0, i as int);
            assert(pre.drop_last() =~= self@.subrange(0, i - 1));
            if self.vars[i - 1].0 == key {
                return Some(i - 1);
            }
            i = i - 1;
        }
        None
    }

    /// The value of `k`, if set.
    pub fn var_os(&self, k: &str) -> (r: Option<String>)
        ensures
            match r {
                Some(v) => lookup(self@, k@) == Some(v@),
                None => lookup(self@, k@) is None,
            },
    {
        match self.find(k) {
            Some(i) => Some(self.vars[i].1.clone()),
            None => None,
        }
    }

    /// Sets `k` to `v`, replacing any earlier value.
    pub fn set_var(&mut self, k: &str, v: &str)
        ensures
            final(self)@ == assign(old(self)@, k@, v@),
            keys_unique(old(self)@) ==> keys_unique(final(self)@),
    {
        proof {
            lemma_key_pos_bounds(self@, k@);
        }
        let entry = (String::from_str(k), String::from_str(v));
        match self.find(k) {
            Some(i) => {
                self.vars.set(i, entry);
                assert(self@ =~= assign(old(self)@, k@, v@));
            },
            None => {
                self.vars.push(entry);
                assert(self@ =~= assign(old(self)@, k@, v@));
            },
        }
    }

    /// Adds `v` to the path list held in `k`, at the end that `position` names.
    /// An unset variable becomes `v`. Fails, leaving the table as it was, when `k`
    /// is set and `v` holds the list separator `:`.
    pub fn modify_var(&mut self, k: &str, position: Position, v: &str) -> (r: Result<
        (),
        LaunchError,
    >)
        ensures
            match modified(old(self)@, k@, position, v@) {
                Ok(vars) => r is Ok && final(self)@ == vars,
                Err(e) => r == Err::<(), LaunchError>(e) && final(self)@ == old(self)@,
            },
            keys_unique(old(self)@) ==> keys_unique(final(self)@),
    {
        match self.var_os(k) {
            None => {
                self.set_var(k, v);
                Ok(())
            },
            Some(cur) => {
                if has_char(v, ':') {
                    return Err(LaunchError::Encoding);
                }
                proof {
                    reveal_strlit(":");
                }
                let mut joined = String::new();
                match position {
                    Position::Prefix => {
                        joined.append(v);
                        joined.append(":");
                        joined.append(cur.as_str());
                    },
                    Position::Suffix => {
                        joined.append(cur.as_str());
                        joined.append(":");
                        joined.append(v);
                    },
                }
                assert(joined@ =~= path_list_insert(cur@, position, v@));
                self.set_var(k, joined.as_str());
                Ok(())
            },
        }
    }

    /// The `NAME=VALUE` line of each variable, in table order. Fails when a name or
    /// a value holds a NUL character, which no process environment can carry.
    pub fn list(&self) -> (r: Result<Vec<String>, LaunchError>)
        ensures
            exportable(self@) ==> r is Ok && r->Ok_0@.map_values(|s: String| s@)
                == self@.map_values(|e: (Seq<char>, Seq<char>)| export_line(e)),
            !exportable(self@) ==> r == Err::<Vec<String>, LaunchError>(LaunchError::Encoding),
    {
        let mut out: Vec<String> = Vec::new();
        let mut i: usize = 0;
        while i < self.vars.len()
            invariant
                i <= self.vars.len(),
                out@.len() == i,
                forall|j: int|
                    0 <= j < i ==> !self@[j].0.contains('\0') && !self@[j].1.contains('\0'),
                forall|j: int| 0 <= j < i ==> #[trigger] out@[j]@ == export_line(self@[j]),
            decreases self.vars.len() - i,
        {
            let name = self.vars[i].0.as_str();
            let value = self.vars[i].1.as_str();
            assert(self@[i as int].0 == name@ && self@[i as int].1 == value@);
            if has_char(name, '\0') || has_char(value, '\0') {
                return Err(LaunchError::Encoding);
            }
            proof {
                reveal_strlit("=");
            }
            let mut line = String::from_str(name);
            line.append("=");
            line.append(value);
            assert(line@ =~= export_line(self@[i as int]));
            out.push(line);
            i = i + 1;
        }
        assert(out@.map_values(|s: String| s@) =~= self@.map_values(
            |e: (Seq<char>, Seq<char>)| export_line(e),
        ));
        Ok(out)
    }
}

} // verus!

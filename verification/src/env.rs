//! Lexical scopes.
//!
//! Scopes live in a [`Store`] and are named by handles ([`EnvRef`]), so that
//! every closure and every call frame that was made inside a scope can share
//! it: what one holder binds there, all of them see. A scope's parent is a
//! handle too, followed only upward, towards older scopes.

use vstd::prelude::*;
use crate::parser::{Expr, SpecExpr, views};
use crate::procedure::names_view;
use crate::serr::{SErr, SResult, SpecErr};

verus! {

/// The name of a variable.
pub type VarName = String;

/// A handle on a scope of a [`Store`]. `Null` is the scope above the global
/// one: it binds nothing and has no parent.
#[derive(Clone, Copy, Debug, PartialEq, Eq, Structural)]
pub enum EnvRef {
    Null,
    Scope(usize),
}

/// The bindings of one scope: names with their values.
#[derive(Debug, PartialEq)]
pub struct EnvValues {
    pub entries: Vec<(VarName, Expr)>,
}

/// The mapping that a sequence of entries stands for: of two entries with
/// one name, the later one counts.
pub open spec fn bindings(es: Seq<(String, Expr)>) -> Map<Seq<char>, SpecExpr>
    decreases es.len(),
{
    if es.len() == 0 {
        Map::empty()
    } else {
        bindings(es.drop_last()).insert(es.last().0@, es.last().1@)
    }
}

/// If `i` is the last entry named `name`, the mapping has its value.
pub proof fn lemma_bindings_last_match(es: Seq<(String, Expr)>, i: int, name: Seq<char>)
    requires
        0 <= i < es.len(),
        es[i].0@ == name,
        forall|j: int| i < j < es.len() ==> es[j].0@ != name,
    ensures
        bindings(es).contains_key(name),
        bindings(es)[name] == es[i].1@,
    decreases es.len(),
{
    if i < es.len() - 1 {
        lemma_bindings_last_match(es.drop_last(), i, name);
    }
}

/// If no entry is named `name`, the mapping lacks it.
pub proof fn lemma_bindings_no_match(es: Seq<(String, Expr)>, name: Seq<char>)
    requires
        forall|j: int| 0 <= j < es.len() ==> es[j].0@ != name,
    ensures
        !bindings(es).contains_key(name),
    decreases es.len(),
{
    if es.len() > 0 {
        lemma_bindings_no_match(es.drop_last(), name);
    }
}

/// Overwriting the value of the last entry named `name` is `insert` on the mapping.
pub proof fn lemma_bindings_update(es: Seq<(String, Expr)>, i: int, entry: (String, Expr))
    requires
        0 <= i < es.len(),
        es[i].0@ == entry.0@,
        forall|j: int| i < j < es.len() ==> es[j].0@ != entry.0@,
    ensures
        bindings(es.update(i, entry)) == bindings(es).insert(entry.0@, entry.1@),
    decreases es.len(),
{
    let es2 = es.update(i, entry);
    if i == es.len() - 1 {
        assert(es2.drop_last() =~= es.drop_last());
        assert(bindings(es2) =~= bindings(es).insert(entry.0@, entry.1@));
    } else {
        lemma_bindings_update(es.drop_last(), i, entry);
        assert(es2.drop_last() =~= es.drop_last().update(i, entry));
        assert(bindings(es2) =~= bindings(es).insert(entry.0@, entry.1@));
    }
}

impl View for EnvValues {
    type V = Map<Seq<char>, SpecExpr>;

    open spec fn view(&self) -> Map<Seq<char>, SpecExpr> {
        bindings(self.entries@)
    }
}

/// What `pack` leaves: the names from index `i` on, bound in order to the
/// values at the same places.
pub open spec fn pack_from(
    vars: Map<Seq<char>, SpecExpr>,
    names: Seq<Seq<char>>,
    vals: Seq<SpecExpr>,
    i: int,
) -> Map<Seq<char>, SpecExpr>
    decreases names.len() - i,
{
    if 0 <= i < names.len() && i < vals.len() {
        pack_from(vars.insert(names[i], vals[i]), names, vals, i + 1)
    } else {
        vars
    }
}

impl EnvValues {
    pub fn new() -> (r: EnvValues)
        ensures
            r@ == Map::<Seq<char>, SpecExpr>::empty(),
    {
        EnvValues { entries: Vec::new() }
    }

    /// The index of the last entry named `name`, if there is one.
    fn find(&self, name: &String) -> (r: Option<usize>)
        ensures
            match r {
                Some(i) => i < self.entries.len() && self.entries[i as int].0@ == name@ && forall|
                    j: int,
                | i < j < self.entries.len() ==> self.entries[j].0@ != name@,
                None => forall|j: int| 0 <= j < self.entries.len() ==> self.entries[j].0@ != name@,
            },
    {
        let mut i: usize = self.entries.len();
        while i > 0
            invariant
                i <= self.entries.len(),
                forall|j: int| i <= j < self.entries.len() ==> self.entries[j].0@ != name@,
            decreases i,
        {
            i -= 1;
            if self.entries[i].0 == *name {
                return Some(i);
            }
        }
        None
    }

    pub fn contains_key(&self, name: &str) -> (b: bool)
        ensures
            b == self@.contains_key(name@),
    {
        let key = name.to_owned();
        let found = self.find(&key);
        proof {
            match found {
                Some(i) => lemma_bindings_last_match(self.entries@, i as int, name@),
                None => lemma_bindings_no_match(self.entries@, name@),
            }
        }
        found.is_some()
    }

    /// The value bound to `name`, if any.
    pub fn get(&self, name: &str) -> (r: Option<Expr>)
        ensures
            match r {
                Some(e) => self@.contains_key(name@) && e@ == self@[name@],
                None => !self@.contains_key(name@),
            },
    {
        let key = name.to_owned();
        let found = self.find(&key);
        match found {
            Some(i) => {
                proof {
                    lemma_bindings_last_match(self.entries@, i as int, name@);
                }
                Some(self.entries[i].1.clone())
            },
            None => {
                proof {
                    lemma_bindings_no_match(self.entries@, name@);
                }
                None
            },
        }
    }

    /// Bind `key` to `val`, whether or not `key` was bound before.
    pub fn insert(&mut self, key: String, val: Expr)
        ensures
            final(self)@ == old(self)@.insert(key@, val@),
    {
        let found = self.find(&key);
        match found {
            Some(i) => {
                proof {
                    lemma_bindings_update(self.entries@, i as int, (key, val));
                }
                self.entries[i] = (key, val);
            },
            None => {
                assert(self.entries@.push((key, val)).drop_last() =~= self.entries@);
                self.entries.push((key, val));
            },
        }
    }
}

/// One scope: its bindings and the handle of the scope around it.
#[derive(Debug, PartialEq)]
pub struct Env {
    pub parent: EnvRef,
    pub values: EnvValues,
}

/// The mathematical value of an [`Env`].
pub ghost struct SpecScope {
    pub parent: EnvRef,
    pub vars: Map<Seq<char>, SpecExpr>,
}

impl View for Env {
    type V = SpecScope;

    open spec fn view(&self) -> SpecScope {
        SpecScope { parent: self.parent, vars: self.values@ }
    }
}

/// All scopes that exist, oldest first. A handle `Scope(i)` names the
/// scope at index `i`. Scopes are added and never removed, so a handle is
/// good for as long as the store lives.
#[derive(Debug, PartialEq)]
pub struct Store {
    pub scopes: Vec<Env>,
}

/// The mathematical value of a [`Store`].
pub type SpecStore = Seq<SpecScope>;

impl View for Store {
    type V = SpecStore;

    open spec fn view(&self) -> SpecStore {
        Seq::new(self.scopes.len() as nat, |i: int| self.scopes[i]@)
    }
}

/// Whether the handle names a scope of the store.
pub open spec fn has_scope(st: SpecStore, env: EnvRef) -> bool {
    env matches EnvRef::Scope(i) && i < st.len()
}

/// The nearest scope that binds `name`, searching from `env` outward. A
/// parent link is followed only where it leads to an older scope, so the
/// search ends whatever the store holds.
pub open spec fn resolve(st: SpecStore, env: EnvRef, name: Seq<char>) -> Option<usize>
    decreases
        (match env {
            EnvRef::Null => 0int,
            EnvRef::Scope(i) => i + 1,
        }),
{
    match env {
        EnvRef::Null => None,
        EnvRef::Scope(i) => if i >= st.len() {
            None
        } else if st[i as int].vars.contains_key(name) {
            Some(i)
        } else {
            match st[i as int].parent {
                EnvRef::Null => None,
                EnvRef::Scope(j) => if j < i {
                    resolve(st, EnvRef::Scope(j), name)
                } else {
                    None
                },
            }
        },
    }
}

/// The value that `name` has when looked up from `env`.
pub open spec fn lookup(st: SpecStore, env: EnvRef, name: Seq<char>) -> Option<SpecExpr> {
    match resolve(st, env, name) {
        Some(i) => Some(st[i as int].vars[name]),
        None => None,
    }
}

/// The store after binding `name` in the scope `env` itself. A handle that
/// names no scope leaves the store as it is.
pub open spec fn define(st: SpecStore, env: EnvRef, name: Seq<char>, val: SpecExpr) -> SpecStore {
    match env {
        EnvRef::Scope(i) => if i < st.len() {
            st.update(
                i as int,
                SpecScope { parent: st[i as int].parent, vars: st[i as int].vars.insert(name, val) },
            )
        } else {
            st
        },
        EnvRef::Null => st,
    }
}

/// The store after overwriting `name` in the nearest scope that binds it.
pub open spec fn assign(st: SpecStore, env: EnvRef, name: Seq<char>, val: SpecExpr) -> SpecStore {
    match resolve(st, env, name) {
        Some(i) => define(st, EnvRef::Scope(i), name, val),
        None => st,
    }
}

impl Store {
    /// A store with no scope in it.
    pub fn new() -> (r: Store)
        ensures
            r@ == Seq::<SpecScope>::empty(),
    {
        let r = Store { scopes: Vec::new() };
        assert(r@ =~= Seq::<SpecScope>::empty());
        r
    }

    pub fn len(&self) -> (n: usize)
        ensures
            n == self@.len(),
    {
        self.scopes.len()
    }

    /// Add a scope and return its handle.
    pub fn add_scope(&mut self, scope: Env) -> (r: EnvRef)
        ensures
            final(self)@ == old(self)@.push(scope@),
            r == EnvRef::Scope(old(self)@.len() as usize),
    {
        let n = self.scopes.len();
        self.scopes.push(scope);
        assert(self@ =~= old(self)@.push(scope@));
        EnvRef::Scope(n)
    }

    /// The nearest scope that binds `name`, searching from `env` outward.
    pub fn find_scope(&self, env: EnvRef, name: &str) -> (r: Option<usize>)
        ensures
            r == resolve(self@, env, name@),
    {
        let mut cur = env;
        loop
            invariant
                resolve(self@, cur, name@) == resolve(self@, env, name@),
            decreases
                (match cur {
                    EnvRef::Null => 0int,
                    EnvRef::Scope(i) => i + 1,
                }),
        {
            match cur {
                EnvRef::Null => {
                    return None;
                },
                EnvRef::Scope(i) => {
                    if i >= self.scopes.len() {
                        return None;
                    }
                    if self.scopes[i].values.contains_key(name) {
                        return Some(i);
                    }
                    match self.scopes[i].parent {
                        EnvRef::Null => {
                            return None;
                        },
                        EnvRef::Scope(j) => {
                            if j < i {
                                cur = EnvRef::Scope(j);
                            } else {
                                return None;
                            }
                        },
                    }
                },
            }
        }
    }

    /// Look `name` up from `env` outward. Fails with `UnboundVariable` when
    /// the search reaches the null scope.
    pub fn get(&self, env: EnvRef, name: &str) -> (r: SResult<Expr>)
        ensures
            match lookup(self@, env, name@) {
                Some(v) => r is Ok && r->Ok_0@ == v,
                None => r is Err && r->Err_0@ == SpecErr::UnboundVariable(name@),
            },
    {
        proof {
            lemma_resolve_in_range(self@, env, name@);
        }
        match self.find_scope(env, name) {
            Some(i) => {
                match self.scopes[i].values.get(name) {
                    Some(v) => Ok(v),
                    None => Err(SErr::UnboundVariable(name.to_owned())),
                }
            },
            None => Err(SErr::UnboundVariable(name.to_owned())),
        }
    }

    /// Bind `key` in the scope `env` itself, never in an ancestor. Returns
    /// whether `env` names a scope; if it does not, nothing changes.
    pub fn insert(&mut self, env: EnvRef, key: String, val: Expr) -> (ok: bool)
        ensures
            final(self)@ == define(old(self)@, env, key@, val@),
            ok == has_scope(old(self)@, env),
    {
        match env {
            EnvRef::Null => false,
            EnvRef::Scope(i) => {
                if i < self.scopes.len() {
                    self.scopes[i].values.insert(key, val);
                    assert(self@ =~= define(old(self)@, env, key@, val@));
                    true
                } else {
                    false
                }
            },
        }
    }

    /// Overwrite `key` in the nearest scope that binds it, searching from
    /// `env` outward. Fails with `UnboundVariable`, changing nothing, when no
    /// scope on the chain binds it.
    pub fn set(&mut self, env: EnvRef, key: &str, val: Expr) -> (r: SResult<()>)
        ensures
            final(self)@ == assign(old(self)@, env, key@, val@),
            match resolve(old(self)@, env, key@) {
                Some(_) => r is Ok,
                None => r is Err && r->Err_0@ == SpecErr::UnboundVariable(key@),
            },
    {
        match self.find_scope(env, key) {
            Some(i) => {
                proof {
                    lemma_resolve_in_range(self@, env, key@);
                }
                self.insert(EnvRef::Scope(i), key.to_owned(), val);
                Ok(())
            },
            None => Err(SErr::UnboundVariable(key.to_owned())),
        }
    }
}

/// A scope found by `resolve` is a scope of the store, and binds the name.
pub proof fn lemma_resolve_in_range(st: SpecStore, env: EnvRef, name: Seq<char>)
    ensures
        match resolve(st, env, name) {
            Some(i) => i < st.len() && st[i as int].vars.contains_key(name),
            None => true,
        },
    decreases
        (match env {
            EnvRef::Null => 0int,
            EnvRef::Scope(i) => i + 1,
        }),
{
    match env {
        EnvRef::Null => {},
        EnvRef::Scope(i) => {
            if i < st.len() && !st[i as int].vars.contains_key(name) {
                match st[i as int].parent {
                    EnvRef::Null => {},
                    EnvRef::Scope(j) => {
                        if j < i {
                            lemma_resolve_in_range(st, EnvRef::Scope(j), name);
                        }
                    },
                }
            }
        },
    }
}

impl Env {
    /// The null scope: the parent of the global scope.
    pub fn null() -> (r: EnvRef)
        ensures
            r == EnvRef::Null,
    {
        EnvRef::Null
    }

    /// Move the scope into the store and return its handle. The handle, not
    /// the scope, is what closures and call frames share; copy it freely.
    pub fn to_ref(self, store: &mut Store) -> (r: EnvRef)
        ensures
            final(store)@ == old(store)@.push(self@),
            r == EnvRef::Scope(old(store)@.len() as usize),
    {
        store.add_scope(self)
    }

    pub fn new(parent: EnvRef) -> (r: Env)
        ensures
            r@ == (SpecScope { parent, vars: Map::empty() }),
    {
        Env { parent: parent, values: EnvValues::new() }
    }

    pub fn with_values(parent: EnvRef, values: EnvValues) -> (r: Env)
        ensures
            r@ == (SpecScope { parent, vars: values@ }),
    {
        Env { parent: parent, values: values }
    }

    /// The value of `name` in this scope or, failing that, in the chain of
    /// scopes that starts at its parent.
    pub fn get(&self, name: &str, store: &Store) -> (r: SResult<Expr>)
        ensures
            match (if self@.vars.contains_key(name@) {
                Some(self@.vars[name@])
            } else {
                lookup(store@, self.parent, name@)
            }) {
                Some(v) => r is Ok && r->Ok_0@ == v,
                None => r is Err && r->Err_0@ == SpecErr::UnboundVariable(name@),
            },
    {
        match self.values.get(name) {
            Some(v) => Ok(v),
            None => store.get(self.parent, name),
        }
    }

    /// Bind `key` in this scope.
    pub fn insert(&mut self, key: String, val: Expr)
        ensures
            final(self)@ == (SpecScope {
                parent: old(self).parent,
                vars: old(self)@.vars.insert(key@, val@),
            }),
    {
        self.values.insert(key, val);
    }

    /// Bind each name to the value at the same place, in order. Values
    /// beyond the last name are left out.
    pub fn pack(&mut self, keys: &Vec<String>, vals: Vec<Expr>)
        requires
            keys.len() <= vals.len(),
        ensures
            final(self)@ == (SpecScope {
                parent: old(self).parent,
                vars: pack_from(old(self)@.vars, names_view(keys@), views(vals@), 0),
            }),
    {
        let mut i: usize = 0;
        while i < keys.len()
            invariant
                i <= keys.len(),
                keys.len() <= vals.len(),
                self.parent == old(self).parent,
                pack_from(self@.vars, names_view(keys@), views(vals@), i as int) == pack_from(
                    old(self)@.vars,
                    names_view(keys@),
                    views(vals@),
                    0,
                ),
            decreases keys.len() - i,
        {
            self.values.insert(keys[i].clone(), vals[i].clone());
            i += 1;
        }
    }
}

} // verus!

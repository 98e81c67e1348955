//! Scopes: a store of mutable name-to-value maps, each linked to its parent scope.
use vstd::prelude::*;
use vstd::string::*;
use crate::value::{Datum, Native, Proc, Value, Function};

verus! {

/// One name bound in one scope.
pub struct Binding {
    pub frame: usize,
    pub name: String,
    pub value: Value,
}

/// All the scopes of one interpretation. A scope is an index: `parents[f]` is the
/// parent of scope `f` (scope 0 is the root, which has none), and each binding
/// records the scope it belongs to. Closures refer to the scope they were made in
/// by its index, so every holder of a scope sees the changes made to it.
///
/// The store is well formed (`wf`) when scope 0 alone has no parent, every other
/// scope's parent is an older scope, and every binding belongs to an existing
/// scope; the evaluator requires this and keeps it. Scopes and bindings are not
/// reclaimed while the store lives: a scope that nothing refers to any more stays
/// until the store is dropped at the end of the interpretation, and a lookup scans
/// the bindings of the whole store.
pub struct Environment {
    pub parents: Vec<Option<usize>>,
    pub bindings: Vec<Binding>,
}

/// The mathematical form of a binding.
pub struct Bound {
    pub frame: nat,
    pub name: Seq<char>,
    pub value: Datum,
}

/// The mathematical form of the store of scopes.
pub struct Scopes {
    pub parents: Seq<Option<usize>>,
    pub binds: Seq<Bound>,
}

pub open spec fn bound_of(b: Binding) -> Bound {
    Bound { frame: b.frame as nat, name: b.name@, value: b.value.view() }
}

impl Environment {
    pub open spec fn view(&self) -> Scopes {
        Scopes {
            parents: self.parents@,
            binds: self.bindings@.map_values(|b: Binding| bound_of(b)),
        }
    }
}

/// The store is well formed: scope 0 is the root and has no parent, every other
/// scope has an older scope as parent, and every binding is in an existing scope.
pub open spec fn wf(m: Scopes) -> bool {
    &&& m.parents.len() > 0
    &&& m.parents[0] is None
    &&& forall|i: int| 0 < i < m.parents.len() ==> (#[trigger] m.parents[i]) is Some
        && (m.parents[i]->Some_0 as int) < i
    &&& forall|k: int| 0 <= k < m.binds.len() ==> (#[trigger] m.binds[k]).frame < m.parents.len()
}

/// `n` is a well-formed store that has at least the scopes of `m`.
pub open spec fn grows(m: Scopes, n: Scopes) -> bool {
    wf(n) && n.parents.len() >= m.parents.len()
}

/// The first binding at or after `j` of `name` in scope `f`.
pub open spec fn find_from(binds: Seq<Bound>, f: nat, name: Seq<char>, j: nat) -> Option<nat>
    decreases binds.len() - j,
{
    if j >= binds.len() {
        None
    } else if binds[j as int].frame == f && binds[j as int].name == name {
        Some(j)
    } else {
        find_from(binds, f, name, j + 1)
    }
}

/// The binding of `name` in scope `f` itself.
pub open spec fn find_local(m: Scopes, f: nat, name: Seq<char>) -> Option<nat> {
    find_from(m.binds, f, name, 0)
}

/// The binding of `name` seen from scope `f`: the one in the innermost scope
/// of the chain from `f` up to the root.
pub open spec fn lookup(m: Scopes, f: nat, name: Seq<char>) -> Option<nat>
    decreases f,
{
    if f >= m.parents.len() {
        None
    } else {
        match find_local(m, f, name) {
            Some(j) => Some(j),
            None => match m.parents[f as int] {
                Some(p) => if (p as nat) < f { lookup(m, p as nat, name) } else { None },
                None => None,
            },
        }
    }
}

/// The store after binding `j` is given the value `v`.
pub open spec fn assign(m: Scopes, j: nat, v: Datum) -> Scopes {
    Scopes {
        parents: m.parents,
        binds: m.binds.update(j as int, Bound { frame: m.binds[j as int].frame, name: m.binds[j as int].name, value: v }),
    }
}

/// The store after `name` is bound to `v` in scope `f`, replacing a binding there.
pub open spec fn bind(m: Scopes, f: nat, name: Seq<char>, v: Datum) -> Scopes {
    match find_local(m, f, name) {
        Some(j) => assign(m, j, v),
        None => Scopes { parents: m.parents, binds: m.binds.push(Bound { frame: f, name, value: v }) },
    }
}

/// The store with one more scope, a child of `parent`.
pub open spec fn with_child(m: Scopes, parent: nat) -> Scopes {
    Scopes { parents: m.parents.push(Some(parent as usize)), binds: m.binds }
}

pub open spec fn native_bound(name: Seq<char>, n: Native) -> Bound {
    Bound { frame: 0, name, value: Datum::Procedure(Proc::Native(n)) }
}

/// The store at the start of an interpretation: the root scope alone, holding
/// the built-in procedures.
pub open spec fn root_scopes() -> Scopes {
    Scopes {
        parents: seq![None],
        binds: seq![
            native_bound("define"@, Native::Define),
            native_bound("set!"@, Native::SetBang),
            native_bound("lambda"@, Native::Lambda),
            native_bound("λ"@, Native::Lambda),
            native_bound("if"@, Native::If),
            native_bound("+"@, Native::Plus),
            native_bound("-"@, Native::Minus),
            native_bound("and"@, Native::And),
            native_bound("or"@, Native::Or),
            native_bound("list"@, Native::List),
            native_bound("quote"@, Native::Quote),
            native_bound("quasiquote"@, Native::Quasiquote),
            native_bound("error"@, Native::Error),
        ],
    }
}

impl Environment {
    fn add_native(&mut self, name: &str, n: Native)
        ensures
            final(self)@ == (Scopes {
                parents: old(self)@.parents,
                binds: old(self)@.binds.push(native_bound(name@, n)),
            }),
    {
        let b = Binding { frame: 0, name: String::from_str(name), value: Value::VProcedure(Function::NativeFunction(n)) };
        self.bindings.push(b);
        assert(self@.binds =~= old(self)@.binds.push(native_bound(name@, n)));
    }

    /// The root scope, holding the built-in procedures.
    pub fn new_root() -> (r: Environment)
        ensures
            r@ == root_scopes(),
            wf(r@),
    {
        let mut parents: Vec<Option<usize>> = Vec::new();
        parents.push(None);
        let mut env = Environment { parents, bindings: Vec::new() };
        assert(env@.binds =~= Seq::<Bound>::empty());
        env.add_native("define", Native::Define);
        env.add_native("set!", Native::SetBang);
        env.add_native("lambda", Native::Lambda);
        env.add_native("λ", Native::Lambda);
        env.add_native("if", Native::If);
        env.add_native("+", Native::Plus);
        env.add_native("-", Native::Minus);
        env.add_native("and", Native::And);
        env.add_native("or", Native::Or);
        env.add_native("list", Native::List);
        env.add_native("quote", Native::Quote);
        env.add_native("quasiquote", Native::Quasiquote);
        env.add_native("error", Native::Error);
        assert(env@.parents =~= root_scopes().parents);
        assert(env@.binds =~= root_scopes().binds);
        assert(wf(env@));
        env
    }

    /// Adds a scope whose parent is `parent`, and returns its index.
    pub fn new_child(&mut self, parent: usize) -> (r: usize)
        requires
            old(self).parents.len() < usize::MAX,
            parent < old(self).parents.len(),
        ensures
            r == old(self).parents.len(),
            final(self)@ == with_child(old(self)@, parent as nat),
            wf(old(self)@) ==> grows(old(self)@, final(self)@),
    {
        let r = self.parents.len();
        self.parents.push(Some(parent));
        proof {
            if wf(old(self)@) {
                assert(forall|i: int| 0 <= i < r ==> self@.parents[i] == old(self)@.parents[i]);
                assert(wf(self@));
            }
        }
        r
    }

    /// The index of the binding of `name` in scope `f` itself.
    pub fn find_local(&self, f: usize, name: &String) -> (r: Option<usize>)
        ensures
            match r {
                Some(j) => find_local(self@, f as nat, name@) == Some(j as nat),
                None => find_local(self@, f as nat, name@) is None,
            },
    {
        let ghost m = self@;
        let mut j: usize = 0;
        while j < self.bindings.len()
            invariant
                m == self@,
                j <= self.bindings.len(),
                find_from(m.binds, f as nat, name@, 0) == find_from(m.binds, f as nat, name@, j as nat),
            decreases self.bindings.len() - j,
        {
            if self.bindings[j].frame == f && self.bindings[j].name == *name {
                return Some(j);
            }
            j = j + 1;
        }
        None
    }

    /// Whether `name` is bound in scope `f` itself.
    pub fn has(&self, f: usize, name: &String) -> (r: bool)
        ensures
            r == (find_local(self@, f as nat, name@) is Some),
    {
        match self.find_local(f, name) {
            Some(_) => true,
            None => false,
        }
    }

    /// The index of the binding of `name` seen from scope `f`.
    pub fn find(&self, f: usize, name: &String) -> (r: Option<usize>)
        ensures
            match r {
                Some(j) => lookup(self@, f as nat, name@) == Some(j as nat) && j < self.bindings.len(),
                None => lookup(self@, f as nat, name@) is None,
            },
    {
        let mut cur = f;
        loop
            invariant
                lookup(self@, cur as nat, name@) == lookup(self@, f as nat, name@),
            decreases cur,
        {
            if cur >= self.parents.len() {
                return None;
            }
            match self.find_local(cur, name) {
                Some(j) => {
                    proof { lemma_find_from_found(self@.binds, cur as nat, name@, 0); }
                    return Some(j);
                },
                None => {},
            }
            match self.parents[cur] {
                Some(p) => {
                    if p < cur {
                        cur = p;
                    } else {
                        return None;
                    }
                },
                None => return None,
            }
        }
    }

    /// A copy of the value of `name` seen from scope `f`.
    pub fn get(&self, f: usize, name: &String) -> (r: Option<Value>)
        ensures
            match r {
                Some(v) => lookup(self@, f as nat, name@) matches Some(j) && j < self@.binds.len()
                    && v.view() == self@.binds[j as int].value,
                None => lookup(self@, f as nat, name@) is None,
            },
    {
        match self.find(f, name) {
            Some(j) => Some(self.bindings[j].value.duplicate()),
            None => None,
        }
    }

    /// Gives binding `j` the value `v`.
    pub fn assign(&mut self, j: usize, v: Value)
        requires
            j < old(self).bindings.len(),
        ensures
            final(self)@ == assign(old(self)@, j as nat, v.view()),
            wf(old(self)@) ==> grows(old(self)@, final(self)@),
    {
        let ghost bv = v.view();
        self.bindings[j].value = v;
        assert(self@.binds =~= assign(old(self)@, j as nat, bv).binds);
        proof {
            if wf(old(self)@) {
                assert(forall|k: int| 0 <= k < self@.binds.len() ==> #[trigger] self@.binds[k].frame
                    == old(self)@.binds[k].frame);
                assert(wf(self@));
            }
        }
    }

    /// Binds `name` to `v` in scope `f`, replacing a binding there.
    pub fn set(&mut self, f: usize, name: String, v: Value)
        requires
            f < old(self).parents.len(),
        ensures
            final(self)@ == bind(old(self)@, f as nat, name@, v.view()),
            wf(old(self)@) ==> grows(old(self)@, final(self)@),
    {
        match self.find_local(f, &name) {
            Some(j) => {
                proof { lemma_find_from_found(self@.binds, f as nat, name@, 0); }
                self.assign(j, v);
            },
            None => {
                let ghost b = Bound { frame: f as nat, name: name@, value: v.view() };
                self.bindings.push(Binding { frame: f, name, value: v });
                assert(self@.binds =~= old(self)@.binds.push(b));
                proof {
                    if wf(old(self)@) {
                        assert(forall|k: int| 0 <= k < old(self)@.binds.len() ==> #[trigger] self@.binds[k]
                            == old(self)@.binds[k]);
                        assert(wf(self@));
                    }
                }
            },
        }
    }
}

pub proof fn lemma_find_from_found(binds: Seq<Bound>, f: nat, name: Seq<char>, j: nat)
    ensures
        find_from(binds, f, name, j) matches Some(k) ==> j <= k < binds.len()
            && binds[k as int].frame == f && binds[k as int].name == name,
    decreases binds.len() - j,
{
    if j < binds.len() {
        lemma_find_from_found(binds, f, name, j + 1);
    }
}

} // verus!

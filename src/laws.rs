//! Properties of evaluation that hold for all inputs, proved from the semantics.
use vstd::prelude::*;
use crate::env::{Bound, Scopes, assign, bind, find_from, find_local, lemma_find_from_found, lookup, wf, with_child};
use crate::semantics::{
    and_from, apply, err, eval, eval_seq, msg_arity, msg_duplicate, msg_if_arity, msg_undefined, native_define,
    native_if, native_set, ok, or_from, quote_datum, quote_items,
};
use crate::value::{Datum, Proc, nil};

verus! {

// ---------------------------------------------------------------------------
// Lookup in the store of scopes.

/// Two lists of bindings with the same scopes and names, index by index, find alike.
pub proof fn lemma_find_from_same_keys(b1: Seq<Bound>, b2: Seq<Bound>, f: nat, name: Seq<char>, j: nat)
    requires
        b1.len() == b2.len(),
        forall|k: int| #![trigger b1[k]] 0 <= k < b1.len() ==> b1[k].frame == b2[k].frame && b1[k].name == b2[k].name,
    ensures
        find_from(b1, f, name, j) == find_from(b2, f, name, j),
    decreases b1.len() - j,
{
    if j < b1.len() {
        lemma_find_from_same_keys(b1, b2, f, name, j + 1);
    }
}

/// Two stores with the same scopes and the same names bound, index by index, look up alike.
pub proof fn lemma_lookup_same_keys(m1: Scopes, m2: Scopes, f: nat, name: Seq<char>)
    requires
        m1.parents == m2.parents,
        m1.binds.len() == m2.binds.len(),
        forall|k: int| #![trigger m1.binds[k]] 0 <= k < m1.binds.len() ==> m1.binds[k].frame == m2.binds[k].frame
            && m1.binds[k].name == m2.binds[k].name,
    ensures
        lookup(m1, f, name) == lookup(m2, f, name),
    decreases f,
{
    lemma_find_from_same_keys(m1.binds, m2.binds, f, name, 0);
    if f < m1.parents.len() {
        match m1.parents[f as int] {
            Some(p) => if (p as nat) < f {
                lemma_lookup_same_keys(m1, m2, p as nat, name);
            },
            None => {},
        }
    }
}

/// Finding in a list with one more binding at its end.
pub proof fn lemma_find_from_push(binds: Seq<Bound>, x: Bound, f: nat, name: Seq<char>, j: nat)
    requires
        j <= binds.len(),
    ensures
        find_from(binds.push(x), f, name, j) == match find_from(binds, f, name, j) {
            Some(k) => Some(k),
            None => if x.frame == f && x.name == name { Some(binds.len()) } else { None },
        },
    decreases binds.len() - j,
{
    if j < binds.len() {
        assert(binds.push(x)[j as int] == binds[j as int]);
        lemma_find_from_push(binds, x, f, name, j + 1);
    } else {
        assert(find_from(binds.push(x), f, name, j + 1) is None);
    }
}

/// What lookup finds is a binding of that name in a scope no deeper than the start.
pub proof fn lemma_lookup_found(m: Scopes, f: nat, name: Seq<char>)
    ensures
        lookup(m, f, name) matches Some(j) ==> j < m.binds.len() && m.binds[j as int].frame <= f
            && m.binds[j as int].name == name,
    decreases f,
{
    lemma_find_from_found(m.binds, f, name, 0);
    if f < m.parents.len() {
        match m.parents[f as int] {
            Some(p) => if (p as nat) < f {
                lemma_lookup_found(m, p as nat, name);
            },
            None => {},
        }
    }
}

/// A name bound in a scope itself is found there, before any binding of it further out.
pub proof fn law_inner_binding_first(m: Scopes, f: nat, name: Seq<char>)
    requires
        f < m.parents.len(),
        find_local(m, f, name) is Some,
    ensures
        lookup(m, f, name) == find_local(m, f, name),
{
}

/// Binding a name in a newer scope `c` changes nothing that is seen from an older
/// scope `p`: neither which binding a lookup finds nor its value.
pub proof fn law_inner_binding_leaves_outer(m: Scopes, c: nat, name: Seq<char>, v: Datum, p: nat, n: Seq<char>)
    requires
        p < c,
    ensures
        lookup(bind(m, c, name, v), p, n) == lookup(m, p, n),
        lookup(m, p, n) matches Some(j) ==> bind(m, c, name, v).binds[j as int].value == m.binds[j as int].value,
    decreases p,
{
    let m2 = bind(m, c, name, v);
    lemma_lookup_found(m, p, n);
    match find_local(m, c, name) {
        Some(j) => {
            lemma_find_from_found(m.binds, c, name, 0);
            lemma_lookup_same_keys(m, m2, p, n);
        },
        None => {
            let x = Bound { frame: c, name, value: v };
            lemma_find_from_push(m.binds, x, p, n, 0);
            if p < m.parents.len() {
                match m.parents[p as int] {
                    Some(q) => if (q as nat) < p {
                        law_inner_binding_leaves_outer(m, c, name, v, q as nat, n);
                    },
                    None => {},
                }
            }
        },
    }
}

/// Giving a binding a new value is seen by every later lookup that found it:
/// the same binding is found, now with the new value.
pub proof fn law_assignment_visible(m: Scopes, j: nat, v: Datum, f: nat, name: Seq<char>, fuel: nat)
    requires
        lookup(m, f, name) == Some(j),
    ensures
        lookup(assign(m, j, v), f, name) == Some(j),
        eval(assign(m, j, v), Datum::Symbol(name), f, fuel) == ok(v, assign(m, j, v)),
{
    lemma_lookup_found(m, f, name);
    lemma_lookup_same_keys(m, assign(m, j, v), f, name);
}

/// A binding made in a scope by `define` is what a later lookup of that name
/// from the same scope gives.
pub proof fn law_definition_visible(m: Scopes, f: nat, name: Seq<char>, v: Datum, fuel: nat)
    requires
        f < m.parents.len(),
    ensures
        eval(bind(m, f, name, v), Datum::Symbol(name), f, fuel) == ok(v, bind(m, f, name, v)),
{
    let m2 = bind(m, f, name, v);
    match find_local(m, f, name) {
        Some(j) => {
            lemma_find_from_found(m.binds, f, name, 0);
            lemma_find_from_same_keys(m.binds, m2.binds, f, name, 0);
        },
        None => {
            lemma_find_from_push(m.binds, Bound { frame: f, name, value: v }, f, name, 0);
        },
    }
}

/// In a well-formed store, lookup walks the whole chain of parents: a name not
/// bound in a scope is looked up in its parent, and the root ends the walk.
pub proof fn law_lookup_walks_chain(m: Scopes, f: nat, name: Seq<char>)
    requires
        wf(m),
        f < m.parents.len(),
        find_local(m, f, name) is None,
    ensures
        f == 0 ==> lookup(m, f, name) is None,
        f > 0 ==> lookup(m, f, name) == lookup(m, m.parents[f as int]->Some_0 as nat, name),
{
}

/// No binding of a well-formed store is in a scope it does not have yet.
pub proof fn lemma_no_binding_beyond(m: Scopes, g: nat, name: Seq<char>, j: nat)
    requires
        wf(m),
        g >= m.parents.len(),
    ensures
        find_from(m.binds, g, name, j) is None,
    decreases m.binds.len() - j,
{
    if j < m.binds.len() {
        lemma_no_binding_beyond(m, g, name, j + 1);
    }
}

/// Adding a scope changes no lookup from the scopes already there.
pub proof fn lemma_lookup_with_child(m: Scopes, c: nat, g: nat, name: Seq<char>)
    requires
        g < m.parents.len(),
    ensures
        lookup(with_child(m, c), g, name) == lookup(m, g, name),
    decreases g,
{
    let m2 = with_child(m, c);
    assert(m2.parents[g as int] == m.parents[g as int]);
    match m.parents[g as int] {
        Some(p) => if (p as nat) < g {
            lemma_lookup_with_child(m, c, p as nat, name);
        },
        None => {},
    }
}

/// Calling a closure made in scope `cf` runs its body in a new scope whose parent
/// is `cf` itself, as the store is at the time of the call: every name the body
/// does not bind itself is read from `cf`'s chain with the values it has then,
/// so changes made by `define` or `set!` after the closure was made are seen.
pub proof fn law_closure_call_scope(m: Scopes, body: Seq<Datum>, cf: nat, f: nat, fuel: nat, name: Seq<char>)
    requires
        wf(m),
        cf < m.parents.len(),
        m.parents.len() < usize::MAX,
        fuel > 1,
    ensures
        apply(m, Proc::Closure(Seq::empty(), body, cf), Seq::empty(), f, fuel)
            == eval_seq(with_child(m, cf), body, 0, m.parents.len(), (fuel - 1) as nat, nil()),
        lookup(with_child(m, cf), m.parents.len(), name) == lookup(m, cf, name),
{
    let m2 = with_child(m, cf);
    let nf = m.parents.len();
    lemma_no_binding_beyond(m, nf, name, 0);
    assert(m2.parents[nf as int] == Some(cf as usize));
    lemma_lookup_with_child(m, cf, cf, name);
}

/// Binding a name in a scope makes it bound there.
pub proof fn lemma_bind_binds(m: Scopes, f: nat, name: Seq<char>, v: Datum)
    ensures
        find_local(bind(m, f, name, v), f, name) is Some,
{
    match find_local(m, f, name) {
        Some(j) => {
            lemma_find_from_found(m.binds, f, name, 0);
            lemma_find_from_same_keys(m.binds, assign(m, j, v).binds, f, name, 0);
        },
        None => {
            lemma_find_from_push(m.binds, Bound { frame: f, name, value: v }, f, name, 0);
        },
    }
}

// ---------------------------------------------------------------------------
// Evaluation.

/// Integers, booleans and strings evaluate to themselves, in any store and scope.
pub proof fn law_self_evaluation(m: Scopes, d: Datum, f: nat, fuel: nat)
    requires
        d is Integer || d is Boolean || d is Str,
    ensures
        eval(m, d, f, fuel) == ok(d, m),
{
}

/// `if` takes its first branch for every condition value but `#f`, and its second for `#f`.
pub proof fn law_if_truthiness(m: Scopes, args: Seq<Datum>, f: nat, fuel: nat)
    requires
        args.len() == 3,
    ensures
        ({
            let (r, m1) = eval(m, args[0], f, fuel);
            &&& (r is Ok && r->Ok_0 != Datum::Boolean(false))
                ==> native_if(m, args, f, fuel) == eval(m1, args[1], f, fuel)
            &&& r == Ok::<Datum, Seq<char>>(Datum::Boolean(false))
                ==> native_if(m, args, f, fuel) == eval(m1, args[2], f, fuel)
        }),
{
}

/// `and` stops at a first operand that gives `#f`: whatever follows is not evaluated.
pub proof fn law_and_short_circuit(m: Scopes, args: Seq<Datum>, f: nat, fuel: nat)
    requires
        args.len() >= 1,
        eval(m, args[0], f, fuel).0 == Ok::<Datum, Seq<char>>(Datum::Boolean(false)),
    ensures
        and_from(m, args, 0, f, fuel, Datum::Boolean(true))
            == ok(Datum::Boolean(false), eval(m, args[0], f, fuel).1),
{
}

/// `or` stops at a first operand that gives anything but `#f`, and gives that value.
pub proof fn law_or_short_circuit(m: Scopes, args: Seq<Datum>, f: nat, fuel: nat)
    requires
        args.len() >= 1,
        eval(m, args[0], f, fuel).0 is Ok,
        eval(m, args[0], f, fuel).0->Ok_0 != Datum::Boolean(false),
    ensures
        or_from(m, args, 0, f, fuel) == (eval(m, args[0], f, fuel).0,
            eval(m, args[0], f, fuel).1),
{
}

/// How deeply lists nest in a value.
pub open spec fn depth(d: Datum) -> nat
    decreases d,
{
    match d {
        Datum::List(items) => 1 + max_depth(items),
        _ => 0,
    }
}

/// The greatest depth of the items.
pub open spec fn max_depth(items: Seq<Datum>) -> nat
    decreases items,
{
    if items.len() == 0 {
        0
    } else {
        let a = max_depth(items.drop_last());
        let b = depth(items.last());
        if a >= b { a } else { b }
    }
}

pub proof fn lemma_max_depth(items: Seq<Datum>, k: int)
    requires
        0 <= k < items.len(),
    ensures
        depth(items[k]) <= max_depth(items),
    decreases items.len(),
{
    if k < items.len() - 1 {
        lemma_max_depth(items.drop_last(), k);
    }
}

/// Plain quoting gives its operand back unchanged, `unquote` forms included,
/// without evaluating anything, given depth budget for its nesting.
pub proof fn law_quote_literal(m: Scopes, x: Datum, f: nat, fuel: nat)
    requires
        fuel > 2 * depth(x),
    ensures
        quote_datum(m, x, false, f, fuel) == ok(x, m),
    decreases fuel, 0int,
{
    match x {
        Datum::List(items) => {
            assert(items.subrange(0, 0) =~= Seq::<Datum>::empty());
            lemma_quote_items_literal(m, items, 0, f, (fuel - 1) as nat);
        },
        _ => {},
    }
}

pub proof fn lemma_quote_items_literal(m: Scopes, items: Seq<Datum>, i: nat, f: nat, fuel: nat)
    requires
        fuel > 1 + 2 * max_depth(items),
        i <= items.len(),
    ensures
        quote_items(m, items, i, false, f, fuel, items.subrange(0, i as int)) == ok(Datum::List(items), m),
    decreases fuel, items.len() - i,
{
    if i < items.len() {
        lemma_max_depth(items, i as int);
        law_quote_literal(m, items[i as int], f, (fuel - 1) as nat);
        assert(items.subrange(0, i as int).push(items[i as int]) =~= items.subrange(0, i + 1int));
        lemma_quote_items_literal(m, items, i + 1, f, fuel);
    } else {
        assert(items.subrange(0, i as int) =~= items);
    }
}

/// A closure called with a number of arguments other than its number of
/// parameters fails, before evaluating any of them.
pub proof fn law_closure_arity(m: Scopes, params: Seq<Seq<char>>, body: Seq<Datum>, cf: nat, args: Seq<Datum>, f: nat, fuel: nat)
    requires
        fuel > 0,
        params.len() != args.len(),
    ensures
        apply(m, Proc::Closure(params, body, cf), args, f, fuel) == err(msg_arity(), m),
{
}

/// `if` with other than three operands fails, before evaluating any of them.
pub proof fn law_if_arity(m: Scopes, args: Seq<Datum>, f: nat, fuel: nat)
    requires
        args.len() != 3,
    ensures
        native_if(m, args, f, fuel) == err(msg_if_arity(), m),
{
}

/// Once `define` of a name has succeeded in a scope, defining it there again fails.
pub proof fn law_no_redefinition(m: Scopes, name: Seq<char>, e1: Datum, e2: Datum, f: nat, fuel1: nat, fuel2: nat)
    requires
        native_define(m, seq![Datum::Symbol(name), e1], f, fuel1).0 is Ok,
    ensures
        native_define(native_define(m, seq![Datum::Symbol(name), e1], f, fuel1).1,
            seq![Datum::Symbol(name), e2], f, fuel2)
            == err(msg_duplicate() + name, native_define(m, seq![Datum::Symbol(name), e1], f, fuel1).1),
{
    let args = seq![Datum::Symbol(name), e1];
    let (r, m1) = eval(m, args[1], f, fuel1);
    lemma_bind_binds(m1, f, name, r->Ok_0);
}

/// `set!` of a name that no scope of the chain binds fails, before evaluating anything.
pub proof fn law_set_unbound(m: Scopes, name: Seq<char>, e: Datum, f: nat, fuel: nat)
    requires
        lookup(m, f, name) is None,
    ensures
        native_set(m, seq![Datum::Symbol(name), e], f, fuel) == err(msg_undefined() + name, m),
{
}

} // verus!

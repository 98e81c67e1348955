//! The evaluator: reduces values to values in a store of scopes.
use vstd::prelude::*;
use vstd::string::*;
use crate::env::{Environment, grows, wf, with_child};
use crate::semantics;
use crate::semantics::{
    Outcome, and_from, apply, bind_args, eval, eval_expr, eval_seq, is_unquote, list_from, or_from,
    plus_from, quote_datum, quote_items, symbol_names,
};
use crate::value::{Datum, Proc, Function, Native, Node, Value, names_view, nil, node_views, views, lemma_views, lemma_views_push};

verus! {

/// How deep evaluation may nest before it fails: evaluating an expression, applying
/// a procedure and running a closure body spend one unit each, so a recursive
/// closure call spends from three to about five, and a few hundred such calls can
/// be nested. The bound keeps evaluation from exhausting the host's stack.
pub const MAX_DEPTH: usize = 2000;

/// An evaluation error, with its message.
#[derive(Debug)]
pub struct RuntimeError {
    pub message: String,
}

impl RuntimeError {
    /// The error as text: `RuntimeError: <message>`.
    pub fn to_string(&self) -> (r: String)
        ensures
            r@ == "RuntimeError: "@ + self.message@,
    {
        let mut s = String::from_str("RuntimeError: ");
        s.append(self.message.as_str());
        s
    }
}

/// The outcome that an executable result and store stand for.
pub open spec fn outcome(r: Result<Value, RuntimeError>, env: Environment) -> Outcome {
    (
        match r {
            Ok(v) => Ok(v.view()),
            Err(e) => Err(e.message@),
        },
        env@,
    )
}

fn fail(message: &str) -> (r: Result<Value, RuntimeError>)
    ensures
        r matches Err(e) && e.message@ == message@,
{
    Err(RuntimeError { message: String::from_str(message) })
}

fn fail_with(message: &str, detail: &String) -> (r: Result<Value, RuntimeError>)
    ensures
        r matches Err(e) && e.message@ == message@ + detail@,
{
    let mut s = String::from_str(message);
    s.append(detail.as_str());
    Err(RuntimeError { message: s })
}

fn nil_value() -> (r: Value)
    ensures
        r.view() == nil(),
{
    let v: Vec<Value> = Vec::new();
    assert(views(v@) =~= Seq::<Datum>::empty());
    Value::VList(v)
}

pub proof fn lemma_views_tail(s: Seq<Value>)
    requires
        s.len() > 0,
    ensures
        views(s.subrange(1, s.len() as int)) == views(s).drop_first(),
{
    lemma_views(s);
    lemma_views(s.subrange(1, s.len() as int));
    assert(views(s.subrange(1, s.len() as int)) =~= views(s).drop_first());
}

/// Evaluates `nodes` in order against a fresh root scope; the result is the
/// value of the last one (the empty list when there is none), or the first error.
/// Evaluation nests at most `MAX_DEPTH` deep: a program that nests deeper, such
/// as a recursion of more than a few hundred closure calls, fails with
/// "Maximum evaluation depth exceeded" rather than exhausting the stack.
pub fn interpret(nodes: &[Node]) -> (r: Result<Value, RuntimeError>)
    ensures
        ({
            let (res, _) = eval_seq(crate::env::root_scopes(), node_views(nodes@), 0, 0, MAX_DEPTH as nat, nil());
            outcome_result(r) == res
        }),
{
    let mut env = Environment::new_root();
    let values = Value::from_nodes(nodes);
    evaluate_values(values.as_slice(), &mut env, 0, MAX_DEPTH)
}

/// The value or error message of a result.
pub open spec fn outcome_result(r: Result<Value, RuntimeError>) -> Result<Datum, Seq<char>> {
    match r {
        Ok(v) => Ok(v.view()),
        Err(e) => Err(e.message@),
    }
}

/// Evaluates `values` in order in scope `f`; the result is that of the last.
pub fn evaluate_values(values: &[Value], env: &mut Environment, f: usize, fuel: usize) -> (r: Result<Value, RuntimeError>)
    requires
        wf(old(env)@),
        f < old(env)@.parents.len(),
    ensures
        grows(old(env)@, final(env)@),
        outcome(r, *final(env)) == eval_seq(old(env)@, views(values@), 0, f as nat, fuel as nat, nil()),
    decreases fuel, 2int,
{
    if fuel == 0 {
        return fail("Maximum evaluation depth exceeded");
    }
    let ghost xs = views(values@);
    proof { lemma_views(values@); }
    let mut last = nil_value();
    let mut i: usize = 0;
    while i < values.len()
        invariant
            wf(env@),
            f < env@.parents.len(),
            env@.parents.len() >= old(env)@.parents.len(),
            fuel > 0,
            xs == views(values@),
            xs.len() == values@.len(),
            forall|j: int| 0 <= j < values@.len() ==> #[trigger] xs[j] == values@[j].view(),
            i <= values.len(),
            eval_seq(env@, xs, i as nat, f as nat, fuel as nat, last.view())
                == eval_seq(old(env)@, xs, 0, f as nat, fuel as nat, nil()),
        decreases values.len() - i,
    {
        match evaluate_value(&values[i], env, f, fuel - 1) {
            Ok(v) => {
                last = v;
            },
            Err(e) => {
                return Err(e);
            },
        }
        i = i + 1;
    }
    Ok(last)
}

/// Evaluates `value` in scope `f`.
pub fn evaluate_value(value: &Value, env: &mut Environment, f: usize, fuel: usize) -> (r: Result<Value, RuntimeError>)
    requires
        wf(old(env)@),
        f < old(env)@.parents.len(),
    ensures
        grows(old(env)@, final(env)@),
        outcome(r, *final(env)) == eval(old(env)@, value.view(), f as nat, fuel as nat),
    decreases fuel, 0int,
{
    match value {
        Value::VSymbol(name) => match env.get(f, name) {
            Some(v) => Ok(v),
            None => fail_with("Identifier not found: ", name),
        },
        Value::VList(items) => {
            if items.len() == 0 {
                proof { lemma_views(items@); }
                Ok(nil_value())
            } else if fuel == 0 {
                fail("Maximum evaluation depth exceeded")
            } else {
                evaluate_expression(items, env, f, fuel - 1)
            }
        },
        _ => Ok(value.duplicate()),
    }
}

/// Evaluates the expression `items`: its first element must give a procedure,
/// which is applied to the rest of them, unevaluated.
pub fn evaluate_expression(items: &Vec<Value>, env: &mut Environment, f: usize, fuel: usize) -> (r: Result<Value, RuntimeError>)
    requires
        items.len() > 0,
        wf(old(env)@),
        f < old(env)@.parents.len(),
    ensures
        grows(old(env)@, final(env)@),
        outcome(r, *final(env)) == eval_expr(old(env)@, views(items@), f as nat, fuel as nat),
    decreases fuel, 1int,
{
    proof { lemma_views(items@); lemma_views_tail(items@); }
    let head = evaluate_value(&items[0], env, f, fuel);
    match head {
        Err(e) => Err(e),
        Ok(Value::VProcedure(func)) => {
            let sl = items.as_slice();
            let args = &sl[1..items.len()];
            assert(args@ == items@.subrange(1, items.len() as int));
            apply_function(&func, args, env, f, fuel)
        },
        Ok(v) => {
            let t = v.to_str();
            fail_with("First element in an expression must be a procedure: ", &t)
        },
    }
}

/// Applies `func` to the unevaluated `args`, called from scope `f`.
pub fn apply_function(func: &Function, args: &[Value], env: &mut Environment, f: usize, fuel: usize) -> (r: Result<Value, RuntimeError>)
    requires
        wf(old(env)@),
        f < old(env)@.parents.len(),
    ensures
        grows(old(env)@, final(env)@),
        outcome(r, *final(env)) == apply(old(env)@, Value::VProcedure(*func).view()->Procedure_0, views(args@), f as nat, fuel as nat),
    decreases fuel, 0int,
{
    proof { lemma_views(args@); }
    if fuel == 0 {
        return fail("Maximum evaluation depth exceeded");
    }
    let g = fuel - 1;
    match func {
        Function::NativeFunction(n) => match n {
            Native::Define => native_define(args, env, f, g),
            Native::SetBang => native_set(args, env, f, g),
            Native::Lambda => native_lambda(args, env, f),
            Native::If => native_if(args, env, f, g),
            Native::Plus => native_plus(args, env, f, g),
            Native::Minus => native_minus(args, env, f, g),
            Native::And => native_and(args, env, f, g),
            Native::Or => native_or(args, env, f, g),
            Native::List => native_list(args, env, f, g),
            Native::Quote => native_quote(args, env, false, f, g),
            Native::Quasiquote => native_quote(args, env, true, f, g),
            Native::Error => native_error(args, env, f, g),
        },
        Function::SchemeFunction(params, body, cf) => {
            assert(Value::VProcedure(*func).view()->Procedure_0
                == Proc::Closure(names_view(params@), views(body@), *cf as nat));
            assert(names_view(params@).len() == params@.len());
            if params.len() != args.len() {
                return fail("Wrong number of arguments to function");
            }
            if *cf >= env.parents.len() {
                return fail("Closure scope does not exist");
            }
            if env.parents.len() >= usize::MAX {
                return fail("Too many scopes");
            }
            let nf = env.new_child(*cf);
            assert(env@ == with_child(old(env)@, *cf as nat));
            if g == 0 {
                return fail("Maximum evaluation depth exceeded");
            }
            let ghost a = views(args@);
            let ghost ps = names_view(params@);
            let ghost mc = env@;
            let ghost goal = bind_args(env@, ps, a, 0, nf as nat, f as nat, g as nat);
            proof { lemma_views(args@); }
            let mut i: usize = 0;
            while i < args.len()
                invariant
                    wf(env@),
                    f < env@.parents.len(),
                    env@.parents.len() >= old(env)@.parents.len(),
                    g > 0,
                    g == fuel - 1,
                    a == views(args@),
                    a.len() == args@.len(),
                    forall|j: int| 0 <= j < args@.len() ==> #[trigger] a[j] == args@[j].view(),
                    ps == names_view(params@),
                    params.len() == args.len(),
                    i <= args.len(),
                    bind_args(env@, ps, a, i as nat, nf as nat, f as nat, g as nat) == goal,
                    goal == bind_args(mc, ps, a, 0, nf as nat, f as nat, g as nat),
                    mc == with_child(old(env)@, *cf as nat),
                    nf < env@.parents.len(),
                    (*cf as nat) < old(env)@.parents.len(),
                    old(env)@.parents.len() < usize::MAX,
                    Value::VProcedure(*func).view()->Procedure_0
                        == Proc::Closure(ps, views(body@), *cf as nat),
                    nf == old(env)@.parents.len(),
                decreases args.len() - i,
            {
                let v = match evaluate_value(&args[i], env, f, g - 1) {
                    Ok(v) => v,
                    Err(e) => return Err(e),
                };
                env.set(nf, params[i].clone(), v);
                i = i + 1;
            }
            evaluate_values(body.as_slice(), env, nf, g)
        },
    }
}

/// `(define name expr)`.
fn native_define(args: &[Value], env: &mut Environment, f: usize, fuel: usize) -> (r: Result<Value, RuntimeError>)
    requires
        wf(old(env)@),
        f < old(env)@.parents.len(),
    ensures
        grows(old(env)@, final(env)@),
        outcome(r, *final(env)) == semantics::native_define(old(env)@, views(args@), f as nat, fuel as nat),
    decreases fuel, 1int,
{
    proof { lemma_views(args@); }
    if args.len() != 2 {
        return fail("Must supply exactly two arguments to define");
    }
    match &args[0] {
        Value::VSymbol(name) => {
            if env.has(f, name) {
                return fail_with("Duplicate define: ", name);
            }
            let v = match evaluate_value(&args[1], env, f, fuel) {
                Ok(v) => v,
                Err(e) => return Err(e),
            };
            env.set(f, name.clone(), v);
            Ok(nil_value())
        },
        _ => fail("Unexpected value for name in define"),
    }
}

/// `(set! name expr)`.
fn native_set(args: &[Value], env: &mut Environment, f: usize, fuel: usize) -> (r: Result<Value, RuntimeError>)
    requires
        wf(old(env)@),
        f < old(env)@.parents.len(),
    ensures
        grows(old(env)@, final(env)@),
        outcome(r, *final(env)) == semantics::native_set(old(env)@, views(args@), f as nat, fuel as nat),
    decreases fuel, 1int,
{
    proof { lemma_views(args@); }
    if args.len() != 2 {
        return fail("Must supply exactly two arguments to set!");
    }
    match &args[0] {
        Value::VSymbol(name) => {
            match env.find(f, name) {
                None => return fail_with("Can't set! an undefined variable: ", name),
                Some(_) => {},
            }
            let v = match evaluate_value(&args[1], env, f, fuel) {
                Ok(v) => v,
                Err(e) => return Err(e),
            };
            match env.find(f, name) {
                Some(j) => env.assign(j, v),
                None => {},
            }
            Ok(nil_value())
        },
        _ => fail("Unexpected value for name in set!"),
    }
}

/// `(lambda (params ...) body ...)`.
fn native_lambda(args: &[Value], env: &mut Environment, f: usize) -> (r: Result<Value, RuntimeError>)
    requires
        wf(old(env)@),
        f < old(env)@.parents.len(),
    ensures
        grows(old(env)@, final(env)@),
        outcome(r, *final(env)) == semantics::native_lambda(old(env)@, views(args@), f as nat),
{
    proof { lemma_views(args@); }
    if args.len() < 2 {
        return fail("Must supply at least two arguments to lambda");
    }
    match &args[0] {
        Value::VList(ps) => {
            proof { lemma_views(ps@); }
            let ghost pv = views(ps@);
            assert(views(args@)[0] == Datum::List(pv));
            let mut names: Vec<String> = Vec::new();
            let mut i: usize = 0;
            while i < ps.len()
                invariant
                    wf(env@),
                    f < env@.parents.len(),
                    env@.parents.len() >= old(env)@.parents.len(),
                    i <= ps.len(),
                    args@.len() >= 2,
                    views(args@)[0] == Datum::List(pv),
                    views(args@).len() == args@.len(),
                    *env == *old(env),
                    pv == views(ps@),
                    pv.len() == ps@.len(),
                    forall|j: int| 0 <= j < ps@.len() ==> #[trigger] pv[j] == ps@[j].view(),
                    symbol_names(pv.subrange(0, i as int)) == Some(names_view(names@)),
                decreases ps.len() - i,
            {
                assert(pv.subrange(0, i + 1).drop_last() =~= pv.subrange(0, i as int));
                match &ps[i] {
                    Value::VSymbol(s) => {
                        let ghost before = names@;
                        names.push(s.clone());
                        assert(names_view(names@) =~= names_view(before).push(s@));
                    },
                    _ => {
                        proof {
                            lemma_symbol_names_prefix(pv, i as int);
                            assert(views(args@)[0] == Datum::List(pv));
                        }
                        return fail("Unexpected argument in lambda arguments");
                    },
                }
                i = i + 1;
            }
            assert(pv.subrange(0, ps.len() as int) =~= pv);
            let mut body: Vec<Value> = Vec::new();
            let mut k: usize = 1;
            while k < args.len()
                invariant
                    wf(env@),
                    f < env@.parents.len(),
                    env@.parents.len() >= old(env)@.parents.len(),
                    1 <= k <= args.len(),
                    views(body@) == views(args@).subrange(1, k as int),
                    views(args@).len() == args@.len(),
                    forall|j: int| 0 <= j < args@.len() ==> #[trigger] views(args@)[j] == args@[j].view(),
                decreases args.len() - k,
            {
                let v = args[k].duplicate();
                proof { lemma_views_push(body@, v); }
                body.push(v);
                k = k + 1;
                assert(views(body@) =~= views(args@).subrange(1, k as int));
            }
            assert(views(args@).subrange(1, args.len() as int) =~= views(args@).drop_first());
            Ok(Value::VProcedure(Function::SchemeFunction(names, body, f)))
        },
        _ => fail("Unexpected value for arguments in lambda"),
    }
}

/// A parameter list with a non-symbol in its first `i + 1` items has no names.
pub proof fn lemma_symbol_names_prefix(items: Seq<Datum>, i: int)
    requires
        0 <= i < items.len(),
        !(items[i] is Symbol),
    ensures
        symbol_names(items) is None,
    decreases items.len(),
{
    if i < items.len() - 1 {
        lemma_symbol_names_prefix(items.drop_last(), i);
    }
}

/// `(if c a b)`.
fn native_if(args: &[Value], env: &mut Environment, f: usize, fuel: usize) -> (r: Result<Value, RuntimeError>)
    requires
        wf(old(env)@),
        f < old(env)@.parents.len(),
    ensures
        grows(old(env)@, final(env)@),
        outcome(r, *final(env)) == semantics::native_if(old(env)@, views(args@), f as nat, fuel as nat),
    decreases fuel, 1int,
{
    proof { lemma_views(args@); }
    if args.len() != 3 {
        return fail("Must supply exactly three arguments to if");
    }
    let c = match evaluate_value(&args[0], env, f, fuel) {
        Ok(c) => c,
        Err(e) => return Err(e),
    };
    match c {
        Value::VBoolean(false) => evaluate_value(&args[2], env, f, fuel),
        _ => evaluate_value(&args[1], env, f, fuel),
    }
}

/// `(+ a b ...)`.
fn native_plus(args: &[Value], env: &mut Environment, f: usize, fuel: usize) -> (r: Result<Value, RuntimeError>)
    requires
        wf(old(env)@),
        f < old(env)@.parents.len(),
    ensures
        grows(old(env)@, final(env)@),
        outcome(r, *final(env)) == semantics::native_plus(old(env)@, views(args@), f as nat, fuel as nat),
    decreases fuel, 1int,
{
    proof { lemma_views(args@); }
    if args.len() < 2 {
        return fail("Must supply at least two arguments to +");
    }
    let ghost a = views(args@);
    assert(semantics::native_plus(old(env)@, a, f as nat, fuel as nat) == plus_from(old(env)@, a, 0, f as nat, fuel as nat, 0));
    let mut sum: i128 = 0;
    let mut i: usize = 0;
    while i < args.len()
        invariant
            wf(env@),
            f < env@.parents.len(),
            env@.parents.len() >= old(env)@.parents.len(),
            a == views(args@),
            a.len() == args@.len(),
            forall|j: int| 0 <= j < args@.len() ==> #[trigger] a[j] == args@[j].view(),
            i <= args.len(),
            -(i as int) * 0x8000_0000_0000_0000 <= sum <= (i as int) * 0x8000_0000_0000_0000,
            plus_from(env@, a, i as nat, f as nat, fuel as nat, sum as int)
                == plus_from(old(env)@, a, 0, f as nat, fuel as nat, 0),
            semantics::native_plus(old(env)@, a, f as nat, fuel as nat) == plus_from(old(env)@, a, 0, f as nat, fuel as nat, 0),
        decreases args.len() - i,
    {
        let v = match evaluate_value(&args[i], env, f, fuel) {
            Ok(v) => v,
            Err(e) => return Err(e),
        };
        match v {
            Value::VInteger(n) => {
                assert(i + 1 <= usize::MAX);
                assert((i + 1) as int * 0x8000_0000_0000_0000 <= 0xffff_ffff_ffff_ffff * 0x8000_0000_0000_0000);
                sum = sum + n as i128;
            },
            _ => return fail("Unexpected value during +"),
        }
        i = i + 1;
    }
    if sum < i64::MIN as i128 || sum > i64::MAX as i128 {
        return fail("Integer overflow during +");
    }
    Ok(Value::VInteger(sum as i64))
}

/// `(- a b)`.
fn native_minus(args: &[Value], env: &mut Environment, f: usize, fuel: usize) -> (r: Result<Value, RuntimeError>)
    requires
        wf(old(env)@),
        f < old(env)@.parents.len(),
    ensures
        grows(old(env)@, final(env)@),
        outcome(r, *final(env)) == semantics::native_minus(old(env)@, views(args@), f as nat, fuel as nat),
    decreases fuel, 1int,
{
    proof { lemma_views(args@); }
    if args.len() != 2 {
        return fail("Must supply exactly two arguments to -");
    }
    let l = match evaluate_value(&args[0], env, f, fuel) {
        Ok(v) => v,
        Err(e) => return Err(e),
    };
    let r = match evaluate_value(&args[1], env, f, fuel) {
        Ok(v) => v,
        Err(e) => return Err(e),
    };
    match (l, r) {
        (Value::VInteger(x), Value::VInteger(y)) => match x.checked_sub(y) {
            Some(d) => Ok(Value::VInteger(d)),
            None => fail("Integer overflow during -"),
        },
        _ => fail("Unexpected value during -"),
    }
}

/// `(and ...)`.
fn native_and(args: &[Value], env: &mut Environment, f: usize, fuel: usize) -> (r: Result<Value, RuntimeError>)
    requires
        wf(old(env)@),
        f < old(env)@.parents.len(),
    ensures
        grows(old(env)@, final(env)@),
        outcome(r, *final(env)) == and_from(old(env)@, views(args@), 0, f as nat, fuel as nat, Datum::Boolean(true)),
    decreases fuel, 1int,
{
    proof { lemma_views(args@); }
    let ghost a = views(args@);
    let mut last = Value::VBoolean(true);
    let mut i: usize = 0;
    while i < args.len()
        invariant
            wf(env@),
            f < env@.parents.len(),
            env@.parents.len() >= old(env)@.parents.len(),
            a == views(args@),
            a.len() == args@.len(),
            forall|j: int| 0 <= j < args@.len() ==> #[trigger] a[j] == args@[j].view(),
            i <= args.len(),
            and_from(env@, a, i as nat, f as nat, fuel as nat, last.view())
                == and_from(old(env)@, a, 0, f as nat, fuel as nat, Datum::Boolean(true)),
        decreases args.len() - i,
    {
        let v = match evaluate_value(&args[i], env, f, fuel) {
            Ok(v) => v,
            Err(e) => return Err(e),
        };
        match v {
            Value::VBoolean(false) => return Ok(Value::VBoolean(false)),
            _ => {
                last = v;
            },
        }
        i = i + 1;
    }
    Ok(last)
}

/// `(or ...)`.
fn native_or(args: &[Value], env: &mut Environment, f: usize, fuel: usize) -> (r: Result<Value, RuntimeError>)
    requires
        wf(old(env)@),
        f < old(env)@.parents.len(),
    ensures
        grows(old(env)@, final(env)@),
        outcome(r, *final(env)) == or_from(old(env)@, views(args@), 0, f as nat, fuel as nat),
    decreases fuel, 1int,
{
    proof { lemma_views(args@); }
    let ghost a = views(args@);
    let mut i: usize = 0;
    while i < args.len()
        invariant
            wf(env@),
            f < env@.parents.len(),
            env@.parents.len() >= old(env)@.parents.len(),
            a == views(args@),
            a.len() == args@.len(),
            forall|j: int| 0 <= j < args@.len() ==> #[trigger] a[j] == args@[j].view(),
            i <= args.len(),
            or_from(env@, a, i as nat, f as nat, fuel as nat) == or_from(old(env)@, a, 0, f as nat, fuel as nat),
        decreases args.len() - i,
    {
        let v = match evaluate_value(&args[i], env, f, fuel) {
            Ok(v) => v,
            Err(e) => return Err(e),
        };
        match v {
            Value::VBoolean(false) => {},
            _ => return Ok(v),
        }
        i = i + 1;
    }
    Ok(Value::VBoolean(false))
}

/// `(list ...)`.
fn native_list(args: &[Value], env: &mut Environment, f: usize, fuel: usize) -> (r: Result<Value, RuntimeError>)
    requires
        wf(old(env)@),
        f < old(env)@.parents.len(),
    ensures
        grows(old(env)@, final(env)@),
        outcome(r, *final(env)) == list_from(old(env)@, views(args@), 0, f as nat, fuel as nat, Seq::empty()),
    decreases fuel, 1int,
{
    proof { lemma_views(args@); }
    let ghost a = views(args@);
    let mut items: Vec<Value> = Vec::new();
    assert(views(items@) =~= Seq::<Datum>::empty());
    let mut i: usize = 0;
    while i < args.len()
        invariant
            wf(env@),
            f < env@.parents.len(),
            env@.parents.len() >= old(env)@.parents.len(),
            a == views(args@),
            a.len() == args@.len(),
            forall|j: int| 0 <= j < args@.len() ==> #[trigger] a[j] == args@[j].view(),
            i <= args.len(),
            list_from(env@, a, i as nat, f as nat, fuel as nat, views(items@))
                == list_from(old(env)@, a, 0, f as nat, fuel as nat, Seq::empty()),
        decreases args.len() - i,
    {
        let v = match evaluate_value(&args[i], env, f, fuel) {
            Ok(v) => v,
            Err(e) => return Err(e),
        };
        proof { lemma_views_push(items@, v); }
        items.push(v);
        i = i + 1;
    }
    Ok(Value::VList(items))
}

/// `(quote x)`, or `(quasiquote x)` when `quasi`.
fn native_quote(args: &[Value], env: &mut Environment, quasi: bool, f: usize, fuel: usize) -> (r: Result<Value, RuntimeError>)
    requires
        wf(old(env)@),
        f < old(env)@.parents.len(),
    ensures
        grows(old(env)@, final(env)@),
        outcome(r, *final(env)) == semantics::native_quote(old(env)@, views(args@), quasi, f as nat, fuel as nat),
    decreases fuel, 1int,
{
    proof { lemma_views(args@); }
    if args.len() != 1 {
        if quasi {
            return fail("Must supply exactly one argument to quasiquote");
        } else {
            return fail("Must supply exactly one argument to quote");
        }
    }
    quote_value(&args[0], env, quasi, f, fuel)
}

/// Quotes `value`; with `quasi`, each `(unquote e)` inside is replaced by the value of `e`.
pub fn quote_value(value: &Value, env: &mut Environment, quasi: bool, f: usize, fuel: usize) -> (r: Result<Value, RuntimeError>)
    requires
        wf(old(env)@),
        f < old(env)@.parents.len(),
    ensures
        grows(old(env)@, final(env)@),
        outcome(r, *final(env)) == quote_datum(old(env)@, value.view(), quasi, f as nat, fuel as nat),
    decreases fuel, 0int,
{
    if fuel == 0 {
        return fail("Maximum evaluation depth exceeded");
    }
    match value {
        Value::VList(items) => {
            proof { lemma_views(items@); }
            let ghost a = views(items@);
            let unquoting = quasi && items.len() > 0 && match &items[0] {
                Value::VSymbol(s) => s.eq(&String::from_str("unquote")),
                _ => false,
            };
            assert(unquoting == (quasi && is_unquote(a)));
            if unquoting {
                if items.len() != 2 {
                    return fail("Must supply exactly one argument to unquote");
                }
                return evaluate_value(&items[1], env, f, fuel - 1);
            }
            let g = fuel - 1;
            if g == 0 {
                return fail("Maximum evaluation depth exceeded");
            }
            let mut out: Vec<Value> = Vec::new();
            assert(views(out@) =~= Seq::<Datum>::empty());
            let mut i: usize = 0;
            while i < items.len()
                invariant
                    wf(env@),
                    f < env@.parents.len(),
                    env@.parents.len() >= old(env)@.parents.len(),
                    g > 0,
                    g == fuel - 1,
                    a == views(items@),
                    a.len() == items@.len(),
                    forall|j: int| 0 <= j < items@.len() ==> #[trigger] a[j] == items@[j].view(),
                    i <= items.len(),
                    quote_items(env@, a, i as nat, quasi, f as nat, g as nat, views(out@))
                        == quote_items(old(env)@, a, 0, quasi, f as nat, g as nat, Seq::empty()),
                    value.view() == Datum::List(a),
                    !(quasi && is_unquote(a)),
                decreases items.len() - i,
            {
                let v = match quote_value(&items[i], env, quasi, f, g - 1) {
                    Ok(v) => v,
                    Err(e) => return Err(e),
                };
                proof { lemma_views_push(out@, v); }
                out.push(v);
                i = i + 1;
            }
            Ok(Value::VList(out))
        },
        _ => Ok(value.duplicate()),
    }
}

/// `(error x)`.
fn native_error(args: &[Value], env: &mut Environment, f: usize, fuel: usize) -> (r: Result<Value, RuntimeError>)
    requires
        wf(old(env)@),
        f < old(env)@.parents.len(),
    ensures
        grows(old(env)@, final(env)@),
        outcome(r, *final(env)) == semantics::native_error(old(env)@, views(args@), f as nat, fuel as nat),
    decreases fuel, 1int,
{
    proof { lemma_views(args@); }
    if args.len() != 1 {
        return fail("Must supply exactly one argument to error");
    }
    let v = match evaluate_value(&args[0], env, f, fuel) {
        Ok(v) => v,
        Err(e) => return Err(e),
    };
    Err(RuntimeError { message: v.to_str() })
}

} // verus!

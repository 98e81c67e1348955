//! The meaning of evaluation, as spec functions over the mathematical forms of
//! values and scopes. Every function takes a depth budget `fuel`: evaluating an
//! expression, applying a procedure, running a body and quoting a list spend one
//! unit each, and when none is left, evaluation fails with a depth error. The
//! built-in procedures spend none of their own.
use vstd::prelude::*;
use crate::env::{Scopes, assign, bind, find_local, lookup, with_child};
use crate::value::{Datum, Native, Proc, nil, text_of};

verus! {

/// What evaluation gives: a value or an error message, and the scopes after it.
pub type Outcome = (Result<Datum, Seq<char>>, Scopes);

pub open spec fn ok(v: Datum, m: Scopes) -> Outcome {
    (Ok(v), m)
}

pub open spec fn err(e: Seq<char>, m: Scopes) -> Outcome {
    (Err(e), m)
}

pub open spec fn is_i64(n: int) -> bool {
    i64::MIN <= n <= i64::MAX
}

pub open spec fn msg_depth() -> Seq<char> { "Maximum evaluation depth exceeded"@ }
pub open spec fn msg_not_found() -> Seq<char> { "Identifier not found: "@ }
pub open spec fn msg_not_procedure() -> Seq<char> { "First element in an expression must be a procedure: "@ }
pub open spec fn msg_arity() -> Seq<char> { "Wrong number of arguments to function"@ }
pub open spec fn msg_scopes() -> Seq<char> { "Too many scopes"@ }
pub open spec fn msg_unknown_scope() -> Seq<char> { "Closure scope does not exist"@ }
pub open spec fn msg_define_arity() -> Seq<char> { "Must supply exactly two arguments to define"@ }
pub open spec fn msg_define_name() -> Seq<char> { "Unexpected value for name in define"@ }
pub open spec fn msg_duplicate() -> Seq<char> { "Duplicate define: "@ }
pub open spec fn msg_set_arity() -> Seq<char> { "Must supply exactly two arguments to set!"@ }
pub open spec fn msg_set_name() -> Seq<char> { "Unexpected value for name in set!"@ }
pub open spec fn msg_undefined() -> Seq<char> { "Can't set! an undefined variable: "@ }
pub open spec fn msg_lambda_arity() -> Seq<char> { "Must supply at least two arguments to lambda"@ }
pub open spec fn msg_lambda_params() -> Seq<char> { "Unexpected value for arguments in lambda"@ }
pub open spec fn msg_lambda_param() -> Seq<char> { "Unexpected argument in lambda arguments"@ }
pub open spec fn msg_if_arity() -> Seq<char> { "Must supply exactly three arguments to if"@ }
pub open spec fn msg_plus_arity() -> Seq<char> { "Must supply at least two arguments to +"@ }
pub open spec fn msg_plus_type() -> Seq<char> { "Unexpected value during +"@ }
pub open spec fn msg_plus_overflow() -> Seq<char> { "Integer overflow during +"@ }
pub open spec fn msg_minus_arity() -> Seq<char> { "Must supply exactly two arguments to -"@ }
pub open spec fn msg_minus_type() -> Seq<char> { "Unexpected value during -"@ }
pub open spec fn msg_minus_overflow() -> Seq<char> { "Integer overflow during -"@ }
pub open spec fn msg_quote_arity() -> Seq<char> { "Must supply exactly one argument to quote"@ }
pub open spec fn msg_quasiquote_arity() -> Seq<char> { "Must supply exactly one argument to quasiquote"@ }
pub open spec fn msg_unquote_arity() -> Seq<char> { "Must supply exactly one argument to unquote"@ }
pub open spec fn msg_error_arity() -> Seq<char> { "Must supply exactly one argument to error"@ }

/// Only `#f` is false.
pub open spec fn is_falsy(d: Datum) -> bool {
    d == Datum::Boolean(false)
}

/// The names of a parameter list, if every element is a symbol.
pub open spec fn symbol_names(items: Seq<Datum>) -> Option<Seq<Seq<char>>>
    decreases items.len(),
{
    if items.len() == 0 {
        Some(Seq::empty())
    } else {
        match (symbol_names(items.drop_last()), items.last()) {
            (Some(names), Datum::Symbol(s)) => Some(names.push(s)),
            _ => None,
        }
    }
}

/// Evaluates `x` in scope `f`. Only an expression (a non-empty list) spends
/// depth budget; atoms, symbols and the empty list need none.
pub open spec fn eval(m: Scopes, x: Datum, f: nat, fuel: nat) -> Outcome
    decreases fuel, 0int,
{
    match x {
        Datum::Symbol(name) => match lookup(m, f, name) {
            Some(j) => ok(m.binds[j as int].value, m),
            None => err(msg_not_found() + name, m),
        },
        Datum::List(items) => if items.len() == 0 {
            ok(nil(), m)
        } else if fuel == 0 {
            err(msg_depth(), m)
        } else {
            eval_expr(m, items, f, (fuel - 1) as nat)
        },
        _ => ok(x, m),
    }
}

/// Evaluates the expression `items` (not empty): the value of `items[0]` must be
/// a procedure, which is applied to the rest, unevaluated.
pub open spec fn eval_expr(m: Scopes, items: Seq<Datum>, f: nat, fuel: nat) -> Outcome
    decreases fuel, 1int,
{
    let (r, m1) = eval(m, items[0], f, fuel);
    match r {
        Err(e) => err(e, m1),
        Ok(Datum::Procedure(p)) => apply(m1, p, items.drop_first(), f, fuel),
        Ok(v) => err(msg_not_procedure() + text_of(v), m1),
    }
}

/// Evaluates `xs[i..]` in order in scope `f`; the value is that of the last,
/// or `last` when none is left.
pub open spec fn eval_seq(m: Scopes, xs: Seq<Datum>, i: nat, f: nat, fuel: nat, last: Datum) -> Outcome
    decreases fuel, xs.len() - i,
{
    if fuel == 0 {
        err(msg_depth(), m)
    } else if i >= xs.len() {
        ok(last, m)
    } else {
        let (r, m1) = eval(m, xs[i as int], f, (fuel - 1) as nat);
        match r {
            Err(e) => err(e, m1),
            Ok(v) => eval_seq(m1, xs, i + 1, f, fuel, v),
        }
    }
}

/// Applies `p` to the unevaluated `args`, called from scope `f`.
pub open spec fn apply(m: Scopes, p: Proc, args: Seq<Datum>, f: nat, fuel: nat) -> Outcome
    decreases fuel, 0int,
{
    if fuel == 0 {
        err(msg_depth(), m)
    } else {
        let g = (fuel - 1) as nat;
        match p {
            Proc::Native(n) => match n {
                Native::Define => native_define(m, args, f, g),
                Native::SetBang => native_set(m, args, f, g),
                Native::Lambda => native_lambda(m, args, f),
                Native::If => native_if(m, args, f, g),
                Native::Plus => native_plus(m, args, f, g),
                Native::Minus => native_minus(m, args, f, g),
                Native::And => and_from(m, args, 0, f, g, Datum::Boolean(true)),
                Native::Or => or_from(m, args, 0, f, g),
                Native::List => list_from(m, args, 0, f, g, Seq::empty()),
                Native::Quote => native_quote(m, args, false, f, g),
                Native::Quasiquote => native_quote(m, args, true, f, g),
                Native::Error => native_error(m, args, f, g),
            },
            Proc::Closure(params, body, cf) => if params.len() != args.len() {
                err(msg_arity(), m)
            } else if cf >= m.parents.len() {
                err(msg_unknown_scope(), m)
            } else if m.parents.len() >= usize::MAX {
                err(msg_scopes(), m)
            } else {
                let nf = m.parents.len();
                let (r, m1) = bind_args(with_child(m, cf), params, args, 0, nf, f, g);
                match r {
                    Err(e) => err(e, m1),
                    Ok(_) => eval_seq(m1, body, 0, nf, g, nil()),
                }
            },
        }
    }
}

/// Evaluates `args[i..]` in the caller's scope `f` and binds them to
/// `params[i..]` in the new scope `nf`, in order.
pub open spec fn bind_args(
    m: Scopes,
    params: Seq<Seq<char>>,
    args: Seq<Datum>,
    i: nat,
    nf: nat,
    f: nat,
    fuel: nat,
) -> Outcome
    decreases fuel, args.len() - i,
{
    if fuel == 0 {
        err(msg_depth(), m)
    } else if i >= args.len() {
        ok(nil(), m)
    } else {
        let (r, m1) = eval(m, args[i as int], f, (fuel - 1) as nat);
        match r {
            Err(e) => err(e, m1),
            Ok(v) => bind_args(bind(m1, nf, params[i as int], v), params, args, i + 1, nf, f, fuel),
        }
    }
}

/// `(define name expr)`: binds `name` in scope `f` itself.
pub open spec fn native_define(m: Scopes, args: Seq<Datum>, f: nat, fuel: nat) -> Outcome
    decreases fuel, 1int,
{
    if args.len() != 2 {
        err(msg_define_arity(), m)
    } else {
        match args[0] {
            Datum::Symbol(name) => if find_local(m, f, name) is Some {
                err(msg_duplicate() + name, m)
            } else {
                let (r, m1) = eval(m, args[1], f, fuel);
                match r {
                    Err(e) => err(e, m1),
                    Ok(v) => ok(nil(), bind(m1, f, name, v)),
                }
            },
            _ => err(msg_define_name(), m),
        }
    }
}

/// `(set! name expr)`: rebinds `name` in the scope of the chain where it is bound.
pub open spec fn native_set(m: Scopes, args: Seq<Datum>, f: nat, fuel: nat) -> Outcome
    decreases fuel, 1int,
{
    if args.len() != 2 {
        err(msg_set_arity(), m)
    } else {
        match args[0] {
            Datum::Symbol(name) => if lookup(m, f, name) is None {
                err(msg_undefined() + name, m)
            } else {
                let (r, m1) = eval(m, args[1], f, fuel);
                match r {
                    Err(e) => err(e, m1),
                    Ok(v) => match lookup(m1, f, name) {
                        Some(j) => ok(nil(), assign(m1, j, v)),
                        None => ok(nil(), m1),
                    },
                }
            },
            _ => err(msg_set_name(), m),
        }
    }
}

/// `(lambda (params ...) body ...)`: a closure over scope `f`.
pub open spec fn native_lambda(m: Scopes, args: Seq<Datum>, f: nat) -> Outcome {
    if args.len() < 2 {
        err(msg_lambda_arity(), m)
    } else {
        match args[0] {
            Datum::List(ps) => match symbol_names(ps) {
                Some(names) => ok(Datum::Procedure(Proc::Closure(names, args.drop_first(), f)), m),
                None => err(msg_lambda_param(), m),
            },
            _ => err(msg_lambda_params(), m),
        }
    }
}

/// `(if c a b)`: `b` when `c` is `#f`, else `a`.
pub open spec fn native_if(m: Scopes, args: Seq<Datum>, f: nat, fuel: nat) -> Outcome
    decreases fuel, 1int,
{
    if args.len() != 3 {
        err(msg_if_arity(), m)
    } else {
        let (r, m1) = eval(m, args[0], f, fuel);
        match r {
            Err(e) => err(e, m1),
            Ok(c) => if is_falsy(c) {
                eval(m1, args[2], f, fuel)
            } else {
                eval(m1, args[1], f, fuel)
            },
        }
    }
}

/// `(+ a b ...)`: the sum of at least two integers.
pub open spec fn native_plus(m: Scopes, args: Seq<Datum>, f: nat, fuel: nat) -> Outcome
    decreases fuel, args.len() + 2,
{
    if args.len() < 2 {
        err(msg_plus_arity(), m)
    } else {
        plus_from(m, args, 0, f, fuel, 0)
    }
}

/// Adds the values of `args[i..]` to `sum`, left to right; the total must fit
/// in 64 bits, whatever the partial sums are.
pub open spec fn plus_from(m: Scopes, args: Seq<Datum>, i: nat, f: nat, fuel: nat, sum: int) -> Outcome
    decreases fuel, args.len() - i + 1,
{
    if i >= args.len() {
        if is_i64(sum) {
            ok(Datum::Integer(sum), m)
        } else {
            err(msg_plus_overflow(), m)
        }
    } else {
        let (r, m1) = eval(m, args[i as int], f, fuel);
        match r {
            Err(e) => err(e, m1),
            Ok(Datum::Integer(n)) => plus_from(m1, args, i + 1, f, fuel, sum + n),
            Ok(_) => err(msg_plus_type(), m1),
        }
    }
}

/// `(- a b)`: the difference of two integers.
pub open spec fn native_minus(m: Scopes, args: Seq<Datum>, f: nat, fuel: nat) -> Outcome
    decreases fuel, 1int,
{
    if args.len() != 2 {
        err(msg_minus_arity(), m)
    } else {
        let (r1, m1) = eval(m, args[0], f, fuel);
        match r1 {
            Err(e) => err(e, m1),
            Ok(a) => {
                let (r2, m2) = eval(m1, args[1], f, fuel);
                match r2 {
                    Err(e) => err(e, m2),
                    Ok(b) => match (a, b) {
                        (Datum::Integer(x), Datum::Integer(y)) => if is_i64(x - y) {
                            ok(Datum::Integer(x - y), m2)
                        } else {
                            err(msg_minus_overflow(), m2)
                        },
                        _ => err(msg_minus_type(), m2),
                    },
                }
            },
        }
    }
}

/// `(and ...)` from `args[i]` on: `#f` at the first false value, else the last value.
pub open spec fn and_from(m: Scopes, args: Seq<Datum>, i: nat, f: nat, fuel: nat, last: Datum) -> Outcome
    decreases fuel, args.len() - i + 1,
{
    if i >= args.len() {
        ok(last, m)
    } else {
        let (r, m1) = eval(m, args[i as int], f, fuel);
        match r {
            Err(e) => err(e, m1),
            Ok(v) => if is_falsy(v) {
                ok(Datum::Boolean(false), m1)
            } else {
                and_from(m1, args, i + 1, f, fuel, v)
            },
        }
    }
}

/// `(or ...)` from `args[i]` on: the first value that is not `#f`, else `#f`.
pub open spec fn or_from(m: Scopes, args: Seq<Datum>, i: nat, f: nat, fuel: nat) -> Outcome
    decreases fuel, args.len() - i + 1,
{
    if i >= args.len() {
        ok(Datum::Boolean(false), m)
    } else {
        let (r, m1) = eval(m, args[i as int], f, fuel);
        match r {
            Err(e) => err(e, m1),
            Ok(v) => if is_falsy(v) {
                or_from(m1, args, i + 1, f, fuel)
            } else {
                ok(v, m1)
            },
        }
    }
}

/// `(list ...)` from `args[i]` on, after the values `acc`.
pub open spec fn list_from(m: Scopes, args: Seq<Datum>, i: nat, f: nat, fuel: nat, acc: Seq<Datum>) -> Outcome
    decreases fuel, args.len() - i + 1,
{
    if i >= args.len() {
        ok(Datum::List(acc), m)
    } else {
        let (r, m1) = eval(m, args[i as int], f, fuel);
        match r {
            Err(e) => err(e, m1),
            Ok(v) => list_from(m1, args, i + 1, f, fuel, acc.push(v)),
        }
    }
}

/// `(quote x)` or, with `quasi`, `(quasiquote x)`.
pub open spec fn native_quote(m: Scopes, args: Seq<Datum>, quasi: bool, f: nat, fuel: nat) -> Outcome
    decreases fuel, 1int,
{
    if args.len() != 1 {
        err(if quasi { msg_quasiquote_arity() } else { msg_quote_arity() }, m)
    } else {
        quote_datum(m, args[0], quasi, f, fuel)
    }
}

/// Whether `items` is an `(unquote ...)` form.
pub open spec fn is_unquote(items: Seq<Datum>) -> bool {
    items.len() > 0 && items[0] == Datum::Symbol("unquote"@)
}

/// Quotes `x`; with `quasi`, each `(unquote e)` inside is replaced by the value of `e`.
pub open spec fn quote_datum(m: Scopes, x: Datum, quasi: bool, f: nat, fuel: nat) -> Outcome
    decreases fuel, 0int,
{
    if fuel == 0 {
        err(msg_depth(), m)
    } else {
        match x {
            Datum::List(items) => if quasi && is_unquote(items) {
                if items.len() != 2 {
                    err(msg_unquote_arity(), m)
                } else {
                    eval(m, items[1], f, (fuel - 1) as nat)
                }
            } else {
                quote_items(m, items, 0, quasi, f, (fuel - 1) as nat, Seq::empty())
            },
            _ => ok(x, m),
        }
    }
}

/// Quotes `items[i..]`, after the quoted items `acc`.
pub open spec fn quote_items(
    m: Scopes,
    items: Seq<Datum>,
    i: nat,
    quasi: bool,
    f: nat,
    fuel: nat,
    acc: Seq<Datum>,
) -> Outcome
    decreases fuel, items.len() - i,
{
    if fuel == 0 {
        err(msg_depth(), m)
    } else if i >= items.len() {
        ok(Datum::List(acc), m)
    } else {
        let (r, m1) = quote_datum(m, items[i as int], quasi, f, (fuel - 1) as nat);
        match r {
            Err(e) => err(e, m1),
            Ok(v) => quote_items(m1, items, i + 1, quasi, f, fuel, acc.push(v)),
        }
    }
}

/// `(error x)`: fails with the text of the value of `x`.
pub open spec fn native_error(m: Scopes, args: Seq<Datum>, f: nat, fuel: nat) -> Outcome
    decreases fuel, 1int,
{
    if args.len() != 1 {
        err(msg_error_arity(), m)
    } else {
        let (r, m1) = eval(m, args[0], f, fuel);
        match r {
            Err(e) => err(e, m1),
            Ok(v) => err(text_of(v), m1),
        }
    }
}

} // verus!

//! Laws of the language, stated over the mathematical semantics and proved
//! once and for all: scoping, closure capture, array bounds, map-key
//! rejection, arity enforcement, and the non-mutating built-ins.
use crate::ast::{ExprV, StmtV};
use crate::buildin::{apply_buildin, wrong_args_text};
use crate::evaluator::{
    apply_function_s, arity_text, env_get, env_set, eval_expr_s, eval_hash_s, index_eval,
    is_truthy_v, prefix_eval, EnvM,
};
use crate::object::{key_of, type_text, Buildin, KeyV, Val};
use crate::token::Tok;
use vstd::prelude::*;

verus! {

broadcast use vstd::seq::group_seq_axioms;

/// Scoping: binding a name resolves later lookups of that name to the bound
/// value.
pub proof fn lemma_binding_resolves(e: EnvM, name: Seq<char>, v: Val)
    ensures
        env_get(env_set(e, name, v), name) == Some(v),
{
    assert(env_set(e, name, v).store.last() == (name, v));
}

/// Scoping: binding a name never changes what any other name resolves to,
/// so a shadowing inner binding cannot mutate an outer one.
pub proof fn lemma_shadowing_other_names(e: EnvM, name: Seq<char>, v: Val, other: Seq<char>)
    requires
        other != name,
    ensures
        env_get(env_set(e, name, v), other) == env_get(e, other),
{
    let pushed = env_set(e, name, v);
    assert(pushed.store.last() == (name, v));
    assert(pushed.store.drop_last() =~= e.store);
}

/// Closure capture by snapshot: evaluating a function literal yields a
/// closure over the whole environment as it stands at that moment, and
/// leaves the environment itself unchanged.
pub proof fn lemma_closure_capture(env: EnvM, parameters: Seq<ExprV>, body: StmtV, fuel: nat)
    ensures
        eval_expr_s(env, ExprV::Function { parameters, body: Box::new(body) }, fuel) == (
            env,
            Ok::<Val, Seq<char>>(Val::Function { parameters, body, env: Box::new(env) }),
        ),
{
}

/// Closure capture by snapshot: a binding made after the literal was
/// evaluated is not visible inside the closure, because applying it runs
/// the body against the captured snapshot, whatever the environment has
/// become since.
pub proof fn lemma_capture_ignores_later_bindings(
    env: EnvM,
    parameters: Seq<ExprV>,
    body: StmtV,
    name: Seq<char>,
    v: Val,
    args: Seq<Val>,
    fuel: nat,
)
    ensures
        ({
            let f = eval_expr_s(
                env,
                ExprV::Function { parameters, body: Box::new(body) },
                fuel,
            ).1;
            let f2 = eval_expr_s(
                env_set(env, name, v),
                ExprV::Function { parameters, body: Box::new(body) },
                fuel,
            ).1;
            &&& (f matches Ok(c) && apply_function_s(c, args, fuel) == apply_function_s(
                Val::Function { parameters, body, env: Box::new(env) },
                args,
                fuel,
            ))
            &&& (f2 matches Ok(c2) && c2 == (Val::Function {
                parameters,
                body,
                env: Box::new(env_set(env, name, v)),
            }))
        }),
{
}

/// Array bounds: indexing below zero or at or past the length yields null,
/// never an error.
pub proof fn lemma_array_index_out_of_range(es: Seq<Val>, i: int)
    requires
        i < 0 || i >= es.len(),
    ensures
        index_eval(Val::Array(es), Val::Integer(i)) == Ok::<Val, Seq<char>>(Val::Null),
{
}

/// Array bounds: an in-range index yields exactly that element.
pub proof fn lemma_array_index_in_range(es: Seq<Val>, i: int)
    requires
        0 <= i < es.len(),
    ensures
        index_eval(Val::Array(es), Val::Integer(i)) == Ok::<Val, Seq<char>>(es[i]),
{
}

/// Map keys: exactly integers, booleans and strings project to usable keys.
pub proof fn lemma_key_projection(v: Val)
    ensures
        (key_of(v) == KeyV::Unusable) <==> !(v matches Val::Integer(_) || v matches Val::Boolean(
            _,
        ) || v matches Val::String(_)),
{
}

/// Map keys: indexing a map with an unusable key is always an error naming
/// the key's type, even on lookup.
pub proof fn lemma_map_index_key_rejection(ps: Seq<(KeyV, (Val, Val))>, v: Val)
    requires
        key_of(v) == KeyV::Unusable,
    ensures
        index_eval(Val::Hash(ps), v) == Err::<Val, Seq<char>>(
            "unusable as map key: "@ + type_text(v),
        ),
{
}

/// Map keys: constructing a map literal fails the same way as soon as one
/// of its evaluated keys is unusable.
pub proof fn lemma_map_literal_key_rejection(
    env: EnvM,
    ps: Seq<(ExprV, ExprV)>,
    fuel: nat,
    acc: Seq<(KeyV, (Val, Val))>,
)
    requires
        ps.len() > 0,
        ({
            let (env2, rk) = eval_expr_s(env, ps[0].0, fuel);
            rk matches Ok(k) && key_of(k) == KeyV::Unusable && eval_expr_s(
                env2,
                ps[0].1,
                fuel,
            ).1 is Ok
        }),
    ensures
        ({
            let (env2, rk) = eval_expr_s(env, ps[0].0, fuel);
            let k = rk->Ok_0;
            let env3 = eval_expr_s(env2, ps[0].1, fuel).0;
            eval_hash_s(env, ps, fuel, acc) == (
                env3,
                Err::<Seq<(KeyV, (Val, Val))>, Seq<char>>(
                    "unusable as map key: "@ + type_text(k),
                ),
            )
        }),
{
}

/// Arity: calling a closure with the wrong number of arguments fails with
/// the arity message, whatever the body and whatever the depth budget — in
/// particular, the body is never evaluated.
pub proof fn lemma_arity_enforcement(
    parameters: Seq<ExprV>,
    body: StmtV,
    env: EnvM,
    args: Seq<Val>,
    fuel: nat,
)
    requires
        parameters.len() != args.len(),
    ensures
        apply_function_s(Val::Function { parameters, body, env: Box::new(env) }, args, fuel)
            == Err::<Val, Seq<char>>(
            arity_text(parameters.len() as int, args.len() as int),
        ),
{
}

/// `push` builds a new array with the value appended; its argument is a
/// value, so the original array is untouched.
pub proof fn lemma_push_appends(es: Seq<Val>, v: Val)
    ensures
        apply_buildin(Buildin::Push, seq![Val::Array(es), v]) == Ok::<Val, Seq<char>>(
            Val::Array(es.push(v)),
        ),
{
    let args = seq![Val::Array(es), v];
    assert(args[0] == Val::Array(es));
    assert(args[1] == v);
}

/// `first`, `last` and `rest` yield null on an empty array.
pub proof fn lemma_empty_array_buildins()
    ensures
        apply_buildin(Buildin::First, seq![Val::Array(Seq::empty())]) == Ok::<Val, Seq<char>>(
            Val::Null,
        ),
        apply_buildin(Buildin::Last, seq![Val::Array(Seq::empty())]) == Ok::<Val, Seq<char>>(
            Val::Null,
        ),
        apply_buildin(Buildin::Rest, seq![Val::Array(Seq::empty())]) == Ok::<Val, Seq<char>>(
            Val::Null,
        ),
{
    let args = seq![Val::Array(Seq::<Val>::empty())];
    assert(args[0] == Val::Array(Seq::<Val>::empty()));
}

/// `!` always yields the boolean negation of truthiness, on every value.
pub proof fn lemma_bang_always_boolean(v: Val)
    ensures
        prefix_eval(Tok::Bang, v) == Ok::<Val, Seq<char>>(Val::Boolean(!is_truthy_v(v))),
{
}

/// `-` is type checked: on anything but an integer it is the
/// `unknown operator` error naming the operand's type.
pub proof fn lemma_minus_non_integer(v: Val)
    requires
        !(v matches Val::Integer(_)),
    ensures
        prefix_eval(Tok::Minus, v) == Err::<Val, Seq<char>>(
            "unknown operator: -"@ + type_text(v),
        ),
{
}

/// Built-ins check their argument count first, with the same message shape
/// for every built-in.
pub proof fn lemma_buildin_arity(b: Buildin, args: Seq<Val>)
    requires
        b == Buildin::Push ==> args.len() != 2,
        b != Buildin::Push ==> args.len() != 1,
    ensures
        apply_buildin(b, args) == Err::<Val, Seq<char>>(
            wrong_args_text(
                args.len() as int,
                if b == Buildin::Push {
                    2
                } else {
                    1
                },
            ),
        ),
{
}

} // verus!

//! The evaluator: chained lexical-scope environments and the tree walk that
//! turns a parsed program into a runtime value or an error message.
//!
//! The spec functions ending in `_s` are the mathematical semantics of the
//! language; every executable evaluation function is proved to return exactly
//! what they say, for a fixed evaluation-depth budget.
use crate::ast::{
    expr_size, exprs_duplicate, exprs_size, exprs_view, pairs_size, pairs_view, stmt_size,
    stmts_size, stmts_view, ExprV, Expression, Program, Statement, StmtV,
};
use crate::buildin::{apply_buildin, buildin_lookup, res_matches};
use crate::object::{key_of, type_text, KeyV};
use crate::token::{tok_text, Tok, Token};
use crate::text::dec_int;
use crate::object::{
    entries_size, entries_view, env_size, lemma_entries_size_elem, lemma_entries_view,
    lemma_store_size_elem, lemma_vals_size_elem, lemma_vals_view, store_size, val_of, val_size,
    vals_size, vals_view, MapPair, Object, Val,
};
use vstd::prelude::*;

verus! {

broadcast use vstd::seq::group_seq_axioms, vstd::std_specs::vec::group_vec_axioms;

/// The mathematical view of an `Environment`: ordered name/value bindings and
/// an optional outer scope.
#[verifier::ext_equal]
pub struct EnvM {
    pub store: Seq<(Seq<char>, Val)>,
    pub outer: Option<Box<EnvM>>,
}

/// A chained lexical scope frame: a local name-to-value mapping and an
/// optional owning link to the enclosing scope.
#[derive(Debug, PartialEq, Eq)]
pub struct Environment {
    store: Vec<(String, Object)>,
    outer: Option<Box<Environment>>,
}

/// The view of an environment.
pub closed spec fn env_m(e: Environment) -> EnvM
    decreases e,
{
    EnvM {
        store: store_view(e.store@),
        outer: match e.outer {
            Some(o) => Some(Box::new(env_m(*o))),
            None => None,
        },
    }
}

/// Views of the binding list, in order.
pub open spec fn store_view(s: Seq<(String, Object)>) -> Seq<(Seq<char>, Val)>
    decreases s,
{
    if s.len() == 0 {
        Seq::empty()
    } else {
        seq![(s[0].0@, val_of(s[0].1))] + store_view(s.drop_first())
    }
}

impl View for Environment {
    type V = EnvM;

    open spec fn view(&self) -> EnvM {
        env_m(*self)
    }
}

pub proof fn lemma_store_view(s: Seq<(String, Object)>)
    ensures
        store_view(s).len() == s.len(),
        forall|i: int|
            0 <= i < s.len() ==> store_view(s)[i] == (#[trigger] s[i].0@, s[i].1@),
    decreases s,
{
    if s.len() > 0 {
        lemma_store_view(s.drop_first());
        assert forall|i: int|
            0 <= i < s.len() implies store_view(s)[i] == (#[trigger] s[i].0@, s[i].1@) by {
            if i > 0 {
                assert(s.drop_first()[i - 1] == s[i]);
                assert(store_view(s.drop_first())[i - 1] == (
                    s.drop_first()[i - 1].0@,
                    s.drop_first()[i - 1].1@,
                ));
            }
        }
    }
}

/// A deep copy of an object, with the same view.
pub(crate) fn obj_clone(o: &Object) -> (r: Object)
    ensures
        r@ == o@,
    decreases val_size(o@), 2int,
{
    match o {
        Object::Integer(v) => Object::Integer(*v),
        Object::Boolean(b) => Object::Boolean(*b),
        Object::String(s) => Object::String(s.clone()),
        Object::Null => Object::Null,
        Object::Return(inner) => Object::Return(Box::new(obj_clone(inner))),
        Object::Function { parameters, body, env } => Object::Function {
            parameters: exprs_duplicate(
                parameters,
                Ghost(crate::ast::exprs_size(exprs_view(parameters@)) + 1),
            ),
            body: body.duplicate(),
            env: env.clone_env(),
        },
        Object::Buildin(b) => Object::Buildin(*b),
        Object::Array(elements) => Object::Array(objs_clone(elements, Ghost(val_size(o@)))),
        Object::Hash(pairs) => Object::Hash(entries_clone(pairs, Ghost(val_size(o@)))),
        Object::Let => Object::Let,
        Object::Default => Object::Default,
    }
}

/// Deep copies of a vector of objects, with the same views.
pub(crate) fn objs_clone(os: &Vec<Object>, bound: Ghost<nat>) -> (r: Vec<Object>)
    requires
        vals_size(vals_view(os@)) < bound@,
    ensures
        vals_view(r@) == vals_view(os@),
        r@.len() == os@.len(),
    decreases bound@, 0int,
{
    let ghost v = vals_view(os@);
    proof {
        lemma_vals_view(os@);
    }
    let mut out: Vec<Object> = Vec::new();
    let mut i: usize = 0;
    while i < os.len()
        invariant
            0 <= i <= os.len(),
            v == vals_view(os@),
            v.len() == os@.len(),
            forall|j: int| 0 <= j < os@.len() ==> v[j] == #[trigger] os@[j]@,
            vals_size(v) < bound@,
            out@.len() == i,
            forall|j: int| 0 <= j < i ==> #[trigger] out@[j]@ == os@[j]@,
        decreases os.len() - i,
    {
        proof {
            lemma_vals_size_elem(v, i as int);
        }
        let piece = obj_clone(&os[i]);
        out.push(piece);
        i = i + 1;
    }
    proof {
        lemma_vals_view(out@);
        assert forall|j: int|
            0 <= j < out@.len() implies vals_view(out@)[j] == vals_view(os@)[j] by {
            assert(out@[j]@ == os@[j]@);
        }
        assert(vals_view(out@) =~= vals_view(os@));
    }
    out
}

/// Deep copies of stored map entries, with the same views.
fn entries_clone(ps: &Vec<(crate::object::MapKey, MapPair)>, bound: Ghost<nat>) -> (r: Vec<
    (crate::object::MapKey, MapPair),
>)
    requires
        entries_size(entries_view(ps@)) < bound@,
    ensures
        entries_view(r@) == entries_view(ps@),
        r@.len() == ps@.len(),
    decreases bound@, 0int,
{
    let ghost v = entries_view(ps@);
    proof {
        lemma_entries_view(ps@);
    }
    let mut out: Vec<(crate::object::MapKey, MapPair)> = Vec::new();
    let mut i: usize = 0;
    while i < ps.len()
        invariant
            0 <= i <= ps.len(),
            v == entries_view(ps@),
            v.len() == ps@.len(),
            forall|j: int|
                0 <= j < ps@.len() ==> v[j] == (
                    #[trigger] ps@[j].0@,
                    (ps@[j].1.key@, ps@[j].1.value@),
                ),
            entries_size(v) < bound@,
            out@.len() == i,
            forall|j: int|
                0 <= j < i ==> (#[trigger] out@[j].0@, (out@[j].1.key@, out@[j].1.value@)) == (
                    ps@[j].0@,
                    (ps@[j].1.key@, ps@[j].1.value@),
                ),
        decreases ps.len() - i,
    {
        proof {
            lemma_entries_size_elem(v, i as int);
            assert(v[i as int] == (ps@[i as int].0@, (ps@[i as int].1.key@, ps@[i as int].1.value@)));
        }
        let key = ps[i].0.duplicate();
        let pair_key = obj_clone(&ps[i].1.key);
        let pair_value = obj_clone(&ps[i].1.value);
        out.push((key, MapPair { key: pair_key, value: pair_value }));
        i = i + 1;
    }
    proof {
        lemma_entries_view(out@);
        assert forall|j: int|
            0 <= j < out@.len() implies entries_view(out@)[j] == entries_view(ps@)[j] by {
            assert((out@[j].0@, (out@[j].1.key@, out@[j].1.value@)) == (
                ps@[j].0@,
                (ps@[j].1.key@, ps@[j].1.value@),
            ));
        }
        assert(entries_view(out@) =~= entries_view(ps@));
    }
    out
}

/// Deep copies of the binding list, with the same views.
fn store_clone(s: &Vec<(String, Object)>, bound: Ghost<nat>) -> (r: Vec<(String, Object)>)
    requires
        store_size(store_view(s@)) < bound@,
    ensures
        store_view(r@) == store_view(s@),
        r@.len() == s@.len(),
    decreases bound@, 0int,
{
    let ghost v = store_view(s@);
    proof {
        lemma_store_view(s@);
    }
    let mut out: Vec<(String, Object)> = Vec::new();
    let mut i: usize = 0;
    while i < s.len()
        invariant
            0 <= i <= s.len(),
            v == store_view(s@),
            v.len() == s@.len(),
            forall|j: int| 0 <= j < s@.len() ==> v[j] == (#[trigger] s@[j].0@, s@[j].1@),
            store_size(v) < bound@,
            out@.len() == i,
            forall|j: int|
                0 <= j < i ==> (#[trigger] out@[j].0@, out@[j].1@) == (s@[j].0@, s@[j].1@),
        decreases s.len() - i,
    {
        proof {
            lemma_store_size_elem(v, i as int);
            assert(v[i as int] == (s@[i as int].0@, s@[i as int].1@));
        }
        let name = s[i].0.clone();
        let object = obj_clone(&s[i].1);
        out.push((name, object));
        i = i + 1;
    }
    proof {
        lemma_store_view(out@);
        assert forall|j: int|
            0 <= j < out@.len() implies store_view(out@)[j] == store_view(s@)[j] by {
            assert((out@[j].0@, out@[j].1@) == (s@[j].0@, s@[j].1@));
        }
        assert(store_view(out@) =~= store_view(s@));
    }
    out
}

impl Environment {
    /// A deep copy of this environment and its whole outer chain, with the
    /// same view: the snapshot taken when a function literal is evaluated.
    pub(crate) fn clone_env(&self) -> (r: Environment)
        ensures
            r@ == self@,
        decreases env_size(self@), 2int,
    {
        let store = store_clone(&self.store, Ghost(env_size(self@)));
        let outer = match &self.outer {
            Some(o) => Some(Box::new(o.clone_env())),
            None => None,
        };
        let r = Environment { store, outer };
        proof {
            assert(r@ =~= self@);
        }
        r
    }
}

/// Looks a name up in the binding list, newest binding first.
pub open spec fn store_get(s: Seq<(Seq<char>, Val)>, name: Seq<char>) -> Option<Val>
    decreases s.len(),
{
    if s.len() == 0 {
        None
    } else if s.last().0 == name {
        Some(s.last().1)
    } else {
        store_get(s.drop_last(), name)
    }
}

/// Looks a name up in a scope chain: the local bindings first, then the
/// outer chain.
pub open spec fn env_get(e: EnvM, name: Seq<char>) -> Option<Val>
    decreases e,
{
    match store_get(e.store, name) {
        Some(v) => Some(v),
        None => match e.outer {
            Some(o) => env_get(*o, name),
            None => None,
        },
    }
}

/// Binds a name in the local scope; a later binding shadows an earlier one.
pub open spec fn env_set(e: EnvM, name: Seq<char>, v: Val) -> EnvM {
    EnvM { store: e.store.push((name, v)), outer: e.outer }
}

/// Looks a name up in the newest `i` bindings of the list.
fn store_get_at(store: &Vec<(String, Object)>, i: usize, name: &String) -> (r: Option<Object>)
    requires
        i <= store@.len(),
    ensures
        match store_get(store_view(store@).take(i as int), name@) {
            Some(v) => r matches Some(o) && o@ == v,
            None => r is None,
        },
    decreases i,
{
    proof {
        lemma_store_view(store@);
    }
    if i == 0 {
        proof {
            assert(store_view(store@).take(0) =~= Seq::<(Seq<char>, Val)>::empty());
        }
        None
    } else {
        let ghost sv = store_view(store@);
        proof {
            assert(sv.take(i as int).last() == sv[i - 1]);
            assert(sv.take(i as int).drop_last() =~= sv.take(i - 1));
        }
        if store[i - 1].0 == *name {
            Some(obj_clone(&store[i - 1].1))
        } else {
            store_get_at(store, i - 1, name)
        }
    }
}

impl Environment {
    /// A fresh global scope with no bindings and no outer scope. Built-in
    /// functions are resolved by name after scope lookup fails, so they need
    /// no storage here.
    pub fn new() -> (r: Self)
        ensures
            r@ == (EnvM { store: Seq::empty(), outer: None }),
    {
        let r = Environment { store: Vec::new(), outer: None };
        proof {
            assert(r.store@ == Seq::<(String, Object)>::empty());
            assert(store_view(r.store@) == Seq::<(Seq<char>, Val)>::empty());
            assert(env_m(r).store == Seq::<(Seq<char>, Val)>::empty());
            assert(env_m(r).outer is None);
            assert(r@ =~= (EnvM { store: Seq::empty(), outer: None }));
        }
        r
    }

    /// A fresh child scope whose outer link owns the given environment.
    fn new_with_outer(env: Box<Environment>) -> (r: Self)
        ensures
            r@ == (EnvM { store: Seq::empty(), outer: Some(Box::new((*env)@)) }),
    {
        let ghost inner = (*env)@;
        let r = Environment { store: Vec::new(), outer: Some(env) };
        proof {
            assert(r.store@ == Seq::<(String, Object)>::empty());
            assert(store_view(r.store@) == Seq::<(Seq<char>, Val)>::empty());
            assert(env_m(r).store == Seq::<(Seq<char>, Val)>::empty());
            assert(r@ =~= (EnvM { store: Seq::empty(), outer: Some(Box::new(inner)) }));
        }
        r
    }

    /// Resolves a name through the scope chain; absence is the
    /// `identifier not found` error.
    fn get(&self, name: &String) -> (r: Result<Object, String>)
        ensures
            match env_get(self@, name@) {
                Some(v) => r matches Ok(o) && o@ == v,
                None => r matches Err(m) && m@ == "identifier not found: "@ + name@,
            },
        decreases *self,
    {
        let n = self.store.len();
        proof {
            lemma_store_view(self.store@);
            assert(store_view(self.store@).take(n as int) =~= store_view(self.store@));
        }
        match store_get_at(&self.store, n, name) {
            Some(object) => Ok(object),
            None => match &self.outer {
                Some(env) => env.get(name),
                None => {
                    let mut message = String::from_str("identifier not found: ");
                    message.append(name.as_str());
                    Err(message)
                },
            },
        }
    }

    /// Binds a name to a value in the local scope and hands the value back.
    fn set(&mut self, name: String, object: Object) -> (r: Result<Object, String>)
        ensures
            final(self)@ == env_set(old(self)@, name@, object@),
            r matches Ok(o) && o@ == object@,
    {
        let ghost name_view = name@;
        let copy = obj_clone(&object);
        proof {
            lemma_store_view(self.store@);
        }
        let ghost store0 = self.store@;
        self.store.push((name, copy));
        proof {
            lemma_store_view(self.store@);
            assert forall|j: int|
                0 <= j < self.store@.len() implies store_view(self.store@)[j] == store_view(
                store0,
            ).push((name_view, object@))[j] by {
                if j < store0.len() {
                    assert(self.store@[j] == store0[j]);
                    assert((self.store@[j].0@, self.store@[j].1@) == (store0[j].0@, store0[j].1@));
                } else {
                    assert(self.store@[j].0@ == name_view && self.store@[j].1@ == object@);
                }
            }
            assert(store_view(self.store@) =~= store_view(store0).push((name_view, object@)));
            assert(self@ =~= env_set(old(self)@, name_view, object@));
        }
        Ok(object)
    }
}

/// Resolves an identifier: local scope, then the outer chain, then the
/// built-in table; otherwise the `identifier not found` error.
pub open spec fn ident_lookup(e: EnvM, name: Seq<char>) -> Result<Val, Seq<char>> {
    match env_get(e, name) {
        Some(v) => Ok(v),
        None => match buildin_lookup(name) {
            Some(v) => Ok(v),
            None => Err("identifier not found: "@ + name),
        },
    }
}

/// Truthiness: `false` and null are falsy, every other value is truthy.
pub open spec fn is_truthy_v(v: Val) -> bool {
    !(v == Val::Boolean(false) || v == Val::Null)
}

pub open spec fn abs_int(a: int) -> int {
    if a < 0 {
        -a
    } else {
        a
    }
}

/// Truncating division, as the host language's `/` rounds: toward zero.
pub open spec fn div_trunc(a: int, b: int) -> int
    recommends
        b != 0,
{
    if (a < 0) != (b < 0) {
        -(abs_int(a) / abs_int(b))
    } else {
        abs_int(a) / abs_int(b)
    }
}

/// The arity-mismatch message of a function application.
pub open spec fn arity_text(want: int, got: int) -> Seq<char> {
    "expected arity to be "@ + dec_int(want) + ", got "@ + dec_int(got) + " instead"@
}

/// Integer-by-integer infix operators. Overflow and division by zero are
/// evaluation errors.
pub open spec fn int_infix(l: int, op: Tok, r: int) -> Result<Val, Seq<char>> {
    match op {
        Tok::Plus => if isize::MIN <= l + r <= isize::MAX {
            Ok(Val::Integer(l + r))
        } else {
            Err("integer overflow"@)
        },
        Tok::Minus => if isize::MIN <= l - r <= isize::MAX {
            Ok(Val::Integer(l - r))
        } else {
            Err("integer overflow"@)
        },
        Tok::Asterisk => if isize::MIN <= l * r <= isize::MAX {
            Ok(Val::Integer(l * r))
        } else {
            Err("integer overflow"@)
        },
        Tok::Slash => if r == 0 {
            Err("division by zero"@)
        } else if l == isize::MIN && r == -1 {
            Err("integer overflow"@)
        } else {
            Ok(Val::Integer(div_trunc(l, r)))
        },
        Tok::Lt => Ok(Val::Boolean(l < r)),
        Tok::Gt => Ok(Val::Boolean(l > r)),
        Tok::Eq => Ok(Val::Boolean(l == r)),
        Tok::Ne => Ok(Val::Boolean(l != r)),
        _ => Err("unknown operator: Integer "@ + tok_text(op) + " Integer"@),
    }
}

/// Boolean-by-boolean infix operators: equality only.
pub open spec fn bool_infix(l: bool, op: Tok, r: bool) -> Result<Val, Seq<char>> {
    match op {
        Tok::Eq => Ok(Val::Boolean(l == r)),
        Tok::Ne => Ok(Val::Boolean(l != r)),
        _ => Err("unknown operator: Boolean "@ + tok_text(op) + " Boolean"@),
    }
}

/// String-by-string infix operators: concatenation and equality.
pub open spec fn str_infix(l: Seq<char>, op: Tok, r: Seq<char>) -> Result<Val, Seq<char>> {
    match op {
        Tok::Plus => Ok(Val::String(l + r)),
        Tok::Eq => Ok(Val::Boolean(l == r)),
        Tok::Ne => Ok(Val::Boolean(l != r)),
        _ => Err("unknown operator: String "@ + tok_text(op) + " String"@),
    }
}

/// Infix dispatch on the runtime types of both evaluated operands.
pub open spec fn infix_eval(l: Val, op: Tok, r: Val) -> Result<Val, Seq<char>> {
    match (l, r) {
        (Val::Integer(a), Val::Integer(b)) => int_infix(a, op, b),
        (Val::Boolean(a), Val::Boolean(b)) => bool_infix(a, op, b),
        (Val::String(a), Val::String(b)) => str_infix(a, op, b),
        _ => Err(
            "type mismatch: "@ + type_text(l) + " "@ + tok_text(op) + " "@ + type_text(r),
        ),
    }
}

/// Prefix operators: `!` negates truthiness; `-` is legal on integers only.
pub open spec fn prefix_eval(op: Tok, v: Val) -> Result<Val, Seq<char>> {
    match op {
        Tok::Bang => Ok(Val::Boolean(!is_truthy_v(v))),
        Tok::Minus => match v {
            Val::Integer(i) => if isize::MIN <= -i <= isize::MAX {
                Ok(Val::Integer(-i))
            } else {
                Err("integer overflow"@)
            },
            _ => Err("unknown operator: -"@ + type_text(v)),
        },
        _ => Err("unknown operator: "@ + tok_text(op) + type_text(v)),
    }
}

/// The value stored under a key in a map's entries, or null.
pub open spec fn entry_find(ps: Seq<(KeyV, (Val, Val))>, k: KeyV) -> Val
    decreases ps.len(),
{
    if ps.len() == 0 {
        Val::Null
    } else if ps[0].0 == k {
        ps[0].1.1
    } else {
        entry_find(ps.drop_first(), k)
    }
}

/// Stores a key/pair entry: an existing key keeps its position and takes the
/// new pair; a new key goes to the end.
pub open spec fn entry_insert(
    acc: Seq<(KeyV, (Val, Val))>,
    k: KeyV,
    pair: (Val, Val),
) -> Seq<(KeyV, (Val, Val))>
    decreases acc.len(),
{
    if acc.len() == 0 {
        seq![(k, pair)]
    } else if acc[0].0 == k {
        seq![(k, pair)] + acc.drop_first()
    } else {
        seq![acc[0]] + entry_insert(acc.drop_first(), k, pair)
    }
}

/// Indexing: arrays by integer position (out of range is null), maps by key
/// projection (an unusable key is an error even on lookup).
pub open spec fn index_eval(l: Val, idx: Val) -> Result<Val, Seq<char>> {
    match (l, idx) {
        (Val::Array(es), Val::Integer(i)) => Ok(
            if 0 <= i < es.len() {
                es[i]
            } else {
                Val::Null
            },
        ),
        (Val::Hash(ps), _) => match key_of(idx) {
            KeyV::Unusable => Err("unusable as map key: "@ + type_text(idx)),
            k => Ok(entry_find(ps, k)),
        },
        _ => Err("index operator not supported: "@ + type_text(l)),
    }
}

/// Evaluates one statement, yielding the updated environment and a value or
/// an error.
pub open spec fn eval_stmt_s(env: EnvM, s: StmtV, fuel: nat) -> (EnvM, Result<Val, Seq<char>>)
    decreases fuel, stmt_size(s), 0int,
{
    match s {
        StmtV::Expression(e) => eval_expr_s(env, e, fuel),
        StmtV::Block(ss) => eval_block_s(env, ss, fuel),
        StmtV::Return(e) => {
            let (env2, r) = eval_expr_s(env, e, fuel);
            (
                env2,
                match r {
                    Ok(v) => Ok(Val::Return(Box::new(v))),
                    Err(m) => Err(m),
                },
            )
        },
        StmtV::Let { name, value } => match name {
            ExprV::Identifier(n) => {
                let (env2, r) = eval_expr_s(env, value, fuel);
                match r {
                    Ok(v) => (env_set(env2, n, v), Ok(Val::Let)),
                    Err(m) => (env2, Err(m)),
                }
            },
            _ => (env, Err("unexpected error occurred in let binding"@)),
        },
    }
}

/// Evaluates the statements of a block in order, stopping early at a
/// `Return`-wrapped value and propagating it unchanged.
pub open spec fn eval_block_s(env: EnvM, ss: Seq<StmtV>, fuel: nat) -> (
    EnvM,
    Result<Val, Seq<char>>,
)
    decreases fuel, stmts_size(ss), 0int,
{
    if ss.len() == 0 {
        (env, Ok(Val::Default))
    } else {
        let (env2, r) = eval_stmt_s(env, ss[0], fuel);
        match r {
            Err(m) => (env2, Err(m)),
            Ok(v) => if v matches Val::Return(_) {
                (env2, Ok(v))
            } else if ss.len() == 1 {
                (env2, Ok(v))
            } else {
                eval_block_s(env2, ss.drop_first(), fuel)
            },
        }
    }
}

/// Evaluates one expression, yielding the updated environment and a value or
/// an error.
pub open spec fn eval_expr_s(env: EnvM, e: ExprV, fuel: nat) -> (EnvM, Result<Val, Seq<char>>)
    decreases fuel, expr_size(e), 0int,
{
    match e {
        ExprV::Identifier(n) => (env, ident_lookup(env, n)),
        ExprV::Integer(v) => (env, Ok(Val::Integer(v))),
        ExprV::Strings(s) => (env, Ok(Val::String(s))),
        ExprV::Boolean(b) => (env, Ok(Val::Boolean(b))),
        ExprV::Prefix { operator, right } => {
            let (env2, r) = eval_expr_s(env, *right, fuel);
            (
                env2,
                match r {
                    Ok(v) => prefix_eval(operator, v),
                    Err(m) => Err(m),
                },
            )
        },
        ExprV::Infix { left, operator, right } => {
            let (env2, rl) = eval_expr_s(env, *left, fuel);
            match rl {
                Err(m) => (env2, Err(m)),
                Ok(lv) => {
                    let (env3, rr) = eval_expr_s(env2, *right, fuel);
                    (
                        env3,
                        match rr {
                            Ok(rv) => infix_eval(lv, operator, rv),
                            Err(m) => Err(m),
                        },
                    )
                },
            }
        },
        ExprV::Grouped(inner) => eval_expr_s(env, *inner, fuel),
        ExprV::If { condition, consequence, alternative } => {
            let (env2, rc) = eval_expr_s(env, *condition, fuel);
            match rc {
                Err(m) => (env2, Err(m)),
                Ok(c) => if is_truthy_v(c) {
                    eval_stmt_s(env2, *consequence, fuel)
                } else {
                    match alternative {
                        Some(a) => eval_stmt_s(env2, *a, fuel),
                        None => (env2, Ok(Val::Null)),
                    }
                },
            }
        },
        ExprV::Function { parameters, body } => (
            env,
            Ok(Val::Function { parameters, body: *body, env: Box::new(env) }),
        ),
        ExprV::Call { function, arguments } => {
            let (env2, rf) = eval_expr_s(env, *function, fuel);
            match rf {
                Err(m) => (env2, Err(m)),
                Ok(f) => {
                    let (env3, ra) = eval_exprs_s(env2, arguments, fuel, Seq::empty());
                    match ra {
                        Err(m) => (env3, Err(m)),
                        Ok(args) => (env3, apply_function_s(f, args, fuel)),
                    }
                },
            }
        },
        ExprV::Array(es) => {
            let (env2, r) = eval_exprs_s(env, es, fuel, Seq::empty());
            (
                env2,
                match r {
                    Ok(vs) => Ok(Val::Array(vs)),
                    Err(m) => Err(m),
                },
            )
        },
        ExprV::Index { left, index } => {
            let (env2, rl) = eval_expr_s(env, *left, fuel);
            match rl {
                Err(m) => (env2, Err(m)),
                Ok(lv) => {
                    let (env3, ri) = eval_expr_s(env2, *index, fuel);
                    (
                        env3,
                        match ri {
                            Ok(iv) => index_eval(lv, iv),
                            Err(m) => Err(m),
                        },
                    )
                },
            }
        },
        ExprV::Hash(ps) => {
            let (env2, r) = eval_hash_s(env, ps, fuel, Seq::empty());
            (
                env2,
                match r {
                    Ok(entries) => Ok(Val::Hash(entries)),
                    Err(m) => Err(m),
                },
            )
        },
    }
}

/// Evaluates a list of expressions left to right, accumulating their values.
pub open spec fn eval_exprs_s(env: EnvM, es: Seq<ExprV>, fuel: nat, acc: Seq<Val>) -> (
    EnvM,
    Result<Seq<Val>, Seq<char>>,
)
    decreases fuel, exprs_size(es), 0int,
{
    if es.len() == 0 {
        (env, Ok(acc))
    } else {
        let (env2, r) = eval_expr_s(env, es[0], fuel);
        match r {
            Err(m) => (env2, Err(m)),
            Ok(v) => eval_exprs_s(env2, es.drop_first(), fuel, acc.push(v)),
        }
    }
}

/// Evaluates a map literal's key/value pairs in order, projecting each key
/// and storing each entry; an unusable key fails the evaluation.
pub open spec fn eval_hash_s(
    env: EnvM,
    ps: Seq<(ExprV, ExprV)>,
    fuel: nat,
    acc: Seq<(KeyV, (Val, Val))>,
) -> (EnvM, Result<Seq<(KeyV, (Val, Val))>, Seq<char>>)
    decreases fuel, pairs_size(ps), 0int,
{
    if ps.len() == 0 {
        (env, Ok(acc))
    } else {
        let (env2, rk) = eval_expr_s(env, ps[0].0, fuel);
        match rk {
            Err(m) => (env2, Err(m)),
            Ok(k) => {
                let (env3, rv) = eval_expr_s(env2, ps[0].1, fuel);
                match rv {
                    Err(m) => (env3, Err(m)),
                    Ok(v) => if key_of(k) == KeyV::Unusable {
                        (env3, Err("unusable as map key: "@ + type_text(k)))
                    } else {
                        eval_hash_s(
                            env3,
                            ps.drop_first(),
                            fuel,
                            entry_insert(acc, key_of(k), (k, v)),
                        )
                    },
                }
            },
        }
    }
}

/// Binds parameters positionally into a fresh scope.
pub open spec fn bind_params(e: EnvM, params: Seq<ExprV>, args: Seq<Val>) -> Result<
    EnvM,
    Seq<char>,
>
    recommends
        params.len() == args.len(),
    decreases params.len(),
{
    if params.len() == 0 {
        Ok(e)
    } else {
        match params[0] {
            ExprV::Identifier(n) => bind_params(
                env_set(e, n, args[0]),
                params.drop_first(),
                args.drop_first(),
            ),
            _ => Err("invalid argument index: 0"@),
        }
    }
}

/// Applies a callee to already-evaluated arguments. A closure checks arity,
/// runs its body in a fresh child of its captured environment at one less
/// unit of call depth, and strips a `Return` wrapper; exhausting the depth
/// budget is the `stack overflow` error.
pub open spec fn apply_function_s(f: Val, args: Seq<Val>, fuel: nat) -> Result<Val, Seq<char>>
    decreases fuel, 0nat, 0int,
{
    match f {
        Val::Function { parameters, body, env } => {
            if parameters.len() != args.len() {
                Err(arity_text(parameters.len() as int, args.len() as int))
            } else if fuel == 0 {
                Err("stack overflow"@)
            } else {
                match bind_params(EnvM { store: Seq::empty(), outer: Some(env) }, parameters, args) {
                    Err(m) => Err(m),
                    Ok(env2) => {
                        let (env3, r) = eval_stmt_s(env2, body, (fuel - 1) as nat);
                        match r {
                            Ok(Val::Return(v)) => Ok(*v),
                            Ok(v) => Ok(v),
                            Err(m) => Err(m),
                        }
                    },
                }
            }
        },
        Val::Buildin(b) => apply_buildin(b, args),
        _ => Err("not a function: "@ + type_text(f)),
    }
}

/// Evaluates a whole program: statements in order, an error stops at once,
/// a `Return`-wrapped value is stripped and replied; the result of the last
/// statement decides between a reply and no reply.
pub open spec fn eval_program_s(env: EnvM, ss: Seq<StmtV>, fuel: nat, last: Val) -> (EnvM, RespV)
    decreases fuel, stmts_size(ss), 1int,
{
    if ss.len() == 0 {
        (
            env,
            if last == Val::Let {
                RespV::NoReply
            } else {
                RespV::Reply(last)
            },
        )
    } else {
        let (env2, r) = eval_stmt_s(env, ss[0], fuel);
        match r {
            Err(m) => (env2, RespV::Error(m)),
            Ok(v) => match v {
                Val::Return(inner) => (env2, RespV::Reply(*inner)),
                _ => eval_program_s(env2, ss.drop_first(), fuel, v),
            },
        }
    }
}

/// The three-way outcome of evaluating a program: a value to display, no
/// value to display (a bare `let`), or an error message.
pub enum Response {
    Reply(Object),
    NoReply,
    Error(String),
}

/// The mathematical view of a `Response`.
pub enum RespV {
    Reply(Val),
    NoReply,
    Error(Seq<char>),
}

impl View for Response {
    type V = RespV;

    open spec fn view(&self) -> RespV {
        match self {
            Response::Reply(o) => RespV::Reply(o@),
            Response::NoReply => RespV::NoReply,
            Response::Error(m) => RespV::Error(m@),
        }
    }
}

/// The call-depth budget: applying a closure consumes one unit, and running
/// out is the `stack overflow` evaluation error. This makes the policy for
/// unbounded user recursion an explicit, testable error instead of an
/// exhausted host stack, and it is what keeps the evaluator's no-panic
/// promise real. The figure is chosen so that the budget, not the host
/// stack, is always what stops runaway recursion: one language-level call
/// nests roughly ten host frames, so the budget must stay well under the
/// smallest stack the evaluator may run on (two megabytes for a spawned
/// thread).
pub const CALL_DEPTH_LIMIT: u64 = 64;

/// Every statement weighs at least one.
proof fn lemma_stmt_size_pos(s: StmtV)
    ensures
        stmt_size(s) >= 1,
{
    match s {
        StmtV::Let { name, value } => {
            assert(stmt_size(s) >= 1);
        },
        StmtV::Return(e) => {
            assert(stmt_size(s) >= 1);
        },
        StmtV::Expression(e) => {
            assert(stmt_size(s) >= 1);
        },
        StmtV::Block(ss) => {
            assert(stmt_size(s) >= 1);
        },
    }
}

/// Truthiness of a runtime value.
fn is_truthy(object: Object) -> (r: bool)
    ensures
        r == is_truthy_v(object@),
{
    match object {
        Object::Boolean(false) => false,
        Object::Null => false,
        _ => true,
    }
}

/// Truncating signed division on in-range, non-zero operands.
fn div_exec(a: isize, b: isize) -> (r: isize)
    requires
        b != 0,
        !(a == isize::MIN && b == -1),
    ensures
        r as int == div_trunc(a as int, b as int),
{
    let a_wide: i128 = a as i128;
    let b_wide: i128 = b as i128;
    let ua: u128 = (if a_wide < 0 {
        -a_wide
    } else {
        a_wide
    }) as u128;
    let ub: u128 = (if b_wide < 0 {
        -b_wide
    } else {
        b_wide
    }) as u128;
    let q: u128 = ua / ub;
    proof {
        vstd::arithmetic::div_mod::lemma_div_nonincreasing(ua as int, ub as int);
    }
    if (a < 0) != (b < 0) {
        -(q as i128) as isize
    } else {
        assert(q <= isize::MAX as u128) by {
            if a >= 0 {
            } else if b == -1 {
            } else {
                vstd::arithmetic::div_mod::lemma_div_is_ordered_by_denominator(
                    ua as int,
                    2,
                    ub as int,
                );
                vstd::arithmetic::div_mod::lemma_div_is_ordered(
                    ua as int,
                    isize::MAX as int + 1,
                    2,
                );
            }
        }
        q as isize
    }
}

/// Stores an entry into the ordered entry list, replacing in place on an
/// existing key.
fn entries_insert(entries: &mut Vec<(crate::object::MapKey, MapPair)>, key: crate::object::MapKey, pair: MapPair)
    ensures
        entries_view(final(entries)@) == entry_insert(
            entries_view(old(entries)@),
            key@,
            (pair.key@, pair.value@),
        ),
{
    let ghost v0 = entries_view(entries@);
    let ghost entries0 = entries@;
    proof {
        lemma_entries_view(entries@);
    }
    let mut i: usize = 0;
    while i < entries.len()
        invariant
            0 <= i <= entries@.len(),
            entries0 == old(entries)@,
            entries@ == entries0,
            v0 == entries_view(entries0),
            v0.len() == entries0.len(),
            forall|j: int|
                0 <= j < entries0.len() ==> v0[j] == (
                    #[trigger] entries0[j].0@,
                    (entries0[j].1.key@, entries0[j].1.value@),
                ),
            forall|j: int| 0 <= j < i ==> v0[j].0 != key@,
        decreases entries@.len() - i,
    {
        proof {
            assert(v0[i as int] == (
                entries0[i as int].0@,
                (entries0[i as int].1.key@, entries0[i as int].1.value@),
            ));
        }
        if entries[i].0.eq_key(&key) {
            let ghost pair_view = (pair.key@, pair.value@);
            let _removed = entries.remove(i);
            entries.insert(i, (key, pair));
            proof {
                assert(entries@ =~= entries0.update(i as int, entries@[i as int]));
                lemma_entries_view(entries@);
                lemma_entry_insert_found(v0, key@, pair_view, i as int);
                assert forall|j: int|
                    0 <= j < entries@.len() implies entries_view(entries@)[j] == v0.update(
                    i as int,
                    (key@, pair_view),
                )[j] by {
                    assert(entries_view(entries@)[j] == (
                        entries@[j].0@,
                        (entries@[j].1.key@, entries@[j].1.value@),
                    ));
                    if j != i {
                        assert(entries@[j] == entries0[j]);
                        assert(v0[j] == (
                            entries0[j].0@,
                            (entries0[j].1.key@, entries0[j].1.value@),
                        ));
                    }
                }
                assert(entries_view(entries@) =~= v0.update(i as int, (key@, pair_view)));
            }
            return ;
        }
        i = i + 1;
    }
    let ghost pair_view = (pair.key@, pair.value@);
    entries.push((key, pair));
    proof {
        lemma_entries_view(entries@);
        lemma_entry_insert_missing(v0, key@, pair_view);
        assert forall|j: int|
            0 <= j < entries@.len() implies entries_view(entries@)[j] == v0.push(
            (key@, pair_view),
        )[j] by {
            assert(entries_view(entries@)[j] == (
                entries@[j].0@,
                (entries@[j].1.key@, entries@[j].1.value@),
            ));
            if j < entries0.len() {
                assert(entries@[j] == entries0[j]);
                assert(v0[j] == (entries0[j].0@, (entries0[j].1.key@, entries0[j].1.value@)));
            }
        }
        assert(entries_view(entries@) =~= v0.push((key@, pair_view)));
    }
}

proof fn lemma_entry_insert_found(
    s: Seq<(KeyV, (Val, Val))>,
    k: KeyV,
    pair: (Val, Val),
    i: int,
)
    requires
        0 <= i < s.len(),
        s[i].0 == k,
        forall|j: int| 0 <= j < i ==> s[j].0 != k,
    ensures
        entry_insert(s, k, pair) == s.update(i, (k, pair)),
    decreases i,
{
    if i == 0 {
        assert(entry_insert(s, k, pair) =~= s.update(0, (k, pair)));
    } else {
        lemma_entry_insert_found(s.drop_first(), k, pair, i - 1);
        assert(s.drop_first()[i - 1] == s[i]);
        assert(entry_insert(s, k, pair) =~= s.update(i, (k, pair)));
    }
}

proof fn lemma_entry_insert_missing(s: Seq<(KeyV, (Val, Val))>, k: KeyV, pair: (Val, Val))
    requires
        forall|j: int| 0 <= j < s.len() ==> s[j].0 != k,
    ensures
        entry_insert(s, k, pair) == s.push((k, pair)),
    decreases s.len(),
{
    if s.len() > 0 {
        lemma_entry_insert_missing(s.drop_first(), k, pair);
        assert(entry_insert(s, k, pair) =~= s.push((k, pair)));
    } else {
        assert(entry_insert(s, k, pair) =~= s.push((k, pair)));
    }
}

impl Environment {
    /// Evaluates a whole program against this environment: the value of its
    /// last statement, no value for a bare `let`, or the first error.
    pub fn eval(&mut self, program: Program) -> (r: Response)
        ensures
            ({
                let (e2, rv) = eval_program_s(
                    old(self)@,
                    program@,
                    CALL_DEPTH_LIMIT as nat,
                    Val::Default,
                );
                final(self)@ == e2 && r@ == rv
            }),
    {
        let ghost prog = program@;
        let ghost env0 = self@;
        proof {
            crate::ast::lemma_stmts_view(program.statements@);
            assert(prog.skip(0) =~= prog);
        }
        let mut result = Object::Default;
        let mut i: usize = 0;
        let n = program.statements.len();
        while i < n
            invariant
                env0 == old(self)@,
                0 <= i <= n,
                n == program.statements@.len(),
                prog == stmts_view(program.statements@),
                prog.len() == n,
                forall|j: int| 0 <= j < n ==> prog[j] == #[trigger] program.statements@[j]@,
                !(result@ matches Val::Return(_)),
                eval_program_s(env0, prog, CALL_DEPTH_LIMIT as nat, Val::Default)
                    == eval_program_s(
                    self@,
                    prog.skip(i as int),
                    CALL_DEPTH_LIMIT as nat,
                    result@,
                ),
            decreases n - i,
        {
            proof {
                assert(prog.skip(i as int)[0] == program.statements@[i as int]@);
                assert(prog.skip(i as int).drop_first() =~= prog.skip(i + 1));
            }
            match self.eval_statement(&program.statements[i], CALL_DEPTH_LIMIT) {
                Ok(object) => {
                    match object {
                        Object::Return(inner) => {
                            return Response::Reply(*inner);
                        },
                        other => {
                            result = other;
                        },
                    }
                },
                Err(error) => {
                    return Response::Error(error);
                },
            }
            i = i + 1;
        }
        proof {
            assert(prog.skip(n as int) =~= Seq::<StmtV>::empty());
        }
        match result {
            Object::Let => Response::NoReply,
            other => Response::Reply(other),
        }
    }

    /// Evaluates one statement.
    fn eval_statement(&mut self, statement: &Statement, fuel: u64) -> (r: Result<Object, String>)
        ensures
            ({
                let (e2, rs) = eval_stmt_s(old(self)@, statement@, fuel as nat);
                final(self)@ == e2 && res_matches(r, rs)
            }),
        decreases fuel, stmt_size(statement@), 0int,
    {
        match statement {
            Statement::Expression(expression) => self.eval_expression(expression, fuel),
            Statement::Block(statements) => self.eval_block_statement(statements, fuel),
            Statement::Return(expression) => self.eval_return_statement(expression, fuel),
            Statement::Let { name, value } => self.eval_let_statement(name, value, fuel),
        }
    }

    /// Evaluates a block's statements in order, stopping at a `Return`.
    fn eval_block_statement(&mut self, statements: &Vec<Statement>, fuel: u64) -> (r: Result<
        Object,
        String,
    >)
        ensures
            ({
                let (e2, rs) = eval_block_s(old(self)@, stmts_view(statements@), fuel as nat);
                final(self)@ == e2 && res_matches(r, rs)
            }),
        decreases fuel, stmts_size(stmts_view(statements@)), 1int,
    {
        proof {
            assert(stmts_view(statements@).skip(0) =~= stmts_view(statements@));
        }
        self.eval_block_at(statements, 0, fuel)
    }

    /// Evaluates a block from position `i` on.
    fn eval_block_at(&mut self, statements: &Vec<Statement>, i: usize, fuel: u64) -> (r: Result<
        Object,
        String,
    >)
        requires
            i <= statements@.len(),
        ensures
            ({
                let (e2, rs) = eval_block_s(
                    old(self)@,
                    stmts_view(statements@).skip(i as int),
                    fuel as nat,
                );
                final(self)@ == e2 && res_matches(r, rs)
            }),
        decreases fuel, stmts_size(stmts_view(statements@).skip(i as int)), 0int,
    {
        let ghost v = stmts_view(statements@);
        proof {
            crate::ast::lemma_stmts_view(statements@);
        }
        if i >= statements.len() {
            proof {
                assert(v.skip(i as int) =~= Seq::<StmtV>::empty());
            }
            Ok(Object::Default)
        } else {
            proof {
                assert(v.skip(i as int)[0] == statements@[i as int]@);
                assert(v.skip(i as int).drop_first() =~= v.skip(i + 1));
            }
            match self.eval_statement(&statements[i], fuel) {
                Err(message) => Err(message),
                Ok(object) => {
                    let is_return = match &object {
                        Object::Return(_) => true,
                        _ => false,
                    };
                    if is_return {
                        Ok(object)
                    } else if i == statements.len() - 1 {
                        Ok(object)
                    } else {
                        self.eval_block_at(statements, i + 1, fuel)
                    }
                },
            }
        }
    }

    /// Evaluates a `return` statement, wrapping its value.
    fn eval_return_statement(&mut self, expression: &Expression, fuel: u64) -> (r: Result<
        Object,
        String,
    >)
        ensures
            ({
                let (e2, rs) = eval_stmt_s(old(self)@, StmtV::Return(expression@), fuel as nat);
                final(self)@ == e2 && res_matches(r, rs)
            }),
        decreases fuel, expr_size(expression@), 1int,
    {
        match self.eval_expression(expression, fuel) {
            Ok(result) => Ok(Object::Return(Box::new(result))),
            Err(message) => Err(message),
        }
    }

    /// Evaluates a `let` statement: binds the value and yields the internal
    /// `Let` marker.
    fn eval_let_statement(&mut self, name: &Expression, object: &Expression, fuel: u64) -> (r:
        Result<Object, String>)
        ensures
            ({
                let (e2, rs) = eval_stmt_s(
                    old(self)@,
                    StmtV::Let { name: name@, value: object@ },
                    fuel as nat,
                );
                final(self)@ == e2 && res_matches(r, rs)
            }),
        decreases fuel, expr_size(object@), 1int,
    {
        match name {
            Expression::Identifier(n) => {
                match self.eval_expression(object, fuel) {
                    Ok(value) => {
                        let bind_result = self.set(n.clone(), value);
                        match bind_result {
                            Ok(_) => Ok(Object::Let),
                            Err(message) => Err(message),
                        }
                    },
                    Err(message) => Err(message),
                }
            },
            _ => Err(String::from_str("unexpected error occurred in let binding")),
        }
    }

    /// Evaluates one expression.
    fn eval_expression(&mut self, expression: &Expression, fuel: u64) -> (r: Result<
        Object,
        String,
    >)
        ensures
            ({
                let (e2, rs) = eval_expr_s(old(self)@, expression@, fuel as nat);
                final(self)@ == e2 && res_matches(r, rs)
            }),
        decreases fuel, expr_size(expression@), 0int,
    {
        match expression {
            Expression::Integer(value) => Ok(Object::Integer(*value)),
            Expression::Boolean(value) => Ok(Object::Boolean(*value)),
            Expression::Strings(value) => Ok(Object::String(value.clone())),
            Expression::Identifier(value) => self.eval_identifier_expression(value),
            Expression::Prefix { operator, right } => {
                let right_object = match self.eval_expression(right, fuel) {
                    Ok(object) => object,
                    Err(message) => {
                        return Err(message);
                    },
                };
                self.eval_prefix_expression(operator, right_object)
            },
            Expression::Infix { left, operator, right } => {
                let left_object = match self.eval_expression(left, fuel) {
                    Ok(object) => object,
                    Err(message) => {
                        return Err(message);
                    },
                };
                let right_object = match self.eval_expression(right, fuel) {
                    Ok(object) => object,
                    Err(message) => {
                        return Err(message);
                    },
                };
                self.eval_infix_expression(left_object, operator, right_object)
            },
            Expression::Grouped(inner) => self.eval_expression(inner, fuel),
            Expression::If { condition, consequence, alternative } => {
                let condition_object = match self.eval_expression(condition, fuel) {
                    Ok(object) => object,
                    Err(message) => {
                        return Err(message);
                    },
                };
                proof {
                    lemma_stmt_size_pos(consequence@);
                    match alternative {
                        Some(a) => {
                            lemma_stmt_size_pos(a@);
                        },
                        None => {},
                    }
                }
                self.eval_if_expression(condition_object, consequence, alternative, fuel)
            },
            Expression::Function { parameters, body } => self.eval_function_expression(
                parameters,
                body,
            ),
            Expression::Call { function, arguments } => {
                let function_object = match self.eval_expression(function, fuel) {
                    Ok(object) => object,
                    Err(message) => {
                        return Err(message);
                    },
                };
                let argument_objects = match self.eval_expressions(arguments, fuel) {
                    Ok(objects) => objects,
                    Err(message) => {
                        return Err(message);
                    },
                };
                self.apply_function(function_object, argument_objects, fuel)
            },
            Expression::Array(elements) => {
                match self.eval_expressions(elements, fuel) {
                    Ok(objects) => Ok(Object::Array(objects)),
                    Err(message) => Err(message),
                }
            },
            Expression::Index { left, index } => {
                let left_object = match self.eval_expression(left, fuel) {
                    Ok(object) => object,
                    Err(message) => {
                        return Err(message);
                    },
                };
                let index_object = match self.eval_expression(index, fuel) {
                    Ok(object) => object,
                    Err(message) => {
                        return Err(message);
                    },
                };
                self.eval_index_expression(left_object, index_object)
            },
            Expression::Hash(pairs) => self.eval_map_expression(pairs, fuel),
        }
    }

    /// Resolves an identifier: scope chain first, then the built-in table.
    fn eval_identifier_expression(&self, name: &String) -> (r: Result<Object, String>)
        ensures
            res_matches(r, ident_lookup(self@, name@)),
    {
        match self.get(name) {
            Ok(object) => Ok(object),
            Err(error) => match crate::buildin::lookup(name) {
                Some(object) => Ok(object),
                None => Err(error),
            },
        }
    }

    /// Applies a prefix operator to its evaluated operand.
    fn eval_prefix_expression(&mut self, operator: &Token, right: Object) -> (r: Result<
        Object,
        String,
    >)
        ensures
            final(self)@ == old(self)@,
            res_matches(r, prefix_eval(operator@, right@)),
    {
        match operator {
            Token::Bang => self.eval_bang_prefix_expression(right),
            Token::Minus => self.eval_minus_prefix_expression(right),
            _ => {
                let mut message = String::from_str("unknown operator: ");
                let op_text = operator.to_text();
                message.append(op_text.as_str());
                let kind = right.get_type();
                message.append(kind.as_str());
                Err(message)
            },
        }
    }

    /// `!`: boolean negation of truthiness.
    fn eval_bang_prefix_expression(&mut self, right: Object) -> (r: Result<Object, String>)
        ensures
            final(self)@ == old(self)@,
            res_matches(r, prefix_eval(Tok::Bang, right@)),
    {
        Ok(Object::Boolean(!is_truthy(right)))
    }

    /// `-`: negation, legal on integers only.
    fn eval_minus_prefix_expression(&mut self, right: Object) -> (r: Result<Object, String>)
        ensures
            final(self)@ == old(self)@,
            res_matches(r, prefix_eval(Tok::Minus, right@)),
    {
        match right {
            Object::Integer(value) => {
                if value == isize::MIN {
                    Err(String::from_str("integer overflow"))
                } else {
                    Ok(Object::Integer(-value))
                }
            },
            other => {
                let mut message = String::from_str("unknown operator: -");
                let kind = other.get_type();
                message.append(kind.as_str());
                Err(message)
            },
        }
    }

    /// Dispatches an infix operator on the runtime types of both operands.
    fn eval_infix_expression(&mut self, left: Object, operator: &Token, right: Object) -> (r:
        Result<Object, String>)
        ensures
            final(self)@ == old(self)@,
            res_matches(r, infix_eval(left@, operator@, right@)),
    {
        match (&left, &right) {
            (Object::Integer(l), Object::Integer(rv)) => self.eval_integer_infix_expression(
                *l,
                operator,
                *rv,
            ),
            (Object::Boolean(l), Object::Boolean(rv)) => self.eval_boolean_infix_expression(
                *l,
                operator,
                *rv,
            ),
            (Object::String(l), Object::String(rv)) => self.eval_string_infix_expression(
                l.clone(),
                operator,
                rv.clone(),
            ),
            _ => {
                let mut message = String::from_str("type mismatch: ");
                let left_kind = left.get_type();
                message.append(left_kind.as_str());
                message.append(" ");
                let op_text = operator.to_text();
                message.append(op_text.as_str());
                message.append(" ");
                let right_kind = right.get_type();
                message.append(right_kind.as_str());
                Err(message)
            },
        }
    }

    /// Integer-by-integer operators, with standard signed arithmetic;
    /// overflow and division by zero are evaluation errors.
    fn eval_integer_infix_expression(&mut self, left: isize, operator: &Token, right: isize) -> (r:
        Result<Object, String>)
        ensures
            final(self)@ == old(self)@,
            res_matches(r, int_infix(left as int, operator@, right as int)),
    {
        match operator {
            Token::Plus => {
                let wide: i128 = left as i128 + right as i128;
                if wide < isize::MIN as i128 || wide > isize::MAX as i128 {
                    Err(String::from_str("integer overflow"))
                } else {
                    Ok(Object::Integer(wide as isize))
                }
            },
            Token::Minus => {
                let wide: i128 = left as i128 - right as i128;
                if wide < isize::MIN as i128 || wide > isize::MAX as i128 {
                    Err(String::from_str("integer overflow"))
                } else {
                    Ok(Object::Integer(wide as isize))
                }
            },
            Token::Asterisk => {
                proof {
                    let ghost l = left as int;
                    let ghost rr = right as int;
                    assert(l * rr <= i128::MAX && l * rr >= i128::MIN) by (nonlinear_arith)
                        requires
                            -(0x8000000000000000 as int) <= l <= 0x7fffffffffffffff as int,
                            -(0x8000000000000000 as int) <= rr <= 0x7fffffffffffffff as int,
                    ;
                }
                let wide: i128 = left as i128 * right as i128;
                if wide < isize::MIN as i128 || wide > isize::MAX as i128 {
                    Err(String::from_str("integer overflow"))
                } else {
                    Ok(Object::Integer(wide as isize))
                }
            },
            Token::Slash => {
                if right == 0 {
                    Err(String::from_str("division by zero"))
                } else if left == isize::MIN && right == -1 {
                    Err(String::from_str("integer overflow"))
                } else {
                    Ok(Object::Integer(div_exec(left, right)))
                }
            },
            Token::Lt => Ok(Object::Boolean(left < right)),
            Token::Gt => Ok(Object::Boolean(left > right)),
            Token::Eq => Ok(Object::Boolean(left == right)),
            Token::Ne => Ok(Object::Boolean(left != right)),
            _ => {
                let mut message = String::from_str("unknown operator: Integer ");
                let op_text = operator.to_text();
                message.append(op_text.as_str());
                message.append(" Integer");
                Err(message)
            },
        }
    }

    /// Boolean-by-boolean operators: equality only.
    fn eval_boolean_infix_expression(&mut self, left: bool, operator: &Token, right: bool) -> (r:
        Result<Object, String>)
        ensures
            final(self)@ == old(self)@,
            res_matches(r, bool_infix(left, operator@, right)),
    {
        match operator {
            Token::Eq => Ok(Object::Boolean(left == right)),
            Token::Ne => Ok(Object::Boolean(left != right)),
            _ => {
                let mut message = String::from_str("unknown operator: Boolean ");
                let op_text = operator.to_text();
                message.append(op_text.as_str());
                message.append(" Boolean");
                Err(message)
            },
        }
    }

    /// String-by-string operators: concatenation and equality.
    fn eval_string_infix_expression(&mut self, left: String, operator: &Token, right: String) -> (r:
        Result<Object, String>)
        ensures
            final(self)@ == old(self)@,
            res_matches(r, str_infix(left@, operator@, right@)),
    {
        match operator {
            Token::Plus => {
                let mut joined = left;
                joined.append(right.as_str());
                Ok(Object::String(joined))
            },
            Token::Eq => Ok(Object::Boolean(left == right)),
            Token::Ne => Ok(Object::Boolean(left != right)),
            _ => {
                let mut message = String::from_str("unknown operator: String ");
                let op_text = operator.to_text();
                message.append(op_text.as_str());
                message.append(" String");
                Err(message)
            },
        }
    }

    /// Evaluates an `if` expression: the condition decides which branch, a
    /// missing alternative yields null.
    fn eval_if_expression(
        &mut self,
        condition: Object,
        consequence: &Statement,
        alternative: &Option<Box<Statement>>,
        fuel: u64,
    ) -> (r: Result<Object, String>)
        requires
            stmt_size(consequence@) >= 1,
            (alternative matches Some(a) ==> stmt_size(a@) >= 1),
        ensures
            ({
                let (e2, rs) = if is_truthy_v(condition@) {
                    eval_stmt_s(old(self)@, consequence@, fuel as nat)
                } else {
                    match alternative {
                        Some(a) => eval_stmt_s(old(self)@, a@, fuel as nat),
                        None => (old(self)@, Ok::<Val, Seq<char>>(Val::Null)),
                    }
                };
                final(self)@ == e2 && res_matches(r, rs)
            }),
        decreases fuel, stmt_size(consequence@) + (match alternative {
            Some(a) => stmt_size(a@),
            None => 0nat,
        }), 1int,
    {
        if is_truthy(condition) {
            self.eval_statement(consequence, fuel)
        } else {
            match alternative {
                Some(statement) => self.eval_statement(statement, fuel),
                None => Ok(Object::Null),
            }
        }
    }

    /// Evaluates a function literal: a closure over a full snapshot of the
    /// current environment.
    fn eval_function_expression(&mut self, parameters: &Vec<Expression>, body: &Statement) -> (r:
        Result<Object, String>)
        ensures
            final(self)@ == old(self)@,
            res_matches(
                r,
                Ok(
                    Val::Function {
                        parameters: exprs_view(parameters@),
                        body: body@,
                        env: Box::new(old(self)@),
                    },
                ),
            ),
    {
        let captured = self.clone_env();
        Ok(
            Object::Function {
                parameters: exprs_duplicate(
                    parameters,
                    Ghost(exprs_size(exprs_view(parameters@)) + 1),
                ),
                body: body.duplicate(),
                env: captured,
            },
        )
    }

    /// Evaluates a list of expressions left to right.
    fn eval_expressions(&mut self, expressions: &Vec<Expression>, fuel: u64) -> (r: Result<
        Vec<Object>,
        String,
    >)
        ensures
            ({
                let (e2, rs) = eval_exprs_s(
                    old(self)@,
                    exprs_view(expressions@),
                    fuel as nat,
                    Seq::empty(),
                );
                final(self)@ == e2 && match (r, rs) {
                    (Ok(objects), Ok(values)) => vals_view(objects@) == values,
                    (Err(m), Err(t)) => m@ == t,
                    _ => false,
                }
            }),
        decreases fuel, exprs_size(exprs_view(expressions@)), 1int,
    {
        let ghost v = exprs_view(expressions@);
        let ghost env0 = self@;
        proof {
            crate::ast::lemma_exprs_view(expressions@);
            assert(v.skip(0) =~= v);
            assert(vals_view(Seq::<Object>::empty()) =~= Seq::<Val>::empty());
        }
        let mut out: Vec<Object> = Vec::new();
        let mut i: usize = 0;
        while i < expressions.len()
            invariant
                env0 == old(self)@,
                0 <= i <= expressions@.len(),
                v == exprs_view(expressions@),
                v.len() == expressions@.len(),
                forall|j: int| 0 <= j < expressions@.len() ==> v[j] == #[trigger] expressions@[j]@,
                eval_exprs_s(env0, v, fuel as nat, Seq::empty()) == eval_exprs_s(
                    self@,
                    v.skip(i as int),
                    fuel as nat,
                    vals_view(out@),
                ),
            decreases expressions@.len() - i,
        {
            proof {
                crate::ast::lemma_exprs_size_elem(v, i as int);
                assert(v.skip(i as int)[0] == expressions@[i as int]@);
                assert(v.skip(i as int).drop_first() =~= v.skip(i + 1));
            }
            let object = match self.eval_expression(&expressions[i], fuel) {
                Ok(object) => object,
                Err(message) => {
                    return Err(message);
                },
            };
            let ghost out0 = out@;
            out.push(object);
            proof {
                lemma_vals_view(out@);
                lemma_vals_view(out0);
                assert forall|j: int|
                    0 <= j < out@.len() implies vals_view(out@)[j] == vals_view(out0).push(
                    object@,
                )[j] by {
                    if j < out0.len() {
                        assert(out@[j] == out0[j]);
                        assert(out@[j]@ == out0[j]@);
                    } else {
                        assert(out@[j]@ == object@);
                    }
                }
                assert(vals_view(out@) =~= vals_view(out0).push(object@));
            }
            i = i + 1;
        }
        proof {
            assert(v.skip(expressions@.len() as int) =~= Seq::<ExprV>::empty());
        }
        Ok(out)
    }

    /// Evaluates an index expression on already-evaluated operands.
    fn eval_index_expression(&mut self, left: Object, index: Object) -> (r: Result<Object, String>)
        ensures
            final(self)@ == old(self)@,
            res_matches(r, index_eval(left@, index@)),
    {
        match (&left, &index) {
            (Object::Array(elements), Object::Integer(idx)) => {
                let copies = objs_clone(elements, Ghost(vals_size(vals_view(elements@)) + 1));
                self.eval_array_index_expression(copies, *idx)
            },
            (Object::Hash(pairs), _) => {
                let copies = entries_clone(pairs, Ghost(entries_size(entries_view(pairs@)) + 1));
                let index_copy = obj_clone(&index);
                self.eval_map_index_expression(copies, index_copy)
            },
            _ => {
                let mut message = String::from_str("index operator not supported: ");
                let kind = left.get_type();
                message.append(kind.as_str());
                Err(message)
            },
        }
    }

    /// Indexes an array: out-of-range positions yield null, never an error.
    fn eval_array_index_expression(&mut self, elements: Vec<Object>, index: isize) -> (r: Result<
        Object,
        String,
    >)
        ensures
            final(self)@ == old(self)@,
            res_matches(
                r,
                index_eval(Val::Array(vals_view(elements@)), Val::Integer(index as int)),
            ),
    {
        proof {
            lemma_vals_view(elements@);
        }
        if index < 0 || index as usize >= elements.len() {
            Ok(Object::Null)
        } else {
            Ok(obj_clone(&elements[index as usize]))
        }
    }

    /// Indexes a map: the key is projected like a stored key; an absent key
    /// yields null, an unusable key is an error even on lookup.
    fn eval_map_index_expression(
        &mut self,
        pairs: Vec<(crate::object::MapKey, MapPair)>,
        index: Object,
    ) -> (r: Result<Object, String>)
        ensures
            final(self)@ == old(self)@,
            res_matches(r, index_eval(Val::Hash(entries_view(pairs@)), index@)),
    {
        let map_key = crate::object::MapKey::from_object(&index);
        let unusable = match &map_key {
            crate::object::MapKey::Unusable => true,
            _ => false,
        };
        if unusable {
            let mut message = String::from_str("unusable as map key: ");
            let kind = index.get_type();
            message.append(kind.as_str());
            return Err(message);
        }
        let ghost v = entries_view(pairs@);
        proof {
            lemma_entries_view(pairs@);
            assert(v.skip(0) =~= v);
        }
        let mut i: usize = 0;
        while i < pairs.len()
            invariant
                self@ == old(self)@,
                0 <= i <= pairs@.len(),
                v == entries_view(pairs@),
                v.len() == pairs@.len(),
                forall|j: int|
                    0 <= j < pairs@.len() ==> v[j] == (
                        #[trigger] pairs@[j].0@,
                        (pairs@[j].1.key@, pairs@[j].1.value@),
                    ),
                map_key@ == crate::object::key_of(index@),
                !(map_key@ == KeyV::Unusable),
                entry_find(v, map_key@) == entry_find(v.skip(i as int), map_key@),
            decreases pairs@.len() - i,
        {
            proof {
                assert(v[i as int] == (
                    pairs@[i as int].0@,
                    (pairs@[i as int].1.key@, pairs@[i as int].1.value@),
                ));
                assert(v.skip(i as int)[0] == v[i as int]);
                assert(v.skip(i as int).drop_first() =~= v.skip(i + 1));
            }
            if pairs[i].0.eq_key(&map_key) {
                return Ok(obj_clone(&pairs[i].1.value));
            }
            i = i + 1;
        }
        proof {
            assert(v.skip(pairs@.len() as int) =~= Seq::<(KeyV, (Val, Val))>::empty());
        }
        Ok(Object::Null)
    }

    /// Evaluates a map literal: each key/value pair in order, each key
    /// projected to a stored key; the original key object is retained for
    /// display.
    fn eval_map_expression(&mut self, pairs: &Vec<(Expression, Expression)>, fuel: u64) -> (r:
        Result<Object, String>)
        ensures
            ({
                let (e2, rs) = eval_hash_s(
                    old(self)@,
                    pairs_view(pairs@),
                    fuel as nat,
                    Seq::empty(),
                );
                final(self)@ == e2 && match (r, rs) {
                    (Ok(object), Ok(entries)) => object@ == Val::Hash(entries),
                    (Err(m), Err(t)) => m@ == t,
                    _ => false,
                }
            }),
        decreases fuel, pairs_size(pairs_view(pairs@)), 1int,
    {
        let ghost v = pairs_view(pairs@);
        let ghost env0 = self@;
        proof {
            crate::ast::lemma_pairs_view(pairs@);
            assert(v.skip(0) =~= v);
            assert(entries_view(Seq::<(crate::object::MapKey, MapPair)>::empty()) =~= Seq::<
                (KeyV, (Val, Val)),
            >::empty());
        }
        let mut out: Vec<(crate::object::MapKey, MapPair)> = Vec::new();
        let mut i: usize = 0;
        while i < pairs.len()
            invariant
                env0 == old(self)@,
                0 <= i <= pairs@.len(),
                v == pairs_view(pairs@),
                v.len() == pairs@.len(),
                forall|j: int|
                    0 <= j < pairs@.len() ==> v[j] == (#[trigger] pairs@[j].0@, pairs@[j].1@),
                eval_hash_s(env0, v, fuel as nat, Seq::empty()) == eval_hash_s(
                    self@,
                    v.skip(i as int),
                    fuel as nat,
                    entries_view(out@),
                ),
            decreases pairs@.len() - i,
        {
            proof {
                crate::ast::lemma_pairs_size_elem(v, i as int);
                assert(v[i as int] == (pairs@[i as int].0@, pairs@[i as int].1@));
                assert(v.skip(i as int)[0] == v[i as int]);
                assert(v.skip(i as int).drop_first() =~= v.skip(i + 1));
            }
            let key = match self.eval_expression(&pairs[i].0, fuel) {
                Ok(object) => object,
                Err(message) => {
                    return Err(message);
                },
            };
            let value = match self.eval_expression(&pairs[i].1, fuel) {
                Ok(object) => object,
                Err(message) => {
                    return Err(message);
                },
            };
            let map_key = crate::object::MapKey::from_object(&key);
            let unusable = match &map_key {
                crate::object::MapKey::Unusable => true,
                _ => false,
            };
            if unusable {
                let mut message = String::from_str("unusable as map key: ");
                let kind = key.get_type();
                message.append(kind.as_str());
                return Err(message);
            }
            let map_pair = MapPair::new(key, value);
            entries_insert(&mut out, map_key, map_pair);
            i = i + 1;
        }
        proof {
            assert(v.skip(pairs@.len() as int) =~= Seq::<(ExprV, ExprV)>::empty());
        }
        Ok(Object::Hash(out))
    }

    /// Applies a callee to its evaluated arguments: a closure runs its body
    /// in a fresh child of its captured environment at one less unit of call
    /// depth; a built-in runs directly; anything else is an error.
    fn apply_function(&mut self, function: Object, arguments: Vec<Object>, fuel: u64) -> (r: Result<
        Object,
        String,
    >)
        ensures
            final(self)@ == old(self)@,
            res_matches(r, apply_function_s(function@, vals_view(arguments@), fuel as nat)),
        decreases fuel, 0nat, 0int,
    {
        proof {
            lemma_vals_view(arguments@);
        }
        match &function {
            Object::Function { parameters, body, env } => {
                proof {
                    crate::ast::lemma_exprs_view(parameters@);
                }
                match self.check_arity(parameters.len(), arguments.len()) {
                    Ok(_) => {},
                    Err(message) => {
                        return Err(message);
                    },
                }
                if fuel == 0 {
                    return Err(String::from_str("stack overflow"));
                }
                let ghost captured = env@;
                let ghost params = exprs_view(parameters@);
                let ghost args = vals_view(arguments@);
                proof {
                    crate::ast::lemma_exprs_view(parameters@);
                    assert(params.skip(0) =~= params);
                    assert(args.skip(0) =~= args);
                }
                let mut child = Environment::new_with_outer(Box::new(env.clone_env()));
                let ghost child0 = child@;
                let mut i: usize = 0;
                while i < parameters.len()
                    invariant
                        self@ == old(self)@,
                        0 <= i <= parameters@.len(),
                        parameters@.len() == arguments@.len(),
                        fuel >= 1,
                        function@ == (Val::Function {
                            parameters: params,
                            body: body@,
                            env: Box::new(captured),
                        }),
                        child0 == (EnvM { store: Seq::empty(), outer: Some(Box::new(captured)) }),
                        params == exprs_view(parameters@),
                        args == vals_view(arguments@),
                        params.len() == parameters@.len(),
                        args.len() == arguments@.len(),
                        forall|j: int|
                            0 <= j < parameters@.len() ==> params[j] == #[trigger] parameters@[j]@,
                        forall|j: int|
                            0 <= j < arguments@.len() ==> args[j] == #[trigger] arguments@[j]@,
                        bind_params(child0, params, args) == bind_params(
                            child@,
                            params.skip(i as int),
                            args.skip(i as int),
                        ),
                    decreases parameters@.len() - i,
                {
                    proof {
                        assert(params.skip(i as int)[0] == parameters@[i as int]@);
                        assert(params.skip(i as int).drop_first() =~= params.skip(i + 1));
                        assert(args.skip(i as int)[0] == arguments@[i as int]@);
                        assert(args.skip(i as int).drop_first() =~= args.skip(i + 1));
                    }
                    match &parameters[i] {
                        Expression::Identifier(name) => {
                            let argument = obj_clone(&arguments[i]);
                            let bind_result = child.set(name.clone(), argument);
                            match bind_result {
                                Ok(_) => {},
                                Err(message) => {
                                    return Err(message);
                                },
                            }
                        },
                        _ => {
                            return Err(String::from_str("invalid argument index: 0"));
                        },
                    }
                    i = i + 1;
                }
                proof {
                    assert(params.skip(parameters@.len() as int) =~= Seq::<ExprV>::empty());
                    assert(args.skip(arguments@.len() as int) =~= Seq::<Val>::empty());
                }
                let result = match child.eval_statement(body, fuel - 1) {
                    Ok(object) => object,
                    Err(message) => {
                        return Err(message);
                    },
                };
                match result {
                    Object::Return(inner) => Ok(*inner),
                    other => Ok(other),
                }
            },
            Object::Buildin(b) => crate::buildin::apply(*b, arguments),
            _ => {
                let mut message = String::from_str("not a function: ");
                let kind = function.get_type();
                message.append(kind.as_str());
                Err(message)
            },
        }
    }

    /// Checks that a call's argument count equals the parameter count.
    fn check_arity(&mut self, parameters: usize, arguments: usize) -> (r: Result<(), String>)
        ensures
            final(self)@ == old(self)@,
            parameters == arguments ==> r is Ok,
            parameters != arguments ==> (r matches Err(m) && m@ == arity_text(
                parameters as int,
                arguments as int,
            )),
    {
        if parameters == arguments {
            Ok(())
        } else {
            let mut message = String::from_str("expected arity to be ");
            let want_text = crate::text::dec_usize(parameters);
            message.append(want_text.as_str());
            message.append(", got ");
            let got_text = crate::text::dec_usize(arguments);
            message.append(got_text.as_str());
            message.append(" instead");
            Err(message)
        }
    }
}

} // verus!

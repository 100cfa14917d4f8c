//! The runtime object model: tagged values, the hashable key projection used
//! by map storage, their mathematical views, and their textual forms.
use crate::ast::{expr_view, exprs_view, ExprV, Expression, Statement, StmtV};
use crate::evaluator::{env_m, EnvM, Environment};
use crate::text::dec_isize;
use vstd::prelude::*;

verus! {

broadcast use vstd::seq::group_seq_axioms, vstd::std_specs::vec::group_vec_axioms;

/// The five host-implemented built-in functions.
#[derive(Clone, Copy, Debug, PartialEq, Eq)]
pub enum Buildin {
    Len,
    First,
    Last,
    Rest,
    Push,
}

/// A runtime value.
#[derive(Debug, PartialEq, Eq)]
pub enum Object {
    /// An integer.
    Integer(isize),
    /// A boolean.
    Boolean(bool),
    /// A string.
    String(String),
    /// The null value.
    Null,
    /// A value on its way out of a `return` statement; stripped at the
    /// nearest function application or at top level.
    Return(Box<Object>),
    /// A closure: parameters, body and the environment captured when the
    /// function literal was evaluated.
    Function { parameters: Vec<Expression>, body: Statement, env: Environment },
    /// A built-in function.
    Buildin(Buildin),
    /// An ordered array.
    Array(Vec<Object>),
    /// A map: ordered entries from a key projection to the retained pair.
    Hash(Vec<(MapKey, MapPair)>),
    /// The internal result of a `let` statement; never escapes into
    /// expression position.
    Let,
    /// The internal result of an empty block or program.
    Default,
}

/// The hashable projection of a value used to key map storage.
#[derive(Debug, PartialEq, Eq)]
pub enum MapKey {
    Integer(isize),
    Boolean(bool),
    String(String),
    Unusable,
}

/// A stored map entry: the original key object and the value object.
#[derive(Debug, PartialEq, Eq)]
pub struct MapPair {
    pub key: Object,
    pub value: Object,
}

/// The mathematical view of a `MapKey`.
pub enum KeyV {
    Integer(int),
    Boolean(bool),
    String(Seq<char>),
    Unusable,
}

/// The mathematical view of an `Object`.
#[verifier::ext_equal]
pub enum Val {
    Integer(int),
    Boolean(bool),
    String(Seq<char>),
    Null,
    Return(Box<Val>),
    Function { parameters: Seq<ExprV>, body: StmtV, env: Box<EnvM> },
    Buildin(Buildin),
    Array(Seq<Val>),
    Hash(Seq<(KeyV, (Val, Val))>),
    Let,
    Default,
}

impl View for MapKey {
    type V = KeyV;

    open spec fn view(&self) -> KeyV {
        match self {
            MapKey::Integer(v) => KeyV::Integer(*v as int),
            MapKey::Boolean(b) => KeyV::Boolean(*b),
            MapKey::String(s) => KeyV::String(s@),
            MapKey::Unusable => KeyV::Unusable,
        }
    }
}

/// The view of one object.
pub open spec fn val_of(o: Object) -> Val
    decreases o,
{
    match o {
        Object::Integer(v) => Val::Integer(v as int),
        Object::Boolean(b) => Val::Boolean(b),
        Object::String(s) => Val::String(s@),
        Object::Null => Val::Null,
        Object::Return(inner) => Val::Return(Box::new(val_of(*inner))),
        Object::Function { parameters, body, env } => Val::Function {
            parameters: exprs_view(parameters@),
            body: stmt_view_of(body),
            env: Box::new(env_m(env)),
        },
        Object::Buildin(b) => Val::Buildin(b),
        Object::Array(elements) => Val::Array(vals_view(elements@)),
        Object::Hash(pairs) => Val::Hash(entries_view(pairs@)),
        Object::Let => Val::Let,
        Object::Default => Val::Default,
    }
}

/// The view of a statement (an alias that keeps the recursion local).
pub open spec fn stmt_view_of(s: Statement) -> StmtV {
    crate::ast::stmt_view(s)
}

/// Views of a sequence of objects, in order.
pub open spec fn vals_view(os: Seq<Object>) -> Seq<Val>
    decreases os,
{
    if os.len() == 0 {
        Seq::empty()
    } else {
        seq![val_of(os[0])] + vals_view(os.drop_first())
    }
}

/// Views of stored map entries, in order.
pub open spec fn entries_view(ps: Seq<(MapKey, MapPair)>) -> Seq<(KeyV, (Val, Val))>
    decreases ps,
{
    if ps.len() == 0 {
        Seq::empty()
    } else {
        seq![(ps[0].0@, (val_of(ps[0].1.key), val_of(ps[0].1.value)))] + entries_view(
            ps.drop_first(),
        )
    }
}

impl View for Object {
    type V = Val;

    open spec fn view(&self) -> Val {
        val_of(*self)
    }
}

pub proof fn lemma_vals_view(os: Seq<Object>)
    ensures
        vals_view(os).len() == os.len(),
        forall|i: int| 0 <= i < os.len() ==> vals_view(os)[i] == #[trigger] os[i]@,
    decreases os,
{
    if os.len() > 0 {
        lemma_vals_view(os.drop_first());
        assert forall|i: int| 0 <= i < os.len() implies vals_view(os)[i] == #[trigger] os[i]@ by {
            if i > 0 {
                assert(os.drop_first()[i - 1] == os[i]);
                assert(vals_view(os.drop_first())[i - 1] == os.drop_first()[i - 1]@);
            }
        }
    }
}

pub proof fn lemma_entries_view(ps: Seq<(MapKey, MapPair)>)
    ensures
        entries_view(ps).len() == ps.len(),
        forall|i: int|
            0 <= i < ps.len() ==> entries_view(ps)[i] == (
                #[trigger] ps[i].0@,
                (ps[i].1.key@, ps[i].1.value@),
            ),
    decreases ps,
{
    if ps.len() > 0 {
        lemma_entries_view(ps.drop_first());
        assert forall|i: int|
            0 <= i < ps.len() implies entries_view(ps)[i] == (
            #[trigger] ps[i].0@,
            (ps[i].1.key@, ps[i].1.value@),
        ) by {
            if i > 0 {
                assert(ps.drop_first()[i - 1] == ps[i]);
                assert(entries_view(ps.drop_first())[i - 1] == (
                    ps.drop_first()[i - 1].0@,
                    (ps.drop_first()[i - 1].1.key@, ps.drop_first()[i - 1].1.value@),
                ));
            }
        }
    }
}

/// The key projection of a value: integers, booleans and strings keep their
/// content; every other value is unusable as a map key.
pub open spec fn key_of(v: Val) -> KeyV {
    match v {
        Val::Integer(i) => KeyV::Integer(i),
        Val::Boolean(b) => KeyV::Boolean(b),
        Val::String(s) => KeyV::String(s),
        _ => KeyV::Unusable,
    }
}

/// The name of a value's runtime type, as used inside error messages.
pub open spec fn type_text(v: Val) -> Seq<char> {
    match v {
        Val::Integer(_) => "Integer"@,
        Val::Boolean(_) => "Boolean"@,
        Val::String(_) => "String"@,
        Val::Null => "null"@,
        Val::Function { .. } => "Function"@,
        Val::Buildin(_) => "Buildin Function"@,
        Val::Array(_) => "Array"@,
        _ => Seq::empty(),
    }
}

impl Object {
    /// The name of this value's runtime type.
    pub fn get_type(&self) -> (r: String)
        ensures
            r@ == type_text(self@),
    {
        match self {
            Object::Integer(_) => String::from_str("Integer"),
            Object::Boolean(_) => String::from_str("Boolean"),
            Object::String(_) => String::from_str("String"),
            Object::Null => String::from_str("null"),
            Object::Function { .. } => String::from_str("Function"),
            Object::Buildin(_) => String::from_str("Buildin Function"),
            Object::Array(_) => String::from_str("Array"),
            _ => String::new(),
        }
    }
}

impl MapKey {
    /// The key projection of an object.
    pub fn from_object(object: &Object) -> (r: MapKey)
        ensures
            r@ == key_of(object@),
    {
        match object {
            Object::Integer(v) => MapKey::Integer(*v),
            Object::Boolean(b) => MapKey::Boolean(*b),
            Object::String(s) => MapKey::String(s.clone()),
            _ => MapKey::Unusable,
        }
    }

    /// Key equality, decided on the views.
    pub fn eq_key(&self, other: &MapKey) -> (r: bool)
        ensures
            r == (self@ == other@),
    {
        match (self, other) {
            (MapKey::Integer(a), MapKey::Integer(b)) => *a == *b,
            (MapKey::Boolean(a), MapKey::Boolean(b)) => *a == *b,
            (MapKey::String(a), MapKey::String(b)) => *a == *b,
            (MapKey::Unusable, MapKey::Unusable) => true,
            _ => false,
        }
    }

    /// A deep copy with the same view.
    pub fn duplicate(&self) -> (r: MapKey)
        ensures
            r@ == self@,
    {
        match self {
            MapKey::Integer(v) => MapKey::Integer(*v),
            MapKey::Boolean(b) => MapKey::Boolean(*b),
            MapKey::String(s) => MapKey::String(s.clone()),
            MapKey::Unusable => MapKey::Unusable,
        }
    }
}

impl MapPair {
    pub fn new(key: Object, value: Object) -> (r: Self)
        ensures
            r.key@ == key@,
            r.value@ == value@,
    {
        Self { key, value }
    }
}

/// A size measure on value views, used as a termination measure by the
/// display and copy routines.
pub open spec fn val_size(v: Val) -> nat
    decreases v,
{
    match v {
        Val::Integer(_) => 1,
        Val::Boolean(_) => 1,
        Val::String(_) => 1,
        Val::Null => 1,
        Val::Return(inner) => 1 + val_size(*inner),
        Val::Function { parameters, body, env } => 1 + crate::ast::exprs_size(parameters)
            + crate::ast::stmt_size(body) + env_size(*env),
        Val::Buildin(_) => 1,
        Val::Array(es) => 1 + vals_size(es),
        Val::Hash(ps) => 1 + entries_size(ps),
        Val::Let => 1,
        Val::Default => 1,
    }
}

pub open spec fn vals_size(vs: Seq<Val>) -> nat
    decreases vs,
{
    if vs.len() == 0 {
        1
    } else {
        1 + val_size(vs[0]) + vals_size(vs.drop_first())
    }
}

pub open spec fn entries_size(ps: Seq<(KeyV, (Val, Val))>) -> nat
    decreases ps,
{
    if ps.len() == 0 {
        1
    } else {
        1 + val_size(ps[0].1.0) + val_size(ps[0].1.1) + entries_size(ps.drop_first())
    }
}

/// A size measure on environment models.
pub open spec fn env_size(e: EnvM) -> nat
    decreases e,
{
    1 + store_size(e.store) + (match e.outer {
        Some(o) => env_size(*o),
        None => 0,
    })
}

pub open spec fn store_size(s: Seq<(Seq<char>, Val)>) -> nat
    decreases s,
{
    if s.len() == 0 {
        1
    } else {
        1 + val_size(s[0].1) + store_size(s.drop_first())
    }
}

pub proof fn lemma_vals_size_elem(vs: Seq<Val>, i: int)
    requires
        0 <= i < vs.len(),
    ensures
        val_size(vs[i]) < vals_size(vs),
    decreases vs,
{
    if i > 0 {
        lemma_vals_size_elem(vs.drop_first(), i - 1);
    }
}

pub proof fn lemma_entries_size_elem(ps: Seq<(KeyV, (Val, Val))>, i: int)
    requires
        0 <= i < ps.len(),
    ensures
        val_size(ps[i].1.0) < entries_size(ps),
        val_size(ps[i].1.1) < entries_size(ps),
    decreases ps,
{
    if i > 0 {
        lemma_entries_size_elem(ps.drop_first(), i - 1);
    }
}

pub proof fn lemma_store_size_elem(s: Seq<(Seq<char>, Val)>, i: int)
    requires
        0 <= i < s.len(),
    ensures
        val_size(s[i].1) < store_size(s),
    decreases s,
{
    if i > 0 {
        lemma_store_size_elem(s.drop_first(), i - 1);
    }
}

/// The textual form of a value: how results are displayed.
pub open spec fn val_text(v: Val) -> Seq<char>
    decreases val_size(v), 1int,
{
    match v {
        Val::Integer(i) => crate::text::dec_int(i),
        Val::Boolean(b) => if b {
            "true"@
        } else {
            "false"@
        },
        Val::String(s) => s,
        Val::Null => "null"@,
        Val::Return(inner) => val_text(*inner),
        Val::Array(es) => "["@ + vals_text(es) + "]"@,
        Val::Hash(ps) => "{"@ + entries_text(ps) + "}"@,
        _ => Seq::empty(),
    }
}

/// Values joined by a comma and a space.
pub open spec fn vals_text(vs: Seq<Val>) -> Seq<char>
    decreases vals_size(vs), 0int,
    via vals_text_decreases
{
    if vs.len() == 0 {
        Seq::empty()
    } else if vs.len() == 1 {
        val_text(vs[0])
    } else {
        vals_text(vs.drop_last()) + ", "@ + val_text(vs.last())
    }
}

/// Map entries written `key: value`, joined by a comma and a space; the
/// retained original key object is displayed, not its projection.
pub open spec fn entries_text(ps: Seq<(KeyV, (Val, Val))>) -> Seq<char>
    decreases entries_size(ps), 0int,
    via entries_text_decreases
{
    if ps.len() == 0 {
        Seq::empty()
    } else if ps.len() == 1 {
        val_text(ps[0].1.0) + ": "@ + val_text(ps[0].1.1)
    } else {
        entries_text(ps.drop_last()) + ", "@ + val_text(ps.last().1.0) + ": "@ + val_text(
            ps.last().1.1,
        )
    }
}

proof fn lemma_vals_size_drop_last(vs: Seq<Val>)
    requires
        vs.len() > 0,
    ensures
        vals_size(vs.drop_last()) < vals_size(vs),
    decreases vs,
{
    if vs.len() > 1 {
        lemma_vals_size_drop_last(vs.drop_first());
        assert(vs.drop_last().drop_first() =~= vs.drop_first().drop_last());
        assert(vs.drop_last()[0] == vs[0]);
        assert(vals_size(vs.drop_last()) == 1 + val_size(vs.drop_last()[0]) + vals_size(
            vs.drop_last().drop_first(),
        ));
    } else {
        assert(vs.drop_last() =~= Seq::<Val>::empty());
        assert(vs.drop_first() =~= Seq::<Val>::empty());
        assert(vals_size(Seq::<Val>::empty()) == 1);
        assert(vals_size(vs) == 1 + val_size(vs[0]) + vals_size(vs.drop_first()));
    }
}

proof fn lemma_entries_size_drop_last(ps: Seq<(KeyV, (Val, Val))>)
    requires
        ps.len() > 0,
    ensures
        entries_size(ps.drop_last()) < entries_size(ps),
    decreases ps,
{
    if ps.len() > 1 {
        lemma_entries_size_drop_last(ps.drop_first());
        assert(ps.drop_last().drop_first() =~= ps.drop_first().drop_last());
        assert(ps.drop_last()[0] == ps[0]);
        assert(entries_size(ps.drop_last()) == 1 + val_size(ps.drop_last()[0].1.0) + val_size(
            ps.drop_last()[0].1.1,
        ) + entries_size(ps.drop_last().drop_first()));
    } else {
        assert(ps.drop_last() =~= Seq::<(KeyV, (Val, Val))>::empty());
        assert(ps.drop_first() =~= Seq::<(KeyV, (Val, Val))>::empty());
        assert(entries_size(Seq::<(KeyV, (Val, Val))>::empty()) == 1);
        assert(entries_size(ps) == 1 + val_size(ps[0].1.0) + val_size(ps[0].1.1) + entries_size(
            ps.drop_first(),
        ));
    }
}

#[via_fn]
proof fn vals_text_decreases(vs: Seq<Val>) {
    if vs.len() == 1 {
        lemma_vals_size_elem(vs, 0);
    } else if vs.len() > 1 {
        lemma_vals_size_elem(vs, vs.len() - 1);
        lemma_vals_size_drop_last(vs);
    }
}

#[via_fn]
proof fn entries_text_decreases(ps: Seq<(KeyV, (Val, Val))>) {
    if ps.len() == 1 {
        lemma_entries_size_elem(ps, 0);
    } else if ps.len() > 1 {
        lemma_entries_size_elem(ps, ps.len() - 1);
        lemma_entries_size_drop_last(ps);
    }
}

impl MapPair {
    /// The textual form `key: value` of this entry.
    pub fn to_string(&self) -> (r: String)
        ensures
            r@ == val_text(self.key@) + ": "@ + val_text(self.value@),
    {
        let mut s = self.key.to_string();
        s.append(": ");
        let value_text = self.value.to_string();
        s.append(value_text.as_str());
        s
    }
}

impl Object {
    /// The textual form of this value.
    pub fn to_string(&self) -> (r: String)
        ensures
            r@ == val_text(self@),
        decreases val_size(self@), 1int,
    {
        match self {
            Object::Integer(v) => dec_isize(*v),
            Object::Boolean(b) => {
                if *b {
                    String::from_str("true")
                } else {
                    String::from_str("false")
                }
            },
            Object::String(s) => s.clone(),
            Object::Null => String::from_str("null"),
            Object::Return(inner) => inner.to_string(),
            Object::Array(elements) => {
                let ghost v = vals_view(elements@);
                proof {
                    lemma_vals_view(elements@);
                }
                let mut s = String::from_str("[");
                proof {
                    assert(v.take(0) =~= Seq::<Val>::empty());
                }
                let mut i: usize = 0;
                while i < elements.len()
                    invariant
                        0 <= i <= elements.len(),
                        v == vals_view(elements@),
                        v.len() == elements@.len(),
                        forall|j: int| 0 <= j < elements@.len() ==> v[j] == #[trigger] elements@[j]@,
                        val_size(self@) == val_size(Val::Array(v)),
                        s@ == "["@ + vals_text(v.take(i as int)),
                    decreases elements.len() - i,
                {
                    proof {
                        lemma_vals_size_elem(v, i as int);
                    }
                    if i > 0 {
                        s.append(", ");
                    }
                    let piece = elements[i].to_string();
                    s.append(piece.as_str());
                    proof {
                        assert(v.take(i + 1).drop_last() =~= v.take(i as int));
                        assert(v.take(i + 1).last() == v[i as int]);
                        assert(v.take(1) =~= seq![v[0]]);
                    }
                    i = i + 1;
                }
                s.append("]");
                proof {
                    assert(v.take(elements@.len() as int) =~= v);
                }
                s
            },
            Object::Hash(pairs) => {
                let ghost v = entries_view(pairs@);
                proof {
                    lemma_entries_view(pairs@);
                }
                let mut s = String::from_str("{");
                proof {
                    assert(v.take(0) =~= Seq::<(KeyV, (Val, Val))>::empty());
                }
                let mut i: usize = 0;
                while i < pairs.len()
                    invariant
                        0 <= i <= pairs.len(),
                        v == entries_view(pairs@),
                        v.len() == pairs@.len(),
                        forall|j: int|
                            0 <= j < pairs@.len() ==> v[j] == (
                                #[trigger] pairs@[j].0@,
                                (pairs@[j].1.key@, pairs@[j].1.value@),
                            ),
                        val_size(self@) == val_size(Val::Hash(v)),
                        s@ == "{"@ + entries_text(v.take(i as int)),
                    decreases pairs.len() - i,
                {
                    proof {
                        lemma_entries_size_elem(v, i as int);
                        assert(v[i as int] == (
                            pairs@[i as int].0@,
                            (pairs@[i as int].1.key@, pairs@[i as int].1.value@),
                        ));
                    }
                    if i > 0 {
                        s.append(", ");
                    }
                    let key_text = pairs[i].1.key.to_string();
                    s.append(key_text.as_str());
                    s.append(": ");
                    let value_text = pairs[i].1.value.to_string();
                    s.append(value_text.as_str());
                    proof {
                        assert(v.take(i + 1).drop_last() =~= v.take(i as int));
                        assert(v.take(i + 1).last() == v[i as int]);
                        assert(v.take(1) =~= seq![v[0]]);
                    }
                    i = i + 1;
                }
                s.append("}");
                proof {
                    assert(v.take(pairs@.len() as int) =~= v);
                }
                s
            },
            _ => String::new(),
        }
    }
}

} // verus!

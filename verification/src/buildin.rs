//! The built-in functions: a fixed table of host functions resolvable as
//! identifiers, consulted only after scope lookup fails.
use crate::evaluator::{obj_clone, objs_clone, store_view};
use crate::object::{
    lemma_vals_view, type_text, vals_size, vals_view, Buildin, Object, Val,
};
use crate::text::{dec_int, dec_usize};
use vstd::prelude::*;

verus! {

broadcast use vstd::seq::group_seq_axioms, vstd::std_specs::vec::group_vec_axioms;

/// The fixed built-in table, in insertion order.
pub open spec fn buildin_table() -> Seq<(Seq<char>, Val)> {
    seq![
        ("len"@, Val::Buildin(Buildin::Len)),
        ("first"@, Val::Buildin(Buildin::First)),
        ("last"@, Val::Buildin(Buildin::Last)),
        ("rest"@, Val::Buildin(Buildin::Rest)),
        ("push"@, Val::Buildin(Buildin::Push)),
    ]
}

/// Resolves a name against the built-in table.
pub open spec fn buildin_lookup(name: Seq<char>) -> Option<Val> {
    if name == "len"@ {
        Some(Val::Buildin(Buildin::Len))
    } else if name == "first"@ {
        Some(Val::Buildin(Buildin::First))
    } else if name == "last"@ {
        Some(Val::Buildin(Buildin::Last))
    } else if name == "rest"@ {
        Some(Val::Buildin(Buildin::Rest))
    } else if name == "push"@ {
        Some(Val::Buildin(Buildin::Push))
    } else {
        None
    }
}

/// The fixed table of built-in functions, as name/value bindings.
pub fn new() -> (r: Vec<(String, Object)>)
    ensures
        store_view(r@) == buildin_table(),
{
    let mut table: Vec<(String, Object)> = Vec::new();
    table.push((String::from_str("len"), Object::Buildin(Buildin::Len)));
    table.push((String::from_str("first"), Object::Buildin(Buildin::First)));
    table.push((String::from_str("last"), Object::Buildin(Buildin::Last)));
    table.push((String::from_str("rest"), Object::Buildin(Buildin::Rest)));
    table.push((String::from_str("push"), Object::Buildin(Buildin::Push)));
    proof {
        crate::evaluator::lemma_store_view(table@);
        assert(store_view(table@)[0] == (table@[0].0@, table@[0].1@));
        assert(store_view(table@)[1] == (table@[1].0@, table@[1].1@));
        assert(store_view(table@)[2] == (table@[2].0@, table@[2].1@));
        assert(store_view(table@)[3] == (table@[3].0@, table@[3].1@));
        assert(store_view(table@)[4] == (table@[4].0@, table@[4].1@));
        assert(store_view(table@) =~= buildin_table());
    }
    table
}

/// Resolves a name against the built-in table.
pub(crate) fn lookup(name: &String) -> (r: Option<Object>)
    ensures
        match buildin_lookup(name@) {
            Some(v) => r matches Some(o) && o@ == v,
            None => r is None,
        },
{
    let len_name = String::from_str("len");
    let first_name = String::from_str("first");
    let last_name = String::from_str("last");
    let rest_name = String::from_str("rest");
    let push_name = String::from_str("push");
    if *name == len_name {
        Some(Object::Buildin(Buildin::Len))
    } else if *name == first_name {
        Some(Object::Buildin(Buildin::First))
    } else if *name == last_name {
        Some(Object::Buildin(Buildin::Last))
    } else if *name == rest_name {
        Some(Object::Buildin(Buildin::Rest))
    } else if *name == push_name {
        Some(Object::Buildin(Buildin::Push))
    } else {
        None
    }
}

/// The arity-mismatch message every built-in starts with.
pub open spec fn wrong_args_text(got: int, want: int) -> Seq<char> {
    "wrong number of arguments. got="@ + dec_int(got) + ", want="@ + dec_int(want)
}

/// How many bytes one character takes in UTF-8, by codepoint range.
pub open spec fn utf8_width(c: char) -> int {
    if (c as u32) < 0x80 {
        1
    } else if (c as u32) < 0x800 {
        2
    } else if (c as u32) < 0x10000 {
        3
    } else {
        4
    }
}

/// The length of a character sequence's UTF-8 encoding, in bytes: what
/// `len` reports for a string.
pub open spec fn utf8_len(s: Seq<char>) -> int
    decreases s.len(),
{
    if s.len() == 0 {
        0
    } else {
        utf8_len(s.drop_last()) + utf8_width(s.last())
    }
}

/// Relies on `str::len`: the length of the string in bytes, which for the
/// UTF-8 text a `str` holds is one byte per character below U+0080, two
/// below U+0800, three below U+10000, and four beyond.
#[verifier::external_body]
fn utf8_length(s: &str) -> (n: usize)
    ensures
        n as int == utf8_len(s@),
{
    s.len()
}

/// What applying a built-in to already-evaluated arguments returns.
pub open spec fn apply_buildin(b: Buildin, args: Seq<Val>) -> Result<Val, Seq<char>> {
    match b {
        Buildin::Len => if args.len() != 1 {
            Err(wrong_args_text(args.len() as int, 1))
        } else {
            match args[0] {
                Val::String(s) => if utf8_len(s) <= isize::MAX {
                    Ok(Val::Integer(utf8_len(s)))
                } else {
                    Err("integer overflow"@)
                },
                _ => Err("argument to `len` not supported, got "@ + type_text(args[0])),
            }
        },
        Buildin::First => if args.len() != 1 {
            Err(wrong_args_text(args.len() as int, 1))
        } else {
            match args[0] {
                Val::Array(es) => Ok(
                    if es.len() == 0 {
                        Val::Null
                    } else {
                        es[0]
                    },
                ),
                _ => Err("argument to `first` must be Array, got "@ + type_text(args[0])),
            }
        },
        Buildin::Last => if args.len() != 1 {
            Err(wrong_args_text(args.len() as int, 1))
        } else {
            match args[0] {
                Val::Array(es) => Ok(
                    if es.len() == 0 {
                        Val::Null
                    } else {
                        es.last()
                    },
                ),
                _ => Err("argument to `last` must be Array, got "@ + type_text(args[0])),
            }
        },
        Buildin::Rest => if args.len() != 1 {
            Err(wrong_args_text(args.len() as int, 1))
        } else {
            match args[0] {
                Val::Array(es) => Ok(
                    if es.len() == 0 {
                        Val::Null
                    } else {
                        Val::Array(es.drop_first())
                    },
                ),
                _ => Err("argument to `rest` must be Array, got "@ + type_text(args[0])),
            }
        },
        Buildin::Push => if args.len() != 2 {
            Err(wrong_args_text(args.len() as int, 2))
        } else {
            match args[0] {
                Val::Array(es) => Ok(Val::Array(es.push(args[1]))),
                _ => Err("argument to `push` must be Array, got "@ + type_text(args[0])),
            }
        },
    }
}

/// Whether an executable result matches a mathematical one.
pub open spec fn res_matches(r: Result<Object, String>, s: Result<Val, Seq<char>>) -> bool {
    match (r, s) {
        (Ok(o), Ok(v)) => o@ == v,
        (Err(m), Err(t)) => m@ == t,
        _ => false,
    }
}

fn wrong_args(got: usize, want: usize) -> (r: String)
    ensures
        r@ == wrong_args_text(got as int, want as int),
{
    let mut message = String::from_str("wrong number of arguments. got=");
    let got_text = dec_usize(got);
    message.append(got_text.as_str());
    message.append(", want=");
    let want_text = dec_usize(want);
    message.append(want_text.as_str());
    message
}

fn type_error(prefix: &str, argument: &Object) -> (r: String)
    ensures
        r@ == prefix@ + type_text(argument@),
{
    let mut message = String::from_str(prefix);
    let kind = argument.get_type();
    message.append(kind.as_str());
    message
}

/// `len`: the byte length of a string, as an integer.
pub fn len(arguments: Vec<Object>) -> (r: Result<Object, String>)
    ensures
        res_matches(r, apply_buildin(Buildin::Len, vals_view(arguments@))),
{
    proof {
        lemma_vals_view(arguments@);
    }
    if arguments.len() != 1 {
        return Err(wrong_args(arguments.len(), 1));
    }
    proof {
        assert(vals_view(arguments@)[0] == arguments@[0]@);
    }
    match &arguments[0] {
        Object::String(value) => {
            let n = utf8_length(value.as_str());
            if n <= isize::MAX as usize {
                Ok(Object::Integer(n as isize))
            } else {
                Err(String::from_str("integer overflow"))
            }
        },
        _ => Err(type_error("argument to `len` not supported, got ", &arguments[0])),
    }
}

/// `first`: the first element of an array, or null for an empty one.
pub fn first(arguments: Vec<Object>) -> (r: Result<Object, String>)
    ensures
        res_matches(r, apply_buildin(Buildin::First, vals_view(arguments@))),
{
    proof {
        lemma_vals_view(arguments@);
    }
    if arguments.len() != 1 {
        return Err(wrong_args(arguments.len(), 1));
    }
    proof {
        assert(vals_view(arguments@)[0] == arguments@[0]@);
    }
    match &arguments[0] {
        Object::Array(elements) => {
            proof {
                lemma_vals_view(elements@);
            }
            if elements.len() == 0 {
                Ok(Object::Null)
            } else {
                Ok(obj_clone(&elements[0]))
            }
        },
        _ => Err(type_error("argument to `first` must be Array, got ", &arguments[0])),
    }
}

/// `last`: the last element of an array, or null for an empty one.
pub fn last(arguments: Vec<Object>) -> (r: Result<Object, String>)
    ensures
        res_matches(r, apply_buildin(Buildin::Last, vals_view(arguments@))),
{
    proof {
        lemma_vals_view(arguments@);
    }
    if arguments.len() != 1 {
        return Err(wrong_args(arguments.len(), 1));
    }
    proof {
        assert(vals_view(arguments@)[0] == arguments@[0]@);
    }
    match &arguments[0] {
        Object::Array(elements) => {
            proof {
                lemma_vals_view(elements@);
            }
            if elements.len() == 0 {
                Ok(Object::Null)
            } else {
                Ok(obj_clone(&elements[elements.len() - 1]))
            }
        },
        _ => Err(type_error("argument to `last` must be Array, got ", &arguments[0])),
    }
}

/// `rest`: a new array of all but the first element, or null for an empty
/// one; the original array is untouched.
pub fn rest(arguments: Vec<Object>) -> (r: Result<Object, String>)
    ensures
        res_matches(r, apply_buildin(Buildin::Rest, vals_view(arguments@))),
{
    proof {
        lemma_vals_view(arguments@);
    }
    if arguments.len() != 1 {
        return Err(wrong_args(arguments.len(), 1));
    }
    proof {
        assert(vals_view(arguments@)[0] == arguments@[0]@);
    }
    match &arguments[0] {
        Object::Array(elements) => {
            let ghost v = vals_view(elements@);
            proof {
                lemma_vals_view(elements@);
            }
            if elements.len() == 0 {
                Ok(Object::Null)
            } else {
                let mut tail: Vec<Object> = Vec::new();
                let mut i: usize = 1;
                while i < elements.len()
                    invariant
                        1 <= i <= elements@.len(),
                        v == vals_view(elements@),
                        v.len() == elements@.len(),
                        forall|j: int| 0 <= j < elements@.len() ==> v[j] == #[trigger] elements@[j]@,
                        tail@.len() == i - 1,
                        forall|j: int| 0 <= j < i - 1 ==> #[trigger] tail@[j]@ == elements@[j + 1]@,
                    decreases elements@.len() - i,
                {
                    let piece = obj_clone(&elements[i]);
                    tail.push(piece);
                    i = i + 1;
                }
                proof {
                    lemma_vals_view(tail@);
                    assert forall|j: int|
                        0 <= j < tail@.len() implies vals_view(tail@)[j] == v.drop_first()[j] by {
                        assert(tail@[j]@ == elements@[j + 1]@);
                    }
                    assert(vals_view(tail@) =~= v.drop_first());
                }
                Ok(Object::Array(tail))
            }
        },
        _ => Err(type_error("argument to `rest` must be Array, got ", &arguments[0])),
    }
}

/// `push`: a new array with the value appended; the original array is
/// untouched.
pub fn push(arguments: Vec<Object>) -> (r: Result<Object, String>)
    ensures
        res_matches(r, apply_buildin(Buildin::Push, vals_view(arguments@))),
{
    proof {
        lemma_vals_view(arguments@);
    }
    if arguments.len() != 2 {
        return Err(wrong_args(arguments.len(), 2));
    }
    proof {
        assert(vals_view(arguments@)[0] == arguments@[0]@);
        assert(vals_view(arguments@)[1] == arguments@[1]@);
    }
    match &arguments[0] {
        Object::Array(elements) => {
            let ghost v = vals_view(elements@);
            proof {
                lemma_vals_view(elements@);
            }
            let mut out = objs_clone(elements, Ghost(vals_size(vals_view(elements@)) + 1));
            let appended = obj_clone(&arguments[1]);
            proof {
                lemma_vals_view(out@);
            }
            let ghost out0 = out@;
            out.push(appended);
            proof {
                lemma_vals_view(out@);
                assert forall|j: int|
                    0 <= j < out@.len() implies vals_view(out@)[j] == v.push(
                    vals_view(arguments@)[1],
                )[j] by {
                    if j < out0.len() {
                        assert(out@[j] == out0[j]);
                        assert(vals_view(out0)[j] == out0[j]@);
                        assert(out0[j]@ == v[j]);
                    } else {
                        assert(out@[j]@ == arguments@[1]@);
                    }
                }
                assert(vals_view(out@) =~= v.push(vals_view(arguments@)[1]));
            }
            Ok(Object::Array(out))
        },
        _ => Err(type_error("argument to `push` must be Array, got ", &arguments[0])),
    }
}

/// Applies a built-in to its evaluated arguments.
pub(crate) fn apply(b: Buildin, arguments: Vec<Object>) -> (r: Result<Object, String>)
    ensures
        res_matches(r, apply_buildin(b, vals_view(arguments@))),
{
    match b {
        Buildin::Len => len(arguments),
        Buildin::First => first(arguments),
        Buildin::Last => last(arguments),
        Buildin::Rest => rest(arguments),
        Buildin::Push => push(arguments),
    }
}

} // verus!

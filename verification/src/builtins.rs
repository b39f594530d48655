//! The builtins: a fixed table from names to native callables, the same
//! for every scope.

use crate::decimal::{nat_text, nat_to_text};
use crate::object::{tag_text, Object, ObjectView};
use vstd::prelude::*;
use vstd::string::StringExecFns;

verus! {

/// A native callable of the table.
#[derive(Debug, Clone, Copy, PartialEq, Eq, Structural)]
pub enum NativeFn {
    /// The length of a string.
    Len,
}

/// The native callable that the table holds under `name`.
pub open spec fn builtin_named(name: Seq<char>) -> Option<NativeFn> {
    if name == "len"@ {
        Some(NativeFn::Len)
    } else {
        None
    }
}

/// Looks `name` up in the table.
pub fn lookup(name: &String) -> (res: Option<NativeFn>)
    ensures
        res == builtin_named(name@),
{
    let len = String::from_str("len");
    if *name == len {
        Some(NativeFn::Len)
    } else {
        None
    }
}

/// The values of a list of arguments, in order.
pub open spec fn values_of(args: Seq<Object>) -> Seq<ObjectView> {
    Seq::new(args.len(), |i: int| args[i]@)
}

/// The message of the error that a call with `got` arguments returns where
/// one argument is wanted.
pub open spec fn arity_message(got: nat) -> Seq<char> {
    "wrong number of arguments. got="@ + nat_text(got) + ", want=1"@
}

/// What `len` returns for one argument: the number of characters of a
/// string, and an error for a value of any other type.
pub open spec fn len_of(arg: ObjectView) -> ObjectView {
    match arg {
        ObjectView::Text(s) => if s.len() <= i64::MAX {
            ObjectView::Integer(s.len() as int)
        } else {
            ObjectView::Error("argument to `len` is too long"@)
        },
        other => ObjectView::Error("argument to `len` not supported, got "@ + tag_text(other)),
    }
}

/// What a call of `func` on `args` returns. A call with the wrong number of
/// arguments, or with an argument of the wrong type, returns an error value.
pub open spec fn apply(func: NativeFn, args: Seq<ObjectView>) -> ObjectView {
    match func {
        NativeFn::Len => if args.len() == 1 {
            len_of(args[0])
        } else {
            ObjectView::Error(arity_message(args.len()))
        },
    }
}

fn len(arg: &Object) -> (res: Object)
    ensures
        res@ == len_of(arg@),
{
    match arg {
        Object::StringObj(s) => {
            let count: u64 = s.as_str().unicode_len() as u64;
            if count <= 0x7fff_ffff_ffff_ffff {
                Object::IntegerObj(count as i64)
            } else {
                Object::ErrorObj(String::from_str("argument to `len` is too long"))
            }
        },
        other => Object::ErrorObj(
            String::from_str("argument to `len` not supported, got ").concat(other.type_tag()),
        ),
    }
}

impl NativeFn {
    /// Calls the native callable on arguments that are already evaluated. It
    /// always returns a value: where the arguments do not fit, an error.
    pub fn invoke(&self, args: Vec<Object>) -> (res: Object)
        ensures
            res@ == apply(*self, values_of(args@)),
    {
        match self {
            NativeFn::Len => {
                if args.len() == 1 {
                    len(&args[0])
                } else {
                    Object::ErrorObj(
                        String::from_str("wrong number of arguments. got=").concat(
                            nat_to_text(args.len() as u64).as_str(),
                        ).concat(", want=1"),
                    )
                }
            },
        }
    }
}

} // verus!

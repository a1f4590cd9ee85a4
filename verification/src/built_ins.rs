//! The built-in functions the language offers, with their signatures.
//!
//! Two built-ins exist: `exec`, which runs an external process named by
//! its first argument with the remaining arguments as the command line,
//! and `strcat`, which concatenates the renderings of its arguments into
//! one owned string.

use vstd::prelude::*;

use crate::types::{
    DataType, Signature, SignatureV, StackType, TypeSet, TypeSetV, TypeV,
};

verus! {

/// The number of built-ins.
pub const BUILT_IN_COUNT: usize = 2;

/// The signature of `exec`: one string (the executable), any number of
/// further strings (the arguments), unit result.
pub open spec fn exec_signature() -> SignatureV {
    SignatureV {
        args: seq![TypeSetV::SomeTypes(seq![TypeV::str()])],
        result: TypeSetV::SomeTypes(seq![TypeV::unit()]),
        var_arg: Some(TypeSetV::SomeTypes(seq![TypeV::str()])),
    }
}

/// The signature of `strcat`: any number of arguments of any type, one
/// owned string as result.
pub open spec fn strcat_signature() -> SignatureV {
    SignatureV {
        args: Seq::empty(),
        result: TypeSetV::SomeTypes(seq![TypeV::str()]),
        var_arg: Some(TypeSetV::AllTypes),
    }
}

/// The signature of the built-in with the given index, if there is one.
pub open spec fn spec_builtin_signature(i: usize) -> Option<SignatureV> {
    if i == 0 {
        Some(exec_signature())
    } else {
        if i == 1 {
            Some(strcat_signature())
        } else {
            None
        }
    }
}

/// The names of the built-ins, in the order of their indices.
pub fn built_in_names() -> (r: Vec<String>)
    ensures
        r@.len() == BUILT_IN_COUNT,
        r@[0]@ == "exec"@,
        r@[1]@ == "strcat"@,
{
    let mut names: Vec<String> = Vec::new();
    names.push("exec".to_owned());
    names.push("strcat".to_owned());
    names
}

/// The signature of the built-in with the given index.
pub fn builtin_signature(i: usize) -> (r: Option<Signature>)
    ensures
        match r {
            Some(sig) => spec_builtin_signature(i) == Some(sig@),
            None => spec_builtin_signature(i) is None,
        },
{
    if i == 0 {
        let sig = Signature::new().arg(TypeSet::of_type(DataType::str())).variadic(
            TypeSet::of_type(DataType::str()),
        );
        proof {
            assert(sig@ =~~= exec_signature());
        }
        Some(sig)
    } else if i == 1 {
        let sig = Signature::new().result(TypeSet::of_type(DataType::str())).variadic(
            TypeSet::AllTypes,
        );
        proof {
            assert(sig@ =~~= strcat_signature());
        }
        Some(sig)
    } else {
        None
    }
}

/// The signature of the named built-in, as callers outside the core ask
/// for it.
pub fn signatures(name: &String) -> (r: Option<Signature>)
    ensures
        match r {
            Some(sig) => (name@ == "exec"@ && sig@ == exec_signature()) || (name@ == "strcat"@
                && sig@ == strcat_signature()),
            None => name@ != "exec"@ && name@ != "strcat"@,
        },
{
    let exec_name: String = "exec".to_owned();
    let strcat_name: String = "strcat".to_owned();
    if *name == exec_name {
        builtin_signature(0)
    } else if *name == strcat_name {
        builtin_signature(1)
    } else {
        None
    }
}

} // verus!

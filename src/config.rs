//! Command-line flags of the form `--name` and `--name=value`.

use vstd::prelude::*;
use crate::bridge::{trim, trimmed};
use crate::text::{chars_of, matches_at, string_of};

verus! {

pub open spec fn starts_with(a: Seq<char>, p: Seq<char>) -> bool {
    p.len() <= a.len() && a.subrange(0, p.len() as int) == p
}

/// Whether `flag` is one of the arguments.
pub fn flag_exists(args: &[String], flag: &str) -> (r: bool)
    ensures
        r == exists|i: int| 0 <= i < args@.len() && args@[i]@ == flag@,
{
    let f = flag.to_string();
    let mut i: usize = 0;
    while i < args.len()
        invariant
            i <= args@.len(),
            f@ == flag@,
            forall|j: int| 0 <= j < i ==> args@[j]@ != flag@,
        decreases args.len() - i,
    {
        if args[i] == f {
            return true;
        }
        i += 1;
    }
    false
}

/// What the arguments say of a flag that takes a value.
#[derive(Debug)]
pub enum FlagValue {
    /// The value of the first `flag=value` argument whose value is not blank.
    Value(String),
    /// No argument starts with the flag.
    Missing,
    /// An argument starts with the flag but gives no value in the
    /// `flag=value` form.
    Malformed,
}

/// The value after `needle` in `a`, trimmed.
pub open spec fn value_after(a: Seq<char>, needle: Seq<char>) -> Seq<char> {
    trimmed(a.subrange(needle.len() as int, a.len() as int))
}

/// `a` gives a value for the flag whose `flag=` prefix is `needle`.
pub open spec fn gives_value(a: Seq<char>, needle: Seq<char>) -> bool {
    starts_with(a, needle) && value_after(a, needle).len() > 0
}

fn starts(a: &Vec<char>, p: &Vec<char>) -> (r: bool)
    ensures
        r == starts_with(a@, p@),
{
    matches_at(a, 0, p)
}

/// Reads the value of `flag` from arguments of the form `flag=value`.
pub fn flag_value(args: &[String], flag: &str) -> (r: FlagValue)
    ensures
        match r {
            FlagValue::Value(v) => exists|i: int| 0 <= i < args@.len()
                && gives_value(#[trigger] args@[i]@, flag@ + "="@)
                && v@ == value_after(args@[i]@, flag@ + "="@)
                && forall|j: int| 0 <= j < i ==> !gives_value(#[trigger] args@[j]@, flag@ + "="@),
            FlagValue::Missing => forall|i: int| 0 <= i < args@.len() ==> !starts_with(#[trigger] args@[i]@, flag@),
            FlagValue::Malformed => (forall|i: int| 0 <= i < args@.len() ==> !gives_value(#[trigger] args@[i]@, flag@ + "="@))
                && exists|i: int| 0 <= i < args@.len() && starts_with(#[trigger] args@[i]@, flag@),
        },
{
    let mut nv = chars_of(flag);
    nv.push('=');
    proof {
        reveal_strlit("=");
    }
    assert(nv@ =~= flag@ + "="@);
    let ghost needle = flag@ + "="@;
    let mut i: usize = 0;
    while i < args.len()
        invariant
            i <= args@.len(),
            nv@ == needle,
            needle == flag@ + "="@,
            forall|j: int| 0 <= j < i ==> !gives_value(args@[j]@, needle),
        decreases args.len() - i,
    {
        let a = chars_of(args[i].as_str());
        if starts(&a, &nv) {
            let mut rest: Vec<char> = Vec::new();
            let mut k: usize = nv.len();
            while k < a.len()
                invariant
                    nv@.len() <= k <= a@.len(),
                    rest@ == a@.subrange(nv@.len() as int, k as int),
                decreases a.len() - k,
            {
                rest.push(a[k]);
                k += 1;
                assert(rest@ =~= a@.subrange(nv@.len() as int, k as int));
            }
            let val = trim(string_of(rest.as_slice()).as_str());
            assert(a@ == args@[i as int]@);
            assert(val@ == value_after(a@, needle));
            if val.len() > 0 {
                let out = string_of(val.as_slice());
                assert(gives_value(args@[i as int]@, needle) && out@ == value_after(args@[i as int]@, needle));
                return FlagValue::Value(out);
            }
        }
        i += 1;
    }
    let fv = chars_of(flag);
    let mut i: usize = 0;
    while i < args.len()
        invariant
            i <= args@.len(),
            fv@ == flag@,
            needle == flag@ + "="@,
            forall|j: int| 0 <= j < args@.len() ==> !gives_value(args@[j]@, needle),
            forall|j: int| 0 <= j < i ==> !starts_with(args@[j]@, flag@),
        decreases args.len() - i,
    {
        let a = chars_of(args[i].as_str());
        if starts(&a, &fv) {
            assert(starts_with(args@[i as int]@, flag@));
            return FlagValue::Malformed;
        }
        i += 1;
    }
    FlagValue::Missing
}

} // verus!

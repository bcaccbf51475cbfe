//! Argument lists for the programs that the backends call.
use vstd::prelude::*;

use crate::decimal;
use crate::text_spec as spec;

verus! {

/// Appends an argument.
pub(crate) fn push(v: &mut Vec<String>, s: &str)
    ensures
        spec::strings(final(v)@) == spec::strings(old(v)@).push(s@),
{
    let ghost before = v@;
    v.push(String::from_str(s));
    assert(spec::strings(v@) =~= spec::strings(before).push(s@));
}

pub(crate) fn args3(a: &str, b: &str, c: &str) -> (r: Vec<String>)
    ensures
        spec::strings(r@) == seq![a@, b@, c@],
{
    let mut r: Vec<String> = Vec::new();
    assert(spec::strings(r@) =~= seq![]);
    push(&mut r, a);
    push(&mut r, b);
    push(&mut r, c);
    r
}

pub(crate) fn args4(a: &str, b: &str, c: &str, d: &str) -> (r: Vec<String>)
    ensures
        spec::strings(r@) == seq![a@, b@, c@, d@],
{
    let mut r = args3(a, b, c);
    push(&mut r, d);
    r
}

/// Two numbers with a separator between them.
pub(crate) fn pair(x: i32, sep: &str, y: i32) -> (r: String)
    ensures
        r@ == decimal::signed(x as int) + sep@ + decimal::signed(y as int),
{
    let mut r = String::new();
    decimal::push_signed(&mut r, x as i64);
    r.append(sep);
    decimal::push_signed(&mut r, y as i64);
    assert(r@ =~= decimal::signed(x as int) + sep@ + decimal::signed(y as int));
    r
}

} // verus!

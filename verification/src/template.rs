//! Pages with placeholders: `&{key}` stands for the value of `key`.

use vstd::prelude::*;
use crate::bytes::{append, copy_range, replace_all, replaced};
use crate::headers::fields_view;

verus! {

/// The placeholder of a variable: an ampersand, the key in braces.
pub open spec fn placeholder(key: Seq<u8>) -> Seq<u8> {
    seq![38u8, 123u8] + key + seq![125u8]
}

/// `text` with the variables filled in, one variable after the other in
/// the order of the list: each step replaces every placeholder of its
/// variable in what the steps before it have made.
pub open spec fn filled(text: Seq<u8>, variables: Seq<(Seq<u8>, Seq<u8>)>) -> Seq<u8>
    decreases variables.len(),
{
    if variables.len() == 0 {
        text
    } else {
        replaced(
            filled(text, variables.drop_last()),
            placeholder(variables.last().0),
            variables.last().1,
        )
    }
}

/// The placeholder of the variable `key`.
pub fn make_placeholder(key: &[u8]) -> (p: Vec<u8>)
    ensures
        p@ == placeholder(key@),
{
    let mut p: Vec<u8> = Vec::new();
    p.push(38);
    p.push(123);
    append(&mut p, key);
    p.push(125);
    assert(p@ =~= placeholder(key@));
    p
}

/// Fills the variables into `text`.
pub fn fill_template(text: &[u8], variables: &Vec<(Vec<u8>, Vec<u8>)>) -> (out: Vec<u8>)
    ensures
        out@ == filled(text@, fields_view(variables@)),
{
    let mut out: Vec<u8> = copy_range(text, 0, text.len());
    assert(out@ =~= text@);
    let n: usize = variables.len();
    let mut i: usize = 0;
    assert(fields_view(variables@).take(0) =~= Seq::<(Seq<u8>, Seq<u8>)>::empty());
    while i < n
        invariant
            n == variables@.len(),
            i <= n,
            out@ == filled(text@, fields_view(variables@).take(i as int)),
        decreases n - i,
    {
        let ghost next = fields_view(variables@).take(i + 1);
        assert(next.drop_last() =~= fields_view(variables@).take(i as int));
        assert(next.last() == (variables@[i as int].0@, variables@[i as int].1@));
        let pattern: Vec<u8> = make_placeholder(variables[i].0.as_slice());
        out = replace_all(out.as_slice(), pattern.as_slice(), variables[i].1.as_slice());
        i += 1;
    }
    assert(fields_view(variables@).take(n as int) =~= fields_view(variables@));
    out
}

} // verus!

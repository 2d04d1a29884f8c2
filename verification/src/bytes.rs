//! Bytes.

use vstd::prelude::*;

verus! {

/// Some bytes without the first ones.
pub fn without_prefix(bytes: &Vec<u8>, n: usize) -> (rest: Vec<u8>)
    requires
        n <= bytes@.len(),
    ensures
        rest@ == bytes@.skip(n as int),
{
    let mut rest: Vec<u8> = Vec::new();
    let mut i: usize = n;
    while i < bytes.len()
        invariant
            n <= i <= bytes@.len(),
            rest@ == bytes@.subrange(n as int, i as int),
        decreases bytes@.len() - i,
    {
        rest.push(bytes[i]);
        i = i + 1;
    }
    assert(rest@ =~= bytes@.skip(n as int));
    rest
}

/// What was taken off the front and what is left make up the bytes.
pub proof fn law_prefix_and_rest(bytes: &Vec<u8>, n: usize, rest: Vec<u8>)
    requires
        n <= bytes@.len(),
        call_ensures(without_prefix, (bytes, n), rest),
    ensures
        bytes@ == bytes@.take(n as int) + rest@,
        rest@.len() + n == bytes@.len(),
{
    assert(bytes@ =~= bytes@.take(n as int) + rest@);
}

} // verus!

use vstd::prelude::*;

verus! {

/// The smallest multiple of 32 that is not below `n`.
pub open spec fn next_multiple_of_32(n: int) -> int {
    ((n + 31) / 32) * 32
}

/// Rounds `n` up to a multiple of 32; `None` when `n + 31` does not fit in a `usize`.
pub fn checked_next_multiple_of_32(n: usize) -> (r: Option<usize>)
    ensures
        r is None <==> n + 31 > usize::MAX,
        r matches Some(m) ==> m == next_multiple_of_32(n as int),
        r matches Some(m) ==> m % 32 == 0 && n <= m < n + 32,
{
    match n.checked_add(31) {
        None => None,
        Some(s) => {
            let m = s & !31usize;
            assert(s & !31usize == s - s % 32) by (bit_vector);
            Some(m)
        },
    }
}

/// The 32 bytes of `msg` from `at` on.
pub(crate) fn word_at(msg: &[u8], at: usize) -> (r: [u8; 32])
    requires
        at + 32 <= msg@.len(),
    ensures
        r@ == msg@.subrange(at as int, at + 32),
{
    let mut r = [0u8; 32];
    let mut i: usize = 0;
    let _len = msg.len();
    while i < 32
        invariant
            i <= 32,
            at + 32 <= msg@.len(),
            msg@.len() <= usize::MAX,
            forall|j: int| 0 <= j < i ==> r@[j] == msg@[at + j],
        decreases 32 - i,
    {
        r[i] = msg[at + i];
        i += 1;
    }
    assert(r@ =~= msg@.subrange(at as int, at + 32));
    r
}

} // verus!

//! Small helpers on byte strings.

use vstd::prelude::*;

verus! {

/// Whether two byte strings hold the same bytes.
pub fn same_bytes(a: &[u8], b: &[u8]) -> (same: bool)
    ensures
        same <==> a@ == b@,
{
    if a.len() != b.len() {
        return false;
    }
    let mut i: usize = 0;
    while i < a.len()
        invariant
            i <= a@.len(),
            a@.len() == b@.len(),
            forall|k: int| 0 <= k < i ==> a@[k] == b@[k],
        decreases a@.len() - i,
    {
        if a[i] != b[i] {
            return false;
        }
        i = i + 1;
    }
    assert(a@ =~= b@);
    true
}

/// Copies the twenty bytes at `at` out of `bytes`.
pub fn array20(bytes: &[u8], at: usize) -> (out: [u8; 20])
    requires
        at + 20 <= bytes@.len(),
    ensures
        out@ == bytes@.subrange(at as int, at + 20),
{
    let mut out = [0u8; 20];
    let len: usize = bytes.len();
    let mut j: usize = 0;
    while j < 20
        invariant
            j <= 20,
            at + 20 <= len == bytes@.len(),
            forall|k: int| 0 <= k < j ==> out@[k] == bytes@[at + k],
        decreases 20 - j,
    {
        out[j] = bytes[at + j];
        j = j + 1;
    }
    assert(out@ =~= bytes@.subrange(at as int, at + 20));
    out
}

} // verus!

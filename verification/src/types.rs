//! Plain value types shared by the receipt, deposit and account modules.

use vstd::prelude::*;

verus! {

/// A 32-byte value identifying a layer-1 transaction or a priority-operation
/// event.  The all-zero value is a valid "absent" sentinel in test fixtures
/// only, so the library attaches no meaning to any particular byte pattern.
#[derive(Clone, Copy, Debug, PartialEq, Eq)]
pub struct OperationHash {
    pub bytes: [u8; 32],
}

/// A 20-byte layer-1 account address.
#[derive(Clone, Copy, Debug, PartialEq, Eq)]
pub struct Address {
    pub bytes: [u8; 20],
}

/// Byte-wise address equality; two addresses denote the same account exactly
/// when their byte views coincide.
pub fn addr_eq(a: &Address, b: &Address) -> (r: bool)
    ensures
        r == (a.bytes@ == b.bytes@),
{
    let mut i: usize = 0;
    while i < 20
        invariant
            0 <= i <= 20,
            forall|k: int| 0 <= k < i ==> a.bytes@[k] == b.bytes@[k],
        decreases 20 - i,
    {
        if a.bytes[i] != b.bytes[i] {
            return false;
        }
        i = i + 1;
    }
    assert(a.bytes@ =~= b.bytes@);
    true
}

} // verus!

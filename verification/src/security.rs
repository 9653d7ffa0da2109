//! Secure memory utilities: zeroing and memory-locking hints.

use vstd::prelude::*;

verus! {

/// Whether memory locking is available. Locking needs privileges that
/// this program does not ask for, so the answer is always no.
pub fn is_mlock_supported() -> (r: bool)
    ensures
        !r,
{
    false
}

/// Attempt to lock memory against swapping; best effort, and without the
/// needed privileges it never succeeds.
pub fn lock_memory(_data: &[u8]) -> (r: bool)
    ensures
        !r,
{
    false
}

/// Calls `core::hint::black_box`, which hands its argument back unchanged
/// while keeping the compiler from optimizing the write away.
#[verifier::external_body]
fn volatile_write(_old: u8, val: u8) -> (r: u8)
    ensures
        r == val,
{
    core::hint::black_box(val)
}

/// Overwrite every byte with zero.
pub fn secure_zero(data: &mut Vec<u8>)
    ensures
        final(data)@.len() == old(data)@.len(),
        forall|i: int| 0 <= i < final(data)@.len() ==> #[trigger] final(data)@[i] == 0u8,
{
    let mut i: usize = 0;
    while i < data.len()
        invariant
            i <= data@.len(),
            data@.len() == old(data)@.len(),
            forall|k: int| 0 <= k < i ==> #[trigger] data@[k] == 0u8,
        decreases data.len() - i,
    {
        let z = volatile_write(data[i], 0);
        data.set(i, z);
        i = i + 1;
    }
}

/// A buffer of sensitive bytes.
pub struct SecureBuffer {
    data: Vec<u8>,
}

impl View for SecureBuffer {
    type V = Seq<u8>;

    closed spec fn view(&self) -> Seq<u8> {
        self.data@
    }
}

impl SecureBuffer {
    /// A buffer holding `data`.
    pub fn new(data: Vec<u8>) -> (r: Self)
        ensures
            r@ == data@,
    {
        SecureBuffer { data }
    }

    /// The bytes held.
    pub fn as_slice(&self) -> (r: &[u8])
        ensures
            r@ == self@,
    {
        self.data.as_slice()
    }

    /// Overwrite the bytes held with zeros.
    pub fn wipe(&mut self)
        ensures
            final(self)@.len() == old(self)@.len(),
            forall|i: int| 0 <= i < final(self)@.len() ==> #[trigger] final(self)@[i] == 0u8,
    {
        secure_zero(&mut self.data);
    }
}

} // verus!

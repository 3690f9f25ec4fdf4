use vstd::prelude::*;

verus! {

/// Whether two 32-byte arrays hold the same bytes.
pub fn bytes32_eq(a: &[u8; 32], b: &[u8; 32]) -> (same: bool)
    ensures
        same == (*a == *b),
{
    let mut i: usize = 0;
    while i < 32
        invariant
            i <= 32,
            forall|j: int| 0 <= j < i ==> a[j] == b[j],
        decreases 32 - i,
    {
        if a[i] != b[i] {
            return false;
        }
        i = i + 1;
    }
    assert(*a =~= *b);
    true
}

/// Whether two 64-byte arrays hold the same bytes.
pub fn bytes64_eq(a: &[u8; 64], b: &[u8; 64]) -> (same: bool)
    ensures
        same == (*a == *b),
{
    let mut i: usize = 0;
    while i < 64
        invariant
            i <= 64,
            forall|j: int| 0 <= j < i ==> a[j] == b[j],
        decreases 64 - i,
    {
        if a[i] != b[i] {
            return false;
        }
        i = i + 1;
    }
    assert(*a =~= *b);
    true
}

/// The 32-byte array that holds the bytes of `bytes`.
pub open spec fn bytes32(bytes: Seq<u8>) -> [u8; 32] {
    choose|array: [u8; 32]| array@ == bytes
}

/// The 64-byte array that holds the bytes of `bytes`.
pub open spec fn bytes64(bytes: Seq<u8>) -> [u8; 64] {
    choose|array: [u8; 64]| array@ == bytes
}

proof fn lemma_array32_exists(bytes: Seq<u8>, n: int) -> (array: [u8; 32])
    requires
        bytes.len() == 32,
        0 <= n <= 32,
    ensures
        forall|i: int| 0 <= i < n ==> array@[i] == bytes[i],
    decreases n,
{
    broadcast use vstd::array::axiom_spec_array_update;

    if n == 0 {
        arbitrary()
    } else {
        let earlier = lemma_array32_exists(bytes, n - 1);
        vstd::array::spec_array_update(earlier, n - 1, bytes[n - 1])
    }
}

proof fn lemma_array64_exists(bytes: Seq<u8>, n: int) -> (array: [u8; 64])
    requires
        bytes.len() == 64,
        0 <= n <= 64,
    ensures
        forall|i: int| 0 <= i < n ==> array@[i] == bytes[i],
    decreases n,
{
    broadcast use vstd::array::axiom_spec_array_update;

    if n == 0 {
        arbitrary()
    } else {
        let earlier = lemma_array64_exists(bytes, n - 1);
        vstd::array::spec_array_update(earlier, n - 1, bytes[n - 1])
    }
}

/// Every sequence of 32 bytes is held by an array, and by one only.
pub proof fn lemma_bytes32(bytes: Seq<u8>)
    requires
        bytes.len() == 32,
    ensures
        bytes32(bytes)@ == bytes,
{
    let array = lemma_array32_exists(bytes, 32);
    assert(array@ =~= bytes);
}

/// Every sequence of 64 bytes is held by an array, and by one only.
pub proof fn lemma_bytes64(bytes: Seq<u8>)
    requires
        bytes.len() == 64,
    ensures
        bytes64(bytes)@ == bytes,
{
    let array = lemma_array64_exists(bytes, 64);
    assert(array@ =~= bytes);
}

/// An array is the array that holds its bytes.
pub proof fn lemma_bytes32_of(array: [u8; 32])
    ensures
        bytes32(array@) == array,
{
    assert(bytes32(array@)@ == array@);
    assert(bytes32(array@) =~= array);
}

/// An array is the array that holds its bytes.
pub proof fn lemma_bytes64_of(array: [u8; 64])
    ensures
        bytes64(array@) == array,
{
    assert(bytes64(array@)@ == array@);
    assert(bytes64(array@) =~= array);
}

/// Reads the 32 bytes of `bytes` from `at` on.
pub fn read_array32(bytes: &[u8], at: usize) -> (array: [u8; 32])
    requires
        at + 32 <= bytes.len(),
    ensures
        array == bytes32(bytes@.subrange(at as int, at + 32)),
{
    let mut array = [0u8;32];
    let mut i: usize = 0;
    while i < 32
        invariant
            i <= 32,
            at + 32 <= bytes.len(),
            forall|j: int| 0 <= j < i ==> array[j] == bytes[at + j],
        decreases 32 - i,
    {
        array[i] = bytes[at + i];
        i = i + 1;
    }
    proof {
        assert(array@ =~= bytes@.subrange(at as int, at + 32));
        lemma_bytes32_of(array);
    }
    array
}

/// Reads the 64 bytes of `bytes` from `at` on.
pub fn read_array64(bytes: &[u8], at: usize) -> (array: [u8; 64])
    requires
        at + 64 <= bytes.len(),
    ensures
        array == bytes64(bytes@.subrange(at as int, at + 64)),
{
    let mut array = [0u8;64];
    let mut i: usize = 0;
    while i < 64
        invariant
            i <= 64,
            at + 64 <= bytes.len(),
            forall|j: int| 0 <= j < i ==> array[j] == bytes[at + j],
        decreases 64 - i,
    {
        array[i] = bytes[at + i];
        i = i + 1;
    }
    proof {
        assert(array@ =~= bytes@.subrange(at as int, at + 64));
        lemma_bytes64_of(array);
    }
    array
}

} // verus!

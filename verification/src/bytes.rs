//! Small tools for byte strings: appending, comparing, decimal numbers.

use vstd::prelude::*;

verus! {

/// The carriage return.
pub const CR: u8 = 13;

/// The line feed.
pub const LF: u8 = 10;

/// The space.
pub const SPACE: u8 = 32;

/// The colon.
pub const COLON: u8 = 58;

/// The digit zero.
pub const ZERO: u8 = 48;

/// Appends `bytes` to `out`.
pub fn append(out: &mut Vec<u8>, bytes: &[u8])
    ensures
        final(out)@ == old(out)@ + bytes@,
{
    let len: usize = bytes.len();
    let mut i: usize = 0;
    while i < len
        invariant
            len == bytes@.len(),
            i <= len,
            out@ == old(out)@ + bytes@.subrange(0, i as int),
        decreases len - i,
    {
        out.push(bytes[i]);
        i += 1;
    }
    assert(bytes@.subrange(0, len as int) == bytes@);
}

/// Tells whether two byte strings are the same, byte for byte.
pub fn same_bytes(a: &[u8], b: &[u8]) -> (r: bool)
    ensures
        r == (a@ == b@),
{
    if a.len() != b.len() {
        return false;
    }
    let len: usize = a.len();
    let mut i: usize = 0;
    while i < len
        invariant
            len == a@.len(),
            len == b@.len(),
            i <= len,
            forall|j: int| 0 <= j < i ==> a@[j] == b@[j],
        decreases len - i,
    {
        if a[i] != b[i] {
            return false;
        }
        i += 1;
    }
    assert(a@ =~= b@);
    true
}

/// A number in decimal digits, without leading zeros.
pub open spec fn decimal(n: nat) -> Seq<u8>
    decreases n,
{
    if n < 10 {
        seq![(ZERO + n) as u8]
    } else {
        decimal(n / 10).push((ZERO + n % 10) as u8)
    }
}

/// Appends `n` in decimal digits.
pub fn push_decimal(out: &mut Vec<u8>, n: usize)
    ensures
        final(out)@ == old(out)@ + decimal(n as nat),
    decreases n,
{
    if n >= 10 {
        push_decimal(out, n / 10);
    }
    out.push(ZERO + (n % 10) as u8);
}

/// The index of the first `byte` at or after `from`, or the length of
/// `bytes` where there is none.
pub open spec fn find_byte(bytes: Seq<u8>, from: int, byte: u8) -> int
    decreases bytes.len() - from,
{
    if from >= bytes.len() {
        bytes.len() as int
    } else if bytes[from] == byte {
        from
    } else {
        find_byte(bytes, from + 1, byte)
    }
}

/// The search for a byte never goes back, and passes nothing it looks for.
pub proof fn lemma_find_byte_bounds(bytes: Seq<u8>, from: int, byte: u8)
    ensures
        from <= bytes.len() ==> from <= find_byte(bytes, from, byte) <= bytes.len(),
        0 <= from ==> forall|i: int| from <= i < find_byte(bytes, from, byte) ==> bytes[i] != byte,
        0 <= from && find_byte(bytes, from, byte) < bytes.len() ==> bytes[find_byte(
            bytes,
            from,
            byte,
        )] == byte,
    decreases bytes.len() - from,
{
    if from < bytes.len() && bytes[from] != byte {
        lemma_find_byte_bounds(bytes, from + 1, byte);
    }
}

/// A byte that does not occur before `at` is found at `at`.
pub proof fn lemma_find_byte_at(bytes: Seq<u8>, from: int, at: int, byte: u8)
    requires
        0 <= from <= at < bytes.len(),
        bytes[at] == byte,
        forall|i: int| from <= i < at ==> bytes[i] != byte,
    ensures
        find_byte(bytes, from, byte) == at,
    decreases at - from,
{
    if from < at {
        lemma_find_byte_at(bytes, from + 1, at, byte);
    }
}

} // verus!

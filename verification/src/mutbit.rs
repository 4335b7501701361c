//! Addressing a single bit inside a byte buffer: used to inject sparse
//! bit errors into ciphertexts and to walk the sparse parity-check rows of
//! a secret key.

use vstd::prelude::*;

verus! {

/// Bit `bit` (least significant first) of byte `byte` in the buffer.
pub open spec fn spec_bit(bytes: Seq<u8>, byte: int, bit: int) -> bool {
    (bytes[byte] >> (bit as u8)) & 1 == 1
}

/// The location of one bit in a byte buffer.
pub struct MutBit {
    pub byte: usize,
    pub local_bit: u8,
}

/// Locate bit number `bitnum` of the buffer; rejected when the buffer is
/// too short.
pub fn mutbit(bytes: &Vec<u8>, bitnum: u64) -> (r: Result<MutBit, ()>)
    ensures
        r is Ok <==> bitnum as int / 8 < bytes@.len(),
        r is Ok ==> r->Ok_0.byte == bitnum as int / 8 && r->Ok_0.local_bit == bitnum as int % 8,
{
    let bytenum = bitnum / 8;
    let local_bit = (bitnum % 8) as u8;
    proof {
        vstd::arithmetic::div_mod::lemma_mod_bound(bitnum as int, 8);
    }
    if (bytenum as u128) < (bytes.len() as u128) {
        Ok(MutBit { byte: bytenum as usize, local_bit })
    } else {
        Err(())
    }
}

impl MutBit {
    /// The location lies inside the buffer.
    pub open spec fn wf(self, bytes: Seq<u8>) -> bool {
        &&& self.byte < bytes.len()
        &&& self.local_bit < 8
    }

    /// Read the addressed bit.
    pub fn get(&self, bytes: &Vec<u8>) -> (r: bool)
        requires
            self.wf(bytes@),
        ensures
            r == spec_bit(bytes@, self.byte as int, self.local_bit as int),
    {
        let b = bytes[self.byte];
        proof {
            lemma_mask_test(b, self.local_bit);
        }
        b & (1u8 << self.local_bit) != 0
    }

    /// Write the addressed bit; every other bit of the buffer is
    /// untouched.
    pub fn set(&self, bytes: &mut Vec<u8>, val: bool)
        requires
            self.wf(old(bytes)@),
        ensures
            final(bytes)@.len() == old(bytes)@.len(),
            spec_bit(final(bytes)@, self.byte as int, self.local_bit as int) == val,
            forall|i: int|
                0 <= i < old(bytes)@.len() && i != self.byte ==> final(bytes)@[i] == old(
                    bytes,
                )@[i],
            forall|k: int|
                0 <= k < 8 && k != self.local_bit ==> spec_bit(
                    final(bytes)@,
                    self.byte as int,
                    k,
                ) == spec_bit(old(bytes)@, self.byte as int, k),
    {
        let cur = self.get(bytes);
        let change: u8 = if cur != val {
            1
        } else {
            0
        };
        let old_byte = bytes[self.byte];
        let new_byte = old_byte ^ (change << self.local_bit);
        proof {
            lemma_xor_bit(old_byte, new_byte, change, self.local_bit);
        }
        bytes[self.byte] = new_byte;
    }

    /// Invert the addressed bit; every other bit of the buffer is
    /// untouched.
    pub fn flip(&self, bytes: &mut Vec<u8>)
        requires
            self.wf(old(bytes)@),
        ensures
            final(bytes)@.len() == old(bytes)@.len(),
            spec_bit(final(bytes)@, self.byte as int, self.local_bit as int) == !spec_bit(
                old(bytes)@,
                self.byte as int,
                self.local_bit as int,
            ),
            forall|i: int|
                0 <= i < old(bytes)@.len() && i != self.byte ==> final(bytes)@[i] == old(
                    bytes,
                )@[i],
            forall|k: int|
                0 <= k < 8 && k != self.local_bit ==> spec_bit(
                    final(bytes)@,
                    self.byte as int,
                    k,
                ) == spec_bit(old(bytes)@, self.byte as int, k),
    {
        let old_byte = bytes[self.byte];
        let new_byte = old_byte ^ (1u8 << self.local_bit);
        proof {
            lemma_xor_bit(old_byte, new_byte, 1, self.local_bit);
        }
        bytes[self.byte] = new_byte;
    }
}

/// Testing a single-bit mask is the same as reading the shifted bit.
proof fn lemma_mask_test(b: u8, bit: u8)
    requires
        bit < 8,
    ensures
        (b & (1u8 << bit) != 0) == ((b >> bit) & 1 == 1),
{
    assert((b & (1u8 << bit) != 0) == ((b >> bit) & 1 == 1)) by (bit_vector)
        requires
            bit < 8,
    ;
}

/// Flipping one bit by xor: the addressed bit toggles exactly when the
/// change bit is one, and every other bit is preserved.
proof fn lemma_xor_bit(x: u8, y: u8, c: u8, bit: u8)
    requires
        bit < 8,
        c <= 1,
        y == x ^ (c << bit),
    ensures
        ((y >> bit) & 1 == 1) == if c == 1 {
            !((x >> bit) & 1 == 1)
        } else {
            ((x >> bit) & 1 == 1)
        },
        forall|k: u8| k < 8 && k != bit ==> ((y >> k) & 1) == #[trigger] ((x >> k) & 1),
{
    assert(((y >> bit) & 1 == 1) == if c == 1 {
        !((x >> bit) & 1 == 1)
    } else {
        ((x >> bit) & 1 == 1)
    }) by (bit_vector)
        requires
            bit < 8,
            c <= 1,
            y == x ^ (c << bit),
    ;
    assert forall|k: u8| k < 8 && k != bit implies ((y >> k) & 1) == #[trigger] ((x >> k)
        & 1) by {
        assert(((y >> k) & 1) == ((x >> k) & 1)) by (bit_vector)
            requires
                bit < 8,
                k < 8,
                k != bit,
                c <= 1,
                y == x ^ (c << bit),
        ;
    }
}

} // verus!

//! Fixed-size byte buffers a KEM operates on. Each buffer kind is its own
//! type; lengths are fixed per parameter set at runtime and enforced
//! through contracts.

use vstd::prelude::*;

verus! {

/// Common surface of the KEM byte buffers.
pub trait KemBuf: Sized {
    /// The buffer contents.
    spec fn bytes(&self) -> Seq<u8>;

    /// A zeroed buffer of the given length.
    fn new(len: usize) -> (r: Self)
        ensures
            r.bytes().len() == len,
            forall|i: int| 0 <= i < len ==> r.bytes()[i] == 0,
    ;

    fn len(&self) -> (r: usize)
        ensures
            r == self.bytes().len(),
    ;

    fn as_slice(&self) -> (r: &[u8])
        ensures
            r@ == self.bytes(),
    ;
}

pub struct PublicKey {
    pub data: Vec<u8>,
}

pub struct SecretKey {
    pub data: Vec<u8>,
}

pub struct Ciphertext {
    pub data: Vec<u8>,
}

pub struct SharedSecret {
    pub data: Vec<u8>,
}

pub struct Plaintext {
    pub data: Vec<u8>,
}

impl KemBuf for PublicKey {
    open spec fn bytes(&self) -> Seq<u8> {
        self.data@
    }

    fn new(len: usize) -> (r: Self) {
        PublicKey { data: zeroed(len) }
    }

    fn len(&self) -> usize {
        self.data.len()
    }

    fn as_slice(&self) -> &[u8] {
        self.data.as_slice()
    }
}

impl KemBuf for SecretKey {
    open spec fn bytes(&self) -> Seq<u8> {
        self.data@
    }

    fn new(len: usize) -> (r: Self) {
        SecretKey { data: zeroed(len) }
    }

    fn len(&self) -> usize {
        self.data.len()
    }

    fn as_slice(&self) -> &[u8] {
        self.data.as_slice()
    }
}

impl KemBuf for Ciphertext {
    open spec fn bytes(&self) -> Seq<u8> {
        self.data@
    }

    fn new(len: usize) -> (r: Self) {
        Ciphertext { data: zeroed(len) }
    }

    fn len(&self) -> usize {
        self.data.len()
    }

    fn as_slice(&self) -> &[u8] {
        self.data.as_slice()
    }
}

impl KemBuf for SharedSecret {
    open spec fn bytes(&self) -> Seq<u8> {
        self.data@
    }

    fn new(len: usize) -> (r: Self) {
        SharedSecret { data: zeroed(len) }
    }

    fn len(&self) -> usize {
        self.data.len()
    }

    fn as_slice(&self) -> &[u8] {
        self.data.as_slice()
    }
}

impl KemBuf for Plaintext {
    open spec fn bytes(&self) -> Seq<u8> {
        self.data@
    }

    fn new(len: usize) -> (r: Self) {
        Plaintext { data: zeroed(len) }
    }

    fn len(&self) -> usize {
        self.data.len()
    }

    fn as_slice(&self) -> &[u8] {
        self.data.as_slice()
    }
}

/// A zero-filled byte vector.
pub fn zeroed(len: usize) -> (r: Vec<u8>)
    ensures
        r@.len() == len,
        forall|i: int| 0 <= i < len ==> r@[i] == 0,
{
    let mut r: Vec<u8> = Vec::new();
    let mut i: usize = 0;
    while i < len
        invariant
            i <= len,
            r@.len() == i,
            forall|j: int| 0 <= j < i ==> r@[j] == 0,
        decreases len - i,
    {
        r.push(0);
        i = i + 1;
    }
    r
}

/// A zero-filled matrix buffer.
pub fn zeroed_u16(len: usize) -> (r: Vec<u16>)
    ensures
        r@.len() == len,
        forall|i: int| 0 <= i < len ==> r@[i] == 0,
{
    let mut r: Vec<u16> = Vec::new();
    let mut i: usize = 0;
    while i < len
        invariant
            i <= len,
            r@.len() == i,
            forall|j: int| 0 <= j < i ==> r@[j] == 0,
        decreases len - i,
    {
        r.push(0);
        i = i + 1;
    }
    r
}

/// A zero-filled counter vector.
pub fn zeroed_u64(len: usize) -> (r: Vec<u64>)
    ensures
        r@.len() == len,
        forall|i: int| 0 <= i < len ==> r@[i] == 0,
{
    let mut r: Vec<u64> = Vec::new();
    let mut i: usize = 0;
    while i < len
        invariant
            i <= len,
            r@.len() == i,
            forall|j: int| 0 <= j < i ==> r@[j] == 0,
        decreases len - i,
    {
        r.push(0);
        i = i + 1;
    }
    r
}

} // verus!

//! Asset paths: the unique key of every store and cache in this crate.

use vstd::prelude::*;

verus! {

/// The bytes of a base directory joined with a relative reference:
/// a `/` separator when the base is non-empty.
pub open spec fn join_spec(base: Seq<u8>, rel: Seq<u8>) -> Seq<u8> {
    if base.len() == 0 {
        rel
    } else {
        base + seq![47u8] + rel
    }
}

/// An absolute, normalized file-system path, held as raw bytes.
///
/// Paths name assets in two distinct namespaces (descriptor files and
/// image files); both are represented by this one type and compared
/// byte for byte.
#[derive(Debug, Eq, PartialEq, Hash)]
pub struct AssetPath {
    bytes: Vec<u8>,
}

impl View for AssetPath {
    type V = Seq<u8>;

    closed spec fn view(&self) -> Seq<u8> {
        self.bytes@
    }
}

impl Clone for AssetPath {
    fn clone(&self) -> (r: Self)
        ensures
            r@ == self@,
    {
        AssetPath { bytes: self.bytes.clone() }
    }
}

impl AssetPath {
    /// Wraps raw path bytes as an asset path.
    pub fn new(bytes: Vec<u8>) -> (r: Self)
        ensures
            r@ == bytes@,
    {
        AssetPath { bytes }
    }

    /// The raw bytes of the path.
    pub fn bytes(&self) -> (r: &Vec<u8>)
        ensures
            r@ == self@,
    {
        &self.bytes
    }

    /// Byte-for-byte equality of two paths.
    pub fn same_path(&self, other: &AssetPath) -> (r: bool)
        ensures
            r == (self@ == other@),
    {
        bytes_eq(&self.bytes, &other.bytes)
    }

    /// Joins a base directory and a relative reference with a `/`
    /// separator; an empty base leaves the reference unchanged.
    pub fn join(&self, rel: &AssetPath) -> (r: AssetPath)
        ensures
            r@ == join_spec(self@, rel@),
    {
        if self.bytes.len() == 0 {
            rel.clone()
        } else {
            let mut out: Vec<u8> = Vec::new();
            let mut i: usize = 0;
            while i < self.bytes.len()
                invariant
                    i <= self.bytes.len(),
                    out@ == self.bytes@.take(i as int),
                decreases self.bytes.len() - i,
            {
                out.push(self.bytes[i]);
                i = i + 1;
            }
            assert(out@ == self.bytes@);
            out.push(47u8);
            let mut j: usize = 0;
            while j < rel.bytes.len()
                invariant
                    j <= rel.bytes.len(),
                    out@ == self.bytes@ + seq![47u8] + rel.bytes@.take(j as int),
                decreases rel.bytes.len() - j,
            {
                out.push(rel.bytes[j]);
                j = j + 1;
            }
            assert(out@ == self.bytes@ + seq![47u8] + rel.bytes@);
            AssetPath { bytes: out }
        }
    }
}

/// Byte-for-byte equality of two byte vectors.
pub fn bytes_eq(a: &Vec<u8>, b: &Vec<u8>) -> (r: bool)
    ensures
        r == (a@ == b@),
{
    if a.len() != b.len() {
        assert(a@ != b@) by {
            assert(a@.len() != b@.len());
        }
        return false;
    }
    let mut i: usize = 0;
    while i < a.len()
        invariant
            i <= a.len(),
            a.len() == b.len(),
            forall|k: int| 0 <= k < i ==> a@[k] == b@[k],
        decreases a.len() - i,
    {
        if a[i] != b[i] {
            return false;
        }
        i = i + 1;
    }
    assert(a@ =~= b@);
    true
}

} // verus!

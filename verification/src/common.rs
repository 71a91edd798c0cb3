//! Plain-value representations of the ledger values both contracts handle.

use vstd::prelude::*;

verus! {

/// A Stellar address (account or contract), held as its strkey text.
///
/// The contracts only ever compare addresses for equality, so the textual
/// strkey is a faithful stand-in: two addresses are the same exactly when
/// their strkeys are.
#[derive(Clone, Debug, PartialEq, Eq)]
pub struct Address {
    strkey: String,
}

impl View for Address {
    type V = Seq<char>;

    open spec fn view(&self) -> Seq<char> {
        self.strkey_view()
    }
}

impl Address {
    /// The strkey characters of this address.
    pub closed spec fn strkey_view(&self) -> Seq<char> {
        self.strkey@
    }

    /// Builds an address from its strkey text.
    pub fn from_strkey(strkey: String) -> (a: Address)
        ensures
            a@ == strkey@,
    {
        Address { strkey }
    }

    /// The strkey text of this address.
    pub fn strkey(&self) -> (s: &String)
        ensures
            s@ == self@,
    {
        &self.strkey
    }

    /// Whether `self` and `other` denote the same address.
    pub fn same_as(&self, other: &Address) -> (b: bool)
        ensures
            b == (self@ == other@),
    {
        self.strkey == other.strkey
    }

    /// An identical copy of this address.
    pub fn duplicate(&self) -> (a: Address)
        ensures
            a == *self,
    {
        Address { strkey: self.strkey.clone() }
    }
}

/// A 32-byte identifier (a contract id or a WASM hash).
pub type Bytes32 = [u8; 32];

/// Whether two 32-byte identifiers hold the same bytes.
pub fn same_bytes32(a: &Bytes32, b: &Bytes32) -> (r: bool)
    ensures
        r == (a@ == b@),
{
    let mut i: usize = 0;
    while i < 32
        invariant
            i <= 32,
            forall|j: int| 0 <= j < i ==> a@[j] == b@[j],
        decreases 32 - i,
    {
        if a[i] != b[i] {
            assert(a@[i as int] != b@[i as int]);
            return false;
        }
        i = i + 1;
    }
    assert(a@ =~= b@);
    true
}

/// An identical copy of a byte vector.
pub fn duplicate_bytes(v: &Vec<u8>) -> (r: Vec<u8>)
    ensures
        r@ == v@,
{
    let mut out: Vec<u8> = Vec::new();
    let mut i: usize = 0;
    while i < v.len()
        invariant
            i <= v.len(),
            out@ == v@.subrange(0, i as int),
        decreases v.len() - i,
    {
        out.push(v[i]);
        i = i + 1;
        assert(out@ =~= v@.subrange(0, i as int));
    }
    assert(v@.subrange(0, v.len() as int) =~= v@);
    out
}

/// An identical copy of a vector of strings.
pub fn duplicate_strings(v: &Vec<String>) -> (r: Vec<String>)
    ensures
        r@ == v@,
{
    let mut out: Vec<String> = Vec::new();
    let mut i: usize = 0;
    while i < v.len()
        invariant
            i <= v.len(),
            out@ == v@.subrange(0, i as int),
        decreases v.len() - i,
    {
        out.push(v[i].clone());
        i = i + 1;
        assert(out@ =~= v@.subrange(0, i as int));
    }
    assert(v@.subrange(0, v.len() as int) =~= v@);
    out
}

} // verus!

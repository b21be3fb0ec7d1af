//! A registered credential and the comparison of key handles.

use vstd::prelude::*;
use vstd::slice::slice_to_vec;

verus! {

/// One registered credential of one relying-party application.
#[derive(Debug)]
pub struct ApplicationKey {
    /// The application the credential belongs to.
    pub application: [u8; 32],
    /// The handle issued at registration.
    pub handle: Vec<u8>,
    /// The private key material, as the protocol engine encoded it.
    pub key: Vec<u8>,
}

/// An `ApplicationKey` as plain values.
pub struct KeyView {
    pub application: Seq<u8>,
    pub handle: Seq<u8>,
    pub key: Seq<u8>,
}

impl View for ApplicationKey {
    type V = KeyView;

    open spec fn view(&self) -> KeyView {
        KeyView { application: self.application@, handle: self.handle@, key: self.key@ }
    }
}

impl Clone for ApplicationKey {
    fn clone(&self) -> (r: Self)
        ensures
            r@ == self@,
    {
        ApplicationKey {
            application: self.application,
            handle: slice_to_vec(self.handle.as_slice()),
            key: slice_to_vec(self.key.as_slice()),
        }
    }
}

impl KeyView {
    /// Whether this is the key of `application` with the handle `handle`.
    pub open spec fn matches(self, application: Seq<u8>, handle: Seq<u8>) -> bool {
        self.application == application && self.handle == handle
    }
}

impl ApplicationKey {
    /// Whether this is the key of `application` with the handle `handle`.
    /// The handles are compared in constant time.
    pub fn matches(&self, application: &[u8; 32], handle: &[u8]) -> (r: bool)
        ensures
            r == self@.matches(application@, handle@),
    {
        let same_handle = eq_consttime(self.handle.as_slice(), handle);
        let same_owner = same_application(&self.application, application);
        same_owner && same_handle
    }

    /// A credential from its parts.
    pub fn new(application: [u8; 32], handle: Vec<u8>, key: Vec<u8>) -> (r: Self)
        ensures
            r@ == (KeyView { application: application@, handle: handle@, key: key@ }),
    {
        ApplicationKey { application, handle, key }
    }
}

/// Whether two byte strings are equal. Strings of one length are compared
/// without leaving early at the first difference, so that the time taken
/// does not tell where they differ.
pub fn eq_consttime(a: &[u8], b: &[u8]) -> (r: bool)
    ensures
        r == (a@ == b@),
{
    if a.len() != b.len() {
        return false;
    }
    let n = a.len();
    let mut diff: u8 = 0;
    let mut i: usize = 0;
    proof {
        assert(a@.take(0) =~= b@.take(0));
    }
    while i < n
        invariant
            n == a@.len(),
            n == b@.len(),
            0 <= i <= n,
            (diff == 0) == (a@.take(i as int) == b@.take(i as int)),
        decreases n - i,
    {
        let x = a[i];
        let y = b[i];
        let d: u8 = x ^ y;
        assert(((diff | d) == 0) == (diff == 0 && x == y)) by (bit_vector)
            requires
                d == x ^ y,
        ;
        proof {
            let ta = a@.take(i + 1);
            let tb = b@.take(i + 1);
            assert(ta.take(i as int) =~= a@.take(i as int));
            assert(tb.take(i as int) =~= b@.take(i as int));
            assert(ta[i as int] == x && tb[i as int] == y);
            if a@.take(i as int) == b@.take(i as int) && x == y {
                assert(ta =~= tb);
            }
        }
        diff = diff | d;
        i += 1;
    }
    proof {
        assert(a@.take(n as int) =~= a@);
        assert(b@.take(n as int) =~= b@);
    }
    diff == 0
}

/// Whether two application identifiers are the same.
pub fn same_application(a: &[u8; 32], b: &[u8; 32]) -> (r: bool)
    ensures
        r == (a@ == b@),
{
    let mut i: usize = 0;
    while i < 32
        invariant
            0 <= i <= 32,
            forall|j: int| 0 <= j < i ==> a@[j] == b@[j],
        decreases 32 - i,
    {
        if a[i] != b[i] {
            return false;
        }
        i += 1;
    }
    proof {
        assert(a@ =~= b@);
    }
    true
}

} // verus!

use vstd::prelude::*;

verus! {

/// The longest identity token the stored record format can carry:
/// each token is written with a one-byte length prefix.
pub const MAX_IDENTITY_LEN: usize = 255;

/// An opaque caller identity token: a short, non-empty byte string.
/// The library never interprets the bytes; it only compares them.
#[derive(Clone, Debug)]
pub struct Identity {
    pub bytes: Vec<u8>,
}

impl View for Identity {
    type V = Seq<u8>;

    open spec fn view(&self) -> Seq<u8> {
        self.bytes@
    }
}

impl Identity {
    /// A token is valid when it is non-empty and fits the one-byte
    /// length prefix of the stored record format.
    pub open spec fn valid(&self) -> bool {
        1 <= self@.len() <= MAX_IDENTITY_LEN
    }

    /// Wraps raw bytes as an identity token; rejects empty or oversized input.
    pub fn new(bytes: Vec<u8>) -> (r: Option<Identity>)
        ensures
            match r {
                Some(i) => i@ == bytes@ && i.valid(),
                None => !(1 <= bytes@.len() <= MAX_IDENTITY_LEN),
            },
    {
        if 1 <= bytes.len() && bytes.len() <= MAX_IDENTITY_LEN {
            Some(Identity { bytes })
        } else {
            None
        }
    }

    /// The raw bytes of the token.
    pub fn bytes(&self) -> (r: &Vec<u8>)
        ensures
            r@ == self@,
    {
        &self.bytes
    }

    /// Equality of two tokens, byte for byte.
    pub fn same_as(&self, other: &Identity) -> (r: bool)
        ensures
            r == (self@ == other@),
    {
        if self.bytes.len() != other.bytes.len() {
            return false;
        }
        let n = self.bytes.len();
        let mut i: usize = 0;
        while i < n
            invariant
                n == self@.len(),
                n == other@.len(),
                0 <= i <= n,
                forall|j: int| 0 <= j < i ==> self@[j] == other@[j],
            decreases n - i,
        {
            if self.bytes[i] != other.bytes[i] {
                return false;
            }
            i += 1;
        }
        proof {
            assert(self@ =~= other@);
        }
        true
    }
}

} // verus!

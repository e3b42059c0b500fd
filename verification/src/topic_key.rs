//! Topic identifiers: immutable byte-string keys with text or hex rendering.

use vstd::prelude::*;
use vstd::slice::slice_to_vec;
use vstd::std_specs::cmp::PartialEqSpec;
use vstd::string::StrSliceExecFns;
use vstd::string::StringSliceAdditionalSpecFns;
use vstd::utf8::{decode_utf8, valid_utf8};
use rand::RngCore;

use crate::text::{hex_chars, hex_encode};

verus! {

/// Error returned when a topic key's bytes are not valid text; non-fatal,
/// callers fall back to the hex rendering.
#[derive(Debug, Clone, Copy, PartialEq, Eq, Structural)]
pub struct DecodeError;

/// An immutable byte-string key naming a topic. Equality is a pure byte
/// comparison: two keys built from different representations of the same
/// bytes are interchangeable.
#[derive(Debug, Hash)]
pub struct TopicKey {
    bytes: Vec<u8>,
}

impl View for TopicKey {
    type V = Seq<u8>;

    closed spec fn view(&self) -> Seq<u8> {
        self.bytes@
    }
}

/// Whether two byte slices hold the same bytes.
pub fn bytes_eq(a: &[u8], b: &[u8]) -> (r: bool)
    ensures
        r == (a@ == b@),
{
    if a.len() != b.len() {
        return false;
    }
    let n = a.len();
    let mut i: usize = 0;
    while i < n
        invariant
            n == a@.len() == b@.len(),
            i <= n,
            forall|j: int| 0 <= j < i ==> a@[j] == b@[j],
        decreases n - i,
    {
        if a[i] != b[i] {
            return false;
        }
        i = i + 1;
    }
    proof {
        assert(a@ =~= b@);
    }
    true
}

/// Relies on `std::str::from_utf8`: succeeds exactly on valid UTF-8 input and
/// returns the text viewing those same bytes.
#[verifier::external_body]
fn utf8_to_str(bytes: &[u8]) -> (r: Option<&str>)
    ensures
        r is Some <==> valid_utf8(bytes@),
        r matches Some(s) ==> s.spec_bytes() == bytes@,
{
    std::str::from_utf8(bytes).ok()
}

/// Relies on `rand::rngs::ThreadRng::fill_bytes`: fills the whole buffer with
/// random bytes; nothing is promised of the values.
#[verifier::external_body]
fn random_fill(n: usize) -> (r: Vec<u8>)
    ensures
        r@.len() == n,
{
    let mut buf = vec![0u8; n];
    rand::thread_rng().fill_bytes(&mut buf);
    buf
}

impl TopicKey {
    /// A key over the given owned bytes.
    pub fn from_vec(bytes: Vec<u8>) -> (r: TopicKey)
        ensures
            r@ == bytes@,
    {
        TopicKey { bytes }
    }

    /// A key over a copy of the given bytes.
    pub fn from_slice(bytes: &[u8]) -> (r: TopicKey)
        ensures
            r@ == bytes@,
    {
        TopicKey { bytes: slice_to_vec(bytes) }
    }

    /// A key over the bytes of the given text.
    pub fn from_text(text: &str) -> (r: TopicKey)
        ensures
            r@ == text.spec_bytes(),
    {
        TopicKey { bytes: text.as_bytes_vec() }
    }

    /// A key of `n` random bytes, for correlation and reply topics.
    pub fn random(n: usize) -> (r: TopicKey)
        ensures
            r@.len() == n,
    {
        TopicKey { bytes: random_fill(n) }
    }

    /// The key's bytes.
    pub fn as_bytes(&self) -> (r: &[u8])
        ensures
            r@ == self@,
    {
        self.bytes.as_slice()
    }

    /// The number of bytes in the key.
    pub fn len(&self) -> (r: usize)
        ensures
            r == self@.len(),
    {
        self.bytes.len()
    }

    /// Try to read the key as UTF-8 text; fails exactly when the bytes are
    /// not valid UTF-8.
    pub fn try_as_str(&self) -> (r: Result<&str, DecodeError>)
        ensures
            r is Ok <==> valid_utf8(self@),
            r matches Ok(s) ==> s.spec_bytes() == self@ && s@ == decode_utf8(self@),
    {
        match utf8_to_str(self.bytes.as_slice()) {
            Some(s) => {
                proof {
                    vstd::utf8::encode_utf8_decode_utf8(s@);
                }
                Ok(s)
            },
            None => Err(DecodeError),
        }
    }

    /// The key rendered for display: its text when the bytes are valid UTF-8,
    /// otherwise their lowercase hex digits.
    pub fn display_string(&self) -> (r: String)
        ensures
            valid_utf8(self@) ==> r@ == decode_utf8(self@),
            !valid_utf8(self@) ==> r@ == hex_chars(self@),
    {
        match self.try_as_str() {
            Ok(s) => s.to_owned(),
            Err(_) => hex_encode(self.bytes.as_slice()),
        }
    }
}

impl Clone for TopicKey {
    /// A clone holds the same bytes.
    fn clone(&self) -> (r: Self)
        ensures
            r@ == self@,
    {
        TopicKey { bytes: slice_to_vec(self.bytes.as_slice()) }
    }
}

impl PartialEq for TopicKey {
    fn eq(&self, other: &Self) -> (r: bool) {
        bytes_eq(self.bytes.as_slice(), other.bytes.as_slice())
    }
}

impl Eq for TopicKey {

}

impl vstd::std_specs::cmp::PartialEqSpecImpl for TopicKey {
    open spec fn obeys_eq_spec() -> bool {
        true
    }

    open spec fn eq_spec(&self, other: &Self) -> bool {
        self@ == other@
    }
}

impl From<Vec<u8>> for TopicKey {
    /// The key holds exactly the given bytes.
    fn from(bytes: Vec<u8>) -> (r: TopicKey)
        ensures
            r@ == bytes@,
    {
        TopicKey::from_vec(bytes)
    }
}

impl From<&[u8]> for TopicKey {
    /// The key holds exactly the given bytes.
    fn from(bytes: &[u8]) -> (r: TopicKey)
        ensures
            r@ == bytes@,
    {
        TopicKey::from_slice(bytes)
    }
}

impl From<&str> for TopicKey {
    /// The key holds exactly the bytes of the given text.
    fn from(text: &str) -> (r: TopicKey)
        ensures
            r@ == text.spec_bytes(),
    {
        TopicKey::from_text(text)
    }
}

impl vstd::std_specs::convert::FromSpecImpl<Vec<u8>> for TopicKey {
    open spec fn obeys_from_spec() -> bool {
        false
    }

    open spec fn from_spec(bytes: Vec<u8>) -> TopicKey {
        arbitrary()
    }
}

impl vstd::std_specs::convert::FromSpecImpl<&[u8]> for TopicKey {
    open spec fn obeys_from_spec() -> bool {
        false
    }

    open spec fn from_spec(bytes: &[u8]) -> TopicKey {
        arbitrary()
    }
}

impl vstd::std_specs::convert::FromSpecImpl<&str> for TopicKey {
    open spec fn obeys_from_spec() -> bool {
        false
    }

    open spec fn from_spec(text: &str) -> TopicKey {
        arbitrary()
    }
}

/// Keys are equal exactly when their bytes are: however two keys were
/// constructed, identical bytes make them interchangeable.
pub proof fn lemma_key_equality_is_byte_equality(a: TopicKey, b: TopicKey)
    ensures
        a.eq_spec(&b) <==> a@ == b@,
{
}

} // verus!

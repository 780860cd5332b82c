use vstd::prelude::*;
use vstd::string::StrSliceExecFns;

verus! {

/// The SHA-256 digest of a string's bytes. The digest is a pure function of
/// the input, so it is given a name here rather than an algorithm.
pub uninterp spec fn sha256_of_str(s: Seq<char>) -> Seq<u8>;

/// The base-58 rendering of a byte string, a pure function of the input.
pub uninterp spec fn bs58_of(b: Seq<u8>) -> Seq<char>;

/// What base-58 decoding yields for a text: `Some(bytes)` where the text is
/// valid base-58, `None` otherwise. A pure function of the input.
pub uninterp spec fn bs58_decode_of(s: Seq<char>) -> Option<Seq<u8>>;

/// Relies on `near_sdk::env::sha256`: the SHA-256 digest of the argument's
/// bytes, always 32 bytes long and a function of the input alone.
#[verifier::external_body]
fn sha256_digest(s: &str) -> (r: Vec<u8>)
    ensures
        r@ == sha256_of_str(s@),
        r@.len() == 32,
{
    near_sdk::env::sha256(s.as_bytes())
}

/// Relies on `near_sdk::bs58::encode`: the base-58 text for the given bytes,
/// ASCII only and a function of the input alone.
#[verifier::external_body]
fn bs58_encode(b: &Vec<u8>) -> (r: String)
    ensures
        r@ == bs58_of(b@),
        b@.len() == 0 ==> r@.len() == 0,
{
    near_sdk::bs58::encode(b).into_string()
}

/// Relies on `near_sdk::bs58::decode`: recovers the bytes behind a base-58
/// text, or reports that the text is not valid base-58.
#[verifier::external_body]
fn bs58_decode(s: &str) -> (r: Option<Vec<u8>>)
    ensures
        match r {
            Some(b) => bs58_decode_of(s@) == Some(b@),
            None => bs58_decode_of(s@) is None,
        },
{
    match near_sdk::bs58::decode(s).into_vec() {
        Ok(b) => Some(b),
        Err(_) => None,
    }
}

/// An opaque user key: the SHA-256 digest of a real account identifier,
/// rendered in base-58. It is the sole key for every other entity, and it is
/// never reversed by this library.
#[derive(Clone, Debug)]
pub struct HashedUserId {
    pub s_bs58: String,
}

impl View for HashedUserId {
    type V = Seq<char>;

    open spec fn view(&self) -> Seq<char> {
        self.s_bs58@
    }
}

impl HashedUserId {
    /// Derive the key for a real account identifier: hash, then encode.
    /// Deterministic: the same identifier always yields the same key.
    pub fn from_account_id(account_id: &str) -> (r: Self)
        ensures
            r@ == bs58_of(sha256_of_str(account_id@)),
    {
        let digest = sha256_digest(account_id);
        HashedUserId { s_bs58: bs58_encode(&digest) }
    }

    /// Wrap an already-encoded key as handed in by a caller.
    pub fn from_bs58(s: &str) -> (r: Self)
        ensures
            r@ == s@,
    {
        HashedUserId { s_bs58: s.to_string() }
    }

    /// The number of characters in the encoded key.
    pub fn len(&self) -> (r: usize)
        ensures
            r == self@.len(),
    {
        self.s_bs58.as_str().unicode_len()
    }

    /// An exact copy of the key.
    pub fn duplicate(&self) -> (r: Self)
        ensures
            r == *self,
    {
        HashedUserId { s_bs58: self.s_bs58.clone() }
    }

    /// The raw digest bytes behind the encoded key, or `None` where the
    /// wrapped text is not valid base-58.
    pub fn as_bytes(&self) -> (r: Option<Vec<u8>>)
        ensures
            match r {
                Some(b) => bs58_decode_of(self@) == Some(b@),
                None => bs58_decode_of(self@) is None,
            },
    {
        bs58_decode(self.s_bs58.as_str())
    }
}

} // verus!

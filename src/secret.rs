use secrecy::{ExposeSecret, SecretBox};
use vstd::prelude::*;

verus! {

/// Sensitive bytes (a master key, a decrypted secret), held in a secrecy
/// `SecretBox`. They are overwritten with zeros when the value is dropped, on
/// every path, and can be read only through `expose`.
#[verifier::external_body]
pub struct SecretBytes {
    inner: SecretBox<Vec<u8>>,
}

/// The bytes that a `SecretBytes` holds.
pub uninterp spec fn secret_contents(s: SecretBytes) -> Seq<u8>;

impl View for SecretBytes {
    type V = Seq<u8>;

    open spec fn view(&self) -> Seq<u8> {
        secret_contents(*self)
    }
}

impl SecretBytes {
    /// Relies on secrecy's `SecretBox::new`: the box holds the given bytes, and
    /// zeroes them when it is dropped.
    #[verifier::external_body]
    pub fn new(bytes: Vec<u8>) -> (r: Self)
        ensures
            secret_contents(r) == bytes@,
    {
        SecretBytes { inner: SecretBox::new(Box::new(bytes)) }
    }

    /// Relies on secrecy's `ExposeSecret::expose_secret`: read access to the
    /// bytes the box holds.
    #[verifier::external_body]
    pub fn expose(&self) -> (r: &Vec<u8>)
        ensures
            r@ == secret_contents(*self),
    {
        self.inner.expose_secret()
    }

    pub fn len(&self) -> (r: usize)
        ensures
            r == self@.len(),
    {
        self.expose().len()
    }
}

} // verus!

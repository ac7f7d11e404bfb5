//! What a server shows its peer when they connect.

use vstd::prelude::*;

verus! {

/// A certificate and its private key, both in DER, the key as PKCS #8.
pub struct Identity {
    pub certificate: Vec<u8>,
    pub private_key: Vec<u8>,
}

/// Why there is no identity.
pub enum IdentityError {
    Generation(rcgen::Error),
}

/// The error of `rcgen`, of which nothing is read here.
#[verifier::external_type_specification]
#[verifier::external_body]
pub struct ExGenerationError(rcgen::Error);

/// Whether a certificate is one that `rcgen` made for the listed names and signed with the
/// private key. The key is random, so the names do not tell which certificate it is.
pub uninterp spec fn self_signed_for(
    certificate: Seq<u8>,
    private_key: Seq<u8>,
    names: Seq<Seq<char>>,
) -> bool;

/// Calls `rcgen::generate_simple_self_signed`: where it succeeds, the certificate is for the
/// names given, signed with the new key that comes with it. Whether it succeeds is left
/// open: it depends on the machine's source of random numbers too.
#[verifier::external_body]
fn generate_self_signed(names: Vec<String>) -> (res: Result<Identity, rcgen::Error>)
    ensures
        res is Ok ==> self_signed_for(
            res->Ok_0.certificate@,
            res->Ok_0.private_key@,
            names@.map_values(|name: String| name@),
        ),
{
    rcgen::generate_simple_self_signed(names).map(
        |made| Identity {
            certificate: made.cert.der().to_vec(),
            private_key: made.key_pair.serialize_der(),
        },
    )
}

/// The name that a server's certificate is for, and that a client connects to.
pub fn host_name() -> (name: String)
    ensures
        name@ == "localhost"@,
{
    "localhost".to_string()
}

/// What is made of an attempt to generate an identity.
pub fn identity_of(generated: Result<Identity, rcgen::Error>) -> (identity: Result<
    Identity,
    IdentityError,
>)
    ensures
        identity == match generated {
            Ok(made) => Ok(made),
            Err(error) => Err(IdentityError::Generation(error)),
        },
{
    match generated {
        Ok(made) => Ok(made),
        Err(error) => Err(IdentityError::Generation(error)),
    }
}

/// Makes an identity for a call: a new certificate for the one name that clients connect to.
pub fn new_identity() -> (identity: Result<Identity, IdentityError>)
    ensures
        identity is Ok ==> self_signed_for(
            identity->Ok_0.certificate@,
            identity->Ok_0.private_key@,
            seq!["localhost"@],
        ),
{
    let mut names: Vec<String> = Vec::new();
    names.push(host_name());
    assert(names@.map_values(|name: String| name@) =~= seq!["localhost"@]);
    identity_of(generate_self_signed(names))
}

} // verus!

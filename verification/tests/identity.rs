use audiostream::identity::{host_name, identity_of, new_identity, Identity, IdentityError};
use rustls::pki_types::{PrivateKeyDer, PrivatePkcs8KeyDer};

fn made() -> Identity {
    match new_identity() {
        Ok(identity) => identity,
        Err(_) => panic!("no identity"),
    }
}

#[test]
fn an_identity_is_for_the_name_that_clients_connect_to() {
    let identity = made();
    let name = host_name();
    assert_eq!(name, "localhost");
    let wanted = name.as_bytes();
    assert!(identity.certificate.windows(wanted.len()).any(|part| part == wanted));
}

#[test]
fn the_private_key_of_an_identity_can_sign() {
    let identity = made();
    let key = PrivateKeyDer::from(PrivatePkcs8KeyDer::from(identity.private_key));
    assert!(rustls::crypto::ring::sign::any_supported_type(&key).is_ok());
}

#[test]
fn no_two_identities_are_alike() {
    let a = made();
    let b = made();
    assert_ne!(a.private_key, b.private_key);
    assert_ne!(a.certificate, b.certificate);
}

#[test]
fn a_failed_generation_is_reported() {
    match identity_of(Err(rcgen::Error::CouldNotParseCertificate)) {
        Err(IdentityError::Generation(error)) => {
            assert_eq!(error, rcgen::Error::CouldNotParseCertificate);
        }
        Ok(_) => panic!("an identity out of nothing"),
    }
    let identity = Identity { certificate: vec![1], private_key: vec![2] };
    match identity_of(Ok(identity)) {
        Ok(same) => {
            assert_eq!(same.certificate, vec![1]);
            assert_eq!(same.private_key, vec![2]);
        }
        Err(_) => panic!("an identity lost"),
    }
}

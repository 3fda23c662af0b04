use itx_hub::escrow_key::EscrowSecret;
use itx_hub::types::{Id, PrivateKey, PublicKey};

fn unused_id() -> Id {
    uuid::Uuid::new_v4().as_u128()
}

/// Stands in for the curve: a distinct address for every key.
fn address(key: &PrivateKey) -> PublicKey {
    PublicKey { tag: 3, hi: key.hi, lo: key.lo }
}

fn derived_address(secret: &EscrowSecret, id: Id) -> PublicKey {
    address(&secret.derive(id).unwrap())
}

#[test]
fn derives_the_same_address_for_the_same_id_every_time() {
    let secret = EscrowSecret::generate();
    let id = unused_id();
    assert_eq!(
        derived_address(&secret, id),
        derived_address(&secret, id),
        "derivation must be reproducible, or a deposit's funds could not be swept twice"
    );
}

#[test]
fn derives_a_different_address_for_every_id() {
    let secret = EscrowSecret::generate();
    let a = derived_address(&secret, unused_id());
    let b = derived_address(&secret, unused_id());
    assert_ne!(a, b, "two deposits sharing an address would comingle their funds");
}

#[test]
fn a_different_secret_derives_a_different_address_for_the_same_id() {
    let id = unused_id();
    let a = derived_address(&EscrowSecret::generate(), id);
    let b = derived_address(&EscrowSecret::generate(), id);
    assert_ne!(a, b, "the id alone must not determine the address");
}

#[test]
fn generate_and_save_then_load_reads_back_the_same_secret() {
    let mut file: Vec<u8> = Vec::new();
    let created = EscrowSecret::generate_and_save(|bytes: &[u8; 32]| {
        file = bytes.to_vec();
        Ok::<(), String>(())
    })
    .ok()
    .unwrap();
    let reloaded = EscrowSecret::load(&file).ok().unwrap();

    let id = unused_id();
    assert_eq!(
        derived_address(&created, id),
        derived_address(&reloaded, id),
        "a restarted hub must derive the same addresses it handed out before"
    );
}

#[test]
fn refuses_a_secret_file_of_the_wrong_length() {
    let err = EscrowSecret::load(b"too short").err().unwrap();
    assert_eq!(err.found, 9);
    assert_eq!(
        err.message("hub.key"),
        "escrow secret at hub.key must be exactly 32 bytes, found 9 -- refusing to start rather than derive escrow \
         addresses from a truncated or unrelated file"
    );
}

#[test]
fn a_secret_that_cannot_be_saved_is_not_handed_out() {
    let refused = EscrowSecret::generate_and_save(|_: &[u8; 32]| Err::<(), String>("disk full".to_string()));
    assert_eq!(refused.err(), Some("disk full".to_string()));
}

/// The key of a fixed deposit under a fixed secret, worked out with HKDF
/// directly.
#[test]
fn a_deposit_key_is_expanded_from_the_secret_and_the_id() {
    let bytes: [u8; 32] = [7; 32];
    let secret = EscrowSecret::load(&bytes).ok().unwrap();
    let id: Id = 0x0123_4567_89ab_cdef_0123_4567_89ab_cdef;

    let mut info = b"itx-hub-escrow-deposit-v1".to_vec();
    info.extend_from_slice(&id.to_be_bytes());
    info.push(0);
    let mut scalar = [0u8; 32];
    hkdf::Hkdf::<sha2::Sha256>::new(Some(b"itx-hub-escrow-secret-v1"), &bytes)
        .expand(&info, &mut scalar)
        .unwrap();
    let hi = u128::from_be_bytes(scalar[..16].try_into().unwrap());
    let lo = u128::from_be_bytes(scalar[16..].try_into().unwrap());

    assert!(secret.derive(id) == Some(PrivateKey { hi, lo }));
}

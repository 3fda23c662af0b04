//! The hub's master escrow secret, and the key of each deposit's address,
//! which is derived from it.
use crate::text::{dec, decimal};
use crate::types::{be_bytes, be_value, push_be_bytes, read_be, Id, PrivateKey};
use vstd::prelude::*;
use vstd::string::*;

verus! {

/// Length of the master secret, and of each derived scalar.
pub const SECRET_LEN: usize = 32;

/// The salt of every derivation, `itx-hub-escrow-secret-v1`: it keeps this use
/// of the secret apart from any other.
pub const HKDF_SALT: [u8; 24] = [
    105, 116, 120, 45, 104, 117, 98, 45, 101, 115, 99, 114, 111, 119, 45, 115, 101, 99, 114, 101, 116, 45, 118, 49,
];

/// How every derivation's context begins, `itx-hub-escrow-deposit-v1`.
pub const HKDF_INFO_PREFIX: [u8; 25] = [
    105, 116, 120, 45, 104, 117, 98, 45, 101, 115, 99, 114, 111, 119, 45, 100, 101, 112, 111, 115, 105, 116, 45, 118,
    49,
];

/// The upper half of the order of secp256k1.
pub const CURVE_ORDER_HI: u128 = 0xFFFF_FFFF_FFFF_FFFF_FFFF_FFFF_FFFF_FFFE;

/// The lower half of the order of secp256k1.
pub const CURVE_ORDER_LO: u128 = 0xBAAE_DCE6_AF48_A03B_BFD2_5E8C_D036_4141;

/// The first thirty-two bytes that HKDF over SHA-256 gives for a salt, a key
/// and a context.
pub uninterp spec fn hkdf_sha256(salt: Seq<u8>, key: Seq<u8>, info: Seq<u8>) -> Seq<u8>;

/// Calls `hkdf::Hkdf::<sha2::Sha256>::new` with the salt and the key, and
/// `expand` with the context for thirty-two bytes, which is within what it
/// gives out. The bytes depend on the three arguments alone.
#[verifier::external_body]
fn hkdf_block(salt: &[u8], key: &[u8], info: &[u8]) -> (okm: [u8; 32])
    ensures
        okm@ == hkdf_sha256(salt@, key@, info@),
{
    let hkdf = hkdf::Hkdf::<sha2::Sha256>::new(Some(salt), key);
    let mut okm = [0u8; 32];
    hkdf.expand(info, &mut okm).expect("32 bytes are far below the 8160 that HKDF-SHA256 gives out");
    okm
}

/// Calls `fill_bytes` of `rand::thread_rng`: thirty-two bytes left to chance.
#[verifier::external_body]
pub(crate) fn random_bytes() -> (bytes: [u8; 32]) {
    let mut bytes = [0u8; 32];
    rand::RngCore::fill_bytes(&mut rand::thread_rng(), &mut bytes);
    bytes
}

/// The context of the `counter`-th try at a deposit's key.
pub open spec fn derivation_info(deposit_id: Id, counter: int) -> Seq<u8> {
    HKDF_INFO_PREFIX@ + be_bytes(deposit_id) + seq![counter as u8]
}

/// The thirty-two bytes of the `counter`-th try at a deposit's key.
pub open spec fn candidate(secret: Seq<u8>, deposit_id: Id, counter: int) -> Seq<u8> {
    hkdf_sha256(HKDF_SALT@, secret, derivation_info(deposit_id, counter))
}

/// The key that thirty-two bytes spell, the most significant first.
pub open spec fn key_of(bytes: Seq<u8>) -> PrivateKey {
    PrivateKey { hi: be_value(bytes.take(16)) as u128, lo: be_value(bytes.skip(16)) as u128 }
}

/// Whether a key is a scalar of the curve: neither nothing, nor as much as
/// the curve's order.
pub open spec fn is_scalar(key: PrivateKey) -> bool {
    &&& key.hi > 0 || key.lo > 0
    &&& key.hi < CURVE_ORDER_HI || (key.hi == CURVE_ORDER_HI && key.lo < CURVE_ORDER_LO)
}

/// The first key that is a scalar, from the `counter`-th try on.
pub open spec fn derived_from(secret: Seq<u8>, deposit_id: Id, counter: int) -> Option<PrivateKey>
    decreases 256 - counter,
{
    if counter > 255 {
        None
    } else if is_scalar(key_of(candidate(secret, deposit_id, counter))) {
        Some(key_of(candidate(secret, deposit_id, counter)))
    } else {
        derived_from(secret, deposit_id, counter + 1)
    }
}

/// A deposit's key: the first of two hundred and fifty-six tries that is a
/// scalar of the curve.
pub open spec fn derived(secret: Seq<u8>, deposit_id: Id) -> Option<PrivateKey> {
    derived_from(secret, deposit_id, 0)
}

/// The hub's master escrow secret: the one input, besides a deposit's own
/// id, needed to reproduce any escrow key the hub has ever handed out. It is
/// never shown.
pub struct EscrowSecret([u8; SECRET_LEN]);

/// A secret of the wrong length.
#[derive(Debug, Clone, Copy, PartialEq, Eq, Structural)]
pub struct WrongSecretLength {
    pub found: usize,
}

impl WrongSecretLength {
    /// What to say of the file at `path`.
    pub fn message(&self, path: &str) -> (text: String)
        ensures
            text@ == "escrow secret at "@ + path@ + " must be exactly 32 bytes, found "@ + dec(self.found as nat)
                + " -- refusing to start rather than derive escrow addresses from a truncated or unrelated file"@,
    {
        let mut text = String::new();
        text.append("escrow secret at ");
        text.append(path);
        text.append(" must be exactly 32 bytes, found ");
        text.append(decimal(self.found as u64).as_str());
        text.append(" -- refusing to start rather than derive escrow addresses from a truncated or unrelated file");
        assert(text@ =~= "escrow secret at "@ + path@ + " must be exactly 32 bytes, found "@ + dec(self.found as nat)
            + " -- refusing to start rather than derive escrow addresses from a truncated or unrelated file"@);
        text
    }
}

impl View for EscrowSecret {
    type V = Seq<u8>;

    closed spec fn view(&self) -> Seq<u8> {
        self.0@
    }
}

impl EscrowSecret {
    /// A secret left to chance.
    pub fn generate() -> (secret: Self)
        ensures
            secret@.len() == SECRET_LEN,
    {
        EscrowSecret(random_bytes())
    }

    /// The secret that a file of those bytes holds, which must be of the
    /// length of a secret.
    pub fn load(bytes: &[u8]) -> (r: Result<Self, WrongSecretLength>)
        ensures
            match r {
                Ok(secret) => bytes@.len() == SECRET_LEN && secret@ == bytes@,
                Err(e) => bytes@.len() != SECRET_LEN && e.found == bytes@.len(),
            },
    {
        if bytes.len() != SECRET_LEN {
            return Err(WrongSecretLength { found: bytes.len() });
        }
        let mut secret = [0u8; 32];
        let mut i: usize = 0;
        while i < SECRET_LEN
            invariant
                i <= SECRET_LEN,
                bytes@.len() == SECRET_LEN,
                secret@.len() == SECRET_LEN,
                forall|j: int| 0 <= j < i ==> secret@[j] == bytes@[j],
            decreases SECRET_LEN - i,
        {
            secret[i] = bytes[i];
            i += 1;
        }
        assert(secret@ =~= bytes@);
        Ok(EscrowSecret(secret))
    }

    /// Generates a secret and hands its bytes to `save`, which has to keep
    /// them; a secret that could not be kept is not given out.
    pub fn generate_and_save<E, F: FnOnce(&[u8; 32]) -> Result<(), E>>(save: F) -> (r: Result<Self, E>)
        requires
            forall|bytes: [u8; 32]| save.requires((&bytes,)),
        ensures
            exists|bytes: [u8; 32], outcome: Result<(), E>| #[trigger]
                save.ensures((&bytes,), outcome) && match outcome {
                    Ok(_) => r is Ok && r->Ok_0@ == bytes@,
                    Err(e) => r == Result::<Self, E>::Err(e),
                },
    {
        let secret = Self::generate();
        let ghost bytes = secret.0;
        let outcome = save(&secret.0);
        assert(save.ensures((&bytes,), outcome));
        match outcome {
            Ok(()) => Ok(secret),
            Err(e) => Err(e),
        }
    }

    /// The key controlling `deposit_id`'s escrow address. It is the same for
    /// the same id every time. `None` if two hundred and fifty-six tries in a
    /// row fall outside the curve's scalars.
    pub fn derive(&self, deposit_id: Id) -> (key: Option<PrivateKey>)
        ensures
            key == derived(self@, deposit_id),
    {
        let mut counter: u16 = 0;
        while counter <= 255
            invariant
                counter <= 256,
                derived(self@, deposit_id) == derived_from(self@, deposit_id, counter as int),
            decreases 256 - counter,
        {
            let mut info: Vec<u8> = Vec::new();
            push_all(&mut info, &HKDF_INFO_PREFIX);
            push_be_bytes(&mut info, deposit_id);
            info.push(counter as u8);
            assert(info@ =~= derivation_info(deposit_id, counter as int));
            let okm = hkdf_block(&HKDF_SALT, &self.0, info.as_slice());
            assert(okm@ == candidate(self@, deposit_id, counter as int));
            assert(okm@.skip(0).take(16) =~= okm@.take(16));
            assert(okm@.skip(16).take(16) =~= okm@.skip(16));
            let key = PrivateKey { hi: read_be(&okm, 0), lo: read_be(&okm, 16) };
            if (key.hi > 0 || key.lo > 0) && (key.hi < CURVE_ORDER_HI || (key.hi == CURVE_ORDER_HI && key.lo
                < CURVE_ORDER_LO)) {
                return Some(key);
            }
            counter += 1;
        }
        None
    }
}

/// Appends `bytes` to `out`.
pub(crate) fn push_all(out: &mut Vec<u8>, bytes: &[u8])
    ensures
        final(out)@ == old(out)@ + bytes@,
{
    let mut i: usize = 0;
    while i < bytes.len()
        invariant
            i <= bytes@.len(),
            out@ == old(out)@ + bytes@.take(i as int),
        decreases bytes@.len() - i,
    {
        out.push(bytes[i]);
        i += 1;
        assert(out@ =~= old(out)@ + bytes@.take(i as int));
    }
    assert(bytes@.take(i as int) =~= bytes@);
}

/// A deposit's key is a scalar of the curve.
pub proof fn lemma_derived_is_scalar(secret: Seq<u8>, deposit_id: Id, counter: int)
    ensures
        derived_from(secret, deposit_id, counter) is Some ==> is_scalar(
            derived_from(secret, deposit_id, counter)->0,
        ),
    decreases 256 - counter,
{
    if counter <= 255 && !is_scalar(key_of(candidate(secret, deposit_id, counter))) {
        lemma_derived_is_scalar(secret, deposit_id, counter + 1);
    }
}

}

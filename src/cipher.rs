//! The per-connection session key and the block cipher keyed by it.
use aria::cipher::{BlockCipherDecrypt, BlockCipherEncrypt, KeyInit};
use rand::Rng;
use vstd::prelude::*;

use crate::masking::Block;

verus! {

/// Length of a session key in bytes.
pub const SESSION_KEY_LEN: usize = 9;

/// ARIA-256 encryption of one block under a 32-byte key.
pub uninterp spec fn aria256_encrypt(key: Seq<u8>, block: Seq<u8>) -> Seq<u8>;

/// ARIA-256 decryption of one block under a 32-byte key.
pub uninterp spec fn aria256_decrypt(key: Seq<u8>, block: Seq<u8>) -> Seq<u8>;

/// Relies on aria::Aria256 (`KeyInit::new`, `BlockCipherEncrypt::encrypt_block`):
/// the ciphertext depends on key and block alone, and decrypting it under the
/// same key gives the block back.
#[verifier::external_body]
fn aria_encrypt(key: &[u8; 32], block: &Block) -> (r: Block)
    ensures
        r@ == aria256_encrypt(key@, block@),
        aria256_decrypt(key@, r@) == block@,
{
    let c = aria::Aria256::new(&aria::cipher::Array::from(*key));
    let mut b = aria::cipher::Array::from(*block);
    c.encrypt_block(&mut b);
    b.into()
}

/// Relies on aria::Aria256 (`KeyInit::new`, `BlockCipherDecrypt::decrypt_block`):
/// the plaintext depends on key and block alone.
#[verifier::external_body]
fn aria_decrypt(key: &[u8; 32], block: &Block) -> (r: Block)
    ensures
        r@ == aria256_decrypt(key@, block@),
{
    let c = aria::Aria256::new(&aria::cipher::Array::from(*key));
    let mut b = aria::cipher::Array::from(*block);
    c.decrypt_block(&mut b);
    b.into()
}

/// Relies on rand::random::<bool>: a fair coin; nothing is known of the outcome.
#[verifier::external_body]
fn random_bool() -> (r: bool) {
    rand::random::<bool>()
}

/// Relies on rand::Rng::gen_range on the thread-local generator: a value in
/// the inclusive range (the range must not be empty).
#[verifier::external_body]
fn random_in(lo: u8, hi: u8) -> (r: u8)
    requires
        lo <= hi,
    ensures
        lo <= r <= hi,
{
    rand::thread_rng().gen_range(lo..=hi)
}

pub open spec fn is_ascii_letter(b: u8) -> bool {
    (0x61 <= b <= 0x7a) || (0x41 <= b <= 0x5a)
}

/// The 32-byte cipher key that a session key expands to: the key's bytes,
/// then zeros.
pub open spec fn expanded_key(k: Seq<u8>) -> Seq<u8> {
    k + Seq::new((32 - k.len()) as nat, |i: int| 0u8)
}

/// A session key: nine ASCII letters, fixed once made.
pub struct SessionKey {
    bytes: [u8; 9],
}

impl View for SessionKey {
    type V = Seq<u8>;

    closed spec fn view(&self) -> Seq<u8> {
        self.bytes@
    }
}

impl SessionKey {
    pub open spec fn wf(&self) -> bool {
        forall|i: int| 0 <= i < 9 ==> #[trigger] is_ascii_letter(self@[i])
    }

    /// A key from nine given bytes; `None` unless all are ASCII letters.
    pub fn from_bytes(bytes: [u8; 9]) -> (r: Option<SessionKey>)
        ensures
            r is Some <==> forall|i: int| 0 <= i < 9 ==> #[trigger] is_ascii_letter(bytes@[i]),
            r matches Some(k) ==> k@ == bytes@ && k.wf(),
    {
        let mut i: usize = 0;
        while i < 9
            invariant
                0 <= i <= 9,
                forall|j: int| 0 <= j < i ==> #[trigger] is_ascii_letter(bytes@[j]),
            decreases 9 - i,
        {
            let b = bytes[i];
            if !((0x61 <= b && b <= 0x7a) || (0x41 <= b && b <= 0x5a)) {
                assert(!is_ascii_letter(bytes@[i as int]));
                return None;
            }
            i = i + 1;
        }
        Some(SessionKey { bytes })
    }

    /// A fresh key of nine random letters, each lower or upper case at random.
    pub fn generate() -> (r: SessionKey)
        ensures
            r.wf(),
    {
        let mut bytes: [u8; 9] = [0u8; 9];
        let mut i: usize = 0;
        while i < 9
            invariant
                0 <= i <= 9,
                bytes@.len() == 9,
                forall|j: int| 0 <= j < i ==> #[trigger] is_ascii_letter(bytes@[j]),
            decreases 9 - i,
        {
            let b = if random_bool() {
                random_in(0x61, 0x7a)
            } else {
                random_in(0x41, 0x5a)
            };
            bytes[i] = b;
            i = i + 1;
        }
        SessionKey { bytes }
    }

    /// The key's bytes.
    pub fn bytes(&self) -> (r: [u8; 9])
        ensures
            r@ == self@,
    {
        self.bytes
    }

    /// The 32-byte cipher key this session key expands to.
    pub fn expand(&self) -> (r: [u8; 32])
        ensures
            r@ == expanded_key(self@),
    {
        let mut k: [u8; 32] = [0u8; 32];
        let mut i: usize = 0;
        while i < 9
            invariant
                0 <= i <= 9,
                k@.len() == 32,
                self@.len() == 9,
                forall|j: int| 0 <= j < i ==> k@[j] == self@[j],
                forall|j: int| i <= j < 32 ==> k@[j] == 0u8,
            decreases 9 - i,
        {
            k[i] = self.bytes[i];
            i = i + 1;
        }
        assert(k@ =~= expanded_key(self@));
        k
    }

    /// Encrypts one block with the key's expansion.
    pub fn encrypt_block(&self, block: &Block) -> (r: Block)
        ensures
            r@ == aria256_encrypt(expanded_key(self@), block@),
            aria256_decrypt(expanded_key(self@), r@) == block@,
    {
        let k = self.expand();
        aria_encrypt(&k, block)
    }

    /// Decrypts one block with the key's expansion.
    pub fn decrypt_block(&self, block: &Block) -> (r: Block)
        ensures
            r@ == aria256_decrypt(expanded_key(self@), block@),
    {
        let k = self.expand();
        aria_decrypt(&k, block)
    }
}

/// Keys with the same bytes expand to the same cipher key, and so to the same
/// encryption and decryption of every block.
pub proof fn lemma_key_determinism(k1: SessionKey, k2: SessionKey)
    requires
        k1@ == k2@,
    ensures
        expanded_key(k1@) == expanded_key(k2@),
        forall|b: Seq<u8>|
            #[trigger] aria256_encrypt(expanded_key(k1@), b) == aria256_encrypt(
                expanded_key(k2@),
                b,
            ),
        forall|b: Seq<u8>|
            #[trigger] aria256_decrypt(expanded_key(k1@), b) == aria256_decrypt(
                expanded_key(k2@),
                b,
            ),
{
}

} // verus!

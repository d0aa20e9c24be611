//! The key cache that authentication reads.
use crate::auth::AuthError;
use vstd::prelude::*;

verus! {

/// The public keys that tokens are checked against: pairs of key id and
/// EdDSA public key in PEM form, in the order they were cached.
pub struct Cache {
    pub pubkeys: Vec<(i32, String)>,
}

/// The position of the first key with id `id` among `keys`, or `keys.len()`
/// where there is none.
pub open spec fn first_key_pos(keys: Seq<(i32, String)>, id: i32) -> int
    decreases keys.len(),
{
    if keys.len() == 0 {
        0
    } else if keys[0].0 == id {
        0
    } else {
        1 + first_key_pos(keys.drop_first(), id)
    }
}

proof fn lemma_first_key_pos(keys: Seq<(i32, String)>, id: i32, p: int)
    requires
        0 <= p <= keys.len(),
        p < keys.len() ==> keys[p].0 == id,
        forall|i: int| 0 <= i < p ==> keys[i].0 != id,
    ensures
        first_key_pos(keys, id) == p,
    decreases keys.len(),
{
    if keys.len() > 0 && p > 0 {
        let t = keys.drop_first();
        assert forall|i: int| 0 <= i < p - 1 implies t[i].0 != id by {
            assert(t[i] == keys[i + 1]);
        }
        lemma_first_key_pos(t, id, p - 1);
    }
}

/// `jsonwebtoken::DecodingKey`, a key that token signatures are checked
/// with.
#[verifier::external_type_specification]
#[verifier::external_body]
pub struct ExDecodingKey(jsonwebtoken::DecodingKey);

/// Whether a text is an EdDSA public key in PEM form.
pub uninterp spec fn ed_pem_key_valid(pem: Seq<char>) -> bool;

/// A key that checks EdDSA signatures, with the PEM text it was read from.
pub struct EdKey {
    key: jsonwebtoken::DecodingKey,
    pem: Ghost<Seq<char>>,
}

impl EdKey {
    /// The PEM text the key was read from.
    pub closed spec fn source(self) -> Seq<char> {
        self.pem@
    }

    /// The key itself.
    pub closed spec fn decoding(self) -> jsonwebtoken::DecodingKey {
        self.key
    }

    /// The key that checks signatures.
    pub fn decoding_key(&self) -> (res: &jsonwebtoken::DecodingKey)
        ensures
            *res == self.decoding(),
    {
        &self.key
    }
}

/// `DecodingKey::from_ed_pem` on the bytes of a text. The contract ties its
/// success to the text through `ed_pem_key_valid`, and records that the key
/// it builds was read from that text.
#[verifier::external_body]
fn ed_key_from_pem(pem: &str) -> (res: Result<EdKey, jsonwebtoken::errors::Error>)
    ensures
        res is Ok <==> ed_pem_key_valid(pem@),
        res matches Ok(k) ==> k.source() == pem@,
{
    match jsonwebtoken::DecodingKey::from_ed_pem(pem.as_bytes()) {
        Ok(key) => Ok(EdKey { key, pem: Ghost(pem@) }),
        Err(e) => Err(e),
    }
}

impl Cache {
    /// An empty cache.
    pub fn new() -> (res: Self)
        ensures
            res.pubkeys@.len() == 0,
    {
        Cache { pubkeys: Vec::new() }
    }

    /// The public key cached under `id` (the first one with that id), with
    /// the key that checks signatures made with it.
    pub fn get_pubkey(&self, id: i32) -> (res: Result<(String, EdKey), AuthError>)
        ensures
            ({
                let p = first_key_pos(self.pubkeys@, id);
                if p >= self.pubkeys@.len() {
                    res == Err::<(String, EdKey), AuthError>(AuthError::UnknownKey)
                } else if !ed_pem_key_valid(self.pubkeys@[p].1@) {
                    res == Err::<(String, EdKey), AuthError>(AuthError::InvalidKey)
                } else {
                    res is Ok && res->Ok_0.0 == self.pubkeys@[p].1
                        && res->Ok_0.1.source() == self.pubkeys@[p].1@
                }
            }),
    {
        let mut i: usize = 0;
        while i < self.pubkeys.len()
            invariant
                i <= self.pubkeys@.len(),
                forall|j: int| 0 <= j < i ==> self.pubkeys@[j].0 != id,
            decreases self.pubkeys@.len() - i,
        {
            if self.pubkeys[i].0 == id {
                proof {
                    lemma_first_key_pos(self.pubkeys@, id, i as int);
                }
                let pem = self.pubkeys[i].1.clone();
                return match ed_key_from_pem(pem.as_str()) {
                    Ok(key) => Ok((pem, key)),
                    Err(_) => Err(AuthError::InvalidKey),
                };
            }
            i = i + 1;
        }
        proof {
            lemma_first_key_pos(self.pubkeys@, id, i as int);
        }
        Err(AuthError::UnknownKey)
    }
}

} // verus!

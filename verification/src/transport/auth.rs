//! Authentication by Ed25519 challenge and response.
//!
//! The primary sends a nonce; the replica signs it. The key must be listed,
//! carry the replication permission and have made the signature.

use ed25519_dalek::{Signature, Signer, SigningKey, Verifier, VerifyingKey};
use vstd::prelude::*;
use vstd::string::StringExecFns;

use crate::text::{decimal, decimal_string};

verus! {

/// What a listed key may do.
#[derive(Clone, Copy, Debug, PartialEq, Eq, Structural)]
pub enum Permission {
    Trader,
    Operator,
    Custodian,
    Replication,
}

/// The name of a permission.
pub open spec fn permission_name(p: Permission) -> Seq<char> {
    match p {
        Permission::Trader => "Trader"@,
        Permission::Operator => "Operator"@,
        Permission::Custodian => "Custodian"@,
        Permission::Replication => "Replication"@,
    }
}

impl Permission {
    /// Whether the permission lets a replica connect.
    pub fn is_replication(&self) -> (b: bool)
        ensures
            b == (*self == Permission::Replication),
    {
        match self {
            Permission::Replication => true,
            _ => false,
        }
    }

    /// The name of the permission.
    pub fn name(&self) -> (s: String)
        ensures
            s@ == permission_name(*self),
    {
        match self {
            Permission::Trader => "Trader".to_owned(),
            Permission::Operator => "Operator".to_owned(),
            Permission::Custodian => "Custodian".to_owned(),
            Permission::Replication => "Replication".to_owned(),
        }
    }
}

/// Public keys and what they may do.
#[derive(Debug)]
pub struct AuthorizedKeys {
    entries: Vec<([u8; 32], Permission)>,
}

/// The entry that decides a key: the first that lists it.
spec fn listed(entries: Seq<([u8; 32], Permission)>, key: Seq<u8>) -> Option<Permission>
    decreases entries.len(),
{
    if entries.len() == 0 {
        None
    } else if entries[0].0@ == key {
        Some(entries[0].1)
    } else {
        listed(entries.skip(1), key)
    }
}

impl AuthorizedKeys {
    /// What a key may do, where it is listed.
    pub closed spec fn permission(&self, key: Seq<u8>) -> Option<Permission> {
        listed(self.entries@, key)
    }

    /// A table without keys.
    pub fn new() -> (keys: AuthorizedKeys)
        ensures
            forall|key: Seq<u8>| #[trigger] keys.permission(key) is None,
    {
        AuthorizedKeys { entries: Vec::new() }
    }

    /// Lists a key. An earlier entry for it gives way.
    pub fn authorize(&mut self, key: [u8; 32], permission: Permission)
        ensures
            forall|k: Seq<u8>| #[trigger]
                final(self).permission(k) == (if k == key@ {
                    Some(permission)
                } else {
                    old(self).permission(k)
                }),
            forall|found: Option<Permission>|
                call_ensures(AuthorizedKeys::lookup, (&*final(self), &key), found) ==> found
                    == Some(permission),
            forall|other: [u8; 32], before: Option<Permission>, found: Option<Permission>|
                other@ != key@ && #[trigger] call_ensures(
                    AuthorizedKeys::lookup,
                    (&*old(self), &other),
                    before,
                ) && #[trigger] call_ensures(
                    AuthorizedKeys::lookup,
                    (&*final(self), &other),
                    found,
                ) ==> found == before,
    {
        let ghost before = self.entries@;
        self.entries.insert(0, (key, permission));
        proof {
            assert(self.entries@.skip(1) =~= before);
        }
    }

    /// What a key may do, where it is listed.
    pub fn lookup(&self, key: &[u8; 32]) -> (p: Option<Permission>)
        ensures
            p == self.permission(key@),
    {
        let mut i: usize = 0;
        assert(self.entries@.skip(0) =~= self.entries@);
        while i < self.entries.len()
            invariant
                0 <= i <= self.entries@.len(),
                listed(self.entries@.skip(i as int), key@) == listed(self.entries@, key@),
            decreases self.entries@.len() - i,
        {
            assert(self.entries@.skip(i as int).skip(1) =~= self.entries@.skip(i + 1));
            let entry = self.entries[i];
            if same_key(&entry.0, key) {
                return Some(entry.1);
            }
            i = i + 1;
        }
        None
    }
}

fn same_key(a: &[u8; 32], b: &[u8; 32]) -> (r: bool)
    ensures
        r == (a@ == b@),
{
    let mut i: usize = 0;
    while i < 32
        invariant
            0 <= i <= 32,
            forall|j: int| 0 <= j < i ==> a@[j] == b@[j],
        decreases 32 - i,
    {
        if a[i] != b[i] {
            return false;
        }
        i = i + 1;
    }
    assert(a@ =~= b@);
    true
}

/// Names why 32 bytes are no Ed25519 public key, as
/// `VerifyingKey::from_bytes` reports it; `None` where they are one.
pub uninterp spec fn public_key_error(key: Seq<u8>) -> Option<Seq<char>>;

/// Names why a signature over a message is not that of a public key, as
/// `VerifyingKey::verify` reports it; `None` where it is.
pub uninterp spec fn signature_error(key: Seq<u8>, message: Seq<u8>, signature: Seq<u8>) -> Option<
    Seq<char>,
>;

/// Names the public key of a 32-byte seed, as `SigningKey::verifying_key`
/// derives it.
pub uninterp spec fn public_key_of(seed: Seq<u8>) -> Seq<u8>;

/// Names the signature of a seed's key over a message, as `SigningKey::sign`
/// makes it.
pub uninterp spec fn signature_of(seed: Seq<u8>, message: Seq<u8>) -> Seq<u8>;

/// `VerifyingKey::from_bytes` accepts the encoding of a curve point and
/// reports why it does not accept other bytes.
#[verifier::external_body]
fn check_public_key(key: &[u8; 32]) -> (r: Result<(), String>)
    ensures
        match r {
            Ok(()) => public_key_error(key@) is None,
            Err(e) => public_key_error(key@) == Some(e@),
        },
{
    VerifyingKey::from_bytes(key).map(|_| ()).map_err(|e| e.to_string())
}

/// `VerifyingKey::verify` accepts the key's own signatures over the message
/// and reports why it does not accept others. The bytes are a public key.
#[verifier::external_body]
fn check_signature(key: &[u8; 32], message: &[u8; 32], signature: &[u8; 64]) -> (r: Result<
    (),
    String,
>)
    requires
        public_key_error(key@) is None,
    ensures
        match r {
            Ok(()) => signature_error(key@, message@, signature@) is None,
            Err(e) => signature_error(key@, message@, signature@) == Some(e@),
        },
{
    VerifyingKey::from_bytes(key)
        .and_then(|k| k.verify(message, &Signature::from_bytes(signature)))
        .map_err(|e| e.to_string())
}

/// `SigningKey::verifying_key` derives the public key of a seed, which is a
/// valid one.
#[verifier::external_body]
pub(crate) fn derive_public_key(seed: &[u8; 32]) -> (key: [u8; 32])
    ensures
        key@ == public_key_of(seed@),
        public_key_error(key@) is None,
{
    SigningKey::from_bytes(seed).verifying_key().to_bytes()
}

/// `SigningKey::sign` signs a message with the key of a seed; the seed's
/// public key accepts the signature.
#[verifier::external_body]
fn sign(seed: &[u8; 32], message: &[u8; 32]) -> (signature: [u8; 64])
    ensures
        signature@ == signature_of(seed@, message@),
        signature_error(public_key_of(seed@), message@, signature@) is None,
{
    SigningKey::from_bytes(seed).sign(message).to_bytes()
}

/// `getrandom::fill` fills a buffer with random bytes, or reports why the
/// system has none.
#[verifier::external_body]
fn random_bytes() -> (r: Result<[u8; 32], String>) {
    let mut nonce = [0u8; 32];
    getrandom::fill(&mut nonce).map(|_| nonce).map_err(|e| e.to_string())
}

/// What a drawing of random bytes gives as a nonce.
pub fn challenge_nonce(drawn: Result<[u8; 32], String>) -> (r: Result<[u8; 32], String>)
    ensures
        match drawn {
            Ok(nonce) => r == Ok::<[u8; 32], String>(nonce),
            Err(e) => r is Err && r->Err_0@ == "getrandom failed: "@ + e@,
        },
{
    match drawn {
        Ok(nonce) => Ok(nonce),
        Err(e) => {
            let mut text: String = "getrandom failed: ".to_owned();
            text.append(e.as_str());
            Err(text)
        },
    }
}

/// A fresh challenge nonce: the bytes that a drawing gave, or why it gave none.
pub fn generate_challenge_nonce() -> (r: Result<[u8; 32], String>)
    ensures
        exists|drawn: Result<[u8; 32], String>| #[trigger]
            is_drawing(drawn) && match drawn {
                Ok(nonce) => r == Ok::<[u8; 32], String>(nonce),
                Err(e) => r is Err && r->Err_0@ == "getrandom failed: "@ + e@,
            },
{
    let drawn = random_bytes();
    let ghost made = drawn;
    let r = challenge_nonce(drawn);
    assert(is_drawing(made));
    r
}

/// Whether a drawing of random bytes may come out like this.
pub closed spec fn is_drawing(drawn: Result<[u8; 32], String>) -> bool {
    call_ensures(random_bytes, (), drawn)
}

/// A decoded answer to a challenge.
#[derive(Clone, Copy, Debug)]
pub struct ChallengeResponse {
    pub signature: [u8; 64],
    pub pubkey: [u8; 32],
}

/// Why an answer to a challenge is refused; `None` where it is accepted.
/// `decoded` is what the frame's decoder made of the answer, or its error.
pub open spec fn response_error(
    nonce: Seq<u8>,
    decoded: Result<ChallengeResponse, Seq<char>>,
    keys: AuthorizedKeys,
) -> Option<Seq<char>> {
    match decoded {
        Err(e) => Some("bad challenge response: "@ + e),
        Ok(response) => match keys.permission(response.pubkey@) {
            None => Some("unknown replication key"@),
            Some(p) => if p != Permission::Replication {
                Some("key has "@ + permission_name(p) + " permission, expected Replication"@)
            } else {
                match public_key_error(response.pubkey@) {
                    Some(e) => Some("invalid public key: "@ + e),
                    None => match signature_error(
                        response.pubkey@,
                        nonce,
                        response.signature@,
                    ) {
                        Some(e) => Some("signature verification failed: "@ + e),
                        None => None,
                    },
                }
            },
        },
    }
}

/// The text of a decoder's error.
pub open spec fn decoded_text(decoded: Result<ChallengeResponse, String>) -> Result<
    ChallengeResponse,
    Seq<char>,
> {
    match decoded {
        Ok(response) => Ok(response),
        Err(e) => Err(e@),
    }
}

fn prefixed(prefix: &str, e: &String) -> (s: String)
    ensures
        s@ == prefix@ + e@,
{
    let mut s: String = prefix.to_owned();
    s.append(e.as_str());
    s
}

/// What is made of the check of a listed key.
pub fn key_verdict(checked: Result<(), String>) -> (r: Result<(), String>)
    ensures
        match checked {
            Ok(()) => r == Ok::<(), String>(()),
            Err(e) => r is Err && r->Err_0@ == "invalid public key: "@ + e@,
        },
{
    match checked {
        Ok(()) => Ok(()),
        Err(e) => Err(prefixed("invalid public key: ", &e)),
    }
}

/// What is made of the check of a signature by a valid key.
pub fn signature_verdict(verified: Result<(), String>) -> (r: Result<(), String>)
    ensures
        match verified {
            Ok(()) => r == Ok::<(), String>(()),
            Err(e) => r is Err && r->Err_0@ == "signature verification failed: "@ + e@,
        },
{
    match verified {
        Ok(()) => Ok(()),
        Err(e) => Err(prefixed("signature verification failed: ", &e)),
    }
}

/// Checks an answer to a challenge.
pub fn verify_challenge_response(
    nonce: &[u8; 32],
    decoded: Result<ChallengeResponse, String>,
    authorized_keys: &AuthorizedKeys,
) -> (r: Result<(), String>)
    ensures
        match response_error(nonce@, decoded_text(decoded), *authorized_keys) {
            None => r == Ok::<(), String>(()),
            Some(e) => r is Err && r->Err_0@ == e,
        },
{
    let response = match decoded {
        Ok(response) => response,
        Err(e) => return Err(prefixed("bad challenge response: ", &e)),
    };
    let permission = match authorized_keys.lookup(&response.pubkey) {
        Some(permission) => permission,
        None => return Err("unknown replication key".to_owned()),
    };
    if !permission.is_replication() {
        let mut text: String = "key has ".to_owned();
        text.append(permission.name().as_str());
        text.append(" permission, expected Replication");
        return Err(text);
    }
    if let Err(e) = key_verdict(check_public_key(&response.pubkey)) {
        return Err(e);
    }
    signature_verdict(check_signature(&response.pubkey, nonce, &response.signature))
}

/// What the primary tells the replica about its answer.
#[derive(Clone, Copy, Debug, PartialEq, Eq, Structural)]
pub enum AuthNotice {
    AuthOk,
    AuthFailed,
}

/// The primary's side once an answer was checked: what to tell the replica.
pub fn notice_for(verdict: &Result<(), String>) -> (notice: AuthNotice)
    ensures
        notice == (if verdict is Ok {
            AuthNotice::AuthOk
        } else {
            AuthNotice::AuthFailed
        }),
{
    match verdict {
        Ok(()) => AuthNotice::AuthOk,
        Err(_) => AuthNotice::AuthFailed,
    }
}

/// The replica's answer to a challenge: the nonce signed with its key.
pub fn answer_challenge(seed: &[u8; 32], nonce: &[u8; 32]) -> (response: ChallengeResponse)
    ensures
        response.signature@ == signature_of(seed@, nonce@),
        response.pubkey@ == public_key_of(seed@),
        public_key_error(response.pubkey@) is None,
        signature_error(response.pubkey@, nonce@, response.signature@) is None,
{
    ChallengeResponse { signature: sign(seed, nonce), pubkey: derive_public_key(seed) }
}

/// The replica's side once the primary answered.
pub fn primary_verdict(accepted: bool) -> (r: Result<(), String>)
    ensures
        accepted ==> r == Ok::<(), String>(()),
        !accepted ==> r is Err && r->Err_0@ == "primary rejected replication key"@,
{
    if accepted {
        Ok(())
    } else {
        Err("primary rejected replication key".to_owned())
    }
}

/// The seed in a key file, which holds exactly its 32 bytes. `place` is how
/// an error names the file.
pub fn load_signing_key(contents: &[u8], place: &str) -> (r: Result<[u8; 32], String>)
    ensures
        if contents@.len() == 32 {
            r is Ok && r->Ok_0@ == contents@
        } else {
            r is Err && r->Err_0@ == "key file must be 32 bytes, got "@ + decimal(
                contents@.len(),
            ) + " ("@ + place@ + ")"@
        },
{
    let n: usize = contents.len();
    if n != 32 {
        let mut text: String = "key file must be 32 bytes, got ".to_owned();
        text.append(decimal_string(n as u64).as_str());
        text.append(" (");
        text.append(place);
        text.append(")");
        return Err(text);
    }
    let mut bytes: [u8; 32] = [0; 32];
    let mut i: usize = 0;
    while i < 32
        invariant
            0 <= i <= 32,
            contents@.len() == 32,
            forall|j: int| 0 <= j < i ==> bytes@[j] == contents@[j],
        decreases 32 - i,
    {
        bytes[i] = contents[i];
        i = i + 1;
    }
    assert(bytes@ =~= contents@);
    Ok(bytes)
}

/// A replica that signs the nonce with a listed replication key is accepted.
pub proof fn law_signed_challenge_is_accepted(
    seed: Seq<u8>,
    nonce: Seq<u8>,
    response: ChallengeResponse,
    keys: AuthorizedKeys,
)
    requires
        response.signature@ == signature_of(seed, nonce),
        response.pubkey@ == public_key_of(seed),
        public_key_error(response.pubkey@) is None,
        signature_error(response.pubkey@, nonce, response.signature@) is None,
        keys.permission(public_key_of(seed)) == Some(Permission::Replication),
    ensures
        response_error(nonce, Ok(response), keys) is None,
{
}

/// Whoever is accepted is listed with the replication permission and sent a
/// signature that the key accepts over this very nonce.
pub proof fn law_accepted_means_listed_and_signed(
    nonce: Seq<u8>,
    response: ChallengeResponse,
    keys: AuthorizedKeys,
)
    requires
        response_error(nonce, Ok(response), keys) is None,
    ensures
        keys.permission(response.pubkey@) == Some(Permission::Replication),
        public_key_error(response.pubkey@) is None,
        signature_error(response.pubkey@, nonce, response.signature@) is None,
{
}

/// A refusal says why: the answer could not be decoded, the key is not listed,
/// it is listed for something else, it is no key, or it did not sign this
/// nonce. The first of these that applies is said.
pub proof fn law_refusal_says_why(
    nonce: Seq<u8>,
    decoded: Result<ChallengeResponse, Seq<char>>,
    keys: AuthorizedKeys,
)
    ensures
        decoded matches Err(e) ==> response_error(nonce, decoded, keys) == Some(
            "bad challenge response: "@ + e,
        ),
        decoded matches Ok(response) ==> match keys.permission(response.pubkey@) {
            None => response_error(nonce, decoded, keys) == Some("unknown replication key"@),
            Some(Permission::Trader) => response_error(nonce, decoded, keys) == Some(
                "key has "@ + "Trader"@ + " permission, expected Replication"@,
            ),
            Some(Permission::Operator) => response_error(nonce, decoded, keys) == Some(
                "key has "@ + "Operator"@ + " permission, expected Replication"@,
            ),
            Some(Permission::Custodian) => response_error(nonce, decoded, keys) == Some(
                "key has "@ + "Custodian"@ + " permission, expected Replication"@,
            ),
            Some(Permission::Replication) => if public_key_error(response.pubkey@) is Some {
                response_error(nonce, decoded, keys) == Some(
                    "invalid public key: "@ + public_key_error(response.pubkey@)->0,
                )
            } else if signature_error(response.pubkey@, nonce, response.signature@) is Some {
                response_error(nonce, decoded, keys) == Some(
                    "signature verification failed: "@ + signature_error(
                        response.pubkey@,
                        nonce,
                        response.signature@,
                    )->0,
                )
            } else {
                response_error(nonce, decoded, keys) is None
            },
        },
{
}

/// A fresh table knows no key.
pub proof fn law_fresh_table_knows_no_key(
    key: [u8; 32],
    fresh: AuthorizedKeys,
    unknown: Option<Permission>,
)
    requires
        call_ensures(AuthorizedKeys::new, (), fresh),
        call_ensures(AuthorizedKeys::lookup, (&fresh, &key), unknown),
    ensures
        unknown is None,
{
}

/// A replica that answers with a key listed for replication is accepted and
/// told so; with a key that is not listed, or listed for something else, it
/// is refused and told so.
pub proof fn law_listed_replica_is_accepted(
    seed: &[u8; 32],
    nonce: &[u8; 32],
    response: ChallengeResponse,
    keys: &AuthorizedKeys,
    listed_as: Option<Permission>,
    verdict: Result<(), String>,
    notice: AuthNotice,
)
    requires
        call_ensures(answer_challenge, (seed, nonce), response),
        call_ensures(AuthorizedKeys::lookup, (keys, &response.pubkey), listed_as),
        call_ensures(
            verify_challenge_response,
            (nonce, Ok::<ChallengeResponse, String>(response), keys),
            verdict,
        ),
        call_ensures(notice_for, (&verdict,), notice),
    ensures
        verdict is Ok <==> listed_as == Some(Permission::Replication),
        notice == AuthNotice::AuthOk <==> verdict is Ok,
        notice == AuthNotice::AuthFailed <==> verdict is Err,
{
}

/// An answer that cannot be decoded, or comes under a key that may not
/// replicate, is refused.
pub proof fn law_only_replication_keys_are_accepted(
    nonce: &[u8; 32],
    decoded: Result<ChallengeResponse, String>,
    keys: &AuthorizedKeys,
    verdict: Result<(), String>,
)
    requires
        call_ensures(verify_challenge_response, (nonce, decoded, keys), verdict),
        verdict is Ok,
    ensures
        decoded matches Ok(response) && keys.permission(response.pubkey@) == Some(
            Permission::Replication,
        ) && public_key_error(response.pubkey@) is None && signature_error(
            response.pubkey@,
            nonce@,
            response.signature@,
        ) is None,
{
}

/// A key file gives back the bytes that it holds, where there are as many as
/// a key has, and is refused otherwise.
pub proof fn law_key_file_holds_the_key(
    contents: &[u8],
    place: &str,
    r: Result<[u8; 32], String>,
    accepted: bool,
    verdict: Result<(), String>,
)
    requires
        call_ensures(load_signing_key, (contents, place), r),
        call_ensures(primary_verdict, (accepted,), verdict),
    ensures
        r is Ok <==> contents@.len() == 32,
        r matches Ok(key) ==> forall|i: int| 0 <= i < 32 ==> #[trigger] key@[i] == contents@[i],
        verdict is Ok <==> accepted,
{
}

/// Checks that found nothing let through, and those that found something do
/// not.
pub proof fn law_checks_pass_or_refuse(
    checked: Result<(), String>,
    drawn: Result<[u8; 32], String>,
    key: Result<(), String>,
    signature: Result<(), String>,
    nonce: Result<[u8; 32], String>,
)
    requires
        call_ensures(key_verdict, (checked,), key),
        call_ensures(signature_verdict, (checked,), signature),
        call_ensures(challenge_nonce, (drawn,), nonce),
    ensures
        key is Ok <==> checked is Ok,
        signature is Ok <==> checked is Ok,
        nonce is Ok <==> drawn is Ok,
        drawn matches Ok(bytes) ==> nonce == Ok::<[u8; 32], String>(bytes),
{
}

} // verus!

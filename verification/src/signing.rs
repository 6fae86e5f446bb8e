//! Ed25519 signatures on skill packages and the registry of signing keys
//! with their reputation.

use vstd::prelude::*;
use crate::auth::base64_decode_standard;
use crate::auth::base64_encode;
use crate::auth::base64_standard_text;
use crate::scanner::trim;
use crate::scanner::trim_chars;
use crate::text::chars_of;
use crate::text::string_from_chars;
use crate::auth::base64_standard_decoding;
use crate::codec::hex_encode;
use crate::codec::hex_text;
use crate::codec::lemma_hex_text_len;
use crate::codec::utf8_bytes;
use vstd::utf8::encode_utf8;
use crate::text::decimal;
use crate::text::str_eq;
use crate::text::u64_to_decimal;

verus! {

/// An Ed25519 public key (`ed25519_dalek::VerifyingKey`), carried through as is.
#[verifier::external_type_specification]
#[verifier::external_body]
pub struct ExVerifyingKey(ed25519_dalek::VerifyingKey);

/// The SHA-256 digest of some bytes, as `sha2::Sha256` computes it.
pub uninterp spec fn sha256_digest(data: Seq<u8>) -> Seq<u8>;

/// `ed25519_dalek::VerifyingKey::from_bytes` accepts the 32 bytes: they
/// decompress to a curve point.
pub uninterp spec fn ed25519_key_valid(bytes: Seq<u8>) -> bool;

/// The 32 bytes of a key, as `ed25519_dalek::VerifyingKey::as_bytes` gives them.
pub uninterp spec fn verifying_key_bytes(k: ed25519_dalek::VerifyingKey) -> Seq<u8>;

/// `ed25519_dalek`'s `Verifier::verify` accepts the 64-byte signature of the
/// message under the key with these bytes.
pub uninterp spec fn ed25519_accepts(key: Seq<u8>, message: Seq<u8>, signature: Seq<u8>) -> bool;

/// SHA-256 of the bytes with `sha2::Sha256::digest`; the digest has 32 bytes.
#[verifier::external_body]
pub(crate) fn sha256(data: &[u8]) -> (d: Vec<u8>)
    ensures
        d@ == sha256_digest(data@),
        d@.len() == 32,
{
    <sha2::Sha256 as sha2::Digest>::digest(data).to_vec()
}

/// Reads a public key with `ed25519_dalek::VerifyingKey::from_bytes`, which
/// succeeds exactly when the bytes decompress to a curve point; the key keeps
/// the bytes it was read from. On failure the crate's error text is handed
/// back; what it says is not stated here.
#[verifier::external_body]
fn verifying_key_from_bytes(bytes: &[u8]) -> (r: Result<ed25519_dalek::VerifyingKey, String>)
    requires
        bytes@.len() == 32,
    ensures
        r is Ok <==> ed25519_key_valid(bytes@),
        r matches Ok(k) ==> verifying_key_bytes(k) == bytes@,
{
    let arr: [u8; 32] = bytes.try_into().unwrap();
    ed25519_dalek::VerifyingKey::from_bytes(&arr).map_err(|e| e.to_string())
}

/// Checks a 64-byte signature on a message with `ed25519_dalek`'s
/// `Verifier::verify` (the signature read with `Signature::from_bytes`).
#[verifier::external_body]
fn ed25519_verify(key: &ed25519_dalek::VerifyingKey, message: &[u8], signature: &[u8]) -> (ok: bool)
    requires
        signature@.len() == 64,
    ensures
        ok == ed25519_accepts(verifying_key_bytes(*key), message@, signature@),
{
    let arr: [u8; 64] = signature.try_into().unwrap();
    ed25519_dalek::Verifier::verify(key, message, &ed25519_dalek::Signature::from_bytes(&arr)).is_ok()
}


/// Why a signature or a signer was refused.
#[derive(Debug)]
pub enum SignatureError {
    InvalidPublicKey(String),
    InvalidSignature(String),
    VerificationFailed,
    UntrustedSigner { key_hex: String },
    BannedSigner { reason: String },
    ManifestHashMismatch { expected: String, actual: String },
    RegistryError(String),
}

/// How far a signer is trusted, from least to most.
#[derive(Clone, Copy, Debug, PartialEq, Eq, Structural, PartialOrd, Ord)]
pub enum TrustLevel {
    Unknown,
    Community,
    Verified,
    Partner,
    Staff,
}

/// The place of a trust level in the order, from 0 (unknown) to 4 (staff).
pub open spec fn trust_rank(t: TrustLevel) -> int {
    match t {
        TrustLevel::Unknown => 0,
        TrustLevel::Community => 1,
        TrustLevel::Verified => 2,
        TrustLevel::Partner => 3,
        TrustLevel::Staff => 4,
    }
}

impl TrustLevel {
    /// The place of the level in the order, from 0 (unknown) to 4 (staff).
    pub fn rank(&self) -> (r: u8)
        ensures
            r == trust_rank(*self),
    {
        match self {
            TrustLevel::Unknown => 0,
            TrustLevel::Community => 1,
            TrustLevel::Verified => 2,
            TrustLevel::Partner => 3,
            TrustLevel::Staff => 4,
        }
    }
}

/// What is known of a signing key: its owner, trust, record and ban.
/// `developer_id` is the owner's UUID as a number.
#[derive(Debug)]
pub struct SignerReputation {
    pub public_key_hex: String,
    pub developer_id: Option<u128>,
    pub trust_level: TrustLevel,
    pub total_skills_signed: u32,
    pub violation_count: u32,
    pub is_banned: bool,
    pub ban_reason: Option<String>,
}

/// A reputation as plain values.
pub struct ReputationView {
    pub public_key_hex: Seq<char>,
    pub developer_id: Option<u128>,
    pub trust_level: TrustLevel,
    pub total_skills_signed: u32,
    pub violation_count: u32,
    pub is_banned: bool,
    pub ban_reason: Option<Seq<char>>,
}

impl View for SignerReputation {
    type V = ReputationView;

    open spec fn view(&self) -> ReputationView {
        ReputationView {
            public_key_hex: self.public_key_hex@,
            developer_id: self.developer_id,
            trust_level: self.trust_level,
            total_skills_signed: self.total_skills_signed,
            violation_count: self.violation_count,
            is_banned: self.is_banned,
            ban_reason: match self.ban_reason {
                Some(r) => Some(r@),
                None => None,
            },
        }
    }
}

/// The reputations as plain values.
pub open spec fn reputation_views(v: Seq<SignerReputation>) -> Seq<ReputationView> {
    v.map_values(|r: SignerReputation| r@)
}

/// No key occurs twice.
pub open spec fn keys_distinct(rs: Seq<ReputationView>) -> bool {
    forall|i: int, j: int|
        0 <= i < rs.len() && 0 <= j < rs.len() && i != j ==> rs[i].public_key_hex != rs[j].public_key_hex
}

/// The reputation recorded under the key, if any.
pub open spec fn reputation_of(rs: Seq<ReputationView>, key_hex: Seq<char>) -> Option<ReputationView> {
    if exists|i: int| 0 <= i < rs.len() && rs[i].public_key_hex == key_hex {
        Some(rs[choose|i: int| 0 <= i < rs.len() && rs[i].public_key_hex == key_hex])
    } else {
        None
    }
}

/// The key is trusted at `min`: known, not banned, and trusted at least that much.
pub open spec fn trusted_at(rs: Seq<ReputationView>, key_hex: Seq<char>, min: TrustLevel) -> bool {
    match reputation_of(rs, key_hex) {
        Some(r) => !r.is_banned && trust_rank(r.trust_level) >= trust_rank(min),
        None => false,
    }
}

/// How many of the reputations are unbanned and at least verified.
pub open spec fn trusted_count(rs: Seq<ReputationView>) -> int
    decreases rs.len(),
{
    if rs.len() == 0 {
        0
    } else {
        trusted_count(rs.drop_last()) + if !rs.last().is_banned && trust_rank(rs.last().trust_level) >= 2 {
            1int
        } else {
            0
        }
    }
}

proof fn lemma_reputation_at(rs: Seq<ReputationView>, i: int)
    requires
        keys_distinct(rs),
        0 <= i < rs.len(),
    ensures
        reputation_of(rs, rs[i].public_key_hex) == Some(rs[i]),
{
    assert(0 <= i < rs.len() && rs[i].public_key_hex == rs[i].public_key_hex);
}

/// Replacing the reputation at `i` by one under the same key changes what is
/// recorded under that key and nothing else.
proof fn lemma_reputation_update(rs: Seq<ReputationView>, i: int, r: ReputationView)
    requires
        keys_distinct(rs),
        0 <= i < rs.len(),
        r.public_key_hex == rs[i].public_key_hex,
    ensures
        keys_distinct(rs.update(i, r)),
        forall|k: Seq<char>| #[trigger] reputation_of(rs.update(i, r), k) == if k == r.public_key_hex {
            Some(r)
        } else {
            reputation_of(rs, k)
        },
{
    let n = rs.update(i, r);
    assert forall|a: int, b: int| 0 <= a < n.len() && 0 <= b < n.len() && a != b implies n[a].public_key_hex
        != n[b].public_key_hex by {
        assert(n[a].public_key_hex == rs[a].public_key_hex);
        assert(n[b].public_key_hex == rs[b].public_key_hex);
    }
    assert forall|k: Seq<char>| #[trigger] reputation_of(n, k) == if k == r.public_key_hex {
        Some(r)
    } else {
        reputation_of(rs, k)
    } by {
        if k == r.public_key_hex {
            lemma_reputation_at(n, i);
        } else {
            if exists|j: int| 0 <= j < rs.len() && rs[j].public_key_hex == k {
                let j = choose|j: int| 0 <= j < rs.len() && rs[j].public_key_hex == k;
                assert(j != i);
                lemma_reputation_at(rs, j);
                assert(n[j] == rs[j]);
                lemma_reputation_at(n, j);
            } else {
                assert forall|j: int| 0 <= j < n.len() implies n[j].public_key_hex != k by {
                    if j != i {
                        assert(n[j] == rs[j]);
                    }
                }
            }
        }
    }
}

/// Adding a reputation under a new key records it under that key and changes nothing else.
proof fn lemma_reputation_push(rs: Seq<ReputationView>, r: ReputationView)
    requires
        keys_distinct(rs),
        reputation_of(rs, r.public_key_hex) is None,
    ensures
        keys_distinct(rs.push(r)),
        forall|k: Seq<char>| #[trigger] reputation_of(rs.push(r), k) == if k == r.public_key_hex {
            Some(r)
        } else {
            reputation_of(rs, k)
        },
{
    let n = rs.push(r);
    let last = rs.len() as int;
    assert forall|j: int| 0 <= j < rs.len() implies rs[j].public_key_hex != r.public_key_hex by {
        if rs[j].public_key_hex == r.public_key_hex {
            assert(0 <= j < rs.len() && rs[j].public_key_hex == r.public_key_hex);
        }
    }
    assert forall|a: int, b: int| 0 <= a < n.len() && 0 <= b < n.len() && a != b implies n[a].public_key_hex
        != n[b].public_key_hex by {
        if a < last && b < last {
            assert(n[a] == rs[a] && n[b] == rs[b]);
        } else if a < last {
            assert(n[a] == rs[a]);
        } else {
            assert(n[b] == rs[b]);
        }
    }
    assert forall|k: Seq<char>| #[trigger] reputation_of(n, k) == if k == r.public_key_hex {
        Some(r)
    } else {
        reputation_of(rs, k)
    } by {
        if k == r.public_key_hex {
            lemma_reputation_at(n, last);
        } else {
            if exists|j: int| 0 <= j < rs.len() && rs[j].public_key_hex == k {
                let j = choose|j: int| 0 <= j < rs.len() && rs[j].public_key_hex == k;
                lemma_reputation_at(rs, j);
                assert(n[j] == rs[j]);
                lemma_reputation_at(n, j);
            } else {
                assert forall|j: int| 0 <= j < n.len() implies n[j].public_key_hex != k by {
                    if j < last {
                        assert(n[j] == rs[j]);
                    }
                }
            }
        }
    }
}

/// The message of a key or signature of the wrong length.
pub open spec fn length_message(expected: nat, got: nat) -> Seq<char> {
    "expected "@ + decimal(expected) + " bytes, got "@ + decimal(got)
}

fn length_error_text(expected: u64, got: usize) -> (s: String)
    ensures
        s@ == length_message(expected as nat, got as nat),
{
    let mut s = String::from_str("expected ");
    s.append(u64_to_decimal(expected).as_str());
    s.append(" bytes, got ");
    s.append(u64_to_decimal(got as u64).as_str());
    s
}

/// The trusted signing keys, each under the hexadecimal text of its bytes.
pub struct KeyRegistry {
    keys: Vec<SignerReputation>,
}

impl KeyRegistry {
    /// The reputations, in the order their keys were first registered.
    pub closed spec fn reputations(&self) -> Seq<ReputationView> {
        reputation_views(self.keys@)
    }

    /// No key is recorded twice.
    pub open spec fn wf(&self) -> bool {
        keys_distinct(self.reputations())
    }

    /// The reputation recorded under the key, if any.
    pub open spec fn lookup(&self, key_hex: Seq<char>) -> Option<ReputationView> {
        reputation_of(self.reputations(), key_hex)
    }

    /// An empty registry.
    pub fn new() -> (r: KeyRegistry)
        ensures
            r.wf(),
            forall|k: Seq<char>| r.lookup(k) is None,
    {
        KeyRegistry { keys: Vec::new() }
    }

    fn find(&self, key_hex: &str) -> (r: Option<usize>)
        requires
            self.wf(),
        ensures
            match r {
                Some(i) => i < self.reputations().len() && self.reputations()[i as int].public_key_hex
                    == key_hex@ && self.lookup(key_hex@) == Some(self.reputations()[i as int]),
                None => self.lookup(key_hex@) is None,
            },
    {
        let ghost rs = self.reputations();
        let mut i: usize = 0;
        while i < self.keys.len()
            invariant
                self.wf(),
                rs == self.reputations(),
                i <= rs.len(),
                forall|j: int| 0 <= j < i ==> rs[j].public_key_hex != key_hex@,
            decreases rs.len() - i,
        {
            assert(rs[i as int] == self.keys@[i as int]@);
            if str_eq(self.keys[i].public_key_hex.as_str(), key_hex) {
                proof {
                    lemma_reputation_at(rs, i as int);
                }
                return Some(i);
            }
            i += 1;
        }
        None
    }

    /// Registers a 32-byte Ed25519 public key at a trust level, as a fresh
    /// unbanned reputation replacing any earlier one. A key of another length,
    /// or one that is not a curve point, is `InvalidPublicKey`.
    pub fn register_key(
        &mut self,
        public_key_bytes: &[u8],
        developer_id: Option<u128>,
        trust_level: TrustLevel,
    ) -> (r: Result<(), SignatureError>)
        requires
            old(self).wf(),
        ensures
            final(self).wf(),
            r is Ok <==> public_key_bytes@.len() == 32 && ed25519_key_valid(public_key_bytes@),
            public_key_bytes@.len() != 32 ==> (r matches Err(SignatureError::InvalidPublicKey(m))
                && m@ == length_message(32, public_key_bytes@.len())),
            public_key_bytes@.len() == 32 && !ed25519_key_valid(public_key_bytes@) ==> r matches Err(
                SignatureError::InvalidPublicKey(_),
            ),
            r is Err ==> final(self).reputations() == old(self).reputations(),
            r is Ok ==> forall|k: Seq<char>| #[trigger] final(self).lookup(k) == if k == hex_text(public_key_bytes@) {
                Some(
                    ReputationView {
                        public_key_hex: hex_text(public_key_bytes@),
                        developer_id,
                        trust_level,
                        total_skills_signed: 0,
                        violation_count: 0,
                        is_banned: false,
                        ban_reason: None,
                    },
                )
            } else {
                old(self).lookup(k)
            },
    {
        if public_key_bytes.len() != 32 {
            return Err(SignatureError::InvalidPublicKey(length_error_text(32, public_key_bytes.len())));
        }
        match verifying_key_from_bytes(public_key_bytes) {
            Err(e) => {
                return Err(SignatureError::InvalidPublicKey(e));
            },
            Ok(_) => {},
        }
        let key_hex = hex_encode(public_key_bytes);
        let rep = SignerReputation {
            public_key_hex: key_hex.clone(),
            developer_id,
            trust_level,
            total_skills_signed: 0,
            violation_count: 0,
            is_banned: false,
            ban_reason: None,
        };
        let ghost rs = self.reputations();
        let ghost rv = rep@;
        match self.find(key_hex.as_str()) {
            Some(i) => {
                self.keys.set(i, rep);
                proof {
                    assert(self.reputations() =~= rs.update(i as int, rv));
                    lemma_reputation_update(rs, i as int, rv);
                }
            },
            None => {
                self.keys.push(rep);
                proof {
                    assert(self.reputations() =~= rs.push(rv));
                    lemma_reputation_push(rs, rv);
                }
            },
        }
        Ok(())
    }

    /// The reputation recorded under the key, if any.
    pub fn get(&self, key_hex: &str) -> (r: Option<&SignerReputation>)
        requires
            self.wf(),
        ensures
            match self.lookup(key_hex@) {
                Some(v) => r matches Some(x) && x@ == v,
                None => r is None,
            },
    {
        match self.find(key_hex) {
            Some(i) => Some(&self.keys[i]),
            None => None,
        }
    }

    /// Replaces the reputation at position `i`, keeping its key.
    fn replace_at(&mut self, i: usize, rep: SignerReputation)
        requires
            old(self).wf(),
            i < old(self).reputations().len(),
            rep@.public_key_hex == old(self).reputations()[i as int].public_key_hex,
        ensures
            final(self).wf(),
            forall|k: Seq<char>| #[trigger] final(self).lookup(k) == if k == rep@.public_key_hex {
                Some(rep@)
            } else {
                old(self).lookup(k)
            },
    {
        let ghost rs = self.reputations();
        let ghost rv = rep@;
        self.keys.set(i, rep);
        proof {
            assert(self.reputations() =~= rs.update(i as int, rv));
            lemma_reputation_update(rs, i as int, rv);
        }
    }

    /// Bans a known key with the reason; answers whether the key was known.
    pub fn ban_key(&mut self, key_hex: &str, reason: &str) -> (b: bool)
        requires
            old(self).wf(),
        ensures
            final(self).wf(),
            b == old(self).lookup(key_hex@) is Some,
            forall|k: Seq<char>| #[trigger] final(self).lookup(k) == if k == key_hex@ && b {
                Some(
                    ReputationView {
                        is_banned: true,
                        ban_reason: Some(reason@),
                        ..old(self).lookup(key_hex@)->0
                    },
                )
            } else {
                old(self).lookup(k)
            },
    {
        match self.find(key_hex) {
            Some(i) => {
                let old_rep = &self.keys[i];
                let rep = SignerReputation {
                    public_key_hex: old_rep.public_key_hex.clone(),
                    developer_id: old_rep.developer_id,
                    trust_level: old_rep.trust_level,
                    total_skills_signed: old_rep.total_skills_signed,
                    violation_count: old_rep.violation_count,
                    is_banned: true,
                    ban_reason: Some(String::from_str(reason)),
                };
                self.replace_at(i, rep);
                true
            },
            None => false,
        }
    }

    /// Counts one more skill signed with a known key; an unknown key changes nothing.
    pub fn increment_signed_count(&mut self, key_hex: &str)
        requires
            old(self).wf(),
            old(self).lookup(key_hex@) matches Some(r) ==> r.total_skills_signed < u32::MAX,
        ensures
            final(self).wf(),
            forall|k: Seq<char>| #[trigger] final(self).lookup(k) == if k == key_hex@ && old(self).lookup(
                key_hex@,
            ) is Some {
                Some(
                    ReputationView {
                        total_skills_signed: (old(self).lookup(key_hex@)->0.total_skills_signed + 1) as u32,
                        ..old(self).lookup(key_hex@)->0
                    },
                )
            } else {
                old(self).lookup(k)
            },
    {
        match self.find(key_hex) {
            Some(i) => {
                let old_rep = &self.keys[i];
                let rep = SignerReputation {
                    public_key_hex: old_rep.public_key_hex.clone(),
                    developer_id: old_rep.developer_id,
                    trust_level: old_rep.trust_level,
                    total_skills_signed: old_rep.total_skills_signed + 1,
                    violation_count: old_rep.violation_count,
                    is_banned: old_rep.is_banned,
                    ban_reason: match &old_rep.ban_reason {
                        Some(r) => Some(r.clone()),
                        None => None,
                    },
                };
                self.replace_at(i, rep);
            },
            None => {},
        }
    }

    /// Counts a violation against a known key; from the third violation on
    /// the key is banned. An unknown key changes nothing.
    pub fn record_violation(&mut self, key_hex: &str)
        requires
            old(self).wf(),
            old(self).lookup(key_hex@) matches Some(r) ==> r.violation_count < u32::MAX,
        ensures
            final(self).wf(),
            forall|k: Seq<char>| #[trigger] final(self).lookup(k) == if k == key_hex@ && old(self).lookup(
                key_hex@,
            ) is Some {
                Some(violation_recorded(old(self).lookup(key_hex@)->0))
            } else {
                old(self).lookup(k)
            },
    {
        match self.find(key_hex) {
            Some(i) => {
                let old_rep = &self.keys[i];
                let count = old_rep.violation_count + 1;
                let (is_banned, ban_reason) = if count >= 3 {
                    let mut m = String::from_str("Auto-banned after ");
                    m.append(u64_to_decimal(count as u64).as_str());
                    m.append(" violations");
                    (true, Some(m))
                } else {
                    (
                        old_rep.is_banned,
                        match &old_rep.ban_reason {
                            Some(r) => Some(r.clone()),
                            None => None,
                        },
                    )
                };
                let rep = SignerReputation {
                    public_key_hex: old_rep.public_key_hex.clone(),
                    developer_id: old_rep.developer_id,
                    trust_level: old_rep.trust_level,
                    total_skills_signed: old_rep.total_skills_signed,
                    violation_count: count,
                    is_banned,
                    ban_reason,
                };
                self.replace_at(i, rep);
            },
            None => {},
        }
    }

    /// How many keys are unbanned and trusted at least as verified.
    pub fn trusted_key_count(&self) -> (n: usize)
        ensures
            n == trusted_count(self.reputations()),
    {
        let ghost rs = self.reputations();
        let mut n: usize = 0;
        let mut i: usize = 0;
        while i < self.keys.len()
            invariant
                rs == self.reputations(),
                i <= rs.len(),
                n == trusted_count(rs.take(i as int)),
                n <= i,
            decreases rs.len() - i,
        {
            assert(rs.take(i + 1).drop_last() =~= rs.take(i as int));
            assert(rs[i as int] == self.keys@[i as int]@);
            if !self.keys[i].is_banned && self.keys[i].trust_level.rank() >= 2 {
                n += 1;
            }
            i += 1;
        }
        assert(rs.take(rs.len() as int) =~= rs);
        n
    }

    /// Registers the keys in turn, each unattributed at its trust level; the
    /// first refused key stops the loading, and the keys before it stay registered.
    pub fn load_trusted_keys(&mut self, entries: &[(Vec<u8>, TrustLevel)]) -> (r: Result<(), SignatureError>)
        requires
            old(self).wf(),
        ensures
            final(self).wf(),
            r is Ok <==> forall|j: int| 0 <= j < entries@.len() ==> #[trigger] entry_ok(entry_view(entries@[j])),
            r is Ok ==> forall|k: Seq<char>| #[trigger] final(self).lookup(k) == loaded(
                entry_views(entries@),
                k,
                old(self).lookup(k),
            ),
            r is Err ==> exists|n: int|
                0 <= n < entries@.len() && (forall|j: int| 0 <= j < n ==> #[trigger] entry_ok(entry_view(entries@[j])))
                    && !entry_ok(entry_view(entries@[n])) && forall|k: Seq<char>| #[trigger] final(self).lookup(k)
                    == loaded(entry_views(entries@).take(n), k, old(self).lookup(k)),
    {
        let ghost es = entry_views(entries@);
        let mut i: usize = 0;
        while i < entries.len()
            invariant
                self.wf(),
                es == entry_views(entries@),
                i <= es.len(),
                forall|j: int| 0 <= j < i ==> #[trigger] entry_ok(es[j]),
                forall|k: Seq<char>| #[trigger] self.lookup(k) == loaded(es.take(i as int), k, old(self).lookup(k)),
            decreases es.len() - i,
        {
            let ghost before = *self;
            assert(es[i as int] == entry_view(entries@[i as int]));
            match self.register_key(entries[i].0.as_slice(), None, entries[i].1) {
                Err(e) => {
                    proof {
                        assert(self.reputations() == before.reputations());
                        assert forall|j: int| 0 <= j < i implies #[trigger] entry_ok(entry_view(entries@[j])) by {
                            assert(es[j] == entry_view(entries@[j]));
                        }
                        assert(entries@[i as int].0@ == entries[i as int].0@);
                        assert(!entry_ok(entry_view(entries@[i as int])));
                        assert forall|k: Seq<char>| #[trigger] self.lookup(k) == loaded(
                            entry_views(entries@).take(i as int),
                            k,
                            old(self).lookup(k),
                        ) by {
                            assert(before.lookup(k) == loaded(es.take(i as int), k, old(self).lookup(k)));
                        }
                    }
                    return Err(e);
                },
                Ok(()) => {},
            }
            proof {
                assert(es.take(i + 1).drop_last() =~= es.take(i as int));
                assert(es.take(i + 1).last() == es[i as int]);
                assert forall|k: Seq<char>| #[trigger] self.lookup(k) == loaded(es.take(i + 1), k, old(self).lookup(k)) by {
                    assert(before.lookup(k) == loaded(es.take(i as int), k, old(self).lookup(k)));
                }
            }
            i += 1;
        }
        proof {
            assert(es.take(es.len() as int) =~= es);
            assert forall|j: int| 0 <= j < entries@.len() implies #[trigger] entry_ok(entry_view(entries@[j])) by {
                assert(es[j] == entry_view(entries@[j]));
            }
        }
        Ok(())
    }
}

impl Default for KeyRegistry {
    fn default() -> (r: KeyRegistry)
        ensures
            r.wf(),
            forall|k: Seq<char>| r.lookup(k) is None,
    {
        KeyRegistry::new()
    }
}

/// A reputation after one more violation: banned, with the count in the
/// reason, from the third violation on.
pub open spec fn violation_recorded(r: ReputationView) -> ReputationView {
    let count = (r.violation_count + 1) as u32;
    if count >= 3 {
        ReputationView {
            violation_count: count,
            is_banned: true,
            ban_reason: Some("Auto-banned after "@ + decimal(count as nat) + " violations"@),
            ..r
        }
    } else {
        ReputationView { violation_count: count, ..r }
    }
}

/// A key to load, as plain values.
pub open spec fn entry_view(e: (Vec<u8>, TrustLevel)) -> (Seq<u8>, TrustLevel) {
    (e.0@, e.1)
}

/// The keys to load, as plain values.
pub open spec fn entry_views(es: Seq<(Vec<u8>, TrustLevel)>) -> Seq<(Seq<u8>, TrustLevel)> {
    es.map_values(|e: (Vec<u8>, TrustLevel)| entry_view(e))
}

/// A key that registration accepts: 32 bytes that decompress to a curve point.
pub open spec fn entry_ok(e: (Seq<u8>, TrustLevel)) -> bool {
    e.0.len() == 32 && ed25519_key_valid(e.0)
}

/// A fresh, unattributed and unbanned reputation.
pub open spec fn fresh_reputation(key_hex: Seq<char>, trust: TrustLevel) -> ReputationView {
    ReputationView {
        public_key_hex: key_hex,
        developer_id: None,
        trust_level: trust,
        total_skills_signed: 0,
        violation_count: 0,
        is_banned: false,
        ban_reason: None,
    }
}

/// What is recorded under `k` after loading the keys over `before`: a fresh
/// reputation at the trust of the last entry with that key, if any.
pub open spec fn loaded(es: Seq<(Seq<u8>, TrustLevel)>, k: Seq<char>, before: Option<ReputationView>) -> Option<ReputationView>
    decreases es.len(),
{
    if es.len() == 0 {
        before
    } else if hex_text(es.last().0) == k {
        Some(fresh_reputation(k, es.last().1))
    } else {
        loaded(es.drop_last(), k, before)
    }
}


/// The bytes that are signed for a package: the SHA-256 digest of the
/// manifest hash's text, two `|` bytes, and the module.
pub open spec fn signed_payload(manifest_hash: Seq<u8>, wasm: Seq<u8>) -> Seq<u8> {
    sha256_digest(manifest_hash + seq![124u8, 124u8] + wasm)
}

/// The hash a manifest records for a module: its SHA-256 digest in lower-case hexadecimal.
pub open spec fn wasm_hash(wasm: Seq<u8>) -> Seq<char> {
    hex_text(sha256_digest(wasm))
}

/// Builds the canonical payload that is signed: SHA-256 over the manifest
/// hash, `||`, and the module bytes.
pub fn build_signed_payload(manifest_hash: &str, wasm_bytes: &[u8]) -> (p: Vec<u8>)
    ensures
        p@ == signed_payload(utf8_bytes(manifest_hash), wasm_bytes@),
        p@.len() == 32,
{
    let head = manifest_hash.as_bytes();
    let mut data: Vec<u8> = Vec::new();
    let mut i: usize = 0;
    while i < head.len()
        invariant
            i <= head@.len(),
            data@ == head@.subrange(0, i as int),
        decreases head@.len() - i,
    {
        data.push(head[i]);
        assert(data@ =~= head@.subrange(0, i + 1));
        i += 1;
    }
    assert(head@.subrange(0, head@.len() as int) =~= head@);
    data.push(124u8);
    data.push(124u8);
    let ghost prefix = data@;
    let mut j: usize = 0;
    while j < wasm_bytes.len()
        invariant
            j <= wasm_bytes@.len(),
            data@ == prefix + wasm_bytes@.subrange(0, j as int),
        decreases wasm_bytes@.len() - j,
    {
        data.push(wasm_bytes[j]);
        assert(data@ =~= prefix + wasm_bytes@.subrange(0, j + 1));
        j += 1;
    }
    assert(wasm_bytes@.subrange(0, wasm_bytes@.len() as int) =~= wasm_bytes@);
    assert(data@ =~= utf8_bytes(manifest_hash) + seq![124u8, 124u8] + wasm_bytes@);
    sha256(data.as_slice())
}

/// The SHA-256 digest of a module in lower-case hexadecimal.
pub fn compute_wasm_hash(wasm_bytes: &[u8]) -> (h: String)
    ensures
        h@ == wasm_hash(wasm_bytes@),
{
    let d = sha256(wasm_bytes);
    hex_encode(d.as_slice())
}

/// What signature checking reads of a skill package: the module, its
/// signature, the signer's public key and the manifest's hash of the module.
/// (The package's descriptive metadata is not read.)
#[derive(Debug)]
pub struct SkillPackage {
    pub wasm_bytes: Vec<u8>,
    pub signature: Vec<u8>,
    pub signer_public_key: Vec<u8>,
    pub manifest_hash: String,
}

impl SkillPackage {
    /// The size of the module in bytes.
    pub fn wasm_size_bytes(&self) -> (n: usize)
        ensures
            n == self.wasm_bytes@.len(),
    {
        self.wasm_bytes.len()
    }
}

/// The outcome of checking a package's signature, in the order the checks
/// are made: the key's length and validity, the signature's length, the
/// signature itself over the signed payload, then the manifest's hash of
/// the module.
pub open spec fn package_check(key: Seq<u8>, sig: Seq<u8>, manifest: Seq<char>, manifest_bytes: Seq<u8>, wasm: Seq<u8>) -> int {
    if key.len() != 32 {
        1
    } else if !ed25519_key_valid(key) {
        2
    } else if sig.len() != 64 {
        3
    } else if !ed25519_accepts(key, signed_payload(manifest_bytes, wasm), sig) {
        4
    } else if wasm_hash(wasm) != manifest {
        5
    } else {
        0
    }
}

/// Checks signatures on packages against the registry of signing keys.
pub struct SkillVerifier {
    key_registry: KeyRegistry,
}

impl SkillVerifier {
    /// The registry consulted.
    pub closed spec fn registry(&self) -> KeyRegistry {
        self.key_registry
    }

    /// A verifier that consults the registry.
    pub fn new(key_registry: KeyRegistry) -> (v: SkillVerifier)
        ensures
            v.registry() == key_registry,
    {
        SkillVerifier { key_registry }
    }

    /// Checks a package's Ed25519 signature over the signed payload and that
    /// its manifest hash is that of its module.
    pub fn verify_package(&self, package: &SkillPackage) -> (r: Result<(), SignatureError>)
        ensures
            ({
                let key = package.signer_public_key@;
                let sig = package.signature@;
                let c = package_check(
                    key,
                    sig,
                    package.manifest_hash@,
                    encode_utf8(package.manifest_hash@),
                    package.wasm_bytes@,
                );
                &&& r is Ok <==> c == 0
                &&& c == 1 ==> (r matches Err(SignatureError::InvalidPublicKey(m)) && m@ == length_message(
                    32,
                    key.len(),
                ))
                &&& c == 2 ==> (r matches Err(SignatureError::InvalidPublicKey(_)))
                &&& c == 3 ==> (r matches Err(SignatureError::InvalidSignature(m)) && m@ == length_message(
                    64,
                    sig.len(),
                ))
                &&& c == 4 ==> (r matches Err(SignatureError::VerificationFailed))
                &&& c == 5 ==> (r matches Err(SignatureError::ManifestHashMismatch { expected, actual })
                    && expected@ == package.manifest_hash@ && actual@ == wasm_hash(package.wasm_bytes@))
            }),
    {
        let payload = build_signed_payload(package.manifest_hash.as_str(), package.wasm_bytes.as_slice());
        if package.signer_public_key.len() != 32 {
            return Err(
                SignatureError::InvalidPublicKey(length_error_text(32, package.signer_public_key.len())),
            );
        }
        let key = match verifying_key_from_bytes(package.signer_public_key.as_slice()) {
            Ok(k) => k,
            Err(e) => {
                return Err(SignatureError::InvalidPublicKey(e));
            },
        };
        if package.signature.len() != 64 {
            return Err(
                SignatureError::InvalidSignature(length_error_text(64, package.signature.len())),
            );
        }
        if !ed25519_verify(&key, payload.as_slice(), package.signature.as_slice()) {
            return Err(SignatureError::VerificationFailed);
        }
        let computed = compute_wasm_hash(package.wasm_bytes.as_slice());
        if !str_eq(computed.as_str(), package.manifest_hash.as_str()) {
            return Err(
                SignatureError::ManifestHashMismatch { expected: package.manifest_hash.clone(), actual: computed },
            );
        }
        Ok(())
    }

    /// The signer's reputation, if the key is known and not banned. An unknown
    /// key is `UntrustedSigner`, named by the first 16 characters of its
    /// hexadecimal text; a banned one is `BannedSigner`, with the ban's reason
    /// or "Policy violation".
    pub fn verify_signer_reputation(&self, public_key_bytes: &[u8]) -> (r: Result<&SignerReputation, SignatureError>)
        requires
            self.registry().wf(),
            public_key_bytes@.len() >= 8 || self.registry().lookup(hex_text(public_key_bytes@)) is Some,
        ensures
            match self.registry().lookup(hex_text(public_key_bytes@)) {
                None => r matches Err(SignatureError::UntrustedSigner { key_hex }) && key_hex@ == hex_text(
                    public_key_bytes@,
                ).subrange(0, 16),
                Some(rep) => if rep.is_banned {
                    r matches Err(SignatureError::BannedSigner { reason }) && reason@ == match rep.ban_reason {
                        Some(t) => t,
                        None => "Policy violation"@,
                    }
                } else {
                    r matches Ok(x) && x@ == rep
                },
            },
    {
        let key_hex = hex_encode(public_key_bytes);
        match self.key_registry.get(key_hex.as_str()) {
            None => {
                proof {
                    lemma_hex_text_len(public_key_bytes@);
                }
                let short = key_hex.as_str().substring_char(0, 16);
                Err(SignatureError::UntrustedSigner { key_hex: String::from_str(short) })
            },
            Some(rep) => {
                if rep.is_banned {
                    let reason = match &rep.ban_reason {
                        Some(t) => t.clone(),
                        None => String::from_str("Policy violation"),
                    };
                    return Err(SignatureError::BannedSigner { reason });
                }
                Ok(rep)
            },
        }
    }

    /// Whether the key is known, not banned, and trusted at least at `min_trust`.
    pub fn is_trusted(&self, public_key_bytes: &[u8], min_trust: TrustLevel) -> (b: bool)
        requires
            self.registry().wf(),
        ensures
            b == trusted_at(self.registry().reputations(), hex_text(public_key_bytes@), min_trust),
    {
        let key_hex = hex_encode(public_key_bytes);
        match self.key_registry.get(key_hex.as_str()) {
            Some(rep) => !rep.is_banned && rep.trust_level.rank() >= min_trust.rank(),
            None => false,
        }
    }
}


/// A banned key is trusted at no level.
pub proof fn banned_keys_are_untrusted(rs: Seq<ReputationView>, key_hex: Seq<char>, min: TrustLevel)
    requires
        reputation_of(rs, key_hex) matches Some(r) && r.is_banned,
    ensures
        !trusted_at(rs, key_hex, min),
{
}

/// A key is banned once its third violation is recorded, and stays banned
/// through further violations.
pub proof fn violations_ban(r: ReputationView)
    requires
        r.violation_count < u32::MAX,
        r.violation_count >= 2 || r.is_banned,
    ensures
        violation_recorded(r).is_banned,
        violation_recorded(r).violation_count == r.violation_count + 1,
{
}


/// Counting from a clean record, the first and second violations leave a
/// key unbanned; the third bans it, with the reason
/// "Auto-banned after 3 violations".
pub proof fn third_violation_bans(r: ReputationView)
    requires
        r.violation_count == 0,
        !r.is_banned,
    ensures
        !violation_recorded(r).is_banned,
        !violation_recorded(violation_recorded(r)).is_banned,
        violation_recorded(violation_recorded(violation_recorded(r))).is_banned,
        violation_recorded(violation_recorded(violation_recorded(r))).violation_count == 3,
        violation_recorded(violation_recorded(violation_recorded(r))).ban_reason == Some(
            "Auto-banned after 3 violations"@,
        ),
{
    reveal_strlit("Auto-banned after 3 violations");
    reveal_strlit("Auto-banned after ");
    reveal_strlit(" violations");
    assert(decimal(3) =~= seq!['3']);
    assert("Auto-banned after "@ + decimal(3) + " violations"@ =~= "Auto-banned after 3 violations"@);
}

/// What checking a downloaded package against the signature and publisher
/// key that came with it gives: `Ok(false)` when either is missing, so the
/// package goes in unsigned; `Ok(true)` when the Ed25519 signature over the
/// SHA-256 digest of the package verifies; else the error, the signature's
/// and then the key's Base64 text read first.
pub open spec fn download_verdict(bytes: Seq<u8>, sig_b64: Seq<char>, key_b64: Seq<char>) -> Result<bool, Option<Seq<char>>> {
    if sig_b64.len() == 0 || key_b64.len() == 0 {
        Ok(false)
    } else {
        match base64_standard_decoding(sig_b64) {
            Err(m) => Err(Some(m)),
            Ok(sig) => match base64_standard_decoding(key_b64) {
                Err(m) => Err(Some(m)),
                Ok(key) => if key.len() != 32 {
                    Err(Some("Invalid public key length"@))
                } else if sig.len() != 64 {
                    Err(Some("Invalid signature length"@))
                } else if !ed25519_key_valid(key) {
                    Err(None)
                } else if !ed25519_accepts(key, sha256_digest(bytes), sig) {
                    Err(Some("Signature verification failed – package may be tampered"@))
                } else {
                    Ok(true)
                },
            },
        }
    }
}

/// Checks a downloaded package before it is installed (see
/// `download_verdict`; a key that is not a curve point gives the key
/// library's own message).
pub fn check_download(bytes: &[u8], sig_b64: &str, key_b64: &str) -> (r: Result<bool, String>)
    ensures
        match download_verdict(bytes@, sig_b64@, key_b64@) {
            Ok(signed) => r == Ok::<bool, String>(signed),
            Err(Some(m)) => r matches Err(e) && e@ == m,
            Err(None) => r is Err,
        },
{
    if sig_b64.unicode_len() == 0 || key_b64.unicode_len() == 0 {
        return Ok(false);
    }
    let sig = match base64_decode_standard(sig_b64) {
        Ok(v) => v,
        Err(e) => {
            return Err(e);
        },
    };
    let key = match base64_decode_standard(key_b64) {
        Ok(v) => v,
        Err(e) => {
            return Err(e);
        },
    };
    if key.len() != 32 {
        return Err(String::from_str("Invalid public key length"));
    }
    if sig.len() != 64 {
        return Err(String::from_str("Invalid signature length"));
    }
    let vk = match verifying_key_from_bytes(key.as_slice()) {
        Ok(k) => k,
        Err(e) => {
            return Err(e);
        },
    };
    let digest = sha256(bytes);
    if !ed25519_verify(&vk, digest.as_slice(), sig.as_slice()) {
        return Err(String::from_str("Signature verification failed – package may be tampered"));
    }
    Ok(true)
}


/// The fingerprint text of digest bytes: two bytes at a time in lower-case
/// hexadecimal, the groups joined by colons.
pub open spec fn fingerprint_text(d: Seq<u8>) -> Seq<char>
    decreases d.len(),
{
    if d.len() <= 2 {
        hex_text(d)
    } else {
        hex_text(d.take(2)) + ":"@ + fingerprint_text(d.skip(2))
    }
}

/// The fingerprint shown for a public key: the first sixteen bytes of its
/// SHA-256 digest, in colon-separated groups of two bytes.
pub fn key_fingerprint(public_key: &[u8]) -> (r: String)
    ensures
        r@ == fingerprint_text(sha256_digest(public_key@).take(16)),
{
    let d = sha256(public_key);
    let ghost full = d@.take(16);
    let mut out = String::new();
    let mut k: usize = 0;
    assert(full.skip(0) =~= full);
    while k < 7
        invariant
            k <= 7,
            d@.len() == 32,
            full == d@.take(16),
            out@ + fingerprint_text(full.skip(2 * k as int)) == fingerprint_text(full),
        decreases 7 - k,
    {
        let ghost rest = full.skip(2 * k as int);
        let pair = vec![d[2 * k], d[2 * k + 1]];
        let h = hex_encode(pair.as_slice());
        assert(pair@ =~= rest.take(2));
        assert(rest.skip(2) =~= full.skip(2 * (k + 1) as int));
        let ghost before = out@;
        out.append(h.as_str());
        out.append(":");
        proof {
            reveal_strlit(":");
        }
        assert(before + (h@ + ":"@ + fingerprint_text(rest.skip(2))) =~= out@ + fingerprint_text(rest.skip(2)));
        k = k + 1;
    }
    let last = vec![d[14], d[15]];
    let h = hex_encode(last.as_slice());
    assert(last@ =~= full.skip(14));
    out.append(h.as_str());
    out
}


/// The Ed25519 signature that `ed25519_dalek::SigningKey` makes of a message
/// with a 32-byte secret key (signing is deterministic).
pub uninterp spec fn ed25519_signature(secret: Seq<u8>, message: Seq<u8>) -> Seq<u8>;

/// The public key `ed25519_dalek::SigningKey::verifying_key` derives from a
/// 32-byte secret key.
pub uninterp spec fn ed25519_public_key(secret: Seq<u8>) -> Seq<u8>;

/// Signs a message with `ed25519_dalek::SigningKey::from_bytes` and
/// `Signer::sign`. The signature is 64 bytes and verifies under the key's
/// public key.
#[verifier::external_body]
fn ed25519_sign(secret: &[u8], message: &[u8]) -> (sig: Vec<u8>)
    requires
        secret@.len() == 32,
    ensures
        sig@ == ed25519_signature(secret@, message@),
        sig@.len() == 64,
        ed25519_accepts(ed25519_public_key(secret@), message@, sig@),
{
    let arr: [u8; 32] = secret.try_into().unwrap();
    let key = ed25519_dalek::SigningKey::from_bytes(&arr);
    ed25519_dalek::Signer::sign(&key, message).to_bytes().to_vec()
}

/// Derives the public key of a secret key with
/// `ed25519_dalek::SigningKey::verifying_key`; its 32 bytes are a valid key.
#[verifier::external_body]
fn ed25519_public(secret: &[u8]) -> (pk: Vec<u8>)
    requires
        secret@.len() == 32,
    ensures
        pk@ == ed25519_public_key(secret@),
        pk@.len() == 32,
        ed25519_key_valid(pk@),
{
    let arr: [u8; 32] = secret.try_into().unwrap();
    ed25519_dalek::SigningKey::from_bytes(&arr).verifying_key().to_bytes().to_vec()
}

/// Signs a package with a private key given as Base64 text (whitespace
/// around it ignored): the Ed25519 signature of the package's SHA-256
/// digest and the public key, both as Base64 text. What it returns passes
/// the check made when the package is downloaded and installed.
pub fn sign_package(key_text: &str, package: &[u8]) -> (r: Result<(String, String), String>)
    ensures
        match base64_standard_decoding(trim(key_text@)) {
            Err(m) => r matches Err(e) && e@ == m,
            Ok(k) => if k.len() != 32 {
                r matches Err(e) && e@ == "Invalid private key length (expected 32 bytes)"@
            } else {
                r matches Ok((s, p)) && s@ == base64_standard_text(ed25519_signature(k, sha256_digest(package@)))
                    && p@ == base64_standard_text(ed25519_public_key(k)) && download_verdict(
                    package@,
                    s@,
                    p@,
                ) == Ok::<bool, Option<Seq<char>>>(true)
            },
        },
{
    let cs = chars_of(key_text);
    let t = trim_chars(cs.as_slice());
    let ts = string_from_chars(t.as_slice());
    let key = match base64_decode_standard(ts.as_str()) {
        Ok(k) => k,
        Err(e) => {
            return Err(e);
        },
    };
    if key.len() != 32 {
        return Err(String::from_str("Invalid private key length (expected 32 bytes)"));
    }
    let digest = sha256(package);
    let sig = ed25519_sign(key.as_slice(), digest.as_slice());
    let pk = ed25519_public(key.as_slice());
    let s = base64_encode(sig.as_slice());
    let p = base64_encode(pk.as_slice());
    Ok((s, p))
}


/// What `keygen` writes and shows for a new secret key: the secret and the
/// public key as Base64 text, and the public key's fingerprint.
pub struct KeyTexts {
    pub private_b64: String,
    pub public_b64: String,
    pub fingerprint: String,
}

/// The texts of a freshly made 32-byte secret key.
pub fn key_texts(secret: &[u8]) -> (r: KeyTexts)
    requires
        secret@.len() == 32,
    ensures
        r.private_b64@ == base64_standard_text(secret@),
        r.public_b64@ == base64_standard_text(ed25519_public_key(secret@)),
        r.fingerprint@ == fingerprint_text(sha256_digest(ed25519_public_key(secret@)).take(16)),
{
    let public = ed25519_public(secret);
    KeyTexts {
        private_b64: base64_encode(secret),
        public_b64: base64_encode(public.as_slice()),
        fingerprint: key_fingerprint(public.as_slice()),
    }
}

} // verus!

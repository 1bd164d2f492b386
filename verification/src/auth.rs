//! The two ways of authorizing a withdrawal, and what each derives from its
//! request: the commitment it withdraws from and the token it consumes.

use crate::digest::{sha256_hex, sha256_hex_of};
use crate::error::MixerError;
use crate::store::DepositRecord;
use vstd::prelude::*;
use vstd::string::{StrSliceExecFns, StringExecFns};

verus! {

/// The least number of characters a proof must have.
pub const MIN_PROOF_LENGTH: usize = 32;

/// The text hashed in front of a revealed secret to obtain its token, so
/// that the token differs from the commitment of the same secret.
pub open spec fn withdraw_salt() -> Seq<char> {
    "withdraw:"@
}

/// The commitment under which a deposit for `secret` is stored.
pub open spec fn commitment_of_secret(secret: Seq<char>) -> Seq<char> {
    sha256_hex_of(secret)
}

/// The token that a withdrawal revealing `secret` consumes.
pub open spec fn token_of_secret(secret: Seq<char>) -> Seq<char> {
    sha256_hex_of(withdraw_salt() + secret)
}

/// The character a proof for `nullifier` and `commitment` must begin with:
/// the first of the hexadecimal digest of the two, joined.
pub open spec fn proof_tag(nullifier: Seq<char>, commitment: Seq<char>) -> char {
    sha256_hex_of(nullifier + commitment)[0]
}

/// Whether `proof` is long enough and begins with the tag of its request.
/// This checks a format only, and proves no knowledge of any secret.
pub open spec fn proof_fits(nullifier: Seq<char>, commitment: Seq<char>, proof: Seq<char>) -> bool {
    proof.len() >= MIN_PROOF_LENGTH && proof[0] == proof_tag(nullifier, commitment)
}

/// What a withdrawal presents to be let through.
#[derive(Debug, PartialEq, Eq)]
pub enum Authorization {
    /// A nullifier, the commitment it belongs to, and a proof binding the two.
    NullifierProof { nullifier: String, commitment: String, proof: String },
    /// The secret from which both the commitment and the token derive.
    SecretReveal { secret: String },
}

impl Authorization {
    /// The commitment this request withdraws from.
    pub open spec fn commitment_id(self) -> Seq<char> {
        match self {
            Authorization::NullifierProof { commitment, .. } => commitment@,
            Authorization::SecretReveal { secret } => commitment_of_secret(secret@),
        }
    }

    /// The token this request consumes.
    pub open spec fn spent_token(self) -> Seq<char> {
        match self {
            Authorization::NullifierProof { nullifier, .. } => nullifier@,
            Authorization::SecretReveal { secret } => token_of_secret(secret@),
        }
    }

    /// Whether the request carries what its strategy asks for. A revealed
    /// secret needs nothing more: it either leads to a deposit or does not.
    pub open spec fn proof_holds(self) -> bool {
        match self {
            Authorization::NullifierProof { nullifier, commitment, proof } => proof_fits(
                nullifier@,
                commitment@,
                proof@,
            ),
            Authorization::SecretReveal { .. } => true,
        }
    }

    /// The commitment this request withdraws from.
    pub fn commitment(&self) -> (id: String)
        ensures
            id@ == self.commitment_id(),
    {
        match self {
            Authorization::NullifierProof { commitment, .. } => commitment.clone(),
            Authorization::SecretReveal { secret } => sha256_hex(secret.as_str()),
        }
    }

    /// The token this request consumes.
    pub fn token(&self) -> (token: String)
        ensures
            token@ == self.spent_token(),
    {
        match self {
            Authorization::NullifierProof { nullifier, .. } => nullifier.clone(),
            Authorization::SecretReveal { secret } => {
                let mut salted = String::from_str("withdraw:");
                salted.append(secret.as_str());
                sha256_hex(salted.as_str())
            },
        }
    }

    /// Whether the request carries what its strategy asks for.
    pub fn verify(&self) -> (ok: bool)
        ensures
            ok == self.proof_holds(),
    {
        match self {
            Authorization::NullifierProof { nullifier, commitment, proof } => {
                if proof.as_str().unicode_len() < MIN_PROOF_LENGTH {
                    return false;
                }
                let mut joined = nullifier.clone();
                joined.append(commitment.as_str());
                let digest = sha256_hex(joined.as_str());
                proof.as_str().get_char(0) == digest.as_str().get_char(0)
            },
            Authorization::SecretReveal { .. } => true,
        }
    }
}

/// Checks `request` against the live deposit it claims and hands out the
/// token to consume, or fails with `InvalidAuthorization`. Neither strategy
/// reads the record: that the deposit is live is all it asks of it.
#[allow(unused_variables)]
pub fn authorize(record: &DepositRecord, request: &Authorization) -> (granted: Result<
    String,
    MixerError,
>)
    ensures
        request.proof_holds() ==> granted is Ok && granted->Ok_0@ == request.spent_token(),
        !request.proof_holds() ==> granted == Err::<String, MixerError>(
            MixerError::InvalidAuthorization,
        ),
{
    if request.verify() {
        Ok(request.token())
    } else {
        Err(MixerError::InvalidAuthorization)
    }
}

} // verus!

use sha2::{Digest, Sha256};
use utxo_mixer::auth::{authorize, Authorization};
use utxo_mixer::digest::{sha256_hex, to_hex};
use utxo_mixer::error::MixerError;
use utxo_mixer::store::DepositRecord;

fn reference_hex(text: &str) -> String {
    format!("{:x}", Sha256::digest(text.as_bytes()))
}

fn record() -> DepositRecord {
    DepositRecord { denomination: 1_000_000_000_000_000_000_000_000, created_at: 0 }
}

fn proof_for(nullifier: &str, commitment: &str) -> String {
    let mut hasher = Sha256::new();
    hasher.update(nullifier);
    hasher.update(commitment);
    let hash_result = format!("{:x}", hasher.finalize());
    format!("{}testproofthatisatleast32characterslong", &hash_result[0..1])
}

#[test]
fn to_hex_writes_two_lower_case_digits_per_byte() {
    assert_eq!(to_hex(&[]), "");
    assert_eq!(to_hex(&[0x00]), "00");
    assert_eq!(to_hex(&[0x0a, 0x14, 0x1e]), "0a141e");
    assert_eq!(to_hex(&[0xde, 0xad, 0xbe, 0xef, 0x09, 0xf0, 0xff]), "deadbeef09f0ff");
}

#[test]
fn to_hex_covers_every_byte() {
    let bytes: Vec<u8> = (0..=255u8).collect();
    let text = to_hex(&bytes);
    assert_eq!(text.len(), 512);
    for (at, byte) in bytes.iter().enumerate() {
        assert_eq!(&text[2 * at..2 * at + 2], format!("{:02x}", byte));
    }
}

#[test]
fn sha256_hex_of_known_inputs() {
    assert_eq!(
        sha256_hex("abc"),
        "ba7816bf8f01cfea414140de5dae2223b00361a396177a9cb410ff61f20015ad"
    );
    assert_eq!(
        sha256_hex(""),
        "e3b0c44298fc1c149afbf4c8996fb92427ae41e4649b934ca495991b7852b855"
    );
}

#[test]
fn sha256_hex_agrees_with_the_formatted_digest() {
    for text in ["s1", "my_secret_key_123", "withdraw:s1", "grüße, мир", "\u{1F511} key"] {
        let digest = sha256_hex(text);
        assert_eq!(digest, reference_hex(text));
        assert_eq!(digest.chars().count(), 64);
        assert_ne!(digest, text);
    }
}

#[test]
fn secret_reveal_derives_commitment_and_token() {
    let request = Authorization::SecretReveal { secret: "my_secret_key_123".to_string() };
    assert_eq!(request.commitment(), reference_hex("my_secret_key_123"));
    assert_eq!(request.token(), reference_hex("withdraw:my_secret_key_123"));
    assert_ne!(request.commitment(), request.token());
    assert!(request.verify());
    assert_eq!(authorize(&record(), &request), Ok(reference_hex("withdraw:my_secret_key_123")));
}

#[test]
fn nullifier_proof_names_its_commitment_and_token() {
    let nullifier = reference_hex("nullifier:my_secret_key_123");
    let commitment = reference_hex("my_secret_key_123");
    let request = Authorization::NullifierProof {
        nullifier: nullifier.clone(),
        commitment: commitment.clone(),
        proof: proof_for(&nullifier, &commitment),
    };
    assert_eq!(request.commitment(), commitment);
    assert_eq!(request.token(), nullifier);
    assert!(request.verify());
    assert_eq!(authorize(&record(), &request), Ok(nullifier));
}

#[test]
fn proof_with_the_wrong_first_character_is_refused() {
    let nullifier = "n-1".to_string();
    let commitment = "c-1".to_string();
    let good = proof_for(&nullifier, &commitment);
    let tag = good.chars().next().unwrap();
    let other = if tag == '0' { '1' } else { '0' };
    let bad = format!("{}{}", other, &good[1..]);
    let request = Authorization::NullifierProof {
        nullifier: nullifier.clone(),
        commitment: commitment.clone(),
        proof: bad,
    };
    assert!(!request.verify());
    assert_eq!(authorize(&record(), &request), Err(MixerError::InvalidAuthorization));
    let upper = Authorization::NullifierProof {
        nullifier,
        commitment,
        proof: format!("{}{}", 'G', &good[1..]),
    };
    assert!(!upper.verify());
}

#[test]
fn proof_shorter_than_thirty_two_characters_is_refused() {
    let nullifier = "n-2".to_string();
    let commitment = "c-2".to_string();
    let tag = proof_for(&nullifier, &commitment).chars().next().unwrap();
    let make = |length: usize| Authorization::NullifierProof {
        nullifier: nullifier.clone(),
        commitment: commitment.clone(),
        proof: format!("{}{}", tag, "x".repeat(length - 1)),
    };
    assert!(!make(1).verify());
    assert!(!make(31).verify());
    assert!(make(32).verify());
    assert!(make(33).verify());
    let empty = Authorization::NullifierProof {
        nullifier: nullifier.clone(),
        commitment: commitment.clone(),
        proof: String::new(),
    };
    assert!(!empty.verify());
    assert_eq!(authorize(&record(), &make(31)), Err(MixerError::InvalidAuthorization));
}

#[test]
fn proof_is_bound_to_nullifier_and_commitment_in_this_order() {
    let mut seen_difference = false;
    for at in 0..64 {
        let nullifier = format!("n{}", at);
        let commitment = format!("c{}", at);
        let tag = reference_hex(&format!("{}{}", nullifier, commitment)).chars().next().unwrap();
        let proof = format!("{}{}", tag, "p".repeat(40));
        let request = Authorization::NullifierProof {
            nullifier: nullifier.clone(),
            commitment: commitment.clone(),
            proof: proof.clone(),
        };
        assert!(request.verify());
        let swapped_tag =
            reference_hex(&format!("{}{}", commitment, nullifier)).chars().next().unwrap();
        let swapped = Authorization::NullifierProof {
            nullifier: commitment,
            commitment: nullifier,
            proof,
        };
        assert_eq!(swapped.verify(), swapped_tag == tag);
        seen_difference = seen_difference || swapped_tag != tag;
    }
    assert!(seen_difference);
}

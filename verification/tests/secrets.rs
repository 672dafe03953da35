use lithos::secrets::{
    copy_range, envelope_nonce, find_key, nonce_from, parse_entry, same_bytes, secret_assignment,
    split_envelope, unpack, unseal, SecretError, KEY_LEN, NONCE_LEN,
};

fn recipient() -> Vec<u8> {
    (0u8..32).collect()
}

fn ephemeral() -> Vec<u8> {
    (100u8..132).collect()
}

const NONCE: [u8; 24] = [
    209, 77, 236, 97, 143, 140, 158, 10, 156, 185, 105, 239, 67, 134, 198, 223, 219, 141, 84, 113,
    55, 178, 144, 224,
];

const ENTRY: &str = "DB_PASSWORD=v2:AAECAwQFBgcICQoLDA0ODxAREhMUFRYXGBkaGxwdHh9kZWZnaGlqa2xtbm9wcXJzdHV2d3h5ent8fX5/gIGCg3NlYWxlZC10ZXh0";

#[test]
fn sizes_are_those_of_nacl() {
    assert_eq!(KEY_LEN, 32);
    assert_eq!(NONCE_LEN, 24);
}

#[test]
fn entry_is_name_version_payload() {
    let s = parse_entry("KEY=v2:abc=").unwrap();
    assert_eq!(s.name, "KEY");
    assert_eq!(s.payload, "abc=");
    let s = parse_entry("=v2:").unwrap();
    assert_eq!(s.name, "");
    assert_eq!(s.payload, "");
}

#[test]
fn entry_without_value_or_version_is_refused() {
    assert_eq!(parse_entry("KEY").err(), Some(SecretError::NoValue));
    assert_eq!(parse_entry("").err(), Some(SecretError::NoValue));
    assert_eq!(parse_entry("KEY=plain").err(), Some(SecretError::BadVersion));
    assert_eq!(parse_entry("KEY=v1:abc").err(), Some(SecretError::BadVersion));
    assert_eq!(parse_entry("KEY=v2").err(), Some(SecretError::BadVersion));
    assert_eq!(parse_entry("KEY=").err(), Some(SecretError::BadVersion));
}

#[test]
fn envelope_splits_into_keys_and_text() {
    let mut bytes = recipient();
    bytes.extend(ephemeral());
    bytes.extend(b"sealed");
    let e = split_envelope(&bytes).unwrap();
    assert_eq!(e.recipient, recipient());
    assert_eq!(e.ephemeral, ephemeral());
    assert_eq!(e.sealed, b"sealed".to_vec());
    let e = split_envelope(&bytes[..64].to_vec()).unwrap();
    assert!(e.sealed.is_empty());
    assert_eq!(split_envelope(&bytes[..63].to_vec()).err(), Some(SecretError::TooShort));
    assert_eq!(split_envelope(&Vec::new()).err(), Some(SecretError::TooShort));
}

#[test]
fn ranges_are_copied() {
    let bytes = vec![1u8, 2, 3, 4, 5];
    assert_eq!(copy_range(&bytes, 1, 4), vec![2, 3, 4]);
    assert_eq!(copy_range(&bytes, 5, 5), Vec::<u8>::new());
    assert!(same_bytes(&bytes, &vec![1, 2, 3, 4, 5]));
    assert!(!same_bytes(&bytes, &vec![1, 2, 3, 4]));
    assert!(!same_bytes(&bytes, &vec![1, 2, 3, 4, 6]));
}

#[test]
fn the_first_matching_key_opens() {
    let keys = vec![ephemeral(), recipient(), recipient()];
    assert_eq!(find_key(&keys, &recipient()), Ok(1));
    assert_eq!(find_key(&keys, &ephemeral()), Ok(0));
    assert_eq!(find_key(&keys, &vec![0u8; 32]), Err(SecretError::NoKey));
    assert_eq!(find_key(&Vec::new(), &recipient()), Err(SecretError::NoKey));
}

#[test]
fn nonce_is_the_start_of_the_hash() {
    assert_eq!(envelope_nonce(&ephemeral(), &recipient()), NONCE.to_vec());
    assert_ne!(envelope_nonce(&recipient(), &ephemeral()), NONCE.to_vec());
    let empty = envelope_nonce(&Vec::new(), &Vec::new());
    assert_eq!(
        empty,
        vec![
            0x0e, 0x57, 0x51, 0xc0, 0x26, 0xe5, 0x43, 0xb2, 0xe8, 0xab, 0x2e, 0xb0, 0x60, 0x99,
            0xda, 0xa1, 0xd1, 0xe5, 0xdf, 0x47, 0x77, 0x8f, 0x77, 0x87
        ]
    );
    let digest: Vec<u8> = (0u8..32).collect();
    assert_eq!(nonce_from(&digest), Some((0u8..24).collect()));
    assert_eq!(nonce_from(&vec![0u8; 23]), None);
}

#[test]
fn a_secret_is_unsealed_with_key_and_nonce() {
    let keys = vec![vec![9u8; 32], recipient()];
    let s = unseal(ENTRY, &keys).unwrap();
    assert_eq!(s.name, "DB_PASSWORD");
    assert_eq!(s.key, 1);
    assert_eq!(s.ephemeral, ephemeral());
    assert_eq!(s.nonce, NONCE.to_vec());
    assert_eq!(s.sealed, b"sealed-text".to_vec());
}

#[test]
fn a_secret_for_another_recipient_has_no_key() {
    assert_eq!(unseal(ENTRY, &vec![ephemeral()]).err(), Some(SecretError::NoKey));
    assert_eq!(unseal(ENTRY, &Vec::new()).err(), Some(SecretError::NoKey));
}

#[test]
fn broken_envelopes_are_refused() {
    let keys = vec![recipient()];
    assert_eq!(unseal("K=v2:not base64!", &keys).err(), Some(SecretError::BadEncoding));
    assert_eq!(unseal("K=v2:AAAAAAAAAAAAAA==", &keys).err(), Some(SecretError::TooShort));
    assert_eq!(unseal("K=v2:", &keys).err(), Some(SecretError::TooShort));
    assert_eq!(unseal("K=v3:AAAA", &keys).err(), Some(SecretError::BadVersion));
    assert_eq!(unseal("K", &keys).err(), Some(SecretError::NoValue));
    assert_eq!(unpack("K".to_string(), &None, &keys).err(), Some(SecretError::BadEncoding));
    assert_eq!(
        unpack("K".to_string(), &Some(vec![0u8; 10]), &keys).err(),
        Some(SecretError::TooShort)
    );
}

#[test]
fn an_opened_secret_is_an_assignment() {
    assert_eq!(secret_assignment("DB_PASSWORD", "hunter2"), "DB_PASSWORD=hunter2");
    assert_eq!(secret_assignment("K", ""), "K=");
}

use rusty_lock::crypto_utils::{decrypt, encrypt};
use rusty_lock::error::VaultError;
use rusty_lock::store::{format_record, is_valid_label, parse_line, parse_vault, VaultEntry};

fn entry(label: &str, blob: &[u8]) -> VaultEntry {
    VaultEntry { label: label.as_bytes().to_vec(), ciphertext: blob.to_vec() }
}

fn pair(r: &Result<VaultEntry, VaultError>) -> Result<(Vec<u8>, Vec<u8>), VaultError> {
    match r {
        Ok(e) => Ok((e.label.clone(), e.ciphertext.clone())),
        Err(e) => Err(*e),
    }
}

#[test]
fn record_line_is_label_equals_base64() {
    assert_eq!(format_record(&entry("facebook", &[1, 2, 3])), b"facebook=AQID\n".to_vec());
    assert_eq!(format_record(&entry("x", &[0xff])), b"x=/w==\n".to_vec());
    assert_eq!(format_record(&entry("e", &[])), b"e=\n".to_vec());
}

#[test]
fn parse_line_reads_a_record() {
    let parsed = parse_line(b"facebook=AQID");
    assert_eq!(pair(&parsed), Ok((b"facebook".to_vec(), vec![1, 2, 3])));
    let padded = parse_line(b"x=/w==");
    assert_eq!(pair(&padded), Ok((b"x".to_vec(), vec![0xff])));
}

#[test]
fn parse_line_rejects_malformed_lines() {
    for line in [
        &b"no separator"[..],
        b"=AQID",
        b"label=not base64!",
        b"label=AQI",
        b"label=AQ=D",
        b"",
        b"a\nb=AQID",
    ] {
        assert_eq!(pair(&parse_line(line)), Err(VaultError::StorageCorruption));
    }
}

#[test]
fn labels_that_a_line_cannot_hold() {
    assert!(is_valid_label(b"facebook"));
    assert!(!is_valid_label(b""));
    assert!(!is_valid_label(b"a=b"));
    assert!(!is_valid_label(b"a\nb"));
}

#[test]
fn corrupt_line_does_not_lose_others() {
    let text = b"a=AQID\nbroken\nb=BAUG\nc=\n";
    let parsed = parse_vault(text);
    assert_eq!(parsed.len(), 4);
    assert_eq!(pair(&parsed[0]), Ok((b"a".to_vec(), vec![1, 2, 3])));
    assert_eq!(pair(&parsed[1]), Err(VaultError::StorageCorruption));
    assert_eq!(pair(&parsed[2]), Ok((b"b".to_vec(), vec![4, 5, 6])));
    assert_eq!(pair(&parsed[3]), Ok((b"c".to_vec(), vec![])));
}

#[test]
fn parse_vault_line_splitting() {
    assert_eq!(parse_vault(b"").len(), 0);
    assert_eq!(parse_vault(b"\n").len(), 1);
    let no_final_newline = parse_vault(b"a=AQID\nb=BAUG");
    assert_eq!(no_final_newline.len(), 2);
    assert_eq!(pair(&no_final_newline[1]), Ok((b"b".to_vec(), vec![4, 5, 6])));
}

#[test]
fn append_then_reopen_keeps_order_and_content() {
    let key = vec![5u8; 32];
    let mut file = Vec::new();
    let mut written = Vec::new();
    for (label, secret) in [("mail", "one"), ("bank", "two"), ("mail", "three")] {
        let e = entry(label, &encrypt(secret, &key));
        file.extend_from_slice(&format_record(&e));
        written.push((e.label.clone(), e.ciphertext.clone()));
        let reopened: Vec<_> = parse_vault(&file).iter().map(pair).collect();
        let expected: Vec<_> = written.iter().cloned().map(Ok).collect();
        assert_eq!(reopened, expected);
    }
    let reopened = parse_vault(&file);
    let blob = &reopened[2].as_ref().unwrap().ciphertext;
    assert_eq!(decrypt(blob, &key), Ok(b"three".to_vec()));
}

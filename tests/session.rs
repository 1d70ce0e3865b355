use rusty_lock::crypto_utils::default_salt;
use rusty_lock::error::VaultError;
use rusty_lock::session::{Session, SessionState};
use rusty_lock::store::format_record;

fn add(session: &mut Session, file: &mut Vec<u8>, label: &str, secret: &str) {
    let entry = session.seal_entry(label, secret).unwrap();
    file.extend_from_slice(&format_record(&entry));
    session.commit_entry(entry).unwrap();
}

#[test]
fn unlock_add_lock_unlock_reveal() {
    let salt = default_salt();
    let mut file: Vec<u8> = Vec::new();
    let mut session = Session::new();
    assert_eq!(session.state(), SessionState::Locked);
    assert_eq!(session.unlock("alice", "correct-horse", &salt, &file), Ok(vec![]));
    assert_eq!(session.state(), SessionState::Unlocked);
    assert_eq!(session.identity(), "alice");

    add(&mut session, &mut file, "facebook", "p@ss1");
    assert_eq!(session.len(), 1);
    assert_eq!(session.label(0), &b"facebook".to_vec());

    session.lock();
    assert_eq!(session.state(), SessionState::Locked);
    assert_eq!(session.len(), 0);
    assert_eq!(session.reveal_secret(0).err(), Some(VaultError::Locked));

    assert_eq!(session.unlock("alice", "correct-horse", &salt, &file), Ok(vec![]));
    assert_eq!(session.len(), 1);
    assert_eq!(session.label(0), &b"facebook".to_vec());
    let secret = session.reveal_secret(0).unwrap();
    assert_eq!(secret.expose(), &b"p@ss1".to_vec());
}

#[test]
fn wrong_passphrase_never_reveals() {
    let salt = default_salt();
    let mut file: Vec<u8> = Vec::new();
    let mut session = Session::new();
    session.unlock("alice", "correct-horse", &salt, &file).unwrap();
    add(&mut session, &mut file, "facebook", "p@ss1");
    add(&mut session, &mut file, "mail", "p@ss2");
    session.lock();

    assert_eq!(session.unlock("alice", "wrong-horse", &salt, &file), Ok(vec![]));
    assert_eq!(session.len(), 2);
    for i in 0..2 {
        assert_eq!(session.reveal_secret(i).err(), Some(VaultError::AuthenticationFailure));
    }
}

#[test]
fn corrupt_lines_are_reported_and_others_loaded() {
    let salt = default_salt();
    let mut file: Vec<u8> = Vec::new();
    let mut session = Session::new();
    session.unlock("bob", "pw", &salt, &file).unwrap();
    add(&mut session, &mut file, "one", "1");
    file.extend_from_slice(b"garbage line\n");
    add(&mut session, &mut file, "two", "2");
    session.lock();

    assert_eq!(session.unlock("bob", "pw", &salt, &file), Ok(vec![1]));
    assert_eq!(session.len(), 2);
    assert_eq!(session.reveal_secret(1).unwrap().expose(), &b"2".to_vec());
}

#[test]
fn unlock_errors_leave_session_locked() {
    let mut session = Session::new();
    assert_eq!(session.unlock("alice", "", &default_salt(), b""), Err(VaultError::InvalidInput));
    assert_eq!(session.unlock("alice", "pw", &[1u8; 4], b""), Err(VaultError::KeyDerivationError));
    assert_eq!(session.state(), SessionState::Locked);
}

#[test]
fn invalid_labels_and_indices() {
    let mut session = Session::new();
    assert_eq!(session.seal_entry("x", "y").err(), Some(VaultError::Locked));
    session.unlock("carol", "pw", &default_salt(), b"").unwrap();
    assert_eq!(session.seal_entry("", "y").err(), Some(VaultError::InvalidInput));
    assert_eq!(session.seal_entry("a=b", "y").err(), Some(VaultError::InvalidInput));
    assert_eq!(session.reveal_secret(0).err(), Some(VaultError::InvalidInput));
}

#[test]
fn generated_password_is_twenty_alphanumerics() {
    let mut session = Session::new();
    let mut file: Vec<u8> = Vec::new();
    session.unlock("dave", "pw", &default_salt(), &file).unwrap();
    let entry = session.seal_generated("site").unwrap();
    file.extend_from_slice(&format_record(&entry));
    session.commit_entry(entry).unwrap();
    let secret = session.reveal_secret(0).unwrap();
    assert_eq!(secret.len(), 20);
    assert!(secret.expose().iter().all(|b| b.is_ascii_alphanumeric()));
}

#[test]
fn quit_is_terminal() {
    let mut session = Session::new();
    session.unlock("erin", "pw", &default_salt(), b"").unwrap();
    session.quit();
    assert_eq!(session.state(), SessionState::Closed);
    assert_eq!(session.len(), 0);
    assert_eq!(session.unlock("erin", "pw", &default_salt(), b""), Err(VaultError::Locked));
    session.lock();
    assert_eq!(session.state(), SessionState::Closed);
}

#[test]
fn lookup_by_label_takes_the_latest() {
    let mut session = Session::new();
    let mut file: Vec<u8> = Vec::new();
    session.unlock("frank", "pw", &default_salt(), &file).unwrap();
    add(&mut session, &mut file, "mail", "old");
    add(&mut session, &mut file, "bank", "b");
    add(&mut session, &mut file, "mail", "new");
    assert_eq!(session.position_of(b"mail"), Some(2));
    assert_eq!(session.position_of(b"bank"), Some(1));
    assert_eq!(session.position_of(b"none"), None);
    assert_eq!(session.reveal_secret(2).unwrap().expose(), &b"new".to_vec());
}

use rand::distributions::{Alphanumeric, DistString};
use vstd::prelude::*;
use vstd::string::StringSliceAdditionalSpecFns;

use crate::crypto_utils::{
    decrypt, decrypt_spec, derived_key, encrypt_bytes, hash_password, payload_fits, sealed_under,
    KEY_LEN, MIN_SALT_LEN,
};
use crate::error::VaultError;
use crate::secret::SecretBytes;
use crate::store::{
    ends_at_line_start, file_records, is_valid_label, lemma_reopen_after_append, line_record, no_newline,
    parse_vault, parsed_as, valid_label, vault_lines, VaultEntry, NEWLINE,
};

verus! {

/// Length of a generated password.
pub const GENERATED_LEN: usize = 20;

/// Where a session stands.
#[derive(PartialEq, Eq, Structural, Clone, Copy, Debug)]
pub enum SessionState {
    /// No key held, no vault loaded.
    Locked,
    /// A key is held and the vault is loaded.
    Unlocked,
    /// Terminal: nothing more is done.
    Closed,
}

pub open spec fn is_alphanumeric(b: u8) -> bool {
    (48 <= b <= 57) || (65 <= b <= 90) || (97 <= b <= 122)
}

/// Relies on rand's `Alphanumeric` distribution (`DistString::sample_string`)
/// with the thread-local generator: `len` characters drawn from 0-9, A-Z, a-z.
#[verifier::external_body]
fn random_alphanumeric(len: usize) -> (r: Vec<u8>)
    ensures
        r@.len() == len,
        forall|i: int| 0 <= i < r@.len() ==> is_alphanumeric(#[trigger] r@[i]),
{
    Alphanumeric.sample_string(&mut rand::thread_rng(), len).into_bytes()
}

fn bytes_equal(a: &[u8], b: &[u8]) -> (r: bool)
    ensures
        r == (a@ == b@),
{
    if a.len() != b.len() {
        return false;
    }
    let mut i: usize = 0;
    while i < a.len()
        invariant
            i <= a@.len(),
            a@.len() == b@.len(),
            forall|j: int| 0 <= j < i ==> a@[j] == b@[j],
        decreases a@.len() - i,
    {
        if a[i] != b[i] {
            return false;
        }
        i = i + 1;
    }
    assert(a@ =~= b@);
    true
}

/// The records of a file that parsed, in file order.
pub open spec fn valid_records(rs: Seq<Option<(Seq<u8>, Seq<u8>)>>) -> Seq<(Seq<u8>, Seq<u8>)>
    decreases rs.len(),
{
    if rs.len() == 0 {
        Seq::empty()
    } else {
        let prev = valid_records(rs.drop_last());
        match rs.last() {
            Some(rec) => prev.push(rec),
            None => prev,
        }
    }
}

/// The positions (counted from 0) of the lines of a file that did not parse.
pub open spec fn corrupt_lines(rs: Seq<Option<(Seq<u8>, Seq<u8>)>>) -> Seq<int>
    decreases rs.len(),
{
    if rs.len() == 0 {
        Seq::empty()
    } else {
        let prev = corrupt_lines(rs.drop_last());
        match rs.last() {
            Some(_) => prev,
            None => prev.push(rs.len() - 1),
        }
    }
}

/// The derivation succeeds on this salt and passphrase.
pub open spec fn derivation_ok(passphrase: Seq<u8>, salt: Seq<u8>) -> bool {
    MIN_SALT_LEN <= salt.len() <= 0xFFFF_FFFF && passphrase.len() <= 0xFFFF_FFFF
}

/// The vault core of one user: locked, or unlocked with the derived master key
/// and the identity's loaded records, or closed.
pub struct Session {
    state: SessionState,
    key: Option<SecretBytes>,
    identity: String,
    entries: Vec<VaultEntry>,
}

impl Session {
    pub closed spec fn spec_state(&self) -> SessionState {
        self.state
    }

    /// The master key held, if any.
    pub closed spec fn spec_key(&self) -> Option<Seq<u8>> {
        match self.key {
            Some(k) => Some(k@),
            None => None,
        }
    }

    /// The loaded records, as (label, blob) pairs in order.
    pub closed spec fn spec_entries(&self) -> Seq<(Seq<u8>, Seq<u8>)> {
        self.entries@.map_values(|e: VaultEntry| e.spec_pair())
    }

    pub closed spec fn spec_identity(&self) -> Seq<char> {
        self.identity@
    }

    /// A key is held exactly when unlocked, it has the key length, records
    /// are loaded only while unlocked, and every label is valid.
    pub open spec fn wf(&self) -> bool {
        &&& (self.spec_state() == SessionState::Unlocked) == (self.spec_key() is Some)
        &&& self.spec_key() matches Some(k) ==> k.len() == KEY_LEN
        &&& self.spec_state() != SessionState::Unlocked ==> self.spec_entries().len() == 0
        &&& forall|i: int| 0 <= i < self.spec_entries().len() ==> valid_label(#[trigger] self.spec_entries()[i].0)
    }

    /// A locked session with nothing loaded.
    pub fn new() -> (r: Self)
        ensures
            r.wf(),
            r.spec_state() == SessionState::Locked,
            r.spec_key() is None,
            r.spec_entries().len() == 0,
    {
        let r = Session { state: SessionState::Locked, key: None, identity: String::new(), entries: Vec::new() };
        assert(r.spec_entries() =~= Seq::<(Seq<u8>, Seq<u8>)>::empty());
        r
    }

    pub fn state(&self) -> (r: SessionState)
        ensures
            r == self.spec_state(),
    {
        self.state
    }

    /// Number of loaded records.
    pub fn len(&self) -> (r: usize)
        ensures
            r == self.spec_entries().len(),
    {
        self.entries.len()
    }

    /// The label of the record at `index`.
    pub fn label(&self, index: usize) -> (r: &Vec<u8>)
        requires
            index < self.spec_entries().len(),
        ensures
            r@ == self.spec_entries()[index as int].0,
    {
        &self.entries[index].label
    }

    /// The position of the record that a lookup by label reveals. Labels may
    /// repeat, since every append is kept; the latest record with the label
    /// wins. `None` when no loaded record has it.
    pub fn position_of(&self, label: &[u8]) -> (r: Option<usize>)
        ensures
            r matches Some(i) ==> i < self.spec_entries().len() && self.spec_entries()[i as int].0 == label@
                && forall|j: int| i < j < self.spec_entries().len() ==> self.spec_entries()[j].0 != label@,
            r is None ==> forall|j: int| 0 <= j < self.spec_entries().len() ==> self.spec_entries()[j].0 != label@,
    {
        let mut k: usize = self.entries.len();
        while k > 0
            invariant
                k <= self.entries@.len(),
                forall|j: int| k <= j < self.spec_entries().len() ==> self.spec_entries()[j].0 != label@,
            decreases k,
        {
            k = k - 1;
            if bytes_equal(self.entries[k].label.as_slice(), label) {
                return Some(k);
            }
        }
        None
    }

    /// The identity whose vault is loaded.
    pub fn identity(&self) -> (r: &String)
        ensures
            r@ == self.spec_identity(),
    {
        &self.identity
    }

    /// Submits an identity and a passphrase, with the salt the host configured
    /// and the text of the identity's vault file. On success the session is
    /// unlocked with the derived key, holds the records that parsed, in file
    /// order, and the positions of the lines that did not parse are returned.
    /// On failure nothing changes: a closed session stays closed
    /// (`Locked`), an empty passphrase is `InvalidInput`, and a salt or
    /// passphrase that Argon2 refuses is `KeyDerivationError`.
    pub fn unlock(&mut self, identity: &str, passphrase: &str, salt: &[u8], file_text: &[u8]) -> (r: Result<Vec<usize>, VaultError>)
        requires
            old(self).wf(),
        ensures
            final(self).wf(),
            r is Err <==> (old(self).spec_state() == SessionState::Closed || passphrase@.len() == 0
                || !derivation_ok(passphrase.spec_bytes(), salt@)),
            r matches Err(e) ==> *final(self) == *old(self),
            r matches Err(e) ==> (old(self).spec_state() == SessionState::Closed ==> e == VaultError::Locked),
            r matches Err(e) ==> (old(self).spec_state() != SessionState::Closed && passphrase@.len() == 0
                ==> e == VaultError::InvalidInput),
            r matches Err(e) ==> (old(self).spec_state() != SessionState::Closed && passphrase@.len() != 0
                ==> e == VaultError::KeyDerivationError),
            r matches Ok(corrupt) ==> {
                &&& final(self).spec_state() == SessionState::Unlocked
                &&& final(self).spec_key() == Some(derived_key(passphrase.spec_bytes(), salt@))
                &&& final(self).spec_entries() == valid_records(file_records(file_text@))
                &&& corrupt@.map_values(|i: usize| i as int) == corrupt_lines(file_records(file_text@))
                &&& final(self).spec_identity() == identity@
            },
    {
        if self.state == SessionState::Closed {
            return Err(VaultError::Locked);
        }
        if passphrase.is_empty() {
            return Err(VaultError::InvalidInput);
        }
        let key = match hash_password(passphrase, salt) {
            Ok(k) => k,
            Err(e) => return Err(e),
        };
        let records = parse_vault(file_text);
        let ghost recs = file_records(file_text@);
        let mut entries: Vec<VaultEntry> = Vec::new();
        let mut corrupt: Vec<usize> = Vec::new();
        let mut j: usize = 0;
        assert(recs.take(0) =~= Seq::<Option<(Seq<u8>, Seq<u8>)>>::empty());
        while j < records.len()
            invariant
                j <= records@.len(),
                records@.len() == recs.len(),
                recs == file_records(file_text@),
                forall|i: int| 0 <= i < records@.len() ==> parsed_as(#[trigger] records@[i], vault_lines(file_text@)[i]),
                entries@.map_values(|e: VaultEntry| e.spec_pair()) == valid_records(recs.take(j as int)),
                corrupt@.map_values(|i: usize| i as int) == corrupt_lines(recs.take(j as int)),
                forall|i: int| 0 <= i < entries@.len() ==> valid_label(#[trigger] entries@[i].label@),
            decreases records@.len() - j,
        {
            assert(recs.take(j + 1).drop_last() =~= recs.take(j as int));
            assert(parsed_as(records@[j as int], vault_lines(file_text@)[j as int]));
            let ghost before_e = entries@;
            let ghost before_c = corrupt@;
            match &records[j] {
                Ok(e) => {
                    let label = e.label.clone();
                    let ciphertext = e.ciphertext.clone();
                    entries.push(VaultEntry { label, ciphertext });
                    proof {
                        let line = vault_lines(file_text@)[j as int];
                        assert(recs[j as int] == line_record(line));
                        let rec = choose|rec: (Seq<u8>, Seq<u8>)| crate::store::is_record_of(line, rec);
                        assert(crate::store::is_record_of(line, rec));
                        assert(entries@ =~= before_e.push(entries@.last()));
                        assert(entries@.map_values(|e: VaultEntry| e.spec_pair()) =~= before_e.map_values(
                            |e: VaultEntry| e.spec_pair(),
                        ).push(entries@.last().spec_pair()));
                    }
                },
                Err(_) => {
                    corrupt.push(j);
                    proof {
                        assert(corrupt@.map_values(|i: usize| i as int) =~= before_c.map_values(
                            |i: usize| i as int,
                        ).push(j as int));
                    }
                },
            }
            j = j + 1;
        }
        assert(recs.take(recs.len() as int) =~= recs);
        self.key = Some(SecretBytes::new(key));
        self.state = SessionState::Unlocked;
        self.entries = entries;
        self.identity = identity.to_owned();
        Ok(corrupt)
    }

    /// Encrypts `plaintext` under the held key into a record labelled `label`.
    /// The record is not part of the vault until `commit_entry` takes it, which
    /// the host does once the record's line is durably written.
    pub fn seal_entry(&self, label: &str, plaintext: &str) -> (r: Result<VaultEntry, VaultError>)
        requires
            self.wf(),
            payload_fits(plaintext.spec_bytes().len() as int),
        ensures
            r is Err <==> (self.spec_state() != SessionState::Unlocked || !valid_label(label.spec_bytes())),
            r matches Err(e) ==> (self.spec_state() != SessionState::Unlocked ==> e == VaultError::Locked),
            r matches Err(e) ==> (self.spec_state() == SessionState::Unlocked ==> e == VaultError::InvalidInput),
            r matches Ok(e) ==> {
                &&& e.label@ == label.spec_bytes()
                &&& sealed_under(e.ciphertext@, self.spec_key()->0, plaintext.spec_bytes())
                &&& decrypt_spec(e.ciphertext@, self.spec_key()->0) == Some(plaintext.spec_bytes())
            },
    {
        self.seal_bytes(label, plaintext.as_bytes())
    }

    /// Draws a fresh password of `GENERATED_LEN` letters and digits and
    /// encrypts it under the held key into a record labelled `label`, as
    /// `seal_entry` does.
    pub fn seal_generated(&self, label: &str) -> (r: Result<VaultEntry, VaultError>)
        requires
            self.wf(),
        ensures
            r is Err <==> (self.spec_state() != SessionState::Unlocked || !valid_label(label.spec_bytes())),
            r matches Err(e) ==> (self.spec_state() != SessionState::Unlocked ==> e == VaultError::Locked),
            r matches Err(e) ==> (self.spec_state() == SessionState::Unlocked ==> e == VaultError::InvalidInput),
            r matches Ok(e) ==> {
                &&& e.label@ == label.spec_bytes()
                &&& exists|p: Seq<u8>| {
                    &&& p.len() == GENERATED_LEN
                    &&& forall|i: int| 0 <= i < p.len() ==> is_alphanumeric(#[trigger] p[i])
                    &&& sealed_under(e.ciphertext@, self.spec_key()->0, p)
                    &&& #[trigger] decrypt_spec(e.ciphertext@, self.spec_key()->0) == Some(p)
                }
            },
    {
        if self.state != SessionState::Unlocked {
            return Err(VaultError::Locked);
        }
        let password = SecretBytes::new(random_alphanumeric(GENERATED_LEN));
        let r = self.seal_bytes(label, password.expose().as_slice());
        proof {
            if r is Ok {
                assert(decrypt_spec(r->Ok_0.ciphertext@, self.spec_key()->0) == Some(password@));
            }
        }
        r
    }

    fn seal_bytes(&self, label: &str, plaintext: &[u8]) -> (r: Result<VaultEntry, VaultError>)
        requires
            self.wf(),
            payload_fits(plaintext@.len() as int),
        ensures
            r is Err <==> (self.spec_state() != SessionState::Unlocked || !valid_label(label.spec_bytes())),
            r matches Err(e) ==> (self.spec_state() != SessionState::Unlocked ==> e == VaultError::Locked),
            r matches Err(e) ==> (self.spec_state() == SessionState::Unlocked ==> e == VaultError::InvalidInput),
            r matches Ok(e) ==> {
                &&& e.label@ == label.spec_bytes()
                &&& sealed_under(e.ciphertext@, self.spec_key()->0, plaintext@)
                &&& decrypt_spec(e.ciphertext@, self.spec_key()->0) == Some(plaintext@)
            },
    {
        let key = match &self.key {
            Some(k) => k,
            None => return Err(VaultError::Locked),
        };
        let label_bytes = label.as_bytes();
        if !is_valid_label(label_bytes) {
            return Err(VaultError::InvalidInput);
        }
        let ciphertext = encrypt_bytes(plaintext, key.expose().as_slice());
        Ok(VaultEntry { label: vstd::slice::slice_to_vec(label_bytes), ciphertext })
    }

    /// Appends a sealed record to the loaded vault; the host calls this only
    /// after the record's line has been durably written. Nothing changes on
    /// error: `Locked` when the session is not unlocked, `InvalidInput` for a
    /// label that a record line cannot hold.
    pub fn commit_entry(&mut self, entry: VaultEntry) -> (r: Result<(), VaultError>)
        requires
            old(self).wf(),
        ensures
            final(self).wf(),
            r is Ok <==> (old(self).spec_state() == SessionState::Unlocked && valid_label(entry.label@)),
            r is Ok ==> final(self).spec_entries() == old(self).spec_entries().push(entry.spec_pair()),
            r is Ok ==> final(self).spec_state() == old(self).spec_state(),
            r is Ok ==> final(self).spec_key() == old(self).spec_key(),
            r is Ok ==> final(self).spec_identity() == old(self).spec_identity(),
            r matches Err(e) ==> *final(self) == *old(self),
            r matches Err(e) ==> (old(self).spec_state() != SessionState::Unlocked ==> e == VaultError::Locked),
            r matches Err(e) ==> (old(self).spec_state() == SessionState::Unlocked ==> e == VaultError::InvalidInput),
    {
        if self.state != SessionState::Unlocked {
            return Err(VaultError::Locked);
        }
        if !is_valid_label(entry.label.as_slice()) {
            return Err(VaultError::InvalidInput);
        }
        let ghost pair = entry.spec_pair();
        self.entries.push(entry);
        assert(self.spec_entries() =~= old(self).spec_entries().push(pair));
        Ok(())
    }

    /// Decrypts the record at `index` under the held key. The plaintext comes
    /// back in a `SecretBytes`, which erases it when dropped.
    pub fn reveal_secret(&self, index: usize) -> (r: Result<SecretBytes, VaultError>)
        requires
            self.wf(),
        ensures
            r matches Ok(p) ==> {
                &&& self.spec_state() == SessionState::Unlocked
                &&& index < self.spec_entries().len()
                &&& decrypt_spec(self.spec_entries()[index as int].1, self.spec_key()->0) == Some(p@)
            },
            r matches Err(e) ==> {
                ||| (self.spec_state() != SessionState::Unlocked && e == VaultError::Locked)
                ||| (self.spec_state() == SessionState::Unlocked && index >= self.spec_entries().len()
                    && e == VaultError::InvalidInput)
                ||| (self.spec_state() == SessionState::Unlocked && index < self.spec_entries().len()
                    && decrypt_spec(self.spec_entries()[index as int].1, self.spec_key()->0) is None
                    && e == VaultError::AuthenticationFailure)
            },
    {
        let key = match &self.key {
            Some(k) => k,
            None => return Err(VaultError::Locked),
        };
        if index >= self.entries.len() {
            return Err(VaultError::InvalidInput);
        }
        match decrypt(self.entries[index].ciphertext.as_slice(), key.expose().as_slice()) {
            Ok(p) => Ok(SecretBytes::new(p)),
            Err(e) => Err(e),
        }
    }

    /// Drops the master key (which erases it) and the loaded records; the
    /// vault file is untouched. A closed session stays closed.
    pub fn lock(&mut self)
        requires
            old(self).wf(),
        ensures
            final(self).wf(),
            final(self).spec_state() == (if old(self).spec_state() == SessionState::Closed {
                SessionState::Closed
            } else {
                SessionState::Locked
            }),
            final(self).spec_key() is None,
            final(self).spec_entries().len() == 0,
    {
        self.key = None;
        self.entries = Vec::new();
        self.identity = String::new();
        if self.state == SessionState::Unlocked {
            self.state = SessionState::Locked;
        }
    }

    /// Ends the session for good, erasing any held key.
    pub fn quit(&mut self)
        requires
            old(self).wf(),
        ensures
            final(self).wf(),
            final(self).spec_state() == SessionState::Closed,
            final(self).spec_key() is None,
            final(self).spec_entries().len() == 0,
    {
        self.key = None;
        self.entries = Vec::new();
        self.identity = String::new();
        self.state = SessionState::Closed;
    }
}

/// Reopening after a committed append: unlocking on a vault file to which the
/// line of record `rec` was appended loads the records loaded before, in
/// order, followed by `rec`.
pub proof fn lemma_reload_after_append(text: Seq<u8>, line: Seq<u8>, rec: (Seq<u8>, Seq<u8>))
    requires
        ends_at_line_start(text),
        no_newline(line),
        line_record(line) == Some(rec),
    ensures
        valid_records(file_records(text + line.push(NEWLINE))) == valid_records(file_records(text)).push(rec),
{
    lemma_reopen_after_append(text, line, rec);
    let after = file_records(text).push(Some(rec));
    assert(after.drop_last() =~= file_records(text));
}

} // verus!

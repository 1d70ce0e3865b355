use base64::prelude::BASE64_STANDARD;
use base64::Engine;
use vstd::prelude::*;

use crate::error::VaultError;

verus! {

/// The byte `=` that ends a label in a record line.
pub const SEPARATOR: u8 = 61;

/// The byte that ends each record line.
pub const NEWLINE: u8 = 10;

#[verifier::external_type_specification]
#[verifier::external_body]
pub struct ExDecodeError(base64::DecodeError);

/// The padded standard-alphabet base64 text of `bytes`.
pub uninterp spec fn base64_standard(bytes: Seq<u8>) -> Seq<u8>;

/// Relies on base64's `Engine::encode` with the STANDARD engine: padded text
/// over the standard alphabet (so no newline), from which `decode` gives the
/// bytes back, so that no other bytes have the same text.
#[verifier::external_body]
fn base64_encode(bytes: &[u8]) -> (r: Vec<u8>)
    ensures
        r@ == base64_standard(bytes@),
        forall|i: int| 0 <= i < r@.len() ==> r@[i] != NEWLINE,
        forall|other: Seq<u8>| #[trigger] base64_standard(other) == r@ ==> other == bytes@,
{
    BASE64_STANDARD.encode(bytes).into_bytes()
}

/// Relies on base64's `Engine::decode` with the STANDARD engine, which demands
/// canonical padding and no trailing bits: it accepts exactly the texts that
/// `encode` produces, and returns the bytes that were encoded.
#[verifier::external_body]
fn base64_decode(text: &[u8]) -> (r: Result<Vec<u8>, base64::DecodeError>)
    ensures
        r matches Ok(b) ==> base64_standard(b@) == text@,
        r matches Ok(b) ==> forall|other: Seq<u8>| #[trigger] base64_standard(other) == text@ ==> other == b@,
        r is Err ==> forall|other: Seq<u8>| #[trigger] base64_standard(other) != text@,
{
    BASE64_STANDARD.decode(text)
}

/// One stored credential: a label and the encrypted secret (nonce, ciphertext, tag).
pub struct VaultEntry {
    pub label: Vec<u8>,
    pub ciphertext: Vec<u8>,
}

impl VaultEntry {
    pub open spec fn spec_pair(&self) -> (Seq<u8>, Seq<u8>) {
        (self.label@, self.ciphertext@)
    }
}

/// A label that a record line can hold: not empty, with no `=` and no newline.
pub open spec fn valid_label(label: Seq<u8>) -> bool {
    &&& label.len() > 0
    &&& forall|i: int| 0 <= i < label.len() ==> label[i] != SEPARATOR && label[i] != NEWLINE
}

/// The line (without its newline) that stores `label` and `blob`: `label=base64(blob)`.
pub open spec fn record_line(label: Seq<u8>, blob: Seq<u8>) -> Seq<u8> {
    label + seq![SEPARATOR] + base64_standard(blob)
}

pub open spec fn is_record_of(line: Seq<u8>, rec: (Seq<u8>, Seq<u8>)) -> bool {
    valid_label(rec.0) && record_line(rec.0, rec.1) == line
}

/// The (label, blob) record that a line stores, or `None` for a malformed line.
pub open spec fn line_record(line: Seq<u8>) -> Option<(Seq<u8>, Seq<u8>)> {
    if exists|rec: (Seq<u8>, Seq<u8>)| is_record_of(line, rec) {
        Some(choose|rec: (Seq<u8>, Seq<u8>)| is_record_of(line, rec))
    } else {
        None
    }
}

/// `s` split at each newline: the completed pieces, then what follows the last newline.
pub open spec fn split_newlines(s: Seq<u8>) -> Seq<Seq<u8>>
    decreases s.len(),
{
    if s.len() == 0 {
        seq![Seq::<u8>::empty()]
    } else {
        let prev = split_newlines(s.drop_last());
        if s.last() == NEWLINE {
            prev.push(Seq::<u8>::empty())
        } else {
            prev.update(prev.len() - 1, prev.last().push(s.last()))
        }
    }
}

/// The lines of a vault file: the pieces between newlines, where a final
/// newline ends the last line rather than starting an empty one.
pub open spec fn vault_lines(s: Seq<u8>) -> Seq<Seq<u8>> {
    let pieces = split_newlines(s);
    if pieces.last().len() == 0 {
        pieces.drop_last()
    } else {
        pieces
    }
}

/// What opening a vault file yields, line by line.
pub open spec fn file_records(s: Seq<u8>) -> Seq<Option<(Seq<u8>, Seq<u8>)>> {
    vault_lines(s).map_values(|l: Seq<u8>| line_record(l))
}

/// `s` is empty or ends with a newline: a record appended to it starts a line.
pub open spec fn ends_at_line_start(s: Seq<u8>) -> bool {
    s.len() == 0 || s.last() == NEWLINE
}

pub open spec fn no_newline(s: Seq<u8>) -> bool {
    forall|i: int| 0 <= i < s.len() ==> s[i] != NEWLINE
}

/// The outcome of parsing one line agrees with `line_record`.
pub open spec fn parsed_as(r: Result<VaultEntry, VaultError>, line: Seq<u8>) -> bool {
    match r {
        Ok(e) => line_record(line) == Some(e.spec_pair()),
        Err(e) => line_record(line) is None && e == VaultError::StorageCorruption,
    }
}

proof fn lemma_split_nonempty(s: Seq<u8>)
    ensures
        split_newlines(s).len() >= 1,
    decreases s.len(),
{
    if s.len() > 0 {
        lemma_split_nonempty(s.drop_last());
    }
}

proof fn lemma_split_no_newline(s: Seq<u8>)
    requires
        no_newline(s),
    ensures
        split_newlines(s) == seq![s],
    decreases s.len(),
{
    if s.len() > 0 {
        lemma_split_no_newline(s.drop_last());
        assert(s.drop_last().push(s.last()) =~= s);
        assert(seq![s.drop_last()].update(0, s.drop_last().push(s.last())) =~= seq![s]);
    } else {
        assert(s =~= Seq::<u8>::empty());
    }
}

proof fn lemma_split_concat(a: Seq<u8>, b: Seq<u8>)
    requires
        ends_at_line_start(a),
    ensures
        split_newlines(a).last().len() == 0,
        split_newlines(a + b) == split_newlines(a).drop_last() + split_newlines(b),
    decreases b.len(),
{
    lemma_split_nonempty(a);
    if a.len() > 0 {
        lemma_split_nonempty(a.drop_last());
    }
    if b.len() == 0 {
        assert(a + b =~= a);
        assert(split_newlines(a) =~= split_newlines(a).drop_last() + seq![Seq::<u8>::empty()]);
    } else {
        lemma_split_concat(a, b.drop_last());
        assert((a + b).drop_last() =~= a + b.drop_last());
        lemma_split_nonempty(b.drop_last());
        let x = split_newlines(a).drop_last();
        let y = split_newlines(b.drop_last());
        if b.last() == NEWLINE {
            assert((x + y).push(Seq::<u8>::empty()) =~= x + y.push(Seq::<u8>::empty()));
        } else {
            assert((x + y).update((x + y).len() - 1, (x + y).last().push(b.last())) =~= x + y.update(
                y.len() - 1,
                y.last().push(b.last()),
            ));
        }
    }
}

/// The lines of two files laid end to end, the first ending at a line start,
/// are the lines of the first followed by the lines of the second.
pub proof fn lemma_lines_concat(a: Seq<u8>, b: Seq<u8>)
    requires
        ends_at_line_start(a),
    ensures
        vault_lines(a + b) == vault_lines(a) + vault_lines(b),
{
    lemma_split_concat(a, b);
    lemma_split_nonempty(b);
    let x = split_newlines(a).drop_last();
    let y = split_newlines(b);
    assert((x + y).last() == y.last());
    if y.last().len() == 0 {
        assert((x + y).drop_last() =~= x + y.drop_last());
    }
}

/// One line without a newline, followed by a newline, is a file of that single line.
pub proof fn lemma_lines_single(line: Seq<u8>)
    requires
        no_newline(line),
    ensures
        vault_lines(line.push(NEWLINE)) == seq![line],
{
    lemma_split_no_newline(line);
    assert(line.push(NEWLINE).drop_last() =~= line);
    assert(seq![line].push(Seq::<u8>::empty()).drop_last() =~= seq![line]);
}

/// Reopening after an append: appending a well-formed record line (with its
/// newline) to a vault file yields the records read before, in order,
/// followed by the new one.
pub proof fn lemma_reopen_after_append(text: Seq<u8>, line: Seq<u8>, rec: (Seq<u8>, Seq<u8>))
    requires
        ends_at_line_start(text),
        no_newline(line),
        line_record(line) == Some(rec),
    ensures
        file_records(text + line.push(NEWLINE)) == file_records(text).push(Some(rec)),
{
    lemma_lines_concat(text, line.push(NEWLINE));
    lemma_lines_single(line);
    assert(file_records(text + line.push(NEWLINE)) =~= file_records(text).push(Some(rec)));
}

/// A malformed line among well-formed ones is reported on its own: the lines
/// before and after it are read exactly as they would be without it.
pub proof fn lemma_corrupt_line_isolated(before: Seq<u8>, bad: Seq<u8>, after: Seq<u8>)
    requires
        ends_at_line_start(before),
        no_newline(bad),
        line_record(bad) is None,
    ensures
        file_records(before + bad.push(NEWLINE) + after) == file_records(before) + seq![
            None::<(Seq<u8>, Seq<u8>)>,
        ] + file_records(after),
{
    let mid = bad.push(NEWLINE);
    lemma_lines_concat(before, mid);
    assert(ends_at_line_start(before + mid));
    lemma_lines_concat(before + mid, after);
    lemma_lines_single(bad);
    assert(file_records(before + mid + after) =~= file_records(before) + seq![
        None::<(Seq<u8>, Seq<u8>)>,
    ] + file_records(after));
}

/// A line stores at most one record: the label ends at the first `=`, and
/// the text after it encodes one blob only.
proof fn lemma_record_unique(line: Seq<u8>, label: Seq<u8>, blob: Seq<u8>)
    requires
        valid_label(label),
        line == record_line(label, blob),
        forall|other: Seq<u8>| #[trigger] base64_standard(other) == base64_standard(blob) ==> other == blob,
    ensures
        line_record(line) == Some((label, blob)),
{
    assert(is_record_of(line, (label, blob)));
    let rec = choose|rec: (Seq<u8>, Seq<u8>)| is_record_of(line, rec);
    lemma_label_ends_at_separator(line, label, rec.0, rec.1);
    assert forall|i: int| 0 <= i < label.len() implies rec.0[i] == label[i] by {
        assert(line[i] == label[i]);
        assert(line[i] == rec.0[i]);
    }
    assert(rec.0 =~= label);
    assert(base64_standard(rec.1) =~= line.subrange(label.len() + 1int, line.len() as int));
    assert(base64_standard(blob) =~= line.subrange(label.len() + 1int, line.len() as int));
}

/// Two records that give one line have labels of one length.
proof fn lemma_label_ends_at_separator(line: Seq<u8>, l1: Seq<u8>, l2: Seq<u8>, b2: Seq<u8>)
    requires
        valid_label(l1),
        line.len() > l1.len(),
        line[l1.len() as int] == SEPARATOR,
        forall|i: int| 0 <= i < l1.len() ==> line[i] == l1[i],
        is_record_of(line, (l2, b2)),
    ensures
        l2.len() == l1.len(),
{
    if l2.len() < l1.len() {
        assert(line[l2.len() as int] == SEPARATOR);
        assert(l1[l2.len() as int] != SEPARATOR);
    } else if l2.len() > l1.len() {
        assert(l2[l1.len() as int] == line[l1.len() as int]);
    }
}

/// Whether a record line can hold `label`.
pub fn is_valid_label(label: &[u8]) -> (r: bool)
    ensures
        r == valid_label(label@),
{
    if label.len() == 0 {
        return false;
    }
    let mut i: usize = 0;
    while i < label.len()
        invariant
            i <= label@.len(),
            forall|j: int| 0 <= j < i ==> label@[j] != SEPARATOR && label@[j] != NEWLINE,
        decreases label@.len() - i,
    {
        if label[i] == SEPARATOR || label[i] == NEWLINE {
            return false;
        }
        i = i + 1;
    }
    true
}

/// The line, newline included, that stores `entry` in its vault file.
pub fn format_record(entry: &VaultEntry) -> (r: Vec<u8>)
    requires
        valid_label(entry.label@),
    ensures
        r@ == record_line(entry.label@, entry.ciphertext@).push(NEWLINE),
        no_newline(record_line(entry.label@, entry.ciphertext@)),
        line_record(record_line(entry.label@, entry.ciphertext@)) == Some(entry.spec_pair()),
{
    let mut out = entry.label.clone();
    out.push(SEPARATOR);
    let mut encoded = base64_encode(entry.ciphertext.as_slice());
    let ghost enc = encoded@;
    out.append(&mut encoded);
    proof {
        assert(out@ =~= record_line(entry.label@, entry.ciphertext@));
        lemma_record_unique(out@, entry.label@, entry.ciphertext@);
        assert forall|i: int| 0 <= i < out@.len() implies out@[i] != NEWLINE by {
            if i > entry.label@.len() {
                assert(out@[i] == enc[i - entry.label@.len() - 1]);
            }
        }
    }
    out.push(NEWLINE);
    out
}

/// Parses one line (without its newline) as `label=base64(blob)`: the label
/// runs to the first `=`, must be a valid label, and the rest must be
/// canonical base64. Anything else is a corrupt record.
pub fn parse_line(line: &[u8]) -> (r: Result<VaultEntry, VaultError>)
    ensures
        parsed_as(r, line@),
{
    let mut k: usize = 0;
    let mut label_ok = true;
    while k < line.len() && line[k] != SEPARATOR
        invariant
            k <= line@.len(),
            forall|j: int| 0 <= j < k ==> line@[j] != SEPARATOR,
            label_ok <==> forall|j: int| 0 <= j < k ==> line@[j] != NEWLINE,
        decreases line@.len() - k,
    {
        if line[k] == NEWLINE {
            label_ok = false;
        }
        k = k + 1;
    }
    if k == line.len() {
        proof {
            assert forall|rec: (Seq<u8>, Seq<u8>)| !is_record_of(line@, rec) by {
                if is_record_of(line@, rec) {
                    assert(line@[rec.0.len() as int] == SEPARATOR);
                }
            }
        }
        return Err(VaultError::StorageCorruption);
    }
    if k == 0 || !label_ok {
        proof {
            assert forall|rec: (Seq<u8>, Seq<u8>)| !is_record_of(line@, rec) by {
                if is_record_of(line@, rec) {
                    assert(line@[rec.0.len() as int] == SEPARATOR);
                    assert(rec.0[0] == line@[0]);
                    assert(rec.0.len() == k);
                    if !label_ok {
                        let j = choose|j: int| 0 <= j < k && line@[j] == NEWLINE;
                        assert(rec.0[j] == line@[j]);
                    }
                }
            }
        }
        return Err(VaultError::StorageCorruption);
    }
    let label = vstd::slice::slice_to_vec(vstd::slice::slice_subrange(line, 0, k));
    let payload = vstd::slice::slice_subrange(line, k + 1, line.len());
    proof {
        assert(valid_label(label@));
    }
    match base64_decode(payload) {
        Ok(blob) => {
            proof {
                assert(line@ =~= record_line(label@, blob@));
                lemma_record_unique(line@, label@, blob@);
            }
            Ok(VaultEntry { label, ciphertext: blob })
        },
        Err(_) => {
            proof {
                assert forall|rec: (Seq<u8>, Seq<u8>)| !is_record_of(line@, rec) by {
                    if is_record_of(line@, rec) {
                        lemma_label_ends_at_separator(line@, label@, rec.0, rec.1);
                        assert(base64_standard(rec.1) =~= payload@);
                    }
                }
            }
            Err(VaultError::StorageCorruption)
        },
    }
}

/// Parses a whole vault file, line by line and in file order. A malformed line
/// gives a `StorageCorruption` in its place and does not stop the lines after it.
pub fn parse_vault(text: &[u8]) -> (r: Vec<Result<VaultEntry, VaultError>>)
    ensures
        r@.len() == vault_lines(text@).len(),
        forall|i: int| 0 <= i < r@.len() ==> parsed_as(#[trigger] r@[i], vault_lines(text@)[i]),
{
    let mut out: Vec<Result<VaultEntry, VaultError>> = Vec::new();
    let ghost mut done: Seq<Seq<u8>> = Seq::empty();
    let mut start: usize = 0;
    let mut i: usize = 0;
    assert(text@.take(0) =~= Seq::<u8>::empty());
    while i < text.len()
        invariant
            start <= i <= text@.len(),
            split_newlines(text@.take(i as int)) == done.push(text@.subrange(start as int, i as int)),
            out@.len() == done.len(),
            forall|j: int| 0 <= j < out@.len() ==> parsed_as(#[trigger] out@[j], done[j]),
        decreases text@.len() - i,
    {
        let ghost cur = text@.subrange(start as int, i as int);
        assert(text@.take(i + 1).drop_last() =~= text@.take(i as int));
        if text[i] == NEWLINE {
            let line = vstd::slice::slice_subrange(text, start, i);
            let parsed = parse_line(line);
            out.push(parsed);
            proof {
                done = done.push(cur);
                assert(text@.subrange((i + 1) as int, (i + 1) as int) =~= Seq::<u8>::empty());
            }
            start = i + 1;
        } else {
            proof {
                assert(cur.push(text@[i as int]) =~= text@.subrange(start as int, i + 1));
                assert(done.push(cur).update(done.len() as int, cur.push(text@[i as int])) =~= done.push(
                    text@.subrange(start as int, i + 1),
                ));
            }
        }
        i = i + 1;
    }
    assert(text@.take(text@.len() as int) =~= text@);
    if start < text.len() {
        let line = vstd::slice::slice_subrange(text, start, text.len());
        let parsed = parse_line(line);
        out.push(parsed);
        proof {
            done = done.push(line@);
        }
    } else {
        assert(done.push(text@.subrange(start as int, i as int)).drop_last() =~= done);
    }
    out
}

} // verus!

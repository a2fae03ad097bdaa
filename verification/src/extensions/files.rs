//! File actions of packages: prepared, confirmed by the host's user, and applied exactly as confirmed.

use vstd::bytes::{spec_u64_to_le_bytes, u64_to_le_bytes};
use vstd::prelude::*;
use vstd::utf8::encode_utf8;
use super::error::ExtensionError;
use super::file_commit::{same_snapshot, FileIdentity, FileSnapshot, FileVersion};
use super::ids::{is_package_id, ExtensionPackageId};
use super::packages::changed_at;
use super::runtime::{
    refused_by, ExtensionRuntime, FileConfirmation, FileConfirmationRecord, FileTransaction,
    FileTransactionOperation, FileTransactionPreview, EXTENSION_FILE_BYTES,
};
use crate::bytes::{push_all, same_bytes};
use crate::outside::{hash_text, text_hash};
use crate::table::TableKey;
use crate::text::{
    hex_digit, hexadecimal, hexadecimal_is_injective, hexadecimal_length, hexadecimal_text, join, same_text, texts,
};

verus! {

/// What a look at the file of a new action gave.
#[derive(Debug)]
pub enum TargetLook {
    Missing,
    Denied(String),
    TooLarge(String),
    Unreadable(String),
    Found(FileSnapshot),
}

impl FileTransactionPreview {
    pub open spec fn same(self, other: Self) -> bool {
        &&& self.path@ == other.path@
        &&& self.existed == other.existed
        &&& self.before_bytes == other.before_bytes
        &&& self.after_bytes == other.after_bytes
        &&& self.changed == other.changed
        &&& self.destructive == other.destructive
    }

    /// A copy of this preview.
    pub fn copy(&self) -> (out: Self)
        ensures
            out == *self,
    {
        FileTransactionPreview {
            path: self.path.clone(),
            existed: self.existed,
            before_bytes: self.before_bytes,
            after_bytes: self.after_bytes,
            changed: self.changed,
            destructive: self.destructive,
        }
    }

    /// Whether two previews are the same.
    pub fn is(&self, other: &Self) -> (out: bool)
        ensures
            out == self.same(*other),
    {
        same_text(&self.path, &other.path) && self.existed == other.existed && self.before_bytes
            == other.before_bytes && self.after_bytes == other.after_bytes && self.changed
            == other.changed && self.destructive == other.destructive
    }
}

/// Whether two lists of previews are the same.
pub open spec fn same_previews(a: Seq<FileTransactionPreview>, b: Seq<FileTransactionPreview>) -> bool {
    a.len() == b.len() && forall|i: int| 0 <= i < a.len() ==> (#[trigger] a[i]).same(b[i])
}

fn previews_match(a: &Vec<FileTransactionPreview>, b: &Vec<FileTransactionPreview>) -> (out: bool)
    ensures
        out == same_previews(a@, b@),
{
    if a.len() != b.len() {
        return false;
    }
    let mut i: usize = 0;
    while i < a.len()
        invariant
            i <= a@.len(),
            a@.len() == b@.len(),
            forall|j: int| 0 <= j < i ==> (#[trigger] a@[j]).same(b@[j]),
        decreases a@.len() - i,
    {
        if !a[i].is(&b[i]) {
            assert(!a@[i as int].same(b@[i as int]));
            return false;
        }
        i = i + 1;
    }
    true
}

impl FileConfirmation {
    pub open spec fn same(self, other: Self) -> bool {
        &&& self.token@ == other.token@
        &&& self.transaction_id == other.transaction_id
        &&& self.extension.0@ == other.extension.0@
        &&& self.generation == other.generation
        &&& self.digest@ == other.digest@
        &&& self.preview.same(other.preview)
        &&& same_previews(self.previews@, other.previews@)
    }

    /// Whether two confirmations are the same.
    pub fn is(&self, other: &Self) -> (out: bool)
        ensures
            out == self.same(*other),
    {
        same_text(&self.token, &other.token) && self.transaction_id == other.transaction_id
            && same_text(&self.extension.0, &other.extension.0) && self.generation
            == other.generation && same_text(&self.digest, &other.digest) && self.preview.is(
            &other.preview,
        ) && previews_match(&self.previews, &other.previews)
    }
}

/// A text as bytes, with their number in front.
pub open spec fn text_code(s: Seq<char>) -> Seq<u8> {
    bytes_code(encode_utf8(s))
}

/// Bytes with their number in front.
pub open spec fn bytes_code(b: Seq<u8>) -> Seq<u8> {
    spec_u64_to_le_bytes(b.len() as u64) + b
}

/// A flag in one byte.
pub open spec fn flag_code(b: bool) -> Seq<u8> {
    seq![if b { 1u8 } else { 0u8 }]
}

/// An integer in eight bytes, behind one for its sign.
pub open spec fn integer_code(n: i64) -> Seq<u8> {
    if n < 0 {
        seq![1u8] + spec_u64_to_le_bytes((n - i64::MIN) as u64)
    } else {
        seq![0u8] + spec_u64_to_le_bytes(n as u64)
    }
}

/// The identity of a file, where there is one.
pub open spec fn identity_code(identity: Option<FileIdentity>) -> Seq<u8> {
    match identity {
        Some(i) => spec_u64_to_le_bytes(i.device) + spec_u64_to_le_bytes(i.inode),
        None => Seq::empty(),
    }
}

/// The version of a file, where there is one.
pub open spec fn version_code(version: Option<FileVersion>) -> Seq<u8> {
    match version {
        Some(v) => spec_u64_to_le_bytes(v.size) + integer_code(v.modified_seconds) + integer_code(
            v.modified_nanos,
        ) + integer_code(v.changed_seconds) + integer_code(v.changed_nanos),
        None => Seq::empty(),
    }
}

/// What a preview tells.
pub open spec fn preview_code(p: FileTransactionPreview) -> Seq<u8> {
    text_code(p.path@) + (flag_code(p.existed) + (spec_u64_to_le_bytes(p.before_bytes as u64) + (
    spec_u64_to_le_bytes(p.after_bytes as u64) + (flag_code(p.changed) + flag_code(
        p.destructive,
    )))))
}

/// What a file was.
pub open spec fn snapshot_code(s: FileSnapshot) -> Seq<u8> {
    flag_code(s.existed) + (identity_code(s.identity) + (version_code(s.version) + bytes_code(
        s.bytes@,
    )))
}

/// Everything of a file action that its digest depends on.
pub open spec fn transaction_code(t: FileTransaction) -> Seq<u8> {
    spec_u64_to_le_bytes(t.confirmation_id) + (text_code(t.extension.0@) + (spec_u64_to_le_bytes(
        t.generation,
    ) + (preview_code(t.preview) + (bytes_code(t.contents@) + (flag_code(t.operation is Write) + (
    snapshot_code(t.snapshot) + identity_code(t.parent_identity)))))))
}

fn put_number(out: &mut Vec<u8>, n: u64)
    ensures
        final(out)@ == old(out)@ + spec_u64_to_le_bytes(n),
{
    let code = u64_to_le_bytes(n);
    push_all(out, &code);
}

fn put_bytes(out: &mut Vec<u8>, bytes: &[u8])
    ensures
        final(out)@ == old(out)@ + bytes_code(bytes@),
{
    let ghost before = out@;
    put_number(out, bytes.len() as u64);
    push_all(out, bytes);
    assert(out@ =~= before + bytes_code(bytes@));
}

fn put_flag(out: &mut Vec<u8>, flag: bool)
    ensures
        final(out)@ == old(out)@ + flag_code(flag),
{
    let ghost before = out@;
    out.push(
        if flag {
            1u8
        } else {
            0u8
        },
    );
    assert(out@ =~= before + flag_code(flag));
}

fn put_integer(out: &mut Vec<u8>, n: i64)
    ensures
        final(out)@ == old(out)@ + integer_code(n),
{
    let ghost before = out@;
    if n < 0 {
        out.push(1u8);
        put_number(out, (n - i64::MIN) as u64);
    } else {
        out.push(0u8);
        put_number(out, n as u64);
    }
    assert(out@ =~= before + integer_code(n));
}

fn put_identity(out: &mut Vec<u8>, identity: Option<FileIdentity>)
    ensures
        final(out)@ == old(out)@ + identity_code(identity),
{
    let ghost before = out@;
    match identity {
        Some(i) => {
            put_number(out, i.device);
            put_number(out, i.inode);
        },
        None => {},
    }
    assert(out@ =~= before + identity_code(identity));
}

fn put_version(out: &mut Vec<u8>, version: Option<FileVersion>)
    ensures
        final(out)@ == old(out)@ + version_code(version),
{
    let ghost before = out@;
    match version {
        Some(v) => {
            put_number(out, v.size);
            put_integer(out, v.modified_seconds);
            put_integer(out, v.modified_nanos);
            put_integer(out, v.changed_seconds);
            put_integer(out, v.changed_nanos);
        },
        None => {},
    }
    assert(out@ =~= before + version_code(version));
}

proof fn regroup(a: Seq<u8>, b: Seq<u8>, c: Seq<u8>)
    ensures
        (a + b) + c == a + (b + c),
{
    assert((a + b) + c =~= a + (b + c));
}

fn put_preview(out: &mut Vec<u8>, p: &FileTransactionPreview)
    ensures
        final(out)@ == old(out)@ + preview_code(*p),
{
    let ghost start = out@;
    let ghost x0 = text_code(p.path@);
    let ghost x1 = flag_code(p.existed);
    let ghost x2 = spec_u64_to_le_bytes(p.before_bytes as u64);
    let ghost x3 = spec_u64_to_le_bytes(p.after_bytes as u64);
    let ghost x4 = flag_code(p.changed);
    let ghost x5 = flag_code(p.destructive);
    put_bytes(out, p.path.as_str().as_bytes());
    put_flag(out, p.existed);
    put_number(out, p.before_bytes as u64);
    put_number(out, p.after_bytes as u64);
    put_flag(out, p.changed);
    put_flag(out, p.destructive);
    proof {
        regroup(start + x0 + x1 + x2 + x3, x4, x5);
        regroup(start + x0 + x1 + x2, x3, x4 + x5);
        regroup(start + x0 + x1, x2, x3 + (x4 + x5));
        regroup(start + x0, x1, x2 + (x3 + (x4 + x5)));
        regroup(start, x0, x1 + (x2 + (x3 + (x4 + x5))));
    }
}

fn put_snapshot(out: &mut Vec<u8>, s: &FileSnapshot)
    ensures
        final(out)@ == old(out)@ + snapshot_code(*s),
{
    let ghost start = out@;
    let ghost x0 = flag_code(s.existed);
    let ghost x1 = identity_code(s.identity);
    let ghost x2 = version_code(s.version);
    let ghost x3 = bytes_code(s.bytes@);
    put_flag(out, s.existed);
    put_identity(out, s.identity);
    put_version(out, s.version);
    put_bytes(out, &s.bytes);
    proof {
        regroup(start + x0 + x1, x2, x3);
        regroup(start + x0, x1, x2 + x3);
        regroup(start, x0, x1 + (x2 + x3));
    }
}

/// Everything of a file action that its digest depends on, as bytes.
pub fn encode_transaction(t: &FileTransaction) -> (out: Vec<u8>)
    ensures
        out@ == transaction_code(*t),
{
    let mut out: Vec<u8> = Vec::new();
    let ghost start = out@;
    let ghost x0 = spec_u64_to_le_bytes(t.confirmation_id);
    let ghost x1 = text_code(t.extension.0@);
    let ghost x2 = spec_u64_to_le_bytes(t.generation);
    let ghost x3 = preview_code(t.preview);
    let ghost x4 = bytes_code(t.contents@);
    let ghost x5 = flag_code(t.operation is Write);
    let ghost x6 = snapshot_code(t.snapshot);
    let ghost x7 = identity_code(t.parent_identity);
    put_number(&mut out, t.confirmation_id);
    put_bytes(&mut out, t.extension.0.as_str().as_bytes());
    put_number(&mut out, t.generation);
    put_preview(&mut out, &t.preview);
    put_bytes(&mut out, &t.contents);
    let write = match t.operation {
        FileTransactionOperation::Write => true,
        FileTransactionOperation::Remove => false,
    };
    put_flag(&mut out, write);
    put_snapshot(&mut out, &t.snapshot);
    put_identity(&mut out, t.parent_identity);
    proof {
        assert(start + x0 =~= x0);
        regroup(x0 + x1 + x2 + x3 + x4 + x5, x6, x7);
        regroup(x0 + x1 + x2 + x3 + x4, x5, x6 + x7);
        regroup(x0 + x1 + x2 + x3, x4, x5 + (x6 + x7));
        regroup(x0 + x1 + x2, x3, x4 + (x5 + (x6 + x7)));
        regroup(x0 + x1, x2, x3 + (x4 + (x5 + (x6 + x7))));
        regroup(x0, x1, x2 + (x3 + (x4 + (x5 + (x6 + x7)))));
    }
    out
}

/// Bytes spelled out, in two hexadecimal digits each.
pub open spec fn spelled(code: Seq<u8>) -> Seq<char>
    decreases code.len(),
{
    if code.len() == 0 {
        Seq::empty()
    } else {
        spelled(code.drop_last()) + hexadecimal(code.last() as nat, 2)
    }
}

fn hex_char(digit: u8) -> (out: char)
    requires
        digit < 16,
    ensures
        out == hex_digit(digit as nat),
{
    if digit < 10 {
        (48 + digit) as char
    } else {
        (87 + digit) as char
    }
}

/// Bytes spelled out.
pub fn spell(code: &[u8]) -> (out: String)
    ensures
        out@ == spelled(code@),
{
    let mut out = String::new();
    let mut i: usize = 0;
    assert(code@.take(0) =~= Seq::<u8>::empty());
    assert(out@ =~= Seq::<char>::empty());
    while i < code.len()
        invariant
            i <= code@.len(),
            out@ == spelled(code@.take(i as int)),
        decreases code@.len() - i,
    {
        let ghost before = out@;
        let byte = code[i];
        out.push(hex_char(byte / 16));
        out.push(hex_char(byte % 16));
        proof {
            reveal_with_fuel(hexadecimal, 3);
            assert(code@.take(i + 1).drop_last() =~= code@.take(i as int));
            assert((byte as nat / 16) % 16 == byte as nat / 16);
            assert(out@ =~= before + hexadecimal(byte as nat, 2));
        }
        i = i + 1;
    }
    assert(code@.take(i as int) =~= code@);
    out
}

/// The digest of bytes: sixteen hexadecimal digits.
pub open spec fn code_digest(code: Seq<u8>) -> Seq<char> {
    hexadecimal(text_hash(spelled(code)) as nat, 16)
}

fn digest_of(code: &[u8]) -> (out: String)
    ensures
        out@ == code_digest(code@),
{
    let text = spell(code);
    let n = hash_text(&text);
    hexadecimal_text(n, 16)
}

/// The digest of a file action.
pub open spec fn action_digest(transaction: FileTransaction) -> Seq<char> {
    code_digest(transaction_code(transaction))
}

/// The digest of a file action.
pub fn file_transaction_digest(transaction: &FileTransaction) -> (out: String)
    ensures
        out@ == action_digest(*transaction),
        out@ == code_digest(transaction_code(*transaction)),
{
    let code = encode_transaction(transaction);
    digest_of(&code)
}

/// Digests in a row.
pub open spec fn digests_code(digests: Seq<Seq<char>>) -> Seq<u8>
    decreases digests.len(),
{
    if digests.len() == 0 {
        Seq::empty()
    } else {
        digests_code(digests.drop_last()) + text_code(digests.last())
    }
}

/// Digests in a row, as bytes.
pub fn encode_digests(digests: &[String]) -> (out: Vec<u8>)
    ensures
        out@ == digests_code(texts(digests@)),
{
    let ghost all = texts(digests@);
    let mut out: Vec<u8> = Vec::new();
    let mut i: usize = 0;
    while i < digests.len()
        invariant
            i <= digests@.len(),
            all == texts(digests@),
            out@ == digests_code(all.take(i as int)),
        decreases digests@.len() - i,
    {
        put_bytes(&mut out, digests[i].as_str().as_bytes());
        proof {
            assert(all.take(i + 1).drop_last() =~= all.take(i as int));
            assert(all[i as int] == digests@[i as int]@);
        }
        i = i + 1;
    }
    assert(all.take(i as int) =~= all);
    out
}

/// The digests of file actions, one for each.
pub open spec fn action_digests(transactions: Seq<FileTransaction>) -> Seq<Seq<char>> {
    transactions.map_values(|t: FileTransaction| action_digest(t))
}

/// The digest of a list of file actions: that of their digests.
pub open spec fn actions_digest(transactions: Seq<FileTransaction>) -> Seq<char> {
    code_digest(digests_code(action_digests(transactions)))
}

/// The digest of a list of file actions.
pub fn file_transactions_digest(transactions: &[FileTransaction]) -> (out: String)
    ensures
        out@ == actions_digest(transactions@),
{
    let ghost all = action_digests(transactions@);
    let mut digests: Vec<String> = Vec::new();
    let mut i: usize = 0;
    while i < transactions.len()
        invariant
            i <= transactions@.len(),
            digests@.len() == i,
            all == action_digests(transactions@),
            forall|j: int| 0 <= j < i ==> (#[trigger] digests@[j])@ == all[j],
        decreases transactions@.len() - i,
    {
        digests.push(file_transaction_digest(&transactions[i]));
        i = i + 1;
    }
    assert(texts(digests@) =~= all);
    let code = encode_digests(digests.as_slice());
    digest_of(&code)
}

/// The digest of a list of one file action.
pub(crate) fn single_transaction_digest(transaction: &FileTransaction) -> (out: String)
    ensures
        out@ == actions_digest(seq![*transaction]),
{
    let digests = vec![file_transaction_digest(transaction)];
    assert(texts(digests@) =~= action_digests(seq![*transaction]));
    let code = encode_digests(digests.as_slice());
    digest_of(&code)
}

/// Whether a snapshot of a file that existed tells which file it was and in which version, and one of
/// a file that did not tells neither.
pub open spec fn is_whole(s: FileSnapshot) -> bool {
    &&& s.identity is Some <==> s.existed
    &&& s.version is Some <==> s.existed
}

proof fn peel(a: Seq<u8>, b: Seq<u8>, r: Seq<u8>, s: Seq<u8>)
    requires
        a.len() == b.len(),
        a + r == b + s,
    ensures
        a == b,
        r == s,
{
    assert(a =~= (a + r).take(a.len() as int));
    assert(b =~= (b + s).take(b.len() as int));
    assert(r =~= (a + r).skip(a.len() as int));
    assert(s =~= (b + s).skip(b.len() as int));
}

proof fn peel_number(n: u64, m: u64, r: Seq<u8>, s: Seq<u8>)
    requires
        spec_u64_to_le_bytes(n) + r == spec_u64_to_le_bytes(m) + s,
    ensures
        n == m,
        r == s,
{
    vstd::bytes::lemma_auto_spec_u64_to_from_le_bytes();
    peel(spec_u64_to_le_bytes(n), spec_u64_to_le_bytes(m), r, s);
    assert(vstd::bytes::spec_u64_from_le_bytes(spec_u64_to_le_bytes(n)) == n);
    assert(vstd::bytes::spec_u64_from_le_bytes(spec_u64_to_le_bytes(m)) == m);
}

proof fn peel_bytes(a: Seq<u8>, b: Seq<u8>, r: Seq<u8>, s: Seq<u8>)
    requires
        a.len() <= u64::MAX,
        b.len() <= u64::MAX,
        bytes_code(a) + r == bytes_code(b) + s,
    ensures
        a == b,
        r == s,
{
    let n = spec_u64_to_le_bytes(a.len() as u64);
    let m = spec_u64_to_le_bytes(b.len() as u64);
    assert(bytes_code(a) + r =~= n + (a + r));
    assert(bytes_code(b) + s =~= m + (b + s));
    peel_number(a.len() as u64, b.len() as u64, a + r, b + s);
    peel(a, b, r, s);
}

proof fn peel_text(a: Seq<char>, b: Seq<char>, r: Seq<u8>, s: Seq<u8>)
    requires
        encode_utf8(a).len() <= u64::MAX,
        encode_utf8(b).len() <= u64::MAX,
        text_code(a) + r == text_code(b) + s,
    ensures
        a == b,
        r == s,
{
    peel_bytes(encode_utf8(a), encode_utf8(b), r, s);
    vstd::utf8::encode_utf8_decode_utf8(a);
    vstd::utf8::encode_utf8_decode_utf8(b);
}

proof fn peel_flag(a: bool, b: bool, r: Seq<u8>, s: Seq<u8>)
    requires
        flag_code(a) + r == flag_code(b) + s,
    ensures
        a == b,
        r == s,
{
    peel(flag_code(a), flag_code(b), r, s);
    assert(flag_code(a)[0] == flag_code(b)[0]);
}

proof fn peel_integer(a: i64, b: i64, r: Seq<u8>, s: Seq<u8>)
    requires
        integer_code(a) + r == integer_code(b) + s,
    ensures
        a == b,
        r == s,
{
    let n: u64 = if a < 0 {
        (a - i64::MIN) as u64
    } else {
        a as u64
    };
    let m: u64 = if b < 0 {
        (b - i64::MIN) as u64
    } else {
        b as u64
    };
    assert(integer_code(a) + r =~= flag_code(a < 0) + (spec_u64_to_le_bytes(n) + r));
    assert(integer_code(b) + s =~= flag_code(b < 0) + (spec_u64_to_le_bytes(m) + s));
    peel_flag(a < 0, b < 0, spec_u64_to_le_bytes(n) + r, spec_u64_to_le_bytes(m) + s);
    peel_number(n, m, r, s);
}

proof fn peel_identity(a: FileIdentity, b: FileIdentity, r: Seq<u8>, s: Seq<u8>)
    requires
        identity_code(Some(a)) + r == identity_code(Some(b)) + s,
    ensures
        a == b,
        r == s,
{
    let x = spec_u64_to_le_bytes(a.inode) + r;
    let y = spec_u64_to_le_bytes(b.inode) + s;
    assert(identity_code(Some(a)) + r =~= spec_u64_to_le_bytes(a.device) + x);
    assert(identity_code(Some(b)) + s =~= spec_u64_to_le_bytes(b.device) + y);
    peel_number(a.device, b.device, x, y);
    peel_number(a.inode, b.inode, r, s);
}

proof fn peel_version(a: FileVersion, b: FileVersion, r: Seq<u8>, s: Seq<u8>)
    requires
        version_code(Some(a)) + r == version_code(Some(b)) + s,
    ensures
        a == b,
        r == s,
{
    let r3 = integer_code(a.changed_nanos) + r;
    let r2 = integer_code(a.changed_seconds) + r3;
    let r1 = integer_code(a.modified_nanos) + r2;
    let r0 = integer_code(a.modified_seconds) + r1;
    let s3 = integer_code(b.changed_nanos) + s;
    let s2 = integer_code(b.changed_seconds) + s3;
    let s1 = integer_code(b.modified_nanos) + s2;
    let s0 = integer_code(b.modified_seconds) + s1;
    assert(version_code(Some(a)) + r =~= spec_u64_to_le_bytes(a.size) + r0);
    assert(version_code(Some(b)) + s =~= spec_u64_to_le_bytes(b.size) + s0);
    peel_number(a.size, b.size, r0, s0);
    peel_integer(a.modified_seconds, b.modified_seconds, r1, s1);
    peel_integer(a.modified_nanos, b.modified_nanos, r2, s2);
    peel_integer(a.changed_seconds, b.changed_seconds, r3, s3);
    peel_integer(a.changed_nanos, b.changed_nanos, r, s);
}

proof fn preview_then(p: FileTransactionPreview, r: Seq<u8>)
    ensures
        preview_code(p) + r == text_code(p.path@) + (flag_code(p.existed) + (spec_u64_to_le_bytes(
            p.before_bytes as u64,
        ) + (spec_u64_to_le_bytes(p.after_bytes as u64) + (flag_code(p.changed) + (flag_code(
            p.destructive,
        ) + r))))),
{
    let x0 = text_code(p.path@);
    let x1 = flag_code(p.existed);
    let x2 = spec_u64_to_le_bytes(p.before_bytes as u64);
    let x3 = spec_u64_to_le_bytes(p.after_bytes as u64);
    let x4 = flag_code(p.changed);
    let x5 = flag_code(p.destructive);
    regroup(x0, x1 + (x2 + (x3 + (x4 + x5))), r);
    regroup(x1, x2 + (x3 + (x4 + x5)), r);
    regroup(x2, x3 + (x4 + x5), r);
    regroup(x3, x4 + x5, r);
    regroup(x4, x5, r);
}

proof fn peel_preview(
    a: FileTransactionPreview,
    b: FileTransactionPreview,
    r: Seq<u8>,
    s: Seq<u8>,
)
    requires
        encode_utf8(a.path@).len() <= u64::MAX,
        encode_utf8(b.path@).len() <= u64::MAX,
        preview_code(a) + r == preview_code(b) + s,
    ensures
        a.same(b),
        r == s,
{
    let r4 = flag_code(a.destructive) + r;
    let r3 = flag_code(a.changed) + r4;
    let r2 = spec_u64_to_le_bytes(a.after_bytes as u64) + r3;
    let r1 = spec_u64_to_le_bytes(a.before_bytes as u64) + r2;
    let r0 = flag_code(a.existed) + r1;
    let s4 = flag_code(b.destructive) + s;
    let s3 = flag_code(b.changed) + s4;
    let s2 = spec_u64_to_le_bytes(b.after_bytes as u64) + s3;
    let s1 = spec_u64_to_le_bytes(b.before_bytes as u64) + s2;
    let s0 = flag_code(b.existed) + s1;
    preview_then(a, r);
    preview_then(b, s);
    peel_text(a.path@, b.path@, r0, s0);
    peel_flag(a.existed, b.existed, r1, s1);
    peel_number(a.before_bytes as u64, b.before_bytes as u64, r2, s2);
    peel_number(a.after_bytes as u64, b.after_bytes as u64, r3, s3);
    peel_flag(a.changed, b.changed, r4, s4);
    peel_flag(a.destructive, b.destructive, r, s);
}

proof fn peel_snapshot(a: FileSnapshot, b: FileSnapshot, r: Seq<u8>, s: Seq<u8>)
    requires
        is_whole(a),
        is_whole(b),
        a.bytes@.len() <= u64::MAX,
        b.bytes@.len() <= u64::MAX,
        snapshot_code(a) + r == snapshot_code(b) + s,
    ensures
        same_snapshot(a, b),
        r == s,
{
    let r2 = bytes_code(a.bytes@) + r;
    let r1 = version_code(a.version) + r2;
    let r0 = identity_code(a.identity) + r1;
    let s2 = bytes_code(b.bytes@) + s;
    let s1 = version_code(b.version) + s2;
    let s0 = identity_code(b.identity) + s1;
    assert(snapshot_code(a) + r =~= flag_code(a.existed) + r0);
    assert(snapshot_code(b) + s =~= flag_code(b.existed) + s0);
    peel_flag(a.existed, b.existed, r0, s0);
    if a.existed {
        peel_identity(a.identity.unwrap(), b.identity.unwrap(), r1, s1);
        peel_version(a.version.unwrap(), b.version.unwrap(), r2, s2);
    } else {
        assert(r0 =~= r2);
        assert(s0 =~= s2);
    }
    peel_bytes(a.bytes@, b.bytes@, r, s);
}

proof fn spelling_is_injective(a: Seq<u8>, b: Seq<u8>)
    requires
        spelled(a) == spelled(b),
    ensures
        a == b,
    decreases a.len(),
{
    spelled_length(a);
    spelled_length(b);
    if a.len() > 0 {
        let n = spelled(a).len() - 2;
        hexadecimal_length(a.last() as nat, 2);
        hexadecimal_length(b.last() as nat, 2);
        assert(spelled(a.drop_last()) =~= spelled(a).take(n));
        assert(spelled(b.drop_last()) =~= spelled(b).take(n));
        assert(hexadecimal(a.last() as nat, 2) =~= spelled(a).skip(n));
        assert(hexadecimal(b.last() as nat, 2) =~= spelled(b).skip(n));
        reveal_with_fuel(vstd::arithmetic::power::pow, 3);
        hexadecimal_is_injective(a.last() as nat, b.last() as nat, 2);
        spelling_is_injective(a.drop_last(), b.drop_last());
        assert(a =~= a.drop_last().push(a.last()));
        assert(b =~= b.drop_last().push(b.last()));
    } else {
        assert(a =~= b);
    }
}

proof fn spelled_length(code: Seq<u8>)
    ensures
        spelled(code).len() == 2 * code.len(),
    decreases code.len(),
{
    if code.len() > 0 {
        spelled_length(code.drop_last());
        hexadecimal_length(code.last() as nat, 2);
    }
}

/// Whether the texts and bytes of an action are of lengths that a machine can count, and its snapshot
/// is whole.
pub open spec fn is_countable(t: FileTransaction) -> bool {
    &&& is_whole(t.snapshot)
    &&& encode_utf8(t.extension.0@).len() <= u64::MAX
    &&& encode_utf8(t.preview.path@).len() <= u64::MAX
    &&& t.contents@.len() <= u64::MAX
    &&& t.snapshot.bytes@.len() <= u64::MAX
}

/// What is hashed for the digest of an action tells it from every other: two actions of which the same
/// is hashed agree in their number, package, generation, preview, contents, operation, snapshot and
/// directory.
pub proof fn digests_cover_the_action(a: FileTransaction, b: FileTransaction)
    requires
        is_countable(a),
        is_countable(b),
        spelled(transaction_code(a)) == spelled(transaction_code(b)),
    ensures
        a.confirmation_id == b.confirmation_id,
        a.extension.0@ == b.extension.0@,
        a.generation == b.generation,
        a.preview.same(b.preview),
        a.contents@ == b.contents@,
        a.operation == b.operation,
        same_snapshot(a.snapshot, b.snapshot),
        a.parent_identity == b.parent_identity,
{
    spelling_is_injective(transaction_code(a), transaction_code(b));
    let r6 = identity_code(a.parent_identity);
    let r5 = snapshot_code(a.snapshot) + r6;
    let r4 = flag_code(a.operation is Write) + r5;
    let r3 = bytes_code(a.contents@) + r4;
    let r2 = preview_code(a.preview) + r3;
    let r1 = spec_u64_to_le_bytes(a.generation) + r2;
    let r0 = text_code(a.extension.0@) + r1;
    let s6 = identity_code(b.parent_identity);
    let s5 = snapshot_code(b.snapshot) + s6;
    let s4 = flag_code(b.operation is Write) + s5;
    let s3 = bytes_code(b.contents@) + s4;
    let s2 = preview_code(b.preview) + s3;
    let s1 = spec_u64_to_le_bytes(b.generation) + s2;
    let s0 = text_code(b.extension.0@) + s1;
    peel_number(a.confirmation_id, b.confirmation_id, r0, s0);
    peel_text(a.extension.0@, b.extension.0@, r1, s1);
    peel_number(a.generation, b.generation, r2, s2);
    peel_preview(a.preview, b.preview, r3, s3);
    peel_bytes(a.contents@, b.contents@, r4, s4);
    peel_flag(a.operation is Write, b.operation is Write, r5, s5);
    peel_snapshot(a.snapshot, b.snapshot, r6, s6);
    vstd::bytes::lemma_auto_spec_u64_to_from_le_bytes();
    match (a.parent_identity, b.parent_identity) {
        (Some(x), Some(y)) => {
            assert(r6 + Seq::<u8>::empty() =~= r6);
            assert(s6 + Seq::<u8>::empty() =~= s6);
            peel_identity(x, y, Seq::empty(), Seq::empty());
        },
        (Some(x), None) => {
            assert(r6.len() == 16);
        },
        (None, Some(y)) => {
            assert(s6.len() == 16);
        },
        (None, None) => {},
    }
}

/// A number after another, starting again at zero.
pub open spec fn after_number(n: u64) -> u64 {
    if n == u64::MAX {
        0
    } else {
        (n + 1) as u64
    }
}

/// Whether a preview tells what writing `contents` over a file would do.
pub open spec fn preview_of(
    preview: FileTransactionPreview,
    path: Seq<char>,
    snapshot: FileSnapshot,
    contents: Seq<u8>,
) -> bool {
    &&& preview.path@ == path
    &&& preview.existed == snapshot.existed
    &&& preview.before_bytes == snapshot.bytes@.len()
    &&& preview.after_bytes == contents.len()
    &&& preview.changed == (snapshot.bytes@ != contents)
    &&& preview.destructive == (snapshot.existed && snapshot.bytes@ != contents)
}

/// The bytes that a look found; a missing file counts as empty.
pub open spec fn found_bytes(look: TargetLook) -> Seq<u8> {
    match look {
        TargetLook::Found(found) => found.bytes@,
        _ => Seq::empty(),
    }
}

/// The file that a look found, as it is recorded with an action.
pub open spec fn looked_at(look: TargetLook, snapshot: FileSnapshot) -> bool {
    match look {
        TargetLook::Found(found) => snapshot == found,
        _ => !snapshot.existed && snapshot.identity is None && snapshot.version is None
            && snapshot.bytes@.len() == 0,
    }
}

impl ExtensionRuntime {
    /// Why a file action cannot be prepared; `None` where it can.
    pub open spec fn transaction_refusal(
        &self,
        id: Seq<char>,
        generation: u64,
        contents: Seq<u8>,
        look: TargetLook,
    ) -> Option<(Seq<char>, Seq<char>)> {
        if self.refusal(id, generation) is Some {
            self.refusal(id, generation)
        } else if contents.len() > EXTENSION_FILE_BYTES {
            Some(("file_too_large"@, "file exceeds host write limit"@))
        } else {
            match look {
                TargetLook::Denied(m) => Some(("file_denied"@, m@)),
                TargetLook::TooLarge(m) => Some(("file_too_large"@, m@)),
                TargetLook::Unreadable(m) => Some(("file_read_failed"@, m@)),
                _ => if !is_package_id(id) {
                    Some(("invalid_extension_id"@, "invalid extension package id"@))
                } else {
                    None
                },
            }
        }
    }

    /// Prepares to write a file; `root` and `relative` tell where it lies, `parent` which directory
    /// that is, and `look` what is there now.
    pub fn file_transaction(
        &mut self,
        id: &str,
        generation: u64,
        path: &str,
        contents: Vec<u8>,
        root: u64,
        relative: &str,
        parent: FileIdentity,
        look: TargetLook,
    ) -> (out: Result<FileTransaction, ExtensionError>)
        requires
            old(self).wf(),
        ensures
            final(self).wf(),
            *final(self) == (ExtensionRuntime {
                next_file_confirmation: final(self).next_file_confirmation,
                ..*old(self)
            }),
            out is Ok <==> old(self).transaction_refusal(id@, generation, contents@, look) is None,
            refused_by(out, old(self).transaction_refusal(id@, generation, contents@, look)),
            out is Err ==> *final(self) == *old(self),
            out matches Ok(t) ==> {
                &&& final(self).next_file_confirmation == after_number(
                    old(self).next_file_confirmation,
                )
                &&& t.runtime == old(self).instance
                &&& t.extension.0@ == id@
                &&& t.generation == generation
                &&& t.confirmation_id == old(self).next_file_confirmation
                &&& t.root == root
                &&& t.relative@ == relative@
                &&& t.parent_identity == Some(parent)
                &&& looked_at(look, t.snapshot)
                &&& t.contents == contents
                &&& t.operation is Write
                &&& preview_of(t.preview, path@, t.snapshot, contents@)
                &&& t.preview.changed <==> found_bytes(look) != contents@
                &&& look is Missing && contents@.len() > 0 ==> t.preview.changed
                &&& look is Missing ==> !t.preview.existed && !t.preview.destructive
            },
    {
        match self.package_generation(id, generation) {
            Err(error) => {
                return Err(error);
            },
            Ok(_) => {},
        }
        if contents.len() > EXTENSION_FILE_BYTES {
            return Err(ExtensionError::new("file_too_large", "file exceeds host write limit"));
        }
        let snapshot = match look {
            TargetLook::Found(snapshot) => snapshot,
            TargetLook::Missing => FileSnapshot {
                existed: false,
                identity: None,
                version: None,
                bytes: Vec::new(),
            },
            TargetLook::Denied(m) => {
                return Err(ExtensionError::new("file_denied", &m));
            },
            TargetLook::TooLarge(m) => {
                return Err(ExtensionError::new("file_too_large", &m));
            },
            TargetLook::Unreadable(m) => {
                return Err(ExtensionError::new("file_read_failed", &m));
            },
        };
        let extension = match ExtensionPackageId::new(id) {
            Ok(extension) => extension,
            Err(error) => {
                return Err(error);
            },
        };
        assert(snapshot.bytes@ =~= found_bytes(look));
        let changed = !same_bytes(&snapshot.bytes, &contents);
        let preview = FileTransactionPreview {
            path: path.to_owned(),
            existed: snapshot.existed,
            before_bytes: snapshot.bytes.len(),
            after_bytes: contents.len(),
            changed,
            destructive: snapshot.existed && changed,
        };
        let confirmation_id = self.next_file_confirmation;
        self.next_file_confirmation = confirmation_id.wrapping_add(1);
        Ok(
            FileTransaction {
                runtime: self.instance,
                extension,
                generation,
                confirmation_id,
                root,
                relative: relative.to_owned(),
                parent_identity: Some(parent),
                snapshot,
                contents,
                operation: FileTransactionOperation::Write,
                preview,
            },
        )
    }

    /// Prepares to remove a file.
    pub fn file_removal_transaction(
        &mut self,
        id: &str,
        generation: u64,
        path: &str,
        root: u64,
        relative: &str,
        parent: FileIdentity,
        look: TargetLook,
    ) -> (out: Result<FileTransaction, ExtensionError>)
        requires
            old(self).wf(),
        ensures
            final(self).wf(),
            *final(self) == (ExtensionRuntime {
                next_file_confirmation: final(self).next_file_confirmation,
                ..*old(self)
            }),
            out is Ok <==> old(self).transaction_refusal(id@, generation, Seq::empty(), look)
                is None,
            refused_by(out, old(self).transaction_refusal(id@, generation, Seq::empty(), look)),
            out is Err ==> *final(self) == *old(self),
            out matches Ok(t) ==> {
                &&& final(self).next_file_confirmation == after_number(
                    old(self).next_file_confirmation,
                )
                &&& t.runtime == old(self).instance
                &&& t.extension.0@ == id@
                &&& t.generation == generation
                &&& t.confirmation_id == old(self).next_file_confirmation
                &&& t.root == root
                &&& t.relative@ == relative@
                &&& t.parent_identity == Some(parent)
                &&& looked_at(look, t.snapshot)
                &&& t.contents@.len() == 0
                &&& t.operation is Remove
                &&& t.preview.path@ == path@
                &&& t.preview.existed == t.snapshot.existed
                &&& t.preview.before_bytes == t.snapshot.bytes@.len()
                &&& t.preview.after_bytes == 0
                &&& t.preview.changed == t.snapshot.existed
                &&& t.preview.destructive == t.snapshot.existed
                &&& look is Missing ==> !t.preview.existed && !t.preview.changed
                    && !t.preview.destructive && t.preview.before_bytes == 0
                &&& look matches TargetLook::Found(found) ==> t.preview.changed == found.existed
                    && t.preview.destructive == found.existed && t.preview.before_bytes
                    == found.bytes@.len()
            },
    {
        let nothing: Vec<u8> = Vec::new();
        assert(nothing@ =~= Seq::<u8>::empty());
        match self.file_transaction(id, generation, path, nothing, root, relative, parent, look) {
            Err(error) => Err(error),
            Ok(t) => {
                let mut t = t;
                t.operation = FileTransactionOperation::Remove;
                t.preview.changed = t.preview.existed;
                t.preview.destructive = t.preview.existed;
                Ok(t)
            },
        }
    }

    /// Whether all actions of a batch were prepared by this host for one generation.
    pub open spec fn one_batch(&self, transactions: Seq<FileTransaction>) -> bool {
        forall|i: int|
            0 <= i < transactions.len() ==> (#[trigger] transactions[i]).runtime == self.instance
                && transactions[i].extension.0@ == transactions[0].extension.0@
                && transactions[i].generation == transactions[0].generation
    }

    fn is_one_batch(&self, transactions: &Vec<FileTransaction>) -> (out: bool)
        requires
            transactions@.len() > 0,
        ensures
            out == self.one_batch(transactions@),
    {
        let mut i: usize = 0;
        while i < transactions.len()
            invariant
                i <= transactions@.len(),
                transactions@.len() > 0,
                forall|j: int|
                    0 <= j < i ==> (#[trigger] transactions@[j]).runtime == self.instance
                        && transactions@[j].extension.0@ == transactions@[0].extension.0@
                        && transactions@[j].generation == transactions@[0].generation,
            decreases transactions@.len() - i,
        {
            let t = &transactions[i];
            if t.runtime != self.instance || !same_text(&t.extension.0, &transactions[0].extension.0)
                || t.generation != transactions[0].generation {
                assert(!(transactions@[i as int].runtime == self.instance
                    && transactions@[i as int].extension.0@ == transactions@[0].extension.0@
                    && transactions@[i as int].generation == transactions@[0].generation));
                return false;
            }
            i = i + 1;
        }
        true
    }

    /// The token of a confirmation.
    pub open spec fn token_text(nonce: u64, digest: Seq<char>) -> Seq<char> {
        "bootty-file-"@ + hexadecimal(nonce as nat, 16) + "-"@ + digest
    }

    /// Whether a confirmation permits exactly the given actions.
    pub open spec fn confirms(
        confirmation: FileConfirmation,
        transactions: Seq<FileTransaction>,
        nonce: u64,
        digest: Seq<char>,
    ) -> bool {
        &&& confirmation.token@ == Self::token_text(nonce, digest)
        &&& confirmation.transaction_id == transactions[0].confirmation_id
        &&& confirmation.extension.0@ == transactions[0].extension.0@
        &&& confirmation.generation == transactions[0].generation
        &&& confirmation.digest@ == digest
        &&& confirmation.preview == transactions[0].preview
        &&& confirmation.previews@ == transactions.map_values(|t: FileTransaction| t.preview)
    }

    /// Why a batch cannot be confirmed; `None` where it can.
    pub open spec fn confirmation_refusal(&self, transactions: Seq<FileTransaction>) -> Option<
        (Seq<char>, Seq<char>),
    > {
        if transactions.len() == 0 {
            Some(("invalid_confirmation"@, "file transaction batch is empty"@))
        } else if !self.one_batch(transactions) {
            Some(
                (
                    "invalid_confirmation"@,
                    "file transaction batch crosses runtime or generation boundaries"@,
                ),
            )
        } else {
            self.refusal(transactions[0].extension.0@, transactions[0].generation)
        }
    }

    pub(crate) fn copy_previews(transactions: &Vec<FileTransaction>) -> (out: Vec<FileTransactionPreview>)
        ensures
            out@ == transactions@.map_values(|t: FileTransaction| t.preview),
    {
        let mut out: Vec<FileTransactionPreview> = Vec::new();
        let mut i: usize = 0;
        while i < transactions.len()
            invariant
                i <= transactions@.len(),
                out@.len() == i,
                forall|j: int| 0 <= j < i ==> #[trigger] out@[j] == transactions@[j].preview,
            decreases transactions@.len() - i,
        {
            out.push(transactions[i].preview.copy());
            i = i + 1;
        }
        assert(out@ =~= transactions@.map_values(|t: FileTransaction| t.preview));
        out
    }

    fn issue(transactions: &Vec<FileTransaction>, nonce: u64, digest: &str) -> (out: FileConfirmation)
        requires
            transactions@.len() > 0,
        ensures
            Self::confirms(out, transactions@, nonce, digest@),
    {
        let head = join("bootty-file-", &hexadecimal_text(nonce, 16));
        let middle = join(&head, "-");
        let token = join(&middle, digest);
        let first = &transactions[0];
        FileConfirmation {
            token,
            transaction_id: first.confirmation_id,
            extension: ExtensionPackageId(first.extension.0.clone()),
            generation: first.generation,
            digest: digest.to_owned(),
            preview: first.preview.copy(),
            previews: Self::copy_previews(transactions),
        }
    }

    /// Whether a confirmation was issued for exactly the given actions, under a token of its own.
    pub open spec fn issues(
        &self,
        after: Self,
        transactions: Seq<FileTransaction>,
        confirmation: FileConfirmation,
        digest: Seq<char>,
    ) -> bool {
        let nonce = self.next_file_confirmation;
        let token = Self::token_text(nonce, digest);
        let records = after.file_confirmations.map();
        &&& Self::confirms(confirmation, transactions, nonce, digest)
        &&& after.next_file_confirmation == after_number(nonce)
        &&& changed_at(self.file_confirmations.map(), records, token)
        &&& records[token].transactions@ == transactions
        &&& Self::confirms(records[token].confirmation, transactions, nonce, digest)
    }

    /// Issues a confirmation for exactly one action.
    pub fn confirm_file_transaction(&mut self, transaction: FileTransaction) -> (out: Result<
        FileConfirmation,
        ExtensionError,
    >)
        requires
            old(self).wf(),
        ensures
            final(self).wf(),
            *final(self) == (ExtensionRuntime {
                file_confirmations: final(self).file_confirmations,
                next_file_confirmation: final(self).next_file_confirmation,
                ..*old(self)
            }),
            out is Ok <==> old(self).confirmation_refusal(seq![transaction]) is None,
            refused_by(out, old(self).confirmation_refusal(seq![transaction])),
            out is Err ==> *final(self) == *old(self),
            out matches Ok(confirmation) ==> confirmation.digest@ == actions_digest(
                seq![transaction],
            ) && old(self).issues(
                *final(self),
                seq![transaction],
                confirmation,
                actions_digest(seq![transaction]),
            ),
    {
        let transactions = vec![transaction];
        assert(transactions@ =~= seq![transaction]);
        self.confirm_file_transactions(transactions)
    }

    /// Issues a confirmation for exactly the given actions. Packages prepare actions; only the host's
    /// user confirms them. The digest is [`file_transactions_digest`] of the actions.
    pub fn confirm_file_transactions(&mut self, transactions: Vec<FileTransaction>) -> (out: Result<
        FileConfirmation,
        ExtensionError,
    >)
        requires
            old(self).wf(),
        ensures
            final(self).wf(),
            *final(self) == (ExtensionRuntime {
                file_confirmations: final(self).file_confirmations,
                next_file_confirmation: final(self).next_file_confirmation,
                ..*old(self)
            }),
            out is Ok <==> old(self).confirmation_refusal(transactions@) is None,
            refused_by(out, old(self).confirmation_refusal(transactions@)),
            out is Err ==> *final(self) == *old(self),
            out matches Ok(confirmation) ==> confirmation.digest@ == actions_digest(transactions@)
                && old(self).issues(
                *final(self),
                transactions@,
                confirmation,
                actions_digest(transactions@),
            ),
    {
        let digest = file_transactions_digest(transactions.as_slice());
        self.confirm_with_digest(transactions, &digest)
    }

    /// Issues a confirmation for exactly the given actions, whose digest is given.
    pub fn confirm_with_digest(
        &mut self,
        transactions: Vec<FileTransaction>,
        digest: &str,
    ) -> (out: Result<FileConfirmation, ExtensionError>)
        requires
            old(self).wf(),
        ensures
            final(self).wf(),
            *final(self) == (ExtensionRuntime {
                file_confirmations: final(self).file_confirmations,
                next_file_confirmation: final(self).next_file_confirmation,
                ..*old(self)
            }),
            out is Ok <==> old(self).confirmation_refusal(transactions@) is None,
            refused_by(out, old(self).confirmation_refusal(transactions@)),
            out is Err ==> *final(self) == *old(self),
            out matches Ok(confirmation) ==> old(self).issues(
                *final(self),
                transactions@,
                confirmation,
                digest@,
            ),
    {
        if transactions.len() == 0 {
            return Err(
                ExtensionError::new("invalid_confirmation", "file transaction batch is empty"),
            );
        }
        if !self.is_one_batch(&transactions) {
            return Err(
                ExtensionError::new(
                    "invalid_confirmation",
                    "file transaction batch crosses runtime or generation boundaries",
                ),
            );
        }
        match self.package_generation(&transactions[0].extension.0, transactions[0].generation) {
            Err(error) => {
                return Err(error);
            },
            Ok(_) => {},
        }
        let nonce = self.next_file_confirmation;
        self.next_file_confirmation = nonce.wrapping_add(1);
        let confirmation = Self::issue(&transactions, nonce, digest);
        let kept = Self::issue(&transactions, nonce, digest);
        let token = confirmation.token.clone();
        self.file_confirmations.insert(
            token,
            FileConfirmationRecord { confirmation: kept, transactions },
        );
        Ok(confirmation)
    }
}

/// Two confirmations never share a token, as long as their numbers differ.
pub proof fn tokens_are_apart(a: u64, b: u64, digest: Seq<char>, other: Seq<char>)
    requires
        ExtensionRuntime::token_text(a, digest) == ExtensionRuntime::token_text(b, other),
    ensures
        a == b,
        digest == other,
{
    let head = "bootty-file-"@;
    let number_a = hexadecimal(a as nat, 16);
    let number_b = hexadecimal(b as nat, 16);
    hexadecimal_length(a as nat, 16);
    hexadecimal_length(b as nat, 16);
    reveal_strlit("-");
    let token = ExtensionRuntime::token_text(a, digest);
    let n = head.len() as int;
    assert(token.subrange(n, n + 16) =~= number_a);
    assert(token.subrange(n, n + 16) =~= number_b);
    assert(token.skip(n + 17) =~= digest);
    assert(token.skip(n + 17) =~= other);
    reveal_with_fuel(vstd::arithmetic::power::pow, 17);
    assert(vstd::arithmetic::power::pow(16, 16) == 0x1_0000_0000_0000_0000);
    hexadecimal_is_injective(a as nat, b as nat, 16);
}

/// A write is prepared exactly where the package may act, what it would write is no larger than the host
/// writes, and the file could be looked at or is not there; what stops it first is what is told.
pub proof fn writes_are_prepared(
    host: ExtensionRuntime,
    id: Seq<char>,
    generation: u64,
    contents: Seq<u8>,
    look: TargetLook,
)
    ensures
        ({
            let refusal = host.transaction_refusal(id, generation, contents, look);
            let may = host.refusal(id, generation) is None;
            &&& refusal is None <==> may && contents.len() <= 524288 && is_package_id(id) && (
            look is Found || look is Missing)
            &&& !may ==> refusal == host.refusal(id, generation)
            &&& may && contents.len() > 524288 ==> refusal == Some(
                ("file_too_large"@, "file exceeds host write limit"@),
            )
            &&& may && contents.len() <= 524288 ==> match look {
                TargetLook::Denied(m) => refusal == Some(("file_denied"@, m@)),
                TargetLook::TooLarge(m) => refusal == Some(("file_too_large"@, m@)),
                TargetLook::Unreadable(m) => refusal == Some(("file_read_failed"@, m@)),
                _ => true,
            }
        }),
{
}

/// Several actions are confirmed together exactly where there is one, all of them are of one package, one
/// generation and this host, and that package may act.
pub proof fn batches_are_of_one_package(host: ExtensionRuntime, transactions: Seq<FileTransaction>)
    ensures
        host.confirmation_refusal(transactions) is None <==> {
            &&& transactions.len() > 0
            &&& forall|i: int|
                0 <= i < transactions.len() ==> (#[trigger] transactions[i]).runtime
                    == host.instance
            &&& forall|i: int, j: int|
                0 <= i < transactions.len() && 0 <= j < transactions.len() ==> (
                #[trigger] transactions[i]).extension.0@ == (
                #[trigger] transactions[j]).extension.0@ && transactions[i].generation
                    == transactions[j].generation
            &&& host.refusal(transactions[0].extension.0@, transactions[0].generation) is None
        },
{
    if host.one_batch(transactions) {
        assert forall|i: int, j: int|
            0 <= i < transactions.len() && 0 <= j < transactions.len() implies (
        #[trigger] transactions[i]).extension.0@ == (#[trigger] transactions[j]).extension.0@
            && transactions[i].generation == transactions[j].generation by {
            assert(transactions[i].extension.0@ == transactions[0].extension.0@);
            assert(transactions[j].extension.0@ == transactions[0].extension.0@);
        }
    }
}

/// A confirmation shows what it confirms: a preview for each of the actions, in their order, and the
/// package and the generation that they are of.
pub proof fn confirmation_shows_its_actions(
    confirmation: FileConfirmation,
    transactions: Seq<FileTransaction>,
    nonce: u64,
    digest: Seq<char>,
    i: int,
)
    requires
        0 <= i < transactions.len(),
        ExtensionRuntime::confirms(confirmation, transactions, nonce, digest),
    ensures
        confirmation.previews@.len() == transactions.len(),
        confirmation.previews@[i] == transactions[i].preview,
        confirmation.preview == confirmation.previews@[0],
        confirmation.extension.0@ == transactions[0].extension.0@,
        confirmation.generation == transactions[0].generation,
        confirmation.transaction_id == transactions[0].confirmation_id,
        confirmation.digest@ == digest,
        confirmation.token@ == "bootty-file-"@ + hexadecimal(nonce as nat, 16) + "-"@ + digest,
{
}

/// Numbers of confirmations go up by one and begin again after the last.
pub proof fn numbers_go_up(n: u64)
    ensures
        n < u64::MAX ==> after_number(n) == n + 1,
        n == u64::MAX ==> after_number(n) == 0,
{
}

}

//! Object records, content hashing, the staging index and commit records.

use vstd::prelude::*;
use crate::table::{Table, views};

verus! {

// ---------------------------------------------------------------- hashing

/// The SHA-256 digest of a byte sequence.
pub uninterp spec fn sha256_of(data: Seq<u8>) -> Seq<u8>;

/// Relies on sha2::Sha256::digest: the SHA-256 digest of `data`, which is 32 bytes long.
#[verifier::external_body]
fn sha256(data: &[u8]) -> (r: Vec<u8>)
    ensures
        r@ == sha256_of(data@),
        r@.len() == 32,
{
    <sha2::Sha256 as sha2::Digest>::digest(data).to_vec()
}

/// Lower-case hexadecimal digit of a value below 16.
pub open spec fn hex_digit(n: u8) -> char {
    if n < 10 {
        (('0' as u8) + n) as char
    } else {
        (('a' as u8) + n - 10) as char
    }
}

/// Lower-case hexadecimal text of a byte sequence, two digits per byte.
pub open spec fn hex_of(b: Seq<u8>) -> Seq<char>
    decreases b.len(),
{
    if b.len() == 0 {
        Seq::empty()
    } else {
        hex_of(b.drop_last()).push(hex_digit(b.last() / 16)).push(hex_digit(b.last() % 16))
    }
}

/// The identifier of an object: the hex digest of its bytes.
pub open spec fn object_id(content: Seq<u8>) -> Seq<char> {
    hex_of(sha256_of(content))
}

pub open spec fn is_hex_char(c: char) -> bool {
    ('0' <= c && c <= '9') || ('a' <= c && c <= 'f')
}

/// Hex text holds hex digits only.
pub proof fn lemma_hex_chars(b: Seq<u8>)
    ensures
        forall|i: int| 0 <= i < hex_of(b).len() ==> is_hex_char(#[trigger] hex_of(b)[i]),
    decreases b.len(),
{
    if b.len() > 0 {
        lemma_hex_chars(b.drop_last());
        lemma_hex_len(b.drop_last());
        let x = b.last();
        assert(x / 16 < 16 && x % 16 < 16);
        assert(is_hex_char(hex_digit(x / 16)));
        assert(is_hex_char(hex_digit(x % 16)));
    }
}

/// An object's identifier has no white space to trim.
pub proof fn lemma_id_trimmed(content: Seq<u8>)
    ensures
        crate::text::trimmed(object_id(content)) == object_id(content),
{
    let h = object_id(content);
    lemma_hex_chars(sha256_of(content));
    if h.len() > 0 {
        assert(is_hex_char(h[0]));
        assert(is_hex_char(h.last()));
    }
    assert(crate::text::trim_start(h) == h);
    assert(crate::text::trim_end(h) == h);
}

proof fn lemma_hex_len(b: Seq<u8>)
    ensures
        hex_of(b).len() == 2 * b.len(),
    decreases b.len(),
{
    if b.len() > 0 {
        lemma_hex_len(b.drop_last());
    }
}

fn hex_digit_str(n: u8) -> (r: &'static str)
    requires
        n < 16,
    ensures
        r@ == seq![hex_digit(n)],
{
    proof {
        reveal_strlit("0"); reveal_strlit("1"); reveal_strlit("2"); reveal_strlit("3");
        reveal_strlit("4"); reveal_strlit("5"); reveal_strlit("6"); reveal_strlit("7");
        reveal_strlit("8"); reveal_strlit("9"); reveal_strlit("a"); reveal_strlit("b");
        reveal_strlit("c"); reveal_strlit("d"); reveal_strlit("e"); reveal_strlit("f");
    }
    let r = match n {
        0 => "0", 1 => "1", 2 => "2", 3 => "3", 4 => "4", 5 => "5", 6 => "6", 7 => "7",
        8 => "8", 9 => "9", 10 => "a", 11 => "b", 12 => "c", 13 => "d", 14 => "e", _ => "f",
    };
    assert(r@ =~= seq![hex_digit(n)]);
    r
}

/// Lower-case hexadecimal text of `b`.
pub fn to_hex(b: &[u8]) -> (r: String)
    ensures
        r@ == hex_of(b@),
        r@.len() == 2 * b@.len(),
{
    let mut out = String::new();
    let mut i: usize = 0;
    while i < b.len()
        invariant
            i <= b@.len(),
            out@ == hex_of(b@.subrange(0, i as int)),
        decreases b@.len() - i,
    {
        let x = b[i];
        out.append(hex_digit_str(x / 16));
        out.append(hex_digit_str(x % 16));
        assert(b@.subrange(0, i + 1).drop_last() =~= b@.subrange(0, i as int));
        i = i + 1;
    }
    assert(b@.subrange(0, i as int) =~= b@);
    proof {
        lemma_hex_len(b@);
    }
    out
}

/// The identifier under which `content` is stored.
pub fn content_hash(content: &[u8]) -> (r: String)
    ensures
        r@ == object_id(content@),
        r@.len() == 64,
{
    let d = sha256(content);
    to_hex(d.as_slice())
}

// ---------------------------------------------------------------- time

/// Relies on chrono::Utc::now: the current UTC time, rendered by
/// DateTime::to_rfc3339_opts as chrono's serde support writes it.
#[verifier::external_body]
pub(crate) fn now_text() -> (r: String) {
    chrono::Utc::now().to_rfc3339_opts(chrono::SecondsFormat::AutoSi, true)
}

// ---------------------------------------------------------------- index

/// The mode recorded for every staged file: a regular file.
pub open spec fn regular_mode() -> Seq<char> {
    seq!['1', '0', '0', '6', '4', '4']
}

pub fn regular_mode_text() -> (r: String)
    ensures
        r@ == regular_mode(),
{
    proof {
        reveal_strlit("100644");
    }
    String::from_str("100644")
}

/// One staged file.
#[derive(Debug)]
pub struct IndexEntry {
    pub hash: String,
    pub mode: String,
    pub size: u64,
    /// RFC 3339 text of the time at which the file was staged.
    pub mtime: String,
}

/// The staging index: working-tree path to staged entry.
#[derive(Debug)]
pub struct Index {
    pub entries: Table<IndexEntry>,
}

impl Index {
    pub open spec fn wf(&self) -> bool {
        self.entries.wf()
    }

    pub open spec fn view(&self) -> Map<Seq<char>, IndexEntry> {
        self.entries@
    }

    pub fn new() -> (r: Index)
        ensures
            r.wf(),
            r@ == Map::<Seq<char>, IndexEntry>::empty(),
    {
        Index { entries: Table::new() }
    }

    /// Stages `path` with the given content hash and size, stamped with the current time.
    pub fn add_entry(&mut self, path: String, hash: String, size: u64)
        requires
            old(self).wf(),
        ensures
            final(self).wf(),
            final(self)@.dom() == old(self)@.dom().insert(path@),
            final(self)@[path@].hash == hash,
            final(self)@[path@].size == size,
            final(self)@[path@].mode@ == regular_mode(),
            forall|k: Seq<char>| k != path@ && old(self)@.contains_key(k) ==> #[trigger] final(self)@[k] == old(self)@[k],
    {
        let entry = IndexEntry { hash, mode: regular_mode_text(), size, mtime: now_text() };
        self.entries.insert(path, entry);
    }

    /// Unstages `path`; reports whether it was staged.
    pub fn remove_entry(&mut self, path: &str) -> (r: bool)
        requires
            old(self).wf(),
        ensures
            final(self).wf(),
            r == old(self)@.contains_key(path@),
            final(self)@ == old(self)@.remove(path@),
    {
        self.entries.remove(path)
    }

    pub fn is_staged(&self, path: &str) -> (r: bool)
        requires
            self.wf(),
        ensures
            r == self@.contains_key(path@),
    {
        self.entries.contains_key(path)
    }

    /// The staged paths, in the order in which they were first staged.
    pub fn get_staged_files(&self) -> (r: Vec<String>)
        requires
            self.wf(),
        ensures
            views(r@) == self.entries.key_seq(),
            forall|k: Seq<char>| #[trigger] self@.contains_key(k) <==> views(r@).contains(k),
    {
        proof {
            self.entries.lemma_dom();
        }
        self.entries.keys()
    }

    pub fn clear(&mut self)
        ensures
            final(self).wf(),
            final(self)@ == Map::<Seq<char>, IndexEntry>::empty(),
    {
        self.entries.clear();
    }

    pub fn is_empty(&self) -> (r: bool)
        requires
            self.wf(),
        ensures
            r == (self@ == Map::<Seq<char>, IndexEntry>::empty()),
    {
        self.entries.is_empty()
    }
}

// ---------------------------------------------------------------- commits

/// A commit record.
#[derive(Debug)]
pub struct Commit {
    pub parent: Option<String>,
    pub author: String,
    pub committer: String,
    /// RFC 3339 text of the creation time.
    pub timestamp: String,
    pub message: String,
    pub tree: String,
}

/// A commit record as a value.
pub ghost struct CommitView {
    pub parent: Option<Seq<char>>,
    pub author: Seq<char>,
    pub committer: Seq<char>,
    pub timestamp: Seq<char>,
    pub message: Seq<char>,
    pub tree: Seq<char>,
}

pub open spec fn opt_view(o: Option<String>) -> Option<Seq<char>> {
    match o {
        Some(s) => Some(s@),
        None => None,
    }
}

impl Commit {
    pub open spec fn view(&self) -> CommitView {
        CommitView {
            parent: opt_view(self.parent),
            author: self.author@,
            committer: self.committer@,
            timestamp: self.timestamp@,
            message: self.message@,
            tree: self.tree@,
        }
    }

    /// A commit created now, with the author as committer.
    pub fn new(parent: Option<String>, author: String, message: String, tree: String) -> (r: Commit)
        ensures
            r.parent == parent,
            r.author == author,
            r.committer@ == author@,
            r.message == message,
            r.tree == tree,
    {
        let committer = author.clone();
        Commit { parent, author, committer, timestamp: now_text(), message, tree }
    }
}

/// The stored form of a commit record: a JSON object with one member per field.
pub uninterp spec fn commit_json(c: CommitView) -> Seq<u8>;

/// The commit record that stored bytes hold, if they hold one.
pub uninterp spec fn commit_from_json(b: Seq<u8>) -> Option<CommitView>;

/// Relies on serde_json::to_vec_pretty, on a map from field name to text or null;
/// serde_json::from_slice reads such text back to the same map.
#[verifier::external_body]
pub(crate) fn encode_commit(c: &Commit) -> (r: Vec<u8>)
    ensures
        r@ == commit_json(c@),
        commit_from_json(r@) == Some(c@),
{
    let fields: std::collections::BTreeMap<&str, Option<&str>> = [
        ("parent", c.parent.as_deref()), ("author", Some(c.author.as_str())),
        ("committer", Some(c.committer.as_str())), ("timestamp", Some(c.timestamp.as_str())),
        ("message", Some(c.message.as_str())), ("tree", Some(c.tree.as_str())),
    ].into_iter().collect();
    serde_json::to_vec_pretty(&fields).unwrap_or_default()
}

/// Relies on serde_json::from_slice, into a map from field name to text or null.
#[verifier::external_body]
pub(crate) fn decode_commit(b: &[u8]) -> (r: Option<Commit>)
    ensures
        opt_commit_view(r) == commit_from_json(b@),
{
    let m: std::collections::BTreeMap<String, Option<String>> = serde_json::from_slice(b).ok()?;
    Some(Commit {
        parent: m.get("parent").cloned().flatten(),
        author: m.get("author")?.clone()?,
        committer: m.get("committer")?.clone()?,
        timestamp: m.get("timestamp")?.clone()?,
        message: m.get("message")?.clone()?,
        tree: m.get("tree")?.clone()?,
    })
}

pub open spec fn opt_commit_view(o: Option<Commit>) -> Option<CommitView> {
    match o {
        Some(c) => Some(c@),
        None => None,
    }
}

// ---------------------------------------------------------------- trees and packs

/// One entry of a tree listing.
#[derive(Debug)]
pub struct TreeEntry {
    pub name: String,
    pub hash: String,
    pub is_file: bool,
    pub mode: String,
}

impl TreeEntry {
    pub fn new_file(name: String, hash: String) -> (r: TreeEntry)
        ensures
            r.name == name,
            r.hash == hash,
            r.is_file,
            r.mode@ == regular_mode(),
    {
        TreeEntry { name, hash, is_file: true, mode: regular_mode_text() }
    }

    pub fn new_directory(name: String, hash: String) -> (r: TreeEntry)
        ensures
            r.name == name,
            r.hash == hash,
            !r.is_file,
            r.mode@ == seq!['0', '4', '0', '0', '0', '0'],
    {
        proof {
            reveal_strlit("040000");
        }
        TreeEntry { name, hash, is_file: false, mode: String::from_str("040000") }
    }
}

/// The kind of a named reference.
#[derive(Debug, Clone, Copy, PartialEq, Eq, Structural)]
pub enum RefType {
    Branch,
    Tag,
    Remote,
}

/// A named reference to a commit.
#[derive(Debug)]
pub struct Ref {
    pub name: String,
    pub hash: String,
    pub ref_type: RefType,
}

/// The kind of a stored object.
#[derive(Debug, Clone, Copy, PartialEq, Eq, Structural)]
pub enum ObjectType {
    Commit,
    Tree,
    Blob,
    Tag,
}

/// One object in a pack.
#[derive(Debug)]
pub struct PackedObject {
    pub hash: String,
    pub object_type: ObjectType,
    pub data: Vec<u8>,
}

/// A sequence of objects with a checksum over their data.
#[derive(Debug)]
pub struct PackFile {
    pub objects: Vec<PackedObject>,
    pub checksum: String,
}

/// The data of all objects of a pack, in order, end to end.
pub open spec fn pack_data(objs: Seq<PackedObject>) -> Seq<u8>
    decreases objs.len(),
{
    if objs.len() == 0 {
        Seq::empty()
    } else {
        pack_data(objs.drop_last()) + objs.last().data@
    }
}

impl PackFile {
    pub fn new() -> (r: PackFile)
        ensures
            r.objects@.len() == 0,
            r.checksum@.len() == 0,
    {
        PackFile { objects: Vec::new(), checksum: String::new() }
    }

    pub fn add_object(&mut self, hash: String, object_type: ObjectType, data: Vec<u8>)
        ensures
            final(self).objects@ == old(self).objects@.push(PackedObject { hash, object_type, data }),
            final(self).checksum == old(self).checksum,
    {
        self.objects.push(PackedObject { hash, object_type, data });
    }

    /// Sets the checksum to the hex SHA-256 digest of all objects' data.
    pub fn finalize(&mut self)
        ensures
            final(self).objects@ == old(self).objects@,
            final(self).checksum@ == hex_of(sha256_of(pack_data(old(self).objects@))),
    {
        let mut all: Vec<u8> = Vec::new();
        let mut i: usize = 0;
        while i < self.objects.len()
            invariant
                i <= self.objects@.len(),
                all@ == pack_data(self.objects@.subrange(0, i as int)),
            decreases self.objects@.len() - i,
        {
            all.extend_from_slice(self.objects[i].data.as_slice());
            assert(self.objects@.subrange(0, i + 1).drop_last() =~= self.objects@.subrange(0, i as int));
            i = i + 1;
        }
        assert(self.objects@.subrange(0, i as int) =~= self.objects@);
        let d = sha256(all.as_slice());
        self.checksum = to_hex(d.as_slice());
    }
}

} // verus!

//! The repository context: layout, HEAD, branch refs and the object store,
//! held in memory for the span of one command.

use vstd::prelude::*;
use crate::config::{BlocConfig, default_branch_name};
use crate::ignore::{excluded, is_excluded};
use crate::objects::{content_hash, object_id, opt_view, Index};
use crate::outcome::RepoError;
use crate::table::Table;
use crate::text::{has_prefix, join2, slice, starts_with, trim, trimmed};

verus! {

/// `ref: `, which opens a symbolic HEAD.
pub open spec fn ref_marker() -> Seq<char> {
    seq!['r', 'e', 'f', ':', ' ']
}

/// `refs/heads/`, the directory of branch refs.
pub open spec fn heads_prefix() -> Seq<char> {
    seq!['r', 'e', 'f', 's', '/', 'h', 'e', 'a', 'd', 's', '/']
}

pub open spec fn detached_name() -> Seq<char> {
    seq!['(', 'd', 'e', 't', 'a', 'c', 'h', 'e', 'd', ' ', 'H', 'E', 'A', 'D', ')']
}

/// The HEAD text that names a branch.
pub open spec fn head_for(branch: Seq<char>) -> Seq<char> {
    ref_marker() + heads_prefix() + branch
}

/// The branch that HEAD text names.
pub open spec fn branch_of_head(h: Seq<char>) -> Seq<char> {
    if has_prefix(h, ref_marker()) {
        let t = trimmed(h);
        let r = if has_prefix(t, ref_marker()) { t.skip(5) } else { Seq::empty() };
        if has_prefix(r, heads_prefix()) { r.skip(11) } else { r }
    } else {
        detached_name()
    }
}

/// Contents of a store of objects, by hash.
pub open spec fn store_view(t: Table<Vec<u8>>) -> Map<Seq<char>, Seq<u8>> {
    t@.map_values(|v: Vec<u8>| v@)
}

/// Where an object is kept, relative to the metadata root.
pub open spec fn object_rel_path(hash: Seq<char>) -> Seq<char> {
    seq!['o', 'b', 'j', 'e', 'c', 't', 's', '/'] + hash.subrange(0, 2) + seq!['/'] + hash.skip(2)
}

/// The files of a repository as they were read.
pub struct RepoFiles {
    pub config: BlocConfig,
    pub index: Index,
    /// Content of HEAD.
    pub head: String,
    /// Branch name to the content of its ref file.
    pub heads: Table<String>,
    /// Hash to object content.
    pub objects: Table<Vec<u8>>,
    /// Content of the ignore file, if there is one.
    pub ignore_file: Option<String>,
}

impl RepoFiles {
    pub open spec fn wf(&self) -> bool {
        self.config.wf() && self.index.wf() && self.heads.wf() && self.objects.wf()
    }
}

/// An open repository.
pub struct BlocRepo {
    pub config: BlocConfig,
    pub index: Index,
    pub is_bare: bool,
    pub work_dir: String,
    /// The metadata root: the working root itself when bare, else its `.bloc` directory.
    pub bloc_dir: String,
    pub head: String,
    pub heads: Table<String>,
    pub objects: Table<Vec<u8>>,
    pub ignore_file: Option<String>,
}

/// The metadata root for a working root.
pub open spec fn meta_root(work_dir: Seq<char>, bare: bool) -> Seq<char> {
    if bare { work_dir } else { work_dir + seq!['/', '.', 'b', 'l', 'o', 'c'] }
}

pub fn metadata_root(work_dir: &str, bare: bool) -> (r: String)
    ensures
        r@ == meta_root(work_dir@, bare),
{
    if bare {
        String::from_str(work_dir)
    } else {
        proof {
            reveal_strlit("/.bloc");
        }
        let r = join2(work_dir, "/.bloc");
        assert(r@ =~= meta_root(work_dir@, bare));
        r
    }
}

impl BlocRepo {
    /// Whether the markers of a repository are present: the metadata directory,
    /// or HEAD and config side by side.
    pub fn is_repo(has_meta_dir: bool, has_head: bool, has_config: bool) -> (r: bool)
        ensures
            r == (has_meta_dir || (has_head && has_config)),
    {
        has_meta_dir || (has_head && has_config)
    }

    /// Whether the markers are those of a bare repository.
    pub fn is_bare_repo(has_meta_dir: bool, has_head: bool, has_config: bool) -> (r: bool)
        ensures
            r == (has_head && has_config && !has_meta_dir),
    {
        has_head && has_config && !has_meta_dir
    }

    pub open spec fn wf(&self) -> bool {
        self.config.wf() && self.index.wf() && self.heads.wf() && self.objects.wf()
    }

    /// The object store's contents.
    pub open spec fn store(&self) -> Map<Seq<char>, Seq<u8>> {
        store_view(self.objects)
    }

    /// The branch that HEAD names.
    pub open spec fn current_branch(&self) -> Seq<char> {
        branch_of_head(self.head@)
    }

    /// Opens the repository whose files were read: non-bare when the metadata
    /// directory exists, bare when HEAD and config stand at the root; otherwise not found.
    pub fn new(work_dir: String, has_meta_dir: bool, has_head: bool, has_config: bool, files: RepoFiles) -> (r: Result<BlocRepo, RepoError>)
        requires
            files.wf(),
        ensures
            !(has_meta_dir || (has_head && has_config)) <==> r == Err::<BlocRepo, RepoError>(RepoError::NotFound),
            (has_meta_dir || (has_head && has_config)) ==> r.is_ok(),
            r.is_ok() ==> {
                let repo = r.unwrap();
                &&& repo.wf()
                &&& repo.is_bare == !has_meta_dir
                &&& repo.bloc_dir@ == meta_root(work_dir@, !has_meta_dir)
                &&& repo.work_dir == work_dir
                &&& repo.config == files.config
                &&& repo.index == files.index
                &&& repo.head == files.head
                &&& repo.heads == files.heads
                &&& repo.objects == files.objects
                &&& repo.ignore_file == files.ignore_file
            },
    {
        if !BlocRepo::is_repo(has_meta_dir, has_head, has_config) {
            return Err(RepoError::NotFound);
        }
        let bare = !has_meta_dir;
        let bloc_dir = metadata_root(work_dir.as_str(), bare);
        Ok(BlocRepo {
            config: files.config,
            index: files.index,
            is_bare: bare,
            work_dir,
            bloc_dir,
            head: files.head,
            heads: files.heads,
            objects: files.objects,
            ignore_file: files.ignore_file,
        })
    }

    /// A new, empty repository at `work_dir`; fails when HEAD or config already
    /// exists at its metadata root.
    pub fn init(work_dir: String, bare: bool, head_exists: bool, config_exists: bool) -> (r: Result<BlocRepo, RepoError>)
        ensures
            (head_exists || config_exists) <==> r == Err::<BlocRepo, RepoError>(RepoError::AlreadyExists),
            !(head_exists || config_exists) ==> r.is_ok(),
            r.is_ok() ==> {
                let repo = r.unwrap();
                &&& repo.wf()
                &&& repo.is_bare == bare
                &&& repo.config.core.bare == bare
                &&& repo.config.core.default_branch@ == default_branch_name()
                &&& repo.bloc_dir@ == meta_root(work_dir@, bare)
                &&& repo.head@ == head_for(default_branch_name()) + seq!['\n']
                &&& repo.current_branch() == default_branch_name()
                &&& repo.index@ == Map::<Seq<char>, crate::objects::IndexEntry>::empty()
                &&& repo.heads@ == Map::<Seq<char>, String>::empty()
                &&& repo.store() == Map::<Seq<char>, Seq<u8>>::empty()
                &&& repo.ignore_file.is_none()
            },
    {
        if head_exists || config_exists {
            return Err(RepoError::AlreadyExists);
        }
        let mut config = BlocConfig::default();
        config.core.bare = bare;
        let head = head_text(config.core.default_branch.as_str(), true);
        let bloc_dir = metadata_root(work_dir.as_str(), bare);
        let objects: Table<Vec<u8>> = Table::new();
        let repo = BlocRepo {
            config,
            index: Index::new(),
            is_bare: bare,
            work_dir,
            bloc_dir,
            head,
            heads: Table::new(),
            objects,
            ignore_file: None,
        };
        proof {
            lemma_branch_of_head_for(default_branch_name(), true);
            assert(default_branch_name().last() == 'n');
            assert(repo.store() =~= Map::<Seq<char>, Seq<u8>>::empty());
        }
        Ok(repo)
    }

    /// The branch that HEAD names, or `(detached HEAD)` when HEAD holds no `ref: `.
    pub fn get_current_branch(&self) -> (r: String)
        ensures
            r@ == self.current_branch(),
    {
        proof {
            reveal_strlit("ref: ");
            reveal_strlit("refs/heads/");
            reveal_strlit("(detached HEAD)");
        }
        let marker = "ref: ";
        assert(marker@ =~= ref_marker());
        if starts_with(self.head.as_str(), marker) {
            let t = trim(self.head.as_str());
            let heads = "refs/heads/";
            assert(heads@ =~= heads_prefix());
            let r = if starts_with(t.as_str(), marker) {
                slice(t.as_str(), 5, t.as_str().unicode_len())
            } else {
                String::new()
            };
            assert(has_prefix(t@, ref_marker()) ==> r@ =~= t@.skip(5));
            assert(!has_prefix(t@, ref_marker()) ==> r@ =~= Seq::<char>::empty());
            if starts_with(r.as_str(), heads) {
                let b = slice(r.as_str(), 11, r.as_str().unicode_len());
                assert(b@ =~= r@.skip(11));
                b
            } else {
                r
            }
        } else {
            let d = "(detached HEAD)";
            assert(d@ =~= detached_name());
            String::from_str(d)
        }
    }

    /// The hash that identifies `content`.
    pub fn hash_object(&self, content: &[u8]) -> (r: String)
        ensures
            r@ == object_id(content@),
            r@.len() == 64,
    {
        content_hash(content)
    }

    /// Stores `content` under its hash and returns the hash.
    pub fn write_object(&mut self, content: &[u8]) -> (r: String)
        requires
            old(self).wf(),
        ensures
            final(self).wf(),
            r@ == object_id(content@),
            r@.len() == 64,
            final(self).store() == old(self).store().insert(r@, content@),
            final(self).index == old(self).index,
            final(self).heads == old(self).heads,
            final(self).head == old(self).head,
            final(self).config == old(self).config,
            final(self).is_bare == old(self).is_bare,
            final(self).ignore_file == old(self).ignore_file,
            final(self).work_dir == old(self).work_dir,
            final(self).bloc_dir == old(self).bloc_dir,
    {
        let hash = content_hash(content);
        let data = vstd::slice::slice_to_vec(content);
        let key = hash.clone();
        self.objects.insert(key, data);
        assert(self.store() =~= old(self).store().insert(hash@, content@));
        hash
    }

    /// The content stored under `hash`; not found if there is none.
    pub fn read_object(&self, hash: &str) -> (r: Result<Vec<u8>, RepoError>)
        requires
            self.wf(),
        ensures
            self.store().contains_key(hash@) ==> r.is_ok() && r.unwrap()@ == self.store()[hash@],
            !self.store().contains_key(hash@) ==> r == Err::<Vec<u8>, RepoError>(RepoError::NotFound),
    {
        match self.objects.get(hash) {
            Some(v) => Ok(vstd::slice::slice_to_vec(v.as_slice())),
            None => Err(RepoError::NotFound),
        }
    }

    /// The directory of refs, relative to the working root.
    pub fn get_refs_dir(&self) -> (r: String)
        ensures
            r@ == (if self.is_bare { seq!['r', 'e', 'f', 's'] } else { seq!['.', 'b', 'l', 'o', 'c', '/', 'r', 'e', 'f', 's'] }),
    {
        proof {
            reveal_strlit("refs");
            reveal_strlit(".bloc/refs");
        }
        if self.is_bare {
            String::from_str("refs")
        } else {
            String::from_str(".bloc/refs")
        }
    }

    /// Whether `path` is excluded from staging and status.
    pub fn should_ignore(&self, path: &str) -> (r: bool)
        ensures
            r == excluded(path@, self.is_bare, opt_view(self.ignore_file)),
    {
        match &self.ignore_file {
            Some(f) => is_excluded(path, self.is_bare, Some(f.as_str())),
            None => is_excluded(path, self.is_bare, None),
        }
    }

    /// `name <email>` of the configured user.
    pub fn get_author_signature(&self) -> (r: String)
        ensures
            r@ == self.config.user.name@ + seq![' ', '<'] + self.config.user.email@ + seq!['>'],
    {
        proof {
            reveal_strlit(" <");
            reveal_strlit(">");
        }
        let a = join2(self.config.user.name.as_str(), " <");
        let b = join2(a.as_str(), self.config.user.email.as_str());
        join2(b.as_str(), ">")
    }
}

/// Reading back what was stored gives the content stored, and storing the
/// same content twice gives the same hash and leaves the store as storing it
/// once did (the store after `write_object` is `store.insert(object_id(c), c)`).
pub proof fn lemma_put_get(store: Map<Seq<char>, Seq<u8>>, c: Seq<u8>)
    ensures
        store.insert(object_id(c), c).contains_key(object_id(c)),
        store.insert(object_id(c), c)[object_id(c)] == c,
        store.insert(object_id(c), c).insert(object_id(c), c) == store.insert(object_id(c), c),
{
    assert(store.insert(object_id(c), c).insert(object_id(c), c) =~= store.insert(object_id(c), c));
}

/// Where the object with this hash is kept, relative to the metadata root.
pub fn object_path(hash: &str) -> (r: String)
    requires
        hash@.len() >= 2,
    ensures
        r@ == object_rel_path(hash@),
{
    proof {
        reveal_strlit("objects/");
        reveal_strlit("/");
    }
    let n = hash.unicode_len();
    let a = join2("objects/", hash.substring_char(0, 2));
    let b = join2(a.as_str(), "/");
    let r = join2(b.as_str(), hash.substring_char(2, n));
    assert(r@ =~= object_rel_path(hash@));
    r
}

/// The HEAD text naming `branch`, with a closing newline if asked for.
pub fn head_text(branch: &str, newline: bool) -> (r: String)
    ensures
        r@ == head_for(branch@) + (if newline { seq!['\n'] } else { Seq::empty() }),
{
    proof {
        reveal_strlit("ref: refs/heads/");
        reveal_strlit("\n");
    }
    let p = "ref: refs/heads/";
    assert(p@ =~= ref_marker() + heads_prefix());
    let r = join2(p, branch);
    if newline {
        let r2 = join2(r.as_str(), "\n");
        assert(r2@ =~= head_for(branch@) + seq!['\n']);
        r2
    } else {
        assert(r@ =~= head_for(branch@) + Seq::<char>::empty());
        r
    }
}

/// HEAD text written for a branch names that branch back, when the branch
/// name has no white space at its ends.
pub proof fn lemma_branch_of_head_for(b: Seq<char>, newline: bool)
    requires
        b.len() > 0 ==> !crate::text::is_ws(b.last()),
    ensures
        branch_of_head(head_for(b) + (if newline { seq!['\n'] } else { Seq::empty() })) == b,
{
    let h = head_for(b);
    let s = h + (if newline { seq!['\n'] } else { Seq::empty() });
    assert(s.subrange(0, 5) =~= ref_marker());
    assert(h.subrange(0, 5) =~= ref_marker());
    assert(!crate::text::is_ws(s[0]));
    assert(crate::text::trim_start(s) == s);
    assert(!crate::text::is_ws(h.last()));
    assert(crate::text::trim_end(h) == h);
    if newline {
        assert(s.drop_last() =~= h);
        assert(crate::text::is_ws(s.last()));
    } else {
        assert(s =~= h);
    }
    assert(trimmed(s) == h);
    let r = h.skip(5);
    assert(r =~= heads_prefix() + b);
    assert(r.subrange(0, 11) =~= heads_prefix());
    assert(r.skip(11) =~= b);
}

} // verus!

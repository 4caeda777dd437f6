//! Staging, unstaging, committing, history and status over an open repository.

use vstd::prelude::*;
use vstd::utf8::encode_utf8;
use crate::branches::{get_current_commit_hash, head_commit, ref_view};
use crate::ignore::excluded;
use crate::objects::{
    commit_from_json, commit_json, content_hash, decode_commit, encode_commit, now_text, object_id,
    is_hex_char, lemma_hex_chars, lemma_id_trimmed, opt_view, sha256_of, regular_mode, Commit, CommitView, Index, IndexEntry,
};
use crate::outcome::{Notice, Outcome, RepoError};
use crate::repository::BlocRepo;
use crate::history::{entries_view, then, traverse, walk};
use crate::table::views;
use crate::text::{has_prefix, join2, slice, starts_with};

verus! {

/// A working-tree path relative to the working root: without a leading `./`.
pub open spec fn rel_path(p: Seq<char>) -> Seq<char> {
    if has_prefix(p, seq!['.', '/']) { p.skip(2) } else { p }
}

/// What the index records of an entry, bar its time: hash, mode and size.
pub open spec fn entry_shape(e: IndexEntry) -> (Seq<char>, Seq<char>, nat) {
    (e.hash@, e.mode@, e.size as nat)
}

/// Path to the hash, mode and size staged for it.
pub open spec fn staged_shapes(idx: Map<Seq<char>, IndexEntry>) -> Map<Seq<char>, (Seq<char>, Seq<char>, nat)> {
    idx.map_values(|e: IndexEntry| entry_shape(e))
}

/// The hash, mode and size with which a file of this text is staged.
pub open spec fn shape_of_text(text: Seq<char>) -> (Seq<char>, Seq<char>, nat) {
    (object_id(encode_utf8(text)), regular_mode(), encode_utf8(text).len())
}

/// Staged shapes after staging, in order, each candidate (path, text) that is not excluded.
pub open spec fn shapes_after(
    m: Map<Seq<char>, (Seq<char>, Seq<char>, nat)>,
    files: Seq<(String, String)>,
    ign: Option<Seq<char>>,
) -> Map<Seq<char>, (Seq<char>, Seq<char>, nat)>
    decreases files.len(),
{
    if files.len() == 0 {
        m
    } else {
        let prev = shapes_after(m, files.drop_last(), ign);
        let f = files.last();
        if excluded(f.0@, false, ign) {
            prev
        } else {
            prev.insert(rel_path(f.0@), shape_of_text(f.1@))
        }
    }
}

/// The relative paths of the candidates that are not excluded.
pub open spec fn touched(files: Seq<(String, String)>, ign: Option<Seq<char>>) -> Set<Seq<char>>
    decreases files.len(),
{
    if files.len() == 0 {
        Set::empty()
    } else {
        let prev = touched(files.drop_last(), ign);
        let f = files.last();
        if excluded(f.0@, false, ign) {
            prev
        } else {
            prev.insert(rel_path(f.0@))
        }
    }
}

/// Stored objects after staging the same candidates.
pub open spec fn store_after(
    m: Map<Seq<char>, Seq<u8>>,
    files: Seq<(String, String)>,
    ign: Option<Seq<char>>,
) -> Map<Seq<char>, Seq<u8>>
    decreases files.len(),
{
    if files.len() == 0 {
        m
    } else {
        let prev = store_after(m, files.drop_last(), ign);
        let f = files.last();
        if excluded(f.0@, false, ign) {
            prev
        } else {
            prev.insert(object_id(encode_utf8(f.1@)), encode_utf8(f.1@))
        }
    }
}

pub fn relative_path(p: &str) -> (r: String)
    ensures
        r@ == rel_path(p@),
{
    proof {
        reveal_strlit("./");
    }
    let dot = "./";
    assert(dot@ =~= seq!['.', '/']);
    if starts_with(p, dot) {
        let r = slice(p, 2, p.unicode_len());
        assert(r@ =~= p@.skip(2));
        r
    } else {
        String::from_str(p)
    }
}

/// Stores a file's text as an object and stages it under its relative path.
pub fn add_single_file(repo: &mut BlocRepo, path: &str, content: &str) -> (r: String)
    requires
        old(repo).wf(),
    ensures
        final(repo).wf(),
        r@ == rel_path(path@),
        final(repo).store() == old(repo).store().insert(object_id(encode_utf8(content@)), encode_utf8(content@)),
        staged_shapes(final(repo).index@) == staged_shapes(old(repo).index@).insert(r@, shape_of_text(content@)),
        forall|k: Seq<char>| k != r@ && old(repo).index@.contains_key(k) ==> #[trigger] final(repo).index@[k] == old(repo).index@[k],
        final(repo).heads == old(repo).heads,
        final(repo).head == old(repo).head,
        final(repo).config == old(repo).config,
        final(repo).is_bare == old(repo).is_bare,
        final(repo).ignore_file == old(repo).ignore_file,
{
    let bytes = content.as_bytes();
    let hash = repo.write_object(bytes);
    let rel = relative_path(path);
    let ghost before = repo.index@;
    let size = bytes.len() as u64;
    repo.index.add_entry(rel.clone(), hash, size);
    assert(staged_shapes(repo.index@) =~= staged_shapes(before).insert(rel@, shape_of_text(content@)));
    rel
}

/// Stages each candidate (path, text) that the ignore filter lets through, in
/// order; a soft failure in a bare repository.
pub fn add_files(repo: &mut BlocRepo, files: &Vec<(String, String)>) -> (r: Outcome)
    requires
        old(repo).wf(),
    ensures
        final(repo).wf(),
        old(repo).is_bare ==> r == Outcome::Soft(Notice::BareRepository)
            && final(repo).index == old(repo).index && final(repo).objects == old(repo).objects,
        !old(repo).is_bare ==> r == Outcome::Done
            && staged_shapes(final(repo).index@) == shapes_after(staged_shapes(old(repo).index@), files@, opt_view(old(repo).ignore_file))
            && final(repo).store() == store_after(old(repo).store(), files@, opt_view(old(repo).ignore_file))
            && forall|k: Seq<char>| old(repo).index@.contains_key(k) && !touched(files@, opt_view(old(repo).ignore_file)).contains(k)
                ==> #[trigger] final(repo).index@[k] == old(repo).index@[k],
        final(repo).heads == old(repo).heads,
        final(repo).head == old(repo).head,
        final(repo).config == old(repo).config,
{
    if repo.is_bare {
        return Outcome::Soft(Notice::BareRepository);
    }
    let mut i: usize = 0;
    while i < files.len()
        invariant
            repo.wf(),
            !repo.is_bare,
            i <= files@.len(),
            repo.ignore_file == old(repo).ignore_file,
            repo.heads == old(repo).heads,
            repo.head == old(repo).head,
            repo.config == old(repo).config,
            staged_shapes(repo.index@) == shapes_after(staged_shapes(old(repo).index@), files@.subrange(0, i as int), opt_view(old(repo).ignore_file)),
            forall|k: Seq<char>| #[trigger] old(repo).index@.contains_key(k) && !touched(files@.subrange(0, i as int), opt_view(old(repo).ignore_file)).contains(k)
                ==> repo.index@.contains_key(k) && repo.index@[k] == old(repo).index@[k],
            repo.store() == store_after(old(repo).store(), files@.subrange(0, i as int), opt_view(old(repo).ignore_file)),
        decreases files@.len() - i,
    {
        assert(files@.subrange(0, i + 1).drop_last() =~= files@.subrange(0, i as int));
        let (p, c) = &files[i];
        let ghost mid = repo.index@;
        let ghost ign = opt_view(old(repo).ignore_file);
        if !repo.should_ignore(p.as_str()) {
            add_single_file(repo, p.as_str(), c.as_str());
        }
        proof {
            let pre = files@.subrange(0, i as int);
            let cur = files@.subrange(0, i + 1);
            assert(cur.last() == files@[i as int]);
            assert forall|k: Seq<char>| #[trigger] old(repo).index@.contains_key(k) && !touched(cur, ign).contains(k)
                implies repo.index@.contains_key(k) && repo.index@[k] == old(repo).index@[k] by {
                assert(!touched(pre, ign).contains(k));
                assert(mid.contains_key(k) && mid[k] == old(repo).index@[k]);
                assert(staged_shapes(repo.index@).contains_key(k));
            }
        }
        i = i + 1;
    }
    assert(files@.subrange(0, i as int) =~= files@);
    Outcome::Done
}

/// What resetting each path reports: done the first time a staged path comes,
/// else not staged.
pub open spec fn reset_report(idx: Map<Seq<char>, IndexEntry>, files: Seq<Seq<char>>, i: int) -> Outcome {
    if idx.contains_key(files[i]) && !files.subrange(0, i).contains(files[i]) {
        Outcome::Done
    } else {
        Outcome::Soft(Notice::NotStaged)
    }
}

/// Unstages each path; a soft failure in a bare repository.
pub fn reset_files(repo: &mut BlocRepo, files: &Vec<String>) -> (r: Vec<Outcome>)
    requires
        old(repo).wf(),
    ensures
        final(repo).wf(),
        old(repo).is_bare ==> r@ == seq![Outcome::Soft(Notice::BareRepository)]
            && final(repo).index == old(repo).index,
        !old(repo).is_bare ==> r@.len() == files@.len()
            && final(repo).index@ == old(repo).index@.remove_keys(views(files@).to_set())
            && forall|i: int| 0 <= i < files@.len() ==> #[trigger] r@[i] == reset_report(old(repo).index@, views(files@), i),
        final(repo).heads == old(repo).heads,
        final(repo).head == old(repo).head,
        final(repo).objects == old(repo).objects,
        final(repo).config == old(repo).config,
{
    let mut out: Vec<Outcome> = Vec::new();
    if repo.is_bare {
        out.push(Outcome::Soft(Notice::BareRepository));
        return out;
    }
    let ghost fs = views(files@);
    let mut i: usize = 0;
    while i < files.len()
        invariant
            repo.wf(),
            fs == views(files@),
            i <= files@.len(),
            out@.len() == i,
            repo.heads == old(repo).heads,
            repo.head == old(repo).head,
            repo.objects == old(repo).objects,
            repo.config == old(repo).config,
            repo.index@ == old(repo).index@.remove_keys(fs.subrange(0, i as int).to_set()),
            forall|j: int| 0 <= j < i ==> #[trigger] out@[j] == reset_report(old(repo).index@, fs, j),
        decreases files@.len() - i,
    {
        let ghost prefix = fs.subrange(0, i as int);
        let ghost f = fs[i as int];
        assert(fs.subrange(0, i + 1) =~= prefix.push(f));
        proof {
            prefix.lemma_push_to_set_commute(f);
        }
        assert(prefix.to_set().contains(f) == prefix.contains(f));
        let removed = repo.index.remove_entry(files[i].as_str());
        assert(repo.index@ =~= old(repo).index@.remove_keys(fs.subrange(0, i + 1).to_set()));
        if removed {
            out.push(Outcome::Done);
        } else {
            out.push(Outcome::Soft(Notice::NotStaged));
        }
        i = i + 1;
    }
    assert(fs.subrange(0, i as int) =~= fs);
    out
}

/// One line of a tree listing: `path:hash`.
pub open spec fn tree_line(e: (String, IndexEntry)) -> Seq<char> {
    e.0@ + seq![':'] + e.1.hash@
}

/// The tree listing of staged entries: their lines joined by newlines, in index order.
pub open spec fn tree_text(s: Seq<(String, IndexEntry)>) -> Seq<char>
    decreases s.len(),
{
    if s.len() == 0 {
        Seq::empty()
    } else if s.len() == 1 {
        tree_line(s[0])
    } else {
        tree_text(s.drop_last()) + seq!['\n'] + tree_line(s.last())
    }
}

/// The flat tree listing of the index.
pub fn serialize_tree(index: &Index) -> (r: String)
    ensures
        r@ == tree_text(index.entries.items@),
{
    let items = &index.entries.items;
    let mut out = String::new();
    let mut i: usize = 0;
    while i < items.len()
        invariant
            i <= items@.len(),
            out@ == tree_text(items@.subrange(0, i as int)),
        decreases items@.len() - i,
    {
        let ghost prev = out@;
        let ghost item = items@[i as int];
        proof {
            reveal_strlit("\n");
            reveal_strlit(":");
        }
        let nl = "\n";
        let colon = ":";
        assert(nl@ =~= seq!['\n']);
        assert(colon@ =~= seq![':']);
        if i > 0 {
            out.append(nl);
        }
        let ghost mid = out@;
        let (p, e) = &items[i];
        assert(p@ == item.0@ && e.hash@ == item.1.hash@);
        out.append(p.as_str());
        out.append(colon);
        out.append(e.hash.as_str());
        assert(out@ =~= mid + tree_line(item));
        assert(items@.subrange(0, i + 1).drop_last() =~= items@.subrange(0, i as int));
        assert(items@.subrange(0, i + 1).last() == items@[i as int]);
        if i == 0 {
            assert(out@ =~= tree_line(items@[0]));
        } else {
            assert(out@ =~= prev + seq!['\n'] + tree_line(items@[i as int]));
        }
        i = i + 1;
    }
    assert(items@.subrange(0, i as int) =~= items@);
    out
}

/// The commit record that committing the current index would write.
pub open spec fn next_commit(repo: &BlocRepo, message: Seq<char>, timestamp: Seq<char>) -> CommitView {
    CommitView {
        parent: head_commit(repo),
        author: repo.config.user.name@,
        committer: repo.config.user.email@,
        timestamp,
        message,
        tree: tree_text(repo.index.entries.items@),
    }
}

/// The effect of committing record `c`: its hash is reported, the record is
/// stored under it, the current branch points at it and the index is empty.
pub open spec fn committed(before: &BlocRepo, after: &BlocRepo, r: Outcome, c: CommitView) -> bool {
    let h = object_id(commit_json(c));
    &&& (match r {
        Outcome::Committed(s) => s@ == h,
        _ => false,
    })
    &&& h.len() == 64
    &&& after.index@ == Map::<Seq<char>, IndexEntry>::empty()
    &&& after.store() == before.store().insert(h, commit_json(c))
    &&& commit_from_json(after.store()[h]) == Some(c)
    &&& ref_view(after.heads) == ref_view(before.heads).insert(before.current_branch(), h)
    &&& after.current_branch() == before.current_branch()
    &&& head_commit(after) == Some(h)
}

/// Commits the staged entries at the given time: stores the commit record,
/// points the current branch at it and empties the index. A soft failure if
/// nothing is staged.
pub fn commit_at(repo: &mut BlocRepo, message: &str, timestamp: String) -> (r: Outcome)
    requires
        old(repo).wf(),
    ensures
        final(repo).wf(),
        final(repo).head == old(repo).head,
        final(repo).config == old(repo).config,
        final(repo).is_bare == old(repo).is_bare,
        old(repo).index@ == Map::<Seq<char>, IndexEntry>::empty() ==> r == Outcome::Soft(Notice::NothingToCommit)
            && final(repo).index == old(repo).index && final(repo).heads == old(repo).heads
            && final(repo).objects == old(repo).objects,
        old(repo).index@ != Map::<Seq<char>, IndexEntry>::empty()
            ==> committed(old(repo), final(repo), r, next_commit(old(repo), message@, timestamp@)),
{
    if repo.index.is_empty() {
        return Outcome::Soft(Notice::NothingToCommit);
    }
    let branch = repo.get_current_branch();
    let parent = get_current_commit_hash(repo);
    let tree = serialize_tree(&repo.index);
    let c = Commit {
        parent,
        author: repo.config.user.name.clone(),
        committer: repo.config.user.email.clone(),
        timestamp,
        message: String::from_str(message),
        tree,
    };
    assert(c@ == next_commit(old(repo), message@, timestamp@));
    let bytes = encode_commit(&c);
    let hash = repo.write_object(bytes.as_slice());
    let ghost hv = hash@;
    repo.heads.insert(branch, hash.clone());
    assert(ref_view(repo.heads) =~= ref_view(old(repo).heads).insert(old(repo).current_branch(), hv));
    proof {
        lemma_id_trimmed(bytes@);
        assert(repo.heads@[repo.current_branch()]@ == hv);
    }
    repo.index.clear();
    Outcome::Committed(hash)
}

/// Commits the staged entries, stamped with the current time.
pub fn commit(repo: &mut BlocRepo, message: &str) -> (r: Outcome)
    requires
        old(repo).wf(),
    ensures
        final(repo).wf(),
        final(repo).head == old(repo).head,
        final(repo).config == old(repo).config,
        old(repo).index@ == Map::<Seq<char>, IndexEntry>::empty() ==> r == Outcome::Soft(Notice::NothingToCommit)
            && final(repo).index == old(repo).index && final(repo).heads == old(repo).heads
            && final(repo).objects == old(repo).objects,
        old(repo).index@ != Map::<Seq<char>, IndexEntry>::empty() ==> exists|t: Seq<char>|
            committed(old(repo), final(repo), r, #[trigger] next_commit(old(repo), message@, t)),
{
    let t = now_text();
    let ghost tv = t@;
    let r = commit_at(repo, message, t);
    assert(old(repo).index@ != Map::<Seq<char>, IndexEntry>::empty()
        ==> committed(old(repo), final(repo), r, next_commit(old(repo), message@, tv)));
    r
}

/// The first eight characters of a hash, or all of a shorter one.
pub open spec fn short_hash(h: Seq<char>) -> Seq<char> {
    if h.len() >= 8 { h.subrange(0, 8) } else { h }
}

/// The lines shown for one commit.
pub open spec fn entry_lines(e: (Seq<char>, CommitView), oneline: bool) -> Seq<Seq<char>> {
    if oneline {
        seq![short_hash(e.0) + seq![' '] + e.1.message]
    } else {
        seq![
            seq!['c', 'o', 'm', 'm', 'i', 't', ' '] + e.0,
            seq!['A', 'u', 't', 'h', 'o', 'r', ':', ' '] + e.1.author + seq![' ', '<'] + e.1.committer + seq!['>'],
            seq!['D', 'a', 't', 'e', ':', ' '] + e.1.timestamp,
            Seq::empty(),
            seq![' ', ' ', ' ', ' '] + e.1.message,
            Seq::empty(),
        ]
    }
}

/// The lines shown for a history, child first.
pub open spec fn log_lines(s: Seq<(Seq<char>, CommitView)>, oneline: bool) -> Seq<Seq<char>>
    decreases s.len(),
{
    if s.len() == 0 {
        Seq::empty()
    } else {
        log_lines(s.drop_last(), oneline) + entry_lines(s.last(), oneline)
    }
}

fn push_entry_lines(out: &mut Vec<String>, hash: &String, c: &Commit, oneline: bool)
    ensures
        views(final(out)@) == views(old(out)@) + entry_lines((hash@, c@), oneline),
{
    proof {
        reveal_strlit(" ");
        reveal_strlit("commit ");
        reveal_strlit("Author: ");
        reveal_strlit(" <");
        reveal_strlit(">");
        reveal_strlit("Date: ");
        reveal_strlit("    ");
    }
    let ghost before = views(out@);
    let ghost lines = entry_lines((hash@, c@), oneline);
    if oneline {
        let n = hash.as_str().unicode_len();
        let short = if n >= 8 { slice(hash.as_str(), 0, 8) } else { hash.clone() };
        let a = join2(short.as_str(), " ");
        let line = join2(a.as_str(), c.message.as_str());
        assert(line@ =~= lines[0]);
        out.push(line);
    } else {
        let l0 = join2("commit ", hash.as_str());
        let a = join2("Author: ", c.author.as_str());
        let b = join2(a.as_str(), " <");
        let d = join2(b.as_str(), c.committer.as_str());
        let l1 = join2(d.as_str(), ">");
        let l2 = join2("Date: ", c.timestamp.as_str());
        let l4 = join2("    ", c.message.as_str());
        assert(l0@ =~= lines[0]);
        assert(l1@ =~= lines[1]);
        assert(l2@ =~= lines[2]);
        assert(l4@ =~= lines[4]);
        out.push(l0);
        out.push(l1);
        out.push(l2);
        out.push(String::new());
        out.push(l4);
        out.push(String::new());
    }
    assert(views(out@) =~= before + lines);
}

/// The history of the current branch as display lines, child first; none when
/// the branch has no commit yet.
pub fn log(repo: &BlocRepo, oneline: bool) -> (r: Result<Vec<String>, RepoError>)
    requires
        repo.wf(),
    ensures
        head_commit(repo).is_none() ==> r.is_ok() && r.unwrap()@.len() == 0,
        head_commit(repo).is_some() ==> match walk(repo.store(), head_commit(repo).unwrap(), repo.objects@.len()) {
            None => r == Err::<Vec<String>, RepoError>(RepoError::Malformed),
            Some(s) => r.is_ok() && views(r.unwrap()@) == log_lines(s, oneline),
        },
{
    let mut out: Vec<String> = Vec::new();
    let start = match get_current_commit_hash(repo) {
        Some(h) => h,
        None => return Ok(out),
    };
    let entries = match traverse(repo, start.as_str()) {
        Ok(e) => e,
        Err(e) => return Err(e),
    };
    let ghost es = entries_view(entries@);
    let mut i: usize = 0;
    while i < entries.len()
        invariant
            es == entries_view(entries@),
            i <= entries@.len(),
            views(out@) == log_lines(es.subrange(0, i as int), oneline),
        decreases entries@.len() - i,
    {
        let (h, c) = &entries[i];
        push_entry_lines(&mut out, h, c, oneline);
        assert(es.subrange(0, i + 1).drop_last() =~= es.subrange(0, i as int));
        assert(es[i as int] == (h@, c@));
        i = i + 1;
    }
    assert(es.subrange(0, i as int) =~= es);
    Ok(out)
}

/// The current branch, the staged paths and the untracked candidate paths.
pub struct StatusReport {
    pub branch: String,
    pub staged: Vec<String>,
    pub untracked: Vec<String>,
}

/// The candidate paths, made relative, that are neither excluded nor staged.
pub open spec fn untracked_of(files: Seq<Seq<char>>, ign: Option<Seq<char>>, idx: Map<Seq<char>, IndexEntry>) -> Seq<Seq<char>>
    decreases files.len(),
{
    if files.len() == 0 {
        Seq::empty()
    } else {
        let prev = untracked_of(files.drop_last(), ign, idx);
        let f = files.last();
        if !excluded(f, false, ign) && !idx.contains_key(rel_path(f)) {
            prev.push(rel_path(f))
        } else {
            prev
        }
    }
}

/// Status of the working tree, given the paths of its files; a bare
/// repository has no untracked files.
pub fn status(repo: &BlocRepo, files: &Vec<String>) -> (r: StatusReport)
    requires
        repo.wf(),
    ensures
        r.branch@ == repo.current_branch(),
        views(r.staged@) == repo.index.entries.key_seq(),
        repo.is_bare ==> r.untracked@.len() == 0,
        !repo.is_bare ==> views(r.untracked@) == untracked_of(views(files@), opt_view(repo.ignore_file), repo.index@),
{
    let branch = repo.get_current_branch();
    let staged = repo.index.get_staged_files();
    let mut untracked: Vec<String> = Vec::new();
    if !repo.is_bare {
        let ghost fs = views(files@);
        let mut i: usize = 0;
        while i < files.len()
            invariant
                repo.wf(),
                !repo.is_bare,
                fs == views(files@),
                i <= files@.len(),
                views(untracked@) == untracked_of(fs.subrange(0, i as int), opt_view(repo.ignore_file), repo.index@),
            decreases files@.len() - i,
        {
            let p = files[i].as_str();
            assert(fs.subrange(0, i + 1).drop_last() =~= fs.subrange(0, i as int));
            if !repo.should_ignore(p) {
                let rel = relative_path(p);
                if !repo.index.is_staged(rel.as_str()) {
                    let ghost prev = views(untracked@);
                    untracked.push(rel);
                    assert(views(untracked@) =~= prev.push(rel@));
                }
            }
            i = i + 1;
        }
        assert(fs.subrange(0, i as int) =~= fs);
    }
    StatusReport { branch, staged, untracked }
}

/// After a commit, walking from the new head meets the record that was
/// committed first, then the history of its parent.
pub proof fn lemma_walk_after_commit(before: &BlocRepo, after: &BlocRepo, r: Outcome, c: CommitView, fuel: nat)
    requires
        committed(before, after, r, c),
    ensures
        walk(after.store(), object_id(commit_json(c)), fuel + 1) == match c.parent {
            None => Some(seq![(object_id(commit_json(c)), c)]),
            Some(p) => then(seq![(object_id(commit_json(c)), c)], walk(after.store(), p, fuel)),
        },
{
}

/// The first commit on a branch is, alone, its whole history: `log` shows one
/// line, the hash's first eight hex digits, a space and the message.
pub proof fn lemma_log_after_first_commit(before: &BlocRepo, after: &BlocRepo, r: Outcome, message: Seq<char>, t: Seq<char>)
    requires
        after.wf(),
        head_commit(before).is_none(),
        committed(before, after, r, next_commit(before, message, t)),
    ensures
        ({
            let c = next_commit(before, message, t);
            let h = object_id(commit_json(c));
            &&& head_commit(after) == Some(h)
            &&& walk(after.store(), h, after.objects@.len()) == Some(seq![(h, c)])
            &&& log_lines(seq![(h, c)], true) == seq![short_hash(h) + seq![' '] + message]
            &&& short_hash(h).len() == 8
            &&& forall|i: int| 0 <= i < 8 ==> is_hex_char(#[trigger] short_hash(h)[i])
        }),
{
    let c = next_commit(before, message, t);
    let h = object_id(commit_json(c));
    after.objects.lemma_len();
    assert(after.objects@.contains_key(h));
    assert(after.objects@.len() > 0) by {
        if after.objects@.len() == 0 {
            assert(after.objects@.dom().contains(h));
            vstd::set_lib::lemma_set_empty_equivalency_len(after.objects@.dom());
        }
    }
    lemma_walk_after_commit(before, after, r, c, (after.objects@.len() - 1) as nat);
    let s = seq![(h, c)];
    assert(s.drop_last() =~= Seq::<(Seq<char>, CommitView)>::empty());
    assert(log_lines(s, true) =~= log_lines(s.drop_last(), true) + entry_lines(s.last(), true));
    lemma_hex_chars(sha256_of(commit_json(c)));
    assert forall|i: int| 0 <= i < 8 implies is_hex_char(#[trigger] short_hash(h)[i]) by {
        assert(short_hash(h)[i] == h[i]);
    }
}

} // verus!

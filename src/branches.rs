//! Branches: named refs to commits, and the HEAD that names one of them.

use vstd::prelude::*;
use crate::objects::opt_view;
use crate::outcome::{Notice, Outcome};
use crate::repository::{head_for, head_text, BlocRepo};
use crate::table::Table;
use crate::text::{trim, trimmed};

verus! {

/// Branch name to the text of its ref file.
pub open spec fn ref_view(t: Table<String>) -> Map<Seq<char>, Seq<char>> {
    t@.map_values(|v: String| v@)
}

/// The commit that the current branch points at, if the branch has one.
pub open spec fn head_commit(repo: &BlocRepo) -> Option<Seq<char>> {
    if repo.heads@.contains_key(repo.current_branch()) {
        Some(trimmed(repo.heads@[repo.current_branch()]@))
    } else {
        None
    }
}

/// Everything but the refs and HEAD is as it was.
pub open spec fn same_data(a: &BlocRepo, b: &BlocRepo) -> bool {
    &&& a.config == b.config
    &&& a.index == b.index
    &&& a.objects == b.objects
    &&& a.is_bare == b.is_bare
    &&& a.work_dir == b.work_dir
    &&& a.bloc_dir == b.bloc_dir
    &&& a.ignore_file == b.ignore_file
}

/// The hash that the current branch points at.
pub fn get_current_commit_hash(repo: &BlocRepo) -> (r: Option<String>)
    requires
        repo.wf(),
    ensures
        opt_view(r) == head_commit(repo),
{
    let branch = repo.get_current_branch();
    match repo.heads.get(branch.as_str()) {
        Some(h) => Some(trim(h.as_str())),
        None => None,
    }
}

/// Creates a branch at the current branch's commit. Soft failures: the branch
/// exists already; the current branch has no commit yet.
pub fn create_branch(repo: &mut BlocRepo, name: &str) -> (r: Outcome)
    requires
        old(repo).wf(),
    ensures
        final(repo).wf(),
        same_data(final(repo), old(repo)),
        final(repo).head == old(repo).head,
        old(repo).heads@.contains_key(name@) ==> r == Outcome::Soft(Notice::BranchExists)
            && final(repo).heads == old(repo).heads,
        !old(repo).heads@.contains_key(name@) && head_commit(old(repo)).is_none()
            ==> r == Outcome::Soft(Notice::NoCommits) && final(repo).heads == old(repo).heads,
        !old(repo).heads@.contains_key(name@) && head_commit(old(repo)).is_some()
            ==> r == Outcome::Done
            && ref_view(final(repo).heads) == ref_view(old(repo).heads).insert(name@, head_commit(old(repo)).unwrap()),
{
    if repo.heads.contains_key(name) {
        return Outcome::Soft(Notice::BranchExists);
    }
    match get_current_commit_hash(repo) {
        Some(h) => {
            let ghost hv = h@;
            repo.heads.insert(String::from_str(name), h);
            assert(ref_view(repo.heads) =~= ref_view(old(repo).heads).insert(name@, hv));
            Outcome::Done
        },
        None => Outcome::Soft(Notice::NoCommits),
    }
}

/// Deletes a branch's ref. Soft failures, in this order: it is the current
/// branch; it does not exist; `force` was not given.
pub fn delete_branch(repo: &mut BlocRepo, name: &str, force: bool) -> (r: Outcome)
    requires
        old(repo).wf(),
    ensures
        final(repo).wf(),
        same_data(final(repo), old(repo)),
        final(repo).head == old(repo).head,
        name@ == old(repo).current_branch() ==> r == Outcome::Soft(Notice::BranchCheckedOut)
            && final(repo).heads == old(repo).heads,
        name@ != old(repo).current_branch() && !old(repo).heads@.contains_key(name@)
            ==> r == Outcome::Soft(Notice::BranchMissing) && final(repo).heads == old(repo).heads,
        name@ != old(repo).current_branch() && old(repo).heads@.contains_key(name@) && !force
            ==> r == Outcome::Soft(Notice::NeedsForce) && final(repo).heads == old(repo).heads,
        name@ != old(repo).current_branch() && old(repo).heads@.contains_key(name@) && force
            ==> r == Outcome::Done && final(repo).heads@ == old(repo).heads@.remove(name@),
        old(repo).heads@.contains_key(old(repo).current_branch())
            ==> final(repo).heads@.contains_key(final(repo).current_branch()),
{
    let current = repo.get_current_branch();
    let target = String::from_str(name);
    if current == target {
        return Outcome::Soft(Notice::BranchCheckedOut);
    }
    if !repo.heads.contains_key(name) {
        return Outcome::Soft(Notice::BranchMissing);
    }
    if !force {
        return Outcome::Soft(Notice::NeedsForce);
    }
    repo.heads.remove(name);
    Outcome::Done
}

/// The branches, each with whether it is the current one.
pub fn list_branches(repo: &BlocRepo) -> (r: Vec<(String, bool)>)
    requires
        repo.wf(),
    ensures
        r@.len() == repo.heads.key_seq().len(),
        forall|i: int| 0 <= i < r@.len() ==> (#[trigger] r@[i]).0@ == repo.heads.key_seq()[i]
            && r@[i].1 == (repo.heads.key_seq()[i] == repo.current_branch()),
{
    let current = repo.get_current_branch();
    let names = repo.heads.keys();
    let mut out: Vec<(String, bool)> = Vec::new();
    let mut i: usize = 0;
    while i < names.len()
        invariant
            crate::table::views(names@) == repo.heads.key_seq(),
            current@ == repo.current_branch(),
            i <= names@.len(),
            out@.len() == i,
            forall|j: int| 0 <= j < i ==> (#[trigger] out@[j]).0@ == repo.heads.key_seq()[j]
                && out@[j].1 == (repo.heads.key_seq()[j] == repo.current_branch()),
        decreases names@.len() - i,
    {
        let n = names[i].clone();
        assert(names@[i as int]@ == repo.heads.key_seq()[i as int]);
        let mark = n == current;
        out.push((n, mark));
        i = i + 1;
    }
    out
}

/// Points HEAD at an existing branch; a soft failure, with HEAD untouched, if
/// there is no such branch. The working tree is not touched.
pub fn checkout(repo: &mut BlocRepo, branch_name: &str) -> (r: Outcome)
    requires
        old(repo).wf(),
    ensures
        final(repo).wf(),
        same_data(final(repo), old(repo)),
        final(repo).heads == old(repo).heads,
        !old(repo).heads@.contains_key(branch_name@) ==> r == Outcome::Soft(Notice::BranchMissing)
            && final(repo).head == old(repo).head,
        old(repo).heads@.contains_key(branch_name@) ==> r == Outcome::Done
            && final(repo).head@ == head_for(branch_name@) + seq!['\n'],
{
    if !repo.heads.contains_key(branch_name) {
        return Outcome::Soft(Notice::BranchMissing);
    }
    let h = head_text(branch_name, true);
    repo.head = h;
    Outcome::Done
}

/// Renames a branch, and HEAD with it when HEAD named it. Soft failures: the
/// old name does not exist; the new name exists already.
pub fn rename_branch(repo: &mut BlocRepo, old_name: &str, new_name: &str) -> (r: Outcome)
    requires
        old(repo).wf(),
    ensures
        final(repo).wf(),
        same_data(final(repo), old(repo)),
        !old(repo).heads@.contains_key(old_name@) ==> r == Outcome::Soft(Notice::BranchMissing)
            && final(repo).heads == old(repo).heads && final(repo).head == old(repo).head,
        old(repo).heads@.contains_key(old_name@) && old(repo).heads@.contains_key(new_name@)
            ==> r == Outcome::Soft(Notice::BranchExists)
            && final(repo).heads == old(repo).heads && final(repo).head == old(repo).head,
        old(repo).heads@.contains_key(old_name@) && !old(repo).heads@.contains_key(new_name@)
            ==> r == Outcome::Done
            && final(repo).heads@ == old(repo).heads@.remove(old_name@).insert(new_name@, old(repo).heads@[old_name@])
            && final(repo).head@ == (if trimmed(old(repo).head@) == head_for(old_name@) {
                head_for(new_name@) + seq!['\n']
            } else {
                old(repo).head@
            }),
{
    if !repo.heads.contains_key(old_name) {
        return Outcome::Soft(Notice::BranchMissing);
    }
    if repo.heads.contains_key(new_name) {
        return Outcome::Soft(Notice::BranchExists);
    }
    match repo.heads.take(old_name) {
        Some(v) => {
            repo.heads.insert(String::from_str(new_name), v);
        },
        None => {},
    }
    let t = trim(repo.head.as_str());
    let was = head_text(old_name, false);
    assert(was@ =~= head_for(old_name@));
    if t == was {
        let h = head_text(new_name, true);
        repo.head = h;
    }
    Outcome::Done
}

} // verus!

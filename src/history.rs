//! Walking a branch's history from child to ancestor.

use vstd::prelude::*;
use crate::objects::{commit_from_json, decode_commit, Commit, CommitView};
use crate::outcome::RepoError;
use crate::repository::BlocRepo;

verus! {

/// The commits met when following parent links from `h`, at most `fuel` of
/// them: the walk stops at a commit without parent or at a missing object,
/// and fails (`None`) on a stored object that is no commit record.
pub open spec fn walk(objs: Map<Seq<char>, Seq<u8>>, h: Seq<char>, fuel: nat) -> Option<Seq<(Seq<char>, CommitView)>>
    decreases fuel,
{
    if fuel == 0 || !objs.contains_key(h) {
        Some(Seq::empty())
    } else {
        match commit_from_json(objs[h]) {
            None => None,
            Some(c) => match c.parent {
                None => Some(seq![(h, c)]),
                Some(p) => match walk(objs, p, (fuel - 1) as nat) {
                    None => None,
                    Some(rest) => Some(seq![(h, c)] + rest),
                },
            },
        }
    }
}

/// `done` followed by what a walk yields.
pub open spec fn then(done: Seq<(Seq<char>, CommitView)>, w: Option<Seq<(Seq<char>, CommitView)>>) -> Option<Seq<(Seq<char>, CommitView)>> {
    match w {
        None => None,
        Some(rest) => Some(done + rest),
    }
}

pub open spec fn entries_view(s: Seq<(String, Commit)>) -> Seq<(Seq<char>, CommitView)> {
    s.map_values(|e: (String, Commit)| (e.0@, e.1@))
}

/// The history from `start`: each commit with its hash, child before parent.
/// At most as many commits are visited as the store holds objects.
pub fn traverse(repo: &BlocRepo, start: &str) -> (r: Result<Vec<(String, Commit)>, RepoError>)
    requires
        repo.wf(),
    ensures
        match walk(repo.store(), start@, repo.objects@.len()) {
            None => r == Err::<Vec<(String, Commit)>, RepoError>(RepoError::Malformed),
            Some(s) => r.is_ok() && entries_view(r.unwrap()@) == s,
        },
{
    let n = repo.objects.len();
    let ghost objs = repo.store();
    let mut out: Vec<(String, Commit)> = Vec::new();
    let mut cur = String::from_str(start);
    let mut fuel: usize = n;
    assert(then(entries_view(out@), walk(objs, cur@, fuel as nat)) =~= walk(objs, start@, n as nat)) by {
        assert(entries_view(out@) =~= Seq::<(Seq<char>, CommitView)>::empty());
        match walk(objs, start@, n as nat) {
            Some(s) => { assert(Seq::<(Seq<char>, CommitView)>::empty() + s =~= s); },
            None => {},
        }
    }
    loop
        invariant
            objs == repo.store(),
            repo.wf(),
            n == repo.objects@.len(),
            then(entries_view(out@), walk(objs, cur@, fuel as nat)) == walk(objs, start@, n as nat),
        decreases fuel,
    {
        if fuel == 0 {
            assert(entries_view(out@) + Seq::<(Seq<char>, CommitView)>::empty() =~= entries_view(out@));
            return Ok(out);
        }
        match repo.objects.get(cur.as_str()) {
            None => {
                assert(entries_view(out@) + Seq::<(Seq<char>, CommitView)>::empty() =~= entries_view(out@));
                return Ok(out);
            },
            Some(bytes) => {
                match decode_commit(bytes.as_slice()) {
                    None => {
                        return Err(RepoError::Malformed);
                    },
                    Some(c) => {
                        let next: Option<String> = match &c.parent {
                            Some(p) => Some(p.clone()),
                            None => None,
                        };
                        let ghost prev = entries_view(out@);
                        let ghost h = cur@;
                        let ghost cv = c@;
                        out.push((cur, c));
                        assert(entries_view(out@) =~= prev.push((h, cv)));
                        match next {
                            None => {
                                assert(prev + seq![(h, cv)] =~= prev.push((h, cv)));
                                return Ok(out);
                            },
                            Some(p) => {
                                assert(prev + (seq![(h, cv)] + walk(objs, p@, (fuel - 1) as nat).unwrap_or(Seq::empty()))
                                    =~= prev.push((h, cv)) + walk(objs, p@, (fuel - 1) as nat).unwrap_or(Seq::empty()));
                                cur = p;
                                fuel = fuel - 1;
                            },
                        }
                    },
                }
            },
        }
    }
}

/// A linear chain: `hs[i]` holds commit `cs[i]`, whose parent is `hs[i + 1]`,
/// and the last commit has no parent.
pub open spec fn is_chain(objs: Map<Seq<char>, Seq<u8>>, hs: Seq<Seq<char>>, cs: Seq<CommitView>) -> bool {
    &&& hs.len() == cs.len()
    &&& hs.len() > 0
    &&& forall|i: int| 0 <= i < hs.len() ==> #[trigger] objs.contains_key(hs[i])
        && commit_from_json(objs[hs[i]]) == Some(cs[i])
    &&& forall|i: int| 0 <= i < hs.len() - 1 ==> (#[trigger] cs[i]).parent == Some(hs[i + 1])
    &&& cs.last().parent.is_none()
}

pub open spec fn zip(hs: Seq<Seq<char>>, cs: Seq<CommitView>) -> Seq<(Seq<char>, CommitView)> {
    Seq::new(hs.len(), |i: int| (hs[i], cs[i]))
}

proof fn lemma_walk_chain(objs: Map<Seq<char>, Seq<u8>>, hs: Seq<Seq<char>>, cs: Seq<CommitView>, fuel: nat)
    requires
        is_chain(objs, hs, cs),
        fuel >= hs.len(),
    ensures
        walk(objs, hs[0], fuel) == Some(zip(hs, cs)),
    decreases hs.len(),
{
    assert(objs.contains_key(hs[0]));
    if hs.len() == 1 {
        assert(zip(hs, cs) =~= seq![(hs[0], cs[0])]);
    } else {
        let hs2 = hs.drop_first();
        let cs2 = cs.drop_first();
        assert(is_chain(objs, hs2, cs2)) by {
            assert forall|i: int| 0 <= i < hs2.len() implies #[trigger] objs.contains_key(hs2[i])
                && commit_from_json(objs[hs2[i]]) == Some(cs2[i]) by {
                assert(objs.contains_key(hs[i + 1]));
            }
            assert forall|i: int| 0 <= i < hs2.len() - 1 implies (#[trigger] cs2[i]).parent == Some(hs2[i + 1]) by {
                assert(cs[i + 1].parent == Some(hs[i + 2]));
            }
        }
        assert(cs[0].parent == Some(hs[1]));
        lemma_walk_chain(objs, hs2, cs2, (fuel - 1) as nat);
        assert(zip(hs, cs) =~= seq![(hs[0], cs[0])] + zip(hs2, cs2));
    }
}

/// Traversing from the first hash of a linear chain of N distinct stored
/// commits yields exactly those N commits, child before parent, each with the
/// record (message, author, ...) it was stored with.
pub proof fn lemma_traverse_chain(repo: &BlocRepo, hs: Seq<Seq<char>>, cs: Seq<CommitView>)
    requires
        repo.wf(),
        hs.no_duplicates(),
        is_chain(repo.store(), hs, cs),
    ensures
        walk(repo.store(), hs[0], repo.objects@.len()) == Some(zip(hs, cs)),
        zip(hs, cs).len() == hs.len(),
{
    repo.objects.lemma_len();
    hs.unique_seq_to_set();
    assert(hs.to_set().subset_of(repo.objects@.dom())) by {
        assert forall|x: Seq<char>| hs.to_set().contains(x) implies repo.objects@.dom().contains(x) by {
            let i = choose|i: int| 0 <= i < hs.len() && hs[i] == x;
            assert(repo.store().contains_key(hs[i]));
        }
    }
    vstd::set_lib::lemma_len_subset(hs.to_set(), repo.objects@.dom());
    lemma_walk_chain(repo.store(), hs, cs, repo.objects@.len());
}

} // verus!

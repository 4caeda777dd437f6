use bloc::branches::{checkout, create_branch, delete_branch, list_branches, rename_branch};
use bloc::commands::{add_files, commit, commit_at, log, reset_files, serialize_tree, status};
use bloc::history::traverse;
use bloc::objects::Index;
use bloc::outcome::{Notice, Outcome, RepoError};
use bloc::repository::{object_path, BlocRepo, RepoFiles};
use bloc::table::Table;
use bloc::config::BlocConfig;

fn fresh() -> BlocRepo {
    BlocRepo::init("/work".to_string(), false, false, false).unwrap()
}

fn stage(repo: &mut BlocRepo, path: &str, text: &str) {
    let files = vec![(path.to_string(), text.to_string())];
    assert_eq!(add_files(repo, &files), Outcome::Done);
}

fn committed_hash(o: Outcome) -> String {
    match o {
        Outcome::Committed(h) => h,
        other => panic!("expected a commit, got {:?}", other),
    }
}

#[test]
fn init_layout_non_bare() {
    let repo = fresh();
    assert!(!repo.is_bare);
    assert_eq!(repo.bloc_dir, "/work/.bloc");
    assert_eq!(repo.head, "ref: refs/heads/main\n");
    assert_eq!(repo.get_current_branch(), "main");
    assert_eq!(repo.get_refs_dir(), ".bloc/refs");
    assert!(!repo.config.core.bare);
}

#[test]
fn init_layout_bare() {
    let repo = BlocRepo::init("/srv/r".to_string(), true, false, false).unwrap();
    assert!(repo.is_bare);
    assert!(repo.config.core.bare);
    assert_eq!(repo.bloc_dir, "/srv/r");
    assert_eq!(repo.get_refs_dir(), "refs");
}

#[test]
fn init_refuses_existing_repository() {
    let r = BlocRepo::init("/work".to_string(), false, true, false);
    assert_eq!(r.err(), Some(RepoError::AlreadyExists));
    let r = BlocRepo::init("/work".to_string(), true, false, true);
    assert_eq!(r.err(), Some(RepoError::AlreadyExists));
}

fn empty_files() -> RepoFiles {
    RepoFiles {
        config: BlocConfig::default(),
        index: Index::new(),
        head: "ref: refs/heads/main\n".to_string(),
        heads: Table::new(),
        objects: Table::new(),
        ignore_file: None,
    }
}

#[test]
fn open_detects_layout() {
    let r = BlocRepo::new("/w".to_string(), false, false, false, empty_files());
    assert_eq!(r.err(), Some(RepoError::NotFound));
    let r = BlocRepo::new("/w".to_string(), false, true, false, empty_files());
    assert_eq!(r.err(), Some(RepoError::NotFound));
    let bare = BlocRepo::new("/w".to_string(), false, true, true, empty_files()).unwrap();
    assert!(bare.is_bare);
    assert_eq!(bare.bloc_dir, "/w");
    let plain = BlocRepo::new("/w".to_string(), true, false, false, empty_files()).unwrap();
    assert!(!plain.is_bare);
    assert_eq!(plain.bloc_dir, "/w/.bloc");
    assert!(BlocRepo::is_repo(true, false, false));
    assert!(BlocRepo::is_repo(false, true, true));
    assert!(!BlocRepo::is_repo(false, true, false));
    assert!(BlocRepo::is_bare_repo(false, true, true));
    assert!(!BlocRepo::is_bare_repo(true, true, true));
}

#[test]
fn object_round_trip_and_idempotence() {
    let mut repo = fresh();
    let content = b"some bytes \x00\xff".to_vec();
    let h1 = repo.write_object(&content);
    let h2 = repo.write_object(&content);
    assert_eq!(h1, h2);
    assert_eq!(repo.objects.len(), 1);
    assert_eq!(repo.read_object(&h1).unwrap(), content);
    let empty: Vec<u8> = Vec::new();
    let h3 = repo.write_object(&empty);
    assert_eq!(repo.read_object(&h3).unwrap(), empty);
}

#[test]
fn object_hash_is_sha256_hex() {
    let repo = fresh();
    assert_eq!(
        repo.hash_object(b"hello"),
        "2cf24dba5fb0a30e26e83b2ac5b9e29e1b161e5c1fa7425e73043362938b9824"
    );
    assert_eq!(
        repo.hash_object(b""),
        "e3b0c44298fc1c149afbf4c8996fb92427ae41e4649b934ca495991b7852b855"
    );
}

#[test]
fn read_missing_object_is_not_found() {
    let repo = fresh();
    assert_eq!(repo.read_object("abcdef").err(), Some(RepoError::NotFound));
}

#[test]
fn object_path_splits_hash() {
    assert_eq!(object_path("2cf24dba5f"), "objects/2c/f24dba5f");
    assert_eq!(object_path("ab"), "objects/ab/");
}

#[test]
fn commit_clears_index_and_links_parent() {
    let mut repo = fresh();
    stage(&mut repo, "a.txt", "one");
    let h1 = committed_hash(commit_at(&mut repo, "first", "2024-01-01T00:00:00Z".to_string()));
    assert!(repo.index.is_empty());
    assert_eq!(repo.heads.get("main").unwrap(), &h1);
    stage(&mut repo, "b.txt", "two");
    let h2 = committed_hash(commit_at(&mut repo, "second", "2024-01-02T00:00:00Z".to_string()));
    assert!(repo.index.is_empty());
    let hist = traverse(&repo, &h2).unwrap();
    assert_eq!(hist[0].1.parent, Some(h1.clone()));
    assert_eq!(hist[1].1.parent, None);
    assert_eq!(hist[0].1.tree, format!("b.txt:{}", repo.hash_object(b"two")));
}

#[test]
fn commit_with_nothing_staged_is_soft() {
    let mut repo = fresh();
    assert_eq!(commit(&mut repo, "empty"), Outcome::Soft(Notice::NothingToCommit));
    assert_eq!(repo.heads.len(), 0);
}

#[test]
fn commit_now_records_a_time() {
    let mut repo = fresh();
    stage(&mut repo, "a.txt", "x");
    let h = committed_hash(commit(&mut repo, "now"));
    let hist = traverse(&repo, &h).unwrap();
    assert_eq!(hist.len(), 1);
    assert!(!hist[0].1.timestamp.is_empty());
    assert_eq!(hist[0].1.author, "Bloc User");
    assert_eq!(hist[0].1.committer, "user@bloc.local");
}

#[test]
fn traverse_linear_chain_in_order() {
    let mut repo = fresh();
    let mut hashes = Vec::new();
    for (i, msg) in ["m1", "m2", "m3"].iter().enumerate() {
        stage(&mut repo, &format!("f{}.txt", i), msg);
        let t = format!("2024-01-0{}T00:00:00Z", i + 1);
        hashes.push(committed_hash(commit_at(&mut repo, msg, t)));
    }
    let hist = traverse(&repo, &hashes[2]).unwrap();
    assert_eq!(hist.len(), 3);
    let msgs: Vec<&str> = hist.iter().map(|(_, c)| c.message.as_str()).collect();
    assert_eq!(msgs, vec!["m3", "m2", "m1"]);
    assert_eq!(hist[0].0, hashes[2]);
    assert_eq!(hist[2].0, hashes[0]);
    for (_, c) in &hist {
        assert_eq!(c.author, "Bloc User");
    }
    // a fresh call yields the same sequence again
    assert_eq!(traverse(&repo, &hashes[2]).unwrap().len(), 3);
}

#[test]
fn traverse_stops_at_missing_object() {
    let repo = fresh();
    assert_eq!(traverse(&repo, "0000000000").unwrap().len(), 0);
}

#[test]
fn log_of_non_commit_object_is_malformed() {
    let mut repo = fresh();
    let h = repo.write_object(b"not a commit");
    repo.heads.insert("main".to_string(), h);
    assert_eq!(log(&repo, true).err(), Some(RepoError::Malformed));
}

#[test]
fn log_without_commits_is_empty() {
    let repo = fresh();
    assert_eq!(log(&repo, true).unwrap().len(), 0);
}

#[test]
fn log_full_form() {
    let mut repo = fresh();
    stage(&mut repo, "a.txt", "hello");
    let h = committed_hash(commit_at(&mut repo, "first", "2024-05-06T07:08:09Z".to_string()));
    let lines = log(&repo, false).unwrap();
    assert_eq!(
        lines,
        vec![
            format!("commit {}", h),
            "Author: Bloc User <user@bloc.local>".to_string(),
            "Date: 2024-05-06T07:08:09Z".to_string(),
            String::new(),
            "    first".to_string(),
            String::new(),
        ]
    );
}

#[test]
fn end_to_end_scenario() {
    let mut repo = fresh();
    stage(&mut repo, "a.txt", "hello");
    let h = committed_hash(commit(&mut repo, "first"));
    let lines = log(&repo, true).unwrap();
    assert_eq!(lines.len(), 1);
    let line = &lines[0];
    let (prefix, rest) = line.split_at(8);
    assert!(prefix.chars().all(|c| c.is_ascii_hexdigit()));
    assert_eq!(prefix, &h[..8]);
    assert_eq!(rest, " first");
    assert_eq!(create_branch(&mut repo, "feature"), Outcome::Done);
    assert_eq!(checkout(&mut repo, "feature"), Outcome::Done);
    assert_eq!(repo.head, "ref: refs/heads/feature\n");
    assert_eq!(repo.get_current_branch(), "feature");
    let branches = list_branches(&repo);
    assert_eq!(branches.len(), 2);
    for (name, current) in &branches {
        match name.as_str() {
            "feature" => assert!(*current),
            "main" => assert!(!*current),
            other => panic!("unexpected branch {}", other),
        }
    }
}

#[test]
fn checkout_missing_branch_leaves_head() {
    let mut repo = fresh();
    let before = repo.head.clone();
    assert_eq!(checkout(&mut repo, "nope"), Outcome::Soft(Notice::BranchMissing));
    assert_eq!(repo.head, before);
}

#[test]
fn delete_current_branch_refused_either_way() {
    let mut repo = fresh();
    stage(&mut repo, "a.txt", "x");
    commit(&mut repo, "c");
    for force in [false, true] {
        assert_eq!(delete_branch(&mut repo, "main", force), Outcome::Soft(Notice::BranchCheckedOut));
        assert!(repo.heads.contains_key("main"));
    }
}

#[test]
fn delete_branch_needs_force_and_existence() {
    let mut repo = fresh();
    stage(&mut repo, "a.txt", "x");
    commit(&mut repo, "c");
    assert_eq!(create_branch(&mut repo, "old"), Outcome::Done);
    assert_eq!(delete_branch(&mut repo, "ghost", true), Outcome::Soft(Notice::BranchMissing));
    assert_eq!(delete_branch(&mut repo, "old", false), Outcome::Soft(Notice::NeedsForce));
    assert!(repo.heads.contains_key("old"));
    assert_eq!(delete_branch(&mut repo, "old", true), Outcome::Done);
    assert!(!repo.heads.contains_key("old"));
}

#[test]
fn create_branch_soft_failures() {
    let mut repo = fresh();
    assert_eq!(create_branch(&mut repo, "topic"), Outcome::Soft(Notice::NoCommits));
    assert!(!repo.heads.contains_key("topic"));
    stage(&mut repo, "a.txt", "x");
    let h = committed_hash(commit(&mut repo, "c"));
    assert_eq!(create_branch(&mut repo, "topic"), Outcome::Done);
    assert_eq!(repo.heads.get("topic").unwrap(), &h);
    assert_eq!(create_branch(&mut repo, "topic"), Outcome::Soft(Notice::BranchExists));
}

#[test]
fn rename_branch_moves_ref_and_head() {
    let mut repo = fresh();
    stage(&mut repo, "a.txt", "x");
    let h = committed_hash(commit(&mut repo, "c"));
    assert_eq!(rename_branch(&mut repo, "nope", "x"), Outcome::Soft(Notice::BranchMissing));
    assert_eq!(create_branch(&mut repo, "other"), Outcome::Done);
    assert_eq!(rename_branch(&mut repo, "main", "other"), Outcome::Soft(Notice::BranchExists));
    assert_eq!(rename_branch(&mut repo, "main", "trunk"), Outcome::Done);
    assert!(!repo.heads.contains_key("main"));
    assert_eq!(repo.heads.get("trunk").unwrap(), &h);
    assert_eq!(repo.head, "ref: refs/heads/trunk\n");
    assert_eq!(repo.get_current_branch(), "trunk");
    assert_eq!(rename_branch(&mut repo, "other", "side"), Outcome::Done);
    assert_eq!(repo.head, "ref: refs/heads/trunk\n");
}

#[test]
fn reset_removes_only_named_entries() {
    let mut repo = fresh();
    stage(&mut repo, "a.txt", "a");
    stage(&mut repo, "b.txt", "b");
    let b_hash = repo.index.entries.get("b.txt").unwrap().hash.clone();
    let out = reset_files(&mut repo, &vec!["a.txt".to_string()]);
    assert_eq!(out, vec![Outcome::Done]);
    assert!(!repo.index.is_staged("a.txt"));
    assert_eq!(repo.index.entries.get("b.txt").unwrap().hash, b_hash);
    let out = reset_files(&mut repo, &vec!["never.txt".to_string(), "b.txt".to_string(), "b.txt".to_string()]);
    assert_eq!(out, vec![Outcome::Soft(Notice::NotStaged), Outcome::Done, Outcome::Soft(Notice::NotStaged)]);
    assert!(repo.index.is_empty());
}

#[test]
fn reset_unstaged_path_leaves_index() {
    let mut repo = fresh();
    stage(&mut repo, "a.txt", "a");
    let out = reset_files(&mut repo, &vec!["zzz".to_string()]);
    assert_eq!(out, vec![Outcome::Soft(Notice::NotStaged)]);
    assert_eq!(repo.index.get_staged_files(), vec!["a.txt".to_string()]);
}

#[test]
fn bare_repository_refuses_staging() {
    let mut repo = BlocRepo::init("/b".to_string(), true, false, false).unwrap();
    let files = vec![("a.txt".to_string(), "x".to_string())];
    assert_eq!(add_files(&mut repo, &files), Outcome::Soft(Notice::BareRepository));
    assert_eq!(reset_files(&mut repo, &vec!["a.txt".to_string()]), vec![Outcome::Soft(Notice::BareRepository)]);
    assert!(repo.index.is_empty());
}

#[test]
fn add_files_strips_dot_prefix_and_skips_ignored() {
    let mut repo = fresh();
    repo.ignore_file = Some("# comment\n\n*.log\nbuild/\n".to_string());
    let files = vec![
        ("./src/lib.rs".to_string(), "code".to_string()),
        ("./debug.log".to_string(), "noise".to_string()),
        ("./build/out.txt".to_string(), "built".to_string()),
        ("./.bloc/HEAD".to_string(), "meta".to_string()),
    ];
    assert_eq!(add_files(&mut repo, &files), Outcome::Done);
    assert_eq!(repo.index.get_staged_files(), vec!["src/lib.rs".to_string()]);
    let e = repo.index.entries.get("src/lib.rs").unwrap();
    assert_eq!(e.size, 4);
    assert_eq!(e.mode, "100644");
    assert_eq!(e.hash, repo.hash_object(b"code"));
    assert_eq!(repo.read_object(&e.hash).unwrap(), b"code".to_vec());
}

#[test]
fn restaging_overwrites_entry() {
    let mut repo = fresh();
    stage(&mut repo, "a.txt", "v1");
    stage(&mut repo, "a.txt", "v2");
    assert_eq!(repo.index.entries.len(), 1);
    assert_eq!(repo.index.entries.get("a.txt").unwrap().hash, repo.hash_object(b"v2"));
}

#[test]
fn status_reports_untracked() {
    let mut repo = fresh();
    repo.ignore_file = Some("target/\n".to_string());
    stage(&mut repo, "./a.txt", "a");
    let files = vec![
        "./a.txt".to_string(),
        "./b.txt".to_string(),
        "./target/x".to_string(),
        "./.bloc/index".to_string(),
    ];
    let st = status(&repo, &files);
    assert_eq!(st.branch, "main");
    assert_eq!(st.staged, vec!["a.txt".to_string()]);
    assert_eq!(st.untracked, vec!["b.txt".to_string()]);
}

#[test]
fn tree_listing_joins_entries() {
    let mut repo = fresh();
    assert_eq!(serialize_tree(&repo.index), "");
    stage(&mut repo, "a.txt", "a");
    stage(&mut repo, "b.txt", "b");
    let expected = format!("a.txt:{}\nb.txt:{}", repo.hash_object(b"a"), repo.hash_object(b"b"));
    assert_eq!(serialize_tree(&repo.index), expected);
}

#[test]
fn detached_head_is_reported() {
    let mut repo = fresh();
    repo.head = "0123abcd".to_string();
    assert_eq!(repo.get_current_branch(), "(detached HEAD)");
    repo.head = "ref: other/place\n".to_string();
    assert_eq!(repo.get_current_branch(), "other/place");
}

#[test]
fn author_signature() {
    let repo = fresh();
    assert_eq!(repo.get_author_signature(), "Bloc User <user@bloc.local>");
}

#[test]
fn add_files_keeps_untouched_entries_and_records_mode_and_size() {
    let mut repo = fresh();
    stage(&mut repo, "keep.txt", "kept");
    let before = repo.index.entries.get("keep.txt").unwrap().mtime.clone();
    let files = vec![
        ("a.txt".to_string(), "hello".to_string()),
        ("./.bloc/config".to_string(), "{}".to_string()),
    ];
    assert_eq!(add_files(&mut repo, &files), Outcome::Done);
    let a = repo.index.entries.get("a.txt").unwrap();
    assert_eq!(a.hash, "2cf24dba5fb0a30e26e83b2ac5b9e29e1b161e5c1fa7425e73043362938b9824");
    assert_eq!(a.size, 5);
    assert_eq!(a.mode, "100644");
    assert_eq!(repo.read_object(&a.hash).unwrap(), b"hello".to_vec());
    let k = repo.index.entries.get("keep.txt").unwrap();
    assert_eq!(k.mtime, before);
    assert_eq!(k.size, 4);
    assert_eq!(repo.index.entries.len(), 2);
}

#[test]
fn all_candidates_excluded_leaves_index() {
    let mut repo = fresh();
    stage(&mut repo, "a.txt", "x");
    let files = vec![(".bloc/HEAD".to_string(), "meta".to_string())];
    assert_eq!(add_files(&mut repo, &files), Outcome::Done);
    assert_eq!(repo.index.get_staged_files(), vec!["a.txt".to_string()]);
    assert_eq!(repo.objects.len(), 1);
}

#[test]
fn soft_failure_and_error_texts() {
    assert_eq!(Notice::NotStaged.message(), "not in staging area");
    assert_eq!(Notice::BranchMissing.message(), "does not exist");
    assert_eq!(RepoError::AlreadyExists.message(), "repository already exists");
}

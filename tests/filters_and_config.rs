use bloc::config::BlocConfig;
use bloc::ignore::{is_excluded, listed_in};
use bloc::objects::{content_hash, to_hex, Commit, ObjectType, PackFile, TreeEntry};
use bloc::outcome::{Notice, Outcome};
use bloc::text::{contains, ends_with, split_lines, starts_with, trim};

#[test]
fn ignore_directory_pattern() {
    assert!(is_excluded("build/output.txt", false, Some("build/")));
    assert!(is_excluded("./build/output.txt", false, Some("build/")));
    assert!(is_excluded("src/build/x", false, Some("build/")));
    assert!(!is_excluded("rebuild.txt", false, Some("build/")));
}

#[test]
fn ignore_suffix_pattern() {
    assert!(is_excluded("debug.log", false, Some("*.log")));
    assert!(!is_excluded("debug.logger", false, Some("*.log")));
}

#[test]
fn ignore_other_patterns() {
    assert!(is_excluded("a/tmpfile", false, Some("*tmp*")));
    assert!(is_excluded("notes.txt", false, Some("notes*")));
    assert!(!is_excluded("my-notes.txt", false, Some("notes*")));
    assert!(is_excluded("x/secret/y", false, Some("secret")));
    assert!(!is_excluded("x/public/y", false, Some("secret")));
}

#[test]
fn ignore_skips_blank_and_comment_lines() {
    assert!(!is_excluded("x.txt", false, Some("# x.txt\n\n   \n")));
    assert!(is_excluded("x.txt", false, Some("# c\r\n  x.txt  \r\n")));
    assert!(listed_in("a.tmp", "one\n*.tmp"));
    assert!(!listed_in("a.tmp", ""));
}

#[test]
fn without_ignore_file_only_metadata_is_excluded() {
    assert!(is_excluded(".bloc/HEAD", false, None));
    assert!(is_excluded("./.bloc/objects/ab/cd", false, None));
    assert!(!is_excluded("src/main.rs", false, None));
    assert!(!is_excluded("debug.log", false, None));
    assert!(!is_excluded(".blocignore", false, None));
    assert!(!is_excluded("./.blocignore", false, None));
    assert!(!is_excluded("my.blocks.txt", false, None));
    assert!(is_excluded(".bloc", false, None));
    assert!(is_excluded("./.bloc", false, None));
    assert!(is_excluded("sub/.bloc/x", false, None));
}

#[test]
fn bare_repository_excludes_nothing() {
    assert!(!is_excluded(".bloc/HEAD", true, Some("*")));
}

#[test]
fn text_helpers() {
    assert!(starts_with("hello", "he"));
    assert!(!starts_with("he", "hello"));
    assert!(ends_with("hello", "llo"));
    assert!(contains("hello", "ell"));
    assert!(contains("hello", ""));
    assert!(!contains("hello", "xyz"));
    assert_eq!(trim("  \t a b \n"), "a b");
    assert_eq!(trim(" \u{3000}x\u{a0}"), "x");
    assert_eq!(split_lines("a\r\nb\n\nc"), vec!["a", "b", "", "c"]);
    assert_eq!(split_lines("a\n"), vec!["a"]);
    assert!(split_lines("").is_empty());
}

#[test]
fn hex_and_hash() {
    assert_eq!(to_hex(&[0x00, 0x0f, 0xa0, 0xff]), "000fa0ff");
    assert_eq!(
        content_hash(b"abc"),
        "ba7816bf8f01cfea414140de5dae2223b00361a396177a9cb410ff61f20015ad"
    );
}

#[test]
fn pack_checksum_covers_all_data() {
    let mut p = PackFile::new();
    assert!(p.objects.is_empty());
    p.add_object("h1".to_string(), ObjectType::Blob, b"hel".to_vec());
    p.add_object("h2".to_string(), ObjectType::Commit, b"lo".to_vec());
    p.finalize();
    assert_eq!(p.objects.len(), 2);
    assert_eq!(p.checksum, "2cf24dba5fb0a30e26e83b2ac5b9e29e1b161e5c1fa7425e73043362938b9824");
}

#[test]
fn tree_entries() {
    let f = TreeEntry::new_file("a".to_string(), "h".to_string());
    assert!(f.is_file);
    assert_eq!(f.mode, "100644");
    let d = TreeEntry::new_directory("d".to_string(), "h2".to_string());
    assert!(!d.is_file);
    assert_eq!(d.mode, "040000");
    assert_eq!(d.name, "d");
}

#[test]
fn commit_new_uses_author_as_committer() {
    let c = Commit::new(None, "Ann".to_string(), "msg".to_string(), "t".to_string());
    assert_eq!(c.committer, "Ann");
    assert_eq!(c.parent, None);
    assert!(!c.timestamp.is_empty());
}

#[test]
fn config_defaults_and_keys() {
    let mut cfg = BlocConfig::default();
    assert_eq!(cfg.user.name, "Bloc User");
    assert_eq!(cfg.core.default_branch, "main");
    assert_eq!(cfg.get_value("user.email"), Some("user@bloc.local".to_string()));
    assert_eq!(cfg.get_value("core.bare"), None);
    assert_eq!(cfg.set_value("user.name", "Zed".to_string()), Outcome::Done);
    assert_eq!(cfg.user.name, "Zed");
    assert_eq!(cfg.set_value("user.email", "z@x".to_string()), Outcome::Done);
    assert_eq!(cfg.user.email, "z@x");
    assert_eq!(cfg.set_value("color", "on".to_string()), Outcome::Soft(Notice::UnknownKey));
    cfg.set_user(None, Some("q@q".to_string()));
    assert_eq!(cfg.user.name, "Zed");
    assert_eq!(cfg.user.email, "q@q");
}

#[test]
fn remotes_lifecycle() {
    let mut cfg = BlocConfig::default();
    cfg.add_remote("origin".to_string(), "https://example.org/r".to_string());
    let r = cfg.remotes.get("origin").unwrap();
    assert_eq!(r.fetch, "+refs/heads/*:refs/remotes/origin/*");
    assert_eq!(r.push, None);
    assert_eq!(cfg.list_remotes(), vec![("origin".to_string(), "https://example.org/r".to_string())]);
    assert_eq!(cfg.rename_remote("nope", "x".to_string()), Outcome::Soft(Notice::RemoteMissing));
    assert_eq!(cfg.rename_remote("origin", "up".to_string()), Outcome::Done);
    assert!(cfg.remotes.get("origin").is_none());
    assert_eq!(cfg.remotes.get("up").unwrap().url, "https://example.org/r");
    assert_eq!(cfg.remove_remote("origin"), Outcome::Soft(Notice::RemoteMissing));
    assert_eq!(cfg.remove_remote("up"), Outcome::Done);
    assert!(cfg.list_remotes().is_empty());
}

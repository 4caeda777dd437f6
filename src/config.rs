//! Repository configuration: user identity, remotes and core settings.

use vstd::prelude::*;
use crate::outcome::{Notice, Outcome};
use crate::table::Table;
use crate::text::join2;

verus! {

#[derive(Debug)]
pub struct UserConfig {
    pub name: String,
    pub email: String,
}

#[derive(Debug)]
pub struct RemoteConfig {
    pub url: String,
    pub fetch: String,
    pub push: Option<String>,
}

#[derive(Debug)]
pub struct CoreConfig {
    pub bare: bool,
    pub default_branch: String,
}

#[derive(Debug)]
pub struct BlocConfig {
    pub user: UserConfig,
    pub remotes: Table<RemoteConfig>,
    pub core: CoreConfig,
}

pub open spec fn default_user_name() -> Seq<char> {
    seq!['B', 'l', 'o', 'c', ' ', 'U', 's', 'e', 'r']
}

pub open spec fn default_user_email() -> Seq<char> {
    seq!['u', 's', 'e', 'r', '@', 'b', 'l', 'o', 'c', '.', 'l', 'o', 'c', 'a', 'l']
}

pub open spec fn default_branch_name() -> Seq<char> {
    seq!['m', 'a', 'i', 'n']
}

/// The refspec with which a remote of this name is fetched.
pub open spec fn fetch_spec(name: Seq<char>) -> Seq<char> {
    seq!['+', 'r', 'e', 'f', 's', '/', 'h', 'e', 'a', 'd', 's', '/', '*', ':', 'r', 'e', 'f', 's', '/',
        'r', 'e', 'm', 'o', 't', 'e', 's', '/'] + name + seq!['/', '*']
}

pub open spec fn key_user_name() -> Seq<char> {
    seq!['u', 's', 'e', 'r', '.', 'n', 'a', 'm', 'e']
}

pub open spec fn key_user_email() -> Seq<char> {
    seq!['u', 's', 'e', 'r', '.', 'e', 'm', 'a', 'i', 'l']
}

impl Default for BlocConfig {
    fn default() -> (r: BlocConfig)
        ensures
            r.wf(),
            r.user.name@ == default_user_name(),
            r.user.email@ == default_user_email(),
            r.remotes@ == Map::<Seq<char>, RemoteConfig>::empty(),
            !r.core.bare,
            r.core.default_branch@ == default_branch_name(),
    {
        proof {
            reveal_strlit("Bloc User");
            reveal_strlit("user@bloc.local");
            reveal_strlit("main");
        }
        BlocConfig {
            user: UserConfig {
                name: String::from_str("Bloc User"),
                email: String::from_str("user@bloc.local"),
            },
            remotes: Table::new(),
            core: CoreConfig { bare: false, default_branch: String::from_str("main") },
        }
    }
}

impl BlocConfig {
    pub open spec fn wf(&self) -> bool {
        self.remotes.wf()
    }

    /// Replaces the user name and e-mail that are given.
    pub fn set_user(&mut self, name: Option<String>, email: Option<String>)
        ensures
            final(self).user.name == (match name { Some(n) => n, None => old(self).user.name }),
            final(self).user.email == (match email { Some(e) => e, None => old(self).user.email }),
            final(self).remotes == old(self).remotes,
            final(self).core == old(self).core,
    {
        if let Some(n) = name {
            self.user.name = n;
        }
        if let Some(e) = email {
            self.user.email = e;
        }
    }

    /// Adds, or replaces, a remote with the default fetch refspec.
    pub fn add_remote(&mut self, name: String, url: String)
        requires
            old(self).wf(),
        ensures
            final(self).wf(),
            final(self).remotes@.dom() == old(self).remotes@.dom().insert(name@),
            final(self).remotes@[name@].url == url,
            final(self).remotes@[name@].fetch@ == fetch_spec(name@),
            final(self).remotes@[name@].push.is_none(),
            forall|k: Seq<char>| k != name@ && old(self).remotes@.contains_key(k)
                ==> #[trigger] final(self).remotes@[k] == old(self).remotes@[k],
            final(self).user == old(self).user,
            final(self).core == old(self).core,
    {
        proof {
            reveal_strlit("+refs/heads/*:refs/remotes/");
            reveal_strlit("/*");
        }
        let f1 = join2("+refs/heads/*:refs/remotes/", name.as_str());
        let fetch = join2(f1.as_str(), "/*");
        assert(fetch@ =~= fetch_spec(name@));
        let remote = RemoteConfig { url, fetch, push: None };
        self.remotes.insert(name, remote);
    }

    /// Removes a remote; a soft failure if there is none of that name.
    pub fn remove_remote(&mut self, name: &str) -> (r: Outcome)
        requires
            old(self).wf(),
        ensures
            final(self).wf(),
            final(self).remotes@ == old(self).remotes@.remove(name@),
            r == (if old(self).remotes@.contains_key(name@) { Outcome::Done } else { Outcome::Soft(Notice::RemoteMissing) }),
            final(self).user == old(self).user,
            final(self).core == old(self).core,
    {
        if self.remotes.remove(name) {
            Outcome::Done
        } else {
            Outcome::Soft(Notice::RemoteMissing)
        }
    }

    /// Moves a remote to a new name; a soft failure if there is none of the old name.
    pub fn rename_remote(&mut self, old_name: &str, new_name: String) -> (r: Outcome)
        requires
            old(self).wf(),
        ensures
            final(self).wf(),
            old(self).remotes@.contains_key(old_name@) ==> r == Outcome::Done
                && final(self).remotes@ == old(self).remotes@.remove(old_name@).insert(new_name@, old(self).remotes@[old_name@]),
            !old(self).remotes@.contains_key(old_name@) ==> r == Outcome::Soft(Notice::RemoteMissing)
                && final(self).remotes@ == old(self).remotes@,
            final(self).user == old(self).user,
            final(self).core == old(self).core,
    {
        match self.remotes.take(old_name) {
            Some(remote) => {
                self.remotes.insert(new_name, remote);
                Outcome::Done
            },
            None => Outcome::Soft(Notice::RemoteMissing),
        }
    }

    /// The value of a user key (`user.name`, `user.email`); none for another key.
    pub fn get_value(&self, key: &str) -> (r: Option<String>)
        ensures
            key@ == key_user_name() ==> r == Some(self.user.name),
            key@ == key_user_email() ==> r == Some(self.user.email),
            key@ != key_user_name() && key@ != key_user_email() ==> r.is_none(),
    {
        proof {
            reveal_strlit("user.name");
            reveal_strlit("user.email");
        }
        let k = String::from_str(key);
        let name_key = String::from_str("user.name");
        let email_key = String::from_str("user.email");
        assert(name_key@ =~= key_user_name());
        assert(email_key@ =~= key_user_email());
        if k == name_key {
            Some(self.user.name.clone())
        } else if k == email_key {
            Some(self.user.email.clone())
        } else {
            None
        }
    }

    /// Sets a user key; a soft failure for another key, which changes nothing.
    pub fn set_value(&mut self, key: &str, value: String) -> (r: Outcome)
        ensures
            key@ == key_user_name() ==> r == Outcome::Done && final(self).user.name == value
                && final(self).user.email == old(self).user.email,
            key@ == key_user_email() ==> r == Outcome::Done && final(self).user.email == value
                && final(self).user.name == old(self).user.name,
            key@ != key_user_name() && key@ != key_user_email() ==> r == Outcome::Soft(Notice::UnknownKey)
                && final(self).user == old(self).user,
            final(self).remotes == old(self).remotes,
            final(self).core == old(self).core,
    {
        match self.get_value(key) {
            None => Outcome::Soft(Notice::UnknownKey),
            Some(_) => {
                proof {
                    reveal_strlit("user.name");
                }
                let name_key = String::from_str("user.name");
                assert(name_key@ =~= key_user_name());
                if String::from_str(key) == name_key {
                    self.set_user(Some(value), None);
                } else {
                    self.set_user(None, Some(value));
                }
                Outcome::Done
            },
        }
    }

    /// Each remote's name and URL.
    pub fn list_remotes(&self) -> (r: Vec<(String, String)>)
        requires
            self.wf(),
        ensures
            r@.len() == self.remotes.key_seq().len(),
            forall|i: int| 0 <= i < r@.len() ==> (#[trigger] r@[i]).0@ == self.remotes.key_seq()[i]
                && r@[i].1 == self.remotes@[r@[i].0@].url,
    {
        let items = &self.remotes.items;
        let mut out: Vec<(String, String)> = Vec::new();
        let mut i: usize = 0;
        while i < items.len()
            invariant
                self.wf(),
                items@ == self.remotes.items@,
                i <= items@.len(),
                out@.len() == i,
                forall|j: int| 0 <= j < i ==> (#[trigger] out@[j]).0@ == self.remotes.key_seq()[j]
                    && out@[j].1 == self.remotes@[out@[j].0@].url,
            decreases items@.len() - i,
        {
            let (name, remote) = &items[i];
            proof {
                crate::table::lemma_value_at(self.remotes.items@, i as int);
            }
            out.push((name.clone(), remote.url.clone()));
            i = i + 1;
        }
        out
    }
}

} // verus!

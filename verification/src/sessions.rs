//! A shell session: per-instance navigation state layered over a shared
//! repository.
//!
//! A session holds only path strings and re-resolves them against the
//! repository on every operation, so it tolerates the repository
//! changing between calls.

use vstd::prelude::*;

use crate::errors::{FileSystemError, SessionError, ShellError};
use crate::fs::resolver::{lemma_resolve_absolute, resolve_path, resolve_spec};
use crate::fs::users::UserId;
use crate::fs::FileSystem;
use crate::strutil::{concat_str, str_eq};

verus! {

/// A non-empty path that starts at the root.
pub open spec fn is_abs_path(s: Seq<char>) -> bool {
    s.len() > 0 && s[0] == '/'
}

/// One shell instance: where it stands, where it stood, who acts, and
/// what was typed.
pub struct Session {
    pub current_working_directory: String,
    pub previous_working_directory: Option<String>,
    pub current_user: UserId,
    pub executed_commands: Vec<String>,
}

/// What a successful `cd -` does: the previous directory exists in the
/// repository, becomes current, and the old current becomes previous.
pub open spec fn cd_previous_ok(old_s: Session, new_s: Session, fs: FileSystem) -> bool {
    &&& old_s.previous_working_directory matches Some(prev) && (fs.find_abs(prev@) is Some
        && new_s.current_working_directory == prev)
    &&& new_s.previous_working_directory == Some(old_s.current_working_directory)
    &&& new_s.current_user == old_s.current_user
    &&& new_s.executed_commands == old_s.executed_commands
}

impl Session {
    /// A session in good standing: it stands at an absolute path, and
    /// any remembered previous directory is absolute too.
    pub open spec fn wf(self) -> bool {
        &&& is_abs_path(self.current_working_directory@)
        &&& self.previous_working_directory matches Some(p) ==> is_abs_path(p@)
    }

    /// The acting user is registered in the repository's store.
    pub open spec fn user_in(self, fs: FileSystem) -> bool {
        (self.current_user as int) < fs.users.users@.len()
    }

    /// The acting user's home directory, `/home/<name>`.
    pub open spec fn home_of(self, fs: FileSystem) -> Seq<char> {
        "/home/"@ + fs.users.users@[self.current_user as int].name@
    }

    /// What a raw path token means for this session against this
    /// repository.
    pub open spec fn resolved(self, fs: FileSystem, path: Seq<char>) -> Seq<char> {
        resolve_spec(path, self.home_of(fs), self.current_working_directory@)
    }

    pub fn new(current_working_directory: String, current_user: UserId) -> (r: Session)
        requires
            is_abs_path(current_working_directory@),
        ensures
            r.wf(),
            r.current_working_directory == current_working_directory,
            r.previous_working_directory is None,
            r.current_user == current_user,
            r.executed_commands@ == Seq::<String>::empty(),
    {
        Session {
            current_working_directory,
            previous_working_directory: None,
            current_user,
            executed_commands: Vec::new(),
        }
    }

    /// The acting user's home directory as a string.
    fn get_user_home_directory(&self, fs: &FileSystem) -> (r: String)
        requires
            fs.wf(),
            self.user_in(*fs),
        ensures
            r@ == self.home_of(*fs),
    {
        match fs.get_user(self.current_user) {
            Some(user) => concat_str("/home/", user.name.as_str()),
            None => {
                proof {
                    assert(false);
                }
                vstd::pervasive::unreached()
            },
        }
    }

    /// Resolves the token and creates a file there.
    pub fn create_file(&mut self, fs: &mut FileSystem, path: &str) -> (r: Result<
        usize,
        ShellError,
    >)
        requires
            old(fs).wf(),
            old(self).user_in(*old(fs)),
            old(self).wf(),
        ensures
            *final(self) == *old(self),
            final(fs).wf(),
            FileSystem::create_outcome(
                *old(fs),
                *final(fs),
                old(self).resolved(*old(fs), path@),
                r,
                false,
            ),
    {
        let home = self.get_user_home_directory(fs);
        let resolved = resolve_path(path, home.as_str(), self.current_working_directory.as_str());
        proof {
            reveal_strlit("/home/");
            lemma_resolve_absolute(path@, home@, self.current_working_directory@);
        }
        fs.create_file(resolved.as_str())
    }

    /// Resolves the token and creates a directory there.
    pub fn create_directory(&mut self, fs: &mut FileSystem, path: &str) -> (r: Result<
        usize,
        ShellError,
    >)
        requires
            old(fs).wf(),
            old(self).user_in(*old(fs)),
            old(self).wf(),
        ensures
            *final(self) == *old(self),
            final(fs).wf(),
            FileSystem::create_outcome(
                *old(fs),
                *final(fs),
                old(self).resolved(*old(fs), path@),
                r,
                true,
            ),
    {
        let home = self.get_user_home_directory(fs);
        let resolved = resolve_path(path, home.as_str(), self.current_working_directory.as_str());
        proof {
            reveal_strlit("/home/");
            lemma_resolve_absolute(path@, home@, self.current_working_directory@);
        }
        fs.create_directory(resolved.as_str())
    }

    /// Resolves the token and detaches the entry there.
    pub fn remove_file(&mut self, fs: &mut FileSystem, path: &str) -> (r: Result<(), ShellError>)
        requires
            old(fs).wf(),
            old(self).user_in(*old(fs)),
            old(self).wf(),
        ensures
            *final(self) == *old(self),
            final(fs).wf(),
            FileSystem::remove_outcome(
                *old(fs),
                *final(fs),
                old(self).resolved(*old(fs), path@),
                r,
            ),
    {
        let home = self.get_user_home_directory(fs);
        let resolved = resolve_path(path, home.as_str(), self.current_working_directory.as_str());
        proof {
            reveal_strlit("/home/");
            lemma_resolve_absolute(path@, home@, self.current_working_directory@);
        }
        fs.remove_inode(resolved.as_str())
    }

    /// Resolves the token and looks the entry up.
    pub fn find_inode(&self, fs: &FileSystem, path: &str) -> (r: Option<usize>)
        requires
            fs.wf(),
            self.user_in(*fs),
        ensures
            match r {
                Some(c) => fs.find_abs(self.resolved(*fs, path@)) == Some(c as int) && c
                    < fs.nodes@.len(),
                None => fs.find_abs(self.resolved(*fs, path@)) is None,
            },
    {
        let home = self.get_user_home_directory(fs);
        let resolved = resolve_path(path, home.as_str(), self.current_working_directory.as_str());
        fs.find_absolute_inode(resolved.as_str())
    }

    /// Changes the working directory.  The token `-` swaps back to the
    /// previous directory; any other token is resolved and verified to
    /// exist.  On failure nothing changes.
    pub fn change_directory(&mut self, fs: &FileSystem, path: &str) -> (r: Result<(), ShellError>)
        requires
            fs.wf(),
            old(self).wf(),
            path@ == seq!['-'] || old(self).user_in(*fs),
        ensures
            final(self).wf(),
            match r {
                Ok(_) => {
                    &&& if path@ == seq!['-'] {
                        cd_previous_ok(*old(self), *final(self), *fs)
                    } else {
                        &&& fs.find_abs(old(self).resolved(*fs, path@)) is Some
                        &&& final(self).current_working_directory@ == old(self).resolved(
                            *fs,
                            path@,
                        )
                        &&& final(self).previous_working_directory == Some(
                            old(self).current_working_directory,
                        )
                        &&& final(self).current_user == old(self).current_user
                        &&& final(self).executed_commands == old(self).executed_commands
                    }
                },
                Err(e) => {
                    &&& *final(self) == *old(self)
                    &&& if path@ == seq!['-'] {
                        match old(self).previous_working_directory {
                            None => e matches ShellError::Session(
                                SessionError::NoPreviousWorkingDirectory,
                            ),
                            Some(prev) => fs.find_abs(prev@) is None && e matches ShellError::Session(
                                SessionError::PreviousWorkingDirectoryDoesNotExist,
                            ),
                        }
                    } else {
                        &&& fs.find_abs(old(self).resolved(*fs, path@)) is None
                        &&& e matches ShellError::FileSystem(FileSystemError::DirectoryNotFound(
                            s,
                        )) && s@ == old(self).resolved(*fs, path@)
                    }
                },
            },
    {
        if str_eq(path, "-") {
            proof {
                reveal_strlit("-");
                assert("-"@ =~= seq!['-']);
            }
            let previous_path = match &self.previous_working_directory {
                Some(p) => p.clone(),
                None => {
                    return Err(ShellError::Session(SessionError::NoPreviousWorkingDirectory));
                },
            };
            if fs.find_absolute_inode(previous_path.as_str()).is_some() {
                let prior = self.current_working_directory.clone();
                self.current_working_directory = previous_path;
                self.previous_working_directory = Some(prior);
                Ok(())
            } else {
                Err(ShellError::Session(SessionError::PreviousWorkingDirectoryDoesNotExist))
            }
        } else {
            proof {
                reveal_strlit("-");
                assert("-"@ =~= seq!['-']);
                assert(path@ != seq!['-']);
            }
            let home = self.get_user_home_directory(fs);
            let resolved = resolve_path(
                path,
                home.as_str(),
                self.current_working_directory.as_str(),
            );
            proof {
                reveal_strlit("/home/");
                lemma_resolve_absolute(path@, home@, self.current_working_directory@);
            }
            if fs.find_absolute_inode(resolved.as_str()).is_some() {
                let prior = self.current_working_directory.clone();
                self.current_working_directory = resolved;
                self.previous_working_directory = Some(prior);
                Ok(())
            } else {
                Err(ShellError::FileSystem(FileSystemError::DirectoryNotFound(resolved)))
            }
        }
    }

    /// Switches the acting user; the id must be registered.
    pub fn change_user(&mut self, fs: &FileSystem, user_id: UserId) -> (r: Result<(), ShellError>)
        ensures
            match r {
                Ok(_) => {
                    &&& (user_id as int) < fs.users.users@.len()
                    &&& final(self).current_user == user_id
                    &&& final(self).current_working_directory == old(
                        self,
                    ).current_working_directory
                    &&& final(self).previous_working_directory == old(
                        self,
                    ).previous_working_directory
                    &&& final(self).executed_commands == old(self).executed_commands
                },
                Err(e) => {
                    &&& (user_id as int) >= fs.users.users@.len()
                    &&& *final(self) == *old(self)
                    &&& e matches ShellError::Session(SessionError::UserNotFound)
                },
            },
    {
        if fs.get_user(user_id).is_none() {
            return Err(ShellError::Session(SessionError::UserNotFound));
        }
        self.current_user = user_id;
        Ok(())
    }

    /// Appends one executed command name to the history.
    pub fn add_to_history(&mut self, command: &str)
        ensures
            final(self).executed_commands@.len() == old(self).executed_commands@.len() + 1,
            final(self).executed_commands@.drop_last() == old(self).executed_commands@,
            final(self).executed_commands@.last()@ == command@,
            final(self).current_working_directory == old(self).current_working_directory,
            final(self).previous_working_directory == old(self).previous_working_directory,
            final(self).current_user == old(self).current_user,
    {
        self.executed_commands.push(command.to_owned());
        proof {
            assert(self.executed_commands@.drop_last() =~= old(self).executed_commands@);
        }
    }

    /// Every command name appended so far, oldest first.
    pub fn get_history(&self) -> (r: Vec<String>)
        ensures
            r@ == self.executed_commands@,
    {
        let mut r: Vec<String> = Vec::new();
        let mut i: usize = 0;
        while i < self.executed_commands.len()
            invariant
                i <= self.executed_commands@.len(),
                r@ == self.executed_commands@.take(i as int),
            decreases self.executed_commands@.len() - i,
        {
            r.push(self.executed_commands[i].clone());
            proof {
                assert(r@ =~= self.executed_commands@.take(i + 1));
            }
            i = i + 1;
        }
        proof {
            assert(self.executed_commands@.take(self.executed_commands@.len() as int)
                =~= self.executed_commands@);
        }
        r
    }

    pub fn get_current_working_directory(&self) -> (r: String)
        ensures
            r == self.current_working_directory,
    {
        self.current_working_directory.clone()
    }

    pub fn get_previous_working_directory(&self) -> (r: Option<String>)
        ensures
            match r {
                Some(p) => self.previous_working_directory == Some(p),
                None => self.previous_working_directory is None,
            },
    {
        match &self.previous_working_directory {
            Some(p) => Some(p.clone()),
            None => None,
        }
    }
}

/// Two successful `cd -` calls in a row return to the directory the
/// session started from.
pub proof fn lemma_cd_previous_involution(s0: Session, s1: Session, s2: Session, fs: FileSystem)
    requires
        cd_previous_ok(s0, s1, fs),
        cd_previous_ok(s1, s2, fs),
    ensures
        s2.current_working_directory == s0.current_working_directory,
{
}

} // verus!

//! The run's settings, and their validation against what the caller found
//! on disk.
use vstd::prelude::*;
use crate::error::CpdError;
use crate::text::{chars_of, push_str, string_of};

verus! {

/// The settings of a run, as the command line gave them.
#[derive(Debug, Clone)]
pub struct Cli {
    /// The project to deploy; the current directory where absent.
    pub project_dir: Option<String>,
    /// The board's mount point, where given by hand.
    pub board_path: Option<String>,
    /// Where to back the board up first, if anywhere.
    pub backup_dir: Option<String>,
    pub dry_run: bool,
    pub verbose: bool,
    pub force: bool,
    pub assume_yes: bool,
    pub list_boards: bool,
    pub incremental: bool,
}

/// What the caller found at a path.
#[derive(Debug, Clone, Copy, PartialEq, Eq, Structural)]
pub struct PathState {
    pub exists: bool,
    pub is_dir: bool,
}

pub open spec fn project_dir_of(project_dir: Option<String>, current: Seq<char>) -> Seq<char> {
    match project_dir {
        Some(p) => p@,
        None => current,
    }
}

fn joined(first: &str, second: &str) -> (r: String)
    ensures
        r@ == first@ + second@,
{
    let mut out = chars_of(first);
    push_str(&mut out, second);
    string_of(out.as_slice())
}

impl Cli {
    /// The project directory: the one given, else `current`.
    pub fn project_dir(&self, current: &str) -> (r: String)
        ensures
            r@ == project_dir_of(self.project_dir, current@),
    {
        match &self.project_dir {
            Some(p) => p.clone(),
            None => string_of(chars_of(current).as_slice()),
        }
    }

    /// Checks the settings against the state of the project directory, of
    /// the board path and of the backup directory (the last two only
    /// matter where given). `current` is the current directory.
    pub fn validate(
        &self,
        current: &str,
        project: PathState,
        board: PathState,
        backup: PathState,
    ) -> (r: Result<(), CpdError>)
        ensures
            !project.exists ==> (r matches Err(CpdError::Configuration { message }) && message@
                == "Project directory does not exist: "@ + project_dir_of(
                self.project_dir,
                current@,
            )),
            project.exists && !project.is_dir ==> (r matches Err(CpdError::Configuration { message })
                && message@ == "Project path is not a directory: "@ + project_dir_of(
                self.project_dir,
                current@,
            )),
            project.exists && project.is_dir && self.board_path is Some && !board.exists ==> (r matches Err(
                CpdError::InvalidBoardPath { path },
            ) && path@ == self.board_path->Some_0@),
            project.exists && project.is_dir && self.board_path is Some && board.exists
                && !board.is_dir ==> (r matches Err(CpdError::InvalidBoardPath { path }) && path@
                == self.board_path->Some_0@ + " is not a directory"@),
            project.exists && project.is_dir && (self.board_path is None || board.is_dir && board.exists)
                && self.backup_dir is Some && backup.exists && !backup.is_dir ==> (r matches Err(
                CpdError::Configuration { message },
            ) && message@ == "Backup path exists but is not a directory: "@
                + self.backup_dir->Some_0@),
            project.exists && project.is_dir && (self.board_path is None || board.is_dir && board.exists)
                && (self.backup_dir is None || !backup.exists || backup.is_dir) ==> r is Ok,
    {
        let dir = self.project_dir(current);
        if !project.exists {
            return Err(
                CpdError::Configuration {
                    message: joined("Project directory does not exist: ", dir.as_str()),
                },
            );
        }
        if !project.is_dir {
            return Err(
                CpdError::Configuration {
                    message: joined("Project path is not a directory: ", dir.as_str()),
                },
            );
        }
        if let Some(b) = &self.board_path {
            if !board.exists {
                return Err(CpdError::InvalidBoardPath { path: b.clone() });
            }
            if !board.is_dir {
                return Err(
                    CpdError::InvalidBoardPath {
                        path: joined(b.as_str(), " is not a directory"),
                    },
                );
            }
        }
        if let Some(d) = &self.backup_dir {
            if backup.exists && !backup.is_dir {
                return Err(
                    CpdError::Configuration {
                        message: joined(
                            "Backup path exists but is not a directory: ",
                            d.as_str(),
                        ),
                    },
                );
            }
        }
        Ok(())
    }
}

} // verus!

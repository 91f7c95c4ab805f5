//! What the command line asks for, once its arguments are read: a run on a
//! local directory, or a session with a remote host.

use vstd::prelude::*;
use crate::text::text_of;

verus! {

/// The arguments of the command line.
pub struct Cli {
    /// The directory to scan for subtitle files.
    pub dir: String,
    /// Show the renames without performing them.
    pub dry_run: bool,
    /// Work on a remote host over SSH.
    pub ssh: bool,
    /// The remote host.
    pub ssh_host: String,
    /// The port of the remote host.
    pub ssh_port: u16,
    /// The user to log in as.
    pub ssh_user: Option<String>,
    /// The password of the user.
    pub ssh_password: Option<String>,
    /// The path of a private key of the user.
    pub ssh_key: Option<String>,
    /// The directory to work on at the remote host.
    pub remote_dir: Option<String>,
}

/// A session with a remote host.
pub struct RemoteSession {
    pub host: String,
    pub port: u16,
    pub username: String,
    pub password: Option<String>,
    pub key: Option<String>,
    /// The directory to work on; without one the operator is asked.
    pub directory: Option<String>,
}

/// Where the renames are to happen.
pub enum Target {
    /// In a directory of this machine.
    Local { directory: String },
    /// At a remote host.
    Remote(RemoteSession),
}

/// Why the arguments cannot be served.
#[derive(Clone, Copy, Debug, PartialEq, Eq, Structural)]
pub enum CliError {
    /// A remote session was asked for and no user was named.
    MissingRemoteUser,
}

/// Whether `session` is the remote session that `cli` describes.
pub open spec fn describes(cli: Cli, session: RemoteSession) -> bool {
    &&& cli.ssh_user is Some
    &&& session.host@ == cli.ssh_host@
    &&& session.port == cli.ssh_port
    &&& session.username@ == cli.ssh_user.unwrap()@
    &&& text_of(session.password) == text_of(cli.ssh_password)
    &&& text_of(session.key) == text_of(cli.ssh_key)
    &&& text_of(session.directory) == text_of(cli.remote_dir)
}

/// A copy of an optional text.
fn copy_of(text: &Option<String>) -> (copy: Option<String>)
    ensures
        text_of(copy) == text_of(*text),
{
    match text {
        Some(text) => Some(text.clone()),
        None => None,
    }
}

impl Cli {
    /// Says where the renames are to happen. Without `ssh` it is the local
    /// directory `dir`. With `ssh` it is a remote session, which needs a
    /// user.
    pub fn target(&self) -> (target: Result<Target, CliError>)
        ensures
            match target {
                Ok(Target::Local { directory }) => !self.ssh && directory@ == self.dir@,
                Ok(Target::Remote(session)) => self.ssh && describes(*self, session),
                Err(error) => self.ssh && self.ssh_user is None && error
                    == CliError::MissingRemoteUser,
            },
    {
        if !self.ssh {
            return Ok(Target::Local { directory: self.dir.clone() });
        }
        match &self.ssh_user {
            Some(user) => Ok(
                Target::Remote(
                    RemoteSession {
                        host: self.ssh_host.clone(),
                        port: self.ssh_port,
                        username: user.clone(),
                        password: copy_of(&self.ssh_password),
                        key: copy_of(&self.ssh_key),
                        directory: copy_of(&self.remote_dir),
                    },
                ),
            ),
            None => Err(CliError::MissingRemoteUser),
        }
    }
}

} // verus!

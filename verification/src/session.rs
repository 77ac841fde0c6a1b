//! The course of one run as a state machine: which action comes next, given
//! how the last one ended. Whoever drives a run performs each action and
//! hands back what happened.

use vstd::prelude::*;
use crate::invocation::{
    ensure_remote_parent_args, remote_command, remote_is_file_args, SyncOptions, transfer_command,
    transfer_command_args,
};
use crate::path::{
    map_to_remote, parent, parent_of, parent_of_remote, parent_path, remote_of, resolve,
    resolve_spec,
};
use crate::text::{chars_of, push_str, string_of, texts};

verus! {

/// Where a run stands.
#[derive(Clone, Copy, Debug, PartialEq, Eq, Structural)]
pub enum Phase {
    /// The paths are known; the kind of the object is being found out.
    ResolvePaths,
    /// The directory that will hold the object is being created: the
    /// remote parent for a push, the local parent for a pull.
    EnsureRemoteDir,
    /// The preview is running.
    DryRun,
    /// The transfer is running.
    RealRun,
    /// Nothing is left to do.
    Done,
}

/// How the action that was asked for ended.
#[derive(Clone, Copy, Debug, PartialEq, Eq, Structural)]
pub enum Event {
    /// It ran. The flag is its answer: success of a command, or that the
    /// object asked about is a single file.
    Completed(bool),
    /// It could not be run at all.
    Broken,
}

/// Why a run was given up.
#[derive(Clone, Copy, Debug, PartialEq, Eq, Structural)]
pub enum SyncError {
    /// No host was named and the configuration declares none.
    NoHosts,
    /// The local path has no parent directory.
    NoLocalParent,
    /// The remote command that creates the parent directory failed.
    RemoteDirFailed,
    /// The remote command that creates the parent directory could not be run.
    RemoteDirNotRun,
    /// The local parent directory could not be created.
    LocalDirFailed,
    /// The preview exited with a failure.
    DryRunFailed,
    /// The preview could not be run.
    DryRunNotRun,
    /// The transfer exited with a failure.
    TransferFailed,
    /// The transfer could not be run.
    TransferNotRun,
}

/// One run: what is transferred between which places, and where the run stands.
pub struct Session {
    pub host: String,
    pub local_path: String,
    pub remote_path: String,
    pub options: SyncOptions,
    pub is_file: bool,
    pub phase: Phase,
}

/// The mathematical value of a `Session`.
pub struct SessionState {
    pub host: Seq<char>,
    pub local_path: Seq<char>,
    pub remote_path: Seq<char>,
    pub options: SyncOptions,
    pub is_file: bool,
    pub phase: Phase,
}

impl View for Session {
    type V = SessionState;

    open spec fn view(&self) -> SessionState {
        SessionState {
            host: self.host@,
            local_path: self.local_path@,
            remote_path: self.remote_path@,
            options: self.options,
            is_file: self.is_file,
            phase: self.phase,
        }
    }
}

/// What the driver of a run is asked to do next.
pub enum Action {
    /// Ask the file system whether the path is a single file.
    CheckLocalFile { path: String },
    /// Run `ssh` with these arguments; success says that the remote path is a single file.
    ProbeRemoteFile { args: Vec<String> },
    /// Run `ssh` with these arguments, to create the remote parent directory.
    MakeRemoteDir { args: Vec<String> },
    /// Create this local directory and those above it.
    MakeLocalDir { path: String },
    /// Run `rsync` with these arguments to completion and keep what it prints.
    RunDryRun { args: Vec<String> },
    /// Run `rsync` with these arguments and follow what it prints.
    RunTransfer { args: Vec<String> },
    /// The run is over.
    Finish,
    /// The run is given up.
    Abort { error: SyncError },
}

/// The mathematical value of an `Action`.
pub enum Step {
    CheckLocalFile { path: Seq<char> },
    ProbeRemoteFile { args: Seq<Seq<char>> },
    MakeRemoteDir { args: Seq<Seq<char>> },
    MakeLocalDir { path: Seq<char> },
    RunDryRun { args: Seq<Seq<char>> },
    RunTransfer { args: Seq<Seq<char>> },
    Finish,
    Abort { error: SyncError },
}

impl View for Action {
    type V = Step;

    open spec fn view(&self) -> Step {
        match self {
            Action::CheckLocalFile { path } => Step::CheckLocalFile { path: path@ },
            Action::ProbeRemoteFile { args } => Step::ProbeRemoteFile { args: texts(args@) },
            Action::MakeRemoteDir { args } => Step::MakeRemoteDir { args: texts(args@) },
            Action::MakeLocalDir { path } => Step::MakeLocalDir { path: path@ },
            Action::RunDryRun { args } => Step::RunDryRun { args: texts(args@) },
            Action::RunTransfer { args } => Step::RunTransfer { args: texts(args@) },
            Action::Finish => Step::Finish,
            Action::Abort { error } => Step::Abort { error: *error },
        }
    }
}

/// A run at its start.
pub open spec fn initial(
    host: Seq<char>,
    local_path: Seq<char>,
    remote_path: Seq<char>,
    options: SyncOptions,
) -> SessionState {
    SessionState {
        host,
        local_path,
        remote_path,
        options,
        is_file: false,
        phase: Phase::ResolvePaths,
    }
}

/// The first action of a run: the kind of the object is asked of the file
/// system for a push, of the remote host for a pull.
pub open spec fn first_step(s: SessionState) -> Step {
    if s.options.pull {
        Step::ProbeRemoteFile { args: remote_command(s.host, "test -f "@, s.remote_path) }
    } else {
        Step::CheckLocalFile { path: s.local_path }
    }
}

/// The transfer that a run has been heading for: a preview or the real one.
pub open spec fn transfer_step(s: SessionState) -> (Phase, Step) {
    let args = transfer_command(s.host, s.local_path, s.remote_path, s.is_file, s.options);
    if s.options.dry_run {
        (Phase::DryRun, Step::RunDryRun { args })
    } else {
        (Phase::RealRun, Step::RunTransfer { args })
    }
}

/// The state after `event` and the action to take then.
///
/// After the kind of the object is known (anything but a clear yes counts
/// as a directory), the directory that will hold it is created: the remote
/// parent for a push, the local parent for a pull, which is given up where
/// the local path has none. If that fails the run is given up before any
/// transfer; else the transfer follows. A transfer that fails or cannot be
/// run gives the run up, one that succeeds ends it.
pub open spec fn next(s: SessionState, event: Event) -> (SessionState, Step) {
    match s.phase {
        Phase::ResolvePaths => {
            let known = SessionState { is_file: event == Event::Completed(true), ..s };
            if s.options.pull {
                match parent(s.local_path) {
                    Some(p) => (
                        SessionState { phase: Phase::EnsureRemoteDir, ..known },
                        Step::MakeLocalDir { path: p },
                    ),
                    None => (
                        SessionState { phase: Phase::Done, ..known },
                        Step::Abort { error: SyncError::NoLocalParent },
                    ),
                }
            } else {
                (
                    SessionState { phase: Phase::EnsureRemoteDir, ..known },
                    Step::MakeRemoteDir {
                        args: remote_command(s.host, "mkdir -p "@, parent_of(s.remote_path)),
                    },
                )
            }
        },
        Phase::EnsureRemoteDir => {
            if event == Event::Completed(true) {
                (SessionState { phase: transfer_step(s).0, ..s }, transfer_step(s).1)
            } else {
                (
                    SessionState { phase: Phase::Done, ..s },
                    Step::Abort {
                        error: if s.options.pull {
                            SyncError::LocalDirFailed
                        } else if event == Event::Broken {
                            SyncError::RemoteDirNotRun
                        } else {
                            SyncError::RemoteDirFailed
                        },
                    },
                )
            }
        },
        Phase::DryRun => (
            SessionState { phase: Phase::Done, ..s },
            if event == Event::Completed(true) {
                Step::Finish
            } else if event == Event::Broken {
                Step::Abort { error: SyncError::DryRunNotRun }
            } else {
                Step::Abort { error: SyncError::DryRunFailed }
            },
        ),
        Phase::RealRun => (
            SessionState { phase: Phase::Done, ..s },
            if event == Event::Completed(true) {
                Step::Finish
            } else if event == Event::Broken {
                Step::Abort { error: SyncError::TransferNotRun }
            } else {
                Step::Abort { error: SyncError::TransferFailed }
            },
        ),
        Phase::Done => (s, Step::Finish),
    }
}

/// What the user is told when a run between `local_path` and
/// `remote_path` is given up. The paths matter only to the errors that name
/// a directory.
pub open spec fn error_text(error: SyncError, local_path: Seq<char>, remote_path: Seq<char>) -> Seq<
    char,
> {
    match error {
        SyncError::NoHosts => "no hosts found in ~/.ssh/config and no host provided"@,
        SyncError::NoLocalParent => "unable to resolve local parent"@,
        SyncError::RemoteDirFailed => "failed to create remote directory "@ + parent_of(
            remote_path,
        ),
        SyncError::RemoteDirNotRun => "failed to run ssh mkdir -p"@,
        SyncError::LocalDirFailed => "failed to create "@ + parent_of(local_path),
        SyncError::DryRunFailed => "rsync dry run failed"@,
        SyncError::DryRunNotRun => "failed to run rsync --dry-run"@,
        SyncError::TransferFailed => "rsync failed"@,
        SyncError::TransferNotRun => "failed to spawn rsync"@,
    }
}

/// What the user is told when a run between `local_path` and
/// `remote_path` is given up for `error`.
pub fn describe(error: SyncError, local_path: &str, remote_path: &str) -> (out: String)
    ensures
        out@ == error_text(error, local_path@, remote_path@),
{
    match error {
        SyncError::NoHosts => "no hosts found in ~/.ssh/config and no host provided".to_owned(),
        SyncError::NoLocalParent => "unable to resolve local parent".to_owned(),
        SyncError::RemoteDirFailed => {
            let mut out = chars_of("failed to create remote directory ");
            push_str(&mut out, parent_of_remote(remote_path).as_str());
            string_of(&out)
        },
        SyncError::RemoteDirNotRun => "failed to run ssh mkdir -p".to_owned(),
        SyncError::LocalDirFailed => {
            let mut out = chars_of("failed to create ");
            push_str(&mut out, parent_of_remote(local_path).as_str());
            string_of(&out)
        },
        SyncError::DryRunFailed => "rsync dry run failed".to_owned(),
        SyncError::DryRunNotRun => "failed to run rsync --dry-run".to_owned(),
        SyncError::TransferFailed => "rsync failed".to_owned(),
        SyncError::TransferNotRun => "failed to spawn rsync".to_owned(),
    }
}

/// A directory that cannot be made ends the run: the run is given up, and
/// no transfer follows.
pub proof fn lemma_directory_failure_is_fatal(s: SessionState, event: Event)
    requires
        s.phase == Phase::EnsureRemoteDir,
        event != Event::Completed(true),
    ensures
        next(s, event).1 is Abort,
        next(s, event).0.phase == Phase::Done,
{
}

/// Unless it is clearly a single file, the object counts as a directory:
/// a remote probe that fails or cannot be run never gives the run up.
pub proof fn lemma_unclear_kind_is_directory(s: SessionState, event: Event)
    requires
        s.phase == Phase::ResolvePaths,
        event != Event::Completed(true),
    ensures
        !next(s, event).0.is_file,
        !(next(s, event).1 is Abort) || parent(s.local_path) is None,
{
}

/// A run that is over stays over, and no event changes what it transfers
/// between which places.
pub proof fn lemma_run_is_stable(s: SessionState, event: Event)
    ensures
        s.phase == Phase::Done ==> next(s, event) == (s, Step::Finish),
        next(s, event).0.host == s.host,
        next(s, event).0.local_path == s.local_path,
        next(s, event).0.remote_path == s.remote_path,
        next(s, event).0.options == s.options,
{
}

/// Whether a host can be picked: the configuration must declare at least one.
pub fn check_hosts(hosts: &Vec<String>) -> (r: Result<(), SyncError>)
    ensures
        r is Ok <==> hosts.len() > 0,
        r is Err ==> r == Err::<(), SyncError>(SyncError::NoHosts),
{
    if hosts.len() == 0 {
        Err(SyncError::NoHosts)
    } else {
        Ok(())
    }
}

/// The host at the place that the picker answered with, if there is one.
pub fn host_at(hosts: &Vec<String>, selection: usize) -> (r: Option<String>)
    ensures
        r is Some <==> selection < hosts.len(),
        r is Some ==> r->0@ == hosts@[selection as int]@,
{
    if selection < hosts.len() {
        Some(hosts[selection].clone())
    } else {
        None
    }
}

impl Session {
    /// A run between `local_path` and `remote_path` on `host`, at its start.
    pub fn new(host: &str, local_path: &str, remote_path: &str, options: SyncOptions) -> (s:
        Session)
        ensures
            s@ == initial(host@, local_path@, remote_path@, options),
    {
        Session {
            host: host.to_owned(),
            local_path: local_path.to_owned(),
            remote_path: remote_path.to_owned(),
            options,
            is_file: false,
            phase: Phase::ResolvePaths,
        }
    }

    /// A run for the path that the user wrote: the path is resolved against
    /// the working directory `cwd` and the home directory `home`, and the
    /// remote path is derived from it.
    pub fn open(host: &str, raw_path: &str, cwd: &str, home: &str, options: SyncOptions) -> (s:
        Session)
        ensures
            s@ == initial(
                host@,
                resolve_spec(raw_path@, cwd@, home@),
                remote_of(resolve_spec(raw_path@, cwd@, home@), home@),
                options,
            ),
    {
        let local = resolve(raw_path, cwd, home);
        let remote = map_to_remote(local.as_str(), home);
        Session::new(host, local.as_str(), remote.as_str(), options)
    }

    /// The first action of the run.
    pub fn first_action(&self) -> (action: Action)
        ensures
            action@ == first_step(self@),
    {
        if self.options.pull {
            Action::ProbeRemoteFile {
                args: remote_is_file_args(self.host.as_str(), self.remote_path.as_str()),
            }
        } else {
            Action::CheckLocalFile { path: self.local_path.clone() }
        }
    }

    fn transfer_action(&mut self) -> (action: Action)
        ensures
            final(self)@ == (SessionState { phase: transfer_step(old(self)@).0, ..old(self)@ }),
            action@ == transfer_step(old(self)@).1,
    {
        let args = transfer_command_args(
            self.host.as_str(),
            self.local_path.as_str(),
            self.remote_path.as_str(),
            self.is_file,
            &self.options,
        );
        if self.options.dry_run {
            self.phase = Phase::DryRun;
            Action::RunDryRun { args }
        } else {
            self.phase = Phase::RealRun;
            Action::RunTransfer { args }
        }
    }

    /// Takes in how the last action ended, moves the run on, and says what to do next.
    pub fn advance(&mut self, event: Event) -> (action: Action)
        ensures
            (final(self)@, action@) == next(old(self)@, event),
    {
        let succeeded = event == Event::Completed(true);
        match self.phase {
            Phase::ResolvePaths => {
                self.is_file = succeeded;
                if self.options.pull {
                    match parent_path(self.local_path.as_str()) {
                        Some(p) => {
                            self.phase = Phase::EnsureRemoteDir;
                            Action::MakeLocalDir { path: p }
                        },
                        None => {
                            self.phase = Phase::Done;
                            Action::Abort { error: SyncError::NoLocalParent }
                        },
                    }
                } else {
                    self.phase = Phase::EnsureRemoteDir;
                    let remote_parent = parent_of_remote(self.remote_path.as_str());
                    Action::MakeRemoteDir {
                        args: ensure_remote_parent_args(
                            self.host.as_str(),
                            remote_parent.as_str(),
                        ),
                    }
                }
            },
            Phase::EnsureRemoteDir => {
                if succeeded {
                    self.transfer_action()
                } else {
                    self.phase = Phase::Done;
                    Action::Abort {
                        error: if self.options.pull {
                            SyncError::LocalDirFailed
                        } else if event == Event::Broken {
                            SyncError::RemoteDirNotRun
                        } else {
                            SyncError::RemoteDirFailed
                        },
                    }
                }
            },
            Phase::DryRun => {
                self.phase = Phase::Done;
                if succeeded {
                    Action::Finish
                } else if event == Event::Broken {
                    Action::Abort { error: SyncError::DryRunNotRun }
                } else {
                    Action::Abort { error: SyncError::DryRunFailed }
                }
            },
            Phase::RealRun => {
                self.phase = Phase::Done;
                if succeeded {
                    Action::Finish
                } else if event == Event::Broken {
                    Action::Abort { error: SyncError::TransferNotRun }
                } else {
                    Action::Abort { error: SyncError::TransferFailed }
                }
            },
            Phase::Done => Action::Finish,
        }
    }

    /// What the user is told when the run is given up for `error`.
    pub fn error_message(&self, error: SyncError) -> (out: String)
        ensures
            out@ == error_text(error, self@.local_path, self@.remote_path),
    {
        describe(error, self.local_path.as_str(), self.remote_path.as_str())
    }
}

} // verus!

use sync_rs::hosts::parse_ssh_hosts;
use sync_rs::invocation::{
    ensure_remote_parent_args, remote_is_file_args, transfer_command_args, SyncOptions,
};
use sync_rs::path::parent_path;
use sync_rs::preview::dry_run_summary;
use sync_rs::session::{
    check_hosts, describe, host_at, Action, Event, Phase, Session, SyncError,
};

fn options(pull: bool, dry_run: bool) -> SyncOptions {
    SyncOptions { pull, dry_run, no_perms: false }
}

fn push_session(dry_run: bool) -> Session {
    Session::new("example", "/home/user/projects/app", "~/projects/app", options(false, dry_run))
}

fn pull_session(dry_run: bool) -> Session {
    Session::new("example", "/home/user/projects/app", "~/projects/app", options(true, dry_run))
}

fn args_of(action: Action) -> Vec<String> {
    match action {
        Action::ProbeRemoteFile { args }
        | Action::MakeRemoteDir { args }
        | Action::RunDryRun { args }
        | Action::RunTransfer { args } => args,
        _ => panic!("the action carries no arguments"),
    }
}

fn aborted_with(action: Action) -> SyncError {
    match action {
        Action::Abort { error } => error,
        _ => panic!("the run was not given up"),
    }
}

#[test]
fn session_open_resolves_and_maps() {
    let s = Session::open("h", "~/a/../b", "/tmp", "/home/user", options(false, false));
    assert_eq!(s.local_path, "/home/user/b");
    assert_eq!(s.remote_path, "~/b");
    assert_eq!(s.host, "h");
    assert_eq!(s.phase, Phase::ResolvePaths);
    assert!(!s.is_file);
    let s = Session::open("h", "data", "/srv", "/home/user", options(true, true));
    assert_eq!(s.local_path, "/srv/data");
    assert_eq!(s.remote_path, "/srv/data");
}

#[test]
fn push_asks_the_file_system_first() {
    let s = push_session(false);
    match s.first_action() {
        Action::CheckLocalFile { path } => assert_eq!(path, "/home/user/projects/app"),
        _ => panic!("a push starts with the local file check"),
    }
}

#[test]
fn pull_probes_the_remote_first() {
    let s = pull_session(false);
    assert_eq!(
        args_of(s.first_action()),
        remote_is_file_args("example", "~/projects/app")
    );
}

#[test]
fn push_creates_the_remote_parent_then_transfers() {
    let mut s = push_session(false);
    let made = args_of(s.advance(Event::Completed(false)));
    assert_eq!(made, ensure_remote_parent_args("example", "~/projects"));
    assert_eq!(s.phase, Phase::EnsureRemoteDir);
    assert!(!s.is_file);
    let run = s.advance(Event::Completed(true));
    assert_eq!(s.phase, Phase::RealRun);
    match run {
        Action::RunTransfer { args } => assert_eq!(
            args,
            transfer_command_args(
                "example",
                "/home/user/projects/app",
                "~/projects/app",
                false,
                &options(false, false)
            )
        ),
        _ => panic!("the transfer follows the directory"),
    }
    assert!(matches!(s.advance(Event::Completed(true)), Action::Finish));
    assert_eq!(s.phase, Phase::Done);
    assert!(matches!(s.advance(Event::Completed(false)), Action::Finish));
}

#[test]
fn push_of_a_file_has_no_trailing_slash() {
    let mut s = push_session(true);
    s.advance(Event::Completed(true));
    assert!(s.is_file);
    let args = args_of(s.advance(Event::Completed(true)));
    assert_eq!(s.phase, Phase::DryRun);
    let n = args.len();
    assert_eq!(args[n - 2], "/home/user/projects/app");
    assert_eq!(args[n - 1], "example:~/projects/app");
}

#[test]
fn remote_directory_failure_is_fatal() {
    let mut s = push_session(false);
    s.advance(Event::Completed(false));
    let error = aborted_with(s.advance(Event::Completed(false)));
    assert_eq!(error, SyncError::RemoteDirFailed);
    assert_eq!(s.phase, Phase::Done);
    assert_eq!(s.error_message(error), "failed to create remote directory ~/projects");

    let mut s = push_session(false);
    s.advance(Event::Completed(false));
    let error = aborted_with(s.advance(Event::Broken));
    assert_eq!(error, SyncError::RemoteDirNotRun);
    assert_eq!(s.error_message(error), "failed to run ssh mkdir -p");
}

#[test]
fn pull_probe_failure_means_directory() {
    let mut s = pull_session(true);
    match s.advance(Event::Broken) {
        Action::MakeLocalDir { path } => assert_eq!(path, "/home/user/projects"),
        _ => panic!("a pull creates the local parent"),
    }
    assert!(!s.is_file);
    let args = args_of(s.advance(Event::Completed(true)));
    let n = args.len();
    assert_eq!(args[n - 2], "example:~/projects/app/");
    assert_eq!(args[n - 1], "/home/user/projects/app/");
    assert!(args.contains(&"--dry-run".to_string()));
}

#[test]
fn pull_without_local_parent_is_given_up() {
    let mut s = Session::new("h", "/", "/", options(true, false));
    let error = aborted_with(s.advance(Event::Completed(false)));
    assert_eq!(error, SyncError::NoLocalParent);
    assert_eq!(s.phase, Phase::Done);
    assert_eq!(s.error_message(error), "unable to resolve local parent");
}

#[test]
fn pull_local_directory_failure_is_fatal() {
    let mut s = pull_session(false);
    s.advance(Event::Completed(true));
    let error = aborted_with(s.advance(Event::Completed(false)));
    assert_eq!(error, SyncError::LocalDirFailed);
    assert_eq!(s.error_message(error), "failed to create /home/user/projects");
}

#[test]
fn transfer_failures_give_the_run_up() {
    let mut s = push_session(true);
    s.advance(Event::Completed(false));
    s.advance(Event::Completed(true));
    let error = aborted_with(s.advance(Event::Completed(false)));
    assert_eq!(error, SyncError::DryRunFailed);
    assert_eq!(s.error_message(error), "rsync dry run failed");

    let mut s = push_session(true);
    s.advance(Event::Completed(false));
    s.advance(Event::Completed(true));
    let error = aborted_with(s.advance(Event::Broken));
    assert_eq!(error, SyncError::DryRunNotRun);
    assert_eq!(s.error_message(error), "failed to run rsync --dry-run");

    let mut s = push_session(false);
    s.advance(Event::Completed(false));
    s.advance(Event::Completed(true));
    let error = aborted_with(s.advance(Event::Completed(false)));
    assert_eq!(error, SyncError::TransferFailed);
    assert_eq!(s.error_message(error), "rsync failed");

    let mut s = push_session(false);
    s.advance(Event::Completed(false));
    s.advance(Event::Completed(true));
    let error = aborted_with(s.advance(Event::Broken));
    assert_eq!(error, SyncError::TransferNotRun);
    assert_eq!(s.error_message(error), "failed to spawn rsync");
}

#[test]
fn hosts_are_required_for_picking() {
    assert_eq!(check_hosts(&Vec::new()), Err(SyncError::NoHosts));
    let hosts = vec!["alpha".to_string(), "beta".to_string()];
    assert_eq!(check_hosts(&hosts), Ok(()));
    assert_eq!(host_at(&hosts, 1), Some("beta".to_string()));
    assert_eq!(host_at(&hosts, 2), None);
    assert_eq!(
        describe(SyncError::NoHosts, "", ""),
        "no hosts found in ~/.ssh/config and no host provided"
    );
    assert_eq!(
        describe(SyncError::RemoteDirFailed, "/x/y", "~/y"),
        "failed to create remote directory ~"
    );
    assert_eq!(describe(SyncError::LocalDirFailed, "/x/y", "~/y"), "failed to create /x");
}

#[test]
fn parent_path_examples() {
    assert_eq!(parent_path("/home/user/x"), Some("/home/user".to_string()));
    assert_eq!(parent_path("/x"), Some("/".to_string()));
    assert_eq!(parent_path("x"), Some(String::new()));
    assert_eq!(parent_path("a/b/"), Some("a".to_string()));
    assert_eq!(parent_path("/"), None);
    assert_eq!(parent_path(""), None);
}

#[test]
fn ssh_hosts_are_sorted_and_unique() {
    let config = "\
# a comment
Host zeta alpha
  HostName zeta.example.org
host beta *.example.org web?
HOST alpha gamma
   Host   delta\t epsilon  
Hostname not-a-host
#Host hidden
Match host other

Host *
";
    assert_eq!(
        parse_ssh_hosts(config),
        vec!["alpha", "beta", "delta", "epsilon", "gamma", "zeta"]
    );
}

#[test]
fn ssh_hosts_of_an_empty_configuration() {
    assert_eq!(parse_ssh_hosts(""), Vec::<String>::new());
    assert_eq!(parse_ssh_hosts("Host\n"), Vec::<String>::new());
    assert_eq!(parse_ssh_hosts("Host *\nHost a?b\n"), Vec::<String>::new());
    assert_eq!(parse_ssh_hosts("Host B a\r\nHost A\r\n"), vec!["A", "B", "a"]);
}

#[test]
fn dry_run_summary_reads_tree_and_size_line() {
    let stdout = "f+++++++++|foo.txt|12\nd+++++++++|dir/|0\nf+++++++++|dir/bar.txt|24\n";
    let stderr = "Total transferred file size: 36 bytes\n";
    let summary = dry_run_summary(stdout, stderr);
    assert!(summary.tree.contains("+-- foo.txt"));
    assert!(summary.tree.lines().any(|line| line.ends_with(" dir")));
    assert!(summary.tree.contains("+-- bar.txt"));
    assert_eq!(
        summary.transferred_line.as_deref(),
        Some("Total transferred file size: 36 bytes")
    );
}

#[test]
fn dry_run_summary_takes_the_first_size_line() {
    let stderr = "Number of files: 3\n Total transferred file size: 1\nTotal transferred file size: 2 bytes  \nTotal transferred file size: 3\n";
    let summary = dry_run_summary("", stderr);
    assert_eq!(summary.tree, "");
    assert_eq!(
        summary.transferred_line.as_deref(),
        Some("Total transferred file size: 2 bytes")
    );
    assert_eq!(dry_run_summary("", "nothing here\n").transferred_line, None);
}

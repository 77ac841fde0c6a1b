//! The argument lists of the commands that a run issues: the transfer
//! itself, and the two small remote commands before it.

use vstd::prelude::*;
use crate::shell::{connection_options, remote_shell_path, remote_word, ssh_args};
use crate::split::{join, join_rows};
use crate::text::{chars_of, push_all, push_str, push_text, string_of, texts, to_rows};

verus! {

/// What the user chose for one run.
#[derive(Clone, Copy, Debug)]
pub struct SyncOptions {
    /// Transfer from the remote host to the local path, not the other way.
    pub pull: bool,
    /// Only show what a transfer would change.
    pub dry_run: bool,
    /// Leave permissions as they are on the receiving side.
    pub no_perms: bool,
}

/// The remote-shell clause of a transfer: `ssh` with the connection options.
pub open spec fn remote_shell_clause() -> Seq<char> {
    "ssh "@ + join(connection_options(), " "@)
}

/// What a real transfer adds before the remote-shell clause: resuming of
/// partial transfers, writing in place, and overall progress reporting.
pub open spec fn real_run_flags(dry_run: bool) -> Seq<Seq<char>> {
    if dry_run {
        Seq::empty()
    } else {
        seq!["-P"@, "--partial"@, "--inplace"@, "--info=progress2"@]
    }
}

/// What a real transfer prints per item: the transferred path alone.
pub open spec fn real_run_format(dry_run: bool) -> Seq<Seq<char>> {
    if dry_run {
        Seq::empty()
    } else {
        seq!["--out-format=%n"@]
    }
}

/// The paths that no transfer touches.
pub open spec fn exclusions() -> Seq<Seq<char>> {
    seq![
        "--exclude=.git/"@,
        "--exclude=node_modules/"@,
        "--exclude=target/"@,
        "--exclude=.DS_Store"@,
    ]
}

/// The flag that leaves permissions alone, where the user asked for it.
pub open spec fn perms_flag(no_perms: bool) -> Seq<Seq<char>> {
    if no_perms {
        seq!["--no-perms"@]
    } else {
        Seq::empty()
    }
}

/// The arguments that every transfer starts from: archive mode with
/// compression, the flags of a real run, the remote-shell clause, statistics,
/// the output format of a real run, the exclusions and the permissions flag.
pub open spec fn base_args(no_perms: bool, dry_run: bool) -> Seq<Seq<char>> {
    seq!["-avz"@] + real_run_flags(dry_run) + seq!["-e"@, remote_shell_clause(), "--stats"@]
        + real_run_format(dry_run) + exclusions() + perms_flag(no_perms)
}

/// What a dry run adds: the dry-run flag, itemized changes, and an output
/// format of change code, path and size, divided by `|`.
pub open spec fn dry_run_flags(dry_run: bool) -> Seq<Seq<char>> {
    if dry_run {
        seq!["--dry-run"@, "--itemize-changes"@, "--out-format=%i|%n|%l"@]
    } else {
        Seq::empty()
    }
}

/// All arguments of a transfer but its source and destination.
pub open spec fn transfer_options(no_perms: bool, dry_run: bool) -> Seq<Seq<char>> {
    base_args(no_perms, dry_run) + dry_run_flags(dry_run)
}

/// Source and destination of a transfer. A directory gets a `/` at the end
/// of both sides, a single file none; the remote side is `host:path`; a pull
/// goes from the remote side to the local one, a push the other way.
pub open spec fn endpoints(
    host: Seq<char>,
    local: Seq<char>,
    remote: Seq<char>,
    is_file: bool,
    pulling: bool,
) -> (Seq<char>, Seq<char>) {
    let tail = if is_file {
        Seq::<char>::empty()
    } else {
        seq!['/']
    };
    let local_side = local + tail;
    let remote_side = host + seq![':'] + remote + tail;
    if pulling {
        (remote_side, local_side)
    } else {
        (local_side, remote_side)
    }
}

/// The arguments of a run of `ssh` on `host` with `command` and the quoted `path`.
pub open spec fn remote_command(host: Seq<char>, command: Seq<char>, path: Seq<char>) -> Seq<
    Seq<char>,
> {
    connection_options() + seq![host, command + remote_word(path)]
}

/// The whole argument list of a transfer.
pub open spec fn transfer_command(
    host: Seq<char>,
    local: Seq<char>,
    remote: Seq<char>,
    is_file: bool,
    options: SyncOptions,
) -> Seq<Seq<char>> {
    let ends = endpoints(host, local, remote, is_file, options.pull);
    transfer_options(options.no_perms, options.dry_run) + seq![ends.0, ends.1]
}

fn remote_shell_text() -> (out: String)
    ensures
        out@ == remote_shell_clause(),
{
    let mut out = chars_of("ssh ");
    let opts = to_rows(&ssh_args());
    let joined = join_rows(&opts, &chars_of(" "));
    push_all(&mut out, &joined);
    string_of(&out)
}

/// The arguments that every transfer starts from.
pub fn base_rsync_args(args: &SyncOptions, dry_run: bool) -> (list: Vec<String>)
    ensures
        texts(list@) == base_args(args.no_perms, dry_run),
{
    let mut list: Vec<String> = Vec::new();
    proof {
        assert(texts(list@) =~= Seq::<Seq<char>>::empty());
    }
    push_text(&mut list, "-avz");
    if !dry_run {
        push_text(&mut list, "-P");
        push_text(&mut list, "--partial");
        push_text(&mut list, "--inplace");
        push_text(&mut list, "--info=progress2");
    }
    proof {
        assert(texts(list@) =~= seq!["-avz"@] + real_run_flags(dry_run));
    }
    push_text(&mut list, "-e");
    let clause = remote_shell_text();
    push_text(&mut list, clause.as_str());
    push_text(&mut list, "--stats");
    let ghost upto_stats = texts(list@);
    proof {
        assert(upto_stats =~= seq!["-avz"@] + real_run_flags(dry_run) + seq![
            "-e"@,
            remote_shell_clause(),
            "--stats"@,
        ]);
    }
    if !dry_run {
        push_text(&mut list, "--out-format=%n");
    }
    let ghost upto_format = texts(list@);
    proof {
        assert(upto_format =~= upto_stats + real_run_format(dry_run));
    }
    push_text(&mut list, "--exclude=.git/");
    push_text(&mut list, "--exclude=node_modules/");
    push_text(&mut list, "--exclude=target/");
    push_text(&mut list, "--exclude=.DS_Store");
    let ghost upto_excl = texts(list@);
    proof {
        assert(upto_excl =~= upto_format + exclusions());
    }
    if args.no_perms {
        push_text(&mut list, "--no-perms");
    }
    proof {
        assert(texts(list@) =~= upto_excl + perms_flag(args.no_perms));
    }
    list
}

/// All arguments of a transfer but its source and destination: those of
/// `base_rsync_args`, and for a dry run the flags that make it one.
pub fn transfer_args(args: &SyncOptions, dry_run: bool) -> (list: Vec<String>)
    ensures
        texts(list@) == transfer_options(args.no_perms, dry_run),
{
    let mut list = base_rsync_args(args, dry_run);
    if dry_run {
        push_text(&mut list, "--dry-run");
        push_text(&mut list, "--itemize-changes");
        push_text(&mut list, "--out-format=%i|%n|%l");
    }
    proof {
        assert(texts(list@) =~= base_args(args.no_perms, dry_run) + dry_run_flags(dry_run));
    }
    list
}

/// Source and destination of a transfer, in that order.
pub fn sync_endpoints(
    host: &str,
    local_path: &str,
    remote_path: &str,
    is_file: bool,
    pulling: bool,
) -> (ends: (String, String))
    ensures
        (ends.0@, ends.1@) == endpoints(host@, local_path@, remote_path@, is_file, pulling),
{
    let mut local = chars_of(local_path);
    let mut remote = chars_of(host);
    remote.push(':');
    push_str(&mut remote, remote_path);
    if !is_file {
        local.push('/');
        remote.push('/');
    }
    proof {
        let tail = if is_file {
            Seq::<char>::empty()
        } else {
            seq!['/']
        };
        assert(local@ =~= local_path@ + tail);
        assert(remote@ =~= host@ + seq![':'] + remote_path@ + tail);
    }
    let local = string_of(&local);
    let remote = string_of(&remote);
    if pulling {
        (remote, local)
    } else {
        (local, remote)
    }
}

/// The whole argument list of the transfer that `args` asks for.
pub fn transfer_command_args(
    host: &str,
    local_path: &str,
    remote_path: &str,
    is_file: bool,
    args: &SyncOptions,
) -> (list: Vec<String>)
    ensures
        texts(list@) == transfer_command(host@, local_path@, remote_path@, is_file, *args),
{
    let (src, dst) = sync_endpoints(host, local_path, remote_path, is_file, args.pull);
    let mut list = transfer_args(args, args.dry_run);
    push_text(&mut list, src.as_str());
    push_text(&mut list, dst.as_str());
    proof {
        assert(texts(list@) =~= transfer_options(args.no_perms, args.dry_run) + seq![src@, dst@]);
    }
    list
}

fn remote_command_args(host: &str, command: &str, path: &str) -> (list: Vec<String>)
    ensures
        texts(list@) == remote_command(host@, command@, path@),
{
    let mut list = ssh_args();
    push_text(&mut list, host);
    let mut line = chars_of(command);
    push_str(&mut line, remote_shell_path(path).as_str());
    let line = string_of(&line);
    push_text(&mut list, line.as_str());
    proof {
        assert(texts(list@) =~= connection_options() + seq![host@, command@ + remote_word(path@)]);
    }
    list
}

/// The arguments of the remote test of whether `remote_path` is a regular file.
pub fn remote_is_file_args(host: &str, remote_path: &str) -> (list: Vec<String>)
    ensures
        texts(list@) == remote_command(host@, "test -f "@, remote_path@),
{
    remote_command_args(host, "test -f ", remote_path)
}

/// The arguments of the remote command that creates `remote_parent` and
/// the directories above it where they are missing.
pub fn ensure_remote_parent_args(host: &str, remote_parent: &str) -> (list: Vec<String>)
    ensures
        texts(list@) == remote_command(host@, "mkdir -p "@, remote_parent@),
{
    remote_command_args(host, "mkdir -p ", remote_parent)
}

} // verus!

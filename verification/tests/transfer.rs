use sync_rs::invocation::{
    base_rsync_args, ensure_remote_parent_args, remote_is_file_args, sync_endpoints,
    transfer_args, transfer_command_args, SyncOptions,
};
use sync_rs::preview::dry_run_summary;
use sync_rs::progress::{
    interpret_diagnostic, parse_progress_percent, progress_message, stats_line,
};
use sync_rs::shell::{remote_shell_path, shell_escape, shell_escape_double, ssh_args};
use sync_rs::size::format_size;
use sync_rs::summary::{parse_bytes, summarize, summary_lines, RunStats};
use sync_rs::tree::{empty_tree, insert_path, render_lines, render_node, render_tree};

fn options(pull: bool, dry_run: bool, no_perms: bool) -> SyncOptions {
    SyncOptions { pull, dry_run, no_perms }
}

fn strings(items: &[&str]) -> Vec<String> {
    items.iter().map(|s| s.to_string()).collect()
}

#[test]
fn remote_is_file_uses_ssh() {
    let host = "example";
    let remote = "~/projects/app/file.txt";
    let mut args = ssh_args();
    args.push(host.to_string());
    args.push(format!("test -f {}", remote_shell_path(remote)));
    assert_eq!(remote_is_file_args(host, remote), args);
    assert_eq!(args.last().unwrap(), "test -f \"$HOME/projects/app/file.txt\"");
}

#[test]
fn ensure_remote_parent_creates_dir() {
    let host = "example";
    let remote_parent = "~/projects/app";
    let mut args = ssh_args();
    args.push(host.to_string());
    args.push(format!("mkdir -p {}", remote_shell_path(remote_parent)));
    assert_eq!(ensure_remote_parent_args(host, remote_parent), args);
}

#[test]
fn dry_run_parses_tree_and_stats() {
    let args = options(false, true, false);
    let local_path = "/home/user/projects/app";
    let remote_path = "~/projects/app";
    let (src, dst) = sync_endpoints("example", local_path, remote_path, false, false);

    let mut cmd_args = base_rsync_args(&args, true);
    cmd_args.push("--dry-run".to_string());
    cmd_args.push("--itemize-changes".to_string());
    cmd_args.push("--out-format=%i|%n|%l".to_string());
    cmd_args.push(src);
    cmd_args.push(dst);
    assert_eq!(
        transfer_command_args("example", local_path, remote_path, false, &args),
        cmd_args
    );

    let stdout = b"f+++++++++|foo.txt|12\nd+++++++++|dir/|0\nf+++++++++|dir/bar.txt|24\n";
    let stderr = b"Total transferred file size: 36 bytes\n";
    let summary = dry_run_summary(
        &String::from_utf8_lossy(stdout),
        &String::from_utf8_lossy(stderr),
    );
    assert!(summary.tree.contains("+-- foo.txt"));
    assert!(summary.tree.lines().any(|line| line.ends_with(" dir")));
    assert!(summary.tree.contains("+-- bar.txt"));
    assert_eq!(
        summary.transferred_line.as_deref(),
        Some("Total transferred file size: 36 bytes")
    );
}

#[test]
fn ssh_args_are_the_connection_options() {
    assert_eq!(
        ssh_args(),
        strings(&[
            "-o",
            "ControlMaster=auto",
            "-o",
            "ControlPersist=60s",
            "-o",
            "ControlPath=~/.ssh/cm-%r@%h:%p",
        ])
    );
}

#[test]
fn base_args_of_a_real_run() {
    assert_eq!(
        base_rsync_args(&options(false, false, false), false),
        strings(&[
            "-avz",
            "-P",
            "--partial",
            "--inplace",
            "--info=progress2",
            "-e",
            "ssh -o ControlMaster=auto -o ControlPersist=60s -o ControlPath=~/.ssh/cm-%r@%h:%p",
            "--stats",
            "--out-format=%n",
            "--exclude=.git/",
            "--exclude=node_modules/",
            "--exclude=target/",
            "--exclude=.DS_Store",
        ])
    );
}

#[test]
fn base_args_of_a_dry_run_without_perms() {
    assert_eq!(
        base_rsync_args(&options(false, true, true), true),
        strings(&[
            "-avz",
            "-e",
            "ssh -o ControlMaster=auto -o ControlPersist=60s -o ControlPath=~/.ssh/cm-%r@%h:%p",
            "--stats",
            "--exclude=.git/",
            "--exclude=node_modules/",
            "--exclude=target/",
            "--exclude=.DS_Store",
            "--no-perms",
        ])
    );
}

#[test]
fn transfer_args_of_a_dry_run_end_with_its_flags() {
    let list = transfer_args(&options(false, true, false), true);
    let n = list.len();
    assert_eq!(
        &list[n - 3..],
        &strings(&["--dry-run", "--itemize-changes", "--out-format=%i|%n|%l"])[..]
    );
    let real = transfer_args(&options(false, false, false), false);
    assert_eq!(real, base_rsync_args(&options(false, false, false), false));
}

#[test]
fn endpoints_of_a_directory() {
    assert_eq!(
        sync_endpoints("h", "/local/x", "~/x", false, false),
        ("/local/x/".to_string(), "h:~/x/".to_string())
    );
    assert_eq!(
        sync_endpoints("h", "/local/x", "~/x", false, true),
        ("h:~/x/".to_string(), "/local/x/".to_string())
    );
}

#[test]
fn endpoints_of_a_file() {
    assert_eq!(
        sync_endpoints("h", "/local/f.txt", "~/f.txt", true, false),
        ("/local/f.txt".to_string(), "h:~/f.txt".to_string())
    );
    assert_eq!(
        sync_endpoints("h", "/local/f.txt", "~/f.txt", true, true),
        ("h:~/f.txt".to_string(), "/local/f.txt".to_string())
    );
}

#[test]
fn remote_shell_path_quotes() {
    assert_eq!(remote_shell_path("~/a b"), "\"$HOME/a b\"");
    assert_eq!(remote_shell_path("/tmp/o'k"), "'/tmp/o'\\''k'");
    assert_eq!(remote_shell_path("~"), "\"$HOME\"");
    assert_eq!(remote_shell_path("~/a$b\"c`d\\e"), "\"$HOME/a\\$b\\\"c\\`d\\\\e\"");
    assert_eq!(remote_shell_path("~x"), "'~x'");
    assert_eq!(remote_shell_path(""), "''");
}

#[test]
fn shell_escape_examples() {
    assert_eq!(shell_escape("plain"), "'plain'");
    assert_eq!(shell_escape("it's"), "'it'\\''s'");
    assert_eq!(shell_escape("''"), "''\\'''\\'''");
    assert_eq!(shell_escape_double("a\"b"), "a\\\"b");
    assert_eq!(shell_escape_double("$x `y` \\z"), "\\$x \\`y\\` \\\\z");
    assert_eq!(shell_escape_double("plain"), "plain");
}

#[test]
fn format_size_examples() {
    assert_eq!(format_size(0), "0 B");
    assert_eq!(format_size(1536), "1.50 KB");
    assert_eq!(format_size(1073741824), "1.00 GB");
    assert_eq!(format_size(1023), "1023 B");
    assert_eq!(format_size(1024), "1.00 KB");
    assert_eq!(format_size(1048576), "1.00 MB");
    assert_eq!(format_size(706617380), "673.88 MB");
}

fn float_size(bytes: u64) -> String {
    const KB: u64 = 1024;
    const MB: u64 = KB * 1024;
    const GB: u64 = MB * 1024;
    if bytes >= GB {
        format!("{:.2} GB", bytes as f64 / GB as f64)
    } else if bytes >= MB {
        format!("{:.2} MB", bytes as f64 / MB as f64)
    } else if bytes >= KB {
        format!("{:.2} KB", bytes as f64 / KB as f64)
    } else {
        format!("{} B", bytes)
    }
}

#[test]
fn format_size_agrees_with_float_formatting() {
    let mut samples: Vec<u64> = vec![
        0, 1, 999, 1023, 1024, 1025, 1029, 1152, 1408, 1536, 2047, 2048, 5125, 1048575,
        1048576, 1048577, 1073741823, 1073741824, 1073741825, 1610612736, u64::MAX,
        u64::MAX - 1, 1 << 53, (1 << 53) + 1, (1 << 53) + 2, (1 << 53) + 3, (1 << 62) + 1,
        (1 << 63) + 1024, (1 << 63) + 1025, 9007199254740993, 18014398509481987,
    ];
    let mut x: u64 = 88172645463325252;
    for _ in 0..20000 {
        x ^= x << 13;
        x ^= x >> 7;
        x ^= x << 17;
        samples.push(x);
        samples.push(x >> 20);
        samples.push(x >> 33);
        samples.push(x >> 44);
        samples.push(x >> 52);
    }
    for k in 0..4096u64 {
        samples.push(1024 + k);
        samples.push(1048576 + k * 41);
        samples.push(1073741824 + k * 5243);
        samples.push(1024 * 1000 + k * 128);
    }
    for b in samples {
        assert_eq!(format_size(b), float_size(b), "{}", b);
    }
}

#[test]
fn parse_bytes_examples() {
    assert_eq!(parse_bytes("2,327"), Some(2327));
    assert_eq!(parse_bytes("706,617,380"), Some(706617380));
    assert_eq!(parse_bytes("0"), Some(0));
    assert_eq!(parse_bytes("+12"), Some(12));
    assert_eq!(parse_bytes(",,1,,"), Some(1));
    assert_eq!(parse_bytes(""), None);
    assert_eq!(parse_bytes(","), None);
    assert_eq!(parse_bytes("+"), None);
    assert_eq!(parse_bytes("-1"), None);
    assert_eq!(parse_bytes("12 "), None);
    assert_eq!(parse_bytes("1.5"), None);
    assert_eq!(parse_bytes("18446744073709551615"), Some(u64::MAX));
    assert_eq!(parse_bytes("18,446,744,073,709,551,616"), None);
    assert_eq!(parse_bytes("000000000000000000000000000042"), Some(42));
}

#[test]
fn progress_percent_examples() {
    assert_eq!(parse_progress_percent("  1,234,567  42%  1.23MB/s  0:00:03"), Some(42));
    assert_eq!(parse_progress_percent("no percent here"), None);
    assert_eq!(parse_progress_percent("x% 7% 9%"), Some(7));
    assert_eq!(parse_progress_percent("100%"), Some(100));
    assert_eq!(parse_progress_percent("0%"), Some(0));
    assert_eq!(parse_progress_percent("0100%"), Some(100));
    assert_eq!(parse_progress_percent("101% 1%"), Some(1));
    assert_eq!(parse_progress_percent("255% 1%"), Some(1));
    assert_eq!(parse_progress_percent("256% 2%"), Some(2));
    assert_eq!(parse_progress_percent("200%"), None);
    assert_eq!(parse_progress_percent("99999999999999999999999999% 3%"), Some(3));
    assert_eq!(parse_progress_percent("+5%"), Some(5));
    assert_eq!(parse_progress_percent("%"), None);
    assert_eq!(parse_progress_percent("50 %"), None);
    assert_eq!(parse_progress_percent("12.5%"), None);
    assert_eq!(parse_progress_percent("a\t33%\u{a0}b"), Some(33));
    assert_eq!(parse_progress_percent(""), None);
}

#[test]
fn progress_channel_skips_blank_lines() {
    assert_eq!(progress_message("src/main.rs"), Some("src/main.rs".to_string()));
    assert_eq!(progress_message("  padded "), Some("  padded ".to_string()));
    assert_eq!(progress_message(""), None);
    assert_eq!(progress_message(" \t "), None);
}

#[test]
fn diagnostics_line_is_kept_and_read() {
    let line = "sent 2,327 bytes  received 274 bytes  1,234.00 bytes/sec";
    let mut stats: Vec<String> = Vec::new();
    assert_eq!(interpret_diagnostic(line, &mut stats), None);
    assert_eq!(stats, vec![line.to_string()]);
    assert_eq!(summarize(&stats).sent, Some(2327));
    assert_eq!(summarize(&stats).total, None);
}

#[test]
fn diagnostics_channel_accumulates_only_statistics() {
    let mut stats: Vec<String> = Vec::new();
    assert_eq!(interpret_diagnostic("   32,768  10%   1.00MB/s", &mut stats), Some(10));
    assert!(stats.is_empty());
    assert_eq!(
        interpret_diagnostic("total size is 706,617,380  speedup is 1.00", &mut stats),
        None
    );
    assert_eq!(interpret_diagnostic(" sent 1 bytes", &mut stats), None);
    assert_eq!(interpret_diagnostic("sent 99%", &mut stats), Some(99));
    assert_eq!(
        stats,
        strings(&["total size is 706,617,380  speedup is 1.00", "sent 99%"])
    );
    assert!(stats_line("sent "));
    assert!(!stats_line("sent"));
    assert!(!stats_line("Total size is 1"));
}

#[test]
fn summarize_reads_both_fields() {
    let stats = strings(&[
        "sent 2,327 bytes  received 274 bytes  1,234.00 bytes/sec",
        "total size is 706,617,380  speedup is 271,671.43",
    ]);
    let s = summarize(&stats);
    assert_eq!(s.sent, Some(2327));
    assert_eq!(s.total, Some(706617380));
}

#[test]
fn summarize_last_line_decides() {
    let s = summarize(&strings(&["sent 5 bytes", "sent x bytes", "total size is 7"]));
    assert_eq!(s.sent, None);
    assert_eq!(s.total, Some(7));
    let s = summarize(&strings(&["sent 5 bytes", "sent 6", "total size is 1  x", "total size is"]));
    assert_eq!(s.sent, Some(5));
    assert_eq!(s.total, Some(1));
    let s = summarize(&Vec::new());
    assert_eq!(s.sent, None);
    assert_eq!(s.total, None);
}

#[test]
fn summary_lines_omit_absent_fields() {
    let full = RunStats { sent: Some(1536), total: Some(1073741824) };
    assert_eq!(
        summary_lines(&full, "1.23s"),
        strings(&["Summary:", "  sent: 1.50 KB", "  total size: 1.00 GB", "  duration: 1.23s"])
    );
    let none = RunStats { sent: None, total: None };
    assert_eq!(summary_lines(&none, "5ms"), strings(&["Summary:", "  duration: 5ms"]));
    let only_total = RunStats { sent: None, total: Some(0) };
    assert_eq!(
        summary_lines(&only_total, "0s"),
        strings(&["Summary:", "  total size: 0 B", "  duration: 0s"])
    );
}

#[test]
fn render_tree_end_to_end() {
    let out = render_tree("f+++++++++|foo.txt|12\nd+++++++++|dir/|0\nf+++++++++|dir/bar.txt|24\n");
    assert_eq!(out, "|-- dir\n|  +-- bar.txt\n+-- foo.txt");
}

#[test]
fn render_tree_is_independent_of_line_order() {
    let a = render_tree("x|b/c|1\nx|a|1\nx|b/a/z|1\nx|b/|0\n");
    let b = render_tree("x|b/|0\nx|b/a/z|1\nx|a|1\nx|b/c|1\nx|a|1\n");
    assert_eq!(a, b);
    assert_eq!(a, "|-- a\n+-- b\n   |-- a\n   |  +-- z\n   +-- c");
}

#[test]
fn render_tree_skips_hidden_and_malformed_lines() {
    assert_eq!(render_tree("f|.DS_Store|1\n"), "");
    assert_eq!(render_tree("f|./.hidden/x|1\nno separator\n\n   \nf||3\n"), "");
    assert_eq!(render_tree(""), "");
    assert_eq!(render_tree("f|./a/.b|1\r\nf|./c|2"), "|-- a\n|  +-- .b\n+-- c");
    assert_eq!(render_tree("f|./a/.b|1\r\nf|././c|2"), "+-- a\n   +-- .b");
}

#[test]
fn render_tree_strips_one_leading_dot_slash() {
    assert_eq!(render_tree("f+++++++++|././a|1"), "");
    assert_eq!(render_tree("f+++++++++|./a|1"), "+-- a");
    assert_eq!(render_tree("f+++++++++|.//a|1"), "+-- a");
    assert_eq!(render_tree("f+++++++++|./|1"), "");
    assert_eq!(render_tree("f+++++++++|./../a|1"), "");
    assert_eq!(render_tree("f+++++++++|a/./b|1"), "+-- a\n   +-- .\n      +-- b");
}

#[test]
fn render_tree_has_one_line_per_node() {
    let out = render_tree("f|a/b/c|1\nf|a/b/c|1\nf|a/b|1\nf|a/d/|1\nf|e|1\nf|a/b/c/|2\n");
    let lines: Vec<&str> = out.lines().collect();
    assert_eq!(
        lines,
        vec!["|-- a", "|  |-- b", "|  |  +-- c", "|  +-- d", "+-- e"]
    );
    assert!(!out.ends_with('\n'));
    let depths = [0usize, 1, 2, 1, 0];
    for (line, depth) in lines.iter().zip(depths) {
        let glyph = &line[3 * depth..3 * depth + 4];
        assert!(glyph == "|-- " || glyph == "+-- ", "{:?}", line);
    }
}

#[test]
fn diagnostics_never_report_more_than_a_hundred() {
    let mut stats: Vec<String> = Vec::new();
    for n in 0..=400u32 {
        let line = format!("  1,024  {}%  1.00MB/s", n);
        let got = interpret_diagnostic(&line, &mut stats);
        if n <= 100 {
            assert_eq!(got, Some(n as u8));
        } else {
            assert_eq!(got, None);
        }
    }
    assert!(stats.is_empty());
}

#[test]
fn render_tree_draws_connectors_at_depth() {
    let out = render_tree("f|a/b/c|1\nf|a/d|1\nf|e|1\n");
    assert_eq!(out, "|-- a\n|  |-- b\n|  |  +-- c\n|  +-- d\n+-- e");
}

#[test]
fn insert_path_is_idempotent() {
    let mut root = empty_tree();
    insert_path(&mut root, "dir/bar.txt");
    insert_path(&mut root, "dir/");
    insert_path(&mut root, "/dir//bar.txt");
    insert_path(&mut root, "");
    assert_eq!(root.children.len(), 1);
    assert_eq!(root.children[0].name, "dir");
    assert_eq!(root.children[0].children.len(), 1);
    assert_eq!(render_lines(&root), strings(&["+-- dir", "   +-- bar.txt"]));
}

#[test]
fn insert_path_keeps_names_in_order() {
    let mut root = empty_tree();
    for p in ["b", "a", "ab", "B", "c/x", "a/y"] {
        insert_path(&mut root, p);
    }
    let names: Vec<&str> = root.children.iter().map(|c| c.name.as_str()).collect();
    assert_eq!(names, vec!["B", "a", "ab", "b", "c"]);
}

#[test]
fn render_node_appends_to_lines() {
    let mut root = empty_tree();
    insert_path(&mut root, "top/inner");
    let mut lines = strings(&["kept"]);
    render_node(&mut lines, &root.children[0], ">", false);
    assert_eq!(lines, strings(&["kept", ">|-- top", ">|  +-- inner"]));
}

use std::path::{Component, Path, PathBuf};

use sync_rs::hosts::parse_ssh_hosts;
use sync_rs::number::parse_bounded;
use sync_rs::order::comes_before;
use sync_rs::path::{
    clean_path, components_of, expand_path, map_to_remote, normalize_path, parent_path,
};
use sync_rs::split::{
    char_is_whitespace, split_fields, split_lines, split_tokens, trimmed, without_leading, Delim,
};
use sync_rs::text::{chars_of, find_first, starts_with};

fn chars(s: &str) -> Vec<char> {
    s.chars().collect()
}

fn text(v: &[char]) -> String {
    v.iter().collect()
}

fn texts(v: &[Vec<char>]) -> Vec<String> {
    v.iter().map(|r| text(r)).collect()
}

/// Every text over `alphabet` of at most `max` characters.
fn words(alphabet: &[char], max: usize) -> Vec<String> {
    let mut all = vec![String::new()];
    let mut last = vec![String::new()];
    for _ in 0..max {
        let mut next = Vec::new();
        for w in &last {
            for c in alphabet {
                let mut grown = w.clone();
                grown.push(*c);
                next.push(grown);
            }
        }
        all.extend(next.iter().cloned());
        last = next;
    }
    all
}

#[test]
fn chars_of_gives_the_characters() {
    for s in ["", "a", "héllo wörld", "\u{1F600}x\u{0}"] {
        assert_eq!(chars_of(s), chars(s));
    }
}

#[test]
fn whitespace_is_the_unicode_property() {
    for n in 0..=0x10FFFFu32 {
        if let Some(c) = char::from_u32(n) {
            assert_eq!(char_is_whitespace(c), c.is_whitespace(), "{:x}", n);
        }
    }
}

#[test]
fn lines_are_those_of_std() {
    for s in words(&['a', '\n', '\r', ' '], 6) {
        let expected: Vec<String> = s.lines().map(|l| l.to_string()).collect();
        assert_eq!(texts(&split_lines(&chars(&s))), expected, "{:?}", s);
    }
}

#[test]
fn trimming_is_that_of_std() {
    for s in words(&['a', ' ', '\t', '\u{a0}', '\n'], 5) {
        assert_eq!(text(&trimmed(&chars(&s))), s.trim(), "{:?}", s);
        assert_eq!(
            text(&without_leading(&chars(&s), Delim::Whitespace)),
            s.trim_start(),
            "{:?}",
            s
        );
        assert_eq!(
            text(&without_leading(&chars(&s), Delim::Char('a'))),
            s.trim_start_matches('a'),
            "{:?}",
            s
        );
    }
}

#[test]
fn tokens_and_fields_are_those_of_std() {
    for s in words(&['a', 'b', ' ', '\t', '|'], 6) {
        let tokens: Vec<String> = s.split_whitespace().map(|t| t.to_string()).collect();
        assert_eq!(texts(&split_tokens(&chars(&s), Delim::Whitespace)), tokens, "{:?}", s);
        let fields: Vec<String> = s.split('|').map(|t| t.to_string()).collect();
        assert_eq!(texts(&split_fields(&chars(&s), Delim::Char('|'))), fields, "{:?}", s);
        let parts: Vec<String> =
            s.split('|').filter(|t| !t.is_empty()).map(|t| t.to_string()).collect();
        assert_eq!(texts(&split_tokens(&chars(&s), Delim::Char('|'))), parts, "{:?}", s);
    }
}

#[test]
fn finding_is_that_of_std() {
    for s in words(&['.', '/', 'a'], 7) {
        for p in ["", "a", "./", "/a.", ".."] {
            assert_eq!(find_first(&chars(&s), &chars(p)), s.find(p), "{:?} {:?}", s, p);
            assert_eq!(starts_with(&chars(&s), &chars(p)), s.starts_with(p), "{:?} {:?}", s, p);
        }
    }
}

#[test]
fn numbers_are_read_as_std_reads_them() {
    let mut samples = words(&['0', '1', '9', '+', '-', 'x'], 4);
    for s in [
        "255", "256", "0255", "+255", "+256", "99999", "18446744073709551615",
        "18446744073709551616", "018446744073709551615", "28446744073709551615",
        "184467440737095516150", "\u{0661}", "١٢", " 1", "1 ",
    ] {
        samples.push(s.to_string());
    }
    for s in samples {
        assert_eq!(
            parse_bounded(&chars(&s), 255),
            s.parse::<u8>().ok().map(u64::from),
            "{:?}",
            s
        );
        assert_eq!(parse_bounded(&chars(&s), u64::MAX), s.parse::<u64>().ok(), "{:?}", s);
    }
}

#[test]
fn names_are_ordered_as_strings_are() {
    let all = words(&['a', 'b', 'B', 'é', '\u{1F600}', '\u{ffff}'], 3);
    for a in &all {
        for b in &all {
            assert_eq!(comes_before(&chars(a), &chars(b)), a < b, "{:?} {:?}", a, b);
        }
    }
}

fn clean_with_std(path: &Path) -> PathBuf {
    let mut out = PathBuf::new();
    for component in path.components() {
        match component {
            Component::ParentDir => {
                out.pop();
            }
            Component::CurDir => {}
            other => out.push(other.as_os_str()),
        }
    }
    out
}

fn path_samples() -> Vec<String> {
    let mut all = words(&['a', '.', '/'], 8);
    for s in ["/home/user/./x/../y//z/", "~/a/b", "../..", "/a/../../b", "a/b/c/../../../.."] {
        all.push(s.to_string());
    }
    all
}

#[test]
fn components_are_those_of_std() {
    for s in path_samples() {
        let expected: Vec<String> = Path::new(&s)
            .components()
            .map(|c| c.as_os_str().to_string_lossy().to_string())
            .collect();
        assert_eq!(texts(&components_of(&chars(&s))), expected, "{:?}", s);
    }
}

#[test]
fn cleaning_is_that_of_std_components() {
    for s in path_samples() {
        let expected = clean_with_std(Path::new(&s)).to_string_lossy().to_string();
        assert_eq!(clean_path(&s), expected, "{:?}", s);
    }
}

#[test]
fn normalizing_is_joining_and_cleaning() {
    for cwd in ["/home/user", "/", "/srv/data/"] {
        for s in words(&['a', '.', '/'], 6) {
            let p = Path::new(&s);
            let joined = if p.is_relative() { Path::new(cwd).join(p) } else { p.to_path_buf() };
            let expected = clean_with_std(&joined).to_string_lossy().to_string();
            assert_eq!(normalize_path(&s, cwd), expected, "{:?} {:?}", cwd, s);
        }
    }
}

#[test]
fn expanding_is_pushing_onto_home() {
    for home in ["/home/user", "/home/user/", "/"] {
        for s in words(&['~', '/', 'a'], 6) {
            let expected = if s.starts_with('~') {
                let mut expanded = PathBuf::from(home);
                let rest = s.trim_start_matches('~');
                expanded.push(rest.trim_start_matches('/'));
                expanded.to_string_lossy().to_string()
            } else {
                s.clone()
            };
            assert_eq!(expand_path(&s, home), expected, "{:?} {:?}", home, s);
        }
    }
}

#[test]
fn parents_of_clean_paths_are_those_of_std() {
    for s in path_samples() {
        for clean in [clean_path(&s), format!("~/{}", clean_path(&s).trim_start_matches('/'))] {
            let clean = clean.trim_end_matches('/').to_string();
            let clean = if clean.is_empty() && s.starts_with('/') { "/".to_string() } else { clean };
            let expected = Path::new(&clean).parent().map(|p| p.to_string_lossy().to_string());
            assert_eq!(parent_path(&clean), expected, "{:?}", clean);
        }
    }
}

#[test]
fn remote_paths_of_clean_paths_are_those_of_std() {
    let homes = ["/a", "/a/a", "/", "/a/", "/a/./a"];
    for s in path_samples() {
        let local = normalize_path(&s, "/a");
        for home in homes {
            let expected = match Path::new(&local).strip_prefix(Path::new(home)) {
                Ok(rel) if rel.as_os_str().is_empty() => "~".to_string(),
                Ok(rel) => {
                    let mut remote = PathBuf::from("~");
                    remote.push(rel);
                    remote.to_string_lossy().to_string()
                }
                Err(_) => local.clone(),
            };
            assert_eq!(map_to_remote(&local, home), expected, "{:?} {:?}", local, home);
        }
    }
}

#[test]
fn hosts_are_those_of_a_sort_and_dedup() {
    for s in words(&['H', 'o', 's', 't', ' ', 'a', '\n', '#', '*'], 0) {
        assert_eq!(parse_ssh_hosts(&s), Vec::<String>::new());
    }
    let mut x: u64 = 0x9E3779B97F4A7C15;
    let pieces = ["Host", "host", "HOST", "Hosts", " ", "  ", "\t", "a", "b", "ab", "B", "*", "a?", "#", "\n", "\n", "\r\n", "é"];
    for _ in 0..3000 {
        let mut config = String::new();
        for _ in 0..12 {
            x ^= x << 13;
            x ^= x >> 7;
            x ^= x << 17;
            config.push_str(pieces[(x % pieces.len() as u64) as usize]);
        }
        let mut expected: Vec<String> = Vec::new();
        for line in config.lines() {
            let line = line.trim();
            if line.is_empty() || line.starts_with('#') {
                continue;
            }
            let mut parts = line.split_whitespace();
            let key = parts.next().unwrap_or_default();
            if !key.eq_ignore_ascii_case("Host") {
                continue;
            }
            for host in parts {
                if host.contains('*') || host.contains('?') {
                    continue;
                }
                expected.push(host.to_string());
            }
        }
        expected.sort();
        expected.dedup();
        assert_eq!(parse_ssh_hosts(&config), expected, "{:?}", config);
    }
}

use std::collections::HashMap;
use std::io::Write;
use std::sync::Arc;

use archive_tools::archive::{read_archive, ArchiveError, ArchiveWriter, ExtractStep};
use archive_tools::paths::{
    child_path_of, is_directory_name, is_safe_entry_name, is_skipped, skip_entry_matches,
};
use archive_tools::provider::{BaseProvider, Oauth2Config};
use archive_tools::walk::{plan_listing, ListedEntry};

fn zip_with_names(entries: &[(&str, &[u8])]) -> Vec<u8> {
    let mut w = zip::ZipWriter::new(std::io::Cursor::new(Vec::new()));
    for (name, data) in entries {
        w.start_file(*name, zip::write::FileOptions::default()).unwrap();
        w.write_all(data).unwrap();
    }
    w.finish().unwrap().into_inner()
}

fn apply(files: &mut HashMap<String, Vec<u8>>, steps: &[ExtractStep]) {
    for s in steps {
        if let ExtractStep::WriteFile(p, d) = s {
            files.insert(p.clone(), d.clone());
        }
    }
}

#[test]
fn skip_matches_whole_segments() {
    assert!(skip_entry_matches("logs", "logs"));
    assert!(skip_entry_matches("logs/app.log", "logs"));
    assert!(skip_entry_matches("logs/deep/a.txt", "logs"));
    assert!(!skip_entry_matches("logs2/file.txt", "logs"));
    assert!(!skip_entry_matches("logsarchive/a", "logs"));
    assert!(!skip_entry_matches("log", "logs"));
    assert!(skip_entry_matches("logs/a", "logs/"));
    assert!(!skip_entry_matches("logs", "logs/"));
    assert!(!skip_entry_matches("a", ""));
}

#[test]
fn skip_list_any_entry() {
    let skips = vec!["target".to_string(), "logs".to_string()];
    assert!(is_skipped("logs/x", &skips));
    assert!(is_skipped("target", &skips));
    assert!(!is_skipped("src/main.rs", &skips));
    assert!(!is_skipped("logs", &Vec::new()));
}

#[test]
fn child_paths_join_with_slash() {
    assert_eq!(child_path_of("", "a.txt"), "a.txt");
    assert_eq!(child_path_of("dir", "a.txt"), "dir/a.txt");
    assert_eq!(child_path_of("a/b", "c"), "a/b/c");
}

#[test]
fn traversal_names_are_unsafe() {
    assert!(!is_safe_entry_name("../../etc/passwd"));
    assert!(!is_safe_entry_name("/etc/passwd"));
    assert!(!is_safe_entry_name("a/../../b"));
    assert!(!is_safe_entry_name("a/.."));
    assert!(!is_safe_entry_name(".."));
    assert!(!is_safe_entry_name("..\\..\\windows"));
    assert!(!is_safe_entry_name("\\abs"));
    assert!(!is_safe_entry_name(""));
    assert!(!is_safe_entry_name("a\0b"));
    assert!(is_safe_entry_name("a/..b/c"));
    assert!(is_safe_entry_name("..a"));
    assert!(is_safe_entry_name("dir/"));
    assert!(is_safe_entry_name("a/b/c.txt"));
    assert!(!is_safe_entry_name("C:/Windows/x"));
    assert!(!is_safe_entry_name("C:\\x"));
    assert!(!is_safe_entry_name("a/b:stream"));
}

#[test]
fn writer_refuses_names_past_limit() {
    let mut w = ArchiveWriter::new();
    let long = "n".repeat(1024);
    assert_eq!(w.add_file(&long, b"x"), Err(ArchiveError::LimitExceeded(long.clone())));
    assert_eq!(w.len(), 0);
    let fits = "n".repeat(1023);
    assert_eq!(w.add_file(&fits, b"x"), Ok(()));
    let steps = read_archive(w.finish()).unwrap();
    assert_eq!(steps, vec![ExtractStep::WriteFile(fits, b"x".to_vec())]);
}

#[test]
fn directory_names_end_in_separator() {
    assert!(is_directory_name("dir/"));
    assert!(is_directory_name("dir\\"));
    assert!(!is_directory_name("dir"));
    assert!(!is_directory_name(""));
}

#[test]
fn listing_plan_splits_and_skips() {
    let listing = vec![
        ListedEntry { name: "logs".to_string(), is_dir: true },
        ListedEntry { name: "logs2".to_string(), is_dir: true },
        ListedEntry { name: "a.txt".to_string(), is_dir: false },
        ListedEntry { name: "logs.txt".to_string(), is_dir: false },
    ];
    let skips = vec!["sub/logs".to_string()];
    let plan = plan_listing("sub", &listing, &skips);
    assert_eq!(plan.subdirs, vec!["sub/logs2".to_string()]);
    assert_eq!(plan.files, vec!["sub/a.txt".to_string(), "sub/logs.txt".to_string()]);
    let root = plan_listing("", &listing, &vec!["logs".to_string()]);
    assert_eq!(root.subdirs, vec!["logs2".to_string()]);
    assert_eq!(root.files, vec!["a.txt".to_string(), "logs.txt".to_string()]);
}

#[test]
fn skipped_file_named_like_prefix() {
    let listing = vec![ListedEntry { name: "logs".to_string(), is_dir: false }];
    let plan = plan_listing("", &listing, &vec!["logs".to_string()]);
    assert!(plan.files.is_empty());
    assert!(plan.subdirs.is_empty());
}

#[test]
fn round_trip_keeps_names_and_bytes() {
    let mut w = ArchiveWriter::new();
    w.add_file("a.txt", b"hello").unwrap();
    w.add_file("dir/b.bin", &[0u8, 1, 2, 255]).unwrap();
    w.add_file("dir/empty", b"").unwrap();
    assert_eq!(w.len(), 3);
    let bytes = w.finish();
    let steps = read_archive(bytes).unwrap();
    assert_eq!(
        steps,
        vec![
            ExtractStep::WriteFile("a.txt".to_string(), b"hello".to_vec()),
            ExtractStep::WriteFile("dir/b.bin".to_string(), vec![0u8, 1, 2, 255]),
            ExtractStep::WriteFile("dir/empty".to_string(), Vec::new()),
        ]
    );
}

#[test]
fn round_trip_large_compressible_content() {
    let data: Vec<u8> = (0..100_000u32).map(|i| (i % 7) as u8).collect();
    let mut w = ArchiveWriter::new();
    w.add_file("big", &data).unwrap();
    let bytes = w.finish();
    assert!(bytes.len() < data.len());
    let steps = read_archive(bytes).unwrap();
    assert_eq!(steps, vec![ExtractStep::WriteFile("big".to_string(), data)]);
}

#[test]
fn empty_archive_has_no_entries() {
    let w = ArchiveWriter::new();
    assert_eq!(w.len(), 0);
    let bytes = w.finish();
    assert!(!bytes.is_empty());
    let steps = read_archive(bytes).unwrap();
    assert!(steps.is_empty());
    let mut files: HashMap<String, Vec<u8>> = HashMap::new();
    apply(&mut files, &steps);
    assert!(files.is_empty());
}

#[test]
fn writer_refuses_duplicate_names() {
    let mut w = ArchiveWriter::new();
    w.add_file("a", b"1").unwrap();
    assert_eq!(w.add_file("a", b"2"), Err(ArchiveError::DuplicateEntry("a".to_string())));
    assert_eq!(w.len(), 1);
    let steps = read_archive(w.finish()).unwrap();
    assert_eq!(steps, vec![ExtractStep::WriteFile("a".to_string(), b"1".to_vec())]);
}

#[test]
fn writer_refuses_unsafe_names() {
    let mut w = ArchiveWriter::new();
    assert_eq!(
        w.add_file("../escape", b"x"),
        Err(ArchiveError::UnsafePath("../escape".to_string()))
    );
    assert_eq!(w.len(), 0);
}

#[test]
fn writer_refuses_directory_names() {
    let mut w = ArchiveWriter::new();
    assert_eq!(w.add_file("dir/", b""), Err(ArchiveError::DirectoryName("dir/".to_string())));
    assert_eq!(w.len(), 0);
}

#[test]
fn malicious_archive_is_rejected() {
    let bytes = zip_with_names(&[("ok.txt", b"fine"), ("../../etc/passwd", b"root:x")]);
    assert_eq!(
        read_archive(bytes),
        Err(ArchiveError::UnsafePath("../../etc/passwd".to_string()))
    );
    let absolute = zip_with_names(&[("/etc/shadow", b"x")]);
    assert_eq!(read_archive(absolute), Err(ArchiveError::UnsafePath("/etc/shadow".to_string())));
}

#[test]
fn directory_entries_become_create_steps() {
    let mut w = zip::ZipWriter::new(std::io::Cursor::new(Vec::new()));
    w.add_directory("docs/", zip::write::FileOptions::default()).unwrap();
    w.start_file("docs/readme", zip::write::FileOptions::default()).unwrap();
    w.write_all(b"read me").unwrap();
    let bytes = w.finish().unwrap().into_inner();
    let steps = read_archive(bytes).unwrap();
    assert_eq!(
        steps,
        vec![
            ExtractStep::CreateDir("docs/".to_string()),
            ExtractStep::WriteFile("docs/readme".to_string(), b"read me".to_vec()),
        ]
    );
}

#[test]
fn corrupt_bytes_are_a_format_error() {
    assert_eq!(read_archive(b"not a zip file".to_vec()), Err(ArchiveError::Format));
    assert_eq!(read_archive(Vec::new()), Err(ArchiveError::Format));
}

#[test]
fn extracting_twice_gives_same_files() {
    let mut w = ArchiveWriter::new();
    w.add_file("x", b"new").unwrap();
    w.add_file("d/y", b"why").unwrap();
    let bytes = w.finish();
    let steps = read_archive(bytes.clone()).unwrap();
    let mut files: HashMap<String, Vec<u8>> = HashMap::new();
    files.insert("x".to_string(), b"old".to_vec());
    apply(&mut files, &steps);
    let once = files.clone();
    let again = read_archive(bytes).unwrap();
    apply(&mut files, &again);
    assert_eq!(files, once);
    assert_eq!(files.get("x").unwrap(), &b"new".to_vec());
    assert_eq!(files.len(), 2);
}

#[test]
fn concurrent_entry_writes_do_not_interleave() {
    let rt = tokio::runtime::Builder::new_multi_thread().worker_threads(4).build().unwrap();
    let bytes = rt.block_on(async {
        let writer = Arc::new(tokio::sync::Mutex::new(ArchiveWriter::new()));
        let mut handles = Vec::new();
        for t in 0..8u8 {
            let writer = writer.clone();
            handles.push(tokio::spawn(async move {
                let data = vec![t; 4096 + t as usize];
                let mut guard = writer.lock().await;
                tokio::task::yield_now().await;
                guard.add_file(&format!("f{t}"), &data).unwrap();
            }));
        }
        for h in handles {
            h.await.unwrap();
        }
        let w = Arc::try_unwrap(writer).ok().unwrap().into_inner();
        w.finish()
    });
    let steps = read_archive(bytes).unwrap();
    assert_eq!(steps.len(), 8);
    for s in steps {
        match s {
            ExtractStep::WriteFile(name, data) => {
                let t: u8 = name[1..].parse().unwrap();
                assert_eq!(data, vec![t; 4096 + t as usize]);
            }
            ExtractStep::CreateDir(_) => panic!("unexpected directory"),
        }
    }
}

#[test]
fn provider_settings_round_trip() {
    let scopes = ["openid", "email"];
    let config = Oauth2Config {
        client_id: "id",
        client_secret: "SECRET-REDACTED",
        scopes: &scopes,
        redirect_url: "https://app/cb",
        auth_url: "https://idp/auth",
        token_url: "https://idp/token",
    };
    let mut p = BaseProvider::from_config(&config);
    assert_eq!(p.client_id(), "id");
    assert_eq!(p.client_secret(), "SECRET-REDACTED");
    assert_eq!(p.scopes(), &["openid", "email"]);
    assert_eq!(p.display_name(), "");
    assert_eq!(p.user_info_url(), "");
    assert!(!p.pkce());
    p.set_pkce(true);
    assert!(p.pkce());
    p.set_display_name("Example");
    assert_eq!(p.display_name(), "Example");
    p.set_user_info_url("https://idp/me");
    assert_eq!(p.user_info_url(), "https://idp/me");
    assert_eq!(p.auth_url(), "https://idp/auth");
    p.set_auth_url("https://idp/authorize");
    assert_eq!(p.auth_url(), "https://idp/authorize");
    p.set_token_url("https://idp/t");
    assert_eq!(p.token_url(), "https://idp/t");
    p.set_redirect_url("https://app/callback");
    assert_eq!(p.redirect_url(), "https://app/callback");
    p.set_client_id("other");
    assert_eq!(p.client_id(), "other");
    p.set_client_secret("s2");
    assert_eq!(p.client_secret(), "s2");
    let more = ["profile"];
    p.set_scopes(&more);
    assert_eq!(p.scopes(), &["profile"]);
}

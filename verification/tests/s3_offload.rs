use s3_offload::config::{ChannelRef, S3OffloadSettings};
use s3_offload::hints::{
    append_hint_block, ContentBlock, OffloadResult, CAPABILITY_ID, MAX_HINTS_PER_MESSAGE,
};
use s3_offload::offload::{upload_failure_message, DiscardedFileOffloader, OffloadStep};
use s3_offload::paths::{
    compute_paths, join_strings, sanitize_filename, sanitize_path_component, session_key,
    split_clean_path,
};

fn settings() -> S3OffloadSettings {
    S3OffloadSettings {
        bucket: "bucket".into(),
        region: "us-east-1".into(),
        endpoint_url: None,
        force_path_style: true,
        directory: "tenant-a/discarded".into(),
        access_key_id: None,
        secret_access_key: None,
        session_token: None,
    }
}

fn record(filename: &str, uploaded: bool) -> OffloadResult {
    OffloadResult {
        filename: filename.into(),
        working_path: format!("/home/agent/{filename}"),
        object_key: format!("discarded/home/agent/{filename}"),
        uploaded,
        error: None,
    }
}

fn texts(blocks: &[ContentBlock]) -> Vec<String> {
    blocks
        .iter()
        .filter_map(|b| match b {
            ContentBlock::Text { text } => Some(text.clone()),
            _ => None,
        })
        .collect()
}

#[test]
fn compute_key_without_per_session_working_dir() {
    let paths = compute_paths(&settings(), "/home/agent", None, "report.pdf");
    assert_eq!(paths.working_path, "/home/agent/report.pdf");
    assert_eq!(paths.object_key, "tenant-a/discarded/report.pdf");
}

#[test]
fn compute_key_with_per_session_working_dir() {
    let paths = compute_paths(
        &settings(),
        "/home/agent",
        Some("discord:123/456"),
        "report.pdf",
    );
    assert_eq!(paths.working_path, "/home/agent/discord_123_456/report.pdf");
    assert_eq!(
        paths.object_key,
        "tenant-a/discarded/discord_123_456/report.pdf"
    );
}

#[test]
fn filename_sanitization_prevents_path_traversal() {
    let paths = compute_paths(&settings(), "/home/agent", None, "../secret token.pdf");
    assert_eq!(paths.working_path, "/home/agent/secret_token.pdf");
    assert_eq!(paths.object_key, "tenant-a/discarded/secret_token.pdf");
    assert!(!paths.object_key.contains(".."));
}

#[test]
fn hint_contains_capability_and_path() {
    let mut blocks = Vec::new();
    append_hint_block(
        &mut blocks,
        OffloadResult {
            filename: "a.bin".into(),
            working_path: "/home/agent/a.bin".into(),
            object_key: "discarded/home/agent/a.bin".into(),
            uploaded: true,
            error: None,
        },
    );
    assert!(matches!(
        &blocks[0],
        ContentBlock::Text { text }
            if text.contains(CAPABILITY_ID) && text.contains("/home/agent/a.bin")
    ));
}

#[test]
fn sanitize_component_replaces_unsafe_characters() {
    assert_eq!(sanitize_path_component("a b", "x"), "a_b");
    assert_eq!(sanitize_path_component("héllo wörld", "x"), "h_llo_w_rld");
    assert_eq!(sanitize_path_component("Report-1_v2.PDF", "x"), "Report-1_v2.PDF");
    assert_eq!(sanitize_path_component("discord:123/456", "session"), "discord_123_456");
}

#[test]
fn sanitize_component_trims_underscores_and_falls_back() {
    assert_eq!(sanitize_path_component("  spaced  ", "x"), "spaced");
    assert_eq!(sanitize_path_component("__a_b__", "x"), "a_b");
    assert_eq!(sanitize_path_component("___", "dir"), "dir");
    assert_eq!(sanitize_path_component("", "file"), "file");
    assert_eq!(sanitize_path_component("?*:", "file"), "file");
}

#[test]
fn sanitize_component_replaces_dot_names() {
    assert_eq!(sanitize_path_component("..", "x"), "x");
    assert_eq!(sanitize_path_component(".", "x"), "x");
    assert_eq!(sanitize_path_component("_..", "x"), "x");
    assert_eq!(sanitize_path_component("_._", "x"), "x");
    assert_eq!(sanitize_path_component("...", "x"), "...");
    assert_eq!(sanitize_path_component(".env", "x"), ".env");
}

#[test]
fn sanitize_component_is_idempotent() {
    for input in ["a b", "  __x y__ ", "", "???", "é.txt", "discord:1/2", "..", "_._"] {
        let once = sanitize_path_component(input, "file");
        assert_eq!(sanitize_path_component(&once, "file"), once);
    }
}

#[test]
fn sanitized_component_is_clean() {
    for input in ["a b", " _x_ ", "", "??", "é", "a/b\\c", "..", "_.", "."] {
        let s = sanitize_path_component(input, "dir");
        assert!(!s.is_empty() && s != "." && s != "..");
        assert!(s
            .chars()
            .all(|c| c.is_ascii_alphanumeric() || c == '-' || c == '_' || c == '.'));
        assert!(!s.starts_with('_') && !s.ends_with('_'));
    }
}

#[test]
fn split_clean_path_drops_empty_and_dot_pieces() {
    assert_eq!(split_clean_path("/a//b/./../ c "), vec!["a", "b", "c"]);
    assert_eq!(split_clean_path("a\\b/c"), vec!["a", "b", "c"]);
    assert_eq!(split_clean_path(" .. / . /x"), vec!["x"]);
    assert_eq!(split_clean_path(""), Vec::<String>::new());
    assert_eq!(split_clean_path("///"), Vec::<String>::new());
    assert_eq!(split_clean_path("? /ok"), vec!["dir", "ok"]);
}

#[test]
fn sanitize_filename_keeps_last_piece() {
    assert_eq!(sanitize_filename("dir/sub\\file.txt"), "file.txt");
    assert_eq!(sanitize_filename("  name.txt\t"), "name.txt");
    assert_eq!(sanitize_filename("\u{3000}wide\u{a0}"), "wide");
    assert_eq!(sanitize_filename("a/"), "file");
    assert_eq!(sanitize_filename("   "), "file");
    assert_eq!(sanitize_filename("../.."), "file");
    assert_eq!(sanitize_filename("a/."), "file");
}

#[test]
fn session_key_prefers_thread() {
    let mut channel = ChannelRef {
        platform: "discord".into(),
        channel_id: "123".into(),
        thread_id: Some("456".into()),
    };
    assert_eq!(session_key(&channel), "discord:456");
    channel.thread_id = None;
    assert_eq!(session_key(&channel), "discord:123");
}

#[test]
fn join_strings_puts_separator_between() {
    let parts: Vec<String> = vec!["a".into(), "b".into(), "c".into()];
    assert_eq!(join_strings(&parts, "/"), "a/b/c");
    assert_eq!(join_strings(&Vec::new(), "/"), "");
    assert_eq!(join_strings(&vec!["x".into()], ", "), "x");
}

#[test]
fn compute_paths_with_empty_dirs() {
    let mut s = settings();
    s.directory = String::new();
    let paths = compute_paths(&s, "", None, "x.bin");
    assert_eq!(paths.working_path, "/x.bin");
    assert_eq!(paths.object_key, "x.bin");
}

#[test]
fn object_key_splits_into_components() {
    let paths = compute_paths(&settings(), "/w", Some("slack:C1"), "a/b\\c d.txt");
    let segments: Vec<&str> = paths.object_key.split('/').collect();
    assert_eq!(segments, vec!["tenant-a", "discarded", "slack_C1", "c_d.txt"]);
    let working: Vec<&str> = paths.working_path.split('/').collect();
    assert_eq!(working, vec!["", "w", "slack_C1", "c_d.txt"]);
}

#[test]
fn dot_names_never_become_segments() {
    let paths = compute_paths(&settings(), "/home/_.._/agent", Some(".."), "../..");
    assert_eq!(paths.working_path, "/home/dir/agent/session/file");
    assert_eq!(paths.object_key, "tenant-a/discarded/session/file");
    for seg in paths
        .object_key
        .split('/')
        .chain(paths.working_path[1..].split('/'))
    {
        assert!(seg != "." && seg != ".." && !seg.is_empty());
    }
}

#[test]
fn split_clean_path_replaces_pieces_that_sanitize_to_dots() {
    assert_eq!(split_clean_path("_.._/a/_._"), vec!["dir", "a", "dir"]);
}

#[test]
fn hint_text_for_upload() {
    let mut blocks = Vec::new();
    append_hint_block(&mut blocks, record("a.bin", true));
    assert_eq!(
        texts(&blocks),
        vec!["[discarded-file-offload] stored discarded file `a.bin` at `/home/agent/a.bin` (object key: `discarded/home/agent/a.bin`)."]
    );
}

#[test]
fn hint_text_for_failure() {
    let mut blocks = Vec::new();
    append_hint_block(&mut blocks, record("a.bin", false));
    assert_eq!(
        texts(&blocks),
        vec!["[discarded-file-offload] failed to store discarded file `a.bin` at `/home/agent/a.bin`; continuing without offload."]
    );
}

#[test]
fn hint_is_not_duplicated() {
    let mut blocks = Vec::new();
    append_hint_block(&mut blocks, record("a.bin", true));
    append_hint_block(&mut blocks, record("a.bin", true));
    assert_eq!(blocks.len(), 1);
    append_hint_block(&mut blocks, record("a.bin", false));
    assert_eq!(blocks.len(), 2);
}

#[test]
fn hints_are_capped_per_message() {
    let mut blocks = vec![ContentBlock::Image {
        mime_type: "image/png".into(),
        data: "AAAA".into(),
    }];
    for i in 0..(MAX_HINTS_PER_MESSAGE + 5) {
        append_hint_block(&mut blocks, record(&format!("f{i}.bin"), true));
    }
    assert_eq!(blocks.len(), 1 + MAX_HINTS_PER_MESSAGE);
}

#[test]
fn other_text_blocks_do_not_count_as_hints() {
    let mut blocks: Vec<ContentBlock> = (0..MAX_HINTS_PER_MESSAGE)
        .map(|i| ContentBlock::Text {
            text: format!("note {i}"),
        })
        .collect();
    append_hint_block(&mut blocks, record("a.bin", true));
    assert_eq!(blocks.len(), MAX_HINTS_PER_MESSAGE + 1);
}

#[test]
fn prepare_without_client_skips_upload() {
    let offloader = DiscardedFileOffloader::new(settings(), "/home/agent".into(), false);
    let channel = ChannelRef {
        platform: "discord".into(),
        channel_id: "123".into(),
        thread_id: None,
    };
    match offloader.prepare_offload(&channel, "dir/report.pdf", false) {
        OffloadStep::Skip { result } => {
            assert_eq!(result.filename, "report.pdf");
            assert_eq!(result.working_path, "/home/agent/report.pdf");
            assert_eq!(result.object_key, "tenant-a/discarded/report.pdf");
            assert!(!result.uploaded);
            assert_eq!(result.error.as_deref(), Some("S3 support is not compiled in"));
        }
        OffloadStep::Upload { .. } => panic!("uploaded without a client"),
    }
}

#[test]
fn prepare_with_client_and_session_directory() {
    let offloader = DiscardedFileOffloader::new(settings(), "/home/agent".into(), true);
    let channel = ChannelRef {
        platform: "discord".into(),
        channel_id: "123".into(),
        thread_id: Some("456".into()),
    };
    match offloader.prepare_offload(&channel, "report.pdf", true) {
        OffloadStep::Upload {
            bucket,
            object_key,
            pending,
        } => {
            assert_eq!(bucket, "bucket");
            assert_eq!(object_key, "tenant-a/discarded/discord_456/report.pdf");
            assert_eq!(pending.working_path, "/home/agent/discord_456/report.pdf");
            assert_eq!(pending.object_key, object_key);
            assert!(!pending.uploaded);
            assert!(pending.error.is_none());
        }
        OffloadStep::Skip { .. } => panic!("skipped with a client"),
    }
}

#[test]
fn complete_records_success_and_failure() {
    let pending = record("a.bin", false);
    let ok = DiscardedFileOffloader::complete_offload(pending.clone(), Ok("key-2".into()));
    assert!(ok.uploaded);
    assert_eq!(ok.object_key, "key-2");
    assert!(ok.error.is_none());
    let failed = DiscardedFileOffloader::complete_offload(pending.clone(), Err("boom".into()));
    assert!(!failed.uploaded);
    assert_eq!(failed.object_key, pending.object_key);
    assert_eq!(failed.working_path, pending.working_path);
    assert_eq!(failed.error.as_deref(), Some("boom"));
}

#[test]
fn upload_failure_message_names_object() {
    assert_eq!(
        upload_failure_message("bucket", "a/b.bin", "denied"),
        "failed to put S3 object bucket/a/b.bin: denied"
    );
}

#[test]
fn static_credentials_need_both_keys() {
    let mut s = settings();
    assert!(s.static_credentials().is_none());
    s.access_key_id = Some("AKID".into());
    assert!(s.static_credentials().is_none());
    s.secret_access_key = Some("SECRET-REDACTED".into());
    s.session_token = Some("tok".into());
    let c = s.static_credentials().expect("credentials");
    assert_eq!(c.access_key_id, "AKID");
    assert_eq!(c.secret_access_key, "SECRET-REDACTED");
    assert_eq!(c.session_token.as_deref(), Some("tok"));
    s.access_key_id = None;
    assert!(s.static_credentials().is_none());
}

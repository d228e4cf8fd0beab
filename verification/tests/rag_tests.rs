use ragit::chat::ChatMessage;
use ragit::download::{destination_name, download_url, DownloadEvent, DownloadSession};
use ragit::rag::embed::{check_batch_dims, check_dim, embedding_bytes, embedding_payloads};
use ragit::rag::export::{export_message, import_message, EXPORT_VERSION};
use ragit::rag::store::{pending_files, status_update_kind, FileRecord, IndexStatus, StatusUpdate};
use ragit::rag::vector_db::{collection_dim, sanitize};
use ragit::rag::vision::{describe_instruction, frames_text, image_data_url, image_mime};
use ragit::rag::{
    candidate_count, doc_key, format_context, library_filter, library_or_default, rag_messages,
    RetrievedHit,
};

fn msg(role: &str, content: &str) -> ChatMessage {
    ChatMessage { role: role.to_string(), content: content.to_string() }
}

fn record(id: i64, status: &str) -> FileRecord {
    FileRecord {
        id,
        library_id: "lib".to_string(),
        path: format!("/f{id}"),
        file_name: format!("f{id}"),
        content_hash: "h".to_string(),
        status: status.to_string(),
        level: 0,
        chunks: 0,
        error: None,
    }
}

#[test]
fn retrieved_context_lists_each_hit() {
    let hits = vec![
        RetrievedHit { file_name: Some("a.txt".to_string()), chunk_index: Some(2), content: Some("hello".to_string()) },
        RetrievedHit { file_name: None, chunk_index: None, content: None },
        RetrievedHit { file_name: Some("b.md".to_string()), chunk_index: Some(-1), content: Some("x".to_string()) },
    ];
    assert_eq!(
        format_context(&hits),
        "=== RETRIEVED CONTEXT ===\n[0] (a.txt#2)\nhello\n\n[1] (?#0)\n\n\n[2] (b.md#-1)\nx\n\n"
    );
    assert_eq!(format_context(&vec![]), "");
}

#[test]
fn rag_conversation_order() {
    let history = vec![msg("user", "hi"), msg("assistant", "hello")];
    assert_eq!(
        rag_messages(history.clone(), "CTX", "q"),
        vec![
            msg("system", "Answer using the following context. Cite sources by file name.\n\nCTX"),
            msg("user", "hi"),
            msg("assistant", "hello"),
            msg("user", "q"),
        ]
    );
    assert_eq!(rag_messages(history, "", "q").len(), 3);
}

#[test]
fn retrieval_parameters() {
    assert_eq!(library_filter("docs"), "library_id = 'docs'");
    assert_eq!(candidate_count(5), 50);
    assert_eq!(candidate_count(12), 50);
    assert_eq!(candidate_count(13), 52);
    assert_eq!(doc_key(7, 3), "7_3");
    assert_eq!(doc_key(-2, 0), "-2_0");
    assert_eq!(library_or_default(None), "default");
    assert_eq!(library_or_default(Some("x".to_string())), "x");
}

#[test]
fn statuses() {
    assert_eq!(IndexStatus::Pending.as_str(), "pending");
    assert_eq!(IndexStatus::Canceled.as_str(), "canceled");
    assert_eq!(status_update_kind("indexing"), StatusUpdate::Started);
    assert_eq!(status_update_kind("done"), StatusUpdate::Finished);
    assert_eq!(status_update_kind("error"), StatusUpdate::Finished);
    assert_eq!(status_update_kind("canceled"), StatusUpdate::Finished);
    assert_eq!(status_update_kind("pending"), StatusUpdate::Plain);
    assert_eq!(status_update_kind("DONE"), StatusUpdate::Plain);
}

#[test]
fn scheduler_retries_pending_and_failed_files() {
    let files = vec![record(1, "done"), record(2, "pending"), record(3, "error"), record(4, "indexing")];
    let ids: Vec<i64> = pending_files(&files).iter().map(|f| f.id).collect();
    assert_eq!(ids, vec![2, 3]);
}

#[test]
fn collection_names() {
    assert_eq!(sanitize("my lib/\u{e9}-x_1"), "my_lib_\u{e9}-x_1");
    assert_eq!(sanitize(sanitize("a b.c").as_str()), sanitize("a b.c"));
    assert_eq!(collection_dim(Some(384), 768), 384);
    assert_eq!(collection_dim(None, 768), 768);
}

#[test]
fn embedding_checks() {
    assert_eq!(check_dim(768, None), Ok(()));
    assert_eq!(check_dim(768, Some(768)), Ok(()));
    assert_eq!(check_dim(3, Some(4)), Err("embedding dimension mismatch: got 3, expected 4".to_string()));
    assert_eq!(check_batch_dims(&vec![4, 4, 2, 1], 4, Some(4)), Err("embedding dimension mismatch at index 2: got 2, expected 4".to_string()));
    assert_eq!(check_batch_dims(&vec![4, 4], 2, Some(4)), Ok(()));
    assert_eq!(check_batch_dims(&vec![1], 1, None), Ok(()));
    assert_eq!(check_batch_dims(&vec![4, 4], 3, Some(4)), Err("embedding count mismatch: got 2, expected 3".to_string()));
    assert_eq!(check_batch_dims(&vec![4, 4, 4], 2, None), Err("embedding count mismatch: got 3, expected 2".to_string()));
    assert_eq!(embedding_bytes("AAAAAAAAAAAAAAAA"), Ok(vec![0u8; 12]));
    assert_eq!(embedding_bytes("AQID"), Err("embedding bytes not aligned to f32".to_string()));
    assert!(embedding_bytes("***").is_err());
}

#[test]
fn export_and_import_answers() {
    assert_eq!(EXPORT_VERSION, 1);
    assert_eq!(export_message("docs", "/tmp/x.json"), "Exported library 'docs' to /tmp/x.json");
    assert_eq!(import_message(2, 5, "docs", true), "Imported 2 files, 5 chunks into 'docs' (re-embedded)");
    assert_eq!(
        import_message(0, 0, "d", false),
        "Imported 0 files, 0 chunks into 'd' (no embeddings \u{2014} re-index to enable search)"
    );
}

#[test]
fn vision_requests() {
    assert_eq!(image_mime(Some("PNG")), "image/png");
    assert_eq!(image_mime(Some("jpeg")), "image/jpeg");
    assert_eq!(image_mime(Some("Jpg")), "image/jpeg");
    assert_eq!(image_mime(Some("webp")), "image/webp");
    assert_eq!(image_mime(Some("gif")), "image/gif");
    assert_eq!(image_mime(Some("bmp")), "image/png");
    assert_eq!(image_mime(None), "image/png");
    assert_eq!(image_data_url("image/png", &[1, 2, 3]), "data:image/png;base64,AQID");
    assert!(describe_instruction().starts_with("Describe this image in detail for retrieval."));
    assert_eq!(frames_text(&vec![]), Err("no frames could be described".to_string()));
    assert_eq!(frames_text(&vec!["a".to_string(), "b".to_string()]), Ok("a\n\nb".to_string()));
}

#[test]
fn download_destination_keeps_the_final_component() {
    assert_eq!(destination_name("q.gguf"), Some("q.gguf".to_string()));
    assert_eq!(destination_name("../../etc/q.gguf"), Some("q.gguf".to_string()));
    assert_eq!(destination_name("/abs/dir/q.gguf/"), Some("q.gguf".to_string()));
    assert_eq!(destination_name("dir\\q.gguf"), Some("q.gguf".to_string()));
    assert_eq!(destination_name("a/q.gguf/./"), Some("q.gguf".to_string()));
    assert_eq!(destination_name("a/.."), None);
    assert_eq!(destination_name(".."), None);
    assert_eq!(destination_name(""), None);
    assert_eq!(destination_name("/"), None);
    assert_eq!(destination_name("./."), None);
}

#[test]
fn download_source() {
    assert_eq!(
        download_url("Qwen/Qwen2.5-7B-Instruct-GGUF", "q.gguf"),
        "https://huggingface.co/Qwen/Qwen2.5-7B-Instruct-GGUF/resolve/main/q.gguf"
    );
}

#[test]
fn download_reports_progress_and_checksum() {
    let (mut s, e) = DownloadSession::start("u".to_string(), 6);
    assert_eq!(e, DownloadEvent::Started { url: "u".to_string(), total_bytes: 6 });
    assert_eq!(s.feed(b"abc"), Some(DownloadEvent::Progress { downloaded: 3, total_bytes: 6 }));
    assert_eq!(s.feed(b"def"), Some(DownloadEvent::Progress { downloaded: 6, total_bytes: 6 }));
    let sha = "bef57ec7f53a6d40beb640a780a639c83bc29ac8a9816f1fc6c5c6dcd93c4721".to_string();
    assert_eq!(
        s.finish(None, "/m/q.gguf".to_string()),
        Ok((DownloadEvent::Verified { sha256: sha.clone() }, DownloadEvent::Finished { path: "/m/q.gguf".to_string() }))
    );
}

#[test]
fn download_checksum_compared_without_case() {
    let (mut s, _) = DownloadSession::start("u".to_string(), 0);
    assert_eq!(s.feed(b"abc"), None);
    let upper = "BA7816BF8F01CFEA414140DE5DAE2223B00361A396177A9CB410FF61F20015AD";
    assert!(s.finish(Some(upper), "p".to_string()).is_ok());
    let (mut s, _) = DownloadSession::start("u".to_string(), 0);
    s.feed(b"abd");
    assert_eq!(
        s.finish(Some(upper), "p".to_string()),
        Err(DownloadEvent::Error { message: "SHA256 mismatch \u{2014} file removed".to_string() })
    );
}

#[test]
fn embedding_responses() {
    assert_eq!(
        embedding_payloads(r#"{"data":[{"embedding":"AQIDBA=="},{"embedding":"AAAAAA=="}]}"#),
        Ok(vec![vec![1u8, 2, 3, 4], vec![0u8, 0, 0, 0]])
    );
    assert_eq!(embedding_payloads(r#"{"data":[]}"#), Err("embed response had no data items".to_string()));
    assert_eq!(embedding_payloads(r#"{"other":1}"#), Err("no data in embed response".to_string()));
    assert_eq!(embedding_payloads(r#"{"data":[{"vector":"AQID"}]}"#), Err("no embedding in data item".to_string()));
    assert_eq!(embedding_payloads(r#"{"data":[{"embedding":"AQID"}]}"#), Err("embedding bytes not aligned to f32".to_string()));
    assert!(embedding_payloads("[").is_err());
}

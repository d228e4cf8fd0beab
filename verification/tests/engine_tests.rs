use ragit::chat::{completion_content, stream_events, stream_port, ChatEvent};
use ragit::engine::{
    embed_dim, embed_dim_from, embed_port, embed_port_from, probe_dim_from_body, server_args,
    server_binary_in_archive, server_entry_in_archive, spawn_failure, spawn_ports, with_port, with_port_from, EngineState,
    EngineStatus, StartDecision,
};

#[test]
fn a_new_engine_serves_nothing() {
    let st = EngineState::new();
    assert!(!st.status.running);
    assert_eq!(with_port_from(&st), Err("engine not running".to_string()));
    assert_eq!(embed_port_from(&st), None);
    assert_eq!(embed_dim_from(&st), None);
    assert_eq!(with_port(None, |p| Ok::<u16, String>(p)), Err("app not initialized".to_string()));
    assert_eq!(with_port(Some(&st), |p| Ok::<u16, String>(p)), Err("engine not running".to_string()));
    assert_eq!(embed_port(None), None);
    assert_eq!(embed_dim(None), None);
}

#[test]
fn start_lifecycle() {
    let mut st = EngineState::new();
    assert!(matches!(st.begin_start(), StartDecision::Proceed));
    assert!(st.start_in_progress);
    assert!(matches!(st.begin_start(), StartDecision::Busy));
    st.chat_started("m.gguf".to_string(), 8080, Some(768));
    st.finish_start();
    assert_eq!(with_port_from(&st), Ok(8080));
    assert_eq!(with_port(Some(&st), |p| Ok::<u32, String>(p as u32 + 1)), Ok(8081));
    assert_eq!(embed_dim(Some(&st)), Some(768));
    match st.begin_start() {
        StartDecision::AlreadyRunning(s) => {
            assert!(s.running);
            assert_eq!(s.port, Some(8080));
            assert_eq!(s.model_path, Some("m.gguf".to_string()));
        }
        _ => panic!("expected the running status"),
    }
}

#[test]
fn embedding_server_start_and_failure() {
    let mut st = EngineState::new();
    st.chat_started("chat.gguf".to_string(), 9000, None);
    st.embed_started("embed.gguf".to_string(), 9001, Some(384));
    assert_eq!(embed_port(Some(&st)), Some(9001));
    assert_eq!(embed_dim_from(&st), Some(384));
    assert_eq!(with_port_from(&st), Ok(9000));
    st.embed_failed("no model");
    assert_eq!(st.status.backend, Some("chat up; embed failed: no model".to_string()));
    st.speed_measured();
    assert_eq!(st.status.backend, Some("llama.cpp".to_string()));
}

#[test]
fn health_probe_marks_a_dead_engine() {
    let mut st = EngineState::new();
    st.chat_started("m.gguf".to_string(), 8080, None);
    assert!(!st.health_check(true));
    assert!(st.status.running);
    assert!(st.health_check(false));
    assert!(!st.status.running);
    assert_eq!(st.status.port, None);
    assert_eq!(st.status.backend, Some("engine crashed".to_string()));
    assert_eq!(st.status.model_path, Some("m.gguf".to_string()));
    assert!(st.health_check(true));
}

#[test]
fn stop_clears_the_status() {
    let mut st = EngineState::new();
    st.chat_started("m.gguf".to_string(), 8080, Some(16));
    st.embed_started("e.gguf".to_string(), 8081, None);
    st.stop();
    assert!(!st.status.running);
    assert_eq!(st.status.port, None);
    assert_eq!(st.status.model_path, None);
    assert_eq!(st.status.embed_port, None);
    assert_eq!(st.status.embed_model, None);
    assert_eq!(st.embed_dim, Some(16));
    assert_eq!(with_port_from(&st), Err("engine not running".to_string()));
    let s = EngineStatus::stopped();
    assert!(!s.running && s.backend.is_none());
}

#[test]
fn candidate_ports() {
    assert_eq!(spawn_ports(8000), (8000u16..8010).collect::<Vec<_>>());
    assert_eq!(spawn_ports(65526).last(), Some(&65535));
}

#[test]
fn llama_server_arguments() {
    let args = server_args("C:\\models\\m.gguf", 8080, -1, 8192, "ragit-model", true);
    let want: Vec<String> = [
        "-m", "C:\\models\\m.gguf", "--port", "8080", "--host", "127.0.0.1", "-ngl", "-1", "-c",
        "8192", "--alias", "ragit-model", "--embedding",
    ]
    .iter()
    .map(|s| s.to_string())
    .collect();
    assert_eq!(args, want);
    assert_eq!(server_args("m", 1, 33, 0, "a", false).len(), 12);
}

#[test]
fn embedding_dimension_probe() {
    assert_eq!(probe_dim_from_body(r#"{"data":[{"embedding":"AAAAAAAAAAAAAAAA"}]}"#), Ok(3));
    assert_eq!(
        probe_dim_from_body(r#"{"data":[{"embedding":"AQID"}]}"#),
        Err("probe embedding bytes not aligned to f32".to_string())
    );
    assert_eq!(
        probe_dim_from_body(r#"{"data":[]}"#),
        Err("no embedding in probe response".to_string())
    );
    assert!(probe_dim_from_body(r#"{"data":[{"embedding":"!!"}]}"#).is_err());
    assert!(probe_dim_from_body("not json").is_err());
}

#[test]
fn spawn_failures_retry_then_give_up() {
    assert_eq!(spawn_failure(0, "busy"), None);
    assert_eq!(spawn_failure(8, "busy"), None);
    assert_eq!(spawn_failure(9, "boom"), Some("failed to start engine: boom".to_string()));
}

fn archive(entries: &[(&str, &[u8])]) -> Vec<u8> {
    let mut w = zip::ZipWriter::new(std::io::Cursor::new(Vec::new()));
    for (name, content) in entries {
        w.start_file(*name, zip::write::SimpleFileOptions::default()).unwrap();
        std::io::Write::write_all(&mut w, content).unwrap();
    }
    w.finish().unwrap().into_inner()
}

#[test]
fn server_binary_entry() {
    let bytes = archive(&[("README.md", b"read me"), ("LLAMA-SERVER.EXE", b"MZ1"), ("llama-server.exe", b"MZ2")]);
    assert_eq!(server_entry_in_archive(&bytes), Some(Some(1)));
    assert_eq!(server_binary_in_archive(&bytes), Some(Some(b"MZ1".to_vec())));
    let none = archive(&[("llama-cli.exe", b"MZ")]);
    assert_eq!(server_entry_in_archive(&none), Some(None));
    assert_eq!(server_binary_in_archive(&none), Some(None));
    assert_eq!(server_entry_in_archive(b"not a zip"), None);
    assert_eq!(server_binary_in_archive(b"not a zip"), None);
}

#[test]
fn streamed_tokens_until_done() {
    let body = "data: {\"choices\":[{\"delta\":{\"content\":\"Hel\"}}]}\n\n\
                data:{\"choices\":[{\"delta\":{\"content\":\"lo\"}}]}\r\n\
                : keep-alive\n\
                data: {\"choices\":[{\"delta\":{\"content\":\"\"}}]}\n\
                data: {\"choices\":[{\"delta\":{}}]}\n\
                data: not json\n\
                data: [DONE]\n\
                data: {\"choices\":[{\"delta\":{\"content\":\"ignored\"}}]}\n";
    assert_eq!(
        stream_events(body),
        vec![
            ChatEvent::Token { text: "Hel".to_string() },
            ChatEvent::Token { text: "lo".to_string() },
            ChatEvent::Done { tokens: 2 },
        ]
    );
    assert_eq!(stream_events(""), vec![ChatEvent::Done { tokens: 0 }]);
}

#[test]
fn complete_answers() {
    assert_eq!(
        completion_content(r#"{"choices":[{"message":{"role":"assistant","content":"Hi!"}}]}"#),
        Ok("Hi!".to_string())
    );
    assert_eq!(
        completion_content(r#"{"choices":[]}"#),
        Err("completion response missing content".to_string())
    );
    assert!(completion_content("{").is_err());
}

#[test]
fn stream_port_needs_a_running_engine() {
    let mut st = EngineState::new();
    assert_eq!(stream_port(&st.status), None);
    st.status.running = true;
    assert_eq!(stream_port(&st.status), Some(11435));
    st.status.port = Some(7000);
    assert_eq!(stream_port(&st.status), Some(7000));
}

#[test]
fn the_last_successful_probe_sets_the_dimension() {
    let mut st = EngineState::new();
    assert_eq!(embed_dim(Some(&st)), None);
    st.chat_started("chat.gguf".to_string(), 8080, Some(4096));
    st.embed_started("embed.gguf".to_string(), 8090, Some(768));
    assert_eq!(embed_dim(Some(&st)), Some(768));
    st.stop();
    st.chat_started("chat.gguf".to_string(), 8080, None);
    st.embed_failed("no port");
    st.finish_start();
    assert_eq!(embed_dim(Some(&st)), Some(768));
}

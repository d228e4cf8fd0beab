use ragit::chat::ChatMessage;
use ragit::rag::indexer::{
    chunk_and_summarize, files_to_index, final_level, index_level, next_control, prepare_text,
    scheduler_interval, scheduler_message, start_message, structural_chunks, summarize_chunk, summary_port,
    summary_prompt, team_rag_answer, usable_text, wants_embeddings, IndexRun, IndexerState, Scheduler,
    RunControl,
};

fn strings(v: &[&str]) -> Vec<String> {
    v.iter().map(|s| s.to_string()).collect()
}

#[test]
fn fresh_runs_cover_every_file_in_order() {
    assert_eq!(files_to_index(strings(&["b.md", "a.md", "c.md"]), None), strings(&["a.md", "b.md", "c.md"]));
    assert_eq!(files_to_index(vec![], None), Vec::<String>::new());
}

#[test]
fn resumed_runs_skip_up_to_and_including_the_cursor() {
    let files = strings(&["/d/c.txt", "/d/a.txt", "/d/b.txt", "/d/d.txt"]);
    assert_eq!(files_to_index(files.clone(), Some("/d/b.txt".to_string())), strings(&["/d/c.txt", "/d/d.txt"]));
    assert_eq!(files_to_index(files.clone(), Some("/d/bb".to_string())), strings(&["/d/c.txt", "/d/d.txt"]));
    assert_eq!(files_to_index(files, Some("/z".to_string())), Vec::<String>::new());
}

#[test]
fn job_controls() {
    let mut st = IndexerState::new();
    assert!(!st.is_paused("lib"));
    assert_eq!(st.set_paused("lib", true), Err("no active job for 'lib'".to_string()));
    assert_eq!(st.cancel("lib"), Err("no active job for 'lib'".to_string()));
    st.start_job("lib");
    st.start_job("other");
    assert_eq!(st.set_paused("lib", true), Ok(()));
    assert!(st.is_paused("lib"));
    assert!(!st.is_paused("other"));
    assert_eq!(st.set_paused("lib", false), Ok(()));
    assert!(!st.is_paused("lib"));
    assert_eq!(st.cancel("lib"), Ok(()));
    assert!(st.is_canceled("lib"));
    assert!(!st.is_canceled("other"));
    st.start_job("lib");
    assert!(!st.is_canceled("lib"));
    st.remove_job("lib");
    assert_eq!(st.set_paused("lib", true), Err("no active job for 'lib'".to_string()));
    assert_eq!(st.set_paused("other", true), Ok(()));
}

#[test]
fn run_reports() {
    let mut run = IndexRun::new("docs".to_string(), 2, 4);
    let p = run.indexing("a.txt");
    assert_eq!((p.status.as_str(), p.message.as_str(), p.current_file.as_str()), ("running", "Indexing a.txt", "a.txt"));
    assert_eq!(p.processed, 0);
    let p = run.file_indexed("a.txt", 3);
    assert_eq!(p.message, "a.txt: 3 chunks @ L4");
    assert_eq!((p.processed, p.total, p.level), (1, 2, 4));
    assert_eq!(p.library_id, "docs");
    let p = run.paused();
    assert_eq!((p.status.as_str(), p.message.as_str(), p.current_file.as_str()), ("paused", "Paused", ""));
    let p = run.canceled();
    assert_eq!((p.status.as_str(), p.message.as_str()), ("canceled", "Job canceled"));
    let p = run.done();
    assert_eq!((p.status.as_str(), p.message.as_str()), ("done", "Indexed 1/2 files"));
}

#[test]
fn controls_of_a_run() {
    assert_eq!(next_control(false, false, false), RunControl::Go);
    assert_eq!(next_control(true, false, false), RunControl::Wait);
    assert_eq!(next_control(true, true, false), RunControl::Cancel);
    assert_eq!(next_control(true, true, true), RunControl::Abort);
    assert_eq!(next_control(false, false, true), RunControl::Go);
}

#[test]
fn depth_levels() {
    assert_eq!(index_level(None), 4);
    assert_eq!(index_level(Some(0)), 1);
    assert_eq!(index_level(Some(3)), 3);
    assert_eq!(index_level(Some(9)), 5);
    assert_eq!(start_message(3, "docs", 4), "Started indexing 3 files into 'docs' at level 4");
}

#[test]
fn text_selection() {
    assert!(!usable_text(&Some(" \n".to_string())));
    assert!(usable_text(&Some("x".to_string())));
    assert_eq!(prepare_text(Some("doc".to_string()), Some("media".to_string())), Ok("doc".to_string()));
    assert_eq!(prepare_text(Some("  ".to_string()), Some("media".to_string())), Ok("media".to_string()));
    assert_eq!(
        prepare_text(None, Some("\t".to_string())),
        Err("unsupported, empty, or tool-unavailable file".to_string())
    );
}

#[test]
fn structural_levels() {
    let (c, a) = structural_chunks("  raw text ", 1);
    assert_eq!((c, a), (strings(&["raw text"]), 1));
    let (c, a) = structural_chunks("# T\nbody\n", 4);
    assert_eq!((c, a), (strings(&["[section: T]\nbody\n"]), 2));
}

#[test]
fn summaries() {
    let p = summary_prompt("the passage");
    assert_eq!(p.len(), 1);
    assert_eq!(p[0].role, "user");
    assert_eq!(
        p[0].content,
        "Summarize the following passage in ONE concise sentence. Reply with only the summary.\n\nthe passage"
    );
    assert_eq!(summarize_chunk("chunk", Some("  A sentence.  ")), "[summary: A sentence.]\nchunk");
    assert_eq!(summarize_chunk("chunk", Some(" \n")), "chunk");
    assert_eq!(summarize_chunk("chunk", None), "chunk");
}

#[test]
fn deeper_levels() {
    let chunks = strings(&["Alice went home", "nothing here"]);
    let (c, a) = chunk_and_summarize(chunks.clone(), 2, 5, Some(vec![Some("S".to_string()), None]));
    assert_eq!(a, 5);
    assert_eq!(c, strings(&["[summary: S]\nAlice went home\n[entities: Alice]", "nothing here"]));
    let (c, a) = chunk_and_summarize(chunks.clone(), 2, 3, Some(vec![None, Some("T".to_string())]));
    assert_eq!((c, a), (strings(&["Alice went home", "[summary: T]\nnothing here"]), 3));
    let (c, a) = chunk_and_summarize(chunks.clone(), 2, 4, None);
    assert_eq!((c, a), (chunks.clone(), 2));
    let (c, a) = chunk_and_summarize(chunks.clone(), 2, 5, None);
    assert_eq!((c, a), (chunks.clone(), 2));
    let (c, a) = chunk_and_summarize(chunks, 1, 2, Some(vec![None, None]));
    assert_eq!(a, 1);
    assert_eq!(c.len(), 2);
}

#[test]
fn without_engine_a_run_stops_at_structure() {
    let text = "# Title\nAlice met Bob\n";
    let (chunks, achieved) = structural_chunks(text, 5);
    assert_eq!(achieved, 2);
    assert_eq!(summary_port(5, None, None), None);
    let (c, a) = chunk_and_summarize(chunks.clone(), achieved, 5, None);
    assert_eq!((c, a), (chunks, 2));
}

#[test]
fn stored_levels() {
    assert_eq!(final_level(4, true, 2), 4);
    assert_eq!(final_level(5, true, 5), 4);
    assert_eq!(final_level(4, false, 5), 3);
    assert_eq!(final_level(3, true, 3), 3);
    assert_eq!(final_level(2, false, 2), 2);
    assert!(wants_embeddings(4) && !wants_embeddings(3));
}

#[test]
fn scheduler() {
    assert_eq!(scheduler_interval(None), 60);
    assert_eq!(scheduler_interval(Some(5)), 10);
    assert_eq!(scheduler_interval(Some(300)), 300);
    assert_eq!(
        scheduler_message("docs", true, 60),
        "Scheduler enabled for 'docs' every 60s (re-indexes pending/error files)"
    );
    assert_eq!(scheduler_message("docs", false, 60), "Scheduler disabled for 'docs'");
}

#[test]
fn team_answers_carry_the_context() {
    let m = team_rag_answer("ctx", "why?");
    assert_eq!(
        m,
        vec![
            ChatMessage {
                role: "system".to_string(),
                content: "Answer using the following context. Cite sources by file name.\n\nctx".to_string()
            },
            ChatMessage { role: "user".to_string(), content: "why?".to_string() },
        ]
    );
    assert_eq!(team_rag_answer("", "q"), vec![ChatMessage { role: "user".to_string(), content: "q".to_string() }]);
}

#[test]
fn summaries_go_to_the_embedding_server_first() {
    assert_eq!(summary_port(2, Some(1), Some(2)), None);
    assert_eq!(summary_port(3, Some(1), Some(2)), Some(1));
    assert_eq!(summary_port(5, None, Some(2)), Some(2));
    assert_eq!(summary_port(4, None, None), None);
}

#[test]
fn turning_a_scheduler_off_or_on_again_stops_the_earlier_one() {
    let mut s = Scheduler::new();
    assert!(!s.goes_on("docs", 1));
    let first = s.enable("docs").unwrap();
    let other = s.enable("notes").unwrap();
    assert!(s.goes_on("docs", first));
    let second = s.enable("docs").unwrap();
    assert_ne!(first, second);
    assert!(!s.goes_on("docs", first));
    assert!(s.goes_on("docs", second));
    s.disable("docs");
    assert!(!s.goes_on("docs", second));
    assert!(!s.goes_on("docs", 0));
    assert!(s.goes_on("notes", other));
}

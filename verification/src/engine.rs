//! The local inference engine: what the application knows of the running
//! chat and embedding servers, and the decisions around starting, watching
//! and stopping them.
use vstd::prelude::*;

use vstd::utf8::encode_utf8;

use crate::chat::{json_str_at, spec_json_str_at};
use crate::team::{b64_decode, spec_b64_decode};
use crate::rag::media::{
    spec_zip_entry_bytes, spec_zip_len, spec_zip_name, spec_zip_names, spec_zip_source, zip_len,
    zip_name, zip_open, zip_read_bytes,
};
use crate::text::{
    ascii_lower, chars_of, int_decimal, nat_decimal, opt_string_view, push_decimal,
    push_signed_decimal, push_str, string_views,
};

verus! {

/// What the application reports about the engine. (The measured speed, a
/// float, is not part of this record.)
#[derive(Debug, Clone)]
pub struct EngineStatus {
    pub running: bool,
    pub model_path: Option<String>,
    pub port: Option<u16>,
    pub backend: Option<String>,
    pub embed_model: Option<String>,
    pub embed_port: Option<u16>,
}

/// The engine's bookkeeping: its status, whether a start is under way, and
/// the embedding dimension probed at start.
#[derive(Debug)]
pub struct EngineState {
    pub status: EngineStatus,
    pub start_in_progress: bool,
    pub embed_dim: Option<usize>,
}

/// The status of an engine that does not run.
pub open spec fn stopped_status() -> EngineStatus {
    EngineStatus {
        running: false,
        model_path: None,
        port: None,
        backend: None,
        embed_model: None,
        embed_port: None,
    }
}

/// The message of a request that needs the engine while it does not run.
pub open spec fn not_running_message() -> Seq<char> {
    "engine not running"@
}

/// The message of a request made before the application has its state.
pub open spec fn not_initialized_message() -> Seq<char> {
    "app not initialized"@
}

/// The port of the chat server, or why there is none.
pub open spec fn spec_with_port(s: EngineState) -> Result<u16, Seq<char>> {
    match s.status.port {
        Some(p) => Ok(p),
        None => Err(not_running_message()),
    }
}

/// A copy of an optional string.
fn copy_opt(o: &Option<String>) -> (r: Option<String>)
    ensures
        r == *o,
{
    match o {
        Some(s) => Some(s.clone()),
        None => None,
    }
}

impl EngineStatus {
    /// The status of an engine that does not run.
    pub fn stopped() -> (s: EngineStatus)
        ensures
            s == stopped_status(),
    {
        EngineStatus {
            running: false,
            model_path: None,
            port: None,
            backend: None,
            embed_model: None,
            embed_port: None,
        }
    }

    /// A copy of this status.
    pub fn copy(&self) -> (s: EngineStatus)
        ensures
            s == *self,
    {
        EngineStatus {
            running: self.running,
            model_path: copy_opt(&self.model_path),
            port: self.port,
            backend: copy_opt(&self.backend),
            embed_model: copy_opt(&self.embed_model),
            embed_port: self.embed_port,
        }
    }
}

/// The port of the chat server, or why there is none.
pub fn with_port_from(state: &EngineState) -> (r: Result<u16, String>)
    ensures
        match r {
            Ok(p) => spec_with_port(*state) == Ok::<u16, Seq<char>>(p),
            Err(m) => spec_with_port(*state) == Err::<u16, Seq<char>>(m@),
        },
{
    match state.status.port {
        Some(p) => Ok(p),
        None => Err("engine not running".to_owned()),
    }
}

/// The port of the dedicated embedding server, if one runs.
pub fn embed_port_from(state: &EngineState) -> (r: Option<u16>)
    ensures
        r == state.status.embed_port,
{
    state.status.embed_port
}

/// The embedding dimension probed when the engine started.
pub fn embed_dim_from(state: &EngineState) -> (r: Option<usize>)
    ensures
        r == state.embed_dim,
{
    state.embed_dim
}

/// Run `f` with the port of the chat server; an error when the application
/// has no state yet (`state` is `None`) or the engine does not run.
pub fn with_port<F, T>(state: Option<&EngineState>, f: F) -> (r: Result<T, String>) where
    F: FnOnce(u16) -> Result<T, String>,

    requires
        forall|p: u16| f.requires((p,)),
    ensures
        match state {
            None => r matches Err(m) && m@ == not_initialized_message(),
            Some(s) => match s.status.port {
                None => r matches Err(m) && m@ == not_running_message(),
                Some(p) => f.ensures((p,), r),
            },
        },
{
    match state {
        None => Err("app not initialized".to_owned()),
        Some(s) => match with_port_from(s) {
            Err(m) => Err(m),
            Ok(p) => f(p),
        },
    }
}

/// The port of the dedicated embedding server (no fallback to the chat server).
pub fn embed_port(state: Option<&EngineState>) -> (r: Option<u16>)
    ensures
        r == match state {
            None => None,
            Some(s) => s.status.embed_port,
        },
{
    match state {
        None => None,
        Some(s) => embed_port_from(s),
    }
}

/// The stored embedding dimension, probed on engine start.
pub fn embed_dim(state: Option<&EngineState>) -> (r: Option<usize>)
    ensures
        r == match state {
            None => None,
            Some(s) => s.embed_dim,
        },
{
    match state {
        None => None,
        Some(s) => embed_dim_from(s),
    }
}

/// What a start request finds.
#[derive(Debug)]
pub enum StartDecision {
    /// The engine runs already; this is its status.
    AlreadyRunning(EngineStatus),
    /// Another start is under way.
    Busy,
    /// The caller may start the servers; the start is now marked as under way.
    Proceed,
}

/// The message of a start request refused because another start is under way.
pub open spec fn busy_message() -> Seq<char> {
    "Engine start already in progress"@
}

/// The state after the chat server came up on `port` with `model`.
pub open spec fn spec_chat_started(
    s: EngineState,
    model: String,
    port: u16,
    dim: Option<usize>,
) -> EngineState {
    EngineState {
        status: EngineStatus {
            running: true,
            model_path: Some(model),
            port: Some(port),
            ..s.status
        },
        embed_dim: match dim {
            Some(d) => Some(d),
            None => s.embed_dim,
        },
        ..s
    }
}

/// The state after the embedding server came up on `port` with `model`.
pub open spec fn spec_embed_started(
    s: EngineState,
    model: String,
    port: u16,
    dim: Option<usize>,
) -> EngineState {
    EngineState {
        status: EngineStatus { embed_model: Some(model), embed_port: Some(port), ..s.status },
        embed_dim: match dim {
            Some(d) => Some(d),
            None => s.embed_dim,
        },
        ..s
    }
}

/// The backend note left when the chat server runs but the embedding
/// server failed to start.
pub open spec fn embed_failed_note(err: Seq<char>) -> Seq<char> {
    "chat up; embed failed: "@ + err
}

/// The state after a stop: nothing runs; the probed dimension stays.
pub open spec fn spec_stop(s: EngineState) -> EngineState {
    EngineState { status: stopped_status(), ..s }
}

/// A running engine with a port whose port did not answer the probe.
pub open spec fn found_dead(s: EngineState, listening: bool) -> bool {
    s.status.running && s.status.port is Some && !listening
}

/// `after` is `before` marked as crashed: not running, no chat port, the
/// backend note "engine crashed", everything else kept.
pub open spec fn crashed_from(before: EngineState, after: EngineState) -> bool {
    &&& !after.status.running
    &&& after.status.port is None
    &&& after.status.backend matches Some(b) && b@ == "engine crashed"@
    &&& after.status.model_path == before.status.model_path
    &&& after.status.embed_model == before.status.embed_model
    &&& after.status.embed_port == before.status.embed_port
    &&& after.start_in_progress == before.start_in_progress
    &&& after.embed_dim == before.embed_dim
}

/// Whether the health probe stops watching after this round.
pub open spec fn spec_health_done(s: EngineState, listening: bool) -> bool {
    !s.status.running || s.status.port is None || !listening
}

/// One step of the engine's bookkeeping, as the application takes it while
/// starting, watching and stopping the servers. A server start carries the
/// embedding dimension its probe reported, if any.
#[derive(Debug, Clone, Copy, PartialEq, Eq)]
pub enum EngineStep {
    /// A start request was decided (`EngineState::begin_start`).
    BeginStart,
    /// The chat server came up (`EngineState::chat_started`).
    ChatStarted(Option<usize>),
    /// The embedding server came up (`EngineState::embed_started`).
    EmbedStarted(Option<usize>),
    /// A backend note was left (`embed_failed`, `speed_measured`).
    BackendNote,
    /// The start is over (`EngineState::finish_start`).
    FinishStart,
    /// A round of the health probe (`EngineState::health_check`).
    HealthCheck,
    /// The engine was stopped (`EngineState::stop`).
    Stop,
}

/// `after` is what the step `step` makes of `before`.
pub open spec fn engine_step(before: EngineState, step: EngineStep, after: EngineState) -> bool {
    match step {
        EngineStep::BeginStart => after == before || after == (EngineState {
            start_in_progress: true,
            ..before
        }),
        EngineStep::ChatStarted(dim) => exists|model: String, port: u16|
            after == #[trigger] spec_chat_started(before, model, port, dim),
        EngineStep::EmbedStarted(dim) => exists|model: String, port: u16|
            after == #[trigger] spec_embed_started(before, model, port, dim),
        EngineStep::BackendNote => after == (EngineState {
            status: EngineStatus { backend: after.status.backend, ..before.status },
            ..before
        }),
        EngineStep::FinishStart => after == (EngineState { start_in_progress: false, ..before }),
        EngineStep::HealthCheck => after == before || crashed_from(before, after),
        EngineStep::Stop => after == spec_stop(before),
    }
}

/// The dimension reported by the last probe among `steps` that reported
/// one, if any.
pub open spec fn last_probe(steps: Seq<EngineStep>) -> Option<usize>
    decreases steps.len(),
{
    if steps.len() == 0 {
        None
    } else {
        match steps.last() {
            EngineStep::ChatStarted(Some(d)) => Some(d),
            EngineStep::EmbedStarted(Some(d)) => Some(d),
            _ => last_probe(steps.drop_last()),
        }
    }
}

/// Over any sequence of steps, the stored embedding dimension is the one
/// reported by the last probe that reported one (the embedding server's
/// probe, coming after the chat server's, wins over it); with no such probe
/// it is the dimension stored before, so an engine that starts from nothing
/// has none until a probe succeeds.
pub proof fn lemma_embed_dim_is_last_probe(states: Seq<EngineState>, steps: Seq<EngineStep>)
    requires
        states.len() == steps.len() + 1,
        forall|i: int| 0 <= i < steps.len() ==> engine_step(states[i], #[trigger] steps[i], states[i + 1]),
    ensures
        states.last().embed_dim == match last_probe(steps) {
            Some(d) => Some(d),
            None => states[0].embed_dim,
        },
    decreases steps.len(),
{
    if steps.len() > 0 {
        let k = steps.len() - 1;
        let ss = states.drop_last();
        let st = steps.drop_last();
        assert forall|i: int| 0 <= i < st.len() implies engine_step(ss[i], #[trigger] st[i], ss[i + 1]) by {
            assert(st[i] == steps[i]);
            assert(ss[i] == states[i] && ss[i + 1] == states[i + 1]);
        }
        lemma_embed_dim_is_last_probe(ss, st);
        assert(engine_step(states[k], steps[k], states[k + 1]));
        assert(ss.last() == states[k]);
        assert(states.last() == states[k + 1]);
        match steps[k] {
            EngineStep::ChatStarted(dim) => {
                let (model, port) = choose|model: String, port: u16|
                    states[k + 1] == #[trigger] spec_chat_started(states[k], model, port, dim);
            },
            EngineStep::EmbedStarted(dim) => {
                let (model, port) = choose|model: String, port: u16|
                    states[k + 1] == #[trigger] spec_embed_started(states[k], model, port, dim);
            },
            _ => {},
        }
    }
}

impl EngineState {
    /// No engine runs and no start is under way.
    pub fn new() -> (s: EngineState)
        ensures
            s.status == stopped_status(),
            !s.start_in_progress,
            s.embed_dim is None,
    {
        EngineState { status: EngineStatus::stopped(), start_in_progress: false, embed_dim: None }
    }

    /// Decide a start request: a running engine is reported as it is, a
    /// start under way refuses another, otherwise the start is marked as
    /// under way.
    pub fn begin_start(&mut self) -> (d: StartDecision)
        ensures
            old(self).status.running ==> (d matches StartDecision::AlreadyRunning(st) && st
                == old(self).status) && *final(self) == *old(self),
            !old(self).status.running && old(self).start_in_progress ==> d is Busy && *final(self)
                == *old(self),
            !old(self).status.running && !old(self).start_in_progress ==> d is Proceed
                && *final(self) == (EngineState { start_in_progress: true, ..*old(self) }),
            engine_step(*old(self), EngineStep::BeginStart, *final(self)),
    {
        if self.status.running {
            return StartDecision::AlreadyRunning(self.status.copy());
        }
        if self.start_in_progress {
            return StartDecision::Busy;
        }
        self.start_in_progress = true;
        StartDecision::Proceed
    }

    /// Record that the chat server runs on `port` with `model`, and the
    /// embedding dimension it reported, if any.
    pub fn chat_started(&mut self, model: String, port: u16, dim: Option<usize>)
        ensures
            *final(self) == spec_chat_started(*old(self), model, port, dim),
            engine_step(*old(self), EngineStep::ChatStarted(dim), *final(self)),
    {
        self.status.running = true;
        self.status.model_path = Some(model);
        self.status.port = Some(port);
        if let Some(d) = dim {
            self.embed_dim = Some(d);
        }
    }

    /// Record that the embedding server runs on `port` with `model`, and the
    /// dimension it reported, if any.
    pub fn embed_started(&mut self, model: String, port: u16, dim: Option<usize>)
        ensures
            *final(self) == spec_embed_started(*old(self), model, port, dim),
            engine_step(*old(self), EngineStep::EmbedStarted(dim), *final(self)),
    {
        self.status.embed_model = Some(model);
        self.status.embed_port = Some(port);
        if let Some(d) = dim {
            self.embed_dim = Some(d);
        }
    }

    /// Record that the embedding server failed to start with `err`.
    pub fn embed_failed(&mut self, err: &str)
        ensures
            final(self).status.backend matches Some(b) && b@ == embed_failed_note(err@),
            *final(self) == (EngineState {
                status: EngineStatus { backend: final(self).status.backend, ..old(self).status },
                ..*old(self)
            }),
            engine_step(*old(self), EngineStep::BackendNote, *final(self)),
    {
        let mut note = "chat up; embed failed: ".to_owned();
        push_str(&mut note, err);
        self.status.backend = Some(note);
    }

    /// Record that a speed measurement went through the llama.cpp backend.
    pub fn speed_measured(&mut self)
        ensures
            final(self).status.backend matches Some(b) && b@ == "llama.cpp"@,
            *final(self) == (EngineState {
                status: EngineStatus { backend: final(self).status.backend, ..old(self).status },
                ..*old(self)
            }),
            engine_step(*old(self), EngineStep::BackendNote, *final(self)),
    {
        self.status.backend = Some("llama.cpp".to_owned());
    }

    /// The start is over, whether it succeeded or not.
    pub fn finish_start(&mut self)
        ensures
            *final(self) == (EngineState { start_in_progress: false, ..*old(self) }),
            engine_step(*old(self), EngineStep::FinishStart, *final(self)),
    {
        self.start_in_progress = false;
    }

    /// One round of the health probe; `listening` tells whether the chat
    /// port answered. Returns whether the probe stops watching: the engine
    /// no longer runs, has no port, or has just been found dead.
    pub fn health_check(&mut self, listening: bool) -> (done: bool)
        ensures
            found_dead(*old(self), listening) ==> crashed_from(*old(self), *final(self)),
            !found_dead(*old(self), listening) ==> *final(self) == *old(self),
            done == spec_health_done(*old(self), listening),
            engine_step(*old(self), EngineStep::HealthCheck, *final(self)),
    {
        if !self.status.running {
            return true;
        }
        match self.status.port {
            None => true,
            Some(_) => {
                if !listening {
                    self.status.running = false;
                    self.status.port = None;
                    self.status.backend = Some("engine crashed".to_owned());
                    true
                } else {
                    false
                }
            },
        }
    }

    /// Stop: nothing runs any more.
    pub fn stop(&mut self)
        ensures
            *final(self) == spec_stop(*old(self)),
            engine_step(*old(self), EngineStep::Stop, *final(self)),
    {
        self.status = EngineStatus::stopped();
    }
}

/// A stopped engine serves no request, and an engine whose chat server came
/// up on a port serves requests on that port.
pub proof fn lemma_port_follows_lifecycle(
    s: EngineState,
    model: String,
    port: u16,
    dim: Option<usize>,
)
    ensures
        spec_with_port(spec_stop(s)) == Err::<u16, Seq<char>>(not_running_message()),
        spec_with_port(spec_chat_started(s, model, port, dim)) == Ok::<u16, Seq<char>>(port),
        !spec_stop(s).status.running,
        spec_chat_started(s, model, port, dim).status.running,
{
}

/// An engine found dead by the health probe serves no request, and the
/// probe then stops watching; while the port answers the probe goes on.
pub proof fn lemma_health_probe(before: EngineState, after: EngineState, listening: bool)
    requires
        before.status.running,
        before.status.port is Some,
    ensures
        !listening && crashed_from(before, after) ==> spec_with_port(after) == Err::<
            u16,
            Seq<char>,
        >(not_running_message()) && spec_health_done(before, listening),
        listening ==> !found_dead(before, listening) && !spec_health_done(before, listening),
{
}

/// Starting the embedding server, or its failure, leaves the chat port alone.
pub proof fn lemma_embed_leaves_chat_port(
    s: EngineState,
    model: String,
    port: u16,
    dim: Option<usize>,
)
    ensures
        spec_with_port(spec_embed_started(s, model, port, dim)) == spec_with_port(s),
{
}

// ---------------------------------------------------------------------------
// Starting a server
// ---------------------------------------------------------------------------

/// The ports a server start tries, in order: ten ports from `port` on.
pub open spec fn spec_spawn_ports(port: u16) -> Seq<u16> {
    Seq::new(10, |i: int| (port + i) as u16)
}

/// The ports a server start tries, in order: ten ports from `port` on
/// (`port` leaves room for all ten below 65536).
pub fn spawn_ports(port: u16) -> (r: Vec<u16>)
    requires
        port <= 65526,
    ensures
        r@ == spec_spawn_ports(port),
{
    let mut r: Vec<u16> = Vec::new();
    let mut attempt: u16 = 0;
    while attempt < 10
        invariant
            attempt <= 10,
            port <= 65526,
            r@ == Seq::new(attempt as nat, |i: int| (port + i) as u16),
        decreases 10 - attempt,
    {
        r.push(port + attempt);
        attempt = attempt + 1;
        assert(r@ =~= Seq::new(attempt as nat, |i: int| (port + i) as u16));
    }
    r
}

/// The command-line arguments of a llama-server instance.
pub open spec fn spec_server_args(
    model: Seq<char>,
    port: u16,
    gpu_layers: i32,
    ctx: usize,
    alias: Seq<char>,
    embedding: bool,
) -> Seq<Seq<char>> {
    let base = seq![
        "-m"@,
        model,
        "--port"@,
        nat_decimal(port as nat),
        "--host"@,
        "127.0.0.1"@,
        "-ngl"@,
        int_decimal(gpu_layers as int),
        "-c"@,
        nat_decimal(ctx as nat),
        "--alias"@,
        alias,
    ];
    if embedding {
        base.push("--embedding"@)
    } else {
        base
    }
}

/// A string holding the decimal digits of `n`.
fn decimal(n: u64) -> (s: String)
    ensures
        s@ == nat_decimal(n as nat),
{
    let mut s = String::new();
    push_decimal(&mut s, n);
    assert(s@ =~= nat_decimal(n as nat));
    s
}

/// The command-line arguments of a llama-server instance serving `model`
/// on `port` of the loopback interface.
pub fn server_args(
    model: &str,
    port: u16,
    gpu_layers: i32,
    ctx: usize,
    alias: &str,
    embedding: bool,
) -> (r: Vec<String>)
    ensures
        string_views(r@) == spec_server_args(model@, port, gpu_layers, ctx, alias@, embedding),
{
    let mut layers = String::new();
    push_signed_decimal(&mut layers, gpu_layers as i64);
    assert(layers@ =~= int_decimal(gpu_layers as int));
    let mut r: Vec<String> = Vec::new();
    r.push("-m".to_owned());
    r.push(model.to_owned());
    r.push("--port".to_owned());
    r.push(decimal(port as u64));
    r.push("--host".to_owned());
    r.push("127.0.0.1".to_owned());
    r.push("-ngl".to_owned());
    r.push(layers);
    r.push("-c".to_owned());
    r.push(decimal(ctx as u64));
    r.push("--alias".to_owned());
    r.push(alias.to_owned());
    if embedding {
        r.push("--embedding".to_owned());
    }
    assert(string_views(r@) =~= spec_server_args(model@, port, gpu_layers, ctx, alias@, embedding));
    r
}

/// The JSON pointer of the first embedding of an embeddings response.
pub open spec fn embedding_pointer() -> Seq<char> {
    "/data/0/embedding"@
}

/// The embedding dimension that a probe response body reports: its first
/// embedding, Base64 of little-endian 32-bit floats, holds a whole number
/// of floats.
pub open spec fn spec_probe_dim(body: Seq<char>) -> Result<nat, Seq<char>> {
    match spec_json_str_at(body, embedding_pointer()) {
        Err(e) => Err(e),
        Ok(None) => Err("no embedding in probe response"@),
        Ok(Some(b)) => match spec_b64_decode(encode_utf8(b)) {
            Err(e) => Err(e),
            Ok(bytes) => if bytes.len() % 4 != 0 {
                Err("probe embedding bytes not aligned to f32"@)
            } else {
                Ok(bytes.len() / 4)
            },
        },
    }
}

/// The embedding dimension of a probe response body.
pub fn probe_dim_from_body(body: &str) -> (r: Result<usize, String>)
    ensures
        match r {
            Ok(d) => spec_probe_dim(body@) == Ok::<nat, Seq<char>>(d as nat),
            Err(e) => spec_probe_dim(body@) == Err::<nat, Seq<char>>(e@),
        },
{
    let b = match json_str_at(body, "/data/0/embedding") {
        Err(e) => return Err(e),
        Ok(None) => return Err("no embedding in probe response".to_owned()),
        Ok(Some(b)) => b,
    };
    let bytes = match b64_decode(b.as_str()) {
        Err(e) => return Err(e),
        Ok(v) => v,
    };
    if bytes.len() % 4 != 0 {
        return Err("probe embedding bytes not aligned to f32".to_owned());
    }
    Ok(bytes.len() / 4)
}

/// What a failed attempt to spawn the server on a candidate port leads to:
/// the next port is tried, except after the last of the ten attempts,
/// when the start fails with the spawn error.
pub open spec fn spec_spawn_failure(attempt: u16, err: Seq<char>) -> Option<Seq<char>> {
    if attempt < 9 {
        None
    } else {
        Some("failed to start engine: "@ + err)
    }
}

/// What a failed spawn on attempt `attempt` (counted from 0) leads to:
/// `None` to try the next port, or the error that ends the start.
pub fn spawn_failure(attempt: u16, err: &str) -> (r: Option<String>)
    ensures
        opt_string_view(r) == spec_spawn_failure(attempt, err@),
{
    if attempt < 9 {
        None
    } else {
        let mut m = "failed to start engine: ".to_owned();
        push_str(&mut m, err);
        Some(m)
    }
}

/// The server binary's entry in the release archive, named without regard
/// to ASCII case.
pub open spec fn is_server_entry(name: Seq<char>) -> bool {
    name.map_values(|c: char| ascii_lower(c)) == "llama-server.exe"@
}

/// Whether `name` is the server binary's entry.
fn server_entry_name(name: &str) -> (b: bool)
    ensures
        b == is_server_entry(name@),
{
    let cs = chars_of(name);
    let want = chars_of("llama-server.exe");
    proof {
        reveal_strlit("llama-server.exe");
    }
    if cs.len() != want.len() {
        assert(name@.map_values(|c: char| ascii_lower(c)).len() != "llama-server.exe"@.len());
        return false;
    }
    let mut i: usize = 0;
    while i < cs.len()
        invariant
            i <= cs.len(),
            cs@ == name@,
            want@ == "llama-server.exe"@,
            cs.len() == want.len(),
            forall|k: int| 0 <= k < i ==> ascii_lower(#[trigger] cs@[k]) == want@[k],
        decreases cs.len() - i,
    {
        let c = cs[i];
        let l = if 'A' <= c && c <= 'Z' {
            ((c as u32) + 32) as u8 as char
        } else {
            c
        };
        assert(l == ascii_lower(c)) by {
            if 'A' <= c && c <= 'Z' {
                assert(((c as u32) + 32) as u8 as char == ((c as u32) + 32) as char);
            }
        }
        if l != want[i] {
            assert(name@.map_values(|c: char| ascii_lower(c))[i as int] != "llama-server.exe"@[i as int]);
            return false;
        }
        i = i + 1;
    }
    assert(name@.map_values(|c: char| ascii_lower(c)) =~= "llama-server.exe"@);
    true
}

/// Walking the entries of the release archive in `bytes` (which has `n`
/// entries) from entry `i` on, in order, up to the server binary: `None`
/// when an entry on the way cannot be opened, `Some(None)` when none is the
/// server binary, `Some(Some(k))` for the first that is.
pub open spec fn server_entry_from(bytes: Seq<u8>, n: nat, i: nat) -> Option<Option<int>>
    decreases n - i,
{
    if i >= n {
        Some(None)
    } else {
        match spec_zip_name(bytes, i as int) {
            None => None,
            Some(name) => if is_server_entry(name) {
                Some(Some(i as int))
            } else {
                server_entry_from(bytes, n, (i + 1) as nat)
            },
        }
    }
}

/// The server binary's entry in the release archive in `bytes`: `None`
/// when the archive, or an entry before the binary's, cannot be opened.
pub open spec fn spec_server_entry_in_archive(bytes: Seq<u8>) -> Option<Option<int>> {
    match spec_zip_len(bytes) {
        None => None,
        Some(n) => server_entry_from(bytes, n, 0),
    }
}

/// The index of the server binary's entry in the release archive in
/// `bytes`, found by walking the entries in order: `None` when the archive,
/// or an entry before the binary's, cannot be opened; `Some(None)` when no
/// entry is the binary. When every entry can be opened, the index found is
/// that of the first entry named like the binary.
pub fn server_entry_in_archive(bytes: &[u8]) -> (r: Option<Option<usize>>)
    ensures
        match r {
            None => spec_server_entry_in_archive(bytes@) is None,
            Some(None) => spec_server_entry_in_archive(bytes@) == Some(None::<int>),
            Some(Some(i)) => spec_server_entry_in_archive(bytes@) == Some(Some(i as int)),
        },
        match spec_zip_names(bytes@) {
            None => true,
            Some(names) => r matches Some(found) && match found {
                Some(i) => i < names.len() && is_server_entry(names[i as int]) && forall|k: int|
                    0 <= k < i ==> !is_server_entry(#[trigger] names[k]),
                None => forall|k: int| 0 <= k < names.len() ==> !is_server_entry(#[trigger] names[k]),
            },
        },
{
    let mut a = match zip_open(bytes) {
        Some(a) => a,
        None => return None,
    };
    let n = zip_len(&a);
    let mut i: usize = 0;
    while i < n
        invariant
            i <= n,
            spec_zip_source(a) == bytes@,
            spec_zip_len(bytes@) == Some(n as nat),
            server_entry_from(bytes@, n as nat, 0) == server_entry_from(bytes@, n as nat, i as nat),
            forall|k: int| 0 <= k < i ==> (#[trigger] spec_zip_name(bytes@, k) matches Some(nm)
                && !is_server_entry(nm)),
        decreases n - i,
    {
        match zip_name(&mut a, i) {
            None => {
                proof {
                    let names = spec_zip_names(bytes@);
                    if names is Some {
                        assert(spec_zip_name(bytes@, i as int) is Some);
                    }
                }
                return None;
            },
            Some(name) => {
                if server_entry_name(name.as_str()) {
                    proof {
                        if spec_zip_names(bytes@) is Some {
                            let names = spec_zip_names(bytes@)->0;
                            assert(names[i as int] == name@);
                            assert forall|k: int| 0 <= k < i implies !is_server_entry(#[trigger] names[k]) by {
                                assert(spec_zip_name(bytes@, k) is Some);
                            }
                        }
                    }
                    return Some(Some(i));
                }
                assert(spec_zip_name(bytes@, i as int) == Some(name@));
            },
        }
        i = i + 1;
    }
    proof {
        if spec_zip_names(bytes@) is Some {
            let names = spec_zip_names(bytes@)->0;
            assert forall|k: int| 0 <= k < names.len() implies !is_server_entry(#[trigger] names[k]) by {
                assert(spec_zip_name(bytes@, k) is Some);
            }
        }
    }
    Some(None)
}

/// The server binary in the release archive in `bytes`: `None` when the
/// archive, an entry before the binary's, or the binary's own entry cannot
/// be read; `Some(None)` when no entry is the binary.
pub open spec fn spec_server_binary_in_archive(bytes: Seq<u8>) -> Option<Option<Seq<u8>>> {
    match spec_server_entry_in_archive(bytes) {
        None => None,
        Some(None) => Some(None),
        Some(Some(i)) => match spec_zip_entry_bytes(bytes, i) {
            None => None,
            Some(b) => Some(Some(b)),
        },
    }
}

/// The server binary unpacked from the release archive in `bytes`.
pub fn server_binary_in_archive(bytes: &[u8]) -> (r: Option<Option<Vec<u8>>>)
    ensures
        match r {
            None => spec_server_binary_in_archive(bytes@) is None,
            Some(None) => spec_server_binary_in_archive(bytes@) == Some(None::<Seq<u8>>),
            Some(Some(b)) => spec_server_binary_in_archive(bytes@) == Some(Some(b@)),
        },
{
    let i = match server_entry_in_archive(bytes) {
        None => return None,
        Some(None) => return Some(None),
        Some(Some(i)) => i,
    };
    let mut a = match zip_open(bytes) {
        Some(a) => a,
        None => return None,
    };
    match zip_read_bytes(&mut a, i) {
        None => None,
        Some(b) => Some(Some(b)),
    }
}

} // verus!

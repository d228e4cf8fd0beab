//! Chat with the local engine: the messages sent to it and how its streamed
//! and complete answers are read.
use vstd::prelude::*;

use crate::engine::EngineStatus;
use crate::text::{
    chars_of, lines, seq_starts_with, split_lines, starts_with_vec, string_of, trim, trimmed,
    vec_eq, views,
};

verus! {

/// What a streamed chat answer reports, in order.
#[derive(Debug, Clone, PartialEq, Eq)]
pub enum ChatEvent {
    Start { model: String },
    Token { text: String },
    Done { tokens: usize },
    Error { message: String },
}

/// One message of a conversation.
#[derive(Debug, Clone, PartialEq, Eq)]
pub struct ChatMessage {
    pub role: String,
    pub content: String,
}

/// What `serde_json::from_str::<serde_json::Value>(text)` followed by
/// `Value::pointer(pointer)` gives: the error's text when `text` is not
/// JSON, otherwise the string at `pointer`, if a string stands there.
pub uninterp spec fn spec_json_str_at(text: Seq<char>, pointer: Seq<char>) -> Result<
    Option<Seq<char>>,
    Seq<char>,
>;

/// The optional string of a JSON lookup, or the text of its error.
pub open spec fn json_result_view(r: Result<Option<String>, String>) -> Result<
    Option<Seq<char>>,
    Seq<char>,
> {
    match r {
        Ok(Some(s)) => Ok(Some(s@)),
        Ok(None) => Ok(None),
        Err(e) => Err(e@),
    }
}

/// Calls `serde_json::from_str::<serde_json::Value>` on `text` and
/// `Value::pointer` on the result; the outcome is named `spec_json_str_at`.
#[verifier::external_body]
pub(crate) fn json_str_at(text: &str, pointer: &str) -> (r: Result<Option<String>, String>)
    ensures
        json_result_view(r) == spec_json_str_at(text@, pointer@),
{
    match serde_json::from_str::<serde_json::Value>(text) {
        Err(e) => Err(e.to_string()),
        Ok(v) => match v.pointer(pointer) {
            Some(serde_json::Value::String(s)) => Ok(Some(s.clone())),
            _ => Ok(None),
        },
    }
}

/// What `serde_json::from_str::<serde_json::Value>(text)` followed by
/// `Value::pointer(pointer)` gives for an array: the error's text when
/// `text` is not JSON, otherwise the length of the array at `pointer`, if
/// an array stands there.
pub uninterp spec fn spec_json_array_len_at(text: Seq<char>, pointer: Seq<char>) -> Result<
    Option<nat>,
    Seq<char>,
>;

/// The optional length of a JSON lookup, or the text of its error.
pub open spec fn json_len_view(r: Result<Option<usize>, String>) -> Result<Option<nat>, Seq<char>> {
    match r {
        Ok(Some(n)) => Ok(Some(n as nat)),
        Ok(None) => Ok(None),
        Err(e) => Err(e@),
    }
}

/// Calls `serde_json::from_str::<serde_json::Value>` on `text` and
/// `Value::pointer` on the result; the outcome is named
/// `spec_json_array_len_at`.
#[verifier::external_body]
pub(crate) fn json_array_len_at(text: &str, pointer: &str) -> (r: Result<Option<usize>, String>)
    ensures
        json_len_view(r) == spec_json_array_len_at(text@, pointer@),
{
    match serde_json::from_str::<serde_json::Value>(text) {
        Err(e) => Err(e.to_string()),
        Ok(v) => match v.pointer(pointer) {
            Some(serde_json::Value::Array(a)) => Ok(Some(a.len())),
            _ => Ok(None),
        },
    }
}

/// The port a chat stream goes to: `None` when the engine does not run,
/// the engine's port otherwise (11435 when it has none on record).
pub fn stream_port(status: &EngineStatus) -> (p: Option<u16>)
    ensures
        p == if status.running {
            Some(
                match status.port {
                    Some(q) => q,
                    None => 11435u16,
                },
            )
        } else {
            None
        },
{
    if !status.running {
        return None;
    }
    match status.port {
        Some(q) => Some(q),
        None => Some(11435),
    }
}

/// `s` with every leading copy of `p` removed, as `str::trim_start_matches` does.
pub open spec fn strip_all_prefix(s: Seq<char>, p: Seq<char>) -> Seq<char>
    decreases s.len(),
{
    if p.len() > 0 && seq_starts_with(s, p) {
        strip_all_prefix(s.subrange(p.len() as int, s.len() as int), p)
    } else {
        s
    }
}

/// The payload of a server-sent-events line: a line that, trimmed, starts
/// with `data:` carries the rest, with every leading `data:` removed and
/// trimmed again.
pub open spec fn sse_data(line: Seq<char>) -> Option<Seq<char>> {
    let t = trim(line);
    if seq_starts_with(t, "data:"@) {
        Some(trim(strip_all_prefix(t, "data:"@)))
    } else {
        None
    }
}

/// The JSON pointer of a streamed token.
pub open spec fn delta_pointer() -> Seq<char> {
    "/choices/0/delta/content"@
}

/// The token a payload carries: a non-empty string at the delta pointer of
/// a JSON payload.
pub open spec fn sse_token(data: Seq<char>) -> Option<Seq<char>> {
    match spec_json_str_at(data, delta_pointer()) {
        Ok(Some(t)) => if t.len() > 0 {
            Some(t)
        } else {
            None
        },
        _ => None,
    }
}

/// The tokens of the stream lines `ls` from the `i`-th on: lines without a
/// payload and payloads without a token are passed over; the payload
/// `[DONE]` ends the stream.
pub open spec fn stream_tokens_from(ls: Seq<Seq<char>>, i: int) -> Seq<Seq<char>>
    decreases ls.len() - i,
{
    if i < 0 || i >= ls.len() {
        seq![]
    } else {
        match sse_data(ls[i]) {
            None => stream_tokens_from(ls, i + 1),
            Some(d) => if d == "[DONE]"@ {
                seq![]
            } else {
                match sse_token(d) {
                    Some(t) => seq![t] + stream_tokens_from(ls, i + 1),
                    None => stream_tokens_from(ls, i + 1),
                }
            },
        }
    }
}

/// The tokens of a streamed answer whose body is `body`.
pub open spec fn stream_tokens(body: Seq<char>) -> Seq<Seq<char>> {
    stream_tokens_from(lines(body), 0)
}

/// The tokens from line `i` on are, in order, the delta strings of data
/// lines from `i` on, exactly as the JSON holds them (never trimmed), and
/// never empty.
proof fn lemma_tokens_from_are_deltas(ls: Seq<Seq<char>>, i: int)
    requires
        0 <= i,
    ensures
        forall|k: int|
            0 <= k < stream_tokens_from(ls, i).len() ==> (#[trigger] stream_tokens_from(ls, i)[k]).len() > 0
                && exists|j: int| i <= j < ls.len() && (sse_data(#[trigger] ls[j]) matches Some(dd) && spec_json_str_at(dd, delta_pointer()) == Ok::<Option<Seq<char>>, Seq<char>>(Some(stream_tokens_from(ls, i)[k]))),
    decreases ls.len() - i,
{
    if i < ls.len() {
        lemma_tokens_from_are_deltas(ls, i + 1);
        let rest = stream_tokens_from(ls, i + 1);
        let toks = stream_tokens_from(ls, i);
        match sse_data(ls[i]) {
            None => {},
            Some(d) => if d != "[DONE]"@ {
                match sse_token(d) {
                    Some(t) => {
                        assert(toks == seq![t] + rest);
                        assert forall|k: int| 0 <= k < toks.len() implies (#[trigger] toks[k]).len() > 0
                            && exists|j: int| i <= j < ls.len() && (sse_data(#[trigger] ls[j]) matches Some(dd) && spec_json_str_at(dd, delta_pointer()) == Ok::<Option<Seq<char>>, Seq<char>>(Some(toks[k]))) by {
                            if k == 0 {
                                assert(toks[0] == t);
                                assert(sse_data(ls[i]) == Some(d));
                            } else {
                                assert(toks[k] == rest[k - 1]);
                                let kk = k - 1;
                                assert(rest[kk].len() > 0);
                            }
                        }
                    },
                    None => {},
                }
            },
        }
    }
}

/// Each streamed token is the delta string of one data line of the body,
/// exactly as the JSON holds it (white space included), and none is empty;
/// the tokens come in the order of their lines.
pub proof fn lemma_tokens_are_deltas(body: Seq<char>)
    ensures
        forall|k: int|
            0 <= k < stream_tokens(body).len() ==> (#[trigger] stream_tokens(body)[k]).len() > 0
                && exists|j: int| 0 <= j < lines(body).len() && (sse_data(#[trigger] lines(body)[j]) matches Some(dd) && spec_json_str_at(dd, delta_pointer()) == Ok::<Option<Seq<char>>, Seq<char>>(Some(stream_tokens(body)[k]))),
{
    lemma_tokens_from_are_deltas(lines(body), 0);
}

/// A data line whose delta is a non-empty string gives exactly that string
/// as the next token, before the tokens of the lines after it.
pub proof fn lemma_delta_line_gives_its_token(ls: Seq<Seq<char>>, i: int, d: Seq<char>, t: Seq<char>)
    requires
        0 <= i < ls.len(),
        sse_data(ls[i]) == Some(d),
        d != "[DONE]"@,
        spec_json_str_at(d, delta_pointer()) == Ok::<Option<Seq<char>>, Seq<char>>(Some(t)),
        t.len() > 0,
    ensures
        stream_tokens_from(ls, i) == seq![t] + stream_tokens_from(ls, i + 1),
{
}

/// `s` with every leading copy of `p` removed.
fn strip_all_prefix_vec(s: &Vec<char>, p: &Vec<char>) -> (r: Vec<char>)
    ensures
        r@ == strip_all_prefix(s@, p@),
{
    if p.len() == 0 {
        return s.clone();
    }
    let mut i: usize = 0;
    let ghost sv = s@;
    assert(sv.subrange(0, sv.len() as int) =~= sv);
    while crate::text::matches_at(s, p, i)
        invariant
            i <= s.len(),
            p.len() > 0,
            strip_all_prefix(sv, p@) == strip_all_prefix(sv.subrange(i as int, sv.len() as int), p@),
            sv == s@,
        decreases s.len() - i,
    {
        let ghost rest = sv.subrange(i as int, sv.len() as int);
        assert(seq_starts_with(rest, p@)) by {
            assert(rest.subrange(0, p@.len() as int) =~= sv.subrange(i as int, i + p@.len()));
        }
        assert(rest.subrange(p.len() as int, rest.len() as int) =~= sv.subrange(
            i + p.len(),
            sv.len() as int,
        ));
        i = i + p.len();
    }
    let ghost rest = sv.subrange(i as int, sv.len() as int);
    proof {
        if seq_starts_with(rest, p@) {
            assert(rest.subrange(0, p@.len() as int) =~= sv.subrange(i as int, i + p@.len()));
        }
    }
    crate::text::slice_vec(s, i, s.len())
}

/// The tokens of a streamed answer, then `Done` with their count: the
/// events a chat stream reports once the server has answered.
pub fn stream_events(body: &str) -> (r: Vec<ChatEvent>)
    ensures
        r.len() == stream_tokens(body@).len() + 1,
        forall|i: int|
            0 <= i < r.len() - 1 ==> (#[trigger] r@[i] matches ChatEvent::Token { text } && text@
                == stream_tokens(body@)[i]),
        r@.last() == (ChatEvent::Done { tokens: (r.len() - 1) as usize }),
{
    let bv = chars_of(body);
    let ls = split_lines(&bv);
    let ghost lv = views(ls@);
    let prefix = chars_of("data:");
    let done = chars_of("[DONE]");
    let mut out: Vec<ChatEvent> = Vec::new();
    let ghost mut toks: Seq<Seq<char>> = seq![];
    let mut i: usize = 0;
    proof {
        reveal_strlit("data:");
        reveal_strlit("[DONE]");
        reveal_strlit("/choices/0/delta/content");
    }
    while i < ls.len()
        invariant
            i <= ls.len(),
            lv == views(ls@),
            lv == lines(body@),
            prefix@ == "data:"@,
            done@ == "[DONE]"@,
            out.len() == toks.len(),
            forall|k: int|
                0 <= k < out.len() ==> (#[trigger] out@[k] matches ChatEvent::Token { text }
                    && text@ == toks[k]),
            toks + stream_tokens_from(lv, i as int) == stream_tokens(body@),
        ensures
            out.len() == toks.len(),
            forall|k: int|
                0 <= k < out.len() ==> (#[trigger] out@[k] matches ChatEvent::Token { text }
                    && text@ == toks[k]),
            toks == stream_tokens(body@),
        decreases ls.len() - i,
    {
        let t = trimmed(&ls[i]);
        assert(t@ == trim(lv[i as int]));
        if starts_with_vec(&t, &prefix) {
            let d = trimmed(&strip_all_prefix_vec(&t, &prefix));
            assert(sse_data(lv[i as int]) == Some(d@));
            if vec_eq(&d, &done) {
                assert(stream_tokens_from(lv, i as int) =~= Seq::<Seq<char>>::empty());
                assert(toks + Seq::<Seq<char>>::empty() =~= toks);
                break;
            }
            let ds = string_of(&d);
            let found = json_str_at(ds.as_str(), "/choices/0/delta/content");
            let ghost before = toks;
            match found {
                Ok(Some(tok)) => {
                    if tok.as_str().unicode_len() > 0 {
                        proof {
                            toks = toks.push(tok@);
                            assert(sse_token(d@) == Some(tok@));
                            assert(before + stream_tokens_from(lv, i as int) =~= toks
                                + stream_tokens_from(lv, i + 1));
                        }
                        out.push(ChatEvent::Token { text: tok });
                    } else {
                        assert(sse_token(d@) is None);
                    }
                },
                _ => {
                    assert(sse_token(d@) is None);
                },
            }
        }
        i = i + 1;
        if i == ls.len() {
            assert(stream_tokens_from(lv, i as int) =~= Seq::<Seq<char>>::empty());
            assert(toks + Seq::<Seq<char>>::empty() =~= toks);
        }
    }
    let n = out.len();
    out.push(ChatEvent::Done { tokens: n });
    out
}

/// The JSON pointer of a complete answer.
pub open spec fn message_pointer() -> Seq<char> {
    "/choices/0/message/content"@
}

/// What a complete answer whose body is `body` yields: its message content,
/// the JSON error, or a note that the content is missing.
pub open spec fn spec_completion_content(body: Seq<char>) -> Result<Seq<char>, Seq<char>> {
    match spec_json_str_at(body, message_pointer()) {
        Ok(Some(c)) => Ok(c),
        Ok(None) => Err("completion response missing content"@),
        Err(e) => Err(e),
    }
}

/// The answer text of a complete (not streamed) chat response body.
pub fn completion_content(body: &str) -> (r: Result<String, String>)
    ensures
        match r {
            Ok(c) => spec_completion_content(body@) == Ok::<Seq<char>, Seq<char>>(c@),
            Err(e) => spec_completion_content(body@) == Err::<Seq<char>, Seq<char>>(e@),
        },
{
    match json_str_at(body, "/choices/0/message/content") {
        Ok(Some(c)) => Ok(c),
        Ok(None) => Err("completion response missing content".to_owned()),
        Err(e) => Err(e),
    }
}

} // verus!

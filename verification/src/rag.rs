//! Retrieval-augmented generation: parsing, chunking, indexing, retrieval.
pub mod embed;
pub mod export;
pub mod indexer;
pub mod media;
pub mod parse;
pub mod store;
pub mod vector_db;
pub mod vision;

use vstd::prelude::*;

use crate::chat::ChatMessage;
use crate::text::{int_decimal, nat_decimal, occurs_at, push_decimal, push_signed_decimal, push_str};

verus! {

/// One retrieved chunk as the vector store returns it; a field the store
/// does not hold is `None`.
#[derive(Debug, Clone)]
pub struct RetrievedHit {
    pub file_name: Option<String>,
    pub chunk_index: Option<i64>,
    pub content: Option<String>,
}

/// The heading of a retrieved context.
pub open spec fn context_header() -> Seq<char> {
    "=== RETRIEVED CONTEXT ===\n"@
}

/// The entry of the `i`-th hit: its number, its file name (`?` when
/// unknown) and chunk index (0 when unknown), then its content.
pub open spec fn context_entry(i: nat, h: RetrievedHit) -> Seq<char> {
    "["@ + nat_decimal(i) + "] ("@ + match h.file_name {
        Some(f) => f@,
        None => "?"@,
    } + "#"@ + int_decimal(
        match h.chunk_index {
            Some(x) => x as int,
            None => 0,
        },
    ) + ")\n"@ + match h.content {
        Some(c) => c@,
        None => seq![],
    } + "\n\n"@
}

/// The entries of the first `n` hits.
pub open spec fn context_entries(hits: Seq<RetrievedHit>, n: nat) -> Seq<char>
    decreases n,
{
    if n == 0 {
        seq![]
    } else {
        context_entries(hits, (n - 1) as nat) + context_entry((n - 1) as nat, hits[n - 1])
    }
}

/// The context handed to the model: nothing when nothing was retrieved,
/// otherwise the heading and an entry per hit.
pub open spec fn spec_format_context(hits: Seq<RetrievedHit>) -> Seq<char> {
    if hits.len() == 0 {
        seq![]
    } else {
        context_header() + context_entries(hits, hits.len())
    }
}

/// Append the entry of the `i`-th hit.
fn push_entry(ctx: &mut String, i: usize, h: &RetrievedHit)
    ensures
        final(ctx)@ == old(ctx)@ + context_entry(i as nat, *h),
{
    push_str(ctx, "[");
    push_decimal(ctx, i as u64);
    push_str(ctx, "] (");
    match &h.file_name {
        Some(f) => push_str(ctx, f.as_str()),
        None => push_str(ctx, "?"),
    }
    push_str(ctx, "#");
    match h.chunk_index {
        Some(x) => push_signed_decimal(ctx, x),
        None => push_signed_decimal(ctx, 0),
    }
    push_str(ctx, ")\n");
    match &h.content {
        Some(c) => push_str(ctx, c.as_str()),
        None => {},
    }
    push_str(ctx, "\n\n");
    assert(final(ctx)@ =~= old(ctx)@ + context_entry(i as nat, *h));
}

/// The context handed to the model for the retrieved `hits`, best first.
pub fn format_context(hits: &Vec<RetrievedHit>) -> (r: String)
    ensures
        r@ == spec_format_context(hits@),
{
    if hits.len() == 0 {
        return String::new();
    }
    let mut ctx = "=== RETRIEVED CONTEXT ===\n".to_owned();
    let mut i: usize = 0;
    while i < hits.len()
        invariant
            i <= hits.len(),
            ctx@ == context_header() + context_entries(hits@, i as nat),
        decreases hits.len() - i,
    {
        push_entry(&mut ctx, i, &hits[i]);
        i = i + 1;
        assert(ctx@ =~= context_header() + context_entries(hits@, i as nat));
    }
    ctx
}

/// The entries of the first `n` hits do not depend on the hits after them.
proof fn lemma_entries_prefix(hits: Seq<RetrievedHit>, more: Seq<RetrievedHit>, n: nat)
    requires
        n <= hits.len(),
    ensures
        context_entries(hits + more, n) == context_entries(hits, n),
    decreases n,
{
    if n > 0 {
        lemma_entries_prefix(hits, more, (n - 1) as nat);
        assert((hits + more)[n - 1] == hits[n - 1]);
    }
}

/// One more hit adds exactly its own entry at the end of the context: the
/// entry numbered after all the earlier ones (the heading comes first when
/// it is the first hit). So the context of `n` hits holds `n` entries, one
/// per hit in order, and no hit is left out.
pub proof fn lemma_context_one_more_hit(hits: Seq<RetrievedHit>, h: RetrievedHit)
    ensures
        spec_format_context(hits.push(h)) == (if hits.len() == 0 {
            context_header()
        } else {
            spec_format_context(hits)
        }) + context_entry(hits.len() as nat, h),
{
    let n = hits.len();
    lemma_entries_prefix(hits, seq![h], n as nat);
    assert(hits.push(h) =~= hits + seq![h]);
    assert(hits.push(h)[n as int] == h);
    assert(context_entries(hits.push(h), (n + 1) as nat) == context_entries(hits.push(h), n as nat)
        + context_entry(n as nat, h));
    if n == 0 {
        assert(context_entries(hits.push(h), 0) =~= Seq::<char>::empty());
    }
}

/// `p` occurs in `a`, so it occurs in `x + a + y` too.
proof fn lemma_occurs_within(a: Seq<char>, p: Seq<char>, i: int, x: Seq<char>, y: Seq<char>)
    requires
        occurs_at(a, p, i),
    ensures
        occurs_at(x + a + y, p, x.len() + i),
{
    assert((x + a + y).subrange(x.len() + i, x.len() + i + p.len()) =~= a.subrange(i, i + p.len()));
}

/// The content of hit `i` occurs in the entries of the first `n` hits.
proof fn lemma_entries_hold_content(hits: Seq<RetrievedHit>, n: nat, i: int, c: Seq<char>)
    requires
        0 <= i < n <= hits.len(),
        hits[i].content matches Some(s) && s@ == c,
    ensures
        exists|p: int| #[trigger] occurs_at(context_entries(hits, n), c, p),
    decreases n,
{
    if i < n - 1 {
        lemma_entries_hold_content(hits, (n - 1) as nat, i, c);
        let p = choose|p: int| #[trigger] occurs_at(context_entries(hits, (n - 1) as nat), c, p);
        lemma_occurs_within(
            context_entries(hits, (n - 1) as nat),
            c,
            p,
            seq![],
            context_entry((n - 1) as nat, hits[n - 1]),
        );
        assert(seq![] + context_entries(hits, (n - 1) as nat) + context_entry((n - 1) as nat, hits[n - 1])
            =~= context_entries(hits, n));
    } else {
        let h = hits[i];
        let head = "["@ + nat_decimal(i as nat) + "] ("@ + match h.file_name {
            Some(f) => f@,
            None => "?"@,
        } + "#"@ + int_decimal(
            match h.chunk_index {
                Some(x) => x as int,
                None => 0,
            },
        ) + ")\n"@;
        assert(context_entry(i as nat, h) =~= head + c + "\n\n"@);
        assert(occurs_at(c, c, 0)) by {
            assert(c.subrange(0, c.len() as int) =~= c);
        }
        lemma_occurs_within(c, c, 0, context_entries(hits, (n - 1) as nat) + head, "\n\n"@);
        assert(context_entries(hits, (n - 1) as nat) + head + c + "\n\n"@ =~= context_entries(hits, n));
    }
}

/// Every retrieved hit's content reaches the model: it occurs in the
/// context built from the hits.
pub proof fn lemma_context_holds_every_hit(hits: Seq<RetrievedHit>, i: int)
    requires
        0 <= i < hits.len(),
        hits[i].content is Some,
    ensures
        exists|p: int| #[trigger] occurs_at(spec_format_context(hits), hits[i].content->0@, p),
{
    let c = hits[i].content->0@;
    lemma_entries_hold_content(hits, hits.len(), i, c);
    let p = choose|p: int| #[trigger] occurs_at(context_entries(hits, hits.len()), c, p);
    lemma_occurs_within(context_entries(hits, hits.len()), c, p, context_header(), seq![]);
    assert(context_header() + context_entries(hits, hits.len()) + seq![] =~= spec_format_context(hits));
}

/// The instruction that carries a retrieved context.
pub open spec fn context_instruction(ctx: Seq<char>) -> Seq<char> {
    "Answer using the following context. Cite sources by file name.\n\n"@ + ctx
}

/// The conversation sent to the model for a question: the retrieved
/// context as a system message in front (when anything was retrieved), the
/// earlier messages, then the question as the user's message.
pub open spec fn spec_rag_messages(
    history: Seq<ChatMessage>,
    ctx: Seq<char>,
    question: Seq<char>,
) -> Seq<(Seq<char>, Seq<char>)> {
    let h = history.map_values(|m: ChatMessage| (m.role@, m.content@));
    let with_ctx = if ctx.len() == 0 {
        h
    } else {
        seq![("system"@, context_instruction(ctx))] + h
    };
    with_ctx.push(("user"@, question))
}

/// The role and content of each message.
pub open spec fn message_views(ms: Seq<ChatMessage>) -> Seq<(Seq<char>, Seq<char>)> {
    ms.map_values(|m: ChatMessage| (m.role@, m.content@))
}

/// The conversation sent to the model for `question`, given the earlier
/// messages and the retrieved context.
pub fn rag_messages(history: Vec<ChatMessage>, ctx: &str, question: &str) -> (r: Vec<ChatMessage>)
    ensures
        message_views(r@) == spec_rag_messages(history@, ctx@, question@),
{
    let mut out: Vec<ChatMessage> = Vec::new();
    if ctx.unicode_len() > 0 {
        let mut content = "Answer using the following context. Cite sources by file name.\n\n".to_owned();
        push_str(&mut content, ctx);
        out.push(ChatMessage { role: "system".to_owned(), content });
    }
    let ghost start = out@;
    let mut i: usize = 0;
    while i < history.len()
        invariant
            i <= history.len(),
            out@ == start + history@.take(i as int),
        decreases history.len() - i,
    {
        out.push(
            ChatMessage { role: history[i].role.clone(), content: history[i].content.clone() },
        );
        assert(history@.take(i + 1) =~= history@.take(i as int).push(history@[i as int]));
        i = i + 1;
    }
    assert(history@.take(history.len() as int) =~= history@);
    out.push(ChatMessage { role: "user".to_owned(), content: question.to_owned() });
    assert(message_views(out@) =~= spec_rag_messages(history@, ctx@, question@));
    out
}

/// The filter that keeps a query inside one library.
pub open spec fn spec_library_filter(lib: Seq<char>) -> Seq<char> {
    "library_id = '"@ + lib + "'"@
}

/// The filter that keeps a query inside library `lib`.
pub fn library_filter(lib: &str) -> (r: String)
    ensures
        r@ == spec_library_filter(lib@),
{
    let mut r = "library_id = '".to_owned();
    push_str(&mut r, lib);
    push_str(&mut r, "'");
    r
}

/// How many candidates each half of a hybrid query gathers for `k`
/// results: four per result, and never fewer than fifty.
pub fn candidate_count(k: usize) -> (n: usize)
    requires
        k <= usize::MAX / 4,
    ensures
        n == if 4 * k >= 50 {
            4 * k
        } else {
            50
        },
{
    let c = k * 4;
    if c >= 50 {
        c
    } else {
        50
    }
}

/// The key of the vector-store document for chunk `index` of file `file_id`.
pub open spec fn spec_doc_key(file_id: i64, index: i64) -> Seq<char> {
    int_decimal(file_id as int) + "_"@ + int_decimal(index as int)
}

/// The key of the vector-store document for chunk `index` of file `file_id`.
pub fn doc_key(file_id: i64, index: i64) -> (r: String)
    ensures
        r@ == spec_doc_key(file_id, index),
{
    let mut r = String::new();
    push_signed_decimal(&mut r, file_id);
    push_str(&mut r, "_");
    push_signed_decimal(&mut r, index);
    r
}

/// The library a request names, or the default library.
pub fn library_or_default(lib: Option<String>) -> (r: String)
    ensures
        r@ == match lib {
            Some(l) => l@,
            None => "default"@,
        },
{
    match lib {
        Some(l) => l,
        None => "default".to_owned(),
    }
}

} // verus!

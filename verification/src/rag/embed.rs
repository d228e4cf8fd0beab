//! Checks on the embeddings the engine returns.
use vstd::prelude::*;
use vstd::utf8::encode_utf8;

use crate::chat::{json_array_len_at, json_str_at, spec_json_array_len_at, spec_json_str_at};
use crate::team::{b64_decode, spec_b64_decode};
use crate::text::{nat_decimal, push_decimal, push_str};

verus! {

/// The message for an embedding of `got` floats where `expected` were due.
pub open spec fn mismatch_message(got: nat, expected: nat) -> Seq<char> {
    "embedding dimension mismatch: got "@ + nat_decimal(got) + ", expected "@ + nat_decimal(
        expected,
    )
}

/// Check one embedding's length against the probed dimension, if any.
pub fn check_dim(len: usize, expected: Option<usize>) -> (r: Result<(), String>)
    ensures
        match expected {
            Some(e) if e != len => r matches Err(m) && m@ == mismatch_message(
                len as nat,
                e as nat,
            ),
            _ => r is Ok,
        },
{
    match expected {
        Some(e) => {
            if e != len {
                let mut m = "embedding dimension mismatch: got ".to_owned();
                push_decimal(&mut m, len as u64);
                push_str(&mut m, ", expected ");
                push_decimal(&mut m, e as u64);
                return Err(m);
            }
            Ok(())
        },
        None => Ok(()),
    }
}

/// The message for the `i`-th embedding of a batch having `got` floats
/// where `expected` were due.
pub open spec fn batch_mismatch_message(i: nat, got: nat, expected: nat) -> Seq<char> {
    "embedding dimension mismatch at index "@ + nat_decimal(i) + ": got "@ + nat_decimal(got)
        + ", expected "@ + nat_decimal(expected)
}

/// The message for a batch reply with `got` embeddings where one per text,
/// `expected` in all, was due.
pub open spec fn count_mismatch_message(got: nat, expected: nat) -> Seq<char> {
    "embedding count mismatch: got "@ + nat_decimal(got) + ", expected "@ + nat_decimal(expected)
}

/// Check a batch of embeddings sent for `texts` texts: there must be one
/// embedding per text, and each must have the probed dimension, if any (the
/// first embedding of another length is reported).
pub fn check_batch_dims(lens: &Vec<usize>, texts: usize, expected: Option<usize>) -> (r: Result<(), String>)
    ensures
        lens.len() != texts ==> (r matches Err(m) && m@ == count_mismatch_message(
            lens.len() as nat,
            texts as nat,
        )),
        lens.len() == texts ==> match expected {
            None => r is Ok,
            Some(e) => match r {
                Ok(()) => forall|k: int| 0 <= k < lens.len() ==> #[trigger] lens@[k] == e,
                Err(m) => exists|i: int|
                    0 <= i < lens.len() && lens@[i] != e && (forall|k: int|
                        0 <= k < i ==> #[trigger] lens@[k] == e) && m@ == batch_mismatch_message(
                        i as nat,
                        lens@[i] as nat,
                        e as nat,
                    ),
            },
        },
        r is Ok ==> lens.len() == texts,
{
    if lens.len() != texts {
        let mut m = "embedding count mismatch: got ".to_owned();
        push_decimal(&mut m, lens.len() as u64);
        push_str(&mut m, ", expected ");
        push_decimal(&mut m, texts as u64);
        return Err(m);
    }
    let e = match expected {
        Some(e) => e,
        None => return Ok(()),
    };
    let mut i: usize = 0;
    while i < lens.len()
        invariant
            i <= lens.len(),
            expected == Some(e),
            lens.len() == texts,
            forall|k: int| 0 <= k < i ==> #[trigger] lens@[k] == e,
        decreases lens.len() - i,
    {
        if lens[i] != e {
            let mut m = "embedding dimension mismatch at index ".to_owned();
            push_decimal(&mut m, i as u64);
            push_str(&mut m, ": got ");
            push_decimal(&mut m, lens[i] as u64);
            push_str(&mut m, ", expected ");
            push_decimal(&mut m, e as u64);
            assert(m@ =~= batch_mismatch_message(i as nat, lens@[i as int] as nat, e as nat));
            return Err(m);
        }
        i = i + 1;
    }
    Ok(())
}

/// The bytes of a Base64 embedding, which must hold a whole number of
/// 32-bit floats.
pub open spec fn spec_embedding_bytes(b64: Seq<char>) -> Result<Seq<u8>, Seq<char>> {
    match spec_b64_decode(encode_utf8(b64)) {
        Err(e) => Err(e),
        Ok(bytes) => if bytes.len() % 4 != 0 {
            Err("embedding bytes not aligned to f32"@)
        } else {
            Ok(bytes)
        },
    }
}

/// The little-endian float bytes of a Base64 embedding.
pub fn embedding_bytes(b64: &str) -> (r: Result<Vec<u8>, String>)
    ensures
        match r {
            Ok(v) => spec_embedding_bytes(b64@) == Ok::<Seq<u8>, Seq<char>>(v@),
            Err(e) => spec_embedding_bytes(b64@) == Err::<Seq<u8>, Seq<char>>(e@),
        },
{
    let bytes = match b64_decode(b64) {
        Ok(v) => v,
        Err(e) => return Err(e),
    };
    if bytes.len() % 4 != 0 {
        return Err("embedding bytes not aligned to f32".to_owned());
    }
    Ok(bytes)
}

/// The JSON pointer of the `i`-th embedding of an embeddings response.
pub open spec fn item_pointer(i: nat) -> Seq<char> {
    "/data/"@ + nat_decimal(i) + "/embedding"@
}

/// The bytes of the first `k` embeddings of an embeddings response, or
/// the first error: an item without an embedding string, or one that is
/// not whole floats in Base64.
pub open spec fn items_upto(body: Seq<char>, k: nat) -> Result<Seq<Seq<u8>>, Seq<char>>
    decreases k,
{
    if k == 0 {
        Ok(seq![])
    } else {
        match items_upto(body, (k - 1) as nat) {
            Err(e) => Err(e),
            Ok(v) => match spec_json_str_at(body, item_pointer((k - 1) as nat)) {
                Ok(Some(b)) => match spec_embedding_bytes(b) {
                    Ok(bytes) => Ok(v.push(bytes)),
                    Err(e) => Err(e),
                },
                _ => Err("no embedding in data item"@),
            },
        }
    }
}

/// The float bytes of each embedding of an embeddings response body, in
/// order; or why there are none.
pub open spec fn spec_embedding_payloads(body: Seq<char>) -> Result<Seq<Seq<u8>>, Seq<char>> {
    match spec_json_array_len_at(body, "/data"@) {
        Err(e) => Err(e),
        Ok(None) => Err("no data in embed response"@),
        Ok(Some(n)) => match items_upto(body, n) {
            Err(e) => Err(e),
            Ok(v) => if v.len() == 0 {
                Err("embed response had no data items"@)
            } else {
                Ok(v)
            },
        },
    }
}

/// The bytes of each item of a list of byte vectors.
pub open spec fn byte_views(v: Seq<Vec<u8>>) -> Seq<Seq<u8>> {
    v.map_values(|b: Vec<u8>| b@)
}

/// The float bytes of each embedding of an embeddings response body.
pub fn embedding_payloads(body: &str) -> (r: Result<Vec<Vec<u8>>, String>)
    ensures
        match r {
            Ok(v) => spec_embedding_payloads(body@) == Ok::<Seq<Seq<u8>>, Seq<char>>(byte_views(v@)),
            Err(e) => spec_embedding_payloads(body@) == Err::<Seq<Seq<u8>>, Seq<char>>(e@),
        },
{
    let n = match json_array_len_at(body, "/data") {
        Err(e) => return Err(e),
        Ok(None) => return Err("no data in embed response".to_owned()),
        Ok(Some(n)) => n,
    };
    let mut out: Vec<Vec<u8>> = Vec::new();
    let mut i: usize = 0;
    assert(byte_views(out@) =~= Seq::<Seq<u8>>::empty());
    while i < n
        invariant
            i <= n,
            spec_json_array_len_at(body@, "/data"@) == Ok::<Option<nat>, Seq<char>>(Some(n as nat)),
            items_upto(body@, i as nat) == Ok::<Seq<Seq<u8>>, Seq<char>>(byte_views(out@)),
        decreases n - i,
    {
        let mut ptr = "/data/".to_owned();
        push_decimal(&mut ptr, i as u64);
        push_str(&mut ptr, "/embedding");
        assert(ptr@ =~= item_pointer(i as nat));
        let b64 = match json_str_at(body, ptr.as_str()) {
            Ok(Some(b)) => b,
            _ => {
                proof {
                    lemma_items_err_stays(body@, (i + 1) as nat, n as nat);
                }
                return Err("no embedding in data item".to_owned());
            },
        };
        let bytes = match embedding_bytes(b64.as_str()) {
            Ok(v) => v,
            Err(e) => {
                proof {
                    lemma_items_err_stays(body@, (i + 1) as nat, n as nat);
                }
                return Err(e);
            },
        };
        let ghost before = byte_views(out@);
        out.push(bytes);
        assert(byte_views(out@) =~= before.push(bytes@));
        i = i + 1;
    }
    if out.len() == 0 {
        return Err("embed response had no data items".to_owned());
    }
    Ok(out)
}

/// Once an item fails, the whole response fails with the same error.
proof fn lemma_items_err_stays(body: Seq<char>, k: nat, m: nat)
    requires
        k <= m,
        items_upto(body, k) is Err,
    ensures
        items_upto(body, m) == items_upto(body, k),
    decreases m - k,
{
    if k < m {
        lemma_items_err_stays(body, k, (m - 1) as nat);
    }
}

} // verus!

//! Exporting and importing a library: the answers reported to the user.
use vstd::prelude::*;

use crate::text::{nat_decimal, push_decimal, push_str};

verus! {

/// The version of the export format written.
pub const EXPORT_VERSION: u32 = 1;

/// The answer to an export of library `lib` to `path`.
pub open spec fn spec_export_message(lib: Seq<char>, path: Seq<char>) -> Seq<char> {
    "Exported library '"@ + lib + "' to "@ + path
}

/// The answer to an export of library `lib` to `path`.
pub fn export_message(lib: &str, path: &str) -> (m: String)
    ensures
        m@ == spec_export_message(lib@, path@),
{
    let mut m = "Exported library '".to_owned();
    push_str(&mut m, lib);
    push_str(&mut m, "' to ");
    push_str(&mut m, path);
    m
}

/// The answer to an import of `files` files and `chunks` chunks into `lib`,
/// which tells whether the chunks were embedded again.
pub open spec fn spec_import_message(files: nat, chunks: nat, lib: Seq<char>, reembed: bool) -> Seq<
    char,
> {
    "Imported "@ + nat_decimal(files) + " files, "@ + nat_decimal(chunks) + " chunks into '"@ + lib
        + "'"@ + if reembed {
        " (re-embedded)"@
    } else {
        " (no embeddings \u{2014} re-index to enable search)"@
    }
}

/// The answer to an import into `lib`.
pub fn import_message(files: usize, chunks: usize, lib: &str, reembed: bool) -> (m: String)
    ensures
        m@ == spec_import_message(files as nat, chunks as nat, lib@, reembed),
{
    let mut m = "Imported ".to_owned();
    push_decimal(&mut m, files as u64);
    push_str(&mut m, " files, ");
    push_decimal(&mut m, chunks as u64);
    push_str(&mut m, " chunks into '");
    push_str(&mut m, lib);
    push_str(&mut m, "'");
    if reembed {
        push_str(&mut m, " (re-embedded)");
    } else {
        push_str(&mut m, " (no embeddings \u{2014} re-index to enable search)");
    }
    assert(m@ =~= spec_import_message(files as nat, chunks as nat, lib@, reembed));
    m
}

} // verus!

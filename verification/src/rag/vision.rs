//! Turning images and video into retrievable text with local models: the
//! requests made and how their answers are put together.
use vstd::prelude::*;

use crate::team::{b64_encode, spec_b64_encode};
use crate::text::{join, join_strings, push_str, spec_to_lowercase, str_eq, string_views, to_lowercase};

verus! {

/// The media type of an image with the given lowercase extension: PNG for
/// an unknown or missing one.
pub open spec fn spec_image_mime(ext: Option<Seq<char>>) -> Seq<char> {
    match ext {
        Some(e) => if e == "png"@ {
            "image/png"@
        } else if e == "jpg"@ || e == "jpeg"@ {
            "image/jpeg"@
        } else if e == "webp"@ {
            "image/webp"@
        } else if e == "gif"@ {
            "image/gif"@
        } else {
            "image/png"@
        },
        None => "image/png"@,
    }
}

/// The media type of an image file with extension `ext` (compared without
/// regard to case).
pub fn image_mime(ext: Option<&str>) -> (m: &'static str)
    ensures
        m@ == spec_image_mime(
            match ext {
                Some(e) => Some(spec_to_lowercase(e@)),
                None => None,
            },
        ),
{
    match ext {
        None => "image/png",
        Some(e) => {
            let l = to_lowercase(e);
            let l = l.as_str();
            if str_eq(l, "png") {
                "image/png"
            } else if str_eq(l, "jpg") || str_eq(l, "jpeg") {
                "image/jpeg"
            } else if str_eq(l, "webp") {
                "image/webp"
            } else if str_eq(l, "gif") {
                "image/gif"
            } else {
                "image/png"
            }
        },
    }
}

/// The data URL that carries an image to the vision model.
pub open spec fn spec_image_data_url(mime: Seq<char>, bytes: Seq<u8>) -> Seq<char> {
    "data:"@ + mime + ";base64,"@ + spec_b64_encode(bytes)
}

/// The data URL that carries the image `bytes` of type `mime`.
pub fn image_data_url(mime: &str, bytes: &[u8]) -> (u: String)
    ensures
        u@ == spec_image_data_url(mime@, bytes@),
{
    let mut u = "data:".to_owned();
    push_str(&mut u, mime);
    push_str(&mut u, ";base64,");
    let b = b64_encode(bytes);
    push_str(&mut u, b.as_str());
    u
}

/// What the vision model is asked about an image.
pub fn describe_instruction() -> (s: &'static str)
    ensures
        s@ == "Describe this image in detail for retrieval. Mention any text, objects, charts, and context."@,
{
    "Describe this image in detail for retrieval. Mention any text, objects, charts, and context."
}

/// The text of a video from the descriptions of its frames: the
/// descriptions separated by blank lines, or an error when no frame could
/// be described.
pub fn frames_text(descriptions: &Vec<String>) -> (r: Result<String, String>)
    ensures
        descriptions.len() == 0 ==> (r matches Err(m) && m@ == "no frames could be described"@),
        descriptions.len() > 0 ==> (r matches Ok(t) && t@ == join(
            string_views(descriptions@),
            "\n\n"@,
        )),
{
    if descriptions.len() == 0 {
        return Err("no frames could be described".to_owned());
    }
    Ok(join_strings(descriptions, "\n\n"))
}

} // verus!

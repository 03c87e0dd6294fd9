//! The metadata of a GGUF file, as `candle_core` reads it.
use candle_core::quantized::gguf_file::Content;
use vstd::prelude::*;

verus! {

/// `candle_core`'s `gguf_file::Content`, carried as it is.
#[verifier::external_type_specification]
#[verifier::external_body]
pub struct ExContent(Content);

/// The entries of the metadata whose value is a text.
pub uninterp spec fn metadata_texts(content: Content) -> Map<Seq<char>, Seq<char>>;

/// A lookup in `Content::metadata`, with `gguf_file::Value::to_string` on what is found: the
/// text of the entry `key`, nothing where there is no such entry or its value is of another
/// type.
#[verifier::external_body]
pub(crate) fn metadata_text(content: &Content, key: &str) -> (r: Option<String>)
    ensures
        r is Some <==> metadata_texts(*content).dom().contains(key@),
        r matches Some(text) ==> metadata_texts(*content)[key@] == text@,
{
    content.metadata.get(key).and_then(|v| v.to_string().ok()).cloned()
}

} // verus!

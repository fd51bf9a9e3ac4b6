use vstd::prelude::*;
use vstd::string::StringExecFns;
use crate::text::{chunk_views, chunked, preprocess_text};

verus! {

/// The model generations that the service can drive.
#[derive(Debug, Clone, Copy, PartialEq, Eq, Structural)]
pub enum ModelVariant {
    Fish1_2,
    Fish1_4,
    Fish1_5,
}

/// The system prompt that a model generation expects before the text, if any.
pub open spec fn system_prompt_of(v: ModelVariant) -> Option<Seq<char>> {
    match v {
        ModelVariant::Fish1_5 => Some("Speak out the provided text."@),
        ModelVariant::Fish1_2 => None,
        ModelVariant::Fish1_4 => None,
    }
}

pub fn system_prompt(v: ModelVariant) -> (r: Option<String>)
    ensures
        system_prompt_of(v) is Some <==> r is Some,
        r matches Some(s) ==> Some(s@) == system_prompt_of(v),
{
    match v {
        ModelVariant::Fish1_5 => Some(String::from_str("Speak out the provided text.")),
        ModelVariant::Fish1_2 => None,
        ModelVariant::Fish1_4 => None,
    }
}

/// The text of the request run once before the service takes traffic.
pub const WARMUP_TEXT: &'static str = "Warmup inference to initialize model caches.";

/// The chunks of the warmup request.
pub fn warmup_chunks() -> (r: Vec<String>)
    ensures
        chunked(WARMUP_TEXT@, chunk_views(r@)),
{
    preprocess_text(WARMUP_TEXT)
}

} // verus!

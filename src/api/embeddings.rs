//! Embedding requests.
use vstd::prelude::*;

verus! {

/// A request for the embeddings of some texts.
#[derive(Clone, Debug, PartialEq, Eq)]
pub struct EmbeddingsRequest {
    /// The endpoint id of the model.
    pub model: String,
    /// The texts to embed.
    pub input: Vec<String>,
    /// `float` or `base64`; the service takes `float` when it is absent.
    pub encoding_format: Option<String>,
}

impl EmbeddingsRequest {
    /// A request for `input` on `model`, in the default encoding.
    pub fn new(model: String, input: Vec<String>) -> (r: Self)
        ensures
            r.model == model,
            r.input == input,
            r.encoding_format is None,
    {
        EmbeddingsRequest { model, input, encoding_format: None }
    }

    /// The same request, in the encoding `format`.
    pub fn with_encoding_format(self, format: String) -> (r: Self)
        ensures
            r.model == self.model,
            r.input == self.input,
            r.encoding_format == Some(format),
    {
        EmbeddingsRequest { encoding_format: Some(format), ..self }
    }
}

/// Token counts of an embeddings request.
#[derive(Clone, Copy, Debug, PartialEq, Eq)]
pub struct Usage {
    pub prompt_tokens: u32,
    pub total_tokens: u32,
}

} // verus!

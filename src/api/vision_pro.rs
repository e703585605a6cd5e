//! Messages of requests about images, and the parts of answers that carry
//! no floating-point data.
use vstd::prelude::*;

verus! {

/// One message of a conversation about images, tagged by its role.
#[derive(Clone, Debug, PartialEq, Eq)]
pub enum VisionProMessage {
    System(SystemMessage),
    User(UserMessage),
    Assistant(AssistantMessage),
}

/// A system message.
#[derive(Clone, Debug, PartialEq, Eq)]
pub struct SystemMessage {
    pub content: String,
}

/// What a part of a user message holds.
#[derive(Clone, Copy, Debug, PartialEq, Eq)]
pub enum ContentType {
    Text,
    ImageUrl,
}

impl Default for ContentType {
    fn default() -> (r: Self)
        ensures
            r == ContentType::Text,
    {
        ContentType::Text
    }
}

/// The address of an image.
#[derive(Clone, Debug, PartialEq, Eq)]
pub struct ImageUrlType {
    pub url: String,
}

/// A part of a user message: a text or an image.
#[derive(Clone, Debug, PartialEq, Eq)]
pub struct Content {
    pub kind: ContentType,
    pub text: Option<String>,
    pub image_url: Option<ImageUrlType>,
}

impl Default for Content {
    fn default() -> (r: Self)
        ensures
            r.kind == ContentType::Text,
            r.text is None,
            r.image_url is None,
    {
        Content { kind: ContentType::Text, text: None, image_url: None }
    }
}

impl Content {
    /// A text part.
    pub fn text(text: String) -> (r: Self)
        ensures
            r.kind == ContentType::Text,
            r.text == Some(text),
            r.image_url is None,
    {
        Content { kind: ContentType::Text, text: Some(text), image_url: None }
    }

    /// An image part.
    pub fn image(url: String) -> (r: Self)
        ensures
            r.kind == ContentType::ImageUrl,
            r.text is None,
            r.image_url == Some(ImageUrlType { url }),
    {
        Content { kind: ContentType::ImageUrl, text: None, image_url: Some(ImageUrlType { url }) }
    }
}

/// A user message of several parts.
#[derive(Clone, Debug, PartialEq, Eq)]
pub struct UserMessage {
    pub content: Vec<Content>,
}

/// An earlier answer of the assistant.
#[derive(Clone, Debug, PartialEq, Eq)]
pub struct AssistantMessage {
    pub content: String,
}

/// Options of a streamed answer.
#[derive(Clone, Debug, PartialEq, Eq)]
pub struct StreamOptionsParam {
    pub include_usage: Option<bool>,
}

/// The message of a complete answer.
#[derive(Clone, Debug, PartialEq, Eq)]
pub struct Message {
    /// Always `assistant`.
    pub role: String,
    pub content: String,
}

/// Token counts of a request.
#[derive(Clone, Copy, Debug, PartialEq, Eq)]
pub struct Usage {
    pub prompt_tokens: usize,
    pub completion_tokens: usize,
    pub total_tokens: usize,
}

} // verus!

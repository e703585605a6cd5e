//! The request and response types of the service's endpoints.
pub mod chat_completion;
pub mod embeddings;
pub mod vision_pro;

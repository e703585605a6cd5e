use llm_sdk::api::embeddings::EmbeddingsRequest;
use llm_sdk::api::vision_pro::{Content, ContentType, ImageUrlType};
use llm_sdk::error::StreamError;
use llm_sdk::{check_status, is_error_status, LlmSdk};

#[test]
fn new_uses_default_address() {
    let sdk = LlmSdk::new("k".to_string());
    assert_eq!(sdk.key, "k");
    assert_eq!(sdk.base_url, "http://ark.cn-beijing.volces.com/api/v3");
}

#[test]
fn endpoint_addresses() {
    let sdk = LlmSdk::new("k".to_string());
    assert_eq!(sdk.chat_completions_url(), "http://ark.cn-beijing.volces.com/api/v3/chat/completions");
    assert_eq!(sdk.embeddings_url(), "http://ark.cn-beijing.volces.com/api/v3/embeddings");
}

#[test]
fn error_statuses_are_surfaced() {
    assert!(check_status(200, String::new()).is_ok());
    assert!(check_status(399, String::new()).is_ok());
    assert!(check_status(600, String::new()).is_ok());
    let e = check_status(404, "missing".to_string()).unwrap_err();
    assert_eq!(e.status, 404);
    assert_eq!(e.body, "missing");
    assert_eq!(check_status(599, String::new()).unwrap_err().status, 599);
    assert!(check_status(400, String::new()).is_err());
}

#[test]
fn embeddings_request_fields() {
    let r = EmbeddingsRequest::new(
        "ep-20241023154013-pzht4".to_string(),
        vec![String::from("天很蓝"), String::from("海很深")],
    );
    assert_eq!(r.model, "ep-20241023154013-pzht4");
    assert_eq!(r.input.len(), 2);
    assert_eq!(r.encoding_format, None);
    let r = r.with_encoding_format("base64".to_string());
    assert_eq!(r.encoding_format.as_deref(), Some("base64"));
}

#[test]
fn content_parts() {
    let t = Content::text("who are you?".to_string());
    assert_eq!(t.kind, ContentType::Text);
    let i = Content::image("https://example.com/view.jpeg".to_string());
    assert_eq!(i.kind, ContentType::ImageUrl);
    assert_eq!(i.image_url, Some(ImageUrlType { url: "https://example.com/view.jpeg".to_string() }));
    assert_eq!(Content::default().kind, ContentType::Text);
}

#[test]
fn error_messages_differ() {
    let all = [
        StreamError::Transport,
        StreamError::FrameTruncation,
        StreamError::PayloadDecode,
        StreamError::ProtocolViolation,
    ];
    for a in all.iter() {
        for b in all.iter() {
            assert_eq!(a == b, a.message() == b.message());
        }
    }
}

#[test]
fn error_status_range() {
    assert!(!is_error_status(200));
    assert!(!is_error_status(304));
    assert!(is_error_status(400));
    assert!(is_error_status(503));
    assert!(!is_error_status(600));
}

use inference_bridge::chat::{
    build_openai_content_parts, build_openai_messages, ApiContentPart, ApiMessageContent,
    PreparedMessage,
};

fn prepared(role: &str, content: &str, image: Option<&str>) -> PreparedMessage {
    PreparedMessage {
        role: role.to_string(),
        content: content.to_string(),
        image_base64: image.map(|i| i.to_string()),
    }
}

#[test]
fn builds_openai_image_content_parts_without_marker_text() {
    let parts = build_openai_content_parts("what is this?", Some("QUFB"));
    assert_eq!(parts.len(), 2);
    assert!(matches!(parts[0], ApiContentPart::Text { .. }));
    assert!(matches!(parts[1], ApiContentPart::ImageUrl { .. }));
}

#[test]
fn blank_text_leaves_only_the_image() {
    let parts = build_openai_content_parts("  \n ", Some("QUFB"));
    assert_eq!(
        parts,
        vec![ApiContentPart::ImageUrl { url: "data:image/png;base64,QUFB".to_string() }]
    );
    assert!(build_openai_content_parts("", None).is_empty());
}

#[test]
fn only_messages_with_images_become_parts() {
    let messages = vec![
        prepared("user", "hello", None),
        prepared("assistant", "Hello!", None),
        prepared("user", "[img-1]\nwhat is in this image?", Some("QUFBQQ==")),
    ];
    let out = build_openai_messages(&messages);
    assert_eq!(out.len(), 3);
    assert_eq!(out[0].role, "user");
    assert_eq!(out[0].content, ApiMessageContent::Text("hello".to_string()));
    assert_eq!(out[1].content, ApiMessageContent::Text("Hello!".to_string()));
    assert_eq!(
        out[2].content,
        ApiMessageContent::Parts(vec![
            ApiContentPart::Text { text: "what is in this image?".to_string() },
            ApiContentPart::ImageUrl { url: "data:image/png;base64,QUFBQQ==".to_string() },
        ])
    );
}

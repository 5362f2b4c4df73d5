use imglang::document::Document;

#[test]
fn document_path_and_content() {
    let mut doc = Document::default();
    assert!(!doc.can_save());
    assert_eq!("", doc.content());
    doc.content_mut().push_str("let r = extern(1, 2);");
    assert_eq!("let r = extern(1, 2);", doc.content());
    doc.set_path("scene.rhai".to_string());
    assert!(doc.can_save());
    assert_eq!(Some("scene.rhai"), doc.path());
    let other = Document::new("x".to_string(), None);
    assert!(!other.can_save());
    assert_eq!("x", other.content());
}

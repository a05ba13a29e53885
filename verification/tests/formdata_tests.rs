use pocketbase_sdk::formdata::{guess_mime_type, FileData, FormDataBuilder, FormValue};

#[test]
fn test_guess_mime_type() {
    assert_eq!(guess_mime_type("test.jpg"), Some("image/jpeg".to_string()));
    assert_eq!(guess_mime_type("test.png"), Some("image/png".to_string()));
    assert_eq!(
        guess_mime_type("test.pdf"),
        Some("application/pdf".to_string())
    );
    assert_eq!(
        guess_mime_type("unknown.xyz"),
        Some("application/octet-stream".to_string())
    );
}

#[test]
fn test_guess_mime_type_cases() {
    assert_eq!(guess_mime_type("photo.JPG"), Some("image/jpeg".to_string()));
    assert_eq!(guess_mime_type("dir/archive.tar"), Some("application/x-tar".to_string()));
    assert_eq!(guess_mime_type("noextension"), Some("application/octet-stream".to_string()));
    assert_eq!(guess_mime_type(".hidden"), Some("application/octet-stream".to_string()));
}

#[test]
fn test_has_files() {
    let form_without_files = FormDataBuilder::new().text("name", "test");
    assert!(!form_without_files.has_files());

    let form_with_files = FormDataBuilder::new().text("name", "test").file(
        "avatar",
        FileData::new("avatar.png", vec![1, 2, 3], Some("image/png")),
    );
    assert!(form_with_files.has_files());
}

#[test]
fn test_form_data_builder_fields() {
    let form = FormDataBuilder::new()
        .text("name", "test")
        .text("count", "42")
        .build();
    assert_eq!(form.len(), 2);
    assert_eq!(form[0].0, "name");
    match &form[0].1 {
        FormValue::Text(t) => assert_eq!(t, "test"),
        _ => panic!("expected a text field"),
    }
}

#[test]
fn test_file_data_new() {
    let f = FileData::new("a.txt", vec![1, 2], None);
    assert_eq!(f.name, "a.txt");
    assert_eq!(f.data, vec![1, 2]);
    assert!(f.mime_type.is_none());
}

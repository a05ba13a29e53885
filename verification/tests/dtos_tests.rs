use pocketbase_sdk::dtos::{AsyncAuthStoreError, ListResult};

#[test]
fn test_list_result_default() {
    let r: ListResult<String> = ListResult::default();
    assert_eq!(r.page, 1);
    assert_eq!(r.per_page, 30);
    assert_eq!(r.total_items, 0);
    assert_eq!(r.total_pages, 0);
    assert!(r.items.is_empty());
}

#[test]
fn test_async_auth_store_error_message() {
    let e = AsyncAuthStoreError::Io("boom".to_string());
    assert_eq!(e.message(), "boom");
}

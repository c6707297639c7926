use cratedb::backend::make_blob_url;
use cratedb::error::BackendError;

#[test]
fn valid_make_blob_url() {
    assert_eq!(
        make_blob_url(Some("https://my_url".to_string()), "a", b"1234").ok(),
        Some("https://my_url/a/31323334".to_string())
    );

    assert_eq!(
        make_blob_url(Some("https://localhost:4200/_blobs".to_string()), "my_table", b"ff").ok(),
        Some("https://localhost:4200/_blobs/my_table/6666".to_string())
    );
}

#[test]
fn invalid_make_blob_url() {
    assert_eq!(
        make_blob_url(None, "a", b"1234"),
        Err(BackendError::new("No URL specified".to_string()))
    );

    assert_eq!(
        make_blob_url(Some("https://my_url".to_string()), "a", b"1234").ok(),
        Some("https://my_url/a/31323334".to_string())
    );

    assert_eq!(
        make_blob_url(Some("https://localhost:4200/_blobs".to_string()), "my_table", b"ff").ok(),
        Some("https://localhost:4200/_blobs/my_table/6666".to_string())
    );
}

#[test]
fn trailing_slash_is_not_doubled() {
    assert_eq!(
        make_blob_url(Some("https://my_url/".to_string()), "a", b"1234").ok(),
        Some("https://my_url/a/31323334".to_string())
    );
}

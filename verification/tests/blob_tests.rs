use cratedb::backend::{Backend, BackendResult};
use cratedb::blob::{BlobContainer, BlobRef};
use cratedb::common::{sha1_digest, from_hex_string};
use cratedb::dbcluster::DBCluster;
use cratedb::error::{BackendError, BlobError};

#[derive(PartialEq, Clone)]
struct MockBlob {
    contents: Vec<u8>,
    sha1: Vec<u8>,
    bucket: String,
}

struct MockBackend {
    response: String,
    blobs: Vec<MockBlob>,
    result: BackendResult,
}

impl MockBackend {
    fn new(response: String, blobs: Vec<MockBlob>, result: BackendResult) -> MockBackend {
        MockBackend {
            response,
            blobs,
            result,
        }
    }
}

impl Backend for MockBackend {
    fn execute(&self, to: Option<String>, payload: String) -> Result<String, BackendError> {
        let _ = (to, payload);
        Ok(self.response.clone())
    }

    fn upload_blob(
        &self,
        _to: Option<String>,
        bucket: &str,
        sha1: &[u8],
        content: &[u8],
    ) -> Result<BackendResult, BackendError> {
        let sha1_v = sha1.to_vec();
        if let BackendResult::Success = self.result {
            if let Ok(blob_pos) = self.blobs.binary_search_by(|e| e.sha1.cmp(&sha1_v)) {
                let blob = &self.blobs[blob_pos];
                assert_eq!(blob.sha1, sha1_v);
                assert_eq!(blob.bucket, bucket);
                assert_eq!(blob.contents, content);
            }
        }
        Ok(self.result)
    }

    fn delete_blob(
        &self,
        _to: Option<String>,
        bucket: &str,
        sha1: &[u8],
    ) -> Result<BackendResult, BackendError> {
        let sha1_v = sha1.to_vec();
        if let BackendResult::Success = self.result {
            if let Ok(blob_pos) = self.blobs.binary_search_by(|e| e.sha1.cmp(&sha1_v)) {
                let blob = &self.blobs[blob_pos];
                assert_eq!(blob.sha1, sha1_v);
                assert_eq!(blob.bucket, bucket);
            }
        }
        Ok(self.result)
    }

    fn fetch_blob(
        &self,
        _to: Option<String>,
        bucket: &str,
        sha1: &[u8],
    ) -> Result<(BackendResult, Vec<u8>), BackendError> {
        let sha1_v = sha1.to_vec();
        if let BackendResult::Success = self.result {
            if let Ok(blob_pos) = self.blobs.binary_search_by(|e| e.sha1.cmp(&sha1_v)) {
                let blob = &self.blobs[blob_pos];
                assert_eq!(blob.sha1, sha1_v);
                assert_eq!(blob.bucket, bucket);
                return Ok((BackendResult::Success, blob.contents.clone()));
            }
        }
        Ok((self.result, vec![]))
    }
}

fn new_cluster_with_blobs(
    response: &str,
    blobs: Vec<MockBlob>,
    result: BackendResult,
) -> DBCluster<MockBackend> {
    DBCluster::with_custom_backend(vec![], MockBackend::new(response.to_owned(), blobs, result))
}

#[test]
fn blob_upload() {
    let blob_a = vec![0x11, 0x12, 0x34, 0x53, 0x63, 0xAA, 0xFF];
    let bucket = "bucket".to_string();
    let expected_sha1 = sha1_digest(&blob_a);
    let blobs = vec![MockBlob {
        sha1: expected_sha1.clone(),
        contents: blob_a.clone(),
        bucket: bucket.clone(),
    }];
    let cluster = new_cluster_with_blobs("", blobs, BackendResult::Success);

    let result = cluster.put(&bucket, &blob_a).unwrap();

    assert_eq!(result.sha1, expected_sha1);
    assert_eq!(result.table, bucket);
}

#[test]
fn error_blob_upload() {
    let blob_a = vec![0x11, 0x12, 0x34, 0x53, 0x63, 0xAA, 0xFF];
    let bucket = "bucket".to_string();

    let cluster = new_cluster_with_blobs("", vec![], BackendResult::NotFound);
    let error = cluster.put(&bucket, &blob_a).unwrap_err();
    match error {
        BlobError::Action(crate_error) => {
            assert_eq!(crate_error.message, "Could not upload BLOB. Not found.");
            assert_eq!(crate_error.code, "404");
        }
        _ => panic!("Unexpected Error was returned"),
    }
}

#[test]
fn blob_download() {
    let blob_a = vec![0x11, 0x12, 0x34, 0x53, 0x63, 0xAA, 0xFF];
    let bucket = "bucket".to_string();
    let expected_sha1 = sha1_digest(&blob_a);
    let blobs = vec![MockBlob {
        sha1: expected_sha1.clone(),
        contents: blob_a.clone(),
        bucket: bucket.clone(),
    }];

    let blobref = BlobRef {
        sha1: expected_sha1.clone(),
        table: bucket.clone(),
    };

    let cluster = new_cluster_with_blobs("", blobs, BackendResult::Success);
    let buffer = cluster.get(&blobref).unwrap();
    assert_eq!(buffer, blob_a);
}

#[test]
fn error_blob_download() {
    let sha1 = "4a756ca07e9487f482465a99e8286abc86ba4dc7";
    let expected_sha1 = from_hex_string(sha1).unwrap();
    let bucket = "bucket".to_string();
    let blobref = BlobRef {
        sha1: expected_sha1.clone(),
        table: bucket.clone(),
    };

    let cluster = new_cluster_with_blobs("", vec![], BackendResult::NotFound);
    let error = cluster.get(&blobref).err();
    match error {
        Some(BlobError::Action(crate_error)) => {
            assert_eq!(crate_error.message, "Could not fetch BLOB. Not found.");
            assert_eq!(crate_error.code, "404");
        }
        _ => panic!("Unexpected Error was returned"),
    }
}

#[test]
fn blob_delete() {
    let blob_a = vec![0x11, 0x12, 0x34, 0x53, 0x63, 0xAA, 0xFF];
    let bucket = "bucket".to_string();
    let expected_sha1 = sha1_digest(&blob_a);
    let blobs = vec![MockBlob {
        sha1: expected_sha1.clone(),
        contents: blob_a.clone(),
        bucket: bucket.clone(),
    }];

    let blobref = BlobRef {
        sha1: expected_sha1.clone(),
        table: bucket.clone(),
    };

    let cluster = new_cluster_with_blobs("", blobs, BackendResult::Success);

    assert!(cluster.delete(blobref).is_ok());
}

#[test]
fn error_blob_delete() {
    let sha1 = "4a756ca07e9487f482465a99e8286abc86ba4dc7";
    let expected_sha1 = from_hex_string(sha1).unwrap();
    let bucket = "bucket".to_string();
    let blobref = BlobRef {
        sha1: expected_sha1.clone(),
        table: bucket.clone(),
    };

    let cluster = new_cluster_with_blobs("", vec![], BackendResult::NotFound);
    let error = cluster.delete(blobref).unwrap_err();
    match error {
        BlobError::Action(crate_error) => {
            assert_eq!(crate_error.message, "Could not delete BLOB. Not found.");
            assert_eq!(crate_error.code, "404");
        }
        _ => panic!("Unexpected Error was returned"),
    }
}

#[test]
fn blob_list() {
    let sha1 = "4a756ca07e9487f482465a99e8286abc86ba4dc7";
    let expected_sha1 = from_hex_string(sha1).unwrap();
    let bucket = "bucket".to_string();
    let blobref = BlobRef {
        sha1: expected_sha1.clone(),
        table: bucket.clone(),
    };

    let cluster = new_cluster_with_blobs(
        &format!(
            "{{\"cols\":[\"digest\"],\"rows\":[[\"{}\"]],\"rowcount\":1,\"duration\":0.206}}",
            sha1
        ),
        vec![],
        BackendResult::Success,
    );

    let expected = vec![blobref.clone()];
    assert_eq!(cluster.list(&bucket).unwrap(), expected);
}

#[test]
fn error_blob_list() {
    let bucket = "bucket".to_string();
    let cluster = new_cluster_with_blobs(
        &format!(
            "{{\"error\":{{\"message\":\"SQLActionException[TableUnknownException: Table 'blob.{}' unknown]\",\"code\":4041}}}}",
            bucket
        ),
        vec![],
        BackendResult::NotFound,
    );
    let error = cluster.list(&bucket).unwrap_err();
    match error {
        BlobError::Action(crate_error) => {
            assert_eq!(
                crate_error.message,
                format!(
                    "SQLActionException[TableUnknownException: Table 'blob.{}' unknown]",
                    bucket
                )
            );
            assert_eq!(crate_error.code, "4041");
        }
        _ => panic!("Unexpected Error was returned"),
    }
}

#[test]
fn blob_list_drops_invalid_digests() {
    // two well-formed hexadecimal digests, one entry of odd length
    // and one with characters outside the alphabet: exactly the two
    // valid entries come back
    let cluster = new_cluster_with_blobs(
        "{\"cols\":[\"digest\"],\"rows\":[[\"ff00\"],[\"abc\"],[\"zz\"],[\"0a0b\"]],\"rowcount\":4,\"duration\":0.1}",
        vec![],
        BackendResult::Success,
    );
    let refs = cluster.list("b").unwrap();
    assert_eq!(refs.len(), 2);
    assert_eq!(refs[0].sha1, vec![255, 0]);
    assert_eq!(refs[1].sha1, vec![10, 11]);
    assert_eq!(refs[0].table, "b");
}

#[test]
fn upload_round_trip_preserves_content() {
    // the digest addresses the content: what was put comes back
    let data = vec![1u8, 2, 3, 4, 5];
    let bucket = "bucket".to_string();
    let digest = sha1_digest(&data);
    let blobs = vec![MockBlob {
        sha1: digest.clone(),
        contents: data.clone(),
        bucket: bucket.clone(),
    }];
    let cluster = new_cluster_with_blobs("", blobs, BackendResult::Success);
    let r = cluster.put(&bucket, &data).unwrap();
    assert_eq!(r.sha1, digest);
    let back = cluster.get(&r).unwrap();
    assert_eq!(back, data);
}

#[test]
fn put_twice_yields_equal_refs() {
    // content addressing is idempotent
    let data = vec![9u8, 9, 9];
    let bucket = "bucket".to_string();
    let cluster = new_cluster_with_blobs("", vec![], BackendResult::Success);
    let r1 = cluster.put(&bucket, &data).unwrap();
    let r2 = cluster.put(&bucket, &data).unwrap();
    assert_eq!(r1, r2);
}

#[test]
fn blob_outcome_errors() {
    let data = vec![1u8];
    let bucket = "bucket".to_string();
    for (result, message, code) in [
        (
            BackendResult::NotAuthorized,
            "Could not upload BLOB: Not authorized.",
            "403",
        ),
        (BackendResult::Timeout, "Could not upload BLOB. Timed out.", "408"),
        (BackendResult::Error, "Could not upload BLOB. Server error.", "500"),
    ] {
        let cluster = new_cluster_with_blobs("", vec![], result);
        match cluster.put(&bucket, &data).unwrap_err() {
            BlobError::Action(e) => {
                assert_eq!(e.message, message);
                assert_eq!(e.code, code);
            }
            _ => panic!("Unexpected Error was returned"),
        }
    }
}

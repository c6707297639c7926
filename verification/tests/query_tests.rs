use cratedb::backend::{Backend, BackendResult};
use cratedb::dbcluster::DBCluster;
use cratedb::error::{BackendError, CrateDBError};
use cratedb::json::Json;
use cratedb::row::{Row, ByIndex};
use cratedb::sql::QueryRunner;

struct MockBackend {
    response: String,
}

impl Backend for MockBackend {
    fn execute(&self, to: Option<String>, payload: String) -> Result<String, BackendError> {
        let _ = (to, payload);
        Ok(self.response.clone())
    }

    fn upload_blob(
        &self,
        _to: Option<String>,
        _bucket: &str,
        _sha1: &[u8],
        _content: &[u8],
    ) -> Result<BackendResult, BackendError> {
        Ok(BackendResult::Success)
    }

    fn delete_blob(
        &self,
        _to: Option<String>,
        _bucket: &str,
        _sha1: &[u8],
    ) -> Result<BackendResult, BackendError> {
        Ok(BackendResult::Success)
    }

    fn fetch_blob(
        &self,
        _to: Option<String>,
        _bucket: &str,
        _sha1: &[u8],
    ) -> Result<(BackendResult, Vec<u8>), BackendError> {
        Ok((BackendResult::Success, vec![]))
    }
}

struct FailingBackend {
    failure: BackendError,
}

impl Backend for FailingBackend {
    fn execute(&self, _to: Option<String>, _payload: String) -> Result<String, BackendError> {
        Err(self.failure.clone())
    }

    fn upload_blob(
        &self,
        _to: Option<String>,
        _bucket: &str,
        _sha1: &[u8],
        _content: &[u8],
    ) -> Result<BackendResult, BackendError> {
        Err(self.failure.clone())
    }

    fn delete_blob(
        &self,
        _to: Option<String>,
        _bucket: &str,
        _sha1: &[u8],
    ) -> Result<BackendResult, BackendError> {
        Err(self.failure.clone())
    }

    fn fetch_blob(
        &self,
        _to: Option<String>,
        _bucket: &str,
        _sha1: &[u8],
    ) -> Result<(BackendResult, Vec<u8>), BackendError> {
        Err(self.failure.clone())
    }
}

fn new_cluster(response: &str) -> DBCluster<MockBackend> {
    DBCluster::with_custom_backend(
        vec![],
        MockBackend {
            response: response.to_owned(),
        },
    )
}

fn collect_rows(mut it: cratedb::rowiterator::RowIterator) -> Vec<Row> {
    let mut rows = Vec::new();
    while let Some(r) = it.next() {
        rows.push(r);
    }
    rows
}

fn test_obj() -> Json {
    Json::Obj(vec![
        ("a".to_string(), Json::Num("1".to_string())),
        ("b".to_string(), Json::Str("asd".to_string())),
        ("c".to_string(), Json::Num("3.14".to_string())),
    ])
}

#[test]
fn parameter_query() {
    let cluster = new_cluster(
        "{\"cols\":[\"name\"],\"rows\":[[\"A\"]],\"rowcount\":1,\
         \"duration\":0.206}",
    );
    let params = Json::Arr(vec![Json::Str("hello".to_string())]);
    let result = cluster.query("select name from mytable where a = ?", Some(&params));
    assert!(result.is_ok());
    let (t, result) = result.unwrap();
    assert_eq!(t.parse::<f64>().unwrap(), 0.206f64);
    let rows: Vec<Row> = collect_rows(result);
    assert_eq!(rows.len(), 1);
    assert_eq!(rows.get(0).unwrap().as_string(0).unwrap(), "A".to_owned());

    let params = Json::Arr(vec![Json::Num("1".to_string()), test_obj()]);
    let result = cluster.query("insert into mytable (v1, v2) values (?, ?)", Some(&params));
    assert!(result.is_ok());
    let (t, result) = result.unwrap();
    assert_eq!(t.parse::<f64>().unwrap(), 0.206f64);
    assert_eq!(result.len(), 1);
    assert_eq!(rows.get(0).unwrap().as_string(0).unwrap(), "A".to_owned());
}

#[test]
fn no_parameter_query() {
    let cluster = new_cluster(
        "{\"cols\":[\"name\"],\"rows\":[[\"A\"]],\"rowcount\":1,\
         \"duration\":0.206}",
    );
    let result = cluster.query("select name from mytable where a = 'hello'", None);
    assert!(result.is_ok());
    let (t, result) = result.unwrap();
    assert_eq!(t.parse::<f64>().unwrap(), 0.206f64);
    let rows: Vec<Row> = collect_rows(result);
    assert_eq!(rows.len(), 1);
    assert_eq!(rows.get(0).unwrap().as_string(0).unwrap(), "A".to_owned());
}

#[test]
fn bulk_parameter_query() {
    let cluster = new_cluster(
        "{\"cols\": [], \"results\":[{\"rowcount\": 1}, \
         {\"rowcount\": 2}, {\"rowcount\": 3}],
         \
         \"duration\":0.206}",
    );
    let params = Json::Arr(vec![
        Json::Str("hello".to_string()),
        Json::Str("world".to_string()),
        Json::Str("lalala".to_string()),
    ]);
    let result = cluster.bulk_query("update mytable set v = 1 where a = ?", &params);
    assert!(result.is_ok());
    let (t, result) = result.unwrap();
    assert_eq!(t.parse::<f64>().unwrap(), 0.206f64);
    assert_eq!(result.len(), 3);
    assert_eq!(result.get(0).unwrap(), &1i64);
    assert_eq!(result.get(1).unwrap(), &2i64);
    assert_eq!(result.get(2).unwrap(), &3i64);
}

#[test]
fn error_bulk_parameter_query() {
    let cluster = new_cluster(
        "{\"error\":{\"message\":\"ReadOnlyException[Only read \
         operations are allowed on this node]\",\"code\":5000}}",
    );
    let params = Json::Arr(vec![
        Json::Str("hello".to_string()),
        Json::Str("world".to_string()),
        Json::Str("lalala".to_string()),
    ]);
    let result = cluster.bulk_query("select name from mytable where a = ?", &params);
    assert!(result.is_err());
    println!("here");
    let e = result.err().unwrap();
    let expected = CrateDBError::new(
        "ReadOnlyException[Only read operations are allowed on \
         this node]",
        "5000",
    );
    assert_eq!(e, expected);
}

#[test]
fn error_parameter_query() {
    let cluster = new_cluster(
        "{\"error\":{\"message\":\"ReadOnlyException[Only read \
         operations are allowed on this node]\",\"code\":5000}}",
    );
    let result = cluster.query("create table a(a string, b long)", None);
    assert!(result.is_err());
    let e = result.err().unwrap();
    let expected = CrateDBError::new(
        "ReadOnlyException[Only read operations are allowed on \
         this node]",
        "5000",
    );
    assert_eq!(e, expected);
}

#[test]
fn non_json_backend_error() {
    let cluster = new_cluster("this is wrong my friend :{");

    let result = cluster.query("select * from sys.nodes", None);
    assert!(result.is_err());
    let e = result.err().unwrap();
    let expected = CrateDBError::new("Invalid JSON was returned: this is wrong my friend :{", "500");
    assert_eq!(e, expected);

    // bulk queries:
    let params = Json::Str("{}".to_string());
    let result = cluster.bulk_query("select * from sys.nodes", &params);
    assert!(result.is_err());
    let e = result.err().unwrap();
    let expected = CrateDBError::new("Invalid JSON was returned: this is wrong my friend :{", "500");
    assert_eq!(e, expected);
}

#[test]
fn transport_failure_surfaces_as_invalid_json() {
    // a transport failure is decoded like any body and surfaces as
    // the invalid-JSON error that embeds the failure's description
    let cluster = DBCluster::with_custom_backend(
        vec![],
        FailingBackend {
            failure: BackendError::new("boom".to_string()),
        },
    );
    let e = cluster.query("select 1", None).err().unwrap();
    assert_eq!(e, CrateDBError::new("Invalid JSON was returned: boom", "500"));
}

//! The content-addressed blob store: references named by SHA-1
//! digest, upload, download, delete, and listing through the SQL
//! catalog.

use vstd::prelude::*;
use vstd::string::*;
use crate::common::{sha1_of, sha1_digest, unhex, from_hex_string};
use crate::error::{BlobError, CrateDBError, error_description};
use crate::backend::{Backend, BackendResult};
use crate::dbcluster::{DBCluster, Loadbalancing, EndpointType};
use crate::sql::QueryRunner;
use crate::row::ByIndex;
use crate::rowiterator::RowIterator;
use crate::json::JsonSpec;

verus! {

/// A reference to a server-side blob: the SHA-1 digest that names its
/// content, and the table (bucket) that holds it.
#[derive(Debug, Clone)]
pub struct BlobRef {
    /// The SHA-1 digest that identifies the blob on the server.
    pub sha1: Vec<u8>,
    /// The table (bucket) where the blob is located on the server.
    pub table: String,
}

impl PartialEq for BlobRef {
    /// Two references are equal exactly when digest and table are.
    fn eq(&self, o: &BlobRef) -> (r: bool) {
        if self.sha1.len() != o.sha1.len() {
            return false;
        }
        let n = self.sha1.len();
        let mut i: usize = 0;
        while i < n
            invariant
                i <= n,
                n == self.sha1@.len(),
                n == o.sha1@.len(),
                forall|k: int| 0 <= k < i ==> self.sha1@[k] == o.sha1@[k],
            decreases n - i,
        {
            if self.sha1[i] != o.sha1[i] {
                return false;
            }
            i = i + 1;
        }
        proof {
            assert(self.sha1@ =~= o.sha1@);
        }
        self.table == o.table
    }
}

impl vstd::std_specs::cmp::PartialEqSpecImpl for BlobRef {
    open spec fn obeys_eq_spec() -> bool {
        true
    }

    open spec fn eq_spec(&self, o: &BlobRef) -> bool {
        self.sha1@ == o.sha1@ && self.table@ == o.table@
    }
}

/// Whether an error value is the fixed pairing of message and code
/// for the given non-success outcome of an upload.
pub open spec fn upload_action_error(status: BackendResult, e: CrateDBError) -> bool {
    match status {
        BackendResult::NotFound => e.message@ == "Could not upload BLOB. Not found."@ && e.code@
            == "404"@,
        BackendResult::NotAuthorized => e.message@ == "Could not upload BLOB: Not authorized."@
            && e.code@ == "403"@,
        BackendResult::Timeout => e.message@ == "Could not upload BLOB. Timed out."@ && e.code@
            == "408"@,
        BackendResult::Error => e.message@ == "Could not upload BLOB. Server error."@ && e.code@
            == "500"@,
        BackendResult::Success => false,
    }
}

/// Whether an error value is the fixed pairing for the given
/// non-success outcome of a deletion.
pub open spec fn delete_action_error(status: BackendResult, e: CrateDBError) -> bool {
    match status {
        BackendResult::NotFound => e.message@ == "Could not delete BLOB. Not found."@ && e.code@
            == "404"@,
        BackendResult::NotAuthorized => e.message@ == "Could not delete BLOB: Not authorized."@
            && e.code@ == "403"@,
        BackendResult::Timeout => e.message@ == "Could not delete BLOB. Timed out."@ && e.code@
            == "408"@,
        BackendResult::Error => e.message@ == "Could not delete BLOB. Server error."@ && e.code@
            == "500"@,
        BackendResult::Success => false,
    }
}

/// Whether an error value is the fixed pairing for the given
/// non-success outcome of a fetch.
pub open spec fn fetch_action_error(status: BackendResult, e: CrateDBError) -> bool {
    match status {
        BackendResult::NotFound => e.message@ == "Could not fetch BLOB. Not found."@ && e.code@
            == "404"@,
        BackendResult::NotAuthorized => e.message@ == "Could not fetch BLOB: Not authorized."@
            && e.code@ == "403"@,
        BackendResult::Timeout => e.message@ == "Could not fetch BLOB. Timed out."@ && e.code@
            == "408"@,
        BackendResult::Error => e.message@ == "Could not fetch BLOB. Server error."@ && e.code@
            == "500"@,
        BackendResult::Success => false,
    }
}

/// Maps an upload outcome to a blob reference or the fixed error for
/// that outcome.
pub fn upload_outcome(status: BackendResult, table: &str, sha1: Vec<u8>) -> (r: Result<
    BlobRef,
    BlobError,
>)
    ensures
        match r {
            Ok(b) => status == BackendResult::Success && b.sha1@ == sha1@ && b.table@ == table@,
            Err(e) => e matches BlobError::Action(a) && upload_action_error(status, a)
                && a.description@ == error_description(a.message@, a.code@),
        },
{
    match status {
        BackendResult::Success => Ok(
            BlobRef { sha1, table: String::from_str(table) },
        ),
        BackendResult::NotFound => Err(
            BlobError::Action(CrateDBError::new("Could not upload BLOB. Not found.", "404")),
        ),
        BackendResult::NotAuthorized => Err(
            BlobError::Action(CrateDBError::new("Could not upload BLOB: Not authorized.", "403")),
        ),
        BackendResult::Timeout => Err(
            BlobError::Action(CrateDBError::new("Could not upload BLOB. Timed out.", "408")),
        ),
        BackendResult::Error => Err(
            BlobError::Action(CrateDBError::new("Could not upload BLOB. Server error.", "500")),
        ),
    }
}

/// Maps a deletion outcome to success or the fixed error for that
/// outcome.
pub fn delete_outcome(status: BackendResult) -> (r: Result<(), BlobError>)
    ensures
        match r {
            Ok(_) => status == BackendResult::Success,
            Err(e) => e matches BlobError::Action(a) && delete_action_error(status, a)
                && a.description@ == error_description(a.message@, a.code@),
        },
{
    match status {
        BackendResult::Success => Ok(()),
        BackendResult::NotFound => Err(
            BlobError::Action(CrateDBError::new("Could not delete BLOB. Not found.", "404")),
        ),
        BackendResult::NotAuthorized => Err(
            BlobError::Action(CrateDBError::new("Could not delete BLOB: Not authorized.", "403")),
        ),
        BackendResult::Timeout => Err(
            BlobError::Action(CrateDBError::new("Could not delete BLOB. Timed out.", "408")),
        ),
        BackendResult::Error => Err(
            BlobError::Action(CrateDBError::new("Could not delete BLOB. Server error.", "500")),
        ),
    }
}

/// Maps a fetch outcome to the fetched content or the fixed error
/// for that outcome.
pub fn fetch_outcome(status: BackendResult, content: Vec<u8>) -> (r: Result<Vec<u8>, BlobError>)
    ensures
        match r {
            Ok(c) => status == BackendResult::Success && c@ == content@,
            Err(e) => e matches BlobError::Action(a) && fetch_action_error(status, a)
                && a.description@ == error_description(a.message@, a.code@),
        },
{
    match status {
        BackendResult::Success => Ok(content),
        BackendResult::NotFound => Err(
            BlobError::Action(CrateDBError::new("Could not fetch BLOB. Not found.", "404")),
        ),
        BackendResult::NotAuthorized => Err(
            BlobError::Action(CrateDBError::new("Could not fetch BLOB: Not authorized.", "403")),
        ),
        BackendResult::Timeout => Err(
            BlobError::Action(CrateDBError::new("Could not fetch BLOB. Timed out.", "408")),
        ),
        BackendResult::Error => Err(
            BlobError::Action(CrateDBError::new("Could not fetch BLOB. Server error.", "500")),
        ),
    }
}

/// The digest a listing row contributes: its first value, a string of
/// hexadecimal digest characters. Rows of another shape contribute
/// nothing and are dropped.
pub open spec fn digest_of_row(row: Seq<JsonSpec>) -> Option<Seq<u8>> {
    if row.len() >= 1 {
        match row[0] {
            JsonSpec::Str(s) => unhex(s),
            _ => None,
        }
    } else {
        None
    }
}

/// The references a listing's rows yield: one per row with a valid
/// hexadecimal digest, in order, all in the listed table.
pub open spec fn refs_model(rows: Seq<Seq<JsonSpec>>, table: Seq<char>) -> Seq<(Seq<u8>, Seq<char>)>
    decreases rows,
{
    if rows.len() == 0 {
        Seq::empty()
    } else {
        let rest = refs_model(rows.drop_first(), table);
        match digest_of_row(rows[0]) {
            Some(d) => seq![(d, table)] + rest,
            None => rest,
        }
    }
}

/// Collects blob references from the rows of a digest listing,
/// silently dropping every row whose digest does not decode.
pub fn collect_blob_refs(rows: RowIterator, table: &str) -> (r: Vec<BlobRef>)
    ensures
        refs_model(rows.remaining(), table@).len() == r@.len(),
        forall|i: int|
            0 <= i < r@.len() ==> (#[trigger] r@[i]).sha1@ == refs_model(
                rows.remaining(),
                table@,
            )[i].0 && r@[i].table@ == table@,
{
    let mut rows = rows;
    let mut out: Vec<BlobRef> = Vec::new();
    let ghost orig = rows.remaining();
    let ghost model = refs_model(orig, table@);
    let mut n = rows.len();
    proof {
        assert(Seq::<(Seq<u8>, Seq<char>)>::empty() + refs_model(rows.remaining(), table@)
            =~= refs_model(rows.remaining(), table@));
    }
    while n > 0
        invariant
            n == rows.remaining().len(),
            model == refs_model(orig, table@),
            model == built_model(out@) + refs_model(rows.remaining(), table@),
            forall|i: int| 0 <= i < out@.len() ==> (#[trigger] out@[i]).table@ == table@,
        decreases n,
    {
        let ghost rem = rows.remaining();
        let row = match rows.next() {
            Some(row) => row,
            None => {
                proof {
                    assert(false);
                }
                vstd::pervasive::unreached()
            },
        };
        n = n - 1;
        let ghost step = refs_model(rem, table@);
        proof {
            assert(step == match digest_of_row(rem[0]) {
                Some(d) => seq![(d, table@)] + refs_model(rem.drop_first(), table@),
                None => refs_model(rem.drop_first(), table@),
            });
        }
        if row.width() >= 1 {
            match ByIndex::as_string(&row, 0) {
                Some(digest_str) => {
                    match from_hex_string(digest_str.as_str()) {
                        Some(digest) => {
                            let ghost out0 = out@;
                            let ghost d = digest@;
                            out.push(BlobRef { sha1: digest, table: String::from_str(table) });
                            proof {
                                assert(digest_of_row(rem[0]) == Some(d));
                                assert(built_model(out@) =~= built_model(out0) + seq![
                                    (d, table@),
                                ]);
                                assert(built_model(out@) + refs_model(rem.drop_first(), table@)
                                    =~= built_model(out0) + step);
                            }
                        },
                        None => {
                            proof {
                                assert(digest_of_row(rem[0]) is None);
                            }
                        },
                    }
                },
                None => {
                    proof {
                        assert(digest_of_row(rem[0]) is None);
                    }
                },
            }
        } else {
            proof {
                assert(digest_of_row(rem[0]) is None);
            }
        }
    }
    proof {
        assert(rows.remaining().len() == 0);
        assert(refs_model(rows.remaining(), table@) =~= Seq::<(Seq<u8>, Seq<char>)>::empty());
        assert(built_model(out@) + Seq::<(Seq<u8>, Seq<char>)>::empty() =~= built_model(out@));
        assert(built_model(out@) == model);
    }
    out
}

/// The model of a vector of built references.
pub open spec fn built_model(s: Seq<BlobRef>) -> Seq<(Seq<u8>, Seq<char>)> {
    Seq::new(s.len(), |i: int| (s[i].sha1@, s[i].table@))
}

proof fn lemma_built_model(s: Seq<BlobRef>)
    ensures
        built_model(s).len() == s.len(),
{
}

/// Storing and retrieving content-addressed blobs. A reference that
/// `put` returns names the uploaded bytes by their SHA-1 digest;
/// every non-success outcome of the transport maps to the fixed
/// `Action` error of the operation.
pub trait BlobContainer {
    /// Uploads a blob and returns its content-addressed reference.
    fn put(&self, table: &str, blob: &[u8]) -> (r: Result<BlobRef, BlobError>)
        ensures
            r matches Ok(b) ==> b.sha1@ == sha1_of(blob@) && b.sha1@.len() == 20 && b.table@
                == table@,
            r matches Err(BlobError::Action(e)) ==> exists|status: BackendResult|
                upload_action_error(status, e),
    ;

    /// Deletes the blob a reference names.
    fn delete(&self, blob: BlobRef) -> (r: Result<(), BlobError>)
        ensures
            r matches Err(BlobError::Action(e)) ==> exists|status: BackendResult|
                delete_action_error(status, e),
    ;

    /// Fetches the content of the blob a reference names.
    fn get(&self, blob: &BlobRef) -> (r: Result<Vec<u8>, BlobError>)
        ensures
            r matches Err(BlobError::Action(e)) ==> exists|status: BackendResult|
                fetch_action_error(status, e),
    ;

    /// Lists the blobs of a table through the SQL catalog: one
    /// reference per listed digest that decodes as hexadecimal, rows
    /// with any other digest silently dropped.
    fn list(&self, table: &str) -> (r: Result<Vec<BlobRef>, BlobError>)
        ensures
            r matches Ok(refs) ==> forall|i: int|
                0 <= i < refs@.len() ==> (#[trigger] refs@[i]).table@ == table@,
    ;
}

impl<T: Backend> BlobContainer for DBCluster<T> {
    fn put(&self, table: &str, blob: &[u8]) -> (r: Result<BlobRef, BlobError>) {
        let sha1 = sha1_digest(blob);
        let url = self.get_endpoint(EndpointType::Blob);
        match self.backend.upload_blob(url, table, sha1.as_slice(), blob) {
            Ok(status) => upload_outcome(status, table, sha1),
            Err(e) => Err(BlobError::Transport(e)),
        }
    }

    fn delete(&self, blob: BlobRef) -> (r: Result<(), BlobError>) {
        let url = self.get_endpoint(EndpointType::Blob);
        match self.backend.delete_blob(url, blob.table.as_str(), blob.sha1.as_slice()) {
            Ok(status) => delete_outcome(status),
            Err(e) => Err(BlobError::Transport(e)),
        }
    }

    fn get(&self, blob: &BlobRef) -> (r: Result<Vec<u8>, BlobError>) {
        let url = self.get_endpoint(EndpointType::Blob);
        match self.backend.fetch_blob(url, blob.table.as_str(), blob.sha1.as_slice()) {
            Ok((status, content)) => fetch_outcome(status, content),
            Err(e) => Err(BlobError::Transport(e)),
        }
    }

    fn list(&self, table: &str) -> (r: Result<Vec<BlobRef>, BlobError>) {
        let mut sql = String::from_str("select digest from blob.");
        sql.append(table);
        match self.query(sql.as_str(), None) {
            Ok((_, rows)) => Ok(collect_blob_refs(rows, table)),
            Err(e) => Err(BlobError::Action(e)),
        }
    }
}

/// Content addressing is idempotent: two successful uploads of the
/// same bytes to the same table yield references with the same digest
/// and the same table.
pub proof fn lemma_put_idempotent(r1: BlobRef, r2: BlobRef, table: Seq<char>, data: Seq<u8>)
    requires
        r1.sha1@ == sha1_of(data),
        r1.table@ == table,
        r2.sha1@ == sha1_of(data),
        r2.table@ == table,
    ensures
        r1.sha1@ == r2.sha1@,
        r1.table@ == r2.table@,
{
}

} // verus!

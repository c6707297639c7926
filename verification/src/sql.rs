//! The SQL protocol: building the JSON request body, and decoding the
//! server's response into a result set, bulk row counts, or a
//! structured server error.

use vstd::prelude::*;
use vstd::string::*;
use crate::json::{Json, JsonSpec, ser, sp_parse_json, jget, int_lex_val, view_members,
    lemma_view_members, view_elems, lemma_view_elems, to_json_string, clone_json, parse_json,
    parse_i64_lexeme, json_obj_get};
use crate::error::{CrateDBError, error_description};
use crate::row::{ColumnIndex, view_cols, lemma_view_cols};
use crate::rowiterator::RowIterator;
use crate::backend::Backend;
use crate::dbcluster::{DBCluster, Loadbalancing, EndpointType};

verus! {

/// An empty parameter marker for queries that carry no arguments.
pub struct Nothing {}

/// The JSON request an execution sends: the statement, and the
/// parameters under `args` for a single statement or `bulk_args` for
/// a bulk one.
pub open spec fn sql_request_model(sql: Seq<char>, bulk: bool, params: Option<JsonSpec>) -> JsonSpec {
    match params {
        Some(p) => if bulk {
            JsonSpec::Obj(seq![("stmt"@, JsonSpec::Str(sql)), ("bulk_args"@, p)])
        } else {
            JsonSpec::Obj(seq![("stmt"@, JsonSpec::Str(sql)), ("args"@, p)])
        },
        None => JsonSpec::Obj(seq![("stmt"@, JsonSpec::Str(sql))]),
    }
}

/// Builds the JSON text of a request body.
pub fn build_sql_request(sql: &str, bulk: bool, params: Option<&Json>) -> (r: String)
    ensures
        r@ == ser(
            sql_request_model(
                sql@,
                bulk,
                match params {
                    Some(p) => Some(p@),
                    None => None,
                },
            ),
        ),
{
    let mut members: Vec<(String, Json)> = Vec::new();
    members.push((String::from_str("stmt"), Json::Str(String::from_str(sql))));
    match params {
        Some(p) => {
            let key = if bulk {
                String::from_str("bulk_args")
            } else {
                String::from_str("args")
            };
            members.push((key, clone_json(p)));
            proof {
                lemma_view_members(members@);
                assert(view_members(members@) =~= seq![
                    ("stmt"@, JsonSpec::Str(sql@)),
                    (if bulk {
                        "bulk_args"@
                    } else {
                        "args"@
                    }, p@),
                ]);
            }
        },
        None => {
            proof {
                lemma_view_members(members@);
                assert(view_members(members@) =~= seq![("stmt"@, JsonSpec::Str(sql@))]);
            }
        },
    }
    let obj = Json::Obj(members);
    to_json_string(&obj)
}

/// The message and code of a structured server error, when the
/// response has that shape: an `error` member whose `message` is a
/// string and whose `code` is an integer or a string.
pub open spec fn error_model(j: JsonSpec) -> Option<(Seq<char>, Seq<char>)> {
    match jget(j, "error"@) {
        Some(e) => match (jget(e, "message"@), jget(e, "code"@)) {
            (Some(JsonSpec::Str(m)), Some(JsonSpec::Num(lex))) => if int_fits_i64(lex) {
                Some((m, lex))
            } else {
                None
            },
            (Some(JsonSpec::Str(m)), Some(JsonSpec::Str(c))) => Some((m, c)),
            _ => None,
        },
        None => None,
    }
}

/// Whether a number lexeme denotes an integer in signed 64-bit range.
pub open spec fn int_fits_i64(lex: Seq<char>) -> bool {
    match int_lex_val(lex) {
        Some(v) => i64::MIN <= v <= i64::MAX,
        None => false,
    }
}

/// Reads a structured server error out of a decoded response body.
/// `None` when the body does not have the error shape.
pub fn extract_error(data: &Json) -> (r: Option<CrateDBError>)
    ensures
        match r {
            Some(e) => error_model(data@) == Some((e.message@, e.code@)) && e.description@
                == error_description(e.message@, e.code@),
            None => error_model(data@) is None,
        },
{
    let err_obj = match json_obj_get(data, "error") {
        Some(e) => e,
        None => {
            return None;
        },
    };
    let message = match json_obj_get(err_obj, "message") {
        Some(Json::Str(m)) => m,
        _ => {
            return None;
        },
    };
    match json_obj_get(err_obj, "code") {
        Some(Json::Num(lex)) => {
            match parse_i64_lexeme(lex.as_str()) {
                Some(_) => Some(CrateDBError::new(message.as_str(), lex.as_str())),
                None => None,
            }
        },
        Some(Json::Str(c)) => Some(CrateDBError::new(message.as_str(), c.as_str())),
        _ => None,
    }
}

/// The column index entries a `cols` array yields: each string entry
/// under its 0-based position, non-string entries skipped.
pub open spec fn cols_entries(cols: Seq<JsonSpec>, base: int) -> Seq<(Seq<char>, int)>
    decreases cols,
{
    if cols.len() == 0 {
        Seq::empty()
    } else {
        let rest = cols_entries(cols.drop_first(), base + 1);
        match cols[0] {
            JsonSpec::Str(name) => seq![(name, base)] + rest,
            _ => rest,
        }
    }
}

/// Whether every row of a `rows` array is itself an array.
pub open spec fn rows_all_arrays(rows: Seq<JsonSpec>) -> bool {
    forall|i: int| 0 <= i < rows.len() ==> (#[trigger] rows[i]) is Arr
}

/// The values of each row, in order.
pub open spec fn rows_values(rows: Seq<JsonSpec>) -> Seq<Seq<JsonSpec>> {
    Seq::new(rows.len(), |i: int| rows[i]->Arr_0)
}

/// The parts of a tabular success response: the duration lexeme, the
/// column index entries, and the rows. `None` when any part is
/// missing or of the wrong shape.
pub open spec fn table_model(j: JsonSpec) -> Option<
    (Seq<char>, Seq<(Seq<char>, int)>, Seq<Seq<JsonSpec>>),
> {
    match (jget(j, "cols"@), jget(j, "rows"@), jget(j, "duration"@)) {
        (Some(JsonSpec::Arr(cols)), Some(JsonSpec::Arr(rows)), Some(JsonSpec::Num(dur))) => {
            if rows_all_arrays(rows) {
                Some((dur, cols_entries(cols, 0), rows_values(rows)))
            } else {
                None
            }
        },
        _ => None,
    }
}

/// The error that reports a body that is not, or not the expected,
/// JSON: its text is embedded in the message, and the code is 500.
pub open spec fn invalid_json_error(body: Seq<char>, e: CrateDBError) -> bool {
    e.message@ == "Invalid JSON was returned: "@ + body && e.code@ == "500"@ && e.description@
        == error_description(e.message@, e.code@)
}

/// What decoding a response body to a result set yields, for every
/// body: a tabular body gives its duration lexeme, shared column
/// index and rows; a body with the error shape gives that server
/// error; anything else gives the invalid-JSON error.
pub open spec fn is_query_outcome(body: Seq<char>, r: Result<(String, RowIterator), CrateDBError>) -> bool {
    match sp_parse_json(body) {
        Some(j) => if jget(j, "cols"@) is Some {
            match table_model(j) {
                Some(parts) => match r {
                    Ok((d, it)) => d@ == parts.0 && it.header_cols() == parts.1
                        && it.remaining() == parts.2,
                    Err(_) => false,
                },
                None => match r {
                    Ok(_) => false,
                    Err(e) => invalid_json_error(body, e),
                },
            }
        } else {
            match (error_model(j), r) {
                (Some((m, c)), Err(e)) => e.message@ == m && e.code@ == c && e.description@
                    == error_description(m, c),
                (None, Err(e)) => invalid_json_error(body, e),
                _ => false,
            }
        },
        None => match r {
            Ok(_) => false,
            Err(e) => invalid_json_error(body, e),
        },
    }
}

fn invalid_json(body: &str) -> (e: CrateDBError)
    ensures
        invalid_json_error(body@, e),
{
    let mut m = String::from_str("Invalid JSON was returned: ");
    m.append(body);
    CrateDBError::new(m.as_str(), "500")
}

/// Decodes a response body as the outcome of a single SQL statement.
pub fn decode_query_response(body: &str) -> (r: Result<(String, RowIterator), CrateDBError>)
    ensures
        is_query_outcome(body@, r),
{
    let parsed = match parse_json(body) {
        Some(j) => j,
        None => {
            return Err(invalid_json(body));
        },
    };
    if json_obj_get(&parsed, "cols").is_none() {
        return match extract_error(&parsed) {
            Some(e) => Err(e),
            None => Err(invalid_json(body)),
        };
    }
    let cols = match json_obj_get(&parsed, "cols") {
        Some(Json::Arr(cols)) => cols,
        _ => {
            return Err(invalid_json(body));
        },
    };
    let rows = match json_obj_get(&parsed, "rows") {
        Some(Json::Arr(rows)) => rows,
        _ => {
            return Err(invalid_json(body));
        },
    };
    let duration = match json_obj_get(&parsed, "duration") {
        Some(Json::Num(lex)) => lex.clone(),
        _ => {
            return Err(invalid_json(body));
        },
    };
    // the column index: each string entry of `cols` under its position
    let ghost cv = view_elems(cols@);
    let mut entries: Vec<(String, usize)> = Vec::new();
    let n = cols.len();
    let mut i: usize = 0;
    proof {
        lemma_view_elems(cols@);
        assert(cv.take(0) =~= Seq::<JsonSpec>::empty());
    }
    while i < n
        invariant
            i <= n,
            n == cols@.len(),
            cv == view_elems(cols@),
            cv.len() == n,
            forall|k: int| 0 <= k < n ==> #[trigger] cv[k] == cols@[k]@,
            view_cols(entries@) == cols_entries(cv.take(i as int), 0),
        decreases n - i,
    {
        match &cols[i] {
            Json::Str(name) => {
                let ghost entries0 = entries@;
                entries.push((name.clone(), i));
                proof {
                    lemma_view_cols(entries@);
                    lemma_view_cols(entries0);
                    lemma_cols_entries_snoc(cv, i as int);
                    assert(view_cols(entries@) =~= cols_entries(cv.take(i + 1), 0));
                }
            },
            _ => {
                proof {
                    lemma_cols_entries_snoc(cv, i as int);
                }
            },
        }
        i = i + 1;
    }
    proof {
        assert(cv.take(n as int) =~= cv);
    }
    // the rows: every row must itself be an array of values
    let ghost rv = view_elems(rows@);
    let mut row_vecs: Vec<Vec<Json>> = Vec::new();
    let m = rows.len();
    let mut k: usize = 0;
    proof {
        lemma_view_elems(rows@);
    }
    while k < m
        invariant
            k <= m,
            m == rows@.len(),
            sp_parse_json(body@) == Some(parsed@),
            jget(parsed@, "cols"@) is Some,
            jget(parsed@, "rows"@) == Some(JsonSpec::Arr(rv)),
            rv == view_elems(rows@),
            rv.len() == m,
            forall|t: int| 0 <= t < m ==> #[trigger] rv[t] == rows@[t]@,
            forall|t: int| 0 <= t < k ==> (#[trigger] rv[t]) is Arr,
            row_vecs@.len() == k,
            forall|t: int| 0 <= t < k ==> view_elems(#[trigger] row_vecs@[t]@) == rv[t]->Arr_0,
        decreases m - k,
    {
        let cj = clone_json(&rows[k]);
        match cj {
            Json::Arr(vals) => {
                row_vecs.push(vals);
            },
            other => {
                proof {
                    crate::json::lemma_view_variant(&other);
                    assert(!(rv[k as int] is Arr));
                    assert(!rows_all_arrays(rv));
                    assert(table_model(parsed@) is None);
                }
                return Err(invalid_json(body));
            },
        }
        k = k + 1;
    }
    let it = RowIterator::new(row_vecs, ColumnIndex { entries });
    proof {
        assert(it.remaining() =~= rows_values(rv));
    }
    Ok((duration, it))
}

/// Appending one entry to a `cols` array appends its index entry, or
/// nothing for a non-string entry.
proof fn lemma_cols_entries_snoc(cols: Seq<JsonSpec>, i: int)
    requires
        0 <= i < cols.len(),
    ensures
        cols_entries(cols.take(i + 1), 0) == cols_entries(cols.take(i), 0) + (match cols[i] {
            JsonSpec::Str(name) => seq![(name, i)],
            _ => Seq::<(Seq<char>, int)>::empty(),
        }),
{
    lemma_cols_entries_snoc_base(cols, i, 0);
}

/// The same, from an arbitrary base position.
proof fn lemma_cols_entries_snoc_base(cols: Seq<JsonSpec>, i: int, base: int)
    requires
        0 <= i < cols.len(),
    ensures
        cols_entries(cols.take(i + 1), base) == cols_entries(cols.take(i), base) + (match cols[i] {
            JsonSpec::Str(name) => seq![(name, base + i)],
            _ => Seq::<(Seq<char>, int)>::empty(),
        }),
    decreases i,
{
    if i == 0 {
        assert(cols.take(1)[0] == cols[0]);
        assert(cols.take(1).drop_first() =~= Seq::<JsonSpec>::empty());
        assert(cols.take(0).len() == 0);
        assert(cols_entries(cols.take(0), base) == Seq::<(Seq<char>, int)>::empty());
        assert(cols_entries(cols.take(1).drop_first(), base + 1) == Seq::<(
            Seq<char>,
            int,
        )>::empty());
        match cols[0] {
            JsonSpec::Str(name) => {
                assert(cols_entries(cols.take(1), base) =~= seq![(name, base)]);
            },
            _ => {
                assert(cols_entries(cols.take(1), base) =~= Seq::<(Seq<char>, int)>::empty());
            },
        }
    } else {
        lemma_cols_entries_snoc_base(cols.drop_first(), i - 1, base + 1);
        assert(cols.take(i + 1)[0] == cols[0]);
        assert(cols.take(i)[0] == cols[0]);
        assert(cols.take(i + 1).drop_first() =~= cols.drop_first().take(i));
        assert(cols.take(i).drop_first() =~= cols.drop_first().take(i - 1));
        assert(cols.drop_first()[i - 1] == cols[i]);
        match cols[i] {
            JsonSpec::Str(name) => {
                assert(cols_entries(cols.take(i + 1), base) =~= cols_entries(cols.take(i), base)
                    + seq![(name, base + i)]);
            },
            _ => {
                assert(cols_entries(cols.take(i + 1), base) =~= cols_entries(
                    cols.take(i),
                    base,
                ));
            },
        }
    }
}

/// The row count one bulk result entry reports: its `rowcount`
/// member, an integer in signed 64-bit range.
pub open spec fn rowcount_of(item: JsonSpec) -> Option<int> {
    match jget(item, "rowcount"@) {
        Some(JsonSpec::Num(lex)) => if int_fits_i64(lex) {
            int_lex_val(lex)
        } else {
            None
        },
        _ => None,
    }
}

/// The row counts of a bulk response's `results` array; `None` when
/// any entry lacks a well-formed `rowcount`.
pub open spec fn bulk_counts(items: Seq<JsonSpec>) -> Option<Seq<int>>
    decreases items,
{
    if items.len() == 0 {
        Some(Seq::empty())
    } else {
        match (rowcount_of(items[0]), bulk_counts(items.drop_first())) {
            (Some(v), Some(rest)) => Some(seq![v] + rest),
            _ => None,
        }
    }
}

/// The parts of a bulk success response: the duration lexeme and the
/// row counts. The `cols` member must be present, as in every
/// success response.
pub open spec fn bulk_model(j: JsonSpec) -> Option<(Seq<char>, Seq<int>)> {
    if jget(j, "cols"@) is Some {
        match (jget(j, "results"@), jget(j, "duration"@)) {
            (Some(JsonSpec::Arr(items)), Some(JsonSpec::Num(dur))) => match bulk_counts(items) {
                Some(counts) => Some((dur, counts)),
                None => None,
            },
            _ => None,
        }
    } else {
        None
    }
}

/// What decoding a response body to bulk row counts yields, for
/// every body.
pub open spec fn is_bulk_outcome(body: Seq<char>, r: Result<(String, Vec<i64>), CrateDBError>) -> bool {
    match sp_parse_json(body) {
        Some(j) => if jget(j, "cols"@) is Some {
            match bulk_model(j) {
                Some((dur, counts)) => match r {
                    Ok((d, cs)) => d@ == dur && cs@.len() == counts.len() && (forall|i: int|
                        0 <= i < counts.len() ==> (#[trigger] cs@[i]) as int == counts[i]),
                    Err(_) => false,
                },
                None => match r {
                    Ok(_) => false,
                    Err(e) => invalid_json_error(body, e),
                },
            }
        } else {
            match (error_model(j), r) {
                (Some((m, c)), Err(e)) => e.message@ == m && e.code@ == c && e.description@
                    == error_description(m, c),
                (None, Err(e)) => invalid_json_error(body, e),
                _ => false,
            }
        },
        None => match r {
            Ok(_) => false,
            Err(e) => invalid_json_error(body, e),
        },
    }
}

/// Decodes a response body as the outcome of a bulk SQL statement.
pub fn decode_bulk_response(body: &str) -> (r: Result<(String, Vec<i64>), CrateDBError>)
    ensures
        is_bulk_outcome(body@, r),
{
    let parsed = match parse_json(body) {
        Some(j) => j,
        None => {
            return Err(invalid_json(body));
        },
    };
    if json_obj_get(&parsed, "cols").is_none() {
        return match extract_error(&parsed) {
            Some(e) => Err(e),
            None => Err(invalid_json(body)),
        };
    }
    let items = match json_obj_get(&parsed, "results") {
        Some(Json::Arr(items)) => items,
        _ => {
            return Err(invalid_json(body));
        },
    };
    let duration = match json_obj_get(&parsed, "duration") {
        Some(Json::Num(lex)) => lex.clone(),
        _ => {
            return Err(invalid_json(body));
        },
    };
    let ghost iv = view_elems(items@);
    let mut counts: Vec<i64> = Vec::new();
    let n = items.len();
    let mut i: usize = 0;
    proof {
        lemma_view_elems(items@);
        assert(iv.skip(0) =~= iv);
    }
    while i < n
        invariant
            i <= n,
            n == items@.len(),
            sp_parse_json(body@) == Some(parsed@),
            jget(parsed@, "cols"@) is Some,
            jget(parsed@, "results"@) == Some(JsonSpec::Arr(iv)),
            jget(parsed@, "duration"@) == Some(JsonSpec::Num(duration@)),
            iv == view_elems(items@),
            iv.len() == n,
            forall|k: int| 0 <= k < n ==> #[trigger] iv[k] == items@[k]@,
            counts@.len() == i,
            match bulk_counts(iv.skip(i as int)) {
                Some(rest) => bulk_counts(iv) matches Some(whole) && whole == counts_model(
                    counts@,
                ) + rest,
                None => bulk_counts(iv) is None,
            },
        decreases n - i,
    {
        let item = &items[i];
        let rc = match json_obj_get(item, "rowcount") {
            Some(Json::Num(lex)) => match parse_i64_lexeme(lex.as_str()) {
                Some(v) => v,
                None => {
                    proof {
                        reveal_bulk_counts_step(iv, i as int);
                    }
                    return Err(invalid_json(body));
                },
            },
            _ => {
                proof {
                    reveal_bulk_counts_step(iv, i as int);
                }
                return Err(invalid_json(body));
            },
        };
        proof {
            reveal_bulk_counts_step(iv, i as int);
            let ghost c0 = counts@;
            if bulk_counts(iv.skip(i as int + 1)) is Some {
                let rest2 = bulk_counts(iv.skip(i as int + 1)).unwrap();
                assert(counts_model(c0.push(rc)) =~= counts_model(c0) + seq![rc as int]);
                assert(counts_model(c0) + (seq![rc as int] + rest2) =~= counts_model(c0.push(rc))
                    + rest2);
            }
        }
        counts.push(rc);
        i = i + 1;
    }
    proof {
        assert(iv.skip(n as int) =~= Seq::<JsonSpec>::empty());
        assert(counts_model(counts@) + Seq::<int>::empty() =~= counts_model(counts@));
    }
    Ok((duration, counts))
}

/// The integers a vector of counts denotes.
pub open spec fn counts_model(s: Seq<i64>) -> Seq<int> {
    Seq::new(s.len(), |i: int| s[i] as int)
}

/// One unfolding of `bulk_counts` at a position.
proof fn reveal_bulk_counts_step(items: Seq<JsonSpec>, i: int)
    requires
        0 <= i < items.len(),
    ensures
        bulk_counts(items.skip(i)) == match (rowcount_of(items[i]), bulk_counts(
            items.skip(i + 1),
        )) {
            (Some(v), Some(rest)) => Some(seq![v] + rest),
            _ => None,
        },
{
    let t = items.skip(i);
    assert(t.len() > 0);
    assert(t[0] == items[i]);
    assert(t.drop_first() =~= items.skip(i + 1));
}

/// Running statements against a cluster: a single statement yields a
/// duration and a row set, a bulk statement a duration and one row
/// count per parameter set. The transport's response is decoded by
/// `decode_query_response` and `decode_bulk_response`, whose
/// contracts pin the outcome down for every body; a transport-level
/// failure is decoded the same way and so surfaces as the
/// invalid-JSON error.
pub trait QueryRunner {
    /// Runs one SQL statement, with optional parameters.
    fn query(&self, sql: &str, params: Option<&Json>) -> (r: Result<
        (String, RowIterator),
        CrateDBError,
    >)
        ensures
            exists|body: Seq<char>| is_query_outcome(body, r),
    ;

    /// Runs one SQL statement over many parameter sets.
    fn bulk_query(&self, sql: &str, params: &Json) -> (r: Result<(String, Vec<i64>), CrateDBError>)
        ensures
            exists|body: Seq<char>| is_bulk_outcome(body, r),
    ;
}

impl<T: Backend> DBCluster<T> {
    /// Sends a statement to a randomly selected SQL endpoint and
    /// returns the response text. A transport failure is returned as
    /// its description, which the decoding step then rejects as
    /// invalid JSON; the two failure paths deliberately share one
    /// surface.
    fn execute(&self, sql: &str, bulk: bool, params: Option<&Json>) -> String {
        let url = self.get_endpoint(EndpointType::SQL);
        let payload = build_sql_request(sql, bulk, params);
        match self.backend.execute(url, payload) {
            Ok(r) => r,
            Err(e) => e.description,
        }
    }
}

impl<T: Backend> QueryRunner for DBCluster<T> {
    fn query(&self, sql: &str, params: Option<&Json>) -> (r: Result<
        (String, RowIterator),
        CrateDBError,
    >) {
        let body = self.execute(sql, false, params);
        let r = decode_query_response(body.as_str());
        proof {
            assert(is_query_outcome(body@, r));
        }
        r
    }

    fn bulk_query(&self, sql: &str, params: &Json) -> (r: Result<
        (String, Vec<i64>),
        CrateDBError,
    >) {
        let body = self.execute(sql, true, Some(params));
        let r = decode_bulk_response(body.as_str());
        proof {
            assert(is_bulk_outcome(body@, r));
        }
        r
    }
}

} // verus!

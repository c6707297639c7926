//! One row of a result set: typed accessors over its JSON values, by
//! position or by column name, through a shared column index.

use vstd::prelude::*;
use std::rc::Rc;
use crate::json::{Json, JsonSpec, view_elems, int_lex_val, parse_i64_lexeme, parse_u64_lexeme,
    clone_json};
use crate::common::str_eq;

verus! {

/// The shared mapping from column name to 0-based position. It is
/// built once per result set and read by every row.
#[derive(Debug)]
pub struct ColumnIndex {
    pub entries: Vec<(String, usize)>,
}

/// The model of a column index, elementwise.
pub open spec fn view_cols(s: Seq<(String, usize)>) -> Seq<(Seq<char>, int)>
    decreases s,
{
    if s.len() == 0 {
        Seq::empty()
    } else {
        seq![(s[0].0@, s[0].1 as int)] + view_cols(s.drop_first())
    }
}

/// `view_cols` maps a sequence elementwise.
pub proof fn lemma_view_cols(s: Seq<(String, usize)>)
    ensures
        view_cols(s).len() == s.len(),
        forall|i: int| 0 <= i < s.len() ==> #[trigger] view_cols(s)[i] == (s[i].0@, s[i].1 as int),
    decreases s,
{
    if s.len() > 0 {
        lemma_view_cols(s.drop_first());
        assert(view_cols(s) == seq![(s[0].0@, s[0].1 as int)] + view_cols(s.drop_first()));
        assert forall|i: int|
            0 <= i < s.len() implies #[trigger] view_cols(s)[i] == (s[i].0@, s[i].1 as int) by {
            if i > 0 {
                assert(view_cols(s)[i] == view_cols(s.drop_first())[i - 1]);
                assert(s.drop_first()[i - 1] == s[i]);
            }
        }
    } else {
        assert(view_cols(s) =~= Seq::<(Seq<char>, int)>::empty());
    }
}

/// The position recorded for a column name; when a name was entered
/// more than once, the last entry wins, as in a map built by
/// inserting the pairs in order.
pub open spec fn ci_lookup(s: Seq<(Seq<char>, int)>, name: Seq<char>) -> Option<int>
    decreases s,
{
    if s.len() == 0 {
        None
    } else if s.last().0 == name {
        Some(s.last().1)
    } else {
        ci_lookup(s.drop_last(), name)
    }
}

impl View for ColumnIndex {
    type V = Seq<(Seq<char>, int)>;

    open spec fn view(&self) -> Seq<(Seq<char>, int)> {
        view_cols(self.entries@)
    }
}

impl ColumnIndex {
    /// The recorded position of a column name, if any.
    pub fn position_of(&self, name: &str) -> (r: Option<usize>)
        ensures
            match r {
                Some(p) => ci_lookup(self@, name@) == Some(p as int),
                None => ci_lookup(self@, name@) is None,
            },
    {
        proof {
            lemma_view_cols(self.entries@);
            assert(self@.take(self.entries@.len() as int) =~= self@);
        }
        let mut k = self.entries.len();
        while k > 0
            invariant
                k <= self.entries@.len(),
                self@ == view_cols(self.entries@),
                self@.len() == self.entries@.len(),
                forall|i: int|
                    0 <= i < self.entries@.len() ==> #[trigger] self@[i] == (
                    self.entries@[i].0@,
                    self.entries@[i].1 as int,
                    ),
                ci_lookup(self@, name@) == ci_lookup(self@.take(k as int), name@),
            decreases k,
        {
            k = k - 1;
            if str_eq(self.entries[k].0.as_str(), name) {
                proof {
                    assert(self@.take(k + 1).last() == self@[k as int]);
                }
                return Some(self.entries[k].1);
            }
            proof {
                assert(self@.take(k + 1).last() == self@[k as int]);
                assert(self@.take(k + 1).drop_last() =~= self@.take(k as int));
            }
        }
        proof {
            assert(self@.take(0).len() == 0);
        }
        None
    }
}

/// A row in a result set: its JSON values in column order, and a
/// shared, read-only column index.
pub struct Row {
    wrapped: Vec<Json>,
    columns: Rc<ColumnIndex>,
}

impl Row {
    /// The models of this row's values, in column order.
    pub closed spec fn values(&self) -> Seq<JsonSpec> {
        view_elems(self.wrapped@)
    }

    /// The model of the column index this row shares.
    pub closed spec fn cols(&self) -> Seq<(Seq<char>, int)> {
        self.columns@
    }

    /// How many values this row holds.
    pub fn width(&self) -> (r: usize)
        ensures
            r == self.values().len(),
    {
        proof {
            crate::json::lemma_view_elems(self.wrapped@);
        }
        self.wrapped.len()
    }

    /// Wraps values and a shared column index as a row.
    pub fn new(wrapped: Vec<Json>, headers: Rc<ColumnIndex>) -> (r: Row)
        ensures
            r.values() == view_elems(wrapped@),
            r.cols() == headers@,
    {
        Row { wrapped, columns: headers }
    }
}

/// Typed access to a row's values by 0-based position. A position at
/// or past the row's width is a caller error, ruled out by contract.
/// `None` reports a value of another type, never a failure.
pub trait ByIndex {
    /// The models of the row's values.
    spec fn row_values(&self) -> Seq<JsonSpec>;

    /// The value at `idx` as a signed integer, when it is a number
    /// lexeme of an integer that fits.
    fn as_i64(&self, idx: usize) -> (r: Option<i64>)
        requires
            idx < self.row_values().len(),
        ensures
            match r {
                Some(x) => self.row_values()[idx as int] matches JsonSpec::Num(lex)
                    && int_lex_val(lex) == Some(x as int),
                None => match self.row_values()[idx as int] {
                    JsonSpec::Num(lex) => match int_lex_val(lex) {
                        Some(n) => n < i64::MIN || n > i64::MAX,
                        None => true,
                    },
                    _ => true,
                },
            },
    ;

    /// The value at `idx` as an unsigned integer, when it is a number
    /// lexeme of a non-negative integer that fits.
    fn as_u64(&self, idx: usize) -> (r: Option<u64>)
        requires
            idx < self.row_values().len(),
        ensures
            match r {
                Some(x) => self.row_values()[idx as int] matches JsonSpec::Num(lex)
                    && int_lex_val(lex) == Some(x as int),
                None => match self.row_values()[idx as int] {
                    JsonSpec::Num(lex) => match int_lex_val(lex) {
                        Some(n) => n < 0 || n > u64::MAX,
                        None => true,
                    },
                    _ => true,
                },
            },
    ;

    /// The value at `idx` as a boolean, when it is one.
    fn as_bool(&self, idx: usize) -> (r: Option<bool>)
        requires
            idx < self.row_values().len(),
        ensures
            match r {
                Some(b) => self.row_values()[idx as int] == JsonSpec::Bool(b),
                None => !(self.row_values()[idx as int] is Bool),
            },
    ;

    /// The value at `idx` as a string, when it is one.
    fn as_string(&self, idx: usize) -> (r: Option<String>)
        requires
            idx < self.row_values().len(),
        ensures
            match r {
                Some(out) => self.row_values()[idx as int] == JsonSpec::Str(out@),
                None => !(self.row_values()[idx as int] is Str),
            },
    ;

    /// The value at `idx` as an array of JSON values, when it is one.
    fn as_array(&self, idx: usize) -> (r: Option<Vec<Json>>)
        requires
            idx < self.row_values().len(),
        ensures
            match r {
                Some(out) => self.row_values()[idx as int] == JsonSpec::Arr(view_elems(out@)),
                None => !(self.row_values()[idx as int] is Arr),
            },
    ;

    /// The number lexeme at `idx`, exactly as the server sent it,
    /// when the value is a number. Fractional and oversized numbers
    /// are read through this lexeme.
    fn num_lexeme(&self, idx: usize) -> (r: Option<String>)
        requires
            idx < self.row_values().len(),
        ensures
            match r {
                Some(out) => self.row_values()[idx as int] == JsonSpec::Num(out@),
                None => !(self.row_values()[idx as int] is Num),
            },
    ;
}

/// Typed access to a row's values by column name: `None` when the
/// name is absent; otherwise the same value that position access at
/// the resolved position gives.
pub trait ByColumnName {
    /// The models of the row's values.
    spec fn row_values(&self) -> Seq<JsonSpec>;

    /// The model of the column index.
    spec fn row_cols(&self) -> Seq<(Seq<char>, int)>;

    /// The named value as a signed integer.
    fn as_i64(&self, col: &String) -> (r: Option<i64>)
        requires
            match ci_lookup(self.row_cols(), col@) {
                Some(p) => 0 <= p < self.row_values().len(),
                None => true,
            },
        ensures
            match ci_lookup(self.row_cols(), col@) {
                Some(p) => match r {
                    Some(x) => self.row_values()[p] matches JsonSpec::Num(lex) && int_lex_val(lex)
                        == Some(x as int),
                    None => match self.row_values()[p] {
                        JsonSpec::Num(lex) => match int_lex_val(lex) {
                            Some(n) => n < i64::MIN || n > i64::MAX,
                            None => true,
                        },
                        _ => true,
                    },
                },
                None => r is None,
            },
    ;

    /// The named value as an unsigned integer.
    fn as_u64(&self, col: &String) -> (r: Option<u64>)
        requires
            match ci_lookup(self.row_cols(), col@) {
                Some(p) => 0 <= p < self.row_values().len(),
                None => true,
            },
        ensures
            match ci_lookup(self.row_cols(), col@) {
                Some(p) => match r {
                    Some(x) => self.row_values()[p] matches JsonSpec::Num(lex) && int_lex_val(lex)
                        == Some(x as int),
                    None => match self.row_values()[p] {
                        JsonSpec::Num(lex) => match int_lex_val(lex) {
                            Some(n) => n < 0 || n > u64::MAX,
                            None => true,
                        },
                        _ => true,
                    },
                },
                None => r is None,
            },
    ;

    /// The named value as a boolean.
    fn as_bool(&self, col: &String) -> (r: Option<bool>)
        requires
            match ci_lookup(self.row_cols(), col@) {
                Some(p) => 0 <= p < self.row_values().len(),
                None => true,
            },
        ensures
            match ci_lookup(self.row_cols(), col@) {
                Some(p) => match r {
                    Some(b) => self.row_values()[p] == JsonSpec::Bool(b),
                    None => !(self.row_values()[p] is Bool),
                },
                None => r is None,
            },
    ;

    /// The named value as a string.
    fn as_string(&self, col: &String) -> (r: Option<String>)
        requires
            match ci_lookup(self.row_cols(), col@) {
                Some(p) => 0 <= p < self.row_values().len(),
                None => true,
            },
        ensures
            match ci_lookup(self.row_cols(), col@) {
                Some(p) => match r {
                    Some(out) => self.row_values()[p] == JsonSpec::Str(out@),
                    None => !(self.row_values()[p] is Str),
                },
                None => r is None,
            },
    ;

    /// The named value as an array of JSON values.
    fn as_array(&self, col: &String) -> (r: Option<Vec<Json>>)
        requires
            match ci_lookup(self.row_cols(), col@) {
                Some(p) => 0 <= p < self.row_values().len(),
                None => true,
            },
        ensures
            match ci_lookup(self.row_cols(), col@) {
                Some(p) => match r {
                    Some(out) => self.row_values()[p] == JsonSpec::Arr(view_elems(out@)),
                    None => !(self.row_values()[p] is Arr),
                },
                None => r is None,
            },
    ;

    /// The named value's number lexeme.
    fn num_lexeme(&self, col: &String) -> (r: Option<String>)
        requires
            match ci_lookup(self.row_cols(), col@) {
                Some(p) => 0 <= p < self.row_values().len(),
                None => true,
            },
        ensures
            match ci_lookup(self.row_cols(), col@) {
                Some(p) => match r {
                    Some(out) => self.row_values()[p] == JsonSpec::Num(out@),
                    None => !(self.row_values()[p] is Num),
                },
                None => r is None,
            },
    ;
}

impl ByIndex for Row {
    open spec fn row_values(&self) -> Seq<JsonSpec> {
        self.values()
    }

    fn as_i64(&self, idx: usize) -> (r: Option<i64>) {
        proof {
            crate::json::lemma_view_elems(self.wrapped@);
        }
        match &self.wrapped[idx] {
            Json::Num(lex) => parse_i64_lexeme(lex.as_str()),
            _ => None,
        }
    }

    fn as_u64(&self, idx: usize) -> (r: Option<u64>) {
        proof {
            crate::json::lemma_view_elems(self.wrapped@);
        }
        match &self.wrapped[idx] {
            Json::Num(lex) => parse_u64_lexeme(lex.as_str()),
            _ => None,
        }
    }

    fn as_bool(&self, idx: usize) -> (r: Option<bool>) {
        proof {
            crate::json::lemma_view_elems(self.wrapped@);
        }
        match &self.wrapped[idx] {
            Json::Bool(b) => Some(*b),
            _ => None,
        }
    }

    fn as_string(&self, idx: usize) -> (r: Option<String>) {
        proof {
            crate::json::lemma_view_elems(self.wrapped@);
        }
        match &self.wrapped[idx] {
            Json::Str(s) => Some(s.clone()),
            _ => None,
        }
    }

    fn as_array(&self, idx: usize) -> (r: Option<Vec<Json>>) {
        proof {
            crate::json::lemma_view_elems(self.wrapped@);
        }
        match &self.wrapped[idx] {
            Json::Arr(_) => {
                match clone_json(&self.wrapped[idx]) {
                    Json::Arr(out) => Some(out),
                    _ => None,
                }
            },
            _ => None,
        }
    }

    fn num_lexeme(&self, idx: usize) -> (r: Option<String>) {
        proof {
            crate::json::lemma_view_elems(self.wrapped@);
        }
        match &self.wrapped[idx] {
            Json::Num(lex) => Some(lex.clone()),
            _ => None,
        }
    }
}

impl ByColumnName for Row {
    open spec fn row_values(&self) -> Seq<JsonSpec> {
        self.values()
    }

    open spec fn row_cols(&self) -> Seq<(Seq<char>, int)> {
        self.cols()
    }

    fn as_i64(&self, col: &String) -> (r: Option<i64>) {
        match self.columns.position_of(col.as_str()) {
            Some(idx) => ByIndex::as_i64(self, idx),
            None => None,
        }
    }

    fn as_u64(&self, col: &String) -> (r: Option<u64>) {
        match self.columns.position_of(col.as_str()) {
            Some(idx) => ByIndex::as_u64(self, idx),
            None => None,
        }
    }

    fn as_bool(&self, col: &String) -> (r: Option<bool>) {
        match self.columns.position_of(col.as_str()) {
            Some(idx) => ByIndex::as_bool(self, idx),
            None => None,
        }
    }

    fn as_string(&self, col: &String) -> (r: Option<String>) {
        match self.columns.position_of(col.as_str()) {
            Some(idx) => ByIndex::as_string(self, idx),
            None => None,
        }
    }

    fn as_array(&self, col: &String) -> (r: Option<Vec<Json>>) {
        match self.columns.position_of(col.as_str()) {
            Some(idx) => ByIndex::as_array(self, idx),
            None => None,
        }
    }

    fn num_lexeme(&self, col: &String) -> (r: Option<String>) {
        match self.columns.position_of(col.as_str()) {
            Some(idx) => ByIndex::num_lexeme(self, idx),
            None => None,
        }
    }
}

} // verus!

//! Header-addressed rows, the shape the bar chart consumes: every row of a
//! file shares the header list, and each cell is reachable by its header
//! name. A row keeps its header/value pairs in file order; lookups take
//! the last pair with the wanted name, so a repeated header resolves to
//! its final occurrence.
use vstd::prelude::*;
use crate::csvio::csv_records_of;
use crate::csvio::csv_text_ok;
use crate::csvio::parse_records;
use crate::csvio::row_view;
use crate::csvio::rows_view;
use crate::error::ChartError;
use crate::text::str_eq;

verus! {

/// One CSV record under its file's headers.
pub struct DataRow {
    pub headers: Vec<String>,
    pub values: Vec<(String, String)>,
}

/// The value paired with the last occurrence of `key`, if any.
pub open spec fn lookup_spec(vals: Seq<(String, String)>, key: Seq<char>) -> Option<Seq<char>>
    decreases vals.len(),
{
    if vals.len() == 0 {
        None
    } else if vals.last().0@ == key {
        Some(vals.last().1@)
    } else {
        lookup_spec(vals.drop_last(), key)
    }
}

/// The pairs as the contracts see them.
pub open spec fn pairs_view(vals: Seq<(String, String)>) -> Seq<(Seq<char>, Seq<char>)> {
    vals.map_values(|p: (String, String)| (p.0@, p.1@))
}

/// Headers zipped with a record's cells, cut to the shorter of the two.
pub open spec fn zip_min(h: Seq<Seq<char>>, c: Seq<Seq<char>>) -> Seq<(Seq<char>, Seq<char>)> {
    Seq::new(if h.len() <= c.len() { h.len() } else { c.len() }, |k: int| (h[k], c[k]))
}

impl DataRow {
    /// The cell stored under `key`, taking the last occurrence.
    pub fn get<'a>(&'a self, key: &str) -> (r: Option<&'a String>)
        ensures
            match r {
                Some(v) => lookup_spec(self.values@, key@) == Some(v@),
                None => lookup_spec(self.values@, key@) is None,
            },
    {
        let n = self.values.len();
        let mut k: usize = n;
        proof {
            assert(self.values@.subrange(0, n as int) =~= self.values@);
        }
        while k > 0
            invariant
                0 <= k <= n,
                n == self.values@.len(),
                lookup_spec(self.values@, key@) == lookup_spec(
                    self.values@.subrange(0, k as int),
                    key@,
                ),
            decreases k,
        {
            k = k - 1;
            proof {
                let p = self.values@.subrange(0, k + 1);
                assert(p.drop_last() =~= self.values@.subrange(0, k as int));
                assert(p.last() == self.values@[k as int]);
            }
            if str_eq(self.values[k].0.as_str(), key) {
                return Some(&self.values[k].1);
            }
        }
        proof {
            assert(self.values@.subrange(0, 0) =~= Seq::<(String, String)>::empty());
        }
        None
    }
}

fn clone_cells(src: &Vec<String>) -> (r: Vec<String>)
    ensures
        r@ == src@,
{
    let mut out: Vec<String> = Vec::new();
    let mut i: usize = 0;
    while i < src.len()
        invariant
            0 <= i <= src@.len(),
            out@.len() == i,
            forall|k: int| 0 <= k < i ==> out@[k] == src@[k],
        decreases src@.len() - i,
    {
        out.push(src[i].clone());
        i = i + 1;
    }
    proof {
        assert(out@ =~= src@);
    }
    out
}

/// Loads CSV text into header-addressed rows: the first record is the
/// header line, each further record becomes one row whose pairs follow
/// the header order, cut to the shorter of header and record.
pub fn load_csv(text: &str) -> (r: Result<Vec<DataRow>, ChartError>)
    ensures
        r is Ok <==> csv_text_ok(text@),
        r matches Err(e) ==> e is Malformed,
        r matches Ok(rows) ==> {
            let rv = csv_records_of(text@);
            &&& rows@.len() == (if rv.len() == 0 { 0int } else { rv.len() - 1 })
            &&& forall|j: int|
                0 <= j < rows@.len() ==> row_view((#[trigger] rows@[j]).headers) == rv[0]
                    && pairs_view(rows@[j].values@) == zip_min(rv[0], rv[j + 1])
        },
{
    let records = match parse_records(text) {
        Ok(v) => v,
        Err(e) => {
            return Err(e);
        },
    };
    let ghost rv = rows_view(records@);
    let n = records.len();
    let mut rows: Vec<DataRow> = Vec::new();
    if n == 0 {
        return Ok(rows);
    }
    let mut i: usize = 1;
    while i < n
        invariant
            1 <= i <= n,
            n == records@.len(),
            rv == rows_view(records@),
            rows@.len() == i - 1,
            forall|j: int|
                0 <= j < i - 1 ==> row_view((#[trigger] rows@[j]).headers) == rv[0] && pairs_view(
                    rows@[j].values@,
                ) == zip_min(rv[0], rv[j + 1]),
        decreases n - i,
    {
        proof {
            assert(rv[i as int] == row_view(records@[i as int]));
            assert(rv[0] == row_view(records@[0]));
        }
        let headers = clone_cells(&records[0]);
        let record = &records[i];
        let m = if headers.len() <= record.len() {
            headers.len()
        } else {
            record.len()
        };
        let mut values: Vec<(String, String)> = Vec::new();
        let mut k: usize = 0;
        while k < m
            invariant
                0 <= k <= m,
                m <= headers@.len(),
                m <= record@.len(),
                values@.len() == k,
                forall|t: int|
                    0 <= t < k ==> (#[trigger] values@[t]).0 == headers@[t] && values@[t].1
                        == record@[t],
            decreases m - k,
        {
            values.push((headers[k].clone(), record[k].clone()));
            k = k + 1;
        }
        proof {
            assert(pairs_view(values@) =~= zip_min(rv[0], rv[i as int]));
        }
        rows.push(DataRow { headers, values });
        i = i + 1;
    }
    Ok(rows)
}

} // verus!

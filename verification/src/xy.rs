//! Scatter and line/area data: tables of exactly two integer columns.
//! Validation scans every data row before anything is drawn; loading turns
//! the rows into points, one per data row, in file order.
use vstd::prelude::*;
use crate::csvio::row_view;
use crate::csvio::rows_view;
use crate::error::ChartError;
use crate::numtext::int_literal_val;
use crate::numtext::is_int_literal;
use crate::numtext::parse_i32;
use crate::text::trim;
use crate::text::trim_spec;

verus! {

/// The trimmed cell holds an integer that fits 32 bits.
pub open spec fn cell_i32_ok(s: Seq<char>) -> bool {
    is_int_literal(trim_spec(s)) && -0x8000_0000 <= int_literal_val(trim_spec(s)) <= 0x7fff_ffff
}

/// The trimmed cell's integer value.
pub open spec fn cell_i32_val(s: Seq<char>) -> int {
    int_literal_val(trim_spec(s))
}

/// The first complaint about a scatter or line data row, if any: the row
/// must hold exactly an x and a y cell, both integers. `line` is the
/// 1-indexed data line number the message carries.
pub open spec fn xy_row_error(row: Seq<Seq<char>>, line: usize) -> Option<ChartError> {
    if row.len() != 2 {
        Some(ChartError::ColumnCount { line })
    } else if !cell_i32_ok(row[0]) {
        Some(ChartError::BadX { line })
    } else if !cell_i32_ok(row[1]) {
        Some(ChartError::BadY { line })
    } else {
        None
    }
}

/// Every data row of `recs` (the first record is the header) is good.
pub open spec fn xy_all_ok(recs: Seq<Seq<Seq<char>>>) -> bool {
    forall|j: int| 1 <= j < recs.len() ==> xy_row_error(recs[j], j as usize) is None
}

fn cell_i32(cell: &String) -> (r: Option<i32>)
    ensures
        r is Some <==> cell_i32_ok(cell@),
        r matches Some(v) ==> v as int == cell_i32_val(cell@),
{
    parse_i32(trim(cell.as_str()))
}

/// Checks every data row: exactly two columns, both integers. Reports the
/// first offence with its line number.
pub fn validate_xy_records(records: &Vec<Vec<String>>) -> (r: Result<(), ChartError>)
    ensures
        r is Ok <==> xy_all_ok(rows_view(records@)),
        r matches Err(e) ==> exists|j: int|
            1 <= j < records@.len() && #[trigger] xy_row_error(row_view(records@[j]), j as usize)
                == Some(e) && (forall|k: int|
                1 <= k < j ==> xy_row_error(row_view(records@[k]), k as usize) is None),
{
    let ghost rv = rows_view(records@);
    let n = records.len();
    if n <= 1 {
        return Ok(());
    }
    let mut i: usize = 1;
    while i < n
        invariant
            1 <= i <= n,
            n == records@.len(),
            rv == rows_view(records@),
            forall|k: int| 1 <= k < i ==> xy_row_error(row_view(records@[k]), k as usize) is None,
        decreases n - i,
    {
        proof {
            assert(rv[i as int] == row_view(records@[i as int]));
        }
        let row = &records[i];
        if row.len() != 2 {
            return Err(ChartError::ColumnCount { line: i });
        }
        if cell_i32(&row[0]).is_none() {
            return Err(ChartError::BadX { line: i });
        }
        if cell_i32(&row[1]).is_none() {
            return Err(ChartError::BadY { line: i });
        }
        i = i + 1;
    }
    proof {
        assert forall|j: int| 1 <= j < rv.len() implies xy_row_error(
            rv[j],
            j as usize,
        ) is None by {
            assert(rv[j] == row_view(records@[j]));
        }
    }
    Ok(())
}

/// The x/y pair a good row denotes.
pub open spec fn xy_point(row: Seq<Seq<char>>) -> (i32, i32) {
    (cell_i32_val(row[0]) as i32, cell_i32_val(row[1]) as i32)
}

/// One point per data row, in file order.
pub open spec fn xy_points(recs: Seq<Seq<Seq<char>>>) -> Seq<(i32, i32)> {
    if recs.len() == 0 {
        Seq::empty()
    } else {
        Seq::new((recs.len() - 1) as nat, |j: int| xy_point(recs[j + 1]))
    }
}

/// Loads every data row as an integer point. Exactly the tables whose rows
/// all validate load; a bad table is refused with the validator's first
/// complaint.
pub fn load_xy_records(records: &Vec<Vec<String>>) -> (r: Result<Vec<(i32, i32)>, ChartError>)
    ensures
        r is Ok <==> xy_all_ok(rows_view(records@)),
        r matches Ok(v) ==> v@ == xy_points(rows_view(records@)),
        r matches Err(e) ==> exists|j: int|
            1 <= j < records@.len() && #[trigger] xy_row_error(row_view(records@[j]), j as usize)
                == Some(e) && (forall|k: int|
                1 <= k < j ==> xy_row_error(row_view(records@[k]), k as usize) is None),
{
    let ghost rv = rows_view(records@);
    let n = records.len();
    let mut out: Vec<(i32, i32)> = Vec::new();
    if n <= 1 {
        proof {
            assert(out@ =~= xy_points(rv));
        }
        return Ok(out);
    }
    let mut i: usize = 1;
    while i < n
        invariant
            1 <= i <= n,
            n == records@.len(),
            rv == rows_view(records@),
            out@.len() == i - 1,
            forall|k: int| 1 <= k < i ==> xy_row_error(row_view(records@[k]), k as usize) is None,
            forall|k: int| 0 <= k < i - 1 ==> out@[k] == xy_point(rv[k + 1]),
        decreases n - i,
    {
        proof {
            assert(rv[i as int] == row_view(records@[i as int]));
        }
        let row = &records[i];
        if row.len() != 2 {
            return Err(ChartError::ColumnCount { line: i });
        }
        let x = match cell_i32(&row[0]) {
            Some(v) => v,
            None => {
                return Err(ChartError::BadX { line: i });
            },
        };
        let y = match cell_i32(&row[1]) {
            Some(v) => v,
            None => {
                return Err(ChartError::BadY { line: i });
            },
        };
        out.push((x, y));
        i = i + 1;
    }
    proof {
        assert forall|j: int| 1 <= j < rv.len() implies xy_row_error(
            rv[j],
            j as usize,
        ) is None by {
            assert(rv[j] == row_view(records@[j]));
        }
        assert(out@ =~= xy_points(rv));
    }
    Ok(out)
}

/// One point per data row: a table whose rows all validate loads into a
/// point list with exactly one entry per data row, in file order.
pub proof fn lemma_xy_one_point_per_row(recs: Seq<Seq<Seq<char>>>)
    requires
        xy_all_ok(recs),
        recs.len() >= 1,
    ensures
        xy_points(recs).len() == recs.len() - 1,
        forall|j: int| 0 <= j < recs.len() - 1 ==> xy_points(recs)[j] == xy_point(recs[j + 1]),
{
}

/// Largest x among the points, or 10 for an empty set.
pub open spec fn max_x_spec(pts: Seq<(i32, i32)>) -> int
    decreases pts.len(),
{
    if pts.len() == 0 {
        10
    } else if pts.len() == 1 {
        pts[0].0 as int
    } else {
        let rest = max_x_spec(pts.drop_last());
        if pts.last().0 >= rest {
            pts.last().0 as int
        } else {
            rest
        }
    }
}

/// Largest y among the points, or 50 for an empty set.
pub open spec fn max_y_spec(pts: Seq<(i32, i32)>) -> int
    decreases pts.len(),
{
    if pts.len() == 0 {
        50
    } else if pts.len() == 1 {
        pts[0].1 as int
    } else {
        let rest = max_y_spec(pts.drop_last());
        if pts.last().1 >= rest {
            pts.last().1 as int
        } else {
            rest
        }
    }
}

/// The axis bounds of the line/area chart: the largest x padded by 1 and
/// the largest y padded by 5, so no point sits on the canvas edge.
pub fn line_axis_bounds(pts: &Vec<(i32, i32)>) -> (r: (i64, i64))
    ensures
        r.0 == max_x_spec(pts@) + 1,
        r.1 == max_y_spec(pts@) + 5,
{
    let n = pts.len();
    if n == 0 {
        return (11, 55);
    }
    let mut mx: i32 = pts[0].0;
    let mut my: i32 = pts[0].1;
    let mut i: usize = 1;
    while i < n
        invariant
            1 <= i <= n,
            n == pts@.len(),
            mx as int == max_x_spec(pts@.subrange(0, i as int)),
            my as int == max_y_spec(pts@.subrange(0, i as int)),
        decreases n - i,
    {
        proof {
            let p = pts@.subrange(0, i as int);
            let q = pts@.subrange(0, i + 1);
            assert(q.drop_last() =~= p);
        }
        let (x, y) = pts[i];
        if x > mx {
            mx = x;
        }
        if y > my {
            my = y;
        }
        i = i + 1;
    }
    proof {
        assert(pts@.subrange(0, n as int) =~= pts@);
    }
    ((mx as i64) + 1, (my as i64) + 5)
}

} // verus!

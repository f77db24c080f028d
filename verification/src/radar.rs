//! Radar chart data and layout. Point `j` of `n` sits at the angle
//! `j * (2*pi / n)`; its distance from the center is the fraction
//! `value / max_value` of the maximum radius, with the screen's y axis
//! growing downward. The polygon closes by repeating its first corner.
use vstd::prelude::*;
use crate::csvio::row_view;
use crate::csvio::rows_view;
use crate::error::ChartError;
use crate::numtext::decimal_micro_val;
use crate::numtext::is_decimal_literal;
use crate::numtext::parse_decimal_micro;

verus! {

/// One loaded radar row: a label and its exact magnitude in millionths.
pub struct RadarPoint {
    pub label: String,
    pub value: i64,
}

/// The cell as it stands (no trimming) holds a representable decimal.
pub open spec fn radar_cell_ok(s: Seq<char>) -> bool {
    is_decimal_literal(s) && -1_000_000_000_000_000_000 < decimal_micro_val(s)
        < 1_000_000_000_000_000_000
}

/// The first complaint about a radar data row, if any: a label cell and a
/// numeric value cell. `line` is the 1-indexed data line number.
pub open spec fn radar_row_error(row: Seq<Seq<char>>, line: usize) -> Option<ChartError> {
    if row.len() < 2 {
        Some(ChartError::TooFewColumns { line })
    } else if !radar_cell_ok(row[1]) {
        Some(ChartError::BadValue { line })
    } else {
        None
    }
}

/// Every data row of `recs` (the first record is the header) loads.
pub open spec fn radar_all_ok(recs: Seq<Seq<Seq<char>>>) -> bool {
    forall|j: int| 1 <= j < recs.len() ==> radar_row_error(recs[j], j as usize) is None
}

/// Loads every radar data row as a labelled magnitude, in file order.
pub fn load_radar_records(records: &Vec<Vec<String>>) -> (r: Result<Vec<RadarPoint>, ChartError>)
    ensures
        r is Ok <==> radar_all_ok(rows_view(records@)),
        r matches Ok(v) ==> {
            let rv = rows_view(records@);
            &&& v@.len() == (if rv.len() == 0 { 0int } else { rv.len() - 1 })
            &&& forall|j: int|
                0 <= j < v@.len() ==> (#[trigger] v@[j]).label@ == rv[j + 1][0] && v@[j].value
                    as int == decimal_micro_val(rv[j + 1][1])
        },
        r matches Err(e) ==> exists|j: int|
            1 <= j < records@.len() && #[trigger] radar_row_error(row_view(records@[j]), j as usize)
                == Some(e) && (forall|k: int|
                1 <= k < j ==> radar_row_error(row_view(records@[k]), k as usize) is None),
{
    let ghost rv = rows_view(records@);
    let n = records.len();
    let mut out: Vec<RadarPoint> = Vec::new();
    if n <= 1 {
        return Ok(out);
    }
    let mut i: usize = 1;
    while i < n
        invariant
            1 <= i <= n,
            n == records@.len(),
            rv == rows_view(records@),
            out@.len() == i - 1,
            forall|k: int|
                1 <= k < i ==> radar_row_error(row_view(records@[k]), k as usize) is None,
            forall|j: int|
                0 <= j < i - 1 ==> (#[trigger] out@[j]).label@ == rv[j + 1][0] && out@[j].value
                    as int == decimal_micro_val(rv[j + 1][1]),
        decreases n - i,
    {
        proof {
            assert(rv[i as int] == row_view(records@[i as int]));
        }
        let row = &records[i];
        if row.len() < 2 {
            return Err(ChartError::TooFewColumns { line: i });
        }
        let value = match parse_decimal_micro(row[1].as_str()) {
            Some(v) => v,
            None => {
                return Err(ChartError::BadValue { line: i });
            },
        };
        let label = row[0].clone();
        out.push(RadarPoint { label, value });
        i = i + 1;
    }
    proof {
        assert forall|j: int| 1 <= j < rv.len() implies radar_row_error(
            rv[j],
            j as usize,
        ) is None by {
            assert(rv[j] == row_view(records@[j]));
        }
    }
    Ok(out)
}

/// The largest magnitude among the points, with a floor of zero.
pub open spec fn max_value_spec(s: Seq<RadarPoint>) -> int
    decreases s.len(),
{
    if s.len() == 0 {
        0
    } else {
        let rest = max_value_spec(s.drop_last());
        if s.last().value as int >= rest {
            s.last().value as int
        } else {
            rest
        }
    }
}

/// The parsed values of a table's data rows, in file order.
pub open spec fn radar_values(recs: Seq<Seq<Seq<char>>>) -> Seq<int> {
    if recs.len() == 0 {
        Seq::empty()
    } else {
        Seq::new((recs.len() - 1) as nat, |j: int| decimal_micro_val(recs[j + 1][1]))
    }
}

/// The largest of a value list, floored at zero.
pub open spec fn max_ints(s: Seq<int>) -> int
    decreases s.len(),
{
    if s.len() == 0 {
        0
    } else {
        let rest = max_ints(s.drop_last());
        if s.last() >= rest {
            s.last()
        } else {
            rest
        }
    }
}

/// Loaded points carry the table's cell values, so the maxima agree.
pub proof fn lemma_max_values_agree(data: Seq<RadarPoint>, vals: Seq<int>)
    requires
        data.len() == vals.len(),
        forall|j: int| 0 <= j < data.len() ==> (#[trigger] data[j]).value as int == vals[j],
    ensures
        max_value_spec(data) == max_ints(vals),
    decreases data.len(),
{
    if data.len() > 0 {
        lemma_max_values_agree(data.drop_last(), vals.drop_last());
    }
}

/// One polygon corner in polar form: the point's angle is
/// `index * (2*pi / count)` and its radius the fraction
/// `value / max_value` of the maximum radius.
#[derive(Clone, Copy, PartialEq, Eq, Structural, Debug)]
pub struct RadarVertex {
    pub index: usize,
    pub value: i64,
}

/// The laid-out radar chart.
pub struct RadarLayout {
    pub count: usize,
    pub max_value: i64,
    pub polygon: Vec<RadarVertex>,
}

/// What the layout guarantees: one corner per point in file order, closed
/// by a repeat of the first corner.
pub open spec fn radar_layout_wf(l: RadarLayout, data: Seq<RadarPoint>) -> bool {
    &&& l.count == data.len()
    &&& l.count > 0
    &&& l.max_value as int == max_value_spec(data)
    &&& l.max_value > 0
    &&& l.polygon@.len() == data.len() + 1
    &&& forall|j: int|
        0 <= j < data.len() ==> (#[trigger] l.polygon@[j]).index == j && l.polygon@[j].value
            == data[j].value
    &&& l.polygon@[data.len() as int] == l.polygon@[0]
}

/// Builds the radar polygon. Fails when there are no points or when the
/// maximum magnitude is zero, where no radius scale exists.
pub fn layout_radar(data: &Vec<RadarPoint>) -> (r: Result<RadarLayout, ChartError>)
    ensures
        r is Ok <==> data@.len() > 0 && max_value_spec(data@) > 0,
        r matches Err(e) ==> e is DegenerateData,
        r matches Ok(l) ==> radar_layout_wf(l, data@),
{
    let n = data.len();
    if n == 0 {
        return Err(ChartError::DegenerateData);
    }
    let mut mx: i64 = 0;
    let mut i: usize = 0;
    proof {
        assert(data@.subrange(0, 0) =~= Seq::<RadarPoint>::empty());
    }
    while i < n
        invariant
            0 <= i <= n,
            n == data@.len(),
            mx as int == max_value_spec(data@.subrange(0, i as int)),
        decreases n - i,
    {
        proof {
            assert(data@.subrange(0, i + 1).drop_last() =~= data@.subrange(0, i as int));
        }
        let v = data[i].value;
        if v > mx {
            mx = v;
        }
        i = i + 1;
    }
    proof {
        assert(data@.subrange(0, n as int) =~= data@);
    }
    if mx <= 0 {
        return Err(ChartError::DegenerateData);
    }
    let mut polygon: Vec<RadarVertex> = Vec::new();
    let mut j: usize = 0;
    while j < n
        invariant
            0 <= j <= n,
            n == data@.len(),
            polygon@.len() == j,
            forall|k: int|
                0 <= k < j ==> (#[trigger] polygon@[k]).index == k && polygon@[k].value
                    == data@[k].value,
        decreases n - j,
    {
        polygon.push(RadarVertex { index: j, value: data[j].value });
        j = j + 1;
    }
    let first = polygon[0];
    polygon.push(first);
    Ok(RadarLayout { count: n, max_value: mx, polygon })
}

/// The closure invariant: the polygon has one corner more than the data
/// and its last corner repeats its first.
pub proof fn lemma_radar_polygon_closed(l: RadarLayout, data: Seq<RadarPoint>)
    requires
        radar_layout_wf(l, data),
    ensures
        l.polygon@.len() == data.len() + 1,
        l.polygon@.last() == l.polygon@.first(),
{
}

} // verus!

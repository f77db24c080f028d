//! The per-chart pipelines: CSV text in, chart-ready data out. Each one
//! validates before it loads, and nothing is handed to a renderer unless
//! the whole table passed.
use vstd::prelude::*;
use vstd::pervasive::unreached;
use crate::csvio::csv_records_of;
use crate::csvio::csv_text_ok;
use crate::csvio::parse_records;
use crate::csvio::row_view;
use crate::csvio::rows_view;
use crate::error::ChartError;
use crate::pie::cell_value_val;
use crate::pie::layout_pie;
use crate::pie::load_pie_records;
use crate::pie::pie_all_load;
use crate::pie::pie_all_ok;
use crate::pie::pie_layout_wf;
use crate::pie::ints_fit;
use crate::pie::lemma_prefix_sums_agree;
use crate::pie::pie_row_error;
use crate::pie::rec_values;
use crate::pie::sum_ints;
use crate::pie::validate_pie_records;
use crate::pie::PieChartData;
use crate::pie::PieLayout;
use crate::radar::layout_radar;
use crate::radar::load_radar_records;
use crate::radar::radar_all_ok;
use crate::radar::radar_layout_wf;
use crate::radar::lemma_max_values_agree;
use crate::radar::max_ints;
use crate::radar::radar_row_error;
use crate::radar::radar_values;
use crate::radar::RadarLayout;
use crate::radar::RadarPoint;
use crate::xy::line_axis_bounds;
use crate::xy::load_xy_records;
use crate::xy::max_x_spec;
use crate::xy::max_y_spec;
use crate::xy::validate_xy_records;
use crate::xy::xy_all_ok;
use crate::xy::xy_points;
use crate::xy::xy_row_error;

verus! {

/// The line/area chart's data: the points and the padded axis bounds.
pub struct LineChartData {
    pub points: Vec<(i32, i32)>,
    pub x_bound: i64,
    pub y_bound: i64,
}

/// Scatter data from two CSV texts: both are validated, then loaded.
pub fn scatter_chart_data(text1: &str, text2: &str) -> (r: Result<
    (Vec<(i32, i32)>, Vec<(i32, i32)>),
    ChartError,
>)
    ensures
        r is Ok <==> csv_text_ok(text1@) && csv_text_ok(text2@) && xy_all_ok(
            csv_records_of(text1@),
        ) && xy_all_ok(csv_records_of(text2@)),
        r matches Ok(p) ==> p.0@ == xy_points(csv_records_of(text1@)) && p.1@ == xy_points(
            csv_records_of(text2@),
        ),
        r matches Err(e) ==> (e is Malformed ==> !(csv_text_ok(text1@) && csv_text_ok(text2@))),
        r matches Err(e) ==> (csv_text_ok(text1@) && !xy_all_ok(csv_records_of(text1@))
            ==> exists|j: int|
            1 <= j < csv_records_of(text1@).len() && #[trigger] xy_row_error(
                csv_records_of(text1@)[j],
                j as usize,
            ) == Some(e) && (forall|k: int|
                1 <= k < j ==> xy_row_error(csv_records_of(text1@)[k], k as usize) is None)),
        r matches Err(e) ==> e is Malformed || (exists|j: int|
            1 <= j < csv_records_of(text1@).len() && #[trigger] xy_row_error(
                csv_records_of(text1@)[j],
                j as usize,
            ) == Some(e)) || (exists|j: int|
            1 <= j < csv_records_of(text2@).len() && #[trigger] xy_row_error(
                csv_records_of(text2@)[j],
                j as usize,
            ) == Some(e)),
{
    let records1 = match parse_records(text1) {
        Ok(v) => v,
        Err(e) => {
            return Err(e);
        },
    };
    if let Err(e) = validate_xy_records(&records1) {
        proof {
            let j = choose|j: int|
                1 <= j < records1@.len() && #[trigger] xy_row_error(
                    row_view(records1@[j]),
                    j as usize,
                ) == Some(e) && (forall|k: int|
                    1 <= k < j ==> xy_row_error(row_view(records1@[k]), k as usize) is None);
            assert(rows_view(records1@)[j] == row_view(records1@[j]));
            assert forall|k: int| 1 <= k < j implies xy_row_error(
                csv_records_of(text1@)[k],
                k as usize,
            ) is None by {
                assert(rows_view(records1@)[k] == row_view(records1@[k]));
            }
        }
        return Err(e);
    }
    let records2 = match parse_records(text2) {
        Ok(v) => v,
        Err(e) => {
            return Err(e);
        },
    };
    if let Err(e) = validate_xy_records(&records2) {
        proof {
            let j = choose|j: int|
                1 <= j < records2@.len() && #[trigger] xy_row_error(
                    row_view(records2@[j]),
                    j as usize,
                ) == Some(e) && (forall|k: int|
                    1 <= k < j ==> xy_row_error(row_view(records2@[k]), k as usize) is None);
            assert(rows_view(records2@)[j] == row_view(records2@[j]));
        }
        return Err(e);
    }
    let data1 = match load_xy_records(&records1) {
        Ok(v) => v,
        Err(_) => unreached(),
    };
    let data2 = match load_xy_records(&records2) {
        Ok(v) => v,
        Err(_) => unreached(),
    };
    Ok((data1, data2))
}

/// Line/area data from one CSV text: validated, loaded, and the axis
/// bounds computed with their fixed padding.
pub fn line_chart_data(text: &str) -> (r: Result<LineChartData, ChartError>)
    ensures
        r is Ok <==> csv_text_ok(text@) && xy_all_ok(csv_records_of(text@)),
        r matches Ok(l) ==> l.points@ == xy_points(csv_records_of(text@)) && l.x_bound
            == max_x_spec(xy_points(csv_records_of(text@))) + 1 && l.y_bound == max_y_spec(
            xy_points(csv_records_of(text@)),
        ) + 5,
        r matches Err(e) ==> (e is Malformed ==> !csv_text_ok(text@)),
        r matches Err(e) ==> (csv_text_ok(text@) && !xy_all_ok(csv_records_of(text@))
            ==> exists|j: int|
            1 <= j < csv_records_of(text@).len() && #[trigger] xy_row_error(
                csv_records_of(text@)[j],
                j as usize,
            ) == Some(e) && (forall|k: int|
                1 <= k < j ==> xy_row_error(csv_records_of(text@)[k], k as usize) is None)),
{
    let records = match parse_records(text) {
        Ok(v) => v,
        Err(e) => {
            return Err(e);
        },
    };
    if let Err(e) = validate_xy_records(&records) {
        proof {
            let j = choose|j: int|
                1 <= j < records@.len() && #[trigger] xy_row_error(
                    row_view(records@[j]),
                    j as usize,
                ) == Some(e) && (forall|k: int|
                    1 <= k < j ==> xy_row_error(row_view(records@[k]), k as usize) is None);
            assert(rows_view(records@)[j] == row_view(records@[j]));
            assert forall|k: int| 1 <= k < j implies xy_row_error(
                csv_records_of(text@)[k],
                k as usize,
            ) is None by {
                assert(rows_view(records@)[k] == row_view(records@[k]));
            }
        }
        return Err(e);
    }
    let points = match load_xy_records(&records) {
        Ok(v) => v,
        Err(_) => unreached(),
    };
    let (x_bound, y_bound) = line_axis_bounds(&points);
    Ok(LineChartData { points, x_bound, y_bound })
}

/// Pie layout from one CSV text: validated, loaded (colors may be drawn
/// at random), then laid out around the circle.
pub fn pie_chart_data(text: &str) -> (r: Result<PieLayout, ChartError>)
    ensures
        r is Ok <==> csv_text_ok(text@) && pie_all_load(csv_records_of(text@)) && ints_fit(
            rec_values(csv_records_of(text@)),
        ) && sum_ints(rec_values(csv_records_of(text@))) != 0,
        r matches Err(e) ==> (e is Malformed ==> !csv_text_ok(text@)),
        r matches Err(e) ==> (csv_text_ok(text@) && !pie_all_ok(csv_records_of(text@))
            ==> exists|j: int|
            1 <= j < csv_records_of(text@).len() && #[trigger] pie_row_error(
                csv_records_of(text@)[j],
                (j + 1) as usize,
            ) == Some(e) && (forall|k: int|
                1 <= k < j ==> pie_row_error(csv_records_of(text@)[k], (k + 1) as usize) is None)),
        r matches Ok(l) ==> exists|data: Seq<PieChartData>|
            {
                let recs = csv_records_of(text@);
                &&& #[trigger] pie_layout_wf(l, data)
                &&& pie_all_ok(recs)
                &&& pie_all_load(recs)
                &&& data.len() == (if recs.len() == 0 { 0int } else { recs.len() - 1 })
                &&& forall|j: int|
                    0 <= j < data.len() ==> (#[trigger] data[j]).label@ == recs[j + 1][0]
                        && data[j].value as int == cell_value_val(recs[j + 1][1])
                &&& forall|j: int|
                    0 <= j < data.len() && recs[j + 1].len() == 5 ==> (#[trigger] data[j]).color
                        == ((
                    crate::pie::cell_u8_val(recs[j + 1][2]) as u8,
                    crate::pie::cell_u8_val(recs[j + 1][3]) as u8,
                    crate::pie::cell_u8_val(recs[j + 1][4]) as u8,
                    ))
            },
        r matches Err(e) ==> e is Malformed || e is DegenerateData || e is Overflow
            || e is UnsupportedColumns || (exists|j: int|
            1 <= j < csv_records_of(text@).len() && #[trigger] pie_row_error(
                csv_records_of(text@)[j],
                (j + 1) as usize,
            ) == Some(e)),
{
    let records = match parse_records(text) {
        Ok(v) => v,
        Err(e) => {
            return Err(e);
        },
    };
    if let Err(e) = validate_pie_records(&records) {
        proof {
            let j = choose|j: int|
                1 <= j < records@.len() && #[trigger] pie_row_error(
                    row_view(records@[j]),
                    (j + 1) as usize,
                ) == Some(e) && (forall|k: int|
                    1 <= k < j ==> pie_row_error(row_view(records@[k]), (k + 1) as usize) is None);
            assert(rows_view(records@)[j] == row_view(records@[j]));
            assert(crate::pie::pie_load_error(rows_view(records@)[j], (j + 1) as usize) is Some);
            assert forall|k: int| 1 <= k < j implies pie_row_error(
                csv_records_of(text@)[k],
                (k + 1) as usize,
            ) is None by {
                assert(rows_view(records@)[k] == row_view(records@[k]));
            }
        }
        return Err(e);
    }
    let data = match load_pie_records(&records) {
        Ok(v) => v,
        Err(e) => {
            proof {
                let j = choose|j: int|
                    1 <= j < records@.len() && #[trigger] crate::pie::pie_load_error(
                        row_view(records@[j]),
                        (j + 1) as usize,
                    ) == Some(e) && (forall|k: int|
                        1 <= k < j ==> crate::pie::pie_load_error(
                            row_view(records@[k]),
                            (k + 1) as usize,
                        ) is None);
                assert(rows_view(records@)[j] == row_view(records@[j]));
            }
            return Err(e);
        },
    };
    proof {
        lemma_prefix_sums_agree(data@, rec_values(csv_records_of(text@)));
    }
    match layout_pie(&data) {
        Ok(l) => Ok(l),
        Err(e) => Err(e),
    }
}

/// Radar layout from one CSV text: loaded, then built into the closed
/// polygon.
pub fn radar_chart_data(text: &str) -> (r: Result<RadarLayout, ChartError>)
    ensures
        r is Ok <==> csv_text_ok(text@) && radar_all_ok(csv_records_of(text@)) && csv_records_of(
            text@,
        ).len() >= 2 && max_ints(radar_values(csv_records_of(text@))) > 0,
        r matches Err(e) ==> (e is Malformed ==> !csv_text_ok(text@)),
        r matches Err(e) ==> (csv_text_ok(text@) && !radar_all_ok(csv_records_of(text@))
            ==> exists|j: int|
            1 <= j < csv_records_of(text@).len() && #[trigger] radar_row_error(
                csv_records_of(text@)[j],
                j as usize,
            ) == Some(e) && (forall|k: int|
                1 <= k < j ==> radar_row_error(csv_records_of(text@)[k], k as usize) is None)),
        r matches Ok(l) ==> exists|data: Seq<RadarPoint>|
            {
                let recs = csv_records_of(text@);
                &&& #[trigger] radar_layout_wf(l, data)
                &&& radar_all_ok(recs)
                &&& data.len() == (if recs.len() == 0 { 0int } else { recs.len() - 1 })
                &&& forall|j: int|
                    0 <= j < data.len() ==> (#[trigger] data[j]).label@ == recs[j + 1][0]
                        && data[j].value as int == crate::numtext::decimal_micro_val(
                        recs[j + 1][1],
                    )
            },
        r matches Err(e) ==> e is Malformed || e is DegenerateData || (exists|j: int|
            1 <= j < csv_records_of(text@).len() && #[trigger] radar_row_error(
                csv_records_of(text@)[j],
                j as usize,
            ) == Some(e)),
{
    let records = match parse_records(text) {
        Ok(v) => v,
        Err(e) => {
            return Err(e);
        },
    };
    let data = match load_radar_records(&records) {
        Ok(v) => v,
        Err(e) => {
            proof {
                let j = choose|j: int|
                    1 <= j < records@.len() && #[trigger] radar_row_error(
                        row_view(records@[j]),
                        j as usize,
                    ) == Some(e) && (forall|k: int|
                        1 <= k < j ==> radar_row_error(row_view(records@[k]), k as usize) is None);
                assert(rows_view(records@)[j] == row_view(records@[j]));
                assert forall|k: int| 1 <= k < j implies radar_row_error(
                    csv_records_of(text@)[k],
                    k as usize,
                ) is None by {
                    assert(rows_view(records@)[k] == row_view(records@[k]));
                }
            }
            return Err(e);
        },
    };
    proof {
        lemma_max_values_agree(data@, radar_values(csv_records_of(text@)));
    }
    match layout_radar(&data) {
        Ok(l) => Ok(l),
        Err(e) => Err(e),
    }
}

} // verus!

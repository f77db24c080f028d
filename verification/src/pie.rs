//! Pie chart data and layout. A pie row holds a label, a decimal value,
//! and optionally an explicit RGB triple; rows without one get a random
//! color. The layout walks the slices in file order and assigns each an
//! exact angular span: slice `j` covers the fraction `value/total` of the
//! full circle, starting where slice `j - 1` ended. Angles are kept as
//! exact fractions `numerator/total` of one full turn (`2*pi`), so the
//! span arithmetic carries no rounding at all.
use vstd::prelude::*;
use crate::csvio::row_view;
use crate::csvio::rows_view;
use crate::error::ChartError;
use crate::numtext::decimal_micro_val;
use crate::numtext::is_decimal_literal;
use crate::numtext::is_u8_literal;
use crate::numtext::parse_decimal_micro;
use crate::numtext::parse_u8;
use crate::numtext::u8_literal_val;
use crate::text::trim;
use crate::text::trim_spec;
use rand::Rng;

verus! {

/// One loaded pie row: its label, its exact value in millionths, and its
/// fill color.
pub struct PieChartData {
    pub label: String,
    pub value: i64,
    pub color: (u8, u8, u8),
}

impl PieChartData {
    pub fn new(label: String, value: i64, color: (u8, u8, u8)) -> (r: Self)
        ensures
            r.label == label,
            r.value == value,
            r.color == color,
    {
        Self { label, value, color }
    }
}

/// The trimmed cell holds a representable decimal value.
pub open spec fn cell_value_ok(s: Seq<char>) -> bool {
    is_decimal_literal(trim_spec(s)) && -1_000_000_000_000_000_000 < decimal_micro_val(
        trim_spec(s),
    ) < 1_000_000_000_000_000_000
}

/// The trimmed cell's value in millionths.
pub open spec fn cell_value_val(s: Seq<char>) -> int {
    decimal_micro_val(trim_spec(s))
}

/// The trimmed cell holds a color component between 0 and 255.
pub open spec fn cell_u8_ok(s: Seq<char>) -> bool {
    is_u8_literal(trim_spec(s)) && u8_literal_val(trim_spec(s)) <= 255
}

/// The trimmed cell's color component value.
pub open spec fn cell_u8_val(s: Seq<char>) -> int {
    u8_literal_val(trim_spec(s))
}

/// The first complaint about a pie data row, if any: at least a label and
/// a numeric value, and, where an RGB triple is present, three color
/// components between 0 and 255. `line` is the line number the message
/// carries (the header line counts, so data row `j` reports `j + 2`).
pub open spec fn pie_row_error(row: Seq<Seq<char>>, line: usize) -> Option<ChartError> {
    if row.len() < 2 {
        Some(ChartError::TooFewColumns { line })
    } else if !cell_value_ok(row[1]) {
        Some(ChartError::BadValue { line })
    } else if row.len() >= 5 && !cell_u8_ok(row[2]) {
        Some(ChartError::BadColor { line, column: 3 })
    } else if row.len() >= 5 && !cell_u8_ok(row[3]) {
        Some(ChartError::BadColor { line, column: 4 })
    } else if row.len() >= 5 && !cell_u8_ok(row[4]) {
        Some(ChartError::BadColor { line, column: 5 })
    } else {
        None
    }
}

/// Every data row of `recs` (the first record is the header) validates.
pub open spec fn pie_all_ok(recs: Seq<Seq<Seq<char>>>) -> bool {
    forall|j: int| 1 <= j < recs.len() ==> pie_row_error(recs[j], (j + 1) as usize) is None
}

/// The first complaint the loader raises: everything the validator checks,
/// and additionally that the row has at most five columns.
pub open spec fn pie_load_error(row: Seq<Seq<char>>, line: usize) -> Option<ChartError> {
    if pie_row_error(row, line) is Some {
        pie_row_error(row, line)
    } else if row.len() >= 6 {
        Some(ChartError::UnsupportedColumns)
    } else {
        None
    }
}

/// Every data row of `recs` loads.
pub open spec fn pie_all_load(recs: Seq<Seq<Seq<char>>>) -> bool {
    forall|j: int| 1 <= j < recs.len() ==> pie_load_error(recs[j], (j + 1) as usize) is None
}

fn cell_value(cell: &String) -> (r: Option<i64>)
    ensures
        r is Some <==> cell_value_ok(cell@),
        r matches Some(v) ==> v as int == cell_value_val(cell@),
{
    parse_decimal_micro(trim(cell.as_str()))
}

fn cell_u8(cell: &String) -> (r: Option<u8>)
    ensures
        r is Some <==> cell_u8_ok(cell@),
        r matches Some(v) ==> v as int == cell_u8_val(cell@),
{
    parse_u8(trim(cell.as_str()))
}

/// Checks every pie data row before anything is drawn. Reports the first
/// offence with its line number.
pub fn validate_pie_records(records: &Vec<Vec<String>>) -> (r: Result<(), ChartError>)
    ensures
        r is Ok <==> pie_all_ok(rows_view(records@)),
        r matches Err(e) ==> exists|j: int|
            1 <= j < records@.len() && #[trigger] pie_row_error(
                row_view(records@[j]),
                (j + 1) as usize,
            ) == Some(e) && (forall|k: int|
                1 <= k < j ==> pie_row_error(row_view(records@[k]), (k + 1) as usize) is None),
{
    let ghost rv = rows_view(records@);
    let n = records.len();
    if n <= 1 {
        return Ok(());
    }
    let mut i: usize = 1;
    while i < n
        invariant
            1 <= i <= n,
            n == records@.len(),
            rv == rows_view(records@),
            forall|k: int|
                1 <= k < i ==> pie_row_error(row_view(records@[k]), (k + 1) as usize) is None,
        decreases n - i,
    {
        proof {
            assert(rv[i as int] == row_view(records@[i as int]));
        }
        let row = &records[i];
        let line = i + 1;
        if row.len() < 2 {
            return Err(ChartError::TooFewColumns { line });
        }
        if cell_value(&row[1]).is_none() {
            return Err(ChartError::BadValue { line });
        }
        if row.len() >= 5 {
            if cell_u8(&row[2]).is_none() {
                return Err(ChartError::BadColor { line, column: 3 });
            }
            if cell_u8(&row[3]).is_none() {
                return Err(ChartError::BadColor { line, column: 4 });
            }
            if cell_u8(&row[4]).is_none() {
                return Err(ChartError::BadColor { line, column: 5 });
            }
        }
        i = i + 1;
    }
    proof {
        assert forall|j: int| 1 <= j < rv.len() implies pie_row_error(
            rv[j],
            (j + 1) as usize,
        ) is None by {
            assert(rv[j] == row_view(records@[j]));
        }
    }
    Ok(())
}

/// Relies on rand::thread_rng and Rng::gen_range over 0..=255 for one
/// color component; any byte may come back.
#[verifier::external_body]
fn random_color_component() -> u8 {
    let mut rng = rand::thread_rng();
    rng.gen_range(0..=255)
}

/// Loads every pie data row. The label is the first cell as it stands, the
/// value is the trimmed second cell; a row of exactly five cells takes its
/// RGB triple from cells three to five, a shorter row gets a random color.
pub fn load_pie_records(records: &Vec<Vec<String>>) -> (r: Result<Vec<PieChartData>, ChartError>)
    ensures
        r is Ok <==> pie_all_load(rows_view(records@)),
        r matches Ok(v) ==> {
            let rv = rows_view(records@);
            &&& v@.len() == (if rv.len() == 0 { 0int } else { rv.len() - 1 })
            &&& forall|j: int|
                0 <= j < v@.len() ==> (#[trigger] v@[j]).label@ == rv[j + 1][0] && v@[j].value
                    as int == cell_value_val(rv[j + 1][1])
            &&& forall|j: int|
                0 <= j < v@.len() && rv[j + 1].len() == 5 ==> (#[trigger] v@[j]).color == ((
                cell_u8_val(rv[j + 1][2]) as u8,
                cell_u8_val(rv[j + 1][3]) as u8,
                cell_u8_val(rv[j + 1][4]) as u8,
                ))
        },
        r matches Err(e) ==> exists|j: int|
            1 <= j < records@.len() && #[trigger] pie_load_error(
                row_view(records@[j]),
                (j + 1) as usize,
            ) == Some(e) && (forall|k: int|
                1 <= k < j ==> pie_load_error(row_view(records@[k]), (k + 1) as usize) is None),
{
    let ghost rv = rows_view(records@);
    let n = records.len();
    let mut out: Vec<PieChartData> = Vec::new();
    if n <= 1 {
        return Ok(out);
    }
    let mut i: usize = 1;
    while i < n
        invariant
            1 <= i <= n,
            n == records@.len(),
            rv == rows_view(records@),
            out@.len() == i - 1,
            forall|k: int|
                1 <= k < i ==> pie_load_error(row_view(records@[k]), (k + 1) as usize) is None,
            forall|j: int|
                0 <= j < i - 1 ==> (#[trigger] out@[j]).label@ == rv[j + 1][0] && out@[j].value
                    as int == cell_value_val(rv[j + 1][1]),
            forall|j: int|
                0 <= j < i - 1 && rv[j + 1].len() == 5 ==> (#[trigger] out@[j]).color == ((
                cell_u8_val(rv[j + 1][2]) as u8,
                cell_u8_val(rv[j + 1][3]) as u8,
                cell_u8_val(rv[j + 1][4]) as u8,
                )),
        decreases n - i,
    {
        proof {
            assert(rv[i as int] == row_view(records@[i as int]));
        }
        let row = &records[i];
        let line = i + 1;
        if row.len() < 2 {
            return Err(ChartError::TooFewColumns { line });
        }
        let value = match cell_value(&row[1]) {
            Some(v) => v,
            None => {
                return Err(ChartError::BadValue { line });
            },
        };
        let color: (u8, u8, u8) = if row.len() == 5 {
            let cr = match cell_u8(&row[2]) {
                Some(v) => v,
                None => {
                    return Err(ChartError::BadColor { line, column: 3 });
                },
            };
            let cg = match cell_u8(&row[3]) {
                Some(v) => v,
                None => {
                    return Err(ChartError::BadColor { line, column: 4 });
                },
            };
            let cb = match cell_u8(&row[4]) {
                Some(v) => v,
                None => {
                    return Err(ChartError::BadColor { line, column: 5 });
                },
            };
            (cr, cg, cb)
        } else if row.len() >= 6 {
            if cell_u8(&row[2]).is_none() {
                return Err(ChartError::BadColor { line, column: 3 });
            }
            if cell_u8(&row[3]).is_none() {
                return Err(ChartError::BadColor { line, column: 4 });
            }
            if cell_u8(&row[4]).is_none() {
                return Err(ChartError::BadColor { line, column: 5 });
            }
            return Err(ChartError::UnsupportedColumns);
        } else {
            (random_color_component(), random_color_component(), random_color_component())
        };
        let label = row[0].clone();
        out.push(PieChartData { label, value, color });
        i = i + 1;
    }
    proof {
        assert forall|j: int| 1 <= j < rv.len() implies pie_load_error(
            rv[j],
            (j + 1) as usize,
        ) is None by {
            assert(rv[j] == row_view(records@[j]));
        }
    }
    Ok(out)
}

/// The sum of the slices' raw values, in millionths.
pub open spec fn sum_values(s: Seq<PieChartData>) -> int
    decreases s.len(),
{
    if s.len() == 0 {
        0
    } else {
        sum_values(s.drop_last()) + s.last().value
    }
}

/// The sum of the first `j` values: slice `j`'s start angle numerator.
pub open spec fn prefix_total(s: Seq<PieChartData>, j: int) -> int {
    sum_values(s.subrange(0, j))
}

/// `x` is representable as a 64-bit signed integer.
pub open spec fn fits_i64(x: int) -> bool {
    i64::MIN <= x <= i64::MAX
}

/// Every running sum of the values stays representable.
pub open spec fn prefixes_fit(s: Seq<PieChartData>) -> bool {
    forall|j: int| 0 <= j <= s.len() ==> fits_i64(#[trigger] prefix_total(s, j))
}

/// The parsed values of a table's data rows, in file order.
pub open spec fn rec_values(recs: Seq<Seq<Seq<char>>>) -> Seq<int> {
    if recs.len() == 0 {
        Seq::empty()
    } else {
        Seq::new((recs.len() - 1) as nat, |j: int| cell_value_val(recs[j + 1][1]))
    }
}

/// The sum of a value list.
pub open spec fn sum_ints(s: Seq<int>) -> int
    decreases s.len(),
{
    if s.len() == 0 {
        0
    } else {
        sum_ints(s.drop_last()) + s.last()
    }
}

/// Every running sum of a value list is representable.
pub open spec fn ints_fit(s: Seq<int>) -> bool {
    forall|j: int| 0 <= j <= s.len() ==> fits_i64(#[trigger] sum_ints(s.subrange(0, j)))
}

proof fn lemma_sum_values_ints(data: Seq<PieChartData>, vals: Seq<int>)
    requires
        data.len() == vals.len(),
        forall|j: int| 0 <= j < data.len() ==> (#[trigger] data[j]).value as int == vals[j],
    ensures
        sum_values(data) == sum_ints(vals),
    decreases data.len(),
{
    if data.len() > 0 {
        lemma_sum_values_ints(data.drop_last(), vals.drop_last());
    }
}

/// Loaded slices carry the table's cell values, so their running sums, and
/// with them the representability of the layout, agree.
pub proof fn lemma_prefix_sums_agree(data: Seq<PieChartData>, vals: Seq<int>)
    requires
        data.len() == vals.len(),
        forall|j: int| 0 <= j < data.len() ==> (#[trigger] data[j]).value as int == vals[j],
    ensures
        sum_values(data) == sum_ints(vals),
        forall|j: int|
            0 <= j <= data.len() ==> prefix_total(data, j) == sum_ints(vals.subrange(0, j)),
        prefixes_fit(data) <==> ints_fit(vals),
{
    lemma_sum_values_ints(data, vals);
    assert forall|j: int| 0 <= j <= data.len() implies prefix_total(data, j) == sum_ints(
        vals.subrange(0, j),
    ) by {
        lemma_sum_values_ints(data.subrange(0, j), vals.subrange(0, j));
    }
    if prefixes_fit(data) {
        assert forall|j: int| 0 <= j <= vals.len() implies fits_i64(
            #[trigger] sum_ints(vals.subrange(0, j)),
        ) by {
            assert(fits_i64(prefix_total(data, j)));
        }
    }
    if ints_fit(vals) {
        assert forall|j: int| 0 <= j <= data.len() implies fits_i64(
            #[trigger] prefix_total(data, j),
        ) by {
            assert(fits_i64(sum_ints(vals.subrange(0, j))));
        }
    }
}

/// One laid-out wedge: its angular span is `[start/total, end/total]` of a
/// full turn of `2*pi`, walked clockwise from angle zero in file order.
pub struct PieSlice {
    pub label: String,
    pub value: i64,
    pub color: (u8, u8, u8),
    pub start: i64,
    pub end: i64,
}

/// The laid-out pie: the common denominator `total` and the slices.
pub struct PieLayout {
    pub total: i64,
    pub slices: Vec<PieSlice>,
}

/// What the layout guarantees: the slices carry the data in file order and
/// their spans are the running-sum fractions of the circle.
pub open spec fn pie_layout_wf(l: PieLayout, data: Seq<PieChartData>) -> bool {
    &&& l.total as int == sum_values(data)
    &&& l.total != 0
    &&& l.slices@.len() == data.len()
    &&& forall|j: int|
        0 <= j < data.len() ==> (#[trigger] l.slices@[j]).label == data[j].label
            && l.slices@[j].value == data[j].value && l.slices@[j].color == data[j].color
            && l.slices@[j].start as int == prefix_total(data, j) && l.slices@[j].end as int
            == prefix_total(data, j + 1)
}

/// Lays the slices out around the circle. Fails on a zero total, where no
/// normalization exists, and on a running sum that leaves 64-bit range.
pub fn layout_pie(data: &Vec<PieChartData>) -> (r: Result<PieLayout, ChartError>)
    ensures
        r is Ok <==> prefixes_fit(data@) && sum_values(data@) != 0,
        r == Err::<PieLayout, ChartError>(ChartError::Overflow) <==> !prefixes_fit(data@),
        r == Err::<PieLayout, ChartError>(ChartError::DegenerateData) <==> prefixes_fit(data@)
            && sum_values(data@) == 0,
        r matches Ok(l) ==> pie_layout_wf(l, data@),
{
    let n = data.len();
    let mut acc: i64 = 0;
    let mut i: usize = 0;
    proof {
        assert(data@.subrange(0, 0) =~= Seq::<PieChartData>::empty());
    }
    while i < n
        invariant
            0 <= i <= n,
            n == data@.len(),
            acc as int == prefix_total(data@, i as int),
            forall|j: int| 0 <= j <= i ==> fits_i64(#[trigger] prefix_total(data@, j)),
        decreases n - i,
    {
        let v = data[i].value;
        proof {
            assert(data@.subrange(0, i + 1).drop_last() =~= data@.subrange(0, i as int));
            assert(prefix_total(data@, i + 1) == acc + v);
        }
        if v > 0 && acc > i64::MAX - v {
            return Err(ChartError::Overflow);
        }
        if v < 0 && acc < i64::MIN - v {
            return Err(ChartError::Overflow);
        }
        acc = acc + v;
        i = i + 1;
    }
    proof {
        assert(data@.subrange(0, n as int) =~= data@);
    }
    if acc == 0 {
        return Err(ChartError::DegenerateData);
    }
    let mut slices: Vec<PieSlice> = Vec::new();
    let mut start: i64 = 0;
    let mut j: usize = 0;
    proof {
        assert(data@.subrange(0, 0) =~= Seq::<PieChartData>::empty());
    }
    while j < n
        invariant
            0 <= j <= n,
            n == data@.len(),
            prefixes_fit(data@),
            acc as int == sum_values(data@),
            start as int == prefix_total(data@, j as int),
            slices@.len() == j,
            forall|k: int|
                0 <= k < j ==> (#[trigger] slices@[k]).label == data@[k].label && slices@[k].value
                    == data@[k].value && slices@[k].color == data@[k].color && slices@[k].start
                    as int == prefix_total(data@, k) && slices@[k].end as int == prefix_total(
                    data@,
                    k + 1,
                ),
        decreases n - j,
    {
        let v = data[j].value;
        proof {
            assert(data@.subrange(0, j + 1).drop_last() =~= data@.subrange(0, j as int));
            assert(prefix_total(data@, j + 1) == start + v);
            assert(fits_i64(prefix_total(data@, j + 1)));
        }
        let e = start + v;
        let label = data[j].label.clone();
        let color = data[j].color;
        slices.push(PieSlice { label, value: v, color, start, end: e });
        start = e;
        j = j + 1;
    }
    Ok(PieLayout { total: acc, slices })
}

/// A pie whose values are all zero has a zero total, so `layout_pie`
/// refuses it as degenerate and nothing reaches a renderer.
pub proof fn lemma_pie_zero_values_degenerate(data: Seq<PieChartData>)
    requires
        forall|j: int| 0 <= j < data.len() ==> data[j].value == 0,
    ensures
        sum_values(data) == 0,
        prefixes_fit(data),
    decreases data.len(),
{
    if data.len() > 0 {
        lemma_pie_zero_values_degenerate(data.drop_last());
        assert forall|j: int| 0 <= j <= data.len() implies fits_i64(
            #[trigger] prefix_total(data, j),
        ) by {
            if j < data.len() {
                assert(data.subrange(0, j) =~= data.drop_last().subrange(0, j));
                assert(fits_i64(prefix_total(data.drop_last(), j)));
            } else {
                assert(data.subrange(0, j) =~= data);
            }
        }
    } else {
        assert(data.subrange(0, 0) =~= data);
    }
}

/// Each slice's value scaled by 100: the normalized numerators over the
/// common denominator `total`.
pub open spec fn scaled_sum(s: Seq<PieSlice>) -> int
    decreases s.len(),
{
    if s.len() == 0 {
        0
    } else {
        scaled_sum(s.drop_last()) + 100 * s.last().value
    }
}

proof fn lemma_scaled_sum_of(s: Seq<PieSlice>, d: Seq<PieChartData>)
    requires
        s.len() == d.len(),
        forall|j: int| 0 <= j < d.len() ==> (#[trigger] s[j]).value == d[j].value,
    ensures
        scaled_sum(s) == 100 * sum_values(d),
    decreases s.len(),
{
    if s.len() > 0 {
        lemma_scaled_sum_of(s.drop_last(), d.drop_last());
    }
}

/// Normalization is exact: each slice's normalized value is the fraction
/// `100 * value / total` of 100, and over the common denominator `total`
/// the numerators sum to `100 * total` — the normalized values sum to
/// exactly 100.
pub proof fn lemma_pie_normalized_sum(l: PieLayout, data: Seq<PieChartData>)
    requires
        pie_layout_wf(l, data),
    ensures
        scaled_sum(l.slices@) == 100 * l.total,
{
    lemma_scaled_sum_of(l.slices@, data);
}

/// The slices tile the circle: the first starts at angle zero, each slice
/// ends exactly where the next begins, and the last ends at `total` — the
/// fraction `total/total`, one full turn of `2*pi`.
pub proof fn lemma_pie_spans_contiguous(l: PieLayout, data: Seq<PieChartData>)
    requires
        pie_layout_wf(l, data),
    ensures
        l.slices@.len() > 0 ==> l.slices@[0].start == 0,
        forall|j: int|
            0 <= j < l.slices@.len() - 1 ==> (#[trigger] l.slices@[j]).end == l.slices@[j
                + 1].start,
        l.slices@.len() > 0 ==> l.slices@[l.slices@.len() - 1].end == l.total,
{
    assert(data.subrange(0, 0) =~= Seq::<PieChartData>::empty());
    assert(data.subrange(0, data.len() as int) =~= data);
}

} // verus!

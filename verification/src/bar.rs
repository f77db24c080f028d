//! Bar chart layout over header-addressed rows: one bar per row, its
//! height read from the value column, its color cycling through a fixed
//! palette by row index. A row whose value cell is absent or not an
//! integer keeps its place but draws nothing.
use vstd::prelude::*;
use crate::numtext::int_literal_val;
use crate::numtext::is_int_literal;
use crate::numtext::parse_i32;
use crate::rows::lookup_spec;
use crate::rows::DataRow;

verus! {

/// Size of the fixed color palette the bars cycle through.
pub const PALETTE_LEN: usize = 7;

/// Color index for the bar at `index`: the palette repeats.
pub fn palette_index(index: usize) -> (r: usize)
    ensures
        r == index % PALETTE_LEN,
        r < PALETTE_LEN,
{
    index % PALETTE_LEN
}

/// The height a row contributes: its value cell read as a 32-bit integer,
/// or nothing when the cell is missing or not an integer.
pub open spec fn bar_height(row: DataRow, col: Seq<char>) -> Option<int> {
    match lookup_spec(row.values@, col) {
        Some(s) => {
            if is_int_literal(s) && -0x8000_0000 <= int_literal_val(s) <= 0x7fff_ffff {
                Some(int_literal_val(s))
            } else {
                None
            }
        },
        None => None,
    }
}

/// The label a row contributes: its label cell, or empty when missing.
pub open spec fn bar_label(row: DataRow, col: Seq<char>) -> Seq<char> {
    match lookup_spec(row.values@, col) {
        Some(s) => s,
        None => Seq::empty(),
    }
}

/// The largest height over the rows that have one.
pub open spec fn bar_max_opt(rows: Seq<DataRow>, col: Seq<char>) -> Option<int>
    decreases rows.len(),
{
    if rows.len() == 0 {
        None
    } else {
        let rest = bar_max_opt(rows.drop_last(), col);
        match bar_height(rows.last(), col) {
            Some(v) => match rest {
                Some(m) => if v >= m {
                    Some(v)
                } else {
                    Some(m)
                },
                None => Some(v),
            },
            None => rest,
        }
    }
}

/// The axis maximum: the largest height, or zero when no row has one.
pub open spec fn bar_max_val(rows: Seq<DataRow>, col: Seq<char>) -> int {
    match bar_max_opt(rows, col) {
        Some(m) => m,
        None => 0,
    }
}

/// One bar: its row position, its x label, its height if its value cell
/// parsed, and the palette slot its color comes from.
pub struct BarRect {
    pub index: usize,
    pub label: String,
    pub height: Option<i32>,
    pub color_index: usize,
}

/// The laid-out bar chart.
pub struct BarLayout {
    pub max_value: i32,
    pub bars: Vec<BarRect>,
}

/// Lays out one bar per row, in file order, and computes the axis
/// maximum of the value column.
pub fn layout_bars(rows: &Vec<DataRow>, label_col: &str, value_col: &str) -> (r: BarLayout)
    ensures
        r.max_value as int == bar_max_val(rows@, value_col@),
        r.bars@.len() == rows@.len(),
        forall|j: int|
            0 <= j < rows@.len() ==> (#[trigger] r.bars@[j]).index == j && r.bars@[j].color_index
                == j % PALETTE_LEN as int && r.bars@[j].label@ == bar_label(rows@[j], label_col@)
                && (r.bars@[j].height is Some <==> bar_height(rows@[j], value_col@) is Some) && (
            r.bars@[j].height matches Some(h) ==> Some(h as int) == bar_height(
                rows@[j],
                value_col@,
            )),
{
    let n = rows.len();
    let mut bars: Vec<BarRect> = Vec::new();
    let mut m: Option<i32> = None;
    let mut i: usize = 0;
    proof {
        assert(rows@.subrange(0, 0) =~= Seq::<DataRow>::empty());
    }
    while i < n
        invariant
            0 <= i <= n,
            n == rows@.len(),
            bars@.len() == i,
            (m is Some <==> bar_max_opt(rows@.subrange(0, i as int), value_col@) is Some),
            m matches Some(v) ==> Some(v as int) == bar_max_opt(
                rows@.subrange(0, i as int),
                value_col@,
            ),
            forall|j: int|
                0 <= j < i ==> (#[trigger] bars@[j]).index == j && bars@[j].color_index == j
                    % PALETTE_LEN as int && bars@[j].label@ == bar_label(rows@[j], label_col@) && (
                bars@[j].height is Some <==> bar_height(rows@[j], value_col@) is Some) && (
                bars@[j].height matches Some(h) ==> Some(h as int) == bar_height(
                    rows@[j],
                    value_col@,
                )),
        decreases n - i,
    {
        proof {
            assert(rows@.subrange(0, i + 1).drop_last() =~= rows@.subrange(0, i as int));
            assert(rows@.subrange(0, i + 1).last() == rows@[i as int]);
        }
        let row = &rows[i];
        let height: Option<i32> = match row.get(value_col) {
            Some(cell) => parse_i32(cell.as_str()),
            None => None,
        };
        let label: String = match row.get(label_col) {
            Some(cell) => cell.clone(),
            None => String::new(),
        };
        if let Some(h) = height {
            m = match m {
                Some(v) => if h >= v {
                    Some(h)
                } else {
                    Some(v)
                },
                None => Some(h),
            };
        }
        let color_index = palette_index(i);
        bars.push(BarRect { index: i, label, height, color_index });
        i = i + 1;
    }
    proof {
        assert(rows@.subrange(0, n as int) =~= rows@);
    }
    let max_value = match m {
        Some(v) => v,
        None => 0,
    };
    BarLayout { max_value, bars }
}

} // verus!

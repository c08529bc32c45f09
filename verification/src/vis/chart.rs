//! A rendered chart: its identity, name, grouping and data series.

use vstd::prelude::*;

use crate::id::Id;
use crate::metrics::Measurement;
use crate::metrics::MetricValue;
use crate::strfmt::dec_digits;

verus! {

/// The scale of a chart axis.
#[derive(Debug, Clone, Copy, PartialEq, Eq, Structural)]
pub enum AxisType {
    /// A linear numeric axis.
    Linear,
    /// A date axis.
    Date,
    /// A logarithmic axis.
    Log,
    /// A categorical axis.
    Category,
    /// A multi-level categorical axis.
    Multicategory,
}

impl AxisType {
    /// The vertical axis a list of measurements calls for: a date axis
    /// for datetime values, a linear axis otherwise.
    pub fn yaxis(measurements: &Vec<Measurement>) -> (r: AxisType)
        ensures
            r == (if measurements@.len() > 0 && measurements@[0].value is DateTime {
                AxisType::Date
            } else {
                AxisType::Linear
            }),
    {
        if measurements.len() > 0 {
            match measurements[0].value {
                MetricValue::DateTime(_) => AxisType::Date,
                _ => AxisType::Linear,
            }
        } else {
            AxisType::Linear
        }
    }
}

/// The variable names of one chart's data series.
#[derive(Debug, Clone)]
pub struct Series {
    /// The name of the x-value array.
    pub xs: String,
    /// The name of the y-value array.
    pub ys: String,
}

impl Series {
    /// A series with the given array names.
    pub fn new(xs: String, ys: String) -> (r: Series)
        ensures
            r.xs == xs,
            r.ys == ys,
    {
        Series { xs, ys }
    }

    /// The series named after an identifier: `xs_` and `ys_` followed by
    /// its decimal value.
    pub fn from(id: Id) -> (r: Series)
        ensures
            r.xs@ == "xs_"@ + dec_digits(id.0 as nat),
            r.ys@ == "ys_"@ + dec_digits(id.0 as nat),
    {
        let digits = crate::strfmt::u64_to_string(id.0);
        let mut xs = String::from_str("xs_");
        xs.append(digits.as_str());
        let mut ys = String::from_str("ys_");
        ys.append(digits.as_str());
        Series::new(xs, ys)
    }
}

/// A chart of one metric: its identity, name, grouping, vertical axis,
/// series names and the path of its data file.
#[derive(Debug)]
pub struct Chart {
    /// The identifier of the chart.
    pub id: Id,
    /// The display name of the chart.
    pub name: String,
    /// The groups the charted metric belongs to.
    pub groups: Vec<String>,
    /// The scale of the vertical axis.
    pub yaxis_type: AxisType,
    /// The variable names of the data series.
    pub series: Series,
    /// The path of the data file holding the series.
    pub series_path: String,
}

impl Chart {
    /// A chart from its parts.
    pub fn new(
        id: Id,
        name: String,
        groups: Vec<String>,
        yaxis_type: AxisType,
        series: Series,
        series_path: String,
    ) -> (r: Chart)
        ensures
            r.id == id,
            r.name == name,
            r.groups == groups,
            r.yaxis_type == yaxis_type,
            r.series == series,
            r.series_path == series_path,
    {
        Chart { id, name, groups, yaxis_type, series, series_path }
    }
}

} // verus!

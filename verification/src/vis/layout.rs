//! The plot description of a chart: trace, axes and figure layout.

use vstd::prelude::*;

use crate::id::Id;

verus! {

/// The kind of a trace.
#[derive(Debug, Clone, Copy, PartialEq, Eq, Structural)]
pub enum TraceKind {
    /// A scatter trace.
    Scatter,
}

/// How the points of a trace are drawn.
#[derive(Debug, Clone, Copy, PartialEq, Eq, Structural)]
pub enum Mode {
    /// Joined by lines.
    Lines,
}

/// How the area under a trace is filled.
#[derive(Debug, Clone, Copy, PartialEq, Eq, Structural)]
pub enum Fill {
    /// Filled down to the horizontal axis.
    Tozeroy,
}

/// The scale of an axis.
#[derive(Debug, Clone, Copy, PartialEq, Eq, Structural)]
pub enum AxisKind {
    /// A linear scale.
    Linear,
}

/// How hovering selects points.
#[derive(Debug, Clone, Copy, PartialEq, Eq, Structural)]
pub enum HoverMode {
    /// The closest point is selected.
    Closest,
}

/// The trace of a chart: a filled line plot.
#[derive(Debug, Clone, Copy, PartialEq, Eq, Structural)]
pub struct Trace {
    /// The kind of the trace.
    pub kind: TraceKind,
    /// How its points are drawn.
    pub mode: Mode,
    /// How the area under it is filled.
    pub fill: Fill,
}

impl Trace {
    /// The one trace every chart uses: a line plot filled to the axis.
    pub fn new() -> (r: Trace)
        ensures
            r == (Trace { kind: TraceKind::Scatter, mode: Mode::Lines, fill: Fill::Tozeroy }),
    {
        Trace { kind: TraceKind::Scatter, mode: Mode::Lines, fill: Fill::Tozeroy }
    }
}

/// One axis of a chart.
#[derive(Debug, Clone, Copy, PartialEq, Eq, Structural)]
pub struct Axis {
    /// The scale of the axis.
    pub kind: AxisKind,
    /// Whether the axis is mirrored.
    pub mirror: bool,
    /// Whether grid lines are shown.
    pub show_grid: bool,
    /// Whether the axis line is shown.
    pub show_line: bool,
    /// Whether the zero line is shown.
    pub zero_line: bool,
    /// Whether the range adjusts to the data.
    pub auto_range: bool,
    /// Whether tick labels are shown.
    pub show_tick_labels: bool,
}

impl Axis {
    /// The one axis style every chart uses: linear, auto-ranged and bare.
    pub fn new() -> (r: Axis)
        ensures
            r == (Axis {
                kind: AxisKind::Linear,
                mirror: false,
                show_grid: false,
                show_line: false,
                zero_line: false,
                auto_range: true,
                show_tick_labels: false,
            }),
    {
        Axis {
            kind: AxisKind::Linear,
            mirror: false,
            show_grid: false,
            show_line: false,
            zero_line: false,
            auto_range: true,
            show_tick_labels: false,
        }
    }
}

/// The figure layout of a chart.
#[derive(Debug, Clone, Copy, PartialEq, Eq, Structural)]
pub struct Layout {
    /// The horizontal axis.
    pub x_axis: Axis,
    /// The vertical axis.
    pub y_axis: Axis,
    /// The width of the figure, in pixels.
    pub width: u32,
    /// The height of the figure, in pixels.
    pub height: u32,
    /// Whether the legend is shown.
    pub show_legend: bool,
    /// Whether the figure sizes itself.
    pub auto_size: bool,
    /// How hovering selects points.
    pub hover_mode: HoverMode,
}

impl Layout {
    /// The one figure layout every chart uses: eight hundred by four
    /// hundred pixels, no legend, fixed size, closest-point hovering.
    pub fn new() -> (r: Layout)
        ensures
            r.x_axis == (Axis {
                kind: AxisKind::Linear,
                mirror: false,
                show_grid: false,
                show_line: false,
                zero_line: false,
                auto_range: true,
                show_tick_labels: false,
            }),
            r.y_axis == (Axis {
                kind: AxisKind::Linear,
                mirror: false,
                show_grid: false,
                show_line: false,
                zero_line: false,
                auto_range: true,
                show_tick_labels: false,
            }),
            r.width == 800u32,
            r.height == 400u32,
            r.show_legend == false,
            r.auto_size == false,
            r.hover_mode == HoverMode::Closest,
    {
        Layout {
            x_axis: Axis::new(),
            y_axis: Axis::new(),
            width: 800,
            height: 400,
            show_legend: false,
            auto_size: false,
            hover_mode: HoverMode::Closest,
        }
    }
}

/// The whole plot description of a chart.
#[derive(Debug, Clone, Copy, PartialEq, Eq, Structural)]
pub struct ChartSpec {
    /// The trace of the chart.
    pub trace: Trace,
    /// The figure layout of the chart.
    pub layout: Layout,
}

impl ChartSpec {
    /// The one plot description every chart uses.
    pub fn new() -> (r: ChartSpec)
        ensures
            r.trace == (Trace { kind: TraceKind::Scatter, mode: Mode::Lines, fill: Fill::Tozeroy }),
            r.layout == (Layout {
                x_axis: (Axis {
                kind: AxisKind::Linear,
                mirror: false,
                show_grid: false,
                show_line: false,
                zero_line: false,
                auto_range: true,
                show_tick_labels: false,
            }),
                y_axis: (Axis {
                kind: AxisKind::Linear,
                mirror: false,
                show_grid: false,
                show_line: false,
                zero_line: false,
                auto_range: true,
                show_tick_labels: false,
            }),
                width: 800u32,
                height: 400u32,
                show_legend: false,
                auto_size: false,
                hover_mode: HoverMode::Closest,
            }),
    {
        ChartSpec { trace: Trace::new(), layout: Layout::new() }
    }
}

/// A chart of the plotted page: an identifier, a name and its plot
/// description.
#[derive(Debug)]
pub struct Chart {
    /// The identifier of the chart.
    pub id: Id,
    /// The display name of the chart.
    pub name: String,
    /// The plot description of the chart.
    pub spec: ChartSpec,
}

impl Chart {
    /// A chart under the given identifier, with an empty name and the
    /// standard plot description.
    pub fn new(id: Id) -> (r: Chart)
        ensures
            r.id == id,
            r.name@ == Seq::<char>::empty(),
            r.spec.trace == (Trace { kind: TraceKind::Scatter, mode: Mode::Lines, fill: Fill::Tozeroy }),
            r.spec.layout == (Layout {
                x_axis: (Axis {
                kind: AxisKind::Linear,
                mirror: false,
                show_grid: false,
                show_line: false,
                zero_line: false,
                auto_range: true,
                show_tick_labels: false,
            }),
                y_axis: (Axis {
                kind: AxisKind::Linear,
                mirror: false,
                show_grid: false,
                show_line: false,
                zero_line: false,
                auto_range: true,
                show_tick_labels: false,
            }),
                width: 800u32,
                height: 400u32,
                show_legend: false,
                auto_size: false,
                hover_mode: HoverMode::Closest,
            }),
    {
        Chart { id, name: String::new(), spec: ChartSpec::new() }
    }
}

} // verus!

//! The metrics that the dashboard charts show.
use vstd::prelude::*;

use vstd::string::StringSliceAdditionalSpecFns;

use crate::text::push_all;

verus! {

/// The quantity a chart plots.
#[derive(Debug, PartialEq, Eq)]
pub enum MetricType {
    TotalExecTime,
    TotalMemoryUsage,
    TotalExecCount,
    TimeAverage,
    /// The given metric, read from the difference of two captures.
    DiffView(Box<MetricType>),
}

/// The title of a chart plotting `m`.
pub open spec fn metric_label(m: MetricType) -> Seq<char>
    decreases m,
{
    match m {
        MetricType::TotalExecTime => "Total Execution Time (ms)"@,
        MetricType::TotalMemoryUsage => "Total Memory Usage (mb)"@,
        MetricType::TotalExecCount => "Total executions"@,
        MetricType::TimeAverage => "Average Time Per Execution (ms)"@,
        MetricType::DiffView(inner) => "Captures difference - "@ + metric_label(*inner),
    }
}

impl Clone for MetricType {
    fn clone(&self) -> (r: MetricType)
        ensures
            r == *self,
    {
        self.duplicate()
    }
}

impl Default for MetricType {
    fn default() -> (r: MetricType)
        ensures
            r == MetricType::TotalExecTime,
    {
        MetricType::TotalExecTime
    }
}

impl MetricType {
    /// A metric equal to `self`.
    pub fn duplicate(&self) -> (r: MetricType)
        ensures
            r == *self,
        decreases self,
    {
        match self {
            MetricType::TotalExecTime => MetricType::TotalExecTime,
            MetricType::TotalMemoryUsage => MetricType::TotalMemoryUsage,
            MetricType::TotalExecCount => MetricType::TotalExecCount,
            MetricType::TimeAverage => MetricType::TimeAverage,
            MetricType::DiffView(inner) => MetricType::DiffView(Box::new((**inner).duplicate())),
        }
    }

    /// Whether `self` and `other` are the same metric.
    pub fn same_as(&self, other: &MetricType) -> (r: bool)
        ensures
            r == (*self == *other),
        decreases self,
    {
        match (self, other) {
            (MetricType::TotalExecTime, MetricType::TotalExecTime) => true,
            (MetricType::TotalMemoryUsage, MetricType::TotalMemoryUsage) => true,
            (MetricType::TotalExecCount, MetricType::TotalExecCount) => true,
            (MetricType::TimeAverage, MetricType::TimeAverage) => true,
            (MetricType::DiffView(a), MetricType::DiffView(b)) => (**a).same_as(&**b),
            _ => false,
        }
    }

    /// Appends the title of a chart plotting `self` to `out`.
    fn push_label(&self, out: &mut String)
        ensures
            final(out)@ == old(out)@ + metric_label(*self),
        decreases self,
    {
        match self {
            MetricType::TotalExecTime => push_all(out, "Total Execution Time (ms)"),
            MetricType::TotalMemoryUsage => push_all(out, "Total Memory Usage (mb)"),
            MetricType::TotalExecCount => push_all(out, "Total executions"),
            MetricType::TimeAverage => push_all(out, "Average Time Per Execution (ms)"),
            MetricType::DiffView(inner) => {
                push_all(out, "Captures difference - ");
                (**inner).push_label(out);
                assert(final(out)@ =~= old(out)@ + metric_label(*self));
            },
        }
    }

    /// The title of a chart plotting `self`.
    pub fn label(&self) -> (r: String)
        ensures
            r@ == metric_label(*self),
    {
        let mut r = String::new();
        self.push_label(&mut r);
        assert(r@ =~= metric_label(*self));
        r
    }
}

/// A chart of a view: the metric it plots and, for a difference view, the difference it
/// reads.
#[derive(Debug)]
pub struct ChartSpec<D> {
    pub metric_type: MetricType,
    pub diff_data: Option<D>,
}

impl<D> ChartSpec<D> {
    /// A chart of `metric_type` without difference data.
    pub fn new(metric_type: MetricType) -> (r: ChartSpec<D>)
        ensures
            r.metric_type == metric_type,
            r.diff_data is None,
    {
        ChartSpec { metric_type, diff_data: None }
    }
}


/// A rectangle of terminal cells.
#[derive(Clone, Copy, PartialEq, Eq, Structural, Debug)]
pub struct Area {
    pub x: u16,
    pub y: u16,
    pub width: u16,
    pub height: u16,
}

/// `a - b`, or zero when `b` is larger.
pub open spec fn sat_sub_u16(a: u16, b: u16) -> u16 {
    if a > b {
        (a - b) as u16
    } else {
        0
    }
}

/// The smaller of `a` and `b`.
pub open spec fn min_u16(a: u16, b: u16) -> u16 {
    if a < b {
        a
    } else {
        b
    }
}

/// The row, counted from the top of the plot, on which the bars stand: three rows above the
/// bottom, or half of that when some values are negative (their bars hang below it).
pub open spec fn base_row(plot_height: u16, has_negative: bool) -> u16 {
    if has_negative {
        (sat_sub_u16(plot_height, 3) / 2) as u16
    } else {
        sat_sub_u16(plot_height, 3)
    }
}

/// The row on which the bars stand.
pub fn chart_base_y(plot_height: u16, has_negative: bool) -> (r: u16)
    ensures
        r == base_row(plot_height, has_negative),
{
    if has_negative {
        plot_height.saturating_sub(3) / 2
    } else {
        plot_height.saturating_sub(3)
    }
}

/// The width given to each of `data_len` bars, which share the plot's width.
pub fn bar_width(plot_width: u16, data_len: usize) -> (r: u16)
    requires
        (data_len as u16) != 0,
    ensures
        r == plot_width / (data_len as u16),
{
    plot_width / (data_len as u16)
}

/// The rectangle of the bar at `index`: `gap` cells into its slot, its width less the gap;
/// a bar of a value that is not negative rises from the base row by `height` (at most up to the
/// top), a bar of a negative value hangs from the base row by `height` (at most down to the
/// bottom).
pub open spec fn bar_area_spec(
    plot: Area,
    index: usize,
    bar_width: u16,
    gap: u16,
    base_y: u16,
    height: u16,
    negative: bool,
) -> Area {
    let x = (plot.x + ((index as u16) * bar_width + gap)) as u16;
    let w = sat_sub_u16(bar_width, gap);
    if !negative {
        Area {
            x,
            y: (plot.y + sat_sub_u16(base_y, height)) as u16,
            width: w,
            height: min_u16(height, base_y),
        }
    } else {
        Area {
            x,
            y: (plot.y + base_y) as u16,
            width: w,
            height: min_u16(height, sat_sub_u16(plot.height, base_y)),
        }
    }
}

/// A bar is never taller than asked, and exactly as tall as asked when that fits on its side of
/// the base row; a bar that is not negative ends on the base row, a negative one starts on it.
/// It stands `gap` cells into its slot and is `gap` cells narrower than the slot.
pub proof fn lemma_bar_area(
    plot: Area,
    index: usize,
    bar_width: u16,
    gap: u16,
    base_y: u16,
    height: u16,
    negative: bool,
)
    requires
        (index as u16) * bar_width + gap <= u16::MAX,
        plot.x + ((index as u16) * bar_width + gap) <= u16::MAX,
        !negative ==> plot.y + base_y <= u16::MAX,
        negative ==> plot.y + base_y <= u16::MAX,
    ensures
        ({
            let r = bar_area_spec(plot, index, bar_width, gap, base_y, height, negative);
            &&& r.height <= height
            &&& r.x == plot.x + (index as u16) * bar_width + gap
            &&& r.width == if bar_width > gap {
                bar_width - gap
            } else {
                0
            }
            &&& !negative ==> r.height <= base_y && r.y + r.height == plot.y + base_y
            &&& !negative && height <= base_y ==> r.height == height
            &&& negative ==> r.y == plot.y + base_y && r.height + base_y <= if plot.height > base_y {
                plot.height as int
            } else {
                base_y as int
            }
            &&& negative && base_y + height <= plot.height ==> r.height == height
        }),
{
}

/// Places the bar at `index` in the plot.
pub fn bar_area(
    plot: Area,
    index: usize,
    bar_width: u16,
    gap: u16,
    base_y: u16,
    height: u16,
    negative: bool,
) -> (r: Area)
    requires
        (index as u16) * bar_width + gap <= u16::MAX,
        plot.x + ((index as u16) * bar_width + gap) <= u16::MAX,
        !negative ==> plot.y + sat_sub_u16(base_y, height) <= u16::MAX,
        negative ==> plot.y + base_y <= u16::MAX,
    ensures
        r == bar_area_spec(plot, index, bar_width, gap, base_y, height, negative),
{
    let x = plot.x + ((index as u16) * bar_width + gap);
    if !negative {
        Area {
            x,
            y: plot.y + base_y.saturating_sub(height),
            width: bar_width.saturating_sub(gap),
            height: if height < base_y {
                height
            } else {
                base_y
            },
        }
    } else {
        let room = plot.height.saturating_sub(base_y);
        Area {
            x,
            y: plot.y + base_y,
            width: bar_width.saturating_sub(gap),
            height: if height < room {
                height
            } else {
                room
            },
        }
    }
}

/// The width of the filled rows of a bar drawn in `area`: the bar's width, or what is left
/// of the area from the bar's left edge when the bar reaches past it.
pub open spec fn fill_width(bar: Area, area: Area) -> int {
    if bar.x + bar.width <= area.x + area.width {
        bar.width as int
    } else {
        let left = area.width - (bar.x - area.x);
        let left = if left > 0 {
            left
        } else {
            0
        };
        if bar.width < left {
            bar.width as int
        } else {
            left
        }
    }
}

/// The number of rows of a bar that lie above the bottom of `area`.
pub open spec fn visible_rows(bar: Area, area: Area) -> int {
    let room = area.y + area.height - bar.y;
    if room <= 0 {
        0
    } else if bar.height < room {
        bar.height as int
    } else {
        room
    }
}

/// The number of filled rows of a bar drawn in `area`: its visible rows, none when the fill
/// width is zero.
pub open spec fn fill_rows(bar: Area, area: Area) -> int {
    if visible_rows(bar, area) == 0 || fill_width(bar, area) == 0 {
        0
    } else {
        visible_rows(bar, area)
    }
}

/// The rows and width of the filled part of a bar; the width only matters when some row is
/// filled. Nothing is computed for a bar without rows, and no width for a bar that starts below
/// the bottom of the area.
pub fn bar_fill(bar: Area, area: Area) -> (r: (u16, u16))
    requires
        bar.height > 0 ==> area.y + area.height <= u16::MAX,
        bar.height > 0 && bar.y < area.y + area.height ==> {
            &&& bar.x + bar.width <= u16::MAX
            &&& area.x + area.width <= u16::MAX
            &&& bar.x + bar.width > area.x + area.width ==> area.x <= bar.x
        },
    ensures
        r.0 == fill_rows(bar, area),
        r.0 > 0 ==> r.1 == fill_width(bar, area),
{
    if bar.height == 0 {
        return (0, 0);
    }
    let bottom = area.y + area.height;
    if bar.y >= bottom {
        return (0, 0);
    }
    let width = if bar.x + bar.width <= area.x + area.width {
        bar.width
    } else {
        let left = area.width.saturating_sub(bar.x - area.x);
        if bar.width < left {
            bar.width
        } else {
            left
        }
    };
    if width == 0 {
        return (0, 0);
    }
    let room = bottom - bar.y;
    let rows = if bar.height < room {
        bar.height
    } else {
        room
    };
    (rows, width)
}

/// At most the first `n` bytes of `s`.
pub open spec fn take_at_most(s: Seq<u8>, n: nat) -> Seq<u8> {
    if s.len() > n {
        s.take(n as int)
    } else {
        s
    }
}

/// The label of a bar `width` cells wide: the name cut to the width, and, when the name is
/// longer, a second line with what follows, also cut to the width.
pub open spec fn label_split(name: Seq<u8>, width: nat) -> (Seq<u8>, Option<Seq<u8>>) {
    if name.len() > width {
        (name.take(width as int), Some(take_at_most(name.skip(width as int), width)))
    } else {
        (name, None)
    }
}

/// Whether the cuts of a label fall on character boundaries.
pub open spec fn label_cuts_fit(name: Seq<u8>, width: nat) -> bool {
    name.len() > width ==> {
        &&& vstd::utf8::is_char_boundary(name, width as int)
        &&& (name.len() - width > width ==> vstd::utf8::is_char_boundary(
            name.skip(width as int),
            width as int,
        ))
    }
}

/// Decides `label_cuts_fit` for the name `name`.
pub fn label_cuts_on_char_boundaries(name: &str, width: u16) -> (r: bool)
    ensures
        r == label_cuts_fit(name.spec_bytes(), width as nat),
{
    let w = width as usize;
    let len = name.as_bytes().len();
    if len <= w {
        return true;
    }
    if !name.is_char_boundary(w) {
        return false;
    }
    let (_, rest) = name.split_at(w);
    assert(rest.spec_bytes() =~= name.spec_bytes().skip(w as int));
    if len - w > w && !rest.is_char_boundary(w) {
        return false;
    }
    true
}

/// The one or two lines of the label of a bar `width` cells wide named `name`.
pub fn label_lines(name: &str, width: u16) -> (r: (Vec<u8>, Option<Vec<u8>>))
    requires
        label_cuts_fit(name.spec_bytes(), width as nat),
    ensures
        r.0@ == label_split(name.spec_bytes(), width as nat).0,
        match r.1 {
            Some(l) => label_split(name.spec_bytes(), width as nat).1 == Some(l@),
            None => label_split(name.spec_bytes(), width as nat).1 is None,
        },
{
    let bytes = name.as_bytes();
    let w = width as usize;
    if bytes.len() > w {
        let mut first: Vec<u8> = Vec::new();
        crate::text::push_prefix(&mut first, bytes, w);
        let mut second: Vec<u8> = Vec::new();
        let rest_len = bytes.len() - w;
        let n = if rest_len > w {
            w
        } else {
            rest_len
        };
        let mut i: usize = 0;
        while i < n
            invariant
                i <= n,
                n <= rest_len,
                rest_len == bytes@.len() - w,
                w < bytes@.len(),
                bytes@.len() == bytes.len(),
                second@ == bytes@.skip(w as int).take(i as int),
            decreases n - i,
        {
            second.push(bytes[w + i]);
            i = i + 1;
            assert(second@ =~= bytes@.skip(w as int).take(i as int));
        }
        assert(take_at_most(bytes@.skip(w as int), w as nat) =~= bytes@.skip(w as int).take(
            n as int,
        ));
        (first, Some(second))
    } else {
        let mut first: Vec<u8> = Vec::new();
        crate::text::push_prefix(&mut first, bytes, bytes.len());
        assert(bytes@.take(bytes@.len() as int) =~= bytes@);
        (first, None)
    }
}

} // verus!

//! The navigation of the dashboard: its pages, the views they queue and what each key does.
use vstd::prelude::*;

use std::collections::VecDeque;

use super::chart::{metric_label, ChartSpec, MetricType};
use crate::text::push_all;

verus! {

/// A page of the dashboard.
#[derive(Debug)]
pub enum Page<D> {
    First((MetricType, MetricType)),
    Second((MetricType, MetricType)),
    /// A metric of the difference between two captures, with that difference.
    DiffView((MetricType, D)),
}

impl<D: Clone> Clone for Page<D> {
    fn clone(&self) -> (r: Page<D>)
        ensures
            match *self {
                Page::DiffView((m, d)) => r matches Page::DiffView((m2, d2)) && m2 == m && cloned(
                    d,
                    d2,
                ),
                _ => r == *self,
            },
    {
        match self {
            Page::First((m1, m2)) => Page::First((m1.clone(), m2.clone())),
            Page::Second((m1, m2)) => Page::Second((m1.clone(), m2.clone())),
            Page::DiffView((m, d)) => Page::DiffView((m.clone(), d.clone())),
        }
    }
}

/// The text that names a page.
pub open spec fn page_label<D>(p: Page<D>) -> Seq<char> {
    match p {
        Page::First((m1, m2)) => "First page: "@ + metric_label(m1) + ", "@ + metric_label(m2),
        Page::Second((m1, m2)) => "Second page: "@ + metric_label(m1) + ", "@ + metric_label(m2),
        Page::DiffView((m, _)) => "Diff view page: "@ + metric_label(m),
    }
}

impl<D> Page<D> {
    /// The text that names the page.
    pub fn label(&self) -> (r: String)
        ensures
            r@ == page_label(*self),
    {
        let mut r = String::new();
        match self {
            Page::First((m1, m2)) => {
                push_all(&mut r, "First page: ");
                push_all(&mut r, m1.label().as_str());
                push_all(&mut r, ", ");
                push_all(&mut r, m2.label().as_str());
            },
            Page::Second((m1, m2)) => {
                push_all(&mut r, "Second page: ");
                push_all(&mut r, m1.label().as_str());
                push_all(&mut r, ", ");
                push_all(&mut r, m2.label().as_str());
            },
            Page::DiffView((m, _)) => {
                push_all(&mut r, "Diff view page: ");
                push_all(&mut r, m.label().as_str());
            },
        }
        assert(r@ =~= page_label(*self));
        r
    }
}

/// A complete view on the screen: its charts, whether they read the live aggregation, the
/// difference they read, and the vertical layout as a list of height percentages.
#[derive(Debug)]
pub struct ViewSpec<D> {
    pub charts: Vec<ChartSpec<D>>,
    pub live_data: bool,
    pub diff_data: Option<D>,
    pub layout: Vec<u16>,
}

impl<D> ViewSpec<D> {
    /// The view without charts, data or layout.
    pub open spec fn is_blank(&self) -> bool {
        &&& self.charts@.len() == 0
        &&& !self.live_data
        &&& self.diff_data is None
        &&& self.layout@.len() == 0
    }

    /// A view of `charts`; when `live_data` holds, the charts read the live aggregation.
    pub fn new(charts: Vec<ChartSpec<D>>, live_data: bool, diff_data: Option<D>, layout: Vec<u16>) -> (r:
        ViewSpec<D>)
        ensures
            r.charts == charts,
            r.live_data == live_data,
            r.diff_data == diff_data,
            r.layout == layout,
    {
        ViewSpec { charts, live_data, diff_data, layout }
    }
}

impl<D> Default for ViewSpec<D> {
    fn default() -> (r: ViewSpec<D>)
        ensures
            r.is_blank(),
    {
        ViewSpec { charts: Vec::new(), live_data: false, diff_data: None, layout: Vec::new() }
    }
}

/// A key pressed on the dashboard.
#[derive(PartialEq, Eq, Structural, Clone, Copy, Debug)]
pub enum Key {
    Char(char),
    Left,
    Right,
    Other,
}

/// The work a key press leaves to the application, beyond the change of pages.
#[derive(PartialEq, Eq, Debug)]
pub enum KeyAction {
    Nothing,
    /// Clear the live aggregation.
    ResetData,
    /// Write the live aggregation to the file `file_name` (in the temporary directory), then
    /// clear it.
    CaptureAndReset { file_name: String },
    /// Write the live aggregation to `current` (in the temporary directory), compare it with
    /// the capture in `previous`, and show the difference with [`App::show_diff`].
    CaptureAndCompare { previous: String, current: String },
}

/// The metrics in the order in which the difference pages go through them.
pub open spec fn default_metrics() -> Seq<MetricType> {
    seq![
        MetricType::TotalExecTime,
        MetricType::TotalMemoryUsage,
        MetricType::TotalExecCount,
        MetricType::TimeAverage,
    ]
}

/// `p` is the first position of `m` in `s`.
pub open spec fn is_first_position(s: Seq<MetricType>, m: MetricType, p: int) -> bool {
    &&& 0 <= p < s.len()
    &&& s[p] == m
    &&& forall|j: int| 0 <= j < p ==> s[j] != m
}

/// The pages around the current one after a move by `offset`: back when it is negative and
/// there is a previous page, forward when it is positive and there is a next page; `subsequent`
/// becomes the page beyond the new current one. Otherwise nothing moves.
pub open spec fn moved<D>(
    prev: Option<Page<D>>,
    current: Page<D>,
    next: Option<Page<D>>,
    offset: int,
    subsequent: Option<Page<D>>,
) -> (Option<Page<D>>, Page<D>, Option<Page<D>>) {
    if (offset < 0 && prev is None) || (offset > 0 && next is None) || offset == 0 {
        (prev, current, next)
    } else if offset < 0 {
        (subsequent, prev->Some_0, Some(current))
    } else {
        (Some(current), next->Some_0, subsequent)
    }
}

/// The dashboard's navigation state.
pub struct App<D> {
    pub current_view: ViewSpec<D>,
    pub prev_page: Option<Page<D>>,
    pub current_page: Page<D>,
    pub next_page: Option<Page<D>>,
    pub metrics_order: Vec<MetricType>,
    pub exit: bool,
    pub rendering_queue: VecDeque<ViewSpec<D>>,
}

/// A copy of a layout.
fn copy_layout(layout: &Vec<u16>) -> (r: Vec<u16>)
    ensures
        r@ == layout@,
{
    let mut r: Vec<u16> = Vec::new();
    let mut i: usize = 0;
    while i < layout.len()
        invariant
            i <= layout@.len(),
            r@ == layout@.take(i as int),
        decreases layout@.len() - i,
    {
        r.push(layout[i]);
        i = i + 1;
        assert(r@ =~= layout@.take(i as int));
    }
    assert(layout@.take(i as int) =~= layout@);
    r
}

impl<D> App<D> {
    /// The pages around the current one.
    pub open spec fn pages(&self) -> (Option<Page<D>>, Page<D>, Option<Page<D>>) {
        (self.prev_page, self.current_page, self.next_page)
    }

    /// The dashboard: the first queued view becomes the current one; it opens on the first
    /// page (total execution time and total memory usage) with the second page (execution
    /// count and average time) next.
    pub fn new(rendering_queue: VecDeque<ViewSpec<D>>) -> (r: App<D>)
        ensures
            rendering_queue@.len() > 0 ==> r.current_view == rendering_queue@[0]
                && r.rendering_queue@ == rendering_queue@.drop_first(),
            rendering_queue@.len() == 0 ==> r.current_view.is_blank() && r.rendering_queue@.len()
                == 0,
            r.current_page == Page::<D>::First((MetricType::TotalExecTime, MetricType::TotalMemoryUsage)),
            r.next_page == Some(Page::<D>::Second((MetricType::TotalExecCount, MetricType::TimeAverage))),
            r.prev_page is None,
            r.metrics_order@ == default_metrics(),
            !r.exit,
    {
        let mut rendering_queue = rendering_queue;
        let current_view = match rendering_queue.pop_front() {
            Some(v) => v,
            None => ViewSpec::default(),
        };
        let mut metrics_order: Vec<MetricType> = Vec::new();
        metrics_order.push(MetricType::TotalExecTime);
        metrics_order.push(MetricType::TotalMemoryUsage);
        metrics_order.push(MetricType::TotalExecCount);
        metrics_order.push(MetricType::TimeAverage);
        assert(metrics_order@ =~= default_metrics());
        App {
            current_page: Page::First((MetricType::TotalExecTime, MetricType::TotalMemoryUsage)),
            next_page: Some(Page::Second((MetricType::TotalExecCount, MetricType::TimeAverage))),
            metrics_order,
            prev_page: None,
            current_view,
            exit: false,
            rendering_queue,
        }
    }

    /// Moves by `offset` pages (see [`moved`]), making `subsequent` the page beyond.
    pub fn change_page(&mut self, offset: i16, subsequent: Option<Page<D>>)
        ensures
            final(self).pages() == moved(
                old(self).prev_page,
                old(self).current_page,
                old(self).next_page,
                offset as int,
                subsequent,
            ),
            final(self).current_view == old(self).current_view,
            final(self).metrics_order == old(self).metrics_order,
            final(self).exit == old(self).exit,
            final(self).rendering_queue == old(self).rendering_queue,
    {
        // Early return if trying to go beyond boundaries
        if (offset < 0 && self.prev_page.is_none()) || (offset > 0 && self.next_page.is_none()
            || offset == 0) {
            return ;
        }
        if offset < 0 {
            let mut here = self.prev_page.take().unwrap();
            std::mem::swap(&mut self.current_page, &mut here);
            self.next_page = Some(here);
            self.prev_page = subsequent;
        } else {
            let mut here = self.next_page.take().unwrap();
            std::mem::swap(&mut self.current_page, &mut here);
            self.prev_page = Some(here);
            self.next_page = subsequent;
        }
    }

    /// Ends the dashboard.
    pub fn exit(&mut self)
        ensures
            final(self).exit,
            final(self).pages() == old(self).pages(),
            final(self).current_view == old(self).current_view,
            final(self).metrics_order == old(self).metrics_order,
            final(self).rendering_queue == old(self).rendering_queue,
    {
        self.exit = true;
    }
}


/// `r` is the difference page `offset` positions away (in `metrics`) from the metric of
/// `current`, holding a clone of its difference: none when `current` is no difference page,
/// when its metric is not in `metrics`, or when the position falls outside.
pub open spec fn is_subsequent_page<D: Clone>(
    metrics: Seq<MetricType>,
    current: Page<D>,
    offset: int,
    r: Option<Page<D>>,
) -> bool {
    match current {
        Page::DiffView((cm, data)) => {
            if exists|p: int| is_first_position(metrics, cm, p) {
                let p = choose|p: int| is_first_position(metrics, cm, p);
                let t = p + offset;
                if 0 <= t < metrics.len() {
                    r matches Some(Page::DiffView((m, d))) && m == metrics[t] && cloned(data, d)
                } else {
                    r is None
                }
            } else {
                r is None
            }
        },
        _ => r is None,
    }
}

/// `v` is the view that shows `page`, given the current view `current`: the two metrics of a
/// first or second page on the live data with the current layout; the difference chart of a
/// difference page, on its own over the full height.
pub open spec fn is_view_of<D: Clone>(current: ViewSpec<D>, page: Page<D>, v: ViewSpec<D>) -> bool {
    match page {
        Page::DiffView((m, d)) => {
            &&& v.charts@.len() == 1
            &&& v.charts@[0].metric_type == MetricType::DiffView(Box::new(m))
            &&& v.charts@[0].diff_data matches Some(x) && cloned(d, x)
            &&& !v.live_data
            &&& v.diff_data matches Some(y) && cloned(d, y)
            &&& v.layout@ == seq![100u16]
        },
        Page::First((m1, m2)) | Page::Second((m1, m2)) => {
            &&& v.charts@.len() == 2
            &&& v.charts@[0].metric_type == m1 && v.charts@[0].diff_data is None
            &&& v.charts@[1].metric_type == m2 && v.charts@[1].diff_data is None
            &&& v.live_data == current.live_data
            &&& v.diff_data is None
            &&& v.layout@ == current.layout@
        },
    }
}

/// The first page that shows a difference: its total execution time, with its total memory
/// usage next and nothing before.
pub open spec fn shows_diff<D: Clone>(
    pages: (Option<Page<D>>, Page<D>, Option<Page<D>>),
    diff: D,
) -> bool {
    &&& pages.0 is None
    &&& pages.1 matches Page::DiffView((m, d)) && m == MetricType::TotalExecTime && cloned(diff, d)
    &&& pages.2 == Some(Page::DiffView((MetricType::TotalMemoryUsage, diff)))
}

impl<D: Clone> App<D> {
    /// The difference page `offset` positions away from the current one in the order of
    /// metrics; `None` when the current page shows no difference or the position falls outside.
    pub fn get_diff_subsequent_page(&self, offset: i16) -> (r: Option<Page<D>>)
        ensures
            is_subsequent_page(self.metrics_order@, self.current_page, offset as int, r),
    {
        match &self.current_page {
            Page::DiffView((current_metric, data)) => {
                let metrics = &self.metrics_order;
                let mut pos: usize = 0;
                while pos < metrics.len()
                    invariant
                        pos <= metrics@.len(),
                        forall|j: int| 0 <= j < pos ==> metrics@[j] != *current_metric,
                    ensures
                        pos <= metrics@.len(),
                        forall|j: int| 0 <= j < pos ==> metrics@[j] != *current_metric,
                        pos < metrics@.len() ==> metrics@[pos as int] == *current_metric,
                    decreases metrics@.len() - pos,
                {
                    if metrics[pos].same_as(current_metric) {
                        break;
                    }
                    pos = pos + 1;
                }
                if pos == metrics.len() {
                    assert(!exists|p: int| is_first_position(metrics@, *current_metric, p));
                    return None;
                }
                proof {
                    assert(is_first_position(metrics@, *current_metric, pos as int));
                    let c = choose|p: int| is_first_position(metrics@, *current_metric, p);
                    assert(c == pos as int);
                }
                let target: Option<usize> = if offset < 0 {
                    let back = (0i32 - offset as i32) as usize;
                    if back <= pos {
                        Some(pos - back)
                    } else {
                        None
                    }
                } else {
                    let ahead = offset as usize;
                    if ahead < metrics.len() - pos {
                        Some(pos + ahead)
                    } else {
                        None
                    }
                };
                match target {
                    Some(t) => {
                        if t < metrics.len() {
                            Some(Page::DiffView((metrics[t].clone(), data.clone())))
                        } else {
                            None
                        }
                    },
                    None => None,
                }
            },
            _ => None,
        }
    }

    /// Queues the view of the current page.
    pub fn handle_pages(&mut self)
        ensures
            final(self).rendering_queue@.len() == old(self).rendering_queue@.len() + 1,
            final(self).rendering_queue@.drop_last() == old(self).rendering_queue@,
            is_view_of(
                old(self).current_view,
                old(self).current_page,
                final(self).rendering_queue@.last(),
            ),
            final(self).pages() == old(self).pages(),
            final(self).current_view == old(self).current_view,
            final(self).metrics_order == old(self).metrics_order,
            final(self).exit == old(self).exit,
    {
        let view = match &self.current_page {
            Page::First((metric1, metric2)) | Page::Second((metric1, metric2)) => {
                let mut charts: Vec<ChartSpec<D>> = Vec::new();
                charts.push(ChartSpec::new(metric1.clone()));
                charts.push(ChartSpec::new(metric2.clone()));
                ViewSpec::new(
                    charts,
                    self.current_view.live_data,
                    None,
                    copy_layout(&self.current_view.layout),
                )
            },
            Page::DiffView((metric, diff_data)) => {
                let mut chart = ChartSpec::new(MetricType::DiffView(Box::new(metric.clone())));
                chart.diff_data = Some(diff_data.clone());
                let mut charts: Vec<ChartSpec<D>> = Vec::new();
                charts.push(chart);
                let mut layout: Vec<u16> = Vec::new();
                layout.push(100);
                ViewSpec::new(charts, false, Some(diff_data.clone()), layout)
            },
        };
        let ghost q = self.rendering_queue@;
        self.rendering_queue.push_back(view);
        assert(self.rendering_queue@.drop_last() =~= q);
    }

    /// Handles a key: `q` exits; left or `h` goes back, right or `l` goes forward (the page
    /// beyond being the difference page two metrics further that way); `r` resets the data;
    /// `c` captures the data to `capture1.json` and resets it; `s` captures it to
    /// `capture2.json` and compares it with `capture1.json`. Other keys do nothing.
    pub fn handle_key_event(&mut self, key: Key) -> (a: KeyAction)
        ensures
            final(self).current_view == old(self).current_view,
            final(self).metrics_order == old(self).metrics_order,
            final(self).rendering_queue == old(self).rendering_queue,
            final(self).exit == (old(self).exit || key == Key::Char('q')),
            if key == Key::Left || key == Key::Char('h') {
                &&& a == KeyAction::Nothing
                &&& exists|sub: Option<Page<D>>|
                    #[trigger] is_subsequent_page(old(self).metrics_order@, old(self).current_page, -2, sub)
                        && final(self).pages() == moved(
                        old(self).prev_page,
                        old(self).current_page,
                        old(self).next_page,
                        -1,
                        sub,
                    )
            } else if key == Key::Right || key == Key::Char('l') {
                &&& a == KeyAction::Nothing
                &&& exists|sub: Option<Page<D>>|
                    #[trigger] is_subsequent_page(old(self).metrics_order@, old(self).current_page, 2, sub)
                        && final(self).pages() == moved(
                        old(self).prev_page,
                        old(self).current_page,
                        old(self).next_page,
                        1,
                        sub,
                    )
            } else {
                &&& final(self).pages() == old(self).pages()
                &&& if key == Key::Char('r') {
                    a == KeyAction::ResetData
                } else if key == Key::Char('c') {
                    a matches KeyAction::CaptureAndReset { file_name } && file_name@
                        == "capture1.json"@
                } else if key == Key::Char('s') {
                    a matches KeyAction::CaptureAndCompare { previous, current } && previous@
                        == "capture1.json"@ && current@ == "capture2.json"@
                } else {
                    a == KeyAction::Nothing
                }
            },
    {
        match key {
            Key::Char('q') => {
                self.exit();
                KeyAction::Nothing
            },
            Key::Left | Key::Char('h') => {
                let subsequent_page = self.get_diff_subsequent_page(-2);
                self.change_page(-1, subsequent_page);
                KeyAction::Nothing
            },
            Key::Right | Key::Char('l') => {
                let subsequent_page = self.get_diff_subsequent_page(2);
                self.change_page(1, subsequent_page);
                KeyAction::Nothing
            },
            Key::Char('r') => KeyAction::ResetData,
            Key::Char('c') => {
                let mut file_name = String::new();
                push_all(&mut file_name, "capture1.json");
                KeyAction::CaptureAndReset { file_name }
            },
            Key::Char('s') => {
                let mut previous = String::new();
                push_all(&mut previous, "capture1.json");
                let mut current = String::new();
                push_all(&mut current, "capture2.json");
                KeyAction::CaptureAndCompare { previous, current }
            },
            _ => KeyAction::Nothing,
        }
    }

    /// Shows a difference: its total execution time page first, its total memory usage next.
    pub fn show_diff(&mut self, diff: D)
        ensures
            shows_diff(final(self).pages(), diff),
            final(self).current_view == old(self).current_view,
            final(self).metrics_order == old(self).metrics_order,
            final(self).exit == old(self).exit,
            final(self).rendering_queue == old(self).rendering_queue,
    {
        self.current_page = Page::DiffView((MetricType::TotalExecTime, diff.clone()));
        self.next_page = Some(Page::DiffView((MetricType::TotalMemoryUsage, diff)));
        self.prev_page = None;
    }
}


/// Going forward and then back returns to the page one started from, with the same next page;
/// the page before it becomes the one given on the way back.
pub proof fn lemma_forward_then_back<D>(
    prev: Option<Page<D>>,
    current: Page<D>,
    next: Option<Page<D>>,
    beyond: Option<Page<D>>,
    before: Option<Page<D>>,
)
    requires
        next is Some,
    ensures
        ({
            let there = moved(prev, current, next, 1, beyond);
            moved(there.0, there.1, there.2, -1, before) == (before, current, next)
        }),
{
}

/// Going back and then forward returns to the page one started from, with the same previous
/// page; the page after it becomes the one given on the way forward.
pub proof fn lemma_back_then_forward<D>(
    prev: Option<Page<D>>,
    current: Page<D>,
    next: Option<Page<D>>,
    before: Option<Page<D>>,
    beyond: Option<Page<D>>,
)
    requires
        prev is Some,
    ensures
        ({
            let there = moved(prev, current, next, -1, before);
            moved(there.0, there.1, there.2, 1, beyond) == (prev, current, beyond)
        }),
{
}

/// Nothing moves past the first or the last page, nor by an offset of zero.
pub proof fn lemma_no_move_at_bounds<D>(
    prev: Option<Page<D>>,
    current: Page<D>,
    next: Option<Page<D>>,
    offset: int,
    subsequent: Option<Page<D>>,
)
    requires
        offset == 0 || (offset < 0 && prev is None) || (offset > 0 && next is None),
    ensures
        moved(prev, current, next, offset, subsequent) == (prev, current, next),
{
}

} // verus!

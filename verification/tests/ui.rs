use std::collections::VecDeque;

use skope::analytics::requests::ExecAggDiff;
use skope::ui::app::{App, Key, KeyAction, Page, ViewSpec};
use skope::ui::chart::{
    bar_area, bar_fill, bar_width, chart_base_y, label_cuts_on_char_boundaries, label_lines, Area, MetricType,
};

type Diff = ExecAggDiff<u32>;

fn new_app() -> App<Diff> {
    App::new(VecDeque::default())
}

#[test]
fn test_get_diff_subsequent_page() {
    let mut app = new_app();
    let test_diff = ExecAggDiff::default();

    // Test each metric position
    for (idx, metric) in app.metrics_order.clone().iter().enumerate() {
        // Set up the current page with this metric
        app.current_page = Page::DiffView((metric.clone(), test_diff.clone()));

        // Test moving forward
        let forward_result = app.get_diff_subsequent_page(2);
        let expected_forward = if idx + 2 < app.metrics_order.len() {
            app.metrics_order
                .get(idx + 2)
                .map(|m| Page::DiffView((m.clone(), test_diff.clone())))
        } else {
            None
        };

        match (forward_result, expected_forward) {
            (Some(Page::DiffView((actual_m, _))), Some(Page::DiffView((expected_m, _)))) => {
                assert_eq!(
                    actual_m, expected_m,
                    "Forward navigation failed for metric at idx {}",
                    idx
                );
            }
            (None, None) => {
                // Both are None, this is expected at the end of the list
            }
            _ => {
                panic!("Unexpected result for forward navigation from idx {}", idx);
            }
        }

        // Test moving backward
        let backward_result = app.get_diff_subsequent_page(-2);
        let expected_backward = if idx > 1 {
            app.metrics_order
                .get(idx - 2)
                .map(|m| Page::DiffView((m.clone(), test_diff.clone())))
        } else {
            None
        };

        match (backward_result, expected_backward) {
            (Some(Page::DiffView((actual_m, _))), Some(Page::DiffView((expected_m, _)))) => {
                assert_eq!(
                    actual_m, expected_m,
                    "Backward navigation failed for metric at idx {}",
                    idx
                );
            }
            (None, None) => {
                // Both are None, this is expected at the start of the list
            }
            _ => {
                panic!("Unexpected result for backward navigation from idx {}", idx);
            }
        }
    }
}

#[test]
// Ensure that the page is rendered according to the last queued page.
fn test_handle_pages() {
    let mut app = new_app();

    let pages = vec![
        Page::First((MetricType::TotalExecCount, MetricType::TotalMemoryUsage)),
        Page::Second((MetricType::TotalExecCount, MetricType::TimeAverage)),
        Page::DiffView((MetricType::TotalExecCount, ExecAggDiff::default())),
    ];

    for v in 0..3 {
        let current_page = pages[v].clone();
        app.current_page = current_page.clone();

        // Should schedule the first page view
        app.handle_pages();

        let charts = match current_page {
            Page::First((m1, m2)) | Page::Second((m1, m2)) => vec![m1, m2],
            Page::DiffView((m1, _)) => vec![MetricType::DiffView(Box::new(m1))],
        };

        for (i, chart) in app.rendering_queue.pop_front().unwrap().charts.iter().enumerate() {
            assert_eq!(chart.metric_type, charts[i]);
        }
    }
}

#[test]
fn test_exit() {
    let mut app = new_app();
    app.handle_key_event(Key::Char('q'));

    assert!(app.exit);
}

#[test]
fn app_starts_on_the_first_page_with_the_queued_view() {
    let mut queue = VecDeque::new();
    queue.push_back(ViewSpec::<Diff>::new(vec![], true, None, vec![50, 50]));
    let app = App::new(queue);
    assert!(app.current_view.live_data);
    assert_eq!(app.current_view.layout, vec![50, 50]);
    assert!(app.rendering_queue.is_empty());
    assert!(matches!(app.current_page, Page::First((MetricType::TotalExecTime, MetricType::TotalMemoryUsage))));
    assert!(matches!(app.next_page, Some(Page::Second((MetricType::TotalExecCount, MetricType::TimeAverage)))));
    assert!(app.prev_page.is_none());
    assert!(!app.exit);
}

#[test]
fn paging_forward_and_back() {
    let mut app = new_app();
    // Nothing before the first page.
    app.handle_key_event(Key::Left);
    assert!(matches!(app.current_page, Page::First(_)));
    app.handle_key_event(Key::Char('l'));
    assert!(matches!(app.current_page, Page::Second(_)));
    assert!(matches!(app.prev_page, Some(Page::First(_))));
    assert!(app.next_page.is_none());
    // Nothing after the last page.
    app.handle_key_event(Key::Right);
    assert!(matches!(app.current_page, Page::Second(_)));
    app.handle_key_event(Key::Char('h'));
    assert!(matches!(app.current_page, Page::First(_)));
    assert!(matches!(app.next_page, Some(Page::Second(_))));
    assert!(app.prev_page.is_none());
    app.change_page(0, None);
    assert!(matches!(app.current_page, Page::First(_)));
}

#[test]
fn difference_pages_walk_the_metrics_by_two() {
    let mut app = new_app();
    app.show_diff(ExecAggDiff::default());
    assert!(matches!(app.current_page, Page::DiffView((MetricType::TotalExecTime, _))));
    assert!(matches!(app.next_page, Some(Page::DiffView((MetricType::TotalMemoryUsage, _)))));
    assert!(app.prev_page.is_none());
    app.handle_key_event(Key::Right);
    assert!(matches!(app.current_page, Page::DiffView((MetricType::TotalMemoryUsage, _))));
    assert!(matches!(app.prev_page, Some(Page::DiffView((MetricType::TotalExecTime, _)))));
    // The page beyond is two metrics beyond the page moved from (TotalExecTime).
    assert!(matches!(app.next_page, Some(Page::DiffView((MetricType::TotalExecCount, _)))));
    app.handle_key_event(Key::Left);
    assert!(matches!(app.current_page, Page::DiffView((MetricType::TotalExecTime, _))));
    assert!(matches!(app.next_page, Some(Page::DiffView((MetricType::TotalMemoryUsage, _)))));
    assert!(app.prev_page.is_none());
}

#[test]
fn keys_leave_work_to_the_application() {
    let mut app = new_app();
    assert_eq!(app.handle_key_event(Key::Char('r')), KeyAction::ResetData);
    assert_eq!(
        app.handle_key_event(Key::Char('c')),
        KeyAction::CaptureAndReset { file_name: "capture1.json".to_string() }
    );
    assert_eq!(
        app.handle_key_event(Key::Char('s')),
        KeyAction::CaptureAndCompare { previous: "capture1.json".to_string(), current: "capture2.json".to_string() }
    );
    assert_eq!(app.handle_key_event(Key::Char('x')), KeyAction::Nothing);
    assert_eq!(app.handle_key_event(Key::Other), KeyAction::Nothing);
    assert!(!app.exit);
}

#[test]
fn difference_view_is_full_height() {
    let mut app = new_app();
    app.show_diff(ExecAggDiff::default());
    app.handle_pages();
    let view = app.rendering_queue.pop_front().unwrap();
    assert_eq!(view.layout, vec![100]);
    assert!(!view.live_data);
    assert!(view.diff_data.is_some());
    assert!(view.charts[0].diff_data.is_some());
}

#[test]
fn labels() {
    assert_eq!(MetricType::TotalExecTime.label(), "Total Execution Time (ms)");
    assert_eq!(MetricType::TotalMemoryUsage.label(), "Total Memory Usage (mb)");
    assert_eq!(MetricType::TotalExecCount.label(), "Total executions");
    assert_eq!(MetricType::TimeAverage.label(), "Average Time Per Execution (ms)");
    assert_eq!(
        MetricType::DiffView(Box::new(MetricType::TimeAverage)).label(),
        "Captures difference - Average Time Per Execution (ms)"
    );
    let first: Page<Diff> = Page::First((MetricType::TotalExecTime, MetricType::TotalExecCount));
    assert_eq!(first.label(), "First page: Total Execution Time (ms), Total executions");
    let diff: Page<Diff> = Page::DiffView((MetricType::TotalExecCount, ExecAggDiff::default()));
    assert_eq!(diff.label(), "Diff view page: Total executions");
    assert_eq!(MetricType::default(), MetricType::TotalExecTime);
}

#[test]
fn bar_geometry() {
    assert_eq!(chart_base_y(20, false), 17);
    assert_eq!(chart_base_y(20, true), 8);
    assert_eq!(chart_base_y(2, false), 0);
    assert_eq!(bar_width(100, 3), 33);
    let plot = Area { x: 1, y: 2, width: 100, height: 20 };
    let up = bar_area(plot, 1, 33, 2, 17, 5, false);
    assert_eq!(up, Area { x: 36, y: 14, width: 31, height: 5 });
    let tall = bar_area(plot, 0, 33, 2, 17, 40, false);
    assert_eq!(tall, Area { x: 3, y: 2, width: 31, height: 17 });
    let down = bar_area(plot, 2, 33, 2, 8, 30, true);
    assert_eq!(down, Area { x: 69, y: 10, width: 31, height: 12 });
    let area = Area { x: 0, y: 0, width: 50, height: 12 };
    assert_eq!(bar_fill(Area { x: 10, y: 5, width: 8, height: 10 }, area), (7, 8));
    assert_eq!(bar_fill(Area { x: 45, y: 0, width: 8, height: 3 }, area), (3, 5));
    assert_eq!(bar_fill(Area { x: 10, y: 0, width: 0, height: 3 }, area), (0, 0));
}

#[test]
fn bar_labels() {
    assert_eq!(label_lines("app", 5), (b"app".to_vec(), None));
    assert_eq!(label_lines("application", 5), (b"appli".to_vec(), Some(b"catio".to_vec())));
    assert_eq!(label_lines("abcdefg", 5), (b"abcde".to_vec(), Some(b"fg".to_vec())));
    assert!(label_cuts_on_char_boundaries("application", 5));
    assert!(label_cuts_on_char_boundaries("ééé", 2));
    assert!(!label_cuts_on_char_boundaries("ééé", 3));
    assert!(!label_cuts_on_char_boundaries("aéééé", 2));
}

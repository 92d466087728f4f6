use skope::analytics::reports::{default_agg_report_path, default_apps_report_path, resolve_report_path, RunnerWriter, ServerWriter};
use skope::analytics::requests::{
    ensure_extension, pretty_table, table_cuts_on_char_boundaries, to_safe_name, AggData, ExecAgg, ExecData,
};

#[derive(Clone, Debug, Default, PartialEq)]
struct Agg {
    total_exec_time: f32,
    total_memory_usage: f32,
}

fn difference(a: &Agg, b: &Agg) -> Agg {
    Agg {
        total_exec_time: b.total_exec_time - a.total_exec_time,
        total_memory_usage: b.total_memory_usage - a.total_memory_usage,
    }
}

fn generate_diff_data() -> (ExecAgg<Agg>, ExecAgg<Agg>) {
    let mut data1 = ExecAgg::default();
    let mut data2 = ExecAgg::default();

    let mut agg1 = Agg::default();
    let mut agg2 = Agg::default();

    agg1.total_exec_time = 100.0;
    agg2.total_exec_time = 200.0;

    agg1.total_memory_usage = 200.0;
    agg2.total_memory_usage = 100.0;

    data1.insert("test_1".to_string(), agg1.clone());
    data2.insert("test_1".to_string(), agg2.clone());

    // An exclusive data is inserted
    data1.insert("exclusive_data".to_string(), agg2);
    // An missed data is inserted to "other"
    data2.insert("missed_data".to_string(), agg1);

    (data1, data2)
}

#[test]
fn test_ensure_extension() {
    let filename = "somefile";
    let with_extension = ensure_extension(filename, "json");

    assert_eq!(format!("{filename}.json"), with_extension);
}

#[test]
fn test_compare() {
    let (data1, data2) = generate_diff_data();

    let diff = data1.compare(&data2, difference);

    let app_data = diff.exec_agg.get(&"test_1".to_string()).unwrap();

    assert_eq!(app_data.total_exec_time, 100.0);
    assert_eq!(app_data.total_memory_usage, -100.0);

    assert!(diff.exclusive.contains(&"exclusive_data".to_string()));
    assert!(diff.missed.contains(&"missed_data".to_string()));
}

#[test]
fn test_exec_data_compare() {
    let expected_time = chrono::DateTime::parse_from_str("2025-05-01 11:00 +0000", "%Y-%m-%d %H:%M %z")
        .unwrap()
        .timestamp();
    let later = chrono::DateTime::parse_from_str("2025-05-02 9:00 +0000", "%Y-%m-%d %H:%M %z")
        .unwrap()
        .timestamp();

    let data1 = ExecData::new("".to_string(), None, expected_time);
    let data2 = ExecData::new("".to_string(), None, later);

    let diff = data1.compare(&data2);

    assert_eq!(diff.timestamp, expected_time);
}

#[test]
fn ensure_extension_keeps_an_existing_extension() {
    assert_eq!(ensure_extension("report.json", "json"), "report.json");
    assert_eq!(ensure_extension("myjson", "json"), "myjson.json");
    assert_eq!(ensure_extension("datajson", "json"), "datajson.json");
    assert_eq!(ensure_extension("a.json.json", "json"), "a.json.json");
    assert_eq!(ensure_extension("", "json"), ".json");
    let once = ensure_extension("a", "txt");
    assert_eq!(ensure_extension(&once, "txt"), once);
}

#[test]
fn to_safe_name_replaces_each_unsafe_character() {
    assert_eq!(to_safe_name("a/b?c\\d:e*f\"g<h>i|j k"), "a-bxc_d_e_f_g_h_i_j_k");
    assert_eq!(to_safe_name("plain_name-1"), "plain_name-1");
    assert_eq!(to_safe_name(""), "");
    let once = to_safe_name("/api/v1?q=1");
    assert_eq!(once, "-api-v1xq=1");
    assert_eq!(to_safe_name(&once), once);
    assert_eq!(to_safe_name("ñ/é"), "ñ-é");
}

#[test]
fn tag_paths() {
    assert_eq!(ExecData::get_tag_path("test1"), ".skope/test1.json");
    assert_eq!(ExecData::get_tag_path("test1.json"), ".skope/test1.json");
    assert_eq!(ExecData::get_tag_path("dir/test1"), "dir/test1.json");
    assert_eq!(ExecData::get_tag_path("/tmp/x.json"), "/tmp/x.json");
}

#[test]
fn exec_data_names_and_paths() {
    let base = ExecData::new("test1".to_string(), Some("m".to_string()), 7);
    let head = ExecData::new("test2".to_string(), None, 9);
    let diff = base.compare(&head);
    assert_eq!(diff.name, "test1-test2");
    assert_eq!(diff.module, Some("m".to_string()));
    assert_eq!(diff.timestamp, 7);
    let same = base.compare(&base);
    assert_eq!(same.name, "test1");
    assert_eq!(base.default_path(), ".skope/test1.json");
}

#[test]
fn exec_agg_store() {
    let mut agg: ExecAgg<u32> = ExecAgg::new();
    assert!(agg.is_empty());
    agg.insert("a".to_string(), 1);
    agg.insert("b".to_string(), 2);
    agg.insert("a".to_string(), 3);
    assert_eq!(agg.len(), 2);
    assert_eq!(agg.get(&"a".to_string()), Some(&3));
    assert_eq!(agg.get(&"c".to_string()), None);
    assert!(agg.contains_key(&"b".to_string()));
    assert_eq!(agg.names(), vec!["a".to_string(), "b".to_string()]);
    assert_eq!(agg.entry(1), (&"b".to_string(), &2));
    assert_eq!(agg.default_path(), ".skope/report_agg.json");
    agg.clear();
    assert_eq!(agg.len(), 0);
}

#[test]
fn compare_with_itself_has_no_exclusive_or_missed() {
    let (data1, _) = generate_diff_data();
    let diff = data1.compare(&data1, difference);
    assert!(diff.exclusive.is_empty());
    assert!(diff.missed.is_empty());
    assert_eq!(diff.exec_agg.names(), data1.names());
    assert_eq!(diff.exec_agg.get(&"test_1".to_string()).unwrap().total_exec_time, 0.0);
}

#[test]
fn compare_swapped_swaps_exclusive_and_missed() {
    let (data1, data2) = generate_diff_data();
    let ab = data1.compare(&data2, difference);
    let ba = data2.compare(&data1, difference);
    assert_eq!(ab.exclusive, vec!["exclusive_data".to_string()]);
    assert_eq!(ab.missed, vec!["missed_data".to_string()]);
    assert_eq!(ab.exclusive, ba.missed);
    assert_eq!(ab.missed, ba.exclusive);
    assert_eq!(ab.exec_agg.names(), ba.exec_agg.names());
}

#[test]
fn record_execution_accumulates_under_a_safe_name() {
    let mut agg: ExecAgg<f32> = ExecAgg::new();
    let add = |prev: Option<&f32>| prev.cloned().unwrap_or_default() + 10.0;
    agg.record_execution("test_name", add);
    assert_eq!(agg.get(&"test_name".to_string()), Some(&10.0));
    agg.record_execution("test_name", add);
    assert_eq!(agg.get(&"test_name".to_string()), Some(&20.0));
}

#[test]
fn record_execution_accumulates_under_the_safe_name() {
    let mut agg: ExecAgg<f32> = ExecAgg::new();
    let add = |prev: Option<&f32>| prev.cloned().unwrap_or_default() + 10.0;
    agg.record_execution("a b", add);
    agg.record_execution("a b", add);
    agg.record_execution("a_b", add);
    assert_eq!(agg.get(&"a_b".to_string()), Some(&30.0));
    assert_eq!(agg.get(&"a b".to_string()), None);
    assert_eq!(agg.len(), 1);
}

#[test]
fn exec_agg_clone_keeps_names_and_values() {
    let (data1, _) = generate_diff_data();
    let copy = data1.clone();
    assert_eq!(copy.names(), data1.names());
    assert_eq!(copy.get(&"test_1".to_string()), data1.get(&"test_1".to_string()));
}

#[test]
fn pretty_table_layout() {
    let fields = vec![
        ("Name".to_string(), "test1".to_string()),
        ("Exec Time (Sec)".to_string(), "0.50".to_string()),
    ];
    assert!(table_cuts_on_char_boundaries(&fields, 30));
    let lines = pretty_table(&fields, 30);
    let lines: Vec<String> = lines.into_iter().map(|l| String::from_utf8(l).unwrap()).collect();
    assert_eq!(lines[0], "=".repeat(30));
    // max name 15; "Name" padding 11; room = 30 - 15 - 11 - 4 = 0; value cut to "...".
    assert_eq!(lines[1], "Name            | ...");
    // room = 30 - 15 - 0 - 4 = 11
    assert_eq!(lines[2], "Exec Time (Sec) | 0.50       ");
    assert_eq!(lines[3], "=".repeat(30));
    assert_eq!(lines.len(), 4);
}

#[test]
fn pretty_table_refuses_a_cut_inside_a_character() {
    let fields = vec![("N".to_string(), "ééééé".to_string())];
    // room = 8 - 1 - 0 - 4 = 3; the value is 10 bytes long, cut at 0: a boundary.
    assert!(table_cuts_on_char_boundaries(&fields, 8));
    // room = 9 - 1 - 4 = 4; cut at 1, inside the first character.
    assert!(!table_cuts_on_char_boundaries(&fields, 9));
}

#[test]
fn report_paths() {
    assert_eq!(default_agg_report_path(), ".skope/report_agg.json");
    assert_eq!(default_apps_report_path(), ".skope/report_apps.json");
    assert_eq!(resolve_report_path(None, ".skope/x.json"), ".skope/x.json");
    assert_eq!(resolve_report_path(Some("out.json"), ".skope/x.json"), "out.json");
    assert_eq!(ServerWriter::new().report_target(), None);
    assert_eq!(RunnerWriter::new("test1-test2.json").report_target(), Some("test1-test2.json".to_string()));
    assert_eq!(RunnerWriter::default().report_target(), Some(String::new()));
}

#[test]
fn exec_data_from_system_data_is_taken_now() {
    let before = chrono::Local::now().timestamp();
    let data = ExecData::from_system_data("app");
    let after = chrono::Local::now().timestamp();
    assert_eq!(data.name, "app");
    assert_eq!(data.module, None);
    assert!(before <= data.timestamp && data.timestamp <= after);
}

#[test]
fn agg_data_counts() {
    let mut agg = AggData::default();
    assert_eq!(agg.total_execs, 0);
    agg.update("my app/v1");
    agg.update("my app/v1");
    assert_eq!(agg.name, "my_app-v1");
    assert_eq!(agg.total_execs, 2);
    let other = AggData::new("x".to_string(), 7);
    let d = agg.difference(&other);
    assert_eq!(d.total_execs, 5);
    assert_eq!(d.name, "my_app-v1");
    assert_eq!(other.difference(&agg).total_execs, -5);
    assert_eq!(agg.difference(&agg).total_execs, 0);
}

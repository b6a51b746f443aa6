use terraform_module_data::data::Summary;
use terraform_module_data::graph::{GraphError, Mode, TraceData};
use terraform_module_data::ordered::StringMap;
use terraform_module_data::registry::{
    add_point, chart_downloads, collect_trace_data, get_module_data_traces, graph_downloads,
    minimum_major_of, order_snapshots, regroup, registry_url, render_downloads_page,
    snapshot_date, snapshot_file_name, trace_version, trace_versions, ModuleSnapshots, Section,
    SnapshotError, SnapshotFile, VersionSeries,
};

fn summary(major_version: &str, downloads: u64) -> Summary {
    Summary { downloads, major_version: String::from(major_version), created_at: String::new() }
}

fn file(stem: &str, summaries: Vec<Summary>) -> SnapshotFile {
    SnapshotFile { stem: String::from(stem), summaries }
}

fn strings(items: &[&str]) -> Vec<String> {
    items.iter().map(|s| String::from(*s)).collect()
}

fn trace(name: &str, x: &[&str], y: &[&str]) -> TraceData {
    TraceData { name: String::from(name), x_data: strings(x), y_data: strings(y) }
}

#[test]
fn two_snapshots_make_one_trace() {
    let files = vec![
        file("2024-01-01", vec![summary("3", 10)]),
        file("2024-02-01", vec![summary("3", 15)]),
    ];
    assert_eq!(
        get_module_data_traces("vpc", &files),
        Ok(vec![trace("v3.0", &["2024-01-01", "2024-02-01"], &["10", "15"])])
    );
}

#[test]
fn points_come_in_date_order_whatever_the_order_of_files() {
    let files = vec![
        file("2024-02-01", vec![summary("3", 15), summary("4", 1)]),
        file("2023-12-01", vec![summary("3", 5)]),
        file("2024-01-01", vec![summary("4", 0), summary("3", 10)]),
    ];
    assert_eq!(
        get_module_data_traces("vpc", &files),
        Ok(vec![
            trace("v3.0", &["2023-12-01", "2024-01-01", "2024-02-01"], &["5", "10", "15"]),
            trace("v4.0", &["2024-01-01", "2024-02-01"], &["0", "1"]),
        ])
    );
}

#[test]
fn traces_come_in_the_order_of_the_versions_texts() {
    let files = vec![file(
        "2024-01-01",
        vec![summary("5", 1), summary("16", 2), summary("3", 3), summary("", 4)],
    )];
    let traces = get_module_data_traces("rds", &files).unwrap();
    let names: Vec<String> = traces.iter().map(|t| t.name.clone()).collect();
    assert_eq!(names, strings(&["v.0", "v16.0", "v3.0", "v5.0"]));
}

#[test]
fn old_versions_of_eks_are_left_out() {
    let files = vec![file(
        "2024-01-01",
        vec![summary("15", 1), summary("16", 2), summary("17", 3), summary("2", 4), summary("-3", 5)],
    )];
    assert_eq!(
        get_module_data_traces("eks", &files),
        Ok(vec![
            trace("v16.0", &["2024-01-01"], &["2"]),
            trace("v17.0", &["2024-01-01"], &["3"]),
        ])
    );
    let others = get_module_data_traces("eks-pod-identity", &files).unwrap();
    assert_eq!(others.len(), 5);
}

#[test]
fn a_version_of_eks_that_is_no_number_is_reported() {
    let files = vec![file("2024-01-01", vec![summary("17", 1), summary("x", 2), summary("y", 3)])];
    assert_eq!(
        get_module_data_traces("eks", &files),
        Err(SnapshotError::BadMajorVersion { version: 1 })
    );
    assert_eq!(get_module_data_traces("vpc", &files).map(|t| t.len()), Ok(3));
}

#[test]
fn a_file_that_is_named_after_no_date_is_reported() {
    let files = vec![
        file("2024-01-01", vec![summary("3", 10)]),
        file("README", vec![]),
        file("2024-13-01", vec![]),
    ];
    assert_eq!(get_module_data_traces("vpc", &files), Err(SnapshotError::BadDate { file: 1 }));
    let files = vec![file("2024-02-30", vec![])];
    assert_eq!(get_module_data_traces("eks", &files), Err(SnapshotError::BadDate { file: 0 }));
}

#[test]
fn no_snapshots_make_no_traces() {
    assert_eq!(get_module_data_traces("vpc", &vec![]), Ok(vec![]));
    assert_eq!(get_module_data_traces("vpc", &vec![file("2024-01-01", vec![])]), Ok(vec![]));
}

#[test]
fn snapshot_dates_are_read_by_chrono() {
    assert_eq!(snapshot_date("2024-01-01"), Some(String::from("2024-01-01")));
    assert_eq!(snapshot_date("2024-01-01.json"), Some(String::from("2024-01-01")));
    assert_eq!(snapshot_date("2024-1-2"), Some(String::from("2024-01-02")));
    assert_eq!(snapshot_date("2024-01-01T00:00:00Z"), None);
    assert_eq!(snapshot_date("20240101"), None);
    assert_eq!(snapshot_date(""), None);
    assert_eq!(snapshot_file_name("2024-01-01"), "2024-01-01.json");
}

#[test]
fn snapshots_of_one_date_the_later_counts() {
    let files = vec![
        file("2024-01-01", vec![summary("3", 10)]),
        file("2024-1-1", vec![summary("3", 11)]),
    ];
    let days = order_snapshots(&files).unwrap();
    assert_eq!(days.into_items(), vec![(String::from("2024-01-01"), vec![summary("3", 11)])]);
    assert_eq!(order_snapshots(&vec![file("x", vec![])]).err(), Some(0));
}

#[test]
fn regroup_transposes_days_and_versions() {
    let mut days: StringMap<Vec<Summary>> = StringMap::new();
    days.insert(String::from("2024-01-02"), vec![summary("1", 12), summary("2", 22)]);
    days.insert(String::from("2024-01-01"), vec![summary("2", 21), summary("1", 11), summary("1", 1)]);
    let versions = regroup(&days);
    assert_eq!(
        versions.into_items(),
        vec![
            (
                String::from("1"),
                VersionSeries {
                    dates: strings(&["2024-01-01", "2024-01-01", "2024-01-02"]),
                    downloads: vec![11, 1, 12],
                }
            ),
            (
                String::from("2"),
                VersionSeries {
                    dates: strings(&["2024-01-01", "2024-01-02"]),
                    downloads: vec![21, 22],
                }
            ),
        ]
    );
}

#[test]
fn points_are_added_at_the_end() {
    let mut versions: StringMap<VersionSeries> = StringMap::new();
    add_point(&mut versions, "2", String::from("b"), 2);
    add_point(&mut versions, "1", String::from("a"), 1);
    add_point(&mut versions, "2", String::from("c"), 3);
    assert_eq!(
        versions.into_items(),
        vec![
            (String::from("1"), VersionSeries { dates: strings(&["a"]), downloads: vec![1] }),
            (String::from("2"), VersionSeries { dates: strings(&["b", "c"]), downloads: vec![2, 3] }),
        ]
    );
}

#[test]
fn versions_become_traces() {
    let series = VersionSeries { dates: strings(&["d1", "d2"]), downloads: vec![0, u64::MAX] };
    assert_eq!(
        trace_version("12", &series),
        trace("v12.0", &["d1", "d2"], &["0", "18446744073709551615"])
    );
    let mut versions: StringMap<VersionSeries> = StringMap::new();
    versions.insert(String::from("+16"), VersionSeries::new());
    versions.insert(String::from("15"), VersionSeries::new());
    versions.insert(String::from("2147483647"), VersionSeries::new());
    let kept = trace_versions(Some(16), &versions).unwrap();
    let names: Vec<String> = kept.iter().map(|t| t.name.clone()).collect();
    assert_eq!(names, strings(&["v+16.0", "v2147483647.0"]));
    versions.insert(String::from("2147483648"), VersionSeries::new());
    assert_eq!(trace_versions(Some(16), &versions), Err(3));
    assert_eq!(trace_versions(None, &versions).map(|t| t.len()), Ok(4));
    assert_eq!(minimum_major_of("eks"), Some(16));
    assert_eq!(minimum_major_of("EKS"), None);
    assert_eq!(minimum_major_of("vpc"), None);
}

fn snapshots(name: &str, files: Vec<SnapshotFile>) -> ModuleSnapshots {
    ModuleSnapshots { name: String::from(name), files }
}

#[test]
fn traces_are_collected_by_module_name() {
    let modules = vec![
        snapshots("vpc", vec![file("2024-01-01", vec![summary("5", 1)])]),
        snapshots("eks", vec![file("2024-01-01", vec![summary("5", 1), summary("20", 2)])]),
        snapshots("alb", vec![]),
    ];
    let found = collect_trace_data(&modules).unwrap();
    assert_eq!(
        found.into_items(),
        vec![
            (String::from("alb"), vec![]),
            (String::from("eks"), vec![trace("v20.0", &["2024-01-01"], &["2"])]),
            (String::from("vpc"), vec![trace("v5.0", &["2024-01-01"], &["1"])]),
        ]
    );
}

#[test]
fn collection_reports_the_module_that_failed() {
    let modules = vec![
        snapshots("vpc", vec![file("2024-01-01", vec![summary("5", 1)])]),
        snapshots("eks", vec![file("2024-01-01", vec![summary("five", 1)])]),
        snapshots("alb", vec![file("nonsense", vec![])]),
    ];
    assert_eq!(
        collect_trace_data(&modules).err(),
        Some(GraphError::BadMajorVersion { module: 1, version: 0 })
    );
    let modules = vec![
        snapshots("vpc", vec![file("2024-01-01", vec![]), file("nonsense", vec![])]),
        snapshots("eks", vec![file("2024-01-01", vec![summary("five", 1)])]),
    ];
    assert_eq!(
        graph_downloads(&modules).err(),
        Some(GraphError::BadSnapshotDate { module: 0, file: 1 })
    );
}

#[test]
fn downloads_are_charted_per_module() {
    let modules = vec![
        snapshots("vpc", vec![file("2024-01-01", vec![summary("5", 1)])]),
        snapshots("alb", vec![file("2024-01-01", vec![summary("9", 7)])]),
    ];
    let charts = graph_downloads(&modules).unwrap();
    assert_eq!(charts.len(), 2);
    assert_eq!(charts[0].module, "alb");
    assert_eq!(charts[1].module, "vpc");
    let chart = &charts[0].chart;
    assert_eq!(chart.id, "alb - Terraform Registry Downloads");
    assert_eq!(chart.titles.title, "alb - Terraform Registry Downloads");
    assert_eq!(chart.titles.x_title, "Date");
    assert_eq!(chart.titles.y_title, "Total Downloads");
    assert_eq!(chart.mode, Mode::Markers);
    assert_eq!(chart.traces, vec![trace("v9.0", &["2024-01-01"], &["7"])]);
    assert_eq!(charts[1], chart_downloads(String::from("vpc"), vec![trace("v5.0", &["2024-01-01"], &["1"])]));
}

#[test]
fn downloads_page_is_filled() {
    let sections = vec![
        Section { module: String::from("alb"), markup: String::from("<div>a</div>") },
        Section { module: String::from("vpc"), markup: String::from("{{ date }}") },
    ];
    let page = render_downloads_page("# Downloads\n\n{{ body }}Updated {{ date }}\n", "now", &sections);
    assert_eq!(
        page,
        "# Downloads\n\n## alb\n\n<div>a</div>\n\n## vpc\n\nnow\n\nUpdated now\n"
    );
    assert_eq!(render_downloads_page("{{ body }}|{{date}}", "now", &vec![]), "|{{date}}");
}

#[test]
fn registry_address() {
    assert_eq!(
        registry_url("vpc"),
        Some(String::from(
            "https://registry.terraform.io/v2/modules/terraform-aws-modules/vpc/aws?include=module-versions"
        ))
    );
    assert_eq!(
        registry_url("a b/../c?x=1#f"),
        Some(String::from(
            "https://registry.terraform.io/v2/modules/terraform-aws-modules/c?x=1&include=module-versions#f/aws"
        ))
    );
}

use terraform_module_data::data::Summary;
use terraform_module_data::github::{graph_clones, graph_page_views, ModuleSeries, Sample};
use terraform_module_data::graph::{
    assemble, describe, graph, time_series_chart, render_traffic_page, CategoryMarkup, Collected,
    GraphError, Markup, Mode, Pages, RangeButton, Step, StepMode, Templates, Titles, TraceData,
};
use terraform_module_data::ordered::StringMap;
use terraform_module_data::registry::{ModuleSnapshots, Section, SnapshotFile};
use terraform_module_data::render::{
    plot_time_series, render_categories, render_chart, render_sections,
};

fn strings(items: &[&str]) -> Vec<String> {
    items.iter().map(|s| String::from(*s)).collect()
}

fn module(name: &str, samples: &[(&str, u64)]) -> ModuleSeries {
    let mut series = StringMap::new();
    for (day, count) in samples {
        series.insert(
            String::from(*day),
            Sample { count: *count, timestamp: format!("{}T00:00:00Z", day), uniques: 1 },
        );
    }
    ModuleSeries { name: String::from(name), series }
}

fn button(count: usize, label: &str, step: Step, step_mode: StepMode) -> RangeButton {
    RangeButton::Last { count, label: String::from(label), step, step_mode }
}

#[test]
fn a_chart_has_the_standard_furniture() {
    let traces = vec![TraceData {
        name: String::from("vpc"),
        x_data: strings(&["2024-01-01"]),
        y_data: strings(&["1"]),
    }];
    let titles = Titles {
        title: String::from("T"),
        x_title: String::from("X"),
        y_title: String::from("Y"),
    };
    let chart = time_series_chart("an_id", traces.clone(), titles.clone(), Mode::Markers);
    assert_eq!(chart.id, "an_id");
    assert_eq!(chart.traces, traces);
    assert_eq!(chart.titles, titles);
    assert_eq!(chart.mode, Mode::Markers);
    assert_eq!(chart.legend_title, "Module");
    assert_eq!(chart.height, 650);
    assert!(chart.range_slider);
    assert_eq!(
        chart.buttons,
        vec![
            button(1, "1m", Step::Month, StepMode::Backward),
            button(6, "6m", Step::Month, StepMode::Backward),
            button(1, "YTD", Step::Year, StepMode::ToDate),
            button(1, "1y", Step::Year, StepMode::Backward),
            RangeButton::All,
        ]
    );
}

#[test]
fn a_default_trace_is_empty() {
    let t = TraceData::default();
    assert_eq!(t.name, "");
    assert!(t.x_data.is_empty());
    assert!(t.y_data.is_empty());
}

fn names(traces: &[TraceData]) -> Vec<String> {
    traces.iter().map(|t| t.name.clone()).collect()
}

#[test]
fn a_traffic_report_has_a_chart_of_each_category() {
    let modules = vec![
        module("vpc", &[("2024-01-01", 1), ("2024-01-02", 2)]),
        module("rds", &[("2024-01-01", 3)]),
        module("lambda", &[("2024-01-01", 4)]),
        module("kms", &[]),
        module("something-else", &[("2024-01-01", 5)]),
    ];
    let charts = graph_clones(&modules).unwrap();
    assert_eq!(names(&charts.all.traces), strings(&["vpc", "rds", "lambda", "kms", "something-else"]));
    assert_eq!(names(&charts.data.traces), strings(&["rds"]));
    assert_eq!(names(&charts.compute.traces), strings(&["lambda"]));
    assert_eq!(names(&charts.serverless.traces), strings(&["lambda"]));
    assert_eq!(names(&charts.network.traces), strings(&["vpc"]));
    assert_eq!(names(&charts.other.traces), strings(&["kms"]));
    assert_eq!(charts.all.id, "all_-_repository_clones");
    assert_eq!(charts.data.id, "data_-_repository_clones");
    assert_eq!(charts.compute.id, "compute_-_repository_clones");
    assert_eq!(charts.serverless.id, "serverless_-_repository_clones");
    assert_eq!(charts.network.id, "networking_-_repository_clones");
    assert_eq!(charts.other.id, "other_-_repository_clones");
    assert_eq!(charts.network.titles.title, "Networking - Repository Clones");
    assert_eq!(charts.network.titles.y_title, "Clones");
    assert_eq!(charts.network.traces[0].x_data, strings(&["2024-01-01", "2024-01-02"]));
    assert_eq!(charts.network.traces[0].y_data, strings(&["1", "2"]));
    assert_eq!(charts.other.traces[0].x_data, strings(&[]));
    let views = graph_page_views(&modules).unwrap();
    assert_eq!(views.all.id, "all_-_repository_page_views");
    assert_eq!(views.other.titles.title, "Other - Repository Page Views");
    assert_eq!(views.other.titles.y_title, "Views");
    assert_eq!(views.all.mode, Mode::Lines);
}

#[test]
fn a_traffic_page_is_filled_in_order() {
    let markup = CategoryMarkup {
        all: String::from("A {{ data }}"),
        data: String::from("D"),
        compute: String::from("C"),
        serverless: String::from("S"),
        network: String::from("N"),
        other: String::from("O {{ all }}"),
    };
    let template =
        "{{ date }}|{{ all }}|{{ data }}|{{ compute }}|{{ serverless }}|{{ network }}|{{ other }}|{{ date }}";
    assert_eq!(
        render_traffic_page(template, "2024-01-01 00:00:00", &markup),
        "2024-01-01 00:00:00|A D|D|C|S|N|O {{ all }}|2024-01-01 00:00:00"
    );
    assert_eq!(render_traffic_page("nothing to fill", "t", &markup), "nothing to fill");
}

fn collected() -> Collected {
    Collected {
        clones: vec![module("vpc", &[("2024-01-01", 1)])],
        views: vec![module("vpc", &[("2024-01-01", 7)]), module("eks", &[("2024-01-02", 8)])],
        registry: vec![ModuleSnapshots {
            name: String::from("vpc"),
            files: vec![SnapshotFile {
                stem: String::from("2024-01-01"),
                summaries: vec![Summary {
                    downloads: 9,
                    major_version: String::from("5"),
                    created_at: String::new(),
                }],
            }],
        }],
    }
}

fn templates() -> Templates {
    Templates {
        clones: String::from("clones {{ date }}\n{{ all }}\n{{ network }}\n"),
        views: String::from("views {{ date }}\n{{ compute }}\n"),
        downloads: String::from("downloads {{ date }}\n{{ body }}"),
    }
}

#[test]
fn describe_gives_the_charts_of_all_reports() {
    let data = collected();
    let charts = describe(&data).unwrap();
    assert_eq!(charts.clones, graph_clones(&data.clones).unwrap());
    assert_eq!(charts.views, graph_page_views(&data.views).unwrap());
    assert_eq!(names(&charts.views.compute.traces), strings(&["eks"]));
    assert_eq!(charts.views.compute.traces[0].y_data, strings(&["8"]));
    assert_eq!(charts.downloads.len(), 1);
    assert_eq!(charts.downloads[0].module, "vpc");
    assert_eq!(charts.downloads[0].chart.traces[0].name, "v5.0");
    assert_eq!(charts.downloads[0].chart.traces[0].y_data, strings(&["9"]));
}

#[test]
fn describe_stops_at_the_first_report_that_fails() {
    let mut bad = module("vpc", &[]);
    bad.series.insert(
        String::from("2024-01-01"),
        Sample { count: 1, timestamp: String::from("?"), uniques: 1 },
    );
    let data = Collected {
        clones: vec![module("alb", &[("2024-01-01", 1)])],
        views: vec![module("alb", &[]), bad],
        registry: vec![ModuleSnapshots {
            name: String::from("vpc"),
            files: vec![SnapshotFile { stem: String::from("?"), summaries: vec![] }],
        }],
    };
    assert_eq!(describe(&data).err(), Some(GraphError::BadTimestamp { module: 1, sample: 0 }));
    assert_eq!(
        graph(&data, &templates(), "now").err(),
        Some(GraphError::BadTimestamp { module: 1, sample: 0 })
    );
}

#[test]
fn pages_are_assembled_from_markup() {
    let category = |tag: &str| CategoryMarkup {
        all: format!("<{tag} all>"),
        data: format!("<{tag} data>"),
        compute: format!("<{tag} compute>"),
        serverless: format!("<{tag} serverless>"),
        network: format!("<{tag} network>"),
        other: format!("<{tag} other>"),
    };
    let markup = Markup {
        clones: category("c"),
        views: category("v"),
        downloads: vec![Section { module: String::from("vpc"), markup: String::from("<d vpc>") }],
    };
    assert_eq!(
        assemble(&templates(), "now", &markup),
        Pages {
            clones: String::from("clones now\n<c all>\n<c network>\n"),
            views: String::from("views now\n<v compute>\n"),
            downloads: String::from("downloads now\n## vpc\n\n<d vpc>\n\n"),
        }
    );
}

#[test]
fn a_chart_is_drawn_as_markup() {
    let data = collected();
    let charts = describe(&data).unwrap();
    let chart = &charts.views.compute;
    let markup = render_chart(chart);
    assert_ne!(markup, chart.id);
    assert!(markup.contains("id=\"compute_-_repository_page_views\""));
    assert!(markup.contains("Plotly.newPlot"));
    assert!(markup.contains("\"name\":\"eks\""));
    assert!(markup.contains("\"x\":[\"2024-01-02\"]"));
    assert!(markup.contains("\"y\":[\"8\"]"));
    assert!(markup.contains("\"mode\":\"lines\""));
    assert!(markup.contains("Compute - Repository Page Views"));
    assert!(markup.contains("\"height\":650"));
    assert!(markup.contains("\"rangeslider\":{\"visible\":true}"));
    assert!(markup.contains("\"label\":\"YTD\""));
    assert!(markup.contains("\"stepmode\":\"todate\""));
    assert!(markup.contains("\"step\":\"all\""));
    assert!(markup.contains("Module"));
    assert_eq!(markup, render_chart(chart));
    let downloads = render_chart(&charts.downloads[0].chart);
    assert!(downloads.contains("\"mode\":\"markers\""));
    assert!(downloads.contains("id=\"vpc - Terraform Registry Downloads\""));
}

#[test]
fn a_drawn_chart_shows_its_traces_and_its_layout() {
    let trace = |name: &str, day: &str, n: &str| TraceData {
        name: String::from(name),
        x_data: strings(&[day]),
        y_data: strings(&[n]),
    };
    let titles = Titles {
        title: String::from("The figure"),
        x_title: String::from("The days"),
        y_title: String::from("The numbers"),
    };
    let chart = time_series_chart(
        "fig",
        vec![trace("first", "2024-01-01", "1"), trace("second", "2024-01-02", "2")],
        titles,
        Mode::Markers,
    );
    let markup = render_chart(&chart);
    let first = markup.find("\"name\":\"first\"").unwrap();
    let second = markup.find("\"name\":\"second\"").unwrap();
    assert!(first < second);
    assert_eq!(markup.matches("\"mode\":\"markers\"").count(), 2);
    assert!(markup.contains("\"title\":{\"text\":\"The figure\"}"));
    assert!(markup.contains("\"title\":{\"text\":\"The days\"}"));
    assert!(markup.contains("\"title\":{\"text\":\"The numbers\"}"));
    assert!(markup.contains("\"title\":{\"text\":\"Module\"}"));
    assert!(markup.contains("\"height\":650"));
    assert!(markup.contains("\"rangeslider\":{\"visible\":true}"));
    assert_eq!(markup.matches("\"step\":").count(), 5);
    assert_eq!(markup.matches("\"count\":").count(), 4);
    assert!(markup.contains("\"count\":6"));
    assert!(markup.contains("\"label\":\"1m\""));
    assert!(markup.contains("\"label\":\"6m\""));
    assert!(markup.contains("\"label\":\"1y\""));
    assert!(markup.contains("\"stepmode\":\"backward\""));
    let mut other = chart.clone();
    other.range_slider = false;
    other.buttons.pop();
    let changed = render_chart(&other);
    assert!(changed.contains("\"rangeslider\":{\"visible\":false}"));
    assert_eq!(changed.matches("\"step\":").count(), 4);
    assert!(!changed.contains("\"step\":\"all\""));
}

#[test]
fn plotting_is_describing_and_drawing() {
    let traces = vec![TraceData {
        name: String::from("vpc"),
        x_data: strings(&["2024-01-01", "2024-01-02"]),
        y_data: strings(&["1", "2"]),
    }];
    let titles = Titles {
        title: String::from("A title"),
        x_title: String::from("Date"),
        y_title: String::from("Clones"),
    };
    let markup = plot_time_series("the_id", traces.clone(), titles.clone(), Mode::Lines);
    assert_eq!(markup, render_chart(&time_series_chart("the_id", traces, titles, Mode::Lines)));
    assert!(markup.starts_with("<div id=\"the_id\""));
    assert!(markup.contains("\"x\":[\"2024-01-01\",\"2024-01-02\"]"));
    assert!(markup.contains("\"y\":[\"1\",\"2\"]"));
    assert!(markup.contains("A title"));
}

#[test]
fn charts_are_drawn_in_their_places() {
    let data = collected();
    let charts = describe(&data).unwrap();
    let markup = render_categories(&charts.clones);
    assert_eq!(markup.all, render_chart(&charts.clones.all));
    assert_eq!(markup.data, render_chart(&charts.clones.data));
    assert_eq!(markup.compute, render_chart(&charts.clones.compute));
    assert_eq!(markup.serverless, render_chart(&charts.clones.serverless));
    assert_eq!(markup.network, render_chart(&charts.clones.network));
    assert_eq!(markup.other, render_chart(&charts.clones.other));
    let sections = render_sections(&charts.downloads);
    assert_eq!(
        sections,
        vec![Section {
            module: String::from("vpc"),
            markup: render_chart(&charts.downloads[0].chart),
        }]
    );
}

#[test]
fn graph_makes_the_three_reports() {
    let data = collected();
    let reports = graph(&data, &templates(), "2024-03-01 12:00:00").unwrap();
    assert_eq!(reports.charts, describe(&data).unwrap());
    assert_eq!(reports.markup.clones, render_categories(&reports.charts.clones));
    assert_eq!(reports.markup.views, render_categories(&reports.charts.views));
    assert_eq!(reports.markup.downloads, render_sections(&reports.charts.downloads));
    assert_eq!(reports.pages, assemble(&templates(), "2024-03-01 12:00:00", &reports.markup));
    assert!(reports.pages.clones.starts_with("clones 2024-03-01 12:00:00\n<div"));
    assert!(reports.pages.views.contains("\"name\":\"eks\""));
    assert!(reports.pages.downloads.starts_with("downloads 2024-03-01 12:00:00\n## vpc\n\n<div"));
    assert!(reports.pages.downloads.ends_with("\n\n"));
}

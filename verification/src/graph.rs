//! Charts as plain data: the traces of a time series and the figure that
//! shows them.

use vstd::prelude::*;
use crate::github::{graph_clones, graph_page_views, traffic_charts, ModuleSeries, ModuleView};
use crate::registry::{
    downloads_page, graph_downloads, registry_charts, render_downloads_page, ModuleChart,
    ModuleChartView, ModuleSnapshots, ModuleSnapshotsView, Section, SectionView,
};
use crate::render::{
    categories_markup, render_categories, render_sections, sections_markup, sections_of,
};
use crate::template::{substitute, substituted};

verus! {

/// The titles of a chart and of its two axes.
#[derive(Debug, Clone, PartialEq, Eq)]
pub struct Titles {
    pub title: String,
    pub x_title: String,
    pub y_title: String,
}

/// What [`Titles`] hold.
pub struct TitlesView {
    pub title: Seq<char>,
    pub x_title: Seq<char>,
    pub y_title: Seq<char>,
}

impl DeepView for Titles {
    type V = TitlesView;

    open spec fn deep_view(&self) -> TitlesView {
        TitlesView { title: self.title@, x_title: self.x_title@, y_title: self.y_title@ }
    }
}

/// One named series of a chart: calendar dates and, beside each, a number
/// written in decimal.
#[derive(Debug, Clone, PartialEq, Eq)]
pub struct TraceData {
    pub name: String,
    pub x_data: Vec<String>,
    pub y_data: Vec<String>,
}

/// What a [`TraceData`] holds.
pub struct TraceView {
    pub name: Seq<char>,
    pub x: Seq<Seq<char>>,
    pub y: Seq<Seq<char>>,
}

impl DeepView for TraceData {
    type V = TraceView;

    open spec fn deep_view(&self) -> TraceView {
        TraceView {
            name: self.name@,
            x: Seq::new(self.x_data@.len(), |i: int| self.x_data@[i]@),
            y: Seq::new(self.y_data@.len(), |i: int| self.y_data@[i]@),
        }
    }
}

impl Default for TraceData {
    /// A trace without a name and without points.
    fn default() -> (trace: TraceData)
        ensures
            trace.deep_view() == (TraceView {
                name: Seq::empty(),
                x: Seq::empty(),
                y: Seq::empty(),
            }),
    {
        let trace = TraceData { name: String::new(), x_data: Vec::new(), y_data: Vec::new() };
        assert(trace.deep_view().x =~= Seq::<Seq<char>>::empty());
        assert(trace.deep_view().y =~= Seq::<Seq<char>>::empty());
        trace
    }
}

/// Why the charts of a report could not be described.
#[derive(Debug, Clone, Copy, PartialEq, Eq)]
pub enum GraphError {
    /// In the traffic of the module at `module`, the sample at `sample`, in
    /// date order, is the first whose time is no RFC 3339 timestamp.
    BadTimestamp { module: usize, sample: usize },
    /// A label that was to be capitalized is empty.
    EmptyLabel,
    /// Among the snapshots of the module at `module`, the file at `file` is
    /// the first whose name is no calendar date.
    BadSnapshotDate { module: usize, file: usize },
    /// Among the major versions of the module at `module`, the one at
    /// `version`, in the order of their texts, is the first that had to be
    /// read as a number and is none.
    BadMajorVersion { module: usize, version: usize },
}

/// How the points of a trace are drawn.
#[derive(Debug, Clone, Copy, PartialEq, Eq, Structural)]
pub enum Mode {
    Lines,
    Markers,
}

/// The unit in which a range button counts.
#[derive(Debug, Clone, Copy, PartialEq, Eq, Structural)]
pub enum Step {
    Month,
    Year,
}

/// Whether a range button counts back from the last point or from the start
/// of the current unit.
#[derive(Debug, Clone, Copy, PartialEq, Eq, Structural)]
pub enum StepMode {
    Backward,
    ToDate,
}

/// A button that narrows the date axis: to the last `count` units of `step`,
/// or to everything.
#[derive(Debug, Clone, PartialEq, Eq)]
pub enum RangeButton {
    Last { count: usize, label: String, step: Step, step_mode: StepMode },
    All,
}

/// What a [`RangeButton`] holds.
pub enum ButtonView {
    Last { count: usize, label: Seq<char>, step: Step, step_mode: StepMode },
    All,
}

impl DeepView for RangeButton {
    type V = ButtonView;

    open spec fn deep_view(&self) -> ButtonView {
        match self {
            RangeButton::Last { count, label, step, step_mode } => ButtonView::Last {
                count: *count,
                label: label@,
                step: *step,
                step_mode: *step_mode,
            },
            RangeButton::All => ButtonView::All,
        }
    }
}

/// A time-series figure: traces over a date axis with a range slider and
/// range buttons, a legend and a fixed height.
#[derive(Debug, Clone, PartialEq, Eq)]
pub struct Chart {
    pub id: String,
    pub traces: Vec<TraceData>,
    pub mode: Mode,
    pub titles: Titles,
    pub legend_title: String,
    pub height: usize,
    pub range_slider: bool,
    pub buttons: Vec<RangeButton>,
}

/// What a [`Chart`] holds.
pub struct ChartView {
    pub id: Seq<char>,
    pub traces: Seq<TraceView>,
    pub mode: Mode,
    pub titles: TitlesView,
    pub legend_title: Seq<char>,
    pub height: usize,
    pub range_slider: bool,
    pub buttons: Seq<ButtonView>,
}

impl DeepView for Chart {
    type V = ChartView;

    open spec fn deep_view(&self) -> ChartView {
        ChartView {
            id: self.id@,
            traces: self.traces.deep_view(),
            mode: self.mode,
            titles: self.titles.deep_view(),
            legend_title: self.legend_title@,
            height: self.height,
            range_slider: self.range_slider,
            buttons: self.buttons.deep_view(),
        }
    }
}

/// The range buttons of every chart: one month, six months, the year to
/// date, one year, and everything.
pub open spec fn standard_buttons() -> Seq<ButtonView> {
    seq![
        ButtonView::Last {
            count: 1usize,
            label: "1m"@,
            step: Step::Month,
            step_mode: StepMode::Backward,
        },
        ButtonView::Last {
            count: 6usize,
            label: "6m"@,
            step: Step::Month,
            step_mode: StepMode::Backward,
        },
        ButtonView::Last {
            count: 1usize,
            label: "YTD"@,
            step: Step::Year,
            step_mode: StepMode::ToDate,
        },
        ButtonView::Last {
            count: 1usize,
            label: "1y"@,
            step: Step::Year,
            step_mode: StepMode::Backward,
        },
        ButtonView::All,
    ]
}

/// The figure that shows `traces` under `titles`.
pub open spec fn time_series(
    id: Seq<char>,
    traces: Seq<TraceView>,
    titles: TitlesView,
    mode: Mode,
) -> ChartView {
    ChartView {
        id,
        traces,
        mode,
        titles,
        legend_title: "Module"@,
        height: 650,
        range_slider: true,
        buttons: standard_buttons(),
    }
}

/// A range button that counts `count` units of `step`.
fn button(count: usize, label: &str, step: Step, step_mode: StepMode) -> (b: RangeButton)
    ensures
        b.deep_view() == (ButtonView::Last { count, label: label@, step, step_mode }),
{
    RangeButton::Last { count, label: String::from_str(label), step, step_mode }
}

/// Describes the time-series figure named `name` that shows `data` under
/// `titles`: the legend is titled "Module", the figure is 650 high, the date
/// axis has a range slider and the five standard range buttons.
pub fn time_series_chart(name: &str, data: Vec<TraceData>, titles: Titles, mode: Mode) -> (chart:
    Chart)
    ensures
        chart.deep_view() == time_series(name@, data.deep_view(), titles.deep_view(), mode),
{
    let mut buttons: Vec<RangeButton> = Vec::new();
    buttons.push(button(1, "1m", Step::Month, StepMode::Backward));
    buttons.push(button(6, "6m", Step::Month, StepMode::Backward));
    buttons.push(button(1, "YTD", Step::Year, StepMode::ToDate));
    buttons.push(button(1, "1y", Step::Year, StepMode::Backward));
    buttons.push(RangeButton::All);
    assert(buttons.deep_view() =~= standard_buttons());
    Chart {
        id: String::from_str(name),
        traces: data,
        mode,
        titles,
        legend_title: String::from_str("Module"),
        height: 650,
        range_slider: true,
        buttons,
    }
}

/// The six charts of a traffic report: one of all modules and one of each
/// category.
#[derive(Debug, Clone, PartialEq, Eq)]
pub struct CategoryCharts {
    pub all: Chart,
    pub data: Chart,
    pub compute: Chart,
    pub serverless: Chart,
    pub network: Chart,
    pub other: Chart,
}

/// What [`CategoryCharts`] hold.
pub struct CategoryChartsView {
    pub all: ChartView,
    pub data: ChartView,
    pub compute: ChartView,
    pub serverless: ChartView,
    pub network: ChartView,
    pub other: ChartView,
}

impl DeepView for CategoryCharts {
    type V = CategoryChartsView;

    open spec fn deep_view(&self) -> CategoryChartsView {
        CategoryChartsView {
            all: self.all.deep_view(),
            data: self.data.deep_view(),
            compute: self.compute.deep_view(),
            serverless: self.serverless.deep_view(),
            network: self.network.deep_view(),
            other: self.other.deep_view(),
        }
    }
}

/// The markup of the six charts of a traffic report, as a renderer made it.
#[derive(Debug, Clone, PartialEq, Eq)]
pub struct CategoryMarkup {
    pub all: String,
    pub data: String,
    pub compute: String,
    pub serverless: String,
    pub network: String,
    pub other: String,
}

/// What [`CategoryMarkup`] holds.
pub struct CategoryMarkupView {
    pub all: Seq<char>,
    pub data: Seq<char>,
    pub compute: Seq<char>,
    pub serverless: Seq<char>,
    pub network: Seq<char>,
    pub other: Seq<char>,
}

impl DeepView for CategoryMarkup {
    type V = CategoryMarkupView;

    open spec fn deep_view(&self) -> CategoryMarkupView {
        CategoryMarkupView {
            all: self.all@,
            data: self.data@,
            compute: self.compute@,
            serverless: self.serverless@,
            network: self.network@,
            other: self.other@,
        }
    }
}

/// A traffic report: the template with the date and the six charts put in
/// place of their placeholders, one placeholder after the other in this
/// order: date, all, data, compute, serverless, network, other. What one
/// step puts in is searched by the steps after it.
pub open spec fn traffic_page(
    template: Seq<char>,
    timestamp: Seq<char>,
    markup: CategoryMarkupView,
) -> Seq<char> {
    let dated = substituted(template, "{{ date }}"@, timestamp);
    let with_all = substituted(dated, "{{ all }}"@, markup.all);
    let with_data = substituted(with_all, "{{ data }}"@, markup.data);
    let with_compute = substituted(with_data, "{{ compute }}"@, markup.compute);
    let with_serverless = substituted(with_compute, "{{ serverless }}"@, markup.serverless);
    let with_network = substituted(with_serverless, "{{ network }}"@, markup.network);
    substituted(with_network, "{{ other }}"@, markup.other)
}

/// Fills the template of a traffic report.
pub fn render_traffic_page(template: &str, timestamp: &str, markup: &CategoryMarkup) -> (page:
    String)
    ensures
        page@ == traffic_page(template@, timestamp@, markup.deep_view()),
{
    let dated = substitute(template, "{{ date }}", timestamp);
    let with_all = substitute(dated.as_str(), "{{ all }}", markup.all.as_str());
    let with_data = substitute(with_all.as_str(), "{{ data }}", markup.data.as_str());
    let with_compute = substitute(with_data.as_str(), "{{ compute }}", markup.compute.as_str());
    let with_serverless = substitute(
        with_compute.as_str(),
        "{{ serverless }}",
        markup.serverless.as_str(),
    );
    let with_network = substitute(
        with_serverless.as_str(),
        "{{ network }}",
        markup.network.as_str(),
    );
    substitute(with_network.as_str(), "{{ other }}", markup.other.as_str())
}

/// The data that reports are drawn from: for each module the series of its
/// clones and of its page views, and the snapshots of its downloads.
#[derive(Debug)]
pub struct Collected {
    pub clones: Vec<ModuleSeries>,
    pub views: Vec<ModuleSeries>,
    pub registry: Vec<ModuleSnapshots>,
}

/// What [`Collected`] data holds.
pub struct CollectedView {
    pub clones: Seq<ModuleView>,
    pub views: Seq<ModuleView>,
    pub registry: Seq<ModuleSnapshotsView>,
}

impl DeepView for Collected {
    type V = CollectedView;

    open spec fn deep_view(&self) -> CollectedView {
        CollectedView {
            clones: self.clones.deep_view(),
            views: self.views.deep_view(),
            registry: self.registry.deep_view(),
        }
    }
}

/// The charts of the three reports.
#[derive(Debug, Clone, PartialEq, Eq)]
pub struct ReportCharts {
    pub clones: CategoryCharts,
    pub views: CategoryCharts,
    pub downloads: Vec<ModuleChart>,
}

/// What [`ReportCharts`] hold.
pub struct ReportChartsView {
    pub clones: CategoryChartsView,
    pub views: CategoryChartsView,
    pub downloads: Seq<ModuleChartView>,
}

impl DeepView for ReportCharts {
    type V = ReportChartsView;

    open spec fn deep_view(&self) -> ReportChartsView {
        ReportChartsView {
            clones: self.clones.deep_view(),
            views: self.views.deep_view(),
            downloads: self.downloads.deep_view(),
        }
    }
}

/// The charts of the three reports, built in this order: repository clones,
/// repository page views, registry downloads. The first report whose charts
/// cannot be built stops it.
pub open spec fn report_charts(data: CollectedView) -> Result<ReportChartsView, GraphError> {
    match traffic_charts("Repository Clones"@, "clones"@, data.clones) {
        Err(e) => Err(e),
        Ok(clones) => match traffic_charts("Repository Page Views"@, "views"@, data.views) {
            Err(e) => Err(e),
            Ok(views) => match registry_charts(data.registry) {
                Err(e) => Err(e),
                Ok(downloads) => Ok(ReportChartsView { clones, views, downloads }),
            },
        },
    }
}

/// Describes every chart of the three reports from the collected data.
pub fn describe(data: &Collected) -> (charts: Result<ReportCharts, GraphError>)
    ensures
        match charts {
            Ok(c) => report_charts(data.deep_view()) == Ok::<_, GraphError>(c.deep_view()),
            Err(e) => report_charts(data.deep_view()) == Err::<ReportChartsView, _>(e),
        },
{
    let clones = match graph_clones(&data.clones) {
        Ok(c) => c,
        Err(e) => {
            return Err(e);
        },
    };
    let views = match graph_page_views(&data.views) {
        Ok(c) => c,
        Err(e) => {
            return Err(e);
        },
    };
    let downloads = match graph_downloads(&data.registry) {
        Ok(c) => c,
        Err(e) => {
            return Err(e);
        },
    };
    Ok(ReportCharts { clones, views, downloads })
}

/// The three templates that reports are made from.
#[derive(Debug, Clone, PartialEq, Eq)]
pub struct Templates {
    pub clones: String,
    pub views: String,
    pub downloads: String,
}

/// The three reports.
#[derive(Debug, Clone, PartialEq, Eq)]
pub struct Pages {
    pub clones: String,
    pub views: String,
    pub downloads: String,
}

/// What [`Templates`] or [`Pages`] hold.
pub struct PagesView {
    pub clones: Seq<char>,
    pub views: Seq<char>,
    pub downloads: Seq<char>,
}

impl DeepView for Templates {
    type V = PagesView;

    open spec fn deep_view(&self) -> PagesView {
        PagesView { clones: self.clones@, views: self.views@, downloads: self.downloads@ }
    }
}

impl DeepView for Pages {
    type V = PagesView;

    open spec fn deep_view(&self) -> PagesView {
        PagesView { clones: self.clones@, views: self.views@, downloads: self.downloads@ }
    }
}

/// The markup of every chart of the three reports.
#[derive(Debug, Clone, PartialEq, Eq)]
pub struct Markup {
    pub clones: CategoryMarkup,
    pub views: CategoryMarkup,
    pub downloads: Vec<Section>,
}

/// What [`Markup`] holds.
pub struct MarkupView {
    pub clones: CategoryMarkupView,
    pub views: CategoryMarkupView,
    pub downloads: Seq<SectionView>,
}

impl DeepView for Markup {
    type V = MarkupView;

    open spec fn deep_view(&self) -> MarkupView {
        MarkupView {
            clones: self.clones.deep_view(),
            views: self.views.deep_view(),
            downloads: self.downloads.deep_view(),
        }
    }
}

/// The three reports: each template filled with the date and the markup of
/// its charts.
pub open spec fn assembled(templates: PagesView, timestamp: Seq<char>, markup: MarkupView) -> PagesView {
    PagesView {
        clones: traffic_page(templates.clones, timestamp, markup.clones),
        views: traffic_page(templates.views, timestamp, markup.views),
        downloads: downloads_page(templates.downloads, timestamp, markup.downloads),
    }
}

/// Fills the three templates with the date and the markup of the charts.
pub fn assemble(templates: &Templates, timestamp: &str, markup: &Markup) -> (pages: Pages)
    ensures
        pages.deep_view() == assembled(templates.deep_view(), timestamp@, markup.deep_view()),
{
    Pages {
        clones: render_traffic_page(templates.clones.as_str(), timestamp, &markup.clones),
        views: render_traffic_page(templates.views.as_str(), timestamp, &markup.views),
        downloads: render_downloads_page(
            templates.downloads.as_str(),
            timestamp,
            &markup.downloads,
        ),
    }
}

/// The markup of every chart of the three reports.
pub open spec fn report_markup(charts: ReportChartsView) -> MarkupView {
    MarkupView {
        clones: categories_markup(charts.clones),
        views: categories_markup(charts.views),
        downloads: sections_markup(charts.downloads),
    }
}

/// The outcome of [`graph`]: the charts as they were described, the markup
/// that drawing them gave, and the reports that hold the markup.
#[derive(Debug, Clone, PartialEq, Eq)]
pub struct Reports {
    pub charts: ReportCharts,
    pub markup: Markup,
    pub pages: Pages,
}

/// Makes the three reports from the collected data: describes every chart,
/// draws it, and fills the templates with the date and the markup.
///
/// It fails exactly where the charts cannot be described, and then nothing
/// is drawn. The markup is that of each chart, in its place, and the pages
/// are the templates filled with that markup.
pub fn graph(data: &Collected, templates: &Templates, timestamp: &str) -> (reports: Result<
    Reports,
    GraphError,
>)
    ensures
        match reports {
            Ok(r) => {
                &&& report_charts(data.deep_view()) == Ok::<_, GraphError>(r.charts.deep_view())
                &&& sections_of(r.charts.downloads@, r.markup.downloads@)
                &&& r.markup.deep_view() == report_markup(r.charts.deep_view())
                &&& r.pages.deep_view() == assembled(
                    templates.deep_view(),
                    timestamp@,
                    r.markup.deep_view(),
                )
            },
            Err(e) => report_charts(data.deep_view()) == Err::<ReportChartsView, _>(e),
        },
{
    let charts = match describe(data) {
        Ok(charts) => charts,
        Err(e) => {
            return Err(e);
        },
    };
    let markup = Markup {
        clones: render_categories(&charts.clones),
        views: render_categories(&charts.views),
        downloads: render_sections(&charts.downloads),
    };
    let pages = assemble(templates, timestamp, &markup);
    Ok(Reports { charts, markup, pages })
}

} // verus!

//! Drawing charts: the figure that a [`Chart`] describes is built with
//! plotly and written as markup that a page can embed.
//!
//! What a plot holds cannot be looked into from here. The traces that have
//! been added to it, the layout that has been set for it and what a range
//! button holds are given names, and so is the markup that plotly writes for
//! a plot: it depends on the traces, the layout and the identifier alone, and
//! is too long to restate.

use vstd::prelude::*;
use crate::graph::{
    time_series, time_series_chart, ButtonView, CategoryCharts, CategoryChartsView,
    CategoryMarkup, CategoryMarkupView, Chart, ChartView, Mode, RangeButton, Step, StepMode,
    Titles, TraceData, TraceView,
};
use crate::registry::{ModuleChart, ModuleChartView, Section, SectionView};

verus! {

/// A figure in the making.
#[verifier::external_type_specification]
#[verifier::external_body]
pub struct ExPlot(plotly::Plot);

/// A range button of a date axis.
#[verifier::external_type_specification]
#[verifier::external_body]
pub struct ExSelectorButton(plotly::layout::SelectorButton);

/// The layout of a figure as this library sets it: the title of the figure
/// and of its legend, its height, the title of the date axis, whether that
/// axis has a visible range slider, its range buttons, and the title of the
/// other axis.
pub struct LayoutView {
    pub title: Seq<char>,
    pub legend_title: Seq<char>,
    pub height: usize,
    pub x_title: Seq<char>,
    pub range_slider: bool,
    pub buttons: Seq<ButtonView>,
    pub y_title: Seq<char>,
}

/// The traces that a plot holds, in the order in which they were added: of
/// each its name, dates and numbers, and the mode in which it is drawn.
pub uninterp spec fn plot_traces(plot: plotly::Plot) -> Seq<(TraceView, Mode)>;

/// The layout that was set for a plot; `None` for a plot whose layout has
/// not been set.
pub uninterp spec fn plot_layout(plot: plotly::Plot) -> Option<LayoutView>;

/// What a range button holds.
pub uninterp spec fn button_shown(button: plotly::layout::SelectorButton) -> ButtonView;

/// The markup that plotly writes for a plot with these traces and this
/// layout, under this identifier.
pub uninterp spec fn inline_markup(
    traces: Seq<(TraceView, Mode)>,
    layout: Option<LayoutView>,
    id: Seq<char>,
) -> Seq<char>;

/// Calls `Plot::new`: a plot without traces, whose layout has not been set.
#[verifier::external_body]
fn new_plot() -> (plot: plotly::Plot)
    ensures
        plot_traces(plot) == Seq::<(TraceView, Mode)>::empty(),
        plot_layout(plot) is None,
{
    plotly::Plot::new()
}

/// Makes a scatter trace of the dates and numbers with `Scatter::new`, sets
/// its mode and name, and hands it to `Plot::add_trace`, which puts it after
/// the traces that the plot holds. The layout of the plot stays.
#[verifier::external_body]
fn add_trace(plot: &mut plotly::Plot, trace: &TraceData, mode: Mode)
    ensures
        plot_traces(*final(plot)) == plot_traces(*old(plot)).push((trace.deep_view(), mode)),
        plot_layout(*final(plot)) == plot_layout(*old(plot)),
{
    let mode = match mode {
        Mode::Lines => plotly::common::Mode::Lines,
        Mode::Markers => plotly::common::Mode::Markers,
    };
    let scatter = plotly::Scatter::new(trace.x_data.clone(), trace.y_data.clone());
    plot.add_trace(scatter.mode(mode).name(&trace.name));
}

/// Makes a `SelectorButton` and sets its count, label, step and step mode.
#[verifier::external_body]
fn counting_button(count: usize, label: &str, step: Step, step_mode: StepMode) -> (button:
    plotly::layout::SelectorButton)
    ensures
        button_shown(button) == (ButtonView::Last { count, label: label@, step, step_mode }),
{
    let step = match step {
        Step::Month => plotly::layout::SelectorStep::Month,
        Step::Year => plotly::layout::SelectorStep::Year,
    };
    let step_mode = match step_mode {
        StepMode::Backward => plotly::layout::StepMode::Backward,
        StepMode::ToDate => plotly::layout::StepMode::ToDate,
    };
    plotly::layout::SelectorButton::new().count(count).label(label).step(step).step_mode(step_mode)
}

/// Makes a `SelectorButton` and sets its step to everything.
#[verifier::external_body]
fn everything_button() -> (button: plotly::layout::SelectorButton)
    ensures
        button_shown(button) == ButtonView::All,
{
    plotly::layout::SelectorButton::new().step(plotly::layout::SelectorStep::All)
}

/// What the buttons of a list hold.
pub open spec fn buttons_shown(buttons: Seq<plotly::layout::SelectorButton>) -> Seq<ButtonView> {
    Seq::new(buttons.len(), |i: int| button_shown(buttons[i]))
}

/// Makes a `Layout` with this title, legend title and height, a date axis
/// with this title, a range slider that is visible or not and a range
/// selector with these buttons, and another axis with that title, and hands
/// it to `Plot::set_layout`. The traces of the plot stay.
#[verifier::external_body]
fn set_layout(
    plot: &mut plotly::Plot,
    title: &str,
    legend_title: &str,
    height: usize,
    x_title: &str,
    range_slider: bool,
    buttons: Vec<plotly::layout::SelectorButton>,
    y_title: &str,
)
    ensures
        plot_traces(*final(plot)) == plot_traces(*old(plot)),
        plot_layout(*final(plot)) == Some(
            LayoutView {
                title: title@,
                legend_title: legend_title@,
                height,
                x_title: x_title@,
                range_slider,
                buttons: buttons_shown(buttons@),
                y_title: y_title@,
            },
        ),
{
    let x = plotly::layout::Axis::new()
        .title(plotly::common::Title::with_text(x_title))
        .range_slider(plotly::layout::RangeSlider::new().visible(range_slider))
        .range_selector(plotly::layout::RangeSelector::new().buttons(buttons));
    let y = plotly::layout::Axis::new().title(plotly::common::Title::with_text(y_title));
    let legend = plotly::layout::Legend::new().title(plotly::common::Title::with_text(legend_title));
    let title = plotly::common::Title::with_text(title);
    plot.set_layout(plotly::Layout::new().title(title).legend(legend).height(height).x_axis(x).y_axis(y));
}

/// Calls `Plot::to_inline_html` with `id` as the identifier of the element
/// that will hold the figure. What it writes depends on the identifier and
/// on what the plot holds. Every plot of this library comes from
/// [`new_plot`] and holds, besides its traces and its layout, only what
/// `Plot::new` gave it.
#[verifier::external_body]
fn inline_html(plot: &plotly::Plot, id: &str) -> (markup: String)
    ensures
        markup@ == inline_markup(plot_traces(*plot), plot_layout(*plot), id@),
{
    plot.to_inline_html(Some(id))
}

/// The traces of a chart as a plot holds them: each with the chart's mode.
pub open spec fn traces_shown(traces: Seq<TraceView>, mode: Mode) -> Seq<(TraceView, Mode)> {
    Seq::new(traces.len(), |i: int| (traces[i], mode))
}

/// The layout of a chart as a plot holds it.
pub open spec fn layout_shown(chart: ChartView) -> LayoutView {
    LayoutView {
        title: chart.titles.title,
        legend_title: chart.legend_title,
        height: chart.height,
        x_title: chart.titles.x_title,
        range_slider: chart.range_slider,
        buttons: chart.buttons,
        y_title: chart.titles.y_title,
    }
}

/// The markup of a chart: what plotly writes, under the chart's identifier,
/// for the plot that holds the chart's traces in the chart's mode and the
/// chart's layout.
pub open spec fn chart_markup(chart: ChartView) -> Seq<char> {
    inline_markup(traces_shown(chart.traces, chart.mode), Some(layout_shown(chart)), chart.id)
}

/// Draws a chart: every trace of the chart, in order and in the chart's
/// mode, then the layout with the chart's titles, height, slider and
/// buttons, written as markup under the chart's identifier.
pub fn render_chart(chart: &Chart) -> (markup: String)
    ensures
        markup@ == chart_markup(chart.deep_view()),
{
    let ghost view = chart.deep_view();
    let mut plot = new_plot();
    let mut i: usize = 0;
    while i < chart.traces.len()
        invariant
            i <= chart.traces.len(),
            plot_traces(plot) == traces_shown(chart.traces.deep_view().take(i as int), chart.mode),
        decreases chart.traces.len() - i,
    {
        add_trace(&mut plot, &chart.traces[i], chart.mode);
        assert(traces_shown(chart.traces.deep_view().take(i + 1), chart.mode)
            =~= traces_shown(chart.traces.deep_view().take(i as int), chart.mode).push(
            (chart.traces@[i as int].deep_view(), chart.mode),
        ));
        i = i + 1;
    }
    assert(chart.traces.deep_view().take(i as int) =~= view.traces);
    let mut buttons: Vec<plotly::layout::SelectorButton> = Vec::new();
    let mut k: usize = 0;
    while k < chart.buttons.len()
        invariant
            k <= chart.buttons.len(),
            buttons.len() == k,
            forall|j: int| 0 <= j < k ==> button_shown(#[trigger] buttons@[j]) == chart.buttons@[j].deep_view(),
        decreases chart.buttons.len() - k,
    {
        let made = match &chart.buttons[k] {
            RangeButton::Last { count, label, step, step_mode } => counting_button(
                *count,
                label.as_str(),
                *step,
                *step_mode,
            ),
            RangeButton::All => everything_button(),
        };
        buttons.push(made);
        k = k + 1;
    }
    assert(buttons_shown(buttons@) =~= view.buttons);
    set_layout(
        &mut plot,
        chart.titles.title.as_str(),
        chart.legend_title.as_str(),
        chart.height,
        chart.titles.x_title.as_str(),
        chart.range_slider,
        buttons,
        chart.titles.y_title.as_str(),
    );
    inline_html(&plot, chart.id.as_str())
}

/// Draws the time series `data` under `titles` as the standard figure and
/// returns the markup, which goes by the name `name`.
pub fn plot_time_series(name: &str, data: Vec<TraceData>, titles: Titles, mode: Mode) -> (markup:
    String)
    ensures
        markup@ == chart_markup(time_series(name@, data.deep_view(), titles.deep_view(), mode)),
{
    let chart = time_series_chart(name, data, titles, mode);
    render_chart(&chart)
}

/// The markup of the six charts of a traffic report, each in its place.
pub open spec fn categories_markup(charts: CategoryChartsView) -> CategoryMarkupView {
    CategoryMarkupView {
        all: chart_markup(charts.all),
        data: chart_markup(charts.data),
        compute: chart_markup(charts.compute),
        serverless: chart_markup(charts.serverless),
        network: chart_markup(charts.network),
        other: chart_markup(charts.other),
    }
}

/// Draws the six charts of a traffic report.
pub fn render_categories(charts: &CategoryCharts) -> (markup: CategoryMarkup)
    ensures
        markup.deep_view() == categories_markup(charts.deep_view()),
{
    CategoryMarkup {
        all: render_chart(&charts.all),
        data: render_chart(&charts.data),
        compute: render_chart(&charts.compute),
        serverless: render_chart(&charts.serverless),
        network: render_chart(&charts.network),
        other: render_chart(&charts.other),
    }
}

/// Every section is that of the chart at the same place.
pub open spec fn sections_of(charts: Seq<ModuleChart>, sections: Seq<Section>) -> bool {
    &&& sections.len() == charts.len()
    &&& forall|i: int| 0 <= i < sections.len() ==> (#[trigger] sections[i]).module@ == charts[i].module@
}

/// For each module's chart, in order, the module's name and the markup of
/// the chart.
pub open spec fn sections_markup(charts: Seq<ModuleChartView>) -> Seq<SectionView> {
    Seq::new(
        charts.len(),
        |i: int| SectionView { module: charts[i].module, markup: chart_markup(charts[i].chart) },
    )
}

/// Draws the chart of each module and keeps it beside the module's name.
pub fn render_sections(charts: &Vec<ModuleChart>) -> (sections: Vec<Section>)
    ensures
        sections_of(charts@, sections@),
        sections.deep_view() == sections_markup(charts.deep_view()),
{
    let mut sections: Vec<Section> = Vec::new();
    let mut i: usize = 0;
    while i < charts.len()
        invariant
            i <= charts.len(),
            sections_of(charts@.take(i as int), sections@),
            forall|j: int|
                0 <= j < i ==> (#[trigger] sections@[j]).deep_view() == (SectionView {
                    module: charts@[j].module@,
                    markup: chart_markup(charts@[j].chart.deep_view()),
                }),
        decreases charts.len() - i,
    {
        sections.push(
            Section { module: charts[i].module.clone(), markup: render_chart(&charts[i].chart) },
        );
        i = i + 1;
    }
    assert(charts@.take(i as int) =~= charts@);
    assert(sections.deep_view() =~= sections_markup(charts.deep_view()));
    sections
}

} // verus!

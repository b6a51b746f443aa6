//! Registry downloads over time: the dated snapshots of a module, regrouped
//! into one trace per major version.

use vstd::prelude::*;
use crate::address::{absolute_url_with, address_with};
use crate::data::{Summary, SummaryView};
use crate::dates::{day_date, parse_day};
use crate::graph::{
    time_series, time_series_chart, Chart, ChartView, GraphError, Mode, Titles, TitlesView,
    TraceData, TraceView,
};
use crate::number::{decimal, format_u64, i32_value, parse_i32};
use crate::ordered::{
    has_key, lemma_entries_map_sorted, lemma_ordered_exists, ordered, strictly_sorted, StringMap,
};
use crate::template::{substitute, substituted};
use crate::text::{lemma_text_lt_transitive, same_text, text_lt};

verus! {

/// One snapshot of a module's downloads: the name of the file that holds it,
/// without its extension, and the summaries in it.
#[derive(Debug, Clone, PartialEq, Eq)]
pub struct SnapshotFile {
    pub stem: String,
    pub summaries: Vec<Summary>,
}

/// What a [`SnapshotFile`] holds.
pub struct SnapshotView {
    pub stem: Seq<char>,
    pub summaries: Seq<SummaryView>,
}

impl DeepView for SnapshotFile {
    type V = SnapshotView;

    open spec fn deep_view(&self) -> SnapshotView {
        SnapshotView { stem: self.stem@, summaries: self.summaries.deep_view() }
    }
}

/// The downloads of one major version over time: dates and, beside each, the
/// downloads counted on that date.
#[derive(Debug, Clone, PartialEq, Eq)]
pub struct VersionSeries {
    pub dates: Vec<String>,
    pub downloads: Vec<u64>,
}

/// What a [`VersionSeries`] holds.
pub struct PointsView {
    pub dates: Seq<Seq<char>>,
    pub downloads: Seq<nat>,
}

impl DeepView for VersionSeries {
    type V = PointsView;

    open spec fn deep_view(&self) -> PointsView {
        PointsView {
            dates: Seq::new(self.dates@.len(), |i: int| self.dates@[i]@),
            downloads: Seq::new(self.downloads@.len(), |i: int| self.downloads@[i] as nat),
        }
    }
}

/// Why the snapshots of a module could not be regrouped.
#[derive(Debug, Clone, Copy, PartialEq, Eq)]
pub enum SnapshotError {
    /// The file at `file` is the first whose name is no calendar date.
    BadDate { file: usize },
    /// The major version at `version`, in the order of their texts, is the
    /// first that had to be read as a number and is none.
    BadMajorVersion { version: usize },
}

/// The calendar date that a snapshot is named after: the stem, without any
/// `.json` left in it, read as year, month and day.
pub open spec fn snapshot_day(stem: Seq<char>) -> Option<Seq<char>> {
    day_date(substituted(stem, ".json"@, ""@))
}

/// The snapshots by calendar date; of two snapshots of the same date the
/// later one counts. The position of the first file whose name is no date
/// stops it.
pub open spec fn snapshots_by_day(files: Seq<SnapshotView>) -> Result<
    Map<Seq<char>, Seq<SummaryView>>,
    usize,
>
    decreases files.len(),
{
    if files.len() == 0 {
        Ok(Map::empty())
    } else {
        match snapshots_by_day(files.drop_last()) {
            Err(at) => Err(at),
            Ok(days) => match snapshot_day(files.last().stem) {
                Some(day) => Ok(days.insert(day, files.last().summaries)),
                None => Err((files.len() - 1) as usize),
            },
        }
    }
}

/// The series `versions` with one more point for the major version
/// `version`: `downloads` on `day`.
pub open spec fn with_point(
    versions: Map<Seq<char>, PointsView>,
    version: Seq<char>,
    day: Seq<char>,
    downloads: nat,
) -> Map<Seq<char>, PointsView> {
    let prior = if versions.dom().contains(version) {
        versions[version]
    } else {
        PointsView { dates: Seq::empty(), downloads: Seq::empty() }
    };
    versions.insert(
        version,
        PointsView { dates: prior.dates.push(day), downloads: prior.downloads.push(downloads) },
    )
}

/// The series `versions` with one more point for each summary of the
/// snapshot of `day`, in the order of the summaries.
pub open spec fn with_snapshot(
    versions: Map<Seq<char>, PointsView>,
    day: Seq<char>,
    summaries: Seq<SummaryView>,
) -> Map<Seq<char>, PointsView>
    decreases summaries.len(),
{
    if summaries.len() == 0 {
        versions
    } else {
        with_point(
            with_snapshot(versions, day, summaries.drop_last()),
            summaries.last().major_version,
            day,
            summaries.last().downloads,
        )
    }
}

/// The snapshots regrouped by major version: where each snapshot holds many
/// versions of one day, each series holds many days of one version. The
/// points of a series come in the order of `days`.
pub open spec fn regrouped(days: Seq<(Seq<char>, Seq<SummaryView>)>) -> Map<Seq<char>, PointsView>
    decreases days.len(),
{
    if days.len() == 0 {
        Map::empty()
    } else {
        with_snapshot(regrouped(days.drop_last()), days.last().0, days.last().1)
    }
}

/// The lowest major version of a module that is charted, where there is
/// one: of `eks`, versions before 16 are left out.
pub open spec fn minimum_major(module: Seq<char>) -> Option<i32> {
    if module == "eks"@ {
        Some(16i32)
    } else {
        None
    }
}

/// The trace of one major version: named `v`, the version and `.0`, with the
/// dates of the series and beside each the downloads in decimal.
pub open spec fn version_trace(version: Seq<char>, points: PointsView) -> TraceView {
    TraceView {
        name: "v"@ + version + ".0"@,
        x: points.dates,
        y: Seq::new(points.downloads.len(), |i: int| decimal(points.downloads[i])),
    }
}

/// One trace for each major version of `versions`, in their order. Where
/// `minimum` is set, each version is read as a number and left out if it is
/// below; the position of the first that is no number stops it.
pub open spec fn version_traces(minimum: Option<i32>, versions: Seq<(Seq<char>, PointsView)>) -> Result<
    Seq<TraceView>,
    usize,
>
    decreases versions.len(),
{
    if versions.len() == 0 {
        Ok(Seq::empty())
    } else {
        match version_traces(minimum, versions.drop_last()) {
            Err(at) => Err(at),
            Ok(traces) => {
                let last = versions.last();
                match minimum {
                    None => Ok(traces.push(version_trace(last.0, last.1))),
                    Some(least) => match i32_value(last.0) {
                        None => Err((versions.len() - 1) as usize),
                        Some(n) => if n < least {
                            Ok(traces)
                        } else {
                            Ok(traces.push(version_trace(last.0, last.1)))
                        },
                    },
                }
            },
        }
    }
}

/// The traces of a module: its snapshots put in the order of their dates and
/// regrouped by major version, one trace for each major version in the order
/// of the versions' texts.
pub open spec fn module_traces(module: Seq<char>, files: Seq<SnapshotView>) -> Result<
    Seq<TraceView>,
    SnapshotError,
> {
    match snapshots_by_day(files) {
        Err(file) => Err(SnapshotError::BadDate { file }),
        Ok(days) => match version_traces(minimum_major(module), ordered(regrouped(ordered(days)))) {
            Err(version) => Err(SnapshotError::BadMajorVersion { version }),
            Ok(traces) => Ok(traces),
        },
    }
}

impl VersionSeries {
    /// A series without points.
    pub fn new() -> (series: VersionSeries)
        ensures
            series.deep_view() == (PointsView { dates: Seq::empty(), downloads: Seq::empty() }),
    {
        let series = VersionSeries { dates: Vec::new(), downloads: Vec::new() };
        assert(series.deep_view().dates =~= Seq::<Seq<char>>::empty());
        assert(series.deep_view().downloads =~= Seq::<nat>::empty());
        series
    }

    /// Adds a point at the end.
    pub fn push(&mut self, day: String, downloads: u64)
        ensures
            final(self).deep_view() == (PointsView {
                dates: old(self).deep_view().dates.push(day@),
                downloads: old(self).deep_view().downloads.push(downloads as nat),
            }),
    {
        self.dates.push(day);
        self.downloads.push(downloads);
        assert(self.deep_view().dates =~= old(self).deep_view().dates.push(day@));
        assert(self.deep_view().downloads =~= old(self).deep_view().downloads.push(
            downloads as nat,
        ));
    }
}

/// A copy of a list of summaries.
fn copy_summaries(summaries: &Vec<Summary>) -> (copy: Vec<Summary>)
    ensures
        copy.deep_view() == summaries.deep_view(),
{
    let mut copy: Vec<Summary> = Vec::new();
    let mut i: usize = 0;
    while i < summaries.len()
        invariant
            i <= summaries.len(),
            copy.len() == i,
            forall|j: int| 0 <= j < i ==> (#[trigger] copy@[j]).deep_view() == summaries@[j].deep_view(),
        decreases summaries.len() - i,
    {
        let s = &summaries[i];
        copy.push(
            Summary {
                downloads: s.downloads,
                major_version: s.major_version.clone(),
                created_at: s.created_at.clone(),
            },
        );
        i = i + 1;
    }
    assert(copy.deep_view() =~= summaries.deep_view());
    copy
}

/// The calendar date that a snapshot is named after, or `None` where its
/// name is no date.
pub fn snapshot_date(stem: &str) -> (day: Option<String>)
    ensures
        crate::dates::text_of(day) == snapshot_day(stem@),
{
    let name = substitute(stem, ".json", "");
    parse_day(name.as_str())
}

/// Once the first `n` files have stopped the ordering, so have all.
proof fn lemma_days_error_stays(files: Seq<SnapshotView>, n: int)
    requires
        0 <= n <= files.len(),
        snapshots_by_day(files.take(n)) is Err,
    ensures
        snapshots_by_day(files) == snapshots_by_day(files.take(n)),
    decreases files.len(),
{
    if n == files.len() {
        assert(files.take(n) =~= files);
    } else {
        assert(files.drop_last().take(n) =~= files.take(n));
        lemma_days_error_stays(files.drop_last(), n);
    }
}

/// Puts the snapshots of a module under their calendar dates. Fails with the
/// position of the first file whose name is no date.
pub fn order_snapshots(files: &Vec<SnapshotFile>) -> (days: Result<StringMap<Vec<Summary>>, usize>)
    ensures
        match days {
            Ok(d) => snapshots_by_day(files.deep_view()) == Ok::<_, usize>(d@),
            Err(at) => snapshots_by_day(files.deep_view()) == Err::<
                Map<Seq<char>, Seq<SummaryView>>,
                _,
            >(at),
        },
{
    let ghost all = files.deep_view();
    let mut days: StringMap<Vec<Summary>> = StringMap::new();
    let mut i: usize = 0;
    assert(all.take(0) =~= Seq::<SnapshotView>::empty());
    while i < files.len()
        invariant
            i <= files.len(),
            all == files.deep_view(),
            snapshots_by_day(all.take(i as int)) == Ok::<_, usize>(days@),
        decreases files.len() - i,
    {
        let ghost upto = all.take(i + 1);
        proof {
            assert(upto.drop_last() =~= all.take(i as int));
            assert(upto.last() == files@[i as int].deep_view());
        }
        match snapshot_date(files[i].stem.as_str()) {
            Some(day) => {
                days.insert(day, copy_summaries(&files[i].summaries));
            },
            None => {
                proof {
                    lemma_days_error_stays(all, i + 1);
                }
                return Err(i);
            },
        }
        i = i + 1;
    }
    assert(all.take(i as int) =~= all);
    Ok(days)
}

/// Adds one point to the series of a major version, which is begun if it is
/// new.
pub fn add_point(versions: &mut StringMap<VersionSeries>, version: &str, day: String, downloads: u64)
    ensures
        final(versions)@ == with_point(old(versions)@, version@, day@, downloads as nat),
{
    versions.sorted();
    proof {
        lemma_entries_map_sorted(versions.entries());
    }
    match versions.position(version) {
        Some(at) => {
            let ghost before = versions@;
            let mut series = versions.replace_at(at, VersionSeries::new());
            series.push(day, downloads);
            let ghost between = versions.entries();
            versions.replace_at(at, series);
            assert(between[at as int].0 == version@);
            assert(versions@ =~= with_point(before, version@, day@, downloads as nat));
        },
        None => {
            let mut series = VersionSeries::new();
            series.push(day, downloads);
            versions.insert(String::from_str(version), series);
        },
    }
}

/// Regroups dated snapshots by major version.
pub fn regroup(days: &StringMap<Vec<Summary>>) -> (versions: StringMap<VersionSeries>)
    ensures
        versions@ == regrouped(days.entries()),
{
    let ghost entries = days.entries();
    let mut versions: StringMap<VersionSeries> = StringMap::new();
    let mut d: usize = 0;
    assert(entries.take(0) =~= Seq::<(Seq<char>, Seq<SummaryView>)>::empty());
    while d < days.len()
        invariant
            d <= entries.len(),
            entries == days.entries(),
            versions@ == regrouped(entries.take(d as int)),
        decreases entries.len() - d,
    {
        let day = days.key_at(d);
        let summaries = days.value_at(d);
        let ghost upto = entries.take(d + 1);
        let ghost views = summaries.deep_view();
        proof {
            assert(upto.drop_last() =~= entries.take(d as int));
            assert(upto.last() == entries[d as int]);
            assert(views.take(0) =~= Seq::<SummaryView>::empty());
        }
        let ghost start = versions@;
        let mut s: usize = 0;
        while s < summaries.len()
            invariant
                s <= summaries.len(),
                views == summaries.deep_view(),
                versions@ == with_snapshot(start, day@, views.take(s as int)),
            decreases summaries.len() - s,
        {
            let ghost next = views.take(s + 1);
            proof {
                assert(next.drop_last() =~= views.take(s as int));
                assert(next.last() == summaries@[s as int].deep_view());
            }
            add_point(
                &mut versions,
                summaries[s].major_version.as_str(),
                day.clone(),
                summaries[s].downloads,
            );
            s = s + 1;
        }
        assert(views.take(s as int) =~= views);
        d = d + 1;
    }
    assert(entries.take(d as int) =~= entries);
    versions
}

/// The lowest major version of `module` that is charted, where there is one.
pub fn minimum_major_of(module: &str) -> (least: Option<i32>)
    ensures
        least == minimum_major(module@),
{
    if same_text(module, "eks") {
        Some(16)
    } else {
        None
    }
}

/// The trace of one major version.
pub fn trace_version(version: &str, series: &VersionSeries) -> (trace: TraceData)
    ensures
        trace.deep_view() == version_trace(version@, series.deep_view()),
{
    let mut name = String::from_str("v");
    name.append(version);
    name.append(".0");
    let mut x_data: Vec<String> = Vec::new();
    let mut i: usize = 0;
    while i < series.dates.len()
        invariant
            i <= series.dates.len(),
            x_data.len() == i,
            forall|j: int| 0 <= j < i ==> #[trigger] x_data@[j]@ == series.dates@[j]@,
        decreases series.dates.len() - i,
    {
        x_data.push(series.dates[i].clone());
        i = i + 1;
    }
    let mut y_data: Vec<String> = Vec::new();
    let mut k: usize = 0;
    while k < series.downloads.len()
        invariant
            k <= series.downloads.len(),
            y_data.len() == k,
            forall|j: int| 0 <= j < k ==> #[trigger] y_data@[j]@ == decimal(series.downloads@[j] as nat),
        decreases series.downloads.len() - k,
    {
        y_data.push(format_u64(series.downloads[k]));
        k = k + 1;
    }
    let trace = TraceData { name, x_data, y_data };
    proof {
        assert(trace.deep_view().x =~= version_trace(version@, series.deep_view()).x);
        assert(trace.deep_view().y =~= version_trace(version@, series.deep_view()).y);
    }
    trace
}

/// Once the first `n` versions have stopped the traces, so have all.
proof fn lemma_versions_error_stays(
    minimum: Option<i32>,
    versions: Seq<(Seq<char>, PointsView)>,
    n: int,
)
    requires
        0 <= n <= versions.len(),
        version_traces(minimum, versions.take(n)) is Err,
    ensures
        version_traces(minimum, versions) == version_traces(minimum, versions.take(n)),
    decreases versions.len(),
{
    if n == versions.len() {
        assert(versions.take(n) =~= versions);
    } else {
        assert(versions.drop_last().take(n) =~= versions.take(n));
        lemma_versions_error_stays(minimum, versions.drop_last(), n);
    }
}

/// Builds one trace for each major version, leaving out those below
/// `minimum` where it is set. Fails with the position of the first version
/// that had to be read as a number and is none.
pub fn trace_versions(minimum: Option<i32>, versions: &StringMap<VersionSeries>) -> (traces: Result<
    Vec<TraceData>,
    usize,
>)
    ensures
        match traces {
            Ok(t) => version_traces(minimum, versions.entries()) == Ok::<_, usize>(t.deep_view()),
            Err(at) => version_traces(minimum, versions.entries()) == Err::<Seq<TraceView>, _>(at),
        },
{
    let ghost entries = versions.entries();
    let mut traces: Vec<TraceData> = Vec::new();
    let mut i: usize = 0;
    assert(entries.take(0) =~= Seq::<(Seq<char>, PointsView)>::empty());
    assert(traces.deep_view() =~= Seq::<TraceView>::empty());
    while i < versions.len()
        invariant
            i <= entries.len(),
            entries == versions.entries(),
            version_traces(minimum, entries.take(i as int)) == Ok::<_, usize>(traces.deep_view()),
        decreases entries.len() - i,
    {
        let ghost upto = entries.take(i + 1);
        proof {
            assert(upto.drop_last() =~= entries.take(i as int));
            assert(upto.last() == entries[i as int]);
        }
        let version = versions.key_at(i);
        let wanted = match minimum {
            None => true,
            Some(least) => match parse_i32(version.as_str()) {
                Some(n) => n >= least,
                None => {
                    proof {
                        lemma_versions_error_stays(minimum, entries, i + 1);
                    }
                    return Err(i);
                },
            },
        };
        if wanted {
            let trace = trace_version(version.as_str(), versions.value_at(i));
            let ghost before = traces.deep_view();
            traces.push(trace);
            assert(traces.deep_view() =~= before.push(trace.deep_view()));
        }
        i = i + 1;
    }
    assert(entries.take(i as int) =~= entries);
    Ok(traces)
}

/// Builds the traces of a module from its snapshots: one trace for each
/// major version, its points in the order of their dates.
pub fn get_module_data_traces(module: &str, files: &Vec<SnapshotFile>) -> (traces: Result<
    Vec<TraceData>,
    SnapshotError,
>)
    ensures
        match traces {
            Ok(t) => module_traces(module@, files.deep_view()) == Ok::<_, SnapshotError>(
                t.deep_view(),
            ),
            Err(e) => module_traces(module@, files.deep_view()) == Err::<Seq<TraceView>, _>(e),
        },
{
    let days = match order_snapshots(files) {
        Ok(days) => days,
        Err(file) => {
            return Err(SnapshotError::BadDate { file });
        },
    };
    days.sorted();
    let versions = regroup(&days);
    versions.sorted();
    match trace_versions(minimum_major_of(module), &versions) {
        Ok(traces) => Ok(traces),
        Err(version) => Err(SnapshotError::BadMajorVersion { version }),
    }
}

/// A module and the snapshots of its downloads.
#[derive(Debug, Clone, PartialEq, Eq)]
pub struct ModuleSnapshots {
    pub name: String,
    pub files: Vec<SnapshotFile>,
}

/// What [`ModuleSnapshots`] hold.
pub struct ModuleSnapshotsView {
    pub name: Seq<char>,
    pub files: Seq<SnapshotView>,
}

impl DeepView for ModuleSnapshots {
    type V = ModuleSnapshotsView;

    open spec fn deep_view(&self) -> ModuleSnapshotsView {
        ModuleSnapshotsView { name: self.name@, files: self.files.deep_view() }
    }
}

/// The error of the module at `module`, told with the module's position.
pub open spec fn module_error(module: usize, e: SnapshotError) -> GraphError {
    match e {
        SnapshotError::BadDate { file } => GraphError::BadSnapshotDate { module, file },
        SnapshotError::BadMajorVersion { version } => GraphError::BadMajorVersion {
            module,
            version,
        },
    }
}

/// The traces of all modules by module name; of two modules of the same
/// name the later one counts. The first module whose traces cannot be built
/// stops it.
pub open spec fn collected_traces(modules: Seq<ModuleSnapshotsView>) -> Result<
    Map<Seq<char>, Seq<TraceView>>,
    GraphError,
>
    decreases modules.len(),
{
    if modules.len() == 0 {
        Ok(Map::empty())
    } else {
        match collected_traces(modules.drop_last()) {
            Err(e) => Err(e),
            Ok(found) => match module_traces(modules.last().name, modules.last().files) {
                Ok(traces) => Ok(found.insert(modules.last().name, traces)),
                Err(e) => Err(module_error((modules.len() - 1) as usize, e)),
            },
        }
    }
}

/// Once the first `n` modules have stopped the collection, so have all.
proof fn lemma_collection_error_stays(modules: Seq<ModuleSnapshotsView>, n: int)
    requires
        0 <= n <= modules.len(),
        collected_traces(modules.take(n)) is Err,
    ensures
        collected_traces(modules) == collected_traces(modules.take(n)),
    decreases modules.len(),
{
    if n == modules.len() {
        assert(modules.take(n) =~= modules);
    } else {
        assert(modules.drop_last().take(n) =~= modules.take(n));
        lemma_collection_error_stays(modules.drop_last(), n);
    }
}

/// Builds the traces of every module and keeps them by module name.
pub fn collect_trace_data(modules: &Vec<ModuleSnapshots>) -> (found: Result<
    StringMap<Vec<TraceData>>,
    GraphError,
>)
    ensures
        match found {
            Ok(f) => collected_traces(modules.deep_view()) == Ok::<_, GraphError>(f@),
            Err(e) => collected_traces(modules.deep_view()) == Err::<
                Map<Seq<char>, Seq<TraceView>>,
                _,
            >(e),
        },
{
    let ghost all = modules.deep_view();
    let mut found: StringMap<Vec<TraceData>> = StringMap::new();
    let mut i: usize = 0;
    assert(all.take(0) =~= Seq::<ModuleSnapshotsView>::empty());
    while i < modules.len()
        invariant
            i <= modules.len(),
            all == modules.deep_view(),
            collected_traces(all.take(i as int)) == Ok::<_, GraphError>(found@),
        decreases modules.len() - i,
    {
        let ghost upto = all.take(i + 1);
        proof {
            assert(upto.drop_last() =~= all.take(i as int));
            assert(upto.last() == modules@[i as int].deep_view());
        }
        let module = &modules[i];
        match get_module_data_traces(module.name.as_str(), &module.files) {
            Ok(traces) => {
                found.insert(module.name.clone(), traces);
            },
            Err(e) => {
                proof {
                    lemma_collection_error_stays(all, i + 1);
                }
                return Err(
                    match e {
                        SnapshotError::BadDate { file } => GraphError::BadSnapshotDate {
                            module: i,
                            file,
                        },
                        SnapshotError::BadMajorVersion { version } => GraphError::BadMajorVersion {
                            module: i,
                            version,
                        },
                    },
                );
            },
        }
        i = i + 1;
    }
    assert(all.take(i as int) =~= all);
    Ok(found)
}

/// A module and the chart of its downloads.
#[derive(Debug, Clone, PartialEq, Eq)]
pub struct ModuleChart {
    pub module: String,
    pub chart: Chart,
}

/// What a [`ModuleChart`] holds.
pub struct ModuleChartView {
    pub module: Seq<char>,
    pub chart: ChartView,
}

impl DeepView for ModuleChart {
    type V = ModuleChartView;

    open spec fn deep_view(&self) -> ModuleChartView {
        ModuleChartView { module: self.module@, chart: self.chart.deep_view() }
    }
}

/// The title of the chart of a module's downloads, which is also the
/// chart's name.
pub open spec fn downloads_title(module: Seq<char>) -> Seq<char> {
    module + " - "@ + "Terraform Registry Downloads"@
}

/// The chart of a module's downloads: its traces as markers, with the dates
/// on one axis and the downloads on the other.
pub open spec fn downloads_chart(module: Seq<char>, traces: Seq<TraceView>) -> ModuleChartView {
    ModuleChartView {
        module,
        chart: time_series(
            downloads_title(module),
            traces,
            TitlesView {
                title: downloads_title(module),
                x_title: "Date"@,
                y_title: "Total Downloads"@,
            },
            Mode::Markers,
        ),
    }
}

/// One chart for each module, in the order of `found`.
pub open spec fn downloads_charts(found: Seq<(Seq<char>, Seq<TraceView>)>) -> Seq<ModuleChartView> {
    Seq::new(found.len(), |i: int| downloads_chart(found[i].0, found[i].1))
}

/// The charts of the report on registry downloads: the traces of all
/// modules, and one chart for each module in the order of the module names.
pub open spec fn registry_charts(modules: Seq<ModuleSnapshotsView>) -> Result<
    Seq<ModuleChartView>,
    GraphError,
> {
    match collected_traces(modules) {
        Err(e) => Err(e),
        Ok(found) => Ok(downloads_charts(ordered(found))),
    }
}

/// Describes the chart of a module's downloads.
pub fn chart_downloads(module: String, traces: Vec<TraceData>) -> (chart: ModuleChart)
    ensures
        chart.deep_view() == downloads_chart(module@, traces.deep_view()),
{
    let mut title = module.clone();
    title.append(" - ");
    title.append("Terraform Registry Downloads");
    let titles = Titles {
        title: title.clone(),
        x_title: String::from_str("Date"),
        y_title: String::from_str("Total Downloads"),
    };
    let chart = time_series_chart(title.as_str(), traces, titles, Mode::Markers);
    ModuleChart { module, chart }
}

/// Describes the charts of the report on registry downloads, one for each
/// module in the order of the module names.
pub fn graph_downloads(modules: &Vec<ModuleSnapshots>) -> (charts: Result<
    Vec<ModuleChart>,
    GraphError,
>)
    ensures
        match charts {
            Ok(c) => registry_charts(modules.deep_view()) == Ok::<_, GraphError>(c.deep_view()),
            Err(e) => registry_charts(modules.deep_view()) == Err::<Seq<ModuleChartView>, _>(e),
        },
{
    let found = match collect_trace_data(modules) {
        Ok(found) => found,
        Err(e) => {
            return Err(e);
        },
    };
    found.sorted();
    let ghost entries = found.entries();
    let mut items = found.into_items();
    let ghost all = items@;
    let mut charts: Vec<ModuleChart> = Vec::new();
    while items.len() > 0
        invariant
            charts.len() + items.len() == all.len(),
            all.len() == entries.len(),
            forall|j: int|
                0 <= j < all.len() ==> (#[trigger] all[j]).0@ == entries[j].0 && all[j].1.deep_view()
                    == entries[j].1,
            forall|j: int| 0 <= j < items.len() ==> #[trigger] items@[j] == all[charts.len() + j],
            forall|j: int|
                0 <= j < charts.len() ==> (#[trigger] charts@[j]).deep_view() == downloads_chart(
                    entries[j].0,
                    entries[j].1,
                ),
        decreases items.len(),
    {
        let ghost left = items@;
        let (module, traces) = items.remove(0);
        assert((module, traces) == left[0]);
        assert forall|j: int| 0 <= j < items.len() implies #[trigger] items@[j] == all[charts.len()
            + 1 + j] by {
            assert(items@[j] == left[j + 1]);
        }
        charts.push(chart_downloads(module, traces));
    }
    assert(charts.deep_view() =~= downloads_charts(entries));
    Ok(charts)
}

/// The markup of one module's chart, as a renderer made it.
#[derive(Debug, Clone, PartialEq, Eq)]
pub struct Section {
    pub module: String,
    pub markup: String,
}

/// What a [`Section`] holds.
pub struct SectionView {
    pub module: Seq<char>,
    pub markup: Seq<char>,
}

impl DeepView for Section {
    type V = SectionView;

    open spec fn deep_view(&self) -> SectionView {
        SectionView { module: self.module@, markup: self.markup@ }
    }
}

/// The body of the report on downloads: for each module a heading of the
/// second level, an empty line, the chart and another empty line.
pub open spec fn downloads_body(sections: Seq<SectionView>) -> Seq<char>
    decreases sections.len(),
{
    if sections.len() == 0 {
        Seq::empty()
    } else {
        downloads_body(sections.drop_last()) + "## "@ + sections.last().module + "\n\n"@
            + sections.last().markup + "\n\n"@
    }
}

/// The report on downloads: the template with the body, then the date, put
/// in place of their placeholders.
pub open spec fn downloads_page(
    template: Seq<char>,
    timestamp: Seq<char>,
    sections: Seq<SectionView>,
) -> Seq<char> {
    substituted(
        substituted(template, "{{ body }}"@, downloads_body(sections)),
        "{{ date }}"@,
        timestamp,
    )
}

/// Fills the template of the report on downloads.
pub fn render_downloads_page(template: &str, timestamp: &str, sections: &Vec<Section>) -> (page:
    String)
    ensures
        page@ == downloads_page(template@, timestamp@, sections.deep_view()),
{
    let ghost all = sections.deep_view();
    let mut body = String::new();
    let mut i: usize = 0;
    assert(all.take(0) =~= Seq::<SectionView>::empty());
    while i < sections.len()
        invariant
            i <= sections.len(),
            all == sections.deep_view(),
            body@ == downloads_body(all.take(i as int)),
        decreases sections.len() - i,
    {
        let ghost upto = all.take(i + 1);
        proof {
            assert(upto.drop_last() =~= all.take(i as int));
            assert(upto.last() == sections@[i as int].deep_view());
        }
        body.append("## ");
        body.append(sections[i].module.as_str());
        body.append("\n\n");
        body.append(sections[i].markup.as_str());
        body.append("\n\n");
        i = i + 1;
    }
    assert(all.take(i as int) =~= all);
    let with_body = substitute(template, "{{ body }}", body.as_str());
    substitute(with_body.as_str(), "{{ date }}", timestamp)
}

/// The address of the registry's record of a module, as it is put together.
pub open spec fn registry_address(module: Seq<char>) -> Seq<char> {
    "https://registry.terraform.io/v2/modules/terraform-aws-modules/"@ + module + "/aws"@
}

/// The address that the registry's record of a module is fetched from, with
/// the request to include the module's versions, written in full; `None`
/// where the module's name makes it no address.
pub fn registry_url(module: &str) -> (url: Option<String>)
    ensures
        crate::dates::text_of(url) == absolute_url_with(
            registry_address(module@),
            "include"@,
            "module-versions"@,
        ),
{
    let mut url = String::from_str("https://registry.terraform.io/v2/modules/terraform-aws-modules/");
    url.append(module);
    url.append("/aws");
    address_with(url.as_str(), "include", "module-versions")
}

/// The name of the file that holds the snapshot of `day`.
pub fn snapshot_file_name(day: &str) -> (name: String)
    ensures
        name@ == day@ + ".json"@,
{
    let mut name = String::from_str(day);
    name.append(".json");
    name
}

/// No date comes before one that stands earlier in `dates`.
pub open spec fn ascending(dates: Seq<Seq<char>>) -> bool {
    forall|i: int, j: int|
        0 <= i < j < dates.len() ==> #[trigger] dates[i] == #[trigger] dates[j] || text_lt(
            dates[i],
            dates[j],
        )
}

/// No date of `dates` comes after `day`.
spec fn none_after(dates: Seq<Seq<char>>, day: Seq<char>) -> bool {
    forall|i: int| 0 <= i < dates.len() ==> #[trigger] dates[i] == day || text_lt(dates[i], day)
}

/// The dates of every series ascend and none comes after `day`.
spec fn in_order_until(versions: Map<Seq<char>, PointsView>, day: Seq<char>) -> bool {
    forall|v: Seq<char>| #[trigger]
        versions.dom().contains(v) ==> ascending(versions[v].dates) && none_after(
            versions[v].dates,
            day,
        )
}

proof fn lemma_snapshot_in_order(
    versions: Map<Seq<char>, PointsView>,
    day: Seq<char>,
    summaries: Seq<SummaryView>,
)
    requires
        in_order_until(versions, day),
        versions.dom().finite(),
    ensures
        in_order_until(with_snapshot(versions, day, summaries), day),
        with_snapshot(versions, day, summaries).dom().finite(),
    decreases summaries.len(),
{
    if summaries.len() > 0 {
        lemma_snapshot_in_order(versions, day, summaries.drop_last());
        let before = with_snapshot(versions, day, summaries.drop_last());
        let version = summaries.last().major_version;
        let after = with_point(before, version, day, summaries.last().downloads);
        assert forall|v: Seq<char>| #[trigger] after.dom().contains(v) implies ascending(
            after[v].dates,
        ) && none_after(after[v].dates, day) by {
            if v != version {
                assert(before.dom().contains(v));
            } else if before.dom().contains(version) {
                let old_dates = before[version].dates;
                assert(ascending(old_dates) && none_after(old_dates, day));
                assert(after[v].dates == old_dates.push(day));
            }
        }
    }
}

/// Regrouping snapshots that stand in the order of their dates gives series
/// whose dates ascend; a date occurs again where a snapshot holds a major
/// version more than once.
pub proof fn lemma_regrouped_dates_ascend(days: Seq<(Seq<char>, Seq<SummaryView>)>)
    requires
        strictly_sorted(days),
    ensures
        regrouped(days).dom().finite(),
        forall|v: Seq<char>| #[trigger]
            regrouped(days).dom().contains(v) ==> ascending(regrouped(days)[v].dates),
{
    lemma_regrouped_in_order(days);
}

proof fn lemma_regrouped_in_order(days: Seq<(Seq<char>, Seq<SummaryView>)>)
    requires
        strictly_sorted(days),
    ensures
        regrouped(days).dom().finite(),
        forall|v: Seq<char>| #[trigger]
            regrouped(days).dom().contains(v) ==> ascending(regrouped(days)[v].dates),
        days.len() > 0 ==> in_order_until(regrouped(days), days.last().0),
    decreases days.len(),
{
    if days.len() > 0 {
        let front = days.drop_last();
        let day = days.last().0;
        assert forall|i: int, j: int| 0 <= i < j < front.len() implies text_lt(
            #[trigger] front[i].0,
            #[trigger] front[j].0,
        ) by {
            assert(front[i] == days[i] && front[j] == days[j]);
        }
        lemma_regrouped_in_order(front);
        let before = regrouped(front);
        assert(in_order_until(before, day)) by {
            if front.len() > 0 {
                let earlier = front.last().0;
                assert(front.last() == days[days.len() - 2]);
                assert(text_lt(days[days.len() - 2].0, days[days.len() - 1].0));
                assert forall|v: Seq<char>| #[trigger] before.dom().contains(v) implies none_after(
                    before[v].dates,
                    day,
                ) by {
                    let dates = before[v].dates;
                    assert(none_after(dates, earlier));
                    assert forall|i: int| 0 <= i < dates.len() implies #[trigger] dates[i] == day
                        || text_lt(dates[i], day) by {
                        if dates[i] != earlier {
                            lemma_text_lt_transitive(dates[i], earlier, day);
                        }
                    }
                }
            }
        }
        lemma_snapshot_in_order(before, day, days.last().1);
    }
}

/// Every trace is that of one of the versions.
proof fn lemma_traces_come_from_versions(
    minimum: Option<i32>,
    versions: Seq<(Seq<char>, PointsView)>,
    t: int,
) -> (at: int)
    requires
        version_traces(minimum, versions) is Ok,
        0 <= t < version_traces(minimum, versions)->Ok_0.len(),
    ensures
        0 <= at < versions.len(),
        version_traces(minimum, versions)->Ok_0[t] == version_trace(versions[at].0, versions[at].1),
    decreases versions.len(),
{
    let front = versions.drop_last();
    let before = version_traces(minimum, front)->Ok_0;
    if t < before.len() {
        let at = lemma_traces_come_from_versions(minimum, front, t);
        assert(front[at] == versions[at]);
        at
    } else {
        versions.len() - 1
    }
}

/// The dates of every trace of a module ascend, as texts: no point stands
/// before a point of an earlier date.
pub proof fn lemma_module_trace_dates_ascend(module: Seq<char>, files: Seq<SnapshotView>, t: int)
    requires
        module_traces(module, files) is Ok,
        0 <= t < module_traces(module, files)->Ok_0.len(),
    ensures
        ascending(module_traces(module, files)->Ok_0[t].x),
{
    let days = snapshots_by_day(files)->Ok_0;
    lemma_days_finite(files);
    lemma_ordered_exists(days);
    lemma_regrouped_dates_ascend(ordered(days));
    let versions = regrouped(ordered(days));
    lemma_ordered_exists(versions);
    let listed = ordered(versions);
    lemma_entries_map_sorted(listed);
    let at = lemma_traces_come_from_versions(minimum_major(module), listed, t);
    assert(has_key(listed, listed[at].0));
    assert(versions.dom().contains(listed[at].0));
    assert(versions[listed[at].0] == listed[at].1);
}

/// The snapshots by day are finitely many.
proof fn lemma_days_finite(files: Seq<SnapshotView>)
    requires
        snapshots_by_day(files) is Ok,
    ensures
        snapshots_by_day(files)->Ok_0.dom().finite(),
    decreases files.len(),
{
    if files.len() > 0 {
        lemma_days_finite(files.drop_last());
    }
}

} // verus!

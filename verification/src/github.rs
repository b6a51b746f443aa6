//! Repository traffic: daily samples of page views and clones, and the
//! series that collects them by calendar date.

use vstd::prelude::*;
use crate::address::{absolute_url, address};
use crate::category::{chart_label, chart_label_of, is_selected, selected, Category};
use crate::dates::{rfc3339_date, timestamp_date};
use crate::graph::{
    time_series, time_series_chart, CategoryCharts, CategoryChartsView, Chart, ChartView,
    GraphError, Mode, Titles, TitlesView, TraceData, TraceView,
};
use crate::label::{capitalized, identifier, identifier_of};
use crate::number::{decimal, format_u64};
use crate::ordered::{strictly_sorted, StringMap};
use crate::text::{same_text, text_lt};
use crate::titlecase;

verus! {

/// The traffic of one day: how often, and by how many distinct visitors.
#[derive(Debug, Clone, PartialEq, Eq)]
pub struct Sample {
    pub count: u64,
    pub timestamp: String,
    pub uniques: u64,
}

/// What a [`Sample`] holds.
pub struct SampleView {
    pub count: nat,
    pub timestamp: Seq<char>,
    pub uniques: nat,
}

impl DeepView for Sample {
    type V = SampleView;

    open spec fn deep_view(&self) -> SampleView {
        SampleView {
            count: self.count as nat,
            timestamp: self.timestamp@,
            uniques: self.uniques as nat,
        }
    }
}

impl Sample {
    /// A sample that holds the same as this one.
    pub fn duplicate(&self) -> (copy: Sample)
        ensures
            copy.deep_view() == self.deep_view(),
    {
        Sample { count: self.count, timestamp: self.timestamp.clone(), uniques: self.uniques }
    }
}

/// The page views of a repository over the last days.
#[derive(Debug, Clone, PartialEq, Eq)]
pub struct PageViewsResponse {
    pub count: u64,
    pub uniques: u64,
    pub views: Vec<Sample>,
}

/// The clones of a repository over the last days.
#[derive(Debug, Clone, PartialEq, Eq)]
pub struct RepositoryCloneResponse {
    pub count: u64,
    pub uniques: u64,
    pub clones: Vec<Sample>,
}

/// Why traffic could not be taken in.
#[derive(Debug, Clone, Copy, PartialEq, Eq)]
pub enum TrafficError {
    /// The sample at `index` is the first whose time is no RFC 3339
    /// timestamp.
    BadTimestamp { index: usize },
    /// The traffic of this module is not open to the collector.
    NoAccess,
    /// The address of the module's traffic is no address.
    BadAddress,
}

/// The series `existing` after the samples of `batch`, taken one after the
/// other: each is stored under the calendar date of its timestamp, in place
/// of what was stored there. The first sample without a date stops it.
pub open spec fn merge_samples(existing: Map<Seq<char>, SampleView>, batch: Seq<SampleView>) -> Result<
    Map<Seq<char>, SampleView>,
    TrafficError,
>
    decreases batch.len(),
{
    if batch.len() == 0 {
        Ok(existing)
    } else {
        match merge_samples(existing, batch.drop_last()) {
            Err(e) => Err(e),
            Ok(m) => match rfc3339_date(batch.last().timestamp) {
                Some(date) => Ok(m.insert(date, batch.last())),
                None => Err(TrafficError::BadTimestamp { index: (batch.len() - 1) as usize }),
            },
        }
    }
}

/// The series to start from: the one found, or an empty one where none has
/// been stored yet.
pub fn current_series(found: Option<StringMap<Sample>>) -> (series: StringMap<Sample>)
    ensures
        series@ == match found {
            Some(s) => s@,
            None => Map::<Seq<char>, SampleView>::empty(),
        },
{
    match found {
        Some(series) => series,
        None => StringMap::new(),
    }
}

/// Merges freshly fetched samples into a series: each sample is stored under
/// the calendar date of its timestamp, a later one in place of an earlier
/// one. Dates of the series that the samples do not touch stay.
pub fn merge(current: StringMap<Sample>, samples: Vec<Sample>) -> (merged: Result<
    StringMap<Sample>,
    TrafficError,
>)
    ensures
        match merged {
            Ok(m) => merge_samples(current@, samples.deep_view()) == Ok::<_, TrafficError>(m@),
            Err(e) => merge_samples(current@, samples.deep_view()) == Err::<
                Map<Seq<char>, SampleView>,
                _,
            >(e),
        },
{
    let mut series = current;
    let ghost batch = samples.deep_view();
    let mut i: usize = 0;
    assert(batch.take(0) =~= Seq::<SampleView>::empty());
    while i < samples.len()
        invariant
            i <= samples.len(),
            batch == samples.deep_view(),
            merge_samples(current@, batch.take(i as int)) == Ok::<_, TrafficError>(series@),
        decreases samples.len() - i,
    {
        let ghost upto = batch.take(i + 1);
        proof {
            assert(upto.drop_last() =~= batch.take(i as int));
            assert(upto.last() == samples@[i as int].deep_view());
        }
        match timestamp_date(samples[i].timestamp.as_str()) {
            Some(date) => {
                series.insert(date, samples[i].duplicate());
            },
            None => {
                proof {
                    lemma_merge_error_stays(current@, batch, i + 1);
                }
                return Err(TrafficError::BadTimestamp { index: i });
            },
        }
        i = i + 1;
    }
    assert(batch.take(i as int) =~= batch);
    Ok(series)
}

impl PageViewsResponse {
    /// The series `current` with the views of this response merged in.
    pub fn summarize(self, current: StringMap<Sample>) -> (merged: Result<
        StringMap<Sample>,
        TrafficError,
    >)
        ensures
            match merged {
                Ok(m) => merge_samples(current@, self.views.deep_view()) == Ok::<_, TrafficError>(
                    m@,
                ),
                Err(e) => merge_samples(current@, self.views.deep_view()) == Err::<
                    Map<Seq<char>, SampleView>,
                    _,
                >(e),
            },
    {
        merge(current, self.views)
    }
}

impl RepositoryCloneResponse {
    /// The series `current` with the clones of this response merged in.
    pub fn summarize(self, current: StringMap<Sample>) -> (merged: Result<
        StringMap<Sample>,
        TrafficError,
    >)
        ensures
            match merged {
                Ok(m) => merge_samples(current@, self.clones.deep_view()) == Ok::<_, TrafficError>(
                    m@,
                ),
                Err(e) => merge_samples(current@, self.clones.deep_view()) == Err::<
                    Map<Seq<char>, SampleView>,
                    _,
                >(e),
            },
    {
        merge(current, self.clones)
    }
}

/// Once the first `n` samples have stopped a merge, so has the whole batch.
proof fn lemma_merge_error_stays(
    existing: Map<Seq<char>, SampleView>,
    batch: Seq<SampleView>,
    n: int,
)
    requires
        0 <= n <= batch.len(),
        merge_samples(existing, batch.take(n)) is Err,
    ensures
        merge_samples(existing, batch) == merge_samples(existing, batch.take(n)),
    decreases batch.len(),
{
    if n == batch.len() {
        assert(batch.take(n) =~= batch);
    } else {
        assert(batch.drop_last().take(n) =~= batch.take(n));
        lemma_merge_error_stays(existing, batch.drop_last(), n);
    }
}

/// The calendar date under which a sample is stored.
pub open spec fn sample_date(s: SampleView) -> Option<Seq<char>> {
    rfc3339_date(s.timestamp)
}

/// Some sample of `batch` has the date `date`.
pub open spec fn date_occurs(batch: Seq<SampleView>, date: Seq<char>) -> bool {
    exists|i: int| 0 <= i < batch.len() && sample_date(#[trigger] batch[i]) == Some(date)
}

/// No sample after the one at `i` has the same date.
pub open spec fn last_of_its_date(batch: Seq<SampleView>, i: int) -> bool {
    forall|j: int| i < j < batch.len() ==> sample_date(#[trigger] batch[j]) != sample_date(batch[i])
}

/// No two samples of `batch` have the same date.
pub open spec fn dates_distinct(batch: Seq<SampleView>) -> bool {
    forall|i: int, j: int|
        0 <= i < j < batch.len() ==> sample_date(#[trigger] batch[i]) != sample_date(
            #[trigger] batch[j],
        )
}

/// Whether a batch can be merged depends on the batch alone.
pub proof fn lemma_merge_ok_any_start(
    a: Map<Seq<char>, SampleView>,
    b: Map<Seq<char>, SampleView>,
    batch: Seq<SampleView>,
)
    requires
        merge_samples(a, batch) is Ok,
    ensures
        merge_samples(b, batch) is Ok,
        forall|i: int| 0 <= i < batch.len() ==> sample_date(#[trigger] batch[i]) is Some,
    decreases batch.len(),
{
    if batch.len() > 0 {
        lemma_merge_ok_any_start(a, b, batch.drop_last());
        assert forall|i: int| 0 <= i < batch.len() implies sample_date(#[trigger] batch[i])
            is Some by {
            if i < batch.len() - 1 {
                assert(batch.drop_last()[i] == batch[i]);
            }
        }
    }
}

/// Among the samples with a given date there is a last one.
proof fn lemma_last_occurrence(batch: Seq<SampleView>, date: Seq<char>) -> (i: int)
    requires
        date_occurs(batch, date),
    ensures
        0 <= i < batch.len(),
        sample_date(batch[i]) == Some(date),
        last_of_its_date(batch, i),
    decreases batch.len(),
{
    let n = batch.len() - 1;
    if sample_date(batch[n]) == Some(date) {
        n
    } else {
        let front = batch.drop_last();
        let w = choose|w: int| 0 <= w < batch.len() && sample_date(#[trigger] batch[w]) == Some(date);
        assert(front[w] == batch[w]);
        let i = lemma_last_occurrence(front, date);
        assert(front[i] == batch[i]);
        assert forall|j: int| i < j < batch.len() implies sample_date(#[trigger] batch[j])
            != sample_date(batch[i]) by {
            if j < n {
                assert(front[j] == batch[j]);
            }
        }
        i
    }
}

/// What a merged series holds, said without reference to the order of the
/// samples. Its dates are those of the series before and those of the
/// samples: no date is lost. A date that no sample has keeps its entry.
/// A date that some sample has holds the last sample with that date.
pub proof fn lemma_merge_contents(existing: Map<Seq<char>, SampleView>, batch: Seq<SampleView>)
    requires
        merge_samples(existing, batch) is Ok,
    ensures
        forall|k: Seq<char>| #[trigger]
            merge_samples(existing, batch)->Ok_0.dom().contains(k) <==> existing.dom().contains(k)
                || date_occurs(batch, k),
        forall|k: Seq<char>|
            existing.dom().contains(k) && !date_occurs(batch, k) ==> #[trigger] merge_samples(
                existing,
                batch,
            )->Ok_0[k] == existing[k],
        forall|i: int|
            0 <= i < batch.len() && last_of_its_date(batch, i) ==> sample_date(batch[i]) is Some
                && merge_samples(existing, batch)->Ok_0[sample_date(batch[i])->Some_0]
                == #[trigger] batch[i],
    decreases batch.len(),
{
    let m = merge_samples(existing, batch)->Ok_0;
    if batch.len() == 0 {
        assert forall|k: Seq<char>| !date_occurs(batch, k) by {}
    } else {
        let front = batch.drop_last();
        let n = batch.len() - 1;
        let m0 = merge_samples(existing, front)->Ok_0;
        let date = sample_date(batch[n])->Some_0;
        lemma_merge_contents(existing, front);
        assert forall|k: Seq<char>| date_occurs(batch, k) <==> date_occurs(front, k) || k
            == date by {
            if date_occurs(batch, k) {
                let i = choose|i: int|
                    0 <= i < batch.len() && sample_date(#[trigger] batch[i]) == Some(k);
                if i < n {
                    assert(front[i] == batch[i]);
                }
            }
            if date_occurs(front, k) {
                let i = choose|i: int|
                    0 <= i < front.len() && sample_date(#[trigger] front[i]) == Some(k);
                assert(batch[i] == front[i]);
            }
            if k == date {
                assert(sample_date(batch[n]) == Some(k));
            }
        }
        assert forall|i: int| 0 <= i < batch.len() && last_of_its_date(batch, i) implies sample_date(
            batch[i],
        ) is Some && m[sample_date(batch[i])->Some_0] == #[trigger] batch[i] by {
            if i < n {
                assert(front[i] == batch[i]);
                assert(sample_date(batch[n]) != sample_date(batch[i]));
                assert forall|j: int| i < j < front.len() implies sample_date(#[trigger] front[j])
                    != sample_date(front[i]) by {
                    assert(front[j] == batch[j]);
                }
                assert(last_of_its_date(front, i));
            }
        }
    }
}

/// Merging the same samples a second time changes nothing.
pub proof fn lemma_merge_idempotent(existing: Map<Seq<char>, SampleView>, batch: Seq<SampleView>)
    requires
        merge_samples(existing, batch) is Ok,
    ensures
        merge_samples(merge_samples(existing, batch)->Ok_0, batch) == merge_samples(existing, batch),
{
    let once = merge_samples(existing, batch)->Ok_0;
    lemma_merge_ok_any_start(existing, once, batch);
    let twice = merge_samples(once, batch)->Ok_0;
    lemma_merge_contents(existing, batch);
    lemma_merge_contents(once, batch);
    assert forall|k: Seq<char>| twice.dom().contains(k) implies twice[k] == once[k] by {
        if date_occurs(batch, k) {
            let i = lemma_last_occurrence(batch, k);
            assert(twice[sample_date(batch[i])->Some_0] == batch[i]);
            assert(once[sample_date(batch[i])->Some_0] == batch[i]);
        } else {
            assert(once.dom().contains(k));
        }
    }
    assert(twice =~= once);
}

/// Merging samples whose dates differ from each other and from every date
/// of the series adds one entry for each sample.
pub proof fn lemma_merge_new_dates(existing: Map<Seq<char>, SampleView>, batch: Seq<SampleView>)
    requires
        merge_samples(existing, batch) is Ok,
        existing.dom().finite(),
        dates_distinct(batch),
        forall|k: Seq<char>| existing.dom().contains(k) ==> !date_occurs(batch, k),
    ensures
        merge_samples(existing, batch)->Ok_0.dom().finite(),
        merge_samples(existing, batch)->Ok_0.dom().len() == existing.dom().len() + batch.len(),
    decreases batch.len(),
{
    if batch.len() > 0 {
        let front = batch.drop_last();
        let n = batch.len() - 1;
        let m0 = merge_samples(existing, front)->Ok_0;
        let date = sample_date(batch[n])->Some_0;
        assert forall|i: int, j: int| 0 <= i < j < front.len() implies sample_date(
            #[trigger] front[i],
        ) != sample_date(#[trigger] front[j]) by {
            assert(front[i] == batch[i] && front[j] == batch[j]);
        }
        assert forall|k: Seq<char>| existing.dom().contains(k) implies !date_occurs(front, k) by {
            if date_occurs(front, k) {
                let i = choose|i: int|
                    0 <= i < front.len() && sample_date(#[trigger] front[i]) == Some(k);
                assert(batch[i] == front[i]);
                assert(date_occurs(batch, k));
            }
        }
        lemma_merge_new_dates(existing, front);
        lemma_merge_contents(existing, front);
        assert(!m0.dom().contains(date)) by {
            assert(sample_date(batch[n]) == Some(date));
            assert(date_occurs(batch, date));
            if date_occurs(front, date) {
                let i = choose|i: int|
                    0 <= i < front.len() && sample_date(#[trigger] front[i]) == Some(date);
                assert(batch[i] == front[i]);
                assert(sample_date(batch[i]) != sample_date(batch[n]));
            }
        }
    }
}

/// Merging samples whose dates are all dates of the series leaves the number
/// of entries as it was, and puts under each of these dates the last sample
/// that has it.
pub proof fn lemma_merge_known_dates(existing: Map<Seq<char>, SampleView>, batch: Seq<SampleView>)
    requires
        merge_samples(existing, batch) is Ok,
        forall|k: Seq<char>| date_occurs(batch, k) ==> existing.dom().contains(k),
    ensures
        merge_samples(existing, batch)->Ok_0.dom() == existing.dom(),
        merge_samples(existing, batch)->Ok_0.dom().len() == existing.dom().len(),
        forall|i: int|
            0 <= i < batch.len() && last_of_its_date(batch, i) ==> sample_date(batch[i]) is Some
                && merge_samples(existing, batch)->Ok_0[sample_date(batch[i])->Some_0]
                == #[trigger] batch[i],
{
    lemma_merge_contents(existing, batch);
    assert(merge_samples(existing, batch)->Ok_0.dom() =~= existing.dom());
}

/// A module and the series of one kind of its traffic.
#[derive(Debug)]
pub struct ModuleSeries {
    pub name: String,
    pub series: StringMap<Sample>,
}

/// What a [`ModuleSeries`] holds: the module's name and the entries of the
/// series in date order.
pub struct ModuleView {
    pub name: Seq<char>,
    pub entries: Seq<(Seq<char>, SampleView)>,
}

impl DeepView for ModuleSeries {
    type V = ModuleView;

    open spec fn deep_view(&self) -> ModuleView {
        ModuleView { name: self.name@, entries: self.series.entries() }
    }
}

/// Every sample of `entries` has a calendar date.
pub open spec fn dates_known(entries: Seq<(Seq<char>, SampleView)>) -> bool {
    forall|i: int| 0 <= i < entries.len() ==> sample_date(#[trigger] entries[i].1) is Some
}

/// The position of the first sample without a calendar date, or the length
/// of `entries` where every sample has one.
pub open spec fn first_undated(entries: Seq<(Seq<char>, SampleView)>) -> int
    decreases entries.len(),
{
    if entries.len() == 0 || sample_date(entries[0].1) is None {
        0
    } else {
        1 + first_undated(entries.drop_first())
    }
}

/// The trace of a series: for each entry, in order, the calendar date of the
/// sample's timestamp and beside it the sample's count in decimal.
pub open spec fn series_trace(name: Seq<char>, entries: Seq<(Seq<char>, SampleView)>) -> TraceView {
    TraceView {
        name,
        x: Seq::new(entries.len(), |i: int| sample_date(entries[i].1)->Some_0),
        y: Seq::new(entries.len(), |i: int| decimal(entries[i].1.count)),
    }
}

/// Where the first `n` samples have a date and the next one, if any, has
/// none, the first sample without a date is at `n`.
proof fn lemma_first_undated(entries: Seq<(Seq<char>, SampleView)>, n: int)
    requires
        0 <= n <= entries.len(),
        forall|j: int| 0 <= j < n ==> sample_date(#[trigger] entries[j].1) is Some,
        n < entries.len() ==> sample_date(entries[n].1) is None,
    ensures
        first_undated(entries) == n,
    decreases n,
{
    if n > 0 {
        let rest = entries.drop_first();
        assert forall|j: int| 0 <= j < n - 1 implies sample_date(#[trigger] rest[j].1) is Some by {
            assert(rest[j] == entries[j + 1]);
        }
        lemma_first_undated(rest, n - 1);
    }
}

/// Builds the trace of one module from a series. Fails with the position of
/// the first sample, in date order, whose time is no timestamp.
pub fn trace_series(name: &str, series: &StringMap<Sample>) -> (trace: Result<TraceData, usize>)
    ensures
        match trace {
            Ok(t) => dates_known(series.entries()) && t.deep_view() == series_trace(
                name@,
                series.entries(),
            ),
            Err(at) => !dates_known(series.entries()) && at == first_undated(series.entries()),
        },
{
    let ghost entries = series.entries();
    let mut x_data: Vec<String> = Vec::new();
    let mut y_data: Vec<String> = Vec::new();
    let mut i: usize = 0;
    while i < series.len()
        invariant
            i <= entries.len(),
            entries == series.entries(),
            x_data.len() == i,
            y_data.len() == i,
            forall|j: int| 0 <= j < i ==> sample_date(#[trigger] entries[j].1) == Some(x_data@[j]@),
            forall|j: int| 0 <= j < i ==> #[trigger] y_data@[j]@ == decimal(entries[j].1.count),
        decreases entries.len() - i,
    {
        let sample = series.value_at(i);
        match timestamp_date(sample.timestamp.as_str()) {
            Some(date) => {
                x_data.push(date);
                y_data.push(format_u64(sample.count));
            },
            None => {
                proof {
                    lemma_first_undated(entries, i as int);
                    assert(sample_date(entries[i as int].1) is None);
                }
                return Err(i);
            },
        }
        i = i + 1;
    }
    let trace = TraceData { name: String::from_str(name), x_data, y_data };
    proof {
        assert(trace.deep_view().x =~= series_trace(name@, entries).x);
        assert(trace.deep_view().y =~= series_trace(name@, entries).y);
    }
    Ok(trace)
}

/// In a series whose samples all stand under the date of their own
/// timestamp, as every merged series does, the dates of the trace are the
/// keys of the series, so they ascend.
pub proof fn lemma_trace_dates_ascend(name: Seq<char>, entries: Seq<(Seq<char>, SampleView)>)
    requires
        strictly_sorted(entries),
        forall|i: int|
            0 <= i < entries.len() ==> sample_date(#[trigger] entries[i].1) == Some(entries[i].0),
    ensures
        dates_known(entries),
        forall|i: int, j: int|
            0 <= i < j < entries.len() ==> text_lt(
                #[trigger] series_trace(name, entries).x[i],
                #[trigger] series_trace(name, entries).x[j],
            ),
{
    assert forall|i: int, j: int| 0 <= i < j < entries.len() implies text_lt(
        #[trigger] series_trace(name, entries).x[i],
        #[trigger] series_trace(name, entries).x[j],
    ) by {
        assert(sample_date(entries[i].1) == Some(entries[i].0));
        assert(sample_date(entries[j].1) == Some(entries[j].0));
        assert(text_lt(entries[i].0, entries[j].0));
    }
}

/// A merge keeps every sample under the date of its own timestamp, provided
/// the series it started from did.
pub proof fn lemma_merge_keeps_dates(existing: Map<Seq<char>, SampleView>, batch: Seq<SampleView>)
    requires
        merge_samples(existing, batch) is Ok,
        forall|k: Seq<char>| existing.dom().contains(k) ==> sample_date(#[trigger] existing[k]) == Some(k),
    ensures
        forall|k: Seq<char>| #[trigger]
            merge_samples(existing, batch)->Ok_0.dom().contains(k) ==> sample_date(
                merge_samples(existing, batch)->Ok_0[k],
            ) == Some(k),
    decreases batch.len(),
{
    if batch.len() > 0 {
        lemma_merge_keeps_dates(existing, batch.drop_last());
    }
}

/// The traces of the modules that belong in the chart of `category`, in the
/// order of `modules`. The first such module with a sample that has no date
/// stops it.
pub open spec fn category_traces(category: Option<Category>, modules: Seq<ModuleView>) -> Result<
    Seq<TraceView>,
    GraphError,
>
    decreases modules.len(),
{
    if modules.len() == 0 {
        Ok(Seq::empty())
    } else {
        match category_traces(category, modules.drop_last()) {
            Err(e) => Err(e),
            Ok(traces) => {
                let m = modules.last();
                if !selected(category, m.name) {
                    Ok(traces)
                } else if dates_known(m.entries) {
                    Ok(traces.push(series_trace(m.name, m.entries)))
                } else {
                    Err(
                        GraphError::BadTimestamp {
                            module: (modules.len() - 1) as usize,
                            sample: first_undated(m.entries) as usize,
                        },
                    )
                }
            },
        }
    }
}

/// Once the first `n` modules have stopped the traces, so have all.
proof fn lemma_traces_error_stays(category: Option<Category>, modules: Seq<ModuleView>, n: int)
    requires
        0 <= n <= modules.len(),
        category_traces(category, modules.take(n)) is Err,
    ensures
        category_traces(category, modules) == category_traces(category, modules.take(n)),
    decreases modules.len(),
{
    if n == modules.len() {
        assert(modules.take(n) =~= modules);
    } else {
        assert(modules.drop_last().take(n) =~= modules.take(n));
        lemma_traces_error_stays(category, modules.drop_last(), n);
    }
}

/// Builds one trace for each module that belongs in the chart of `category`
/// (every module where `category` is `None`), in the order of `modules`.
pub fn traffic_traces(category: Option<Category>, modules: &Vec<ModuleSeries>) -> (traces: Result<
    Vec<TraceData>,
    GraphError,
>)
    ensures
        match traces {
            Ok(t) => category_traces(category, modules.deep_view()) == Ok::<_, GraphError>(
                t.deep_view(),
            ),
            Err(e) => category_traces(category, modules.deep_view()) == Err::<Seq<TraceView>, _>(e),
        },
{
    let ghost all = modules.deep_view();
    let mut traces: Vec<TraceData> = Vec::new();
    let mut i: usize = 0;
    assert(all.take(0) =~= Seq::<ModuleView>::empty());
    assert(traces.deep_view() =~= Seq::<TraceView>::empty());
    while i < modules.len()
        invariant
            i <= modules.len(),
            all == modules.deep_view(),
            category_traces(category, all.take(i as int)) == Ok::<_, GraphError>(
                traces.deep_view(),
            ),
        decreases modules.len() - i,
    {
        let ghost upto = all.take(i + 1);
        proof {
            assert(upto.drop_last() =~= all.take(i as int));
            assert(upto.last() == modules@[i as int].deep_view());
        }
        let module = &modules[i];
        if is_selected(category, module.name.as_str()) {
            match trace_series(module.name.as_str(), &module.series) {
                Ok(trace) => {
                    let ghost before = traces.deep_view();
                    traces.push(trace);
                    assert(traces.deep_view() =~= before.push(trace.deep_view()));
                },
                Err(sample) => {
                    proof {
                        lemma_traces_error_stays(category, all, i + 1);
                    }
                    return Err(GraphError::BadTimestamp { module: i, sample });
                },
            }
        }
        i = i + 1;
    }
    assert(all.take(i as int) =~= all);
    Ok(traces)
}

/// The title of a traffic chart: the capitalized label of the category, a
/// hyphen between spaces, and the title of the report.
pub open spec fn chart_title(category: Option<Category>, title: Seq<char>) -> Seq<char> {
    capitalized(chart_label(category)) + " - "@ + title
}

/// The chart of one kind of traffic for the modules of `category`: the
/// traces of these modules as lines, titled by category and report, named by
/// the identifier made from the title, with the dates on one axis and the
/// capitalized kind of traffic on the other. An empty `data_type` is
/// refused, after the traces have been built.
pub open spec fn traffic_chart(
    title: Seq<char>,
    category: Option<Category>,
    data_type: Seq<char>,
    modules: Seq<ModuleView>,
) -> Result<ChartView, GraphError> {
    match category_traces(category, modules) {
        Err(e) => Err(e),
        Ok(traces) => if data_type.len() == 0 {
            Err(GraphError::EmptyLabel)
        } else {
            Ok(
                time_series(
                    identifier(chart_title(category, title)),
                    traces,
                    TitlesView {
                        title: chart_title(category, title),
                        x_title: "Date"@,
                        y_title: capitalized(data_type),
                    },
                    Mode::Lines,
                ),
            )
        },
    }
}

/// Describes the chart of one kind of traffic (`data_type`: "views" or
/// "clones") for the modules of `category`, or for all modules where
/// `category` is `None`.
pub fn create_time_series_graph(
    title: &str,
    category: Option<Category>,
    data_type: &str,
    modules: &Vec<ModuleSeries>,
) -> (chart: Result<Chart, GraphError>)
    ensures
        match chart {
            Ok(c) => traffic_chart(title@, category, data_type@, modules.deep_view()) == Ok::<
                _,
                GraphError,
            >(c.deep_view()),
            Err(e) => traffic_chart(title@, category, data_type@, modules.deep_view()) == Err::<
                ChartView,
                _,
            >(e),
        },
{
    let traces = match traffic_traces(category, modules) {
        Ok(traces) => traces,
        Err(e) => {
            return Err(e);
        },
    };
    let label = chart_label_of(category);
    let mut full = match titlecase(String::from_str(label)) {
        Ok(capital) => capital,
        Err(_) => {
            return Err(GraphError::EmptyLabel);
        },
    };
    full.append(" - ");
    full.append(title);
    let id = identifier_of(full.as_str());
    let y_title = match titlecase(String::from_str(data_type)) {
        Ok(capital) => capital,
        Err(_) => {
            return Err(GraphError::EmptyLabel);
        },
    };
    let titles = Titles { title: full, x_title: String::from_str("Date"), y_title };
    Ok(time_series_chart(id.as_str(), traces, titles, Mode::Lines))
}

/// The six charts of a traffic report, built in this order: all modules,
/// data, compute, serverless, networking, other. The first that cannot be
/// built stops it.
pub open spec fn traffic_charts(title: Seq<char>, data_type: Seq<char>, modules: Seq<ModuleView>) -> Result<
    CategoryChartsView,
    GraphError,
> {
    match traffic_chart(title, None, data_type, modules) {
        Err(e) => Err(e),
        Ok(all) => match traffic_chart(title, Some(Category::Data), data_type, modules) {
            Err(e) => Err(e),
            Ok(data) => match traffic_chart(title, Some(Category::Compute), data_type, modules) {
                Err(e) => Err(e),
                Ok(compute) => match traffic_chart(
                    title,
                    Some(Category::Serverless),
                    data_type,
                    modules,
                ) {
                    Err(e) => Err(e),
                    Ok(serverless) => match traffic_chart(
                        title,
                        Some(Category::Networking),
                        data_type,
                        modules,
                    ) {
                        Err(e) => Err(e),
                        Ok(network) => match traffic_chart(
                            title,
                            Some(Category::Other),
                            data_type,
                            modules,
                        ) {
                            Err(e) => Err(e),
                            Ok(other) => Ok(
                                CategoryChartsView {
                                    all,
                                    data,
                                    compute,
                                    serverless,
                                    network,
                                    other,
                                },
                            ),
                        },
                    },
                },
            },
        },
    }
}

/// Describes the six charts of a traffic report.
pub fn create_category_graphs(title: &str, data_type: &str, modules: &Vec<ModuleSeries>) -> (charts:
    Result<CategoryCharts, GraphError>)
    ensures
        match charts {
            Ok(c) => traffic_charts(title@, data_type@, modules.deep_view()) == Ok::<_, GraphError>(
                c.deep_view(),
            ),
            Err(e) => traffic_charts(title@, data_type@, modules.deep_view()) == Err::<
                CategoryChartsView,
                _,
            >(e),
        },
{
    let all = match create_time_series_graph(title, None, data_type, modules) {
        Ok(c) => c,
        Err(e) => {
            return Err(e);
        },
    };
    let data = match create_time_series_graph(title, Some(Category::Data), data_type, modules) {
        Ok(c) => c,
        Err(e) => {
            return Err(e);
        },
    };
    let compute = match create_time_series_graph(
        title,
        Some(Category::Compute),
        data_type,
        modules,
    ) {
        Ok(c) => c,
        Err(e) => {
            return Err(e);
        },
    };
    let serverless = match create_time_series_graph(
        title,
        Some(Category::Serverless),
        data_type,
        modules,
    ) {
        Ok(c) => c,
        Err(e) => {
            return Err(e);
        },
    };
    let network = match create_time_series_graph(
        title,
        Some(Category::Networking),
        data_type,
        modules,
    ) {
        Ok(c) => c,
        Err(e) => {
            return Err(e);
        },
    };
    let other = match create_time_series_graph(title, Some(Category::Other), data_type, modules) {
        Ok(c) => c,
        Err(e) => {
            return Err(e);
        },
    };
    Ok(CategoryCharts { all, data, compute, serverless, network, other })
}

/// Describes the charts of the report on repository clones.
pub fn graph_clones(modules: &Vec<ModuleSeries>) -> (charts: Result<CategoryCharts, GraphError>)
    ensures
        match charts {
            Ok(c) => traffic_charts("Repository Clones"@, "clones"@, modules.deep_view()) == Ok::<
                _,
                GraphError,
            >(c.deep_view()),
            Err(e) => traffic_charts("Repository Clones"@, "clones"@, modules.deep_view()) == Err::<
                CategoryChartsView,
                _,
            >(e),
        },
{
    create_category_graphs("Repository Clones", "clones", modules)
}

/// Describes the charts of the report on repository page views.
pub fn graph_page_views(modules: &Vec<ModuleSeries>) -> (charts: Result<CategoryCharts, GraphError>)
    ensures
        match charts {
            Ok(c) => traffic_charts("Repository Page Views"@, "views"@, modules.deep_view()) == Ok::<
                _,
                GraphError,
            >(c.deep_view()),
            Err(e) => traffic_charts("Repository Page Views"@, "views"@, modules.deep_view())
                == Err::<CategoryChartsView, _>(e),
        },
{
    create_category_graphs("Repository Page Views", "views", modules)
}

/// The traffic of this module is not open to the collector.
pub open spec fn no_access(module: Seq<char>) -> bool {
    module == "s3-object"@
}

/// The address that one kind of traffic (`kind`: "views" or "clones") of a
/// module's repository is fetched from, as it is put together.
pub open spec fn traffic_url(module: Seq<char>, kind: Seq<char>) -> Seq<char> {
    "https://api.github.com/repos/terraform-aws-modules/terraform-aws-"@ + module + "/traffic/"@
        + kind
}

/// The address that one kind of traffic of a module's repository is fetched
/// from: `NoAccess` for a module whose traffic is not open, else the address
/// put together and written in full, or `BadAddress` where the module's name
/// makes it no address.
pub open spec fn traffic_address(module: Seq<char>, kind: Seq<char>) -> Result<
    Seq<char>,
    TrafficError,
> {
    if no_access(module) {
        Err(TrafficError::NoAccess)
    } else {
        match absolute_url(traffic_url(module, kind)) {
            Some(a) => Ok(a),
            None => Err(TrafficError::BadAddress),
        }
    }
}

/// The text of an address or the error in its place.
pub open spec fn address_text(url: Result<String, TrafficError>) -> Result<Seq<char>, TrafficError> {
    match url {
        Ok(a) => Ok(a@),
        Err(e) => Err(e),
    }
}

/// The address that one kind of traffic of a module's repository is fetched
/// from.
fn traffic_address_of(module: &str, kind: &str) -> (url: Result<String, TrafficError>)
    ensures
        address_text(url) == traffic_address(module@, kind@),
{
    if same_text(module, "s3-object") {
        return Err(TrafficError::NoAccess);
    }
    let mut url = String::from_str(
        "https://api.github.com/repos/terraform-aws-modules/terraform-aws-",
    );
    url.append(module);
    url.append("/traffic/");
    url.append(kind);
    match address(url.as_str()) {
        Some(a) => Ok(a),
        None => Err(TrafficError::BadAddress),
    }
}

/// The address that the page views of a module's repository are fetched
/// from.
pub fn page_views_url(module: &str) -> (url: Result<String, TrafficError>)
    ensures
        address_text(url) == traffic_address(module@, "views"@),
{
    traffic_address_of(module, "views")
}

/// The address that the clones of a module's repository are fetched from.
pub fn repository_clones_url(module: &str) -> (url: Result<String, TrafficError>)
    ensures
        address_text(url) == traffic_address(module@, "clones"@),
{
    traffic_address_of(module, "clones")
}

} // verus!

//! The registry's answer for one module and its summary: the download
//! counts of all versions, grouped by major version.

use vstd::prelude::*;
use crate::dates::{rfc3339_date, text_of, timestamp_date};
use crate::number::{decimal_two, format_two_digits, parse_u64, u64_value};
use crate::ordered::StringMap;
use crate::text::{chars_of, same_text, split_chars, split_on, string_of};

verus! {

/// A JSON value of any shape. The library carries such values and never
/// looks inside.
#[verifier::external_type_specification]
#[verifier::external_body]
pub struct ExJsonValue(serde_json::Value);

/// The registry's answer for one module.
#[derive(Debug)]
pub struct Response {
    pub data: Data,
    pub included: Vec<Included>,
}

/// The module itself, as the registry describes it.
#[derive(Debug)]
pub struct Data {
    pub dtype: String,
    pub id: String,
    pub attributes: Attributes,
    pub relationships: serde_json::Value,
    pub links: serde_json::Value,
}

/// The attributes of a module.
#[derive(Debug, Clone, PartialEq, Eq)]
pub struct Attributes {
    pub downloads: u64,
    pub full_name: String,
    pub name: String,
    pub namespace: String,
    pub owner_name: String,
    pub provider_logo_url: String,
    pub provider_name: String,
    pub source: String,
    pub verified: bool,
}

/// One version of the module, as the registry describes it.
#[derive(Debug)]
pub struct Included {
    pub itype: String,
    pub id: String,
    pub attributes: IncludedAttributes,
    pub links: serde_json::Value,
}

/// The attributes of one version of a module.
#[derive(Debug, Clone, PartialEq, Eq)]
pub struct IncludedAttributes {
    pub created_at: String,
    pub description: String,
    pub downloads: u64,
    pub published_at: String,
    pub source: String,
    pub updated_at: String,
    pub version: String,
}

/// The downloads of all versions that share a major version.
#[derive(Debug, Clone, PartialEq, Eq)]
pub struct Summary {
    pub downloads: u64,
    pub major_version: String,
    pub created_at: String,
}

/// Why a response could not be summarized. `index` is the position of the
/// first version that stopped the summary.
#[derive(Debug, Clone, Copy, PartialEq, Eq)]
pub enum SummaryError {
    /// The version has fewer than three parts.
    BadVersion { index: usize },
    /// The version is an `x.0.0` release and its creation time is no
    /// RFC 3339 timestamp.
    BadTimestamp { index: usize },
    /// The downloads of a major version exceed what a `u64` holds.
    DownloadsOverflow { index: usize },
}

/// What a [`Summary`] holds.
pub struct SummaryView {
    pub downloads: nat,
    pub major_version: Seq<char>,
    pub created_at: Seq<char>,
}

impl DeepView for Summary {
    type V = SummaryView;

    open spec fn deep_view(&self) -> SummaryView {
        SummaryView {
            downloads: self.downloads as nat,
            major_version: self.major_version@,
            created_at: self.created_at@,
        }
    }
}

/// What the summary reads of one version.
pub struct VersionRecord {
    pub version: Seq<char>,
    pub downloads: nat,
    pub created_at: Seq<char>,
}

/// The first three parts of a dotted version.
pub struct VersionText {
    pub major: Seq<char>,
    pub minor: Seq<char>,
    pub patch: Seq<char>,
}

/// The first three parts of a dotted version, as strings.
#[derive(Debug, Clone, PartialEq, Eq)]
pub struct VersionParts {
    pub major: String,
    pub minor: String,
    pub patch: String,
}

impl DeepView for VersionParts {
    type V = VersionText;

    open spec fn deep_view(&self) -> VersionText {
        VersionText { major: self.major@, minor: self.minor@, patch: self.patch@ }
    }
}

impl Included {
    /// What the summary reads of this version.
    pub open spec fn record(&self) -> VersionRecord {
        VersionRecord {
            version: self.attributes.version@,
            downloads: self.attributes.downloads as nat,
            created_at: self.attributes.created_at@,
        }
    }
}

/// The parts of `version` between its dots, if there are three or more;
/// parts after the third are not looked at.
pub open spec fn version_text(version: Seq<char>) -> Option<VersionText> {
    let parts = split_on(version, '.');
    if parts.len() >= 3 {
        Some(VersionText { major: parts[0], minor: parts[1], patch: parts[2] })
    } else {
        None
    }
}

/// The number of a major version; zero where the text is no number.
pub open spec fn major_number(major: Seq<char>) -> u64 {
    match u64_value(major) {
        Some(n) => n,
        None => 0,
    }
}

/// The key under which a major version is summarized: its number with at
/// least two digits. Major version zero, and with it any text that is no
/// number, has no key: such versions are left out.
pub open spec fn bin_key(major: Seq<char>) -> Option<Seq<char>> {
    if major_number(major) == 0 {
        None
    } else {
        Some(decimal_two(major_number(major) as nat))
    }
}

/// Whether the version is the first release of its major version, `x.0.0`.
pub open spec fn is_release(v: VersionText) -> bool {
    v.minor == "0"@ && v.patch == "0"@
}

/// The summary `m` with `downloads` more under `key`. A key that is new
/// starts at zero with the major version `major` and no creation date. Where
/// `released` holds a date, it becomes the creation date. `None` where the
/// sum exceeds a `u64`.
pub open spec fn with_downloads(
    m: Map<Seq<char>, SummaryView>,
    key: Seq<char>,
    major: Seq<char>,
    downloads: nat,
    released: Option<Seq<char>>,
) -> Option<Map<Seq<char>, SummaryView>> {
    let prior = if m.dom().contains(key) {
        m[key]
    } else {
        SummaryView { downloads: 0, major_version: major, created_at: Seq::empty() }
    };
    if prior.downloads + downloads > u64::MAX {
        None
    } else {
        Some(
            m.insert(
                key,
                SummaryView {
                    downloads: prior.downloads + downloads,
                    major_version: prior.major_version,
                    created_at: match released {
                        Some(date) => date,
                        None => prior.created_at,
                    },
                },
            ),
        )
    }
}

/// The summary `m` after the version `r`, which stands at `index`.
pub open spec fn with_record(m: Map<Seq<char>, SummaryView>, r: VersionRecord, index: usize) -> Result<
    Map<Seq<char>, SummaryView>,
    SummaryError,
> {
    match version_text(r.version) {
        None => Err(SummaryError::BadVersion { index }),
        Some(v) => match bin_key(v.major) {
            None => Ok(m),
            Some(key) => {
                let released = if is_release(v) {
                    rfc3339_date(r.created_at)
                } else {
                    None
                };
                if is_release(v) && released is None {
                    Err(SummaryError::BadTimestamp { index })
                } else {
                    match with_downloads(m, key, v.major, r.downloads, released) {
                        Some(next) => Ok(next),
                        None => Err(SummaryError::DownloadsOverflow { index }),
                    }
                }
            },
        },
    }
}

/// The summary of `records`, taken one after the other; the first version
/// that cannot be taken in stops it.
pub open spec fn summarize_records(records: Seq<VersionRecord>) -> Result<
    Map<Seq<char>, SummaryView>,
    SummaryError,
>
    decreases records.len(),
{
    if records.len() == 0 {
        Ok(Map::empty())
    } else {
        match summarize_records(records.drop_last()) {
            Err(e) => Err(e),
            Ok(m) => with_record(m, records.last(), (records.len() - 1) as usize),
        }
    }
}

/// Splits a version at its dots and returns the first three parts, or `None`
/// where there are fewer.
pub fn version_parts(version: &str) -> (parts: Option<VersionParts>)
    ensures
        match parts {
            Some(p) => version_text(version@) == Some(p.deep_view()),
            None => version_text(version@) is None,
        },
{
    let chars = chars_of(version);
    let pieces = split_chars(&chars, '.');
    if pieces.len() < 3 {
        return None;
    }
    Some(
        VersionParts {
            major: string_of(&pieces[0]),
            minor: string_of(&pieces[1]),
            patch: string_of(&pieces[2]),
        },
    )
}

/// The key under which the major version `major` is summarized, or `None`
/// where it is left out.
pub fn major_key(major: &str) -> (key: Option<String>)
    ensures
        text_of(key) == bin_key(major@),
{
    match parse_u64(major) {
        Some(n) => if n == 0 {
            None
        } else {
            Some(format_two_digits(n))
        },
        None => None,
    }
}

/// Whether the parts are those of an `x.0.0` release.
pub fn first_release(parts: &VersionParts) -> (yes: bool)
    ensures
        yes == is_release(parts.deep_view()),
{
    same_text(parts.minor.as_str(), "0") && same_text(parts.patch.as_str(), "0")
}

/// Adds `downloads` under `key`, as [`with_downloads`] says. Returns `false`
/// and leaves the summary as it was where the sum exceeds a `u64`.
pub fn add_downloads(
    summary: &mut StringMap<Summary>,
    key: String,
    major: String,
    downloads: u64,
    released: Option<String>,
) -> (added: bool)
    ensures
        added ==> with_downloads(old(summary)@, key@, major@, downloads as nat, text_of(released))
            == Some(final(summary)@),
        !added ==> with_downloads(old(summary)@, key@, major@, downloads as nat, text_of(released))
            is None && final(summary)@ == old(summary)@,
{
    let next = match summary.get(key.as_str()) {
        Some(prior) => {
            if prior.downloads > u64::MAX - downloads {
                return false;
            }
            Summary {
                downloads: prior.downloads + downloads,
                major_version: prior.major_version.clone(),
                created_at: match released {
                    Some(date) => date,
                    None => prior.created_at.clone(),
                },
            }
        },
        None => Summary {
            downloads,
            major_version: major,
            created_at: match released {
                Some(date) => date,
                None => String::new(),
            },
        },
    };
    summary.insert(key, next);
    true
}

impl Response {
    /// What the summary reads of the versions, in the order of `included`.
    pub open spec fn records(&self) -> Seq<VersionRecord> {
        Seq::new(self.included@.len(), |i: int| self.included@[i].record())
    }

    /// Groups the downloads of all versions by major version.
    ///
    /// The result maps the major version's number, written with at least two
    /// digits, to the sum of the downloads of its versions, the major version
    /// as the first of them wrote it, and the date of its `x.0.0` release if
    /// one is among them. Versions of major version zero are left out.
    pub fn summarize(&self) -> (summary: Result<StringMap<Summary>, SummaryError>)
        ensures
            match summary {
                Ok(m) => summarize_records(self.records()) == Ok::<_, SummaryError>(m@),
                Err(e) => summarize_records(self.records()) == Err::<Map<Seq<char>, SummaryView>, _>(
                    e,
                ),
            },
    {
        let mut summary: StringMap<Summary> = StringMap::new();
        let mut i: usize = 0;
        assert(self.records().take(0) =~= Seq::<VersionRecord>::empty());
        while i < self.included.len()
            invariant
                i <= self.included.len(),
                summarize_records(self.records().take(i as int)) == Ok::<_, SummaryError>(summary@),
            decreases self.included.len() - i,
        {
            let ghost upto = self.records().take(i + 1);
            proof {
                assert(upto.drop_last() =~= self.records().take(i as int));
                assert(upto.last() == self.included@[i as int].record());
            }
            let attributes = &self.included[i].attributes;
            let parts = match version_parts(attributes.version.as_str()) {
                Some(parts) => parts,
                None => {
                    proof {
                        lemma_error_stays(self.records(), i + 1);
                    }
                    return Err(SummaryError::BadVersion { index: i });
                },
            };
            if let Some(key) = major_key(parts.major.as_str()) {
                let released = if first_release(&parts) {
                    match timestamp_date(attributes.created_at.as_str()) {
                        Some(date) => Some(date),
                        None => {
                            proof {
                                lemma_error_stays(self.records(), i + 1);
                            }
                            return Err(SummaryError::BadTimestamp { index: i });
                        },
                    }
                } else {
                    None
                };
                if !add_downloads(&mut summary, key, parts.major, attributes.downloads, released) {
                    proof {
                        lemma_error_stays(self.records(), i + 1);
                    }
                    return Err(SummaryError::DownloadsOverflow { index: i });
                }
            }
            i = i + 1;
        }
        assert(self.records().take(i as int) =~= self.records());
        Ok(summary)
    }
}

/// Once the first `n` versions have stopped the summary, so has the whole.
proof fn lemma_error_stays(records: Seq<VersionRecord>, n: int)
    requires
        0 <= n <= records.len(),
        summarize_records(records.take(n)) is Err,
    ensures
        summarize_records(records) == summarize_records(records.take(n)),
    decreases records.len(),
{
    if n == records.len() {
        assert(records.take(n) =~= records);
    } else {
        assert(records.drop_last().take(n) =~= records.take(n));
        lemma_error_stays(records.drop_last(), n);
    }
}

/// The key under which the version `r` is summarized; `None` where it is
/// left out or has fewer than three parts.
pub open spec fn record_key(r: VersionRecord) -> Option<Seq<char>> {
    match version_text(r.version) {
        Some(v) => bin_key(v.major),
        None => None,
    }
}

/// Some version among `records` is summarized under `key`.
pub open spec fn key_occurs(records: Seq<VersionRecord>, key: Seq<char>) -> bool {
    exists|i: int| 0 <= i < records.len() && record_key(#[trigger] records[i]) == Some(key)
}

/// The downloads of all versions among `records` that are summarized under
/// `key`, added up.
pub open spec fn key_downloads(records: Seq<VersionRecord>, key: Seq<char>) -> nat
    decreases records.len(),
{
    if records.len() == 0 {
        0
    } else {
        key_downloads(records.drop_last(), key) + if record_key(records.last()) == Some(key) {
            records.last().downloads
        } else {
            0
        }
    }
}

/// Where no version is summarized under `key`, its downloads add up to zero.
proof fn lemma_absent_key_has_no_downloads(records: Seq<VersionRecord>, key: Seq<char>)
    requires
        !key_occurs(records, key),
    ensures
        key_downloads(records, key) == 0,
    decreases records.len(),
{
    if records.len() > 0 {
        let front = records.drop_last();
        assert(record_key(records[records.len() - 1]) != Some(key));
        assert(!key_occurs(front, key)) by {
            if key_occurs(front, key) {
                let i = choose|i: int|
                    0 <= i < front.len() && record_key(#[trigger] front[i]) == Some(key);
                assert(records[i] == front[i]);
            }
        }
        lemma_absent_key_has_no_downloads(front, key);
    }
}

/// The keys of a summary are padded numbers from one upwards: no version of
/// major version zero, and none whose major version is no number, is in it.
pub proof fn lemma_key_is_positive(major: Seq<char>)
    requires
        bin_key(major) is Some,
    ensures
        major_number(major) >= 1,
        bin_key(major) == Some(decimal_two(major_number(major) as nat)),
        bin_key(major) != Some("00"@),
        bin_key(major) != Some("0"@),
{
    let n = major_number(major) as nat;
    crate::number::lemma_decimal_round_trip(n);
    reveal_strlit("00");
    reveal_strlit("0");
    if n < 10 {
        assert(decimal_two(n)[1] != '0');
        assert(decimal_two(n).len() == 2);
    } else {
        assert(decimal_two(n)[0] != '0');
    }
}

/// What a summary holds, said without reference to the order of the
/// versions: its keys are the keys of the versions that are not left out, the
/// downloads under a key are the sum over the versions with that key, and the
/// major version recorded under a key is one that has that key.
pub proof fn lemma_summary_totals(records: Seq<VersionRecord>)
    requires
        summarize_records(records) is Ok,
    ensures
        forall|k: Seq<char>| #[trigger]
            summarize_records(records)->Ok_0.dom().contains(k) <==> key_occurs(records, k),
        forall|k: Seq<char>| #[trigger]
            summarize_records(records)->Ok_0.dom().contains(k) ==> {
                &&& summarize_records(records)->Ok_0[k].downloads == key_downloads(records, k)
                &&& summarize_records(records)->Ok_0[k].downloads <= u64::MAX
                &&& bin_key(summarize_records(records)->Ok_0[k].major_version) == Some(k)
            },
    decreases records.len(),
{
    let m = summarize_records(records)->Ok_0;
    if records.len() == 0 {
        assert forall|k: Seq<char>| !key_occurs(records, k) by {}
    } else {
        let front = records.drop_last();
        let r = records.last();
        let m0 = summarize_records(front)->Ok_0;
        lemma_summary_totals(front);
        let key = record_key(r);
        assert forall|k: Seq<char>| key_occurs(records, k) <==> key_occurs(front, k) || key
            == Some(k) by {
            if key_occurs(records, k) {
                let i = choose|i: int|
                    0 <= i < records.len() && record_key(#[trigger] records[i]) == Some(k);
                if i < front.len() {
                    assert(front[i] == records[i]);
                }
            }
            if key_occurs(front, k) {
                let i = choose|i: int|
                    0 <= i < front.len() && record_key(#[trigger] front[i]) == Some(k);
                assert(records[i] == front[i]);
            }
            if key == Some(k) {
                assert(record_key(records[records.len() - 1]) == Some(k));
            }
        }
        match key {
            None => {
                assert(m == m0);
            },
            Some(at) => {
                if !m0.dom().contains(at) {
                    lemma_absent_key_has_no_downloads(front, at);
                }
                assert forall|k: Seq<char>| #[trigger] m.dom().contains(k) implies {
                    &&& m[k].downloads == key_downloads(records, k)
                    &&& m[k].downloads <= u64::MAX
                    &&& bin_key(m[k].major_version) == Some(k)
                } by {
                    if k != at {
                        assert(m0.dom().contains(k));
                    }
                }
            },
        }
    }
}

/// No key of a summary stands for major version zero: every key is a number
/// from one upwards, written with at least two digits, and `00` is no key.
pub proof fn lemma_zero_major_left_out(records: Seq<VersionRecord>)
    requires
        summarize_records(records) is Ok,
    ensures
        !summarize_records(records)->Ok_0.dom().contains("00"@),
        forall|k: Seq<char>| #[trigger]
            summarize_records(records)->Ok_0.dom().contains(k) ==> exists|n: nat|
                1 <= n <= u64::MAX && k == #[trigger] decimal_two(n),
{
    lemma_summary_totals(records);
    let m = summarize_records(records)->Ok_0;
    assert forall|k: Seq<char>| #[trigger] m.dom().contains(k) implies k != "00"@ && exists|n: nat|
        1 <= n <= u64::MAX && k == #[trigger] decimal_two(n) by {
        assert(key_occurs(records, k));
        let j = choose|j: int| 0 <= j < records.len() && record_key(#[trigger] records[j]) == Some(k);
        let major = version_text(records[j].version)->Some_0.major;
        lemma_key_is_positive(major);
        assert(k == decimal_two(major_number(major) as nat));
    }
}

/// Whether a version counts: it has three parts and its major version is a
/// number other than zero.
pub open spec fn counts() -> spec_fn(VersionRecord) -> bool {
    |r: VersionRecord| record_key(r) is Some
}

/// Versions of major version zero, and those whose major version is no
/// number, are left out: the summary is that of the other versions alone.
pub proof fn lemma_only_counted_versions_matter(records: Seq<VersionRecord>)
    requires
        summarize_records(records) is Ok,
    ensures
        summarize_records(records.filter(counts())) == summarize_records(records),
    decreases records.len(),
{
    reveal(Seq::filter);
    if records.len() > 0 {
        let front = records.drop_last();
        let r = records.last();
        lemma_only_counted_versions_matter(front);
        if counts()(r) {
            let kept = front.filter(counts()).push(r);
            assert(kept.drop_last() =~= front.filter(counts()));
            assert(kept.last() == r);
        }
    }
}

/// Where a summary exists, every version has three parts.
pub proof fn lemma_versions_well_formed(records: Seq<VersionRecord>, i: int)
    requires
        summarize_records(records) is Ok,
        0 <= i < records.len(),
    ensures
        version_text(records[i].version) is Some,
    decreases records.len(),
{
    if i < records.len() - 1 {
        lemma_versions_well_formed(records.drop_last(), i);
        assert(records.drop_last()[i] == records[i]);
    }
}

/// Summarizing a summary changes nothing. Let `again` hold one version for
/// each key of the summary of `records`, in any order: its major version is
/// the one recorded under the key and its downloads are the sum recorded
/// there. Then the summary of `again` has the same keys, and under each key
/// the same downloads and the same major version.
pub proof fn lemma_summarize_idempotent(
    records: Seq<VersionRecord>,
    keys: Seq<Seq<char>>,
    again: Seq<VersionRecord>,
)
    requires
        summarize_records(records) is Ok,
        keys.no_duplicates(),
        forall|k: Seq<char>| keys.contains(k) <==> summarize_records(records)->Ok_0.dom().contains(k),
        again.len() == keys.len(),
        forall|i: int|
            0 <= i < again.len() ==> {
                &&& version_text(#[trigger] again[i].version) matches Some(v)
                &&& v.major == summarize_records(records)->Ok_0[keys[i]].major_version
                &&& again[i].downloads == summarize_records(records)->Ok_0[keys[i]].downloads
                &&& is_release(v) ==> rfc3339_date(again[i].created_at) is Some
            },
    ensures
        summarize_records(again) is Ok,
        summarize_records(again)->Ok_0.dom() == summarize_records(records)->Ok_0.dom(),
        forall|k: Seq<char>| #[trigger]
            summarize_records(again)->Ok_0.dom().contains(k) ==> {
                &&& summarize_records(again)->Ok_0[k].downloads == summarize_records(
                    records,
                )->Ok_0[k].downloads
                &&& summarize_records(again)->Ok_0[k].major_version == summarize_records(
                    records,
                )->Ok_0[k].major_version
            },
{
    lemma_resubmitted_prefix(records, keys, again, again.len() as int);
    assert(again.take(again.len() as int) =~= again);
    let m = summarize_records(records)->Ok_0;
    let m2 = summarize_records(again)->Ok_0;
    assert(keys.take(keys.len() as int) =~= keys);
    assert(m2.dom() =~= m.dom());
}

/// The summary of the first `n` resubmitted versions holds the first `n`
/// keys, each with the downloads and the major version it had.
proof fn lemma_resubmitted_prefix(
    records: Seq<VersionRecord>,
    keys: Seq<Seq<char>>,
    again: Seq<VersionRecord>,
    n: int,
)
    requires
        summarize_records(records) is Ok,
        keys.no_duplicates(),
        forall|k: Seq<char>| keys.contains(k) <==> summarize_records(records)->Ok_0.dom().contains(k),
        again.len() == keys.len(),
        0 <= n <= again.len(),
        forall|i: int|
            0 <= i < again.len() ==> {
                &&& version_text(#[trigger] again[i].version) matches Some(v)
                &&& v.major == summarize_records(records)->Ok_0[keys[i]].major_version
                &&& again[i].downloads == summarize_records(records)->Ok_0[keys[i]].downloads
                &&& is_release(v) ==> rfc3339_date(again[i].created_at) is Some
            },
    ensures
        summarize_records(again.take(n)) is Ok,
        forall|k: Seq<char>| #[trigger]
            summarize_records(again.take(n))->Ok_0.dom().contains(k) <==> keys.take(n).contains(k),
        forall|k: Seq<char>| #[trigger]
            summarize_records(again.take(n))->Ok_0.dom().contains(k) ==> {
                &&& summarize_records(again.take(n))->Ok_0[k].downloads == summarize_records(
                    records,
                )->Ok_0[k].downloads
                &&& summarize_records(again.take(n))->Ok_0[k].major_version == summarize_records(
                    records,
                )->Ok_0[k].major_version
            },
    decreases n,
{
    let m = summarize_records(records)->Ok_0;
    if n == 0 {
        assert(again.take(0) =~= Seq::<VersionRecord>::empty());
        assert(keys.take(0) =~= Seq::<Seq<char>>::empty());
    } else {
        lemma_resubmitted_prefix(records, keys, again, n - 1);
        lemma_summary_totals(records);
        let upto = again.take(n);
        assert(upto.drop_last() =~= again.take(n - 1));
        assert(upto.last() == again[n - 1]);
        let m0 = summarize_records(again.take(n - 1))->Ok_0;
        let key = keys[n - 1];
        assert(keys.contains(key));
        assert(m.dom().contains(key));
        assert(record_key(again[n - 1]) == Some(key));
        assert(!m0.dom().contains(key)) by {
            let shorter = keys.take(n - 1);
            if shorter.contains(key) {
                let j = choose|j: int| 0 <= j < shorter.len() && shorter[j] == key;
                assert(keys[j] == keys[n - 1]);
            }
        }
        let m1 = summarize_records(upto)->Ok_0;
        let shorter = keys.take(n - 1);
        let longer = keys.take(n);
        assert forall|k: Seq<char>| #[trigger] m1.dom().contains(k) <==> keys.take(n).contains(
            k,
        ) by {
            if longer.contains(k) {
                let j = choose|j: int| 0 <= j < longer.len() && longer[j] == k;
                if j < n - 1 {
                    assert(shorter[j] == k);
                }
            }
            if shorter.contains(k) {
                let j = choose|j: int| 0 <= j < shorter.len() && shorter[j] == k;
                assert(longer[j] == k);
            }
            if k == key {
                assert(longer[n - 1] == k);
            }
        }
    }
}

} // verus!

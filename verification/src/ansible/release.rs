//! Releases: the latest one that the package index knows within a range of
//! versions, and a guess at the date of the next.

use crate::ansible::error::AnsibleError;
use crate::ansible::order::lemma_order_total;
use crate::ansible::order::older;
use crate::ansible::order::same;
use crate::ansible::product::Product;
use crate::ansible::version::Stage;
use crate::ansible::version::Version;
use crate::ansible::version::VersionView;
use crate::ansible::text::display_version;
use crate::pypi::client::ascending;
use crate::pypi::client::Response;
use crate::timestamp::plus_days_moment;
use crate::timestamp::representable;
use crate::timestamp::utc_text;
use crate::timestamp::weekday_from_monday;
use crate::timestamp::Moment;
use crate::timestamp::Timestamp;
use vstd::prelude::*;
use vstd::string::StringExecFns;

verus! {

/// One end of a range of versions.
#[derive(Debug)]
pub enum Bound {
    /// The range reaches this version, and the version belongs to it.
    Included(Version),
    /// The range reaches this version, and the version does not belong to it.
    Excluded(Version),
    /// The range has no end on this side.
    Unbounded,
}

/// A range of versions, from `start` to `end` in the order of versions.
#[derive(Debug)]
pub struct VersionRange {
    pub start: Bound,
    pub end: Bound,
}

impl VersionRange {
    /// `v` is not before the start of the range.
    pub open spec fn starts_by(&self, v: VersionView) -> bool {
        match self.start {
            Bound::Included(first) => !older(v, first@),
            Bound::Excluded(first) => older(first@, v),
            Bound::Unbounded => true,
        }
    }

    /// `v` is not after the end of the range.
    pub open spec fn ends_after(&self, v: VersionView) -> bool {
        match self.end {
            Bound::Included(last) => !older(last@, v),
            Bound::Excluded(last) => older(v, last@),
            Bound::Unbounded => true,
        }
    }

    /// `v` lies in the range.
    pub open spec fn contains(&self, v: VersionView) -> bool {
        self.starts_by(v) && self.ends_after(v)
    }

    /// The range between two ends. A range whose start lies behind its end
    /// holds no version.
    pub fn new(start: Bound, end: Bound) -> (range: VersionRange)
        ensures
            range.start == start,
            range.end == end,
    {
        VersionRange { start, end }
    }

    /// Whether `v` lies in the range.
    pub fn includes(&self, v: &Version) -> (r: bool)
        ensures
            r == self.contains(v@),
    {
        let after_start = match &self.start {
            Bound::Included(first) => {
                proof {
                    lemma_order_total(v@, first@);
                }
                v >= first
            },
            Bound::Excluded(first) => {
                proof {
                    lemma_order_total(v@, first@);
                }
                v > first
            },
            Bound::Unbounded => true,
        };
        let before_end = match &self.end {
            Bound::Included(last) => {
                proof {
                    lemma_order_total(v@, last@);
                }
                v <= last
            },
            Bound::Excluded(last) => v < last,
            Bound::Unbounded => true,
        };
        after_start && before_end
    }
}

/// A release of an Ansible product such as `ansible`, `ansible-base` or
/// `ansible-core`.
#[derive(Debug)]
pub struct Release {
    product: Product,
    version: Version,
    timestamp: Timestamp,
}

/// What a `Release` stands for.
pub struct ReleaseView {
    pub product: Product,
    pub version: VersionView,
    pub timestamp: Timestamp,
}

impl View for Release {
    type V = ReleaseView;

    closed spec fn view(&self) -> ReleaseView {
        ReleaseView { product: self.product, version: self.version@, timestamp: self.timestamp }
    }
}

/// The moment at which the next release is expected after one of `stage` that
/// was uploaded at `upload`.
///
/// Four days before the upload, to allow for a late upload, and from there on
/// to the Monday after one week for a release candidate, after three weeks for
/// any other release. A Monday is followed by the Monday a week later.
pub open spec fn next_date(upload: Moment, stage: Stage) -> Moment {
    let four_days_prior = plus_days_moment(upload, -4);
    let days_to_monday = 7 - weekday_from_monday(four_days_prior.secs);
    let weeks = if stage is RC {
        1int
    } else {
        3int
    };
    plus_days_moment(four_days_prior, 7 * weeks + days_to_monday)
}

/// A release as a line of text, with `date` for the time of its upload.
pub open spec fn release_text(product: Product, version: VersionView, date: Seq<char>) -> Seq<
    char,
> {
    "<Release: "@ + product.name() + " "@ + display_version(version) + " on "@ + date + ">"@
}

/// The date that is guessed is a Monday, at the time of day of the moment
/// four days before the upload. Unless the upload fell into a leap second,
/// that is the time of day of the upload, and the date lies 4 to 10 days
/// after the upload of a release candidate, 18 to 24 days after that of any
/// other release.
pub proof fn lemma_next_date_is_monday(upload: Moment, stage: Stage)
    requires
        0 <= upload.nanos < 2_000_000_000,
    ensures
        weekday_from_monday(next_date(upload, stage).secs) == 0,
        next_date(upload, stage).secs % 86_400 == plus_days_moment(upload, -4).secs % 86_400,
        next_date(upload, stage).nanos == plus_days_moment(upload, -4).nanos,
        upload.nanos < 1_000_000_000 ==> {
            &&& next_date(upload, stage).nanos == upload.nanos
            &&& next_date(upload, stage).secs % 86_400 == upload.secs % 86_400
            &&& stage is RC ==> upload.secs + 4 * 86_400 <= next_date(upload, stage).secs
                <= upload.secs + 10 * 86_400
            &&& !(stage is RC) ==> upload.secs + 18 * 86_400 <= next_date(upload, stage).secs
                <= upload.secs + 24 * 86_400
        },
{
    let base = plus_days_moment(upload, -4);
    let day = base.secs / 86_400;
    let shift = 7 - weekday_from_monday(base.secs);
    let weeks = if stage is RC {
        1int
    } else {
        3int
    };
    let next = next_date(upload, stage);
    assert(base.nanos < 1_000_000_000);
    assert(next.secs == base.secs + (7 * weeks + shift) * 86_400);
    assert(next.secs / 86_400 == day + 7 * weeks + shift && next.secs % 86_400 == base.secs
        % 86_400);
    if upload.nanos < 1_000_000_000 {
        assert(base.secs % 86_400 == upload.secs % 86_400);
    }
}

/// The place of the newest version that lies in `range`, among versions that
/// ascend: the last place whose version lies in it.
pub open spec fn latest_in(
    entries: Seq<(VersionView, Seq<crate::pypi::client::Release>)>,
    range: VersionRange,
) -> Option<int>
    decreases entries.len(),
{
    if entries.len() == 0 {
        None
    } else if range.contains(entries.last().0) {
        Some(entries.len() - 1)
    } else {
        latest_in(entries.drop_last(), range)
    }
}

/// Among versions that ascend, the version that `latest_in` finds lies in the
/// range and no version in the range is newer; it finds none only where no
/// version lies in the range.
pub proof fn lemma_latest_is_newest(
    entries: Seq<(VersionView, Seq<crate::pypi::client::Release>)>,
    range: VersionRange,
)
    requires
        ascending(entries),
    ensures
        match latest_in(entries, range) {
            Some(at) => {
                &&& 0 <= at < entries.len()
                &&& range.contains(entries[at].0)
                &&& forall|j: int|
                    0 <= j < entries.len() && range.contains(#[trigger] entries[j].0) ==> j == at
                        || older(entries[j].0, entries[at].0)
            },
            None => forall|j: int|
                0 <= j < entries.len() ==> !range.contains(#[trigger] entries[j].0),
        },
    decreases entries.len(),
{
    if entries.len() > 0 {
        let shorter = entries.drop_last();
        assert forall|j: int| 0 <= j < shorter.len() implies shorter[j] == entries[j] by {}
        if !range.contains(entries.last().0) {
            assert(ascending(shorter)) by {
                assert forall|i: int, j: int| 0 <= i < j < shorter.len() implies older(
                    #[trigger] shorter[i].0,
                    #[trigger] shorter[j].0,
                ) by {
                    assert(shorter[i] == entries[i] && shorter[j] == entries[j]);
                }
            }
            lemma_latest_is_newest(shorter, range);
            match latest_in(shorter, range) {
                Some(at) => {
                    assert forall|j: int|
                        0 <= j < entries.len() && range.contains(
                            #[trigger] entries[j].0,
                        ) implies j == at || older(entries[j].0, entries[at].0) by {
                        assert(shorter[j] == entries[j]);
                    }
                },
                None => {
                    assert forall|j: int| 0 <= j < entries.len() implies !range.contains(
                        #[trigger] entries[j].0,
                    ) by {
                        if j < shorter.len() {
                            assert(shorter[j] == entries[j]);
                        }
                    }
                },
            }
        }
    }
}

impl Release {
    /// The release of `version` of `product`, uploaded at `timestamp`.
    pub fn new(product: Product, version: Version, timestamp: Timestamp) -> (release: Release)
        ensures
            release@ == (ReleaseView { product, version: version@, timestamp }),
    {
        Release { product, version, timestamp }
    }

    pub fn product(&self) -> (product: Product)
        ensures
            product == self@.product,
    {
        self.product
    }

    pub fn version(&self) -> (version: &Version)
        ensures
            version@ == self@.version,
    {
        &self.version
    }

    pub fn timestamp(&self) -> (timestamp: Timestamp)
        ensures
            timestamp == self@.timestamp,
    {
        self.timestamp
    }

    /// The release as a line of text, with `date` as the text for the time
    /// of its upload.
    pub fn describe(&self, date: &str) -> (text: String)
        ensures
            text@ == release_text(self@.product, self@.version, date@),
    {
        let mut text = String::from_str("<Release: ");
        text.append(self.product.to_string().as_str());
        text.append(" ");
        text.append(self.version.to_string().as_str());
        text.append(" on ");
        text.append(date);
        text.append(">");
        text
    }

    /// The release as a line of text: the product, the version and the time
    /// of the upload.
    pub fn to_string(&self) -> (text: String)
        ensures
            text@ == release_text(
                self@.product,
                self@.version,
                utc_text(self@.timestamp@.secs, self@.timestamp@.nanos),
            ),
    {
        let date = self.timestamp.to_string();
        self.describe(date.as_str())
    }

    /// The next release date is calculated by going back four days before the
    /// upload of this one (which gives four days of leeway), and then finding
    /// the third next Monday, or the first next Monday after a release
    /// candidate.
    ///
    /// The day four days before the upload, and the day that comes out, must
    /// be days that `chrono` has a date for.
    pub fn guess_next_date(&self) -> (next: Timestamp)
        requires
            representable(plus_days_moment(self@.timestamp@, -4).secs),
            representable(next_date(self@.timestamp@, self@.version.stage).secs),
        ensures
            next@ == next_date(self@.timestamp@, self@.version.stage),
    {
        let four_days_prior = self.timestamp.plus_days(-4);
        // Monday counts as 0, so a Monday shifts by a whole week.
        let days_to_shift: i32 = 7 - four_days_prior.days_from_monday() as i32;
        let weeks_to_shift: i32 = match self.version.stage {
            Stage::RC(_) => 1,
            _ => 3,
        };
        four_days_prior.plus_days(7 * weeks_to_shift + days_to_shift)
    }

    /// Given a product, a range of versions and what the package index says
    /// of the product, the latest release in the range.
    ///
    /// The release is that of the newest version in the range. Its time is
    /// the upload time of the first file of that version: files may have been
    /// uploaded at different times, but a rough date is all that is needed.
    /// Where no version lies in the range, or the newest that does has no
    /// files, the answer is `NoVersionFound`.
    pub fn latest_from_pypi_response(
        product: Product,
        range: &VersionRange,
        resp: &Response,
    ) -> (r: Result<Release, AnsibleError>)
        ensures
            match latest_in(resp@, *range) {
                Some(at) if resp@[at].1.len() > 0 => match r {
                    Ok(release) => release@ == (ReleaseView {
                        product,
                        version: resp@[at].0,
                        timestamp: resp@[at].1[0].upload_time_iso_8601,
                    }),
                    Err(_) => false,
                },
                _ => r is Err && r->Err_0 is NoVersionFound,
            },
            r is Ok ==> range.contains(r->Ok_0@.version) && forall|j: int|
                0 <= j < resp@.len() && range.contains(#[trigger] resp@[j].0) ==> !older(
                    r->Ok_0@.version,
                    resp@[j].0,
                ),
    {
        let mut n: usize = resp.len();
        assert(resp@.take(n as int) =~= resp@);
        proof {
            lemma_latest_is_newest(resp@, *range);
            if let Some(at) = latest_in(resp@, *range) {
                assert forall|j: int|
                    0 <= j < resp@.len() && range.contains(#[trigger] resp@[j].0) implies !older(
                    resp@[at].0,
                    resp@[j].0,
                ) by {
                    lemma_order_total(resp@[at].0, resp@[j].0);
                }
            }
        }
        while n > 0 && !range.includes(resp.version(n - 1))
            invariant
                n <= resp@.len(),
                latest_in(resp@, *range) == latest_in(resp@.take(n as int), *range),
            decreases n,
        {
            assert(resp@.take(n as int).drop_last() =~= resp@.take(n - 1));
            n = n - 1;
        }
        if n == 0 {
            return Err(AnsibleError::NoVersionFound);
        }
        let version = resp.version(n - 1);
        let files = resp.files(n - 1);
        if files.len() == 0 {
            return Err(AnsibleError::NoVersionFound);
        }
        let artifact = files[0];
        Ok(Release::new(product, version.clone(), artifact.upload_time_iso_8601))
    }
}

impl Clone for Release {
    fn clone(&self) -> (r: Release)
        ensures
            r@ == self@,
    {
        Release {
            product: self.product,
            version: self.version.clone(),
            timestamp: self.timestamp,
        }
    }
}

/// Two releases are equal when they are of the same product and the same
/// version, uploaded at the same time.
impl PartialEq for Release {
    fn eq(&self, other: &Release) -> (r: bool) {
        self.product == other.product && self.version == other.version && self.timestamp
            == other.timestamp
    }
}

impl vstd::std_specs::cmp::PartialEqSpecImpl for Release {
    open spec fn obeys_eq_spec() -> bool {
        true
    }

    open spec fn eq_spec(&self, other: &Release) -> bool {
        &&& self@.product == other@.product
        &&& same(self@.version, other@.version)
        &&& self@.timestamp == other@.timestamp
    }
}

impl Eq for Release {

}

} // verus!

use chrono::DateTime;
use chrono::Datelike;
use chrono::TimeDelta;
use chrono::Utc;
use releasible::ansible::AnsibleError;
use releasible::ansible::Bound;
use releasible::ansible::Product;
use releasible::ansible::Release;
use releasible::ansible::Stage;
use releasible::ansible::Version;
use releasible::ansible::VersionRange;
use releasible::pypi::client::Response;
use releasible::timestamp::Timestamp;
use releasible::timestamp::MAX_SECONDS;
use releasible::timestamp::MIN_SECONDS;

fn stamp(date: DateTime<Utc>) -> Timestamp {
    Timestamp::new(date.timestamp(), date.timestamp_subsec_nanos()).unwrap()
}

fn at(secs: i64) -> Timestamp {
    Timestamp::new(secs, 0).unwrap()
}

fn date(stamp: Timestamp) -> DateTime<Utc> {
    DateTime::from_timestamp(stamp.secs(), stamp.nanos()).unwrap()
}

fn utc(text: &str) -> DateTime<Utc> {
    DateTime::<Utc>::from(DateTime::parse_from_rfc3339(text).unwrap())
}

fn file(text: &str) -> releasible::pypi::client::Release {
    releasible::pypi::client::Release { size: 1, upload_time_iso_8601: stamp(utc(text)) }
}

fn next_after(text: &str, stage: Stage) -> DateTime<Utc> {
    let release = Release::new(
        Product::AnsibleCore,
        Version::new3(2, 11, 0, stage),
        stamp(utc(text)));
    date(release.guess_next_date())
}

#[test]
fn test_next_date_ga() {
    let date = DateTime::parse_from_rfc3339("2021-02-18T23:11:08.212573Z").unwrap();
    let expected = DateTime::parse_from_rfc3339("2021-03-08T23:11:08.212573Z").unwrap();

    let utcdate = DateTime::<Utc>::from(date);
    let utcexpected = DateTime::<Utc>::from(expected);

    let release = Release::new(
        Product::AnsibleBase,
        Version::new3(2, 10, 6, Stage::GA),
        stamp(utcdate));
    let nextdate = release.guess_next_date();
    assert_eq!(nextdate, stamp(utcexpected));
    assert_eq!(self::date(nextdate), utcexpected);
}

#[test]
fn test_next_date_rc() {
    let date = DateTime::parse_from_rfc3339("2021-03-08T23:11:08.212573Z").unwrap();
    let expected = DateTime::parse_from_rfc3339("2021-03-15T23:11:08.212573Z").unwrap();

    let utcdate = DateTime::<Utc>::from(date);
    let utcexpected = DateTime::<Utc>::from(expected);

    let release = Release::new(
        Product::AnsibleBase,
        Version::new3(2, 10, 6, Stage::RC(1)),
        stamp(utcdate));
    let nextdate = release.guess_next_date();
    assert_eq!(nextdate, stamp(utcexpected));
    assert_eq!(self::date(nextdate), utcexpected);
}

#[test]
fn next_date_in_seconds() {
    // 2021-02-18T23:11:08.212573Z
    let release = Release::new(
        Product::Ansible,
        Version::new3(2, 9, 18, Stage::GA),
        Timestamp::new(1_613_689_868, 212_573_000).unwrap());
    // 2021-03-08T23:11:08.212573Z
    let next = release.guess_next_date();
    assert_eq!(next.secs(), 1_615_245_068);
    assert_eq!(next.nanos(), 212_573_000);
    assert_eq!(Some(next), Timestamp::new(1_615_245_068, 212_573_000));
}

#[test]
fn next_date_from_each_day_of_the_week() {
    // Uploads from Monday 2021-03-01 to Sunday 2021-03-07. Four days before
    // them lie Thursday to Wednesday; the Monday after those is the 1st for
    // the first four and the 8th for the rest, and three weeks go on top.
    let expected = [
        "2021-03-22T12:00:00Z",
        "2021-03-22T12:00:00Z",
        "2021-03-22T12:00:00Z",
        "2021-03-22T12:00:00Z",
        "2021-03-29T12:00:00Z",
        "2021-03-29T12:00:00Z",
        "2021-03-29T12:00:00Z",
    ];
    for day in 1..=7 {
        let upload = format!("2021-03-0{}T12:00:00Z", day);
        assert_eq!(next_after(&upload, Stage::GA), utc(expected[day - 1]));
    }
}

#[test]
fn next_date_after_a_monday_is_a_week_on() {
    // Friday 2021-03-12 less four days is Monday the 8th: the Monday after it
    // is the 15th, not the 8th.
    assert_eq!(
        next_after("2021-03-12T08:30:00Z", Stage::RC(2)),
        utc("2021-03-22T08:30:00Z"));
    assert_eq!(
        next_after("2021-03-12T08:30:00Z", Stage::GA),
        utc("2021-04-05T08:30:00Z"));
}

#[test]
fn next_date_by_stage() {
    let upload = "2021-02-18T23:11:08Z";
    assert_eq!(next_after(upload, Stage::RC(1)), utc("2021-02-22T23:11:08Z"));
    assert_eq!(next_after(upload, Stage::RC(0)), utc("2021-02-22T23:11:08Z"));
    assert_eq!(next_after(upload, Stage::GA), utc("2021-03-08T23:11:08Z"));
    assert_eq!(next_after(upload, Stage::B(1)), utc("2021-03-08T23:11:08Z"));
    assert_eq!(next_after(upload, Stage::A(1)), utc("2021-03-08T23:11:08Z"));
    assert_eq!(next_after(upload, Stage::Dev(1)), utc("2021-03-08T23:11:08Z"));
}

#[test]
fn next_date_before_1970() {
    // 1969-12-31 was a Wednesday; four days before it is Saturday the 27th.
    assert_eq!(
        next_after("1969-12-31T23:59:59Z", Stage::RC(1)),
        utc("1970-01-05T23:59:59Z"));
}

#[test]
fn days_from_monday_of_known_days() {
    // 1970-01-01 was a Thursday.
    assert_eq!(at(0).days_from_monday(), 3);
    assert_eq!(at(86_399).days_from_monday(), 3);
    assert_eq!(at(86_400).days_from_monday(), 4);
    assert_eq!(at(-1).days_from_monday(), 2);
    assert_eq!(at(-86_400).days_from_monday(), 2);
    assert_eq!(at(-86_401).days_from_monday(), 1);
    // 2021-02-14 was a Sunday, 2021-02-15 a Monday.
    assert_eq!(stamp(utc("2021-02-14T23:11:08Z")).days_from_monday(), 6);
    assert_eq!(stamp(utc("2021-02-15T00:00:00Z")).days_from_monday(), 0);
}

#[test]
fn days_from_monday_follow_the_days() {
    let start = utc("2019-12-30T00:00:00Z").timestamp(); // a Monday
    for day in 0..1500i64 {
        let t = at(start + day * 86_400 + 4711);
        assert_eq!(t.days_from_monday() as i64, day % 7);
    }
}

#[test]
fn seconds_range_is_that_of_chrono() {
    assert_eq!(DateTime::<Utc>::MIN_UTC.timestamp(), MIN_SECONDS);
    assert_eq!(DateTime::<Utc>::MAX_UTC.timestamp(), MAX_SECONDS);
    assert!(DateTime::from_timestamp(MIN_SECONDS, 0).is_some());
    assert!(DateTime::from_timestamp(MAX_SECONDS, 0).is_some());
    assert!(DateTime::from_timestamp(MIN_SECONDS - 1, 0).is_none());
    assert!(DateTime::from_timestamp(MAX_SECONDS + 1, 0).is_none());
}

#[test]
fn days_from_monday_at_the_ends_of_the_range() {
    let first = at(MIN_SECONDS).days_from_monday() as i64;
    assert_eq!(first, (MIN_SECONDS.div_euclid(86_400) + 3).rem_euclid(7));
    let last = at(MAX_SECONDS).days_from_monday() as i64;
    assert_eq!(last, (MAX_SECONDS.div_euclid(86_400) + 3).rem_euclid(7));
}

fn sample() -> Response {
    let mut resp = Response::new();
    resp.insert(Version::new3(2, 9, 0, Stage::GA), vec![file("2019-10-31T12:00:00Z")]);
    resp.insert(Version::new3(2, 9, 5, Stage::GA), vec![file("2020-02-13T12:00:00Z")]);
    resp.insert(Version::new3(2, 10, 0, Stage::GA), vec![file("2020-08-13T12:00:00Z")]);
    resp
}

fn half_open(from: Version, to: Version) -> VersionRange {
    VersionRange::new(Bound::Included(from), Bound::Excluded(to))
}

#[test]
fn latest_in_a_range() {
    let resp = sample();
    let range = half_open(Version::new3(2, 9, 0, Stage::GA), Version::new3(2, 10, 0, Stage::GA));
    let release = Release::latest_from_pypi_response(Product::Ansible, &range, &resp).unwrap();
    assert_eq!(release.product(), Product::Ansible);
    assert_eq!(*release.version(), Version::new3(2, 9, 5, Stage::GA));
    assert_eq!(release.version().numbers, vec![2, 9, 5]);
    assert_eq!(release.timestamp(), stamp(utc("2020-02-13T12:00:00Z")));
}

#[test]
fn latest_in_a_range_without_versions() {
    let resp = sample();
    let range = half_open(Version::new3(2, 11, 0, Stage::GA), Version::new3(2, 12, 0, Stage::GA));
    let err = Release::latest_from_pypi_response(Product::Ansible, &range, &resp).unwrap_err();
    assert!(err.is_no_version_found());
    assert_eq!(err, AnsibleError::NoVersionFound);
}

#[test]
fn latest_of_nothing() {
    let resp = Response::new();
    let range = VersionRange::new(Bound::Unbounded, Bound::Unbounded);
    let err = Release::latest_from_pypi_response(Product::AnsibleCore, &range, &resp).unwrap_err();
    assert_eq!(err, AnsibleError::NoVersionFound);
}

#[test]
fn latest_without_files() {
    let mut resp = sample();
    resp.insert(Version::new3(2, 9, 6, Stage::GA), vec![]);
    let range = half_open(Version::new3(2, 9, 0, Stage::GA), Version::new3(2, 10, 0, Stage::GA));
    // 2.9.6 is the newest in the range and has no file: 2.9.5 does not stand in for it.
    let err = Release::latest_from_pypi_response(Product::Ansible, &range, &resp).unwrap_err();
    assert_eq!(err, AnsibleError::NoVersionFound);
}

#[test]
fn latest_takes_the_first_file() {
    let mut resp = Response::new();
    resp.insert(
        Version::new3(2, 10, 7, Stage::GA),
        vec![file("2021-03-01T10:00:00Z"), file("2021-02-01T10:00:00Z")]);
    let range = VersionRange::new(Bound::Unbounded, Bound::Unbounded);
    let release = Release::latest_from_pypi_response(Product::AnsibleBase, &range, &resp).unwrap();
    assert_eq!(release.timestamp(), stamp(utc("2021-03-01T10:00:00Z")));
}

#[test]
fn latest_whatever_the_order_of_arrival() {
    let mut resp = Response::new();
    resp.insert(Version::new3(2, 10, 0, Stage::GA), vec![file("2020-08-13T12:00:00Z")]);
    resp.insert(Version::new3(2, 9, 5, Stage::GA), vec![file("2020-02-13T12:00:00Z")]);
    resp.insert(Version::new3(2, 9, 0, Stage::GA), vec![file("2019-10-31T12:00:00Z")]);
    resp.insert(Version::new3(2, 9, 5, Stage::RC(1)), vec![file("2020-02-06T12:00:00Z")]);
    assert_eq!(resp.len(), 4);
    assert_eq!(*resp.version(0), Version::new3(2, 9, 0, Stage::GA));
    assert_eq!(*resp.version(1), Version::new3(2, 9, 5, Stage::RC(1)));
    assert_eq!(*resp.version(2), Version::new3(2, 9, 5, Stage::GA));
    assert_eq!(*resp.version(3), Version::new3(2, 10, 0, Stage::GA));
    let range = half_open(Version::new3(2, 9, 0, Stage::GA), Version::new3(2, 10, 0, Stage::GA));
    let release = Release::latest_from_pypi_response(Product::Ansible, &range, &resp).unwrap();
    assert_eq!(release.version().to_string(), "2.9.5");
}

#[test]
fn latest_by_the_ends_of_the_range() {
    let resp = sample();
    let v290 = || Version::new3(2, 9, 0, Stage::GA);
    let v295 = || Version::new3(2, 9, 5, Stage::GA);
    let v2100 = || Version::new3(2, 10, 0, Stage::GA);
    let latest = |start: Bound, end: Bound| {
        Release::latest_from_pypi_response(Product::Ansible, &VersionRange::new(start, end), &resp)
            .map(|release| release.version().to_string())
            .map_err(|e| e.is_no_version_found())
    };
    assert_eq!(latest(Bound::Included(v290()), Bound::Included(v2100())), Ok("2.10.0".to_string()));
    assert_eq!(latest(Bound::Included(v290()), Bound::Excluded(v2100())), Ok("2.9.5".to_string()));
    assert_eq!(latest(Bound::Included(v290()), Bound::Excluded(v295())), Ok("2.9.0".to_string()));
    assert_eq!(latest(Bound::Excluded(v290()), Bound::Excluded(v295())), Err(true));
    assert_eq!(latest(Bound::Included(v290()), Bound::Included(v290())), Ok("2.9.0".to_string()));
    assert_eq!(latest(Bound::Excluded(v290()), Bound::Included(v290())), Err(true));
    assert_eq!(latest(Bound::Unbounded, Bound::Excluded(v290())), Err(true));
    assert_eq!(latest(Bound::Unbounded, Bound::Included(v295())), Ok("2.9.5".to_string()));
    assert_eq!(latest(Bound::Excluded(v295()), Bound::Unbounded), Ok("2.10.0".to_string()));
    assert_eq!(latest(Bound::Excluded(v2100()), Bound::Unbounded), Err(true));
    // A range whose start lies after its end holds nothing.
    assert_eq!(latest(Bound::Included(v2100()), Bound::Included(v290())), Err(true));
}

#[test]
fn latest_in_the_ranges_of_the_release_lines() {
    let mut resp = Response::new();
    for text in ["2.9.27", "2.10.0.dev0", "2.10.0rc1", "2.10.0", "2.10.17", "2.11.0b1", "2.11.0"] {
        resp.insert(Version::from_str(text).unwrap(), vec![file("2021-05-01T00:00:00Z")]);
    }
    let line = |minor: u8| half_open(
        Version::new3(2, minor, 0, Stage::Dev(0)),
        Version::new3(2, minor + 1, 0, Stage::Dev(0)));
    let latest = |minor: u8| {
        Release::latest_from_pypi_response(Product::Ansible, &line(minor), &resp)
            .map(|release| release.version().to_string())
            .map_err(|e| e.is_no_version_found())
    };
    assert_eq!(latest(8), Err(true));
    assert_eq!(latest(9), Ok("2.9.27".to_string()));
    assert_eq!(latest(10), Ok("2.10.17".to_string()));
    assert_eq!(latest(11), Ok("2.11.0".to_string()));
    assert_eq!(latest(12), Err(true));
}

#[test]
fn insert_the_same_version_again() {
    let mut resp = Response::new();
    resp.insert(Version::new3(2, 7, 0, Stage::GA), vec![file("2018-10-04T00:00:00Z")]);
    resp.insert(
        Version::new(vec![2, 7, 0, 0], Stage::GA),
        vec![file("2018-10-05T00:00:00Z"), file("2018-10-06T00:00:00Z")]);
    // The version stays as it was first written; the files are the new ones.
    assert_eq!(resp.len(), 1);
    assert_eq!(resp.version(0).numbers, vec![2, 7, 0]);
    assert_eq!(resp.files(0).len(), 2);
    assert_eq!(resp.files(0)[0], file("2018-10-05T00:00:00Z"));
}

#[test]
fn range_includes() {
    let range = half_open(Version::new3(2, 9, 0, Stage::Dev(0)), Version::new3(2, 10, 0, Stage::Dev(0)));
    assert!(range.includes(&Version::new3(2, 9, 0, Stage::Dev(0))));
    assert!(range.includes(&Version::new3(2, 9, 0, Stage::GA)));
    assert!(range.includes(&Version::new3(2, 9, 27, Stage::GA)));
    assert!(range.includes(&Version::new(vec![2, 9], Stage::GA)));
    assert!(range.includes(&Version::new(vec![2, 9], Stage::Dev(0))));
    assert!(!range.includes(&Version::new(vec![2, 8, 255], Stage::GA)));
    assert!(!range.includes(&Version::new(vec![2, 10], Stage::Dev(0))));
    assert!(range.includes(&Version::new(vec![2, 9, 255, 255], Stage::GA)));
    assert!(!range.includes(&Version::new3(2, 10, 0, Stage::Dev(0))));
    assert!(!range.includes(&Version::new3(2, 10, 0, Stage::GA)));
    assert!(!range.includes(&Version::new3(2, 8, 20, Stage::GA)));
}

#[test]
fn timestamps_are_those_of_chrono() {
    let cases: [(i64, u32); 16] = [
        (0, 0),
        (0, 999_999_999),
        (0, 1_000_000_000),
        (59, 1_000_000_000),
        (59, 1_999_999_999),
        (59, 2_000_000_000),
        (-1, 1_500_000_000),
        (-2, 1_500_000_000),
        (-61, 1_000_000_000),
        (1_613_689_868, 212_573_000),
        (MIN_SECONDS, 0),
        (MIN_SECONDS - 1, 0),
        (MIN_SECONDS + 59, 1_000_000_000),
        (MAX_SECONDS, 1_999_999_999),
        (MAX_SECONDS + 1, 0),
        (i64::MAX, 0),
    ];
    for (secs, nanos) in cases {
        let ours = Timestamp::new(secs, nanos);
        let theirs = DateTime::from_timestamp(secs, nanos);
        assert_eq!(ours.is_some(), theirs.is_some(), "{} {}", secs, nanos);
        if let (Some(ours), Some(theirs)) = (ours, theirs) {
            assert_eq!(ours.secs(), theirs.timestamp());
            assert_eq!(ours.nanos(), theirs.timestamp_subsec_nanos());
        }
    }
    assert!(Timestamp::new(i64::MIN, 0).is_none());
    assert!(Timestamp::new(0, u32::MAX).is_none());
}

#[test]
fn plus_days_shifts_by_whole_days() {
    let t = stamp(utc("2021-02-18T23:11:08.212573Z"));
    assert_eq!(date(t.plus_days(-4)), utc("2021-02-14T23:11:08.212573Z"));
    assert_eq!(date(t.plus_days(0)), utc("2021-02-18T23:11:08.212573Z"));
    assert_eq!(date(t.plus_days(18)), utc("2021-03-08T23:11:08.212573Z"));
    assert_eq!(date(t.plus_days(366)), utc("2022-02-19T23:11:08.212573Z"));
    assert_eq!(t.plus_days(1).secs(), t.secs() + 86_400);
    assert_eq!(t.plus_days(1).nanos(), t.nanos());
}

#[test]
fn plus_days_from_a_leap_second() {
    // 2016-12-31T23:59:60.25Z
    let leap = Timestamp::new(1_483_228_799, 1_250_000_000).unwrap();
    // Going on starts at the second that holds the leap second.
    assert_eq!(leap.plus_days(7).secs(), 1_483_228_799 + 7 * 86_400);
    assert_eq!(leap.plus_days(7).nanos(), 250_000_000);
    // Going back starts at the second after it.
    assert_eq!(leap.plus_days(-4).secs(), 1_483_228_800 - 4 * 86_400);
    assert_eq!(leap.plus_days(-4).nanos(), 250_000_000);
    // Staying keeps it.
    assert_eq!(leap.plus_days(0), leap);
    for days in [-400, -4, -1, 0, 1, 7, 28, 4000] {
        assert_eq!(date(leap.plus_days(days)), date(leap) + TimeDelta::days(days as i64));
    }
}

#[test]
fn plus_days_is_the_sum_of_chrono() {
    let starts = [
        utc("2021-02-18T23:11:08.212573Z"),
        utc("1969-12-31T23:59:59.999999999Z"),
        utc("2020-02-29T00:00:00Z"),
        date(Timestamp::new(-61, 1_999_999_999).unwrap()),
    ];
    for start in starts {
        for days in [-100_000, -366, -4, -1, 0, 1, 3, 24, 365, 100_000] {
            let ours = stamp(start).plus_days(days);
            assert_eq!(date(ours), start + TimeDelta::days(days as i64));
        }
    }
}

fn guess_with_chrono(upload: DateTime<Utc>, stage: Stage) -> DateTime<Utc> {
    let four_days_prior = upload - TimeDelta::days(4);
    let days_to_shift = 7 - four_days_prior.weekday().num_days_from_monday();
    let weeks_to_shift = match stage {
        Stage::RC(_) => TimeDelta::weeks(1),
        _ => TimeDelta::weeks(3),
    };
    four_days_prior + weeks_to_shift + TimeDelta::days(days_to_shift.into())
}

#[test]
fn next_date_is_that_of_chrono() {
    let mut uploads = Vec::new();
    let start = utc("2020-12-28T17:45:10.5Z");
    for day in 0..40 {
        uploads.push(start + TimeDelta::days(day) + TimeDelta::seconds(day * 3571));
    }
    // Leap seconds, at the end of a day and within one.
    uploads.push(date(Timestamp::new(1_483_228_799, 1_250_000_000).unwrap()));
    uploads.push(date(Timestamp::new(1_483_228_799, 1_999_999_999).unwrap()));
    uploads.push(date(Timestamp::new(1_483_228_799 + 3 * 86_400, 1_000_000_000).unwrap()));
    uploads.push(date(Timestamp::new(1_613_689_919, 1_500_000_000).unwrap()));
    uploads.push(date(Timestamp::new(-1, 1_000_000_000).unwrap()));
    for upload in uploads {
        for stage in [Stage::GA, Stage::RC(1), Stage::B(2), Stage::A(3), Stage::Dev(0)] {
            let release = Release::new(Product::AnsibleCore, Version::new3(2, 11, 0, stage), stamp(upload));
            assert_eq!(date(release.guess_next_date()), guess_with_chrono(upload, stage), "{}", upload);
        }
    }
}

#[test]
fn next_date_after_a_leap_second() {
    // 2016-12-31T23:59:60.25Z, a Saturday. Four days back from the second
    // after it is Wednesday 2016-12-28T00:00:00.25Z.
    let leap = Timestamp::new(1_483_228_799, 1_250_000_000).unwrap();
    let release = Release::new(Product::Ansible, Version::new3(2, 2, 0, Stage::RC(1)), leap);
    assert_eq!(date(release.guess_next_date()), utc("2017-01-09T00:00:00.25Z"));
    let release = Release::new(Product::Ansible, Version::new3(2, 2, 0, Stage::GA), leap);
    assert_eq!(date(release.guess_next_date()), utc("2017-01-23T00:00:00.25Z"));
}

#[test]
fn timestamp_text_is_that_of_chrono() {
    let t = stamp(utc("2021-02-18T23:11:08.212573Z"));
    assert_eq!(t.to_string(), "2021-02-18 23:11:08.212573 UTC");
    assert_eq!(at(0).to_string(), "1970-01-01 00:00:00 UTC");
    assert_eq!(at(-1).to_string(), utc("1969-12-31T23:59:59Z").to_string());
}

#[test]
fn release_text() {
    let release = Release::new(
        Product::AnsibleBase,
        Version::new3(2, 10, 6, Stage::RC(1)),
        stamp(utc("2021-02-18T23:11:08.212573Z")));
    assert_eq!(
        release.to_string(),
        "<Release: ansible-base 2.10.6rc1 on 2021-02-18 23:11:08.212573 UTC>");
    assert_eq!(
        release.describe("some day"),
        "<Release: ansible-base 2.10.6rc1 on some day>");
    assert_eq!(release.describe(""), "<Release: ansible-base 2.10.6rc1 on >");
}

#[test]
fn next_date_near_the_ends_of_the_range() {
    // The last upload whose guess still has a date: 24 days before the end
    // at the most are needed, and four days after the start.
    let late = Release::new(
        Product::Ansible,
        Version::new3(2, 9, 0, Stage::GA),
        at(MAX_SECONDS - 24 * 86_400));
    let next = late.guess_next_date();
    assert_eq!(next.days_from_monday(), 0);
    assert!(next.secs() <= MAX_SECONDS);
    let early = Release::new(
        Product::Ansible,
        Version::new3(2, 9, 0, Stage::RC(1)),
        at(MIN_SECONDS + 4 * 86_400));
    let next = early.guess_next_date();
    assert_eq!(next.days_from_monday(), 0);
    // Four days before the upload is the first day of all, a Thursday: four
    // days to the Monday, and a week.
    assert_eq!(next.secs(), MIN_SECONDS + 11 * 86_400);
}

#[test]
fn next_date_is_a_monday() {
    let start = utc("2020-12-28T17:45:10Z").timestamp();
    for day in 0..60i64 {
        for stage in [Stage::GA, Stage::RC(1), Stage::B(2), Stage::A(3), Stage::Dev(0)] {
            let upload = at(start + day * 86_400);
            let release = Release::new(Product::AnsibleCore, Version::new3(2, 11, 0, stage), upload);
            let next = release.guess_next_date();
            assert_eq!(next.days_from_monday(), 0);
            assert_eq!(next.secs().rem_euclid(86_400), upload.secs().rem_euclid(86_400));
            let days = (next.secs() - upload.secs()) / 86_400;
            if stage == Stage::RC(1) {
                assert!(4 <= days && days <= 10);
            } else {
                assert!(18 <= days && days <= 24);
            }
        }
    }
}

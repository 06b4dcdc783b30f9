use hypergrib::codec::{
    decode, encode, has_idx_extension, path_to_reference_datetime, to_idx_path, to_index_file_path,
    Coordinate, DecodeErrorKind, EnsembleMember,
};
use hypergrib::coord_labels::{aggregate_idx_paths, CoordLabelsBuilder};
use hypergrib::datetime::ReferenceDatetime;
use hypergrib::version::Version;

use chrono::{Datelike, Timelike};

fn ymdh_to_datetime(year: u16, month: u8, day: u8, hour: u8) -> ReferenceDatetime {
    ReferenceDatetime::new(year, month, day, hour).expect("valid datetime")
}

fn coordinate(dt: ReferenceDatetime, member: EnsembleMember, hours: u32) -> Coordinate {
    Coordinate {
        reference_datetime: dt,
        ensemble_member: member,
        forecast_step_hours: hours,
        parameter: "HGT".to_string(),
        vertical_level: "10 mb".to_string(),
    }
}

#[test]
fn test_to_idx_path() {
    let p = to_idx_path(
        Version::V0,
        &coordinate(ymdh_to_datetime(2017, 1, 1, 0), EnsembleMember::Control, 6),
    );
    assert_eq!(p, "gefs.20170101/00/gec00.t00z.pgrb2af006");
}

#[test]
fn test_to_idx_location() {
    // Ensemble member 0 is the control run.
    let p = to_idx_path(
        Version::V0,
        &coordinate(ymdh_to_datetime(2017, 1, 1, 0), EnsembleMember::Control, 6),
    );
    assert_eq!(p, "gefs.20170101/00/gec00.t00z.pgrb2af006");
}

#[test]
fn test_path_to_reference_datetime() {
    let result = path_to_reference_datetime("gefs.20191122/18").unwrap();
    assert_eq!(result, ymdh_to_datetime(2019, 11, 22, 18));
    let expected = chrono::DateTime::parse_from_rfc3339("2019-11-22T18:00:00Z").unwrap();
    assert_eq!(
        (result.year as i32, result.month as u32, result.day as u32, result.hour as u32),
        (expected.year(), expected.month(), expected.day(), expected.hour())
    );
}

#[test]
fn test_try_from_reference_datetime() {
    assert!(Version::try_from_reference_datetime(&ymdh_to_datetime(2000, 1, 1, 0)).is_err());
    let cases = [
        ((2017, 1, 1, 0), Version::V0),
        ((2018, 7, 26, 18), Version::V0),
        ((2018, 7, 27, 0), Version::V1),
        ((2020, 9, 22, 18), Version::V1),
        ((2020, 9, 23, 0), Version::V2),
        ((2020, 9, 23, 6), Version::V2),
        ((2020, 9, 23, 12), Version::V3),
        ((2024, 10, 8, 0), Version::V3),
    ];
    for ((y, m, d, h), v) in cases {
        assert_eq!(Version::try_from_reference_datetime(&ymdh_to_datetime(y, m, d, h)), Ok(v));
    }
}

#[test]
fn resolution_is_monotonic_on_a_sweep() {
    let mut last_start = 0u64;
    for year in 2016u16..2026 {
        for month in [1u8, 7, 9, 12] {
            for hour in [0u8, 6, 12, 18] {
                let dt = ymdh_to_datetime(year, month, 23, hour);
                match Version::try_from_reference_datetime(&dt) {
                    Ok(v) => {
                        let start = v.start_reference_datetime().key();
                        assert!(start >= last_start);
                        assert!(start <= dt.key());
                        last_start = start;
                    }
                    Err(_) => assert!(dt.key() < 2017010100),
                }
            }
        }
    }
}

#[test]
fn encode_paths_of_each_version() {
    let c = coordinate(ymdh_to_datetime(2018, 7, 27, 6), EnsembleMember::Perturbed(3), 0);
    assert_eq!(to_idx_path(Version::V1, &c), "gefs.20180727/06/pgrb2a/gep03.t06z.pgrb2aanl");
    let c = coordinate(ymdh_to_datetime(2024, 10, 8, 0), EnsembleMember::Mean, 0);
    assert_eq!(to_index_file_path(Version::V3, &c), "gefs.20241008/00/atmos/pgrb2ap5/geavg.t00z.pgrb2a.0p50.f000.idx");
    let c = coordinate(ymdh_to_datetime(2020, 9, 23, 6), EnsembleMember::Spread, 384);
    assert_eq!(encode(&c).unwrap(), "gefs.20200923/06/pgrb2a/gespr.t06z.pgrb2af384.idx");
    let c = coordinate(ymdh_to_datetime(2016, 12, 31, 18), EnsembleMember::Control, 0);
    assert!(encode(&c).is_err());
}

#[test]
fn round_trip_under_each_version() {
    let cases = [
        (ymdh_to_datetime(2017, 1, 1, 0), EnsembleMember::Control, 6u32),
        (ymdh_to_datetime(2019, 11, 22, 18), EnsembleMember::Perturbed(20), 0),
        (ymdh_to_datetime(2020, 9, 23, 6), EnsembleMember::Mean, 240),
        (ymdh_to_datetime(2024, 2, 29, 12), EnsembleMember::Spread, 840),
    ];
    for (dt, member, hours) in cases {
        let c = coordinate(dt, member, hours);
        let path = encode(&c).unwrap();
        assert_eq!(decode(&path), Ok(dt));
    }
    // Both layouts are read in the transition window.
    let c = coordinate(ymdh_to_datetime(2020, 9, 23, 0), EnsembleMember::Control, 3);
    assert_eq!(decode(&to_index_file_path(Version::V3, &c)), Ok(ymdh_to_datetime(2020, 9, 23, 0)));
    assert_eq!(decode(&to_index_file_path(Version::V1, &c)), Ok(ymdh_to_datetime(2020, 9, 23, 0)));
}

#[test]
fn decode_earliest_layout_example() {
    assert_eq!(
        decode("gefs.20170101/00/gec00.t00z.pgrb2aanl.idx"),
        Ok(ymdh_to_datetime(2017, 1, 1, 0))
    );
}

#[test]
fn malformed_paths_are_rejected() {
    let kind = |p: &str| decode(p).err().map(|e| e.kind);
    assert_eq!(kind("noaa.20170101/00/gec00.t00z.pgrb2aanl.idx"), Some(DecodeErrorKind::WrongPrefix));
    assert_eq!(kind("gefs.20170101/00/gec00.t00z.pgrb2aanl"), Some(DecodeErrorKind::MissingIdxSuffix));
    assert_eq!(kind("gefs.20170101/24/gec00.t24z.pgrb2aanl.idx"), Some(DecodeErrorKind::InvalidHour));
    assert_eq!(kind("gefs.20170101/6/gec00.t06z.pgrb2aanl.idx"), Some(DecodeErrorKind::InvalidHour));
    assert_eq!(kind("gefs.20170230/00/gec00.t00z.pgrb2aanl.idx"), Some(DecodeErrorKind::InvalidDate));
    assert_eq!(kind("gefs.2017010/00/gec00.t00z.pgrb2aanl.idx"), Some(DecodeErrorKind::InvalidDate));
    assert_eq!(kind("gefs.20170101/00"), Some(DecodeErrorKind::WrongNumberOfSegments));
    assert_eq!(kind("gefs.20170101/00/a/b/c/d.idx"), Some(DecodeErrorKind::WrongNumberOfSegments));
    assert_eq!(kind("gefs.20161231/00/gec00.t00z.pgrb2aanl.idx"), Some(DecodeErrorKind::BeforeStartOfDataset));
    assert_eq!(kind("gefs.20170101/00/pgrb2a/gec00.t00z.pgrb2aanl.idx"), Some(DecodeErrorKind::ShapeDoesNotMatchVersion));
    let e = decode("x/y/z").unwrap_err();
    assert_eq!(e.path, "x/y/z");
    assert!(!e.kind.reason().is_empty());
    assert_eq!(path_to_reference_datetime("gefs.20191122").err().map(|e| e.kind), Some(DecodeErrorKind::WrongNumberOfSegments));
    assert_eq!(path_to_reference_datetime("gefs.20191122/99").err().map(|e| e.kind), Some(DecodeErrorKind::InvalidHour));
    // A longer path is decoded as an index path.
    assert_eq!(
        path_to_reference_datetime("gefs.20170101/00/gec00.t00z.pgrb2aanl").err().map(|e| e.kind),
        Some(DecodeErrorKind::MissingIdxSuffix)
    );
    assert_eq!(
        path_to_reference_datetime("gefs.20170101/00/gec00.t00z.pgrb2aanl.idx"),
        Ok(ymdh_to_datetime(2017, 1, 1, 0))
    );
    assert_eq!(
        path_to_reference_datetime("gefs.20170101/00/a/b/c/d.idx").err().map(|e| e.kind),
        Some(DecodeErrorKind::WrongNumberOfSegments)
    );
}

#[test]
fn idx_extension() {
    assert!(has_idx_extension("gefs.20170101/00/gec00.t00z.pgrb2aanl.idx"));
    assert!(!has_idx_extension("gefs.20170101/00/gec00.t00z.pgrb2aanl"));
    assert!(!has_idx_extension("gefs.idx/00/file"));
}

#[test]
fn aggregation_counts_distinct_datetimes() {
    let paths: Vec<String> = vec![
        "gefs.20200923/00/pgrb2a/gec00.t00z.pgrb2aanl.idx",
        "gefs.20200923/00/atmos/pgrb2ap5/gec00.t00z.pgrb2a.0p50.f000.idx",
        "gefs.20200923/06/pgrb2a/gec00.t06z.pgrb2aanl.idx",
        "gefs.20170101/00/gec00.t00z.pgrb2aanl.idx",
        "gefs.20170101/00/gep01.t00z.pgrb2aanl.idx",
        "not/a/path",
    ]
    .into_iter()
    .map(String::from)
    .collect();
    let (labels, errors) = aggregate_idx_paths(&paths);
    assert_eq!(
        labels.reference_datetime,
        vec![
            ymdh_to_datetime(2017, 1, 1, 0),
            ymdh_to_datetime(2020, 9, 23, 0),
            ymdh_to_datetime(2020, 9, 23, 6),
        ]
    );
    assert_eq!(errors.len(), 1);
    assert_eq!(errors[0].path, "not/a/path");
    assert_eq!(errors[0].kind, DecodeErrorKind::WrongPrefix);
    assert!(labels.ensemble_member.is_empty());
    assert!(labels.forecast_step.is_empty());
    assert!(labels.parameter.is_empty());
    assert!(labels.vertical_level.is_empty());
}

#[test]
fn ingest_listed_prefixes() {
    let prefixes: Vec<String> = vec!["gefs.20191122/18", "gefs.20191122/18", "gefs.20191122/24", "index.html", "gefs.20191122/12"]
        .into_iter()
        .map(String::from)
        .collect();
    let mut b = CoordLabelsBuilder::new();
    let errors = b.ingest_paths(&prefixes, true);
    assert_eq!(errors.len(), 2);
    assert_eq!((errors[0].path.as_str(), errors[0].kind), ("gefs.20191122/24", DecodeErrorKind::InvalidHour));
    assert_eq!((errors[1].path.as_str(), errors[1].kind), ("index.html", DecodeErrorKind::WrongNumberOfSegments));
    assert_eq!(
        b.build().reference_datetime,
        vec![ymdh_to_datetime(2019, 11, 22, 12), ymdh_to_datetime(2019, 11, 22, 18)]
    );
}

#[test]
fn builder_dedups_and_sorts_every_axis() {
    let mut b = CoordLabelsBuilder::new();
    assert!(b.ingest_reference_datetime_prefix("gefs.20191122/18").unwrap());
    assert!(!b.ingest_reference_datetime_prefix("gefs.20191122/18").unwrap());
    assert!(b.insert_reference_datetime(ymdh_to_datetime(2019, 11, 22, 12)));
    assert!(b.insert_ensemble_member("gep01".to_string()));
    assert!(b.insert_ensemble_member("gec00".to_string()));
    assert!(!b.insert_ensemble_member("gep01".to_string()));
    assert!(b.insert_forecast_step(6));
    assert!(b.insert_forecast_step(0));
    assert!(!b.insert_forecast_step(6));
    assert!(b.insert_parameter("TMP".to_string()));
    assert!(b.insert_parameter("HGT".to_string()));
    assert!(b.insert_vertical_level("10 mb".to_string()));
    assert!(b.insert_vertical_level("1000 mb".to_string()));
    assert!(b.ingest_idx_path("bad").is_err());
    let labels = b.build();
    assert_eq!(
        labels.reference_datetime,
        vec![ymdh_to_datetime(2019, 11, 22, 12), ymdh_to_datetime(2019, 11, 22, 18)]
    );
    assert_eq!(labels.ensemble_member, vec!["gec00", "gep01"]);
    assert_eq!(labels.forecast_step, vec![0, 6]);
    assert_eq!(labels.parameter, vec!["HGT", "TMP"]);
    assert_eq!(labels.vertical_level, vec!["10 mb", "1000 mb"]);
}

#[test]
fn reference_datetimes_must_be_real() {
    assert!(ReferenceDatetime::new(2023, 2, 29, 0).is_none());
    assert!(ReferenceDatetime::new(2024, 2, 29, 0).is_some());
    assert!(ReferenceDatetime::new(2024, 4, 31, 0).is_none());
    assert!(ReferenceDatetime::new(2024, 1, 1, 24).is_none());
    assert!(ReferenceDatetime::new(10000, 1, 1, 0).is_none());
    assert_eq!(ymdh_to_datetime(2019, 11, 22, 18).key(), 2019112218);
}

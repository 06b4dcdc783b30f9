//! The path codec of the GEFS dataset: from a coordinate to the path of its file, and from
//! a path back to its reference datetime.
use vstd::prelude::*;

use crate::datetime::{is_calendar_date, ReferenceDatetime};
use crate::path::{
    all_digits, digits_value, is_digit, join_segments, lemma_segments_of_joined, no_slash,
    parse_digits, pow10, segments, split_segments, to_chars,
};
use crate::text::{lemma_padded_digits, lemma_padded_no_slash, padded, push_padded};
use crate::version::{resolve, BeforeStartOfDatasetError, Version};
use vstd::string::StringExecFns;

verus! {

/// The first segment of every path starts with this.
pub open spec fn gefs_prefix() -> Seq<char> {
    seq!['g', 'e', 'f', 's', '.']
}

/// The file name of every index file ends with this.
pub open spec fn idx_suffix() -> Seq<char> {
    seq!['.', 'i', 'd', 'x']
}

pub open spec fn has_prefix(s: Seq<char>, p: Seq<char>) -> bool {
    s.len() >= p.len() && s.subrange(0, p.len() as int) == p
}

pub open spec fn has_suffix(s: Seq<char>, p: Seq<char>) -> bool {
    s.len() >= p.len() && s.subrange(s.len() - p.len(), s.len() as int) == p
}

/// Why a path could not be decoded.
#[derive(Clone, Copy, Debug, PartialEq, Eq, Structural)]
pub enum DecodeErrorKind {
    /// The path has too few or too many `/`-separated segments.
    WrongNumberOfSegments,
    /// The first segment does not start with `gefs.`.
    WrongPrefix,
    /// The file name does not end with `.idx`.
    MissingIdxSuffix,
    /// The first segment is not `gefs.` followed by a real date as `YYYYMMDD`.
    InvalidDate,
    /// The second segment is not an hour of the day as `HH`.
    InvalidHour,
    /// The reference datetime is earlier than the start of the dataset.
    BeforeStartOfDataset,
    /// The number of segments is not that of the layout in force at the reference datetime.
    ShapeDoesNotMatchVersion,
}

impl DecodeErrorKind {
    /// A human-readable reason.
    pub fn reason(&self) -> &'static str {
        match self {
            DecodeErrorKind::WrongNumberOfSegments => "wrong number of path segments",
            DecodeErrorKind::WrongPrefix => "the first path segment does not start with 'gefs.'",
            DecodeErrorKind::MissingIdxSuffix => "the file name does not end with '.idx'",
            DecodeErrorKind::InvalidDate => "the first path segment does not hold a valid date",
            DecodeErrorKind::InvalidHour => "the second path segment is not an hour of the day",
            DecodeErrorKind::BeforeStartOfDataset => "the reference datetime is before the dataset starts",
            DecodeErrorKind::ShapeDoesNotMatchVersion => "the path does not have the layout in force at its reference datetime",
        }
    }
}

/// A path that could not be decoded, and why.
#[derive(Clone, Debug, PartialEq, Eq)]
pub struct DecodeError {
    pub path: String,
    pub kind: DecodeErrorKind,
}

/// The reference datetime of a first segment `gefs.YYYYMMDD` and a second segment `HH`.
pub open spec fn datetime_from_segments(seg0: Seq<char>, seg1: Seq<char>) -> Result<
    ReferenceDatetime,
    DecodeErrorKind,
> {
    if seg0.len() != 13 || !all_digits(seg0.subrange(5, 13)) {
        Err(DecodeErrorKind::InvalidDate)
    } else {
        let y = digits_value(seg0.subrange(5, 9));
        let m = digits_value(seg0.subrange(9, 11));
        let d = digits_value(seg0.subrange(11, 13));
        if !is_calendar_date(y, m, d) {
            Err(DecodeErrorKind::InvalidDate)
        } else if seg1.len() != 2 || !all_digits(seg1) {
            Err(DecodeErrorKind::InvalidHour)
        } else if digits_value(seg1) >= 24 {
            Err(DecodeErrorKind::InvalidHour)
        } else {
            Ok(
                ReferenceDatetime {
                    year: y as u16,
                    month: m as u8,
                    day: d as u8,
                    hour: digits_value(seg1) as u8,
                },
            )
        }
    }
}

/// What decoding the reference datetime of `s` gives: a path of three or more segments is
/// decoded as an index path; a listed prefix of two segments from its date and hour.
pub open spec fn prefix_decode(s: Seq<char>) -> Result<ReferenceDatetime, DecodeErrorKind> {
    let segs = segments(s);
    if segs.len() >= 3 {
        idx_decode(s)
    } else if segs.len() < 2 {
        Err(DecodeErrorKind::WrongNumberOfSegments)
    } else if !has_prefix(segs[0], gefs_prefix()) {
        Err(DecodeErrorKind::WrongPrefix)
    } else {
        datetime_from_segments(segs[0], segs[1])
    }
}

/// Whether a path of `n` segments has a layout of version `v`.
pub open spec fn shape_matches(v: Version, n: int) -> bool {
    match v {
        Version::V0 => n == 3,
        Version::V1 => n == 4,
        Version::V2 => n == 4 || n == 5,
        Version::V3 => n == 5,
    }
}

/// What decoding the index path `s` gives. The structure is checked first: the number of
/// segments, the prefix and the suffix; then the date and the hour; last, that the
/// layout is the one in force at that reference datetime.
pub open spec fn idx_decode(s: Seq<char>) -> Result<ReferenceDatetime, DecodeErrorKind> {
    let segs = segments(s);
    if segs.len() < 3 || segs.len() > 5 {
        Err(DecodeErrorKind::WrongNumberOfSegments)
    } else if !has_prefix(segs[0], gefs_prefix()) {
        Err(DecodeErrorKind::WrongPrefix)
    } else if !has_suffix(segs.last(), idx_suffix()) {
        Err(DecodeErrorKind::MissingIdxSuffix)
    } else {
        match datetime_from_segments(segs[0], segs[1]) {
            Err(k) => Err(k),
            Ok(dt) => match resolve(dt.spec_key()) {
                None => Err(DecodeErrorKind::BeforeStartOfDataset),
                Some(v) => if shape_matches(v, segs.len() as int) {
                    Ok(dt)
                } else {
                    Err(DecodeErrorKind::ShapeDoesNotMatchVersion)
                },
            },
        }
    }
}

fn is_gefs_prefix(seg: &Vec<char>) -> (r: bool)
    ensures
        r == has_prefix(seg@, gefs_prefix()),
{
    if seg.len() < 5 {
        return false;
    }
    let r = seg[0] == 'g' && seg[1] == 'e' && seg[2] == 'f' && seg[3] == 's' && seg[4] == '.';
    proof {
        if r {
            assert(seg@.subrange(0, 5) =~= gefs_prefix());
        } else {
            assert(seg@.subrange(0, 5) != gefs_prefix()) by {
                if seg@.subrange(0, 5) == gefs_prefix() {
                    assert(seg@.subrange(0, 5)[0] == seg@[0]);
                    assert(seg@.subrange(0, 5)[1] == seg@[1]);
                    assert(seg@.subrange(0, 5)[2] == seg@[2]);
                    assert(seg@.subrange(0, 5)[3] == seg@[3]);
                    assert(seg@.subrange(0, 5)[4] == seg@[4]);
                }
            }
        }
    }
    r
}

fn is_idx_file(seg: &Vec<char>) -> (r: bool)
    ensures
        r == has_suffix(seg@, idx_suffix()),
{
    let n = seg.len();
    if n < 4 {
        return false;
    }
    let r = seg[n - 4] == '.' && seg[n - 3] == 'i' && seg[n - 2] == 'd' && seg[n - 1] == 'x';
    proof {
        let t = seg@.subrange(n - 4, n as int);
        if r {
            assert(t =~= idx_suffix());
        } else {
            assert(t != idx_suffix()) by {
                if t == idx_suffix() {
                    assert(t[0] == seg@[n - 4]);
                    assert(t[1] == seg@[n - 3]);
                    assert(t[2] == seg@[n - 2]);
                    assert(t[3] == seg@[n - 1]);
                }
            }
        }
    }
    r
}

/// Whether `s[start..end]` is all decimal digits.
fn digits_between(s: &Vec<char>, start: usize, end: usize) -> (r: bool)
    requires
        start <= end <= s@.len(),
    ensures
        r == all_digits(s@.subrange(start as int, end as int)),
{
    let mut i: usize = start;
    while i < end
        invariant
            start <= i <= end,
            end <= s@.len(),
            forall|k: int| start <= k < i ==> is_digit(#[trigger] s@[k]),
        decreases end - i,
    {
        if !('0' <= s[i] && s[i] <= '9') {
            assert(s@.subrange(start as int, end as int)[i - start] == s@[i as int]);
            return false;
        }
        i = i + 1;
    }
    assert forall|k: int| 0 <= k < end - start implies is_digit(
        #[trigger] s@.subrange(start as int, end as int)[k],
    ) by {
        assert(s@.subrange(start as int, end as int)[k] == s@[start + k]);
    }
    true
}

fn decode_datetime(seg0: &Vec<char>, seg1: &Vec<char>) -> (r: Result<
    ReferenceDatetime,
    DecodeErrorKind,
>)
    ensures
        r == datetime_from_segments(seg0@, seg1@),
        r matches Ok(dt) ==> dt.wf(),
{
    if seg0.len() != 13 || !digits_between(seg0, 5, 13) {
        return Err(DecodeErrorKind::InvalidDate);
    }
    proof {
        assert(seg0@.subrange(5, 9) =~= seg0@.subrange(5, 13).subrange(0, 4));
        assert(seg0@.subrange(9, 11) =~= seg0@.subrange(5, 13).subrange(4, 6));
        assert(seg0@.subrange(11, 13) =~= seg0@.subrange(5, 13).subrange(6, 8));
        reveal_with_fuel(pow10, 5);
    }
    let y = parse_digits(seg0, 5, 9);
    let m = parse_digits(seg0, 9, 11);
    let d = parse_digits(seg0, 11, 13);
    if chrono::NaiveDate::from_ymd_opt(y as i32, m as u32, d as u32).is_none() {
        return Err(DecodeErrorKind::InvalidDate);
    }
    if seg1.len() != 2 || !digits_between(seg1, 0, 2) {
        proof {
            assert(seg1@.subrange(0, seg1@.len() as int) =~= seg1@);
        }
        return Err(DecodeErrorKind::InvalidHour);
    }
    proof {
        assert(seg1@.subrange(0, 2) =~= seg1@);
    }
    let h = parse_digits(seg1, 0, 2);
    if h >= 24 {
        return Err(DecodeErrorKind::InvalidHour);
    }
    Ok(ReferenceDatetime { year: y as u16, month: m as u8, day: d as u8, hour: h as u8 })
}

/// The reference datetime of a listed prefix such as `gefs.20191122/18`, read from its
/// two segments; a longer path is decoded as an index path, with all the checks of
/// [`decode`].
pub fn path_to_reference_datetime(path: &str) -> (r: Result<ReferenceDatetime, DecodeError>)
    ensures
        r matches Ok(dt) ==> prefix_decode(path@) == Ok::<ReferenceDatetime, DecodeErrorKind>(
            dt,
        ) && dt.wf(),
        r matches Err(e) ==> prefix_decode(path@) == Err::<ReferenceDatetime, DecodeErrorKind>(
            e.kind,
        ) && e.path@ == path@,
{
    let chars = to_chars(path);
    let segs = split_segments(&chars);
    proof {
        assert(segs@.map_values(|v: Vec<char>| v@).len() == segs@.len());
    }
    if segs.len() >= 3 {
        return decode(path);
    }
    if segs.len() < 2 {
        return Err(DecodeError { path: path.to_owned(), kind: DecodeErrorKind::WrongNumberOfSegments });
    }
    proof {
        assert(segs@.map_values(|v: Vec<char>| v@)[0] == segs@[0]@);
        assert(segs@.map_values(|v: Vec<char>| v@)[1] == segs@[1]@);
    }
    if !is_gefs_prefix(&segs[0]) {
        return Err(DecodeError { path: path.to_owned(), kind: DecodeErrorKind::WrongPrefix });
    }
    match decode_datetime(&segs[0], &segs[1]) {
        Ok(dt) => Ok(dt),
        Err(kind) => Err(DecodeError { path: path.to_owned(), kind }),
    }
}

/// The reference datetime of the index file at `path`, such as
/// `gefs.20170101/00/gec00.t00z.pgrb2aanl.idx`.
///
/// The path is relative to the root of the dataset: a path that still starts with the
/// bucket name fails with `WrongPrefix`. Fails, without panicking, on a path of the wrong
/// shape, with the path and the reason.
pub fn decode(path: &str) -> (r: Result<ReferenceDatetime, DecodeError>)
    ensures
        r matches Ok(dt) ==> idx_decode(path@) == Ok::<ReferenceDatetime, DecodeErrorKind>(dt)
            && dt.wf(),
        r matches Err(e) ==> idx_decode(path@) == Err::<ReferenceDatetime, DecodeErrorKind>(
            e.kind,
        ) && e.path@ == path@,
{
    let chars = to_chars(path);
    let segs = split_segments(&chars);
    let ghost sv = segs@.map_values(|v: Vec<char>| v@);
    proof {
        assert(sv.len() == segs@.len());
    }
    let n = segs.len();
    if n < 3 || n > 5 {
        return Err(DecodeError { path: path.to_owned(), kind: DecodeErrorKind::WrongNumberOfSegments });
    }
    proof {
        assert(sv[0] == segs@[0]@);
        assert(sv[1] == segs@[1]@);
        assert(sv.last() == segs@[n - 1]@);
    }
    if !is_gefs_prefix(&segs[0]) {
        return Err(DecodeError { path: path.to_owned(), kind: DecodeErrorKind::WrongPrefix });
    }
    if !is_idx_file(&segs[n - 1]) {
        return Err(DecodeError { path: path.to_owned(), kind: DecodeErrorKind::MissingIdxSuffix });
    }
    let dt = match decode_datetime(&segs[0], &segs[1]) {
        Ok(dt) => dt,
        Err(kind) => {
            return Err(DecodeError { path: path.to_owned(), kind });
        },
    };
    let shape_ok = match Version::try_from_reference_datetime(&dt) {
        Err(_) => {
            return Err(DecodeError { path: path.to_owned(), kind: DecodeErrorKind::BeforeStartOfDataset });
        },
        Ok(Version::V0) => n == 3,
        Ok(Version::V1) => n == 4,
        Ok(Version::V2) => n == 4 || n == 5,
        Ok(Version::V3) => n == 5,
    };
    if !shape_ok {
        return Err(DecodeError { path: path.to_owned(), kind: DecodeErrorKind::ShapeDoesNotMatchVersion });
    }
    Ok(dt)
}

/// An ensemble member of a forecast run.
#[derive(Clone, Copy, Debug, PartialEq, Eq, Structural, Hash)]
pub enum EnsembleMember {
    /// The control run.
    Control,
    /// Perturbed run number `n`.
    Perturbed(u8),
    /// The mean of the ensemble.
    Mean,
    /// The spread of the ensemble.
    Spread,
}

/// The coordinate of a forecast message. The file of a message depends on the reference
/// datetime, the ensemble member and the forecast step; the parameter and the vertical
/// level select a message within it.
#[derive(Clone, Debug, PartialEq, Eq)]
pub struct Coordinate {
    pub reference_datetime: ReferenceDatetime,
    pub ensemble_member: EnsembleMember,
    /// The forecast step, in hours after the reference datetime.
    pub forecast_step_hours: u32,
    pub parameter: String,
    pub vertical_level: String,
}

/// The token of an ensemble member in file names: `gec00`, `gep01`, `geavg`, `gespr`.
pub open spec fn member_token(m: EnsembleMember) -> Seq<char> {
    match m {
        EnsembleMember::Control => seq!['g', 'e', 'c', '0', '0'],
        EnsembleMember::Perturbed(n) => seq!['g', 'e', 'p'] + padded(n as nat, 2, '0'),
        EnsembleMember::Mean => seq!['g', 'e', 'a', 'v', 'g'],
        EnsembleMember::Spread => seq!['g', 'e', 's', 'p', 'r'],
    }
}

/// The first segment: `gefs.YYYYMMDD`.
pub open spec fn date_segment(dt: ReferenceDatetime) -> Seq<char> {
    gefs_prefix() + padded(dt.year as nat, 4, '0') + padded(dt.month as nat, 2, '0') + padded(
        dt.day as nat,
        2,
        '0',
    )
}

/// The second segment: `HH`.
pub open spec fn hour_segment(dt: ReferenceDatetime) -> Seq<char> {
    padded(dt.hour as nat, 2, '0')
}

/// The file name of the layouts before `V3`, such as `gec00.t00z.pgrb2af006`; the
/// analysis (step 0) is `anl`.
pub open spec fn file_name_before_v3(c: Coordinate) -> Seq<char> {
    member_token(c.ensemble_member) + seq!['.', 't'] + hour_segment(c.reference_datetime) + seq![
        'z',
        '.',
        'p',
        'g',
        'r',
        'b',
        '2',
        'a',
    ] + if c.forecast_step_hours == 0 {
        seq!['a', 'n', 'l']
    } else {
        seq!['f'] + padded(c.forecast_step_hours as nat, 3, '0')
    }
}

/// The file name of the `V3` layout, such as `gec00.t00z.pgrb2a.0p50.f006`.
pub open spec fn file_name_v3(c: Coordinate) -> Seq<char> {
    member_token(c.ensemble_member) + seq!['.', 't'] + hour_segment(c.reference_datetime) + seq![
        'z',
        '.',
        'p',
        'g',
        'r',
        'b',
        '2',
        'a',
        '.',
        '0',
        'p',
        '5',
        '0',
        '.',
        'f',
    ] + padded(c.forecast_step_hours as nat, 3, '0')
}

/// The path of the GRIB file that holds the messages of `c` in layout `v`.
pub open spec fn grib_path(v: Version, c: Coordinate) -> Seq<char> {
    let head = date_segment(c.reference_datetime) + seq!['/'] + hour_segment(c.reference_datetime)
        + seq!['/'];
    match v {
        Version::V0 => head + file_name_before_v3(c),
        Version::V1 | Version::V2 => head + seq!['p', 'g', 'r', 'b', '2', 'a', '/']
            + file_name_before_v3(c),
        Version::V3 => head + seq!['a', 't', 'm', 'o', 's', '/', 'p', 'g', 'r', 'b', '2', 'a', 'p', '5', '/']
            + file_name_v3(c),
    }
}

fn push_member(s: &mut String, m: EnsembleMember)
    ensures
        final(s)@ == old(s)@ + member_token(m),
{
    proof {
        reveal_strlit("gec00");
        reveal_strlit("gep");
        reveal_strlit("geavg");
        reveal_strlit("gespr");
        reveal_strlit("0");
    }
    match m {
        EnsembleMember::Control => s.append("gec00"),
        EnsembleMember::Perturbed(n) => {
            let ghost s0 = s@;
            s.append("gep");
            push_padded(s, n as u64, 2, "0");
            assert(s@ =~= s0 + member_token(m));
        },
        EnsembleMember::Mean => s.append("geavg"),
        EnsembleMember::Spread => s.append("gespr"),
    }
}

fn push_file_name(s: &mut String, v: Version, c: &Coordinate)
    ensures
        final(s)@ == old(s)@ + (if v == Version::V3 {
            file_name_v3(*c)
        } else {
            file_name_before_v3(*c)
        }),
{
    proof {
        reveal_strlit(".t");
        reveal_strlit("z.pgrb2a");
        reveal_strlit("z.pgrb2a.0p50.f");
        reveal_strlit("anl");
        reveal_strlit("f");
        reveal_strlit("0");
    }
    let ghost s0 = s@;
    push_member(s, c.ensemble_member);
    s.append(".t");
    push_padded(s, c.reference_datetime.hour as u64, 2, "0");
    if v == Version::V3 {
        s.append("z.pgrb2a.0p50.f");
        push_padded(s, c.forecast_step_hours as u64, 3, "0");
        assert(s@ =~= s0 + file_name_v3(*c));
    } else {
        s.append("z.pgrb2a");
        if c.forecast_step_hours == 0 {
            s.append("anl");
        } else {
            s.append("f");
            push_padded(s, c.forecast_step_hours as u64, 3, "0");
        }
        assert(s@ =~= s0 + file_name_before_v3(*c));
    }
}

/// The path, in layout `version`, of the GRIB file that holds the messages of `coord` and
/// that its index describes: for example `gefs.20170101/00/gec00.t00z.pgrb2af006`. The
/// path of the index file itself is [`to_index_file_path`].
pub fn to_idx_path(version: Version, coord: &Coordinate) -> (r: String)
    ensures
        r@ == grib_path(version, *coord),
{
    proof {
        reveal_strlit("gefs.");
        reveal_strlit("/");
        reveal_strlit("pgrb2a/");
        reveal_strlit("atmos/pgrb2ap5/");
        reveal_strlit("0");
    }
    let dt = coord.reference_datetime;
    let mut s = String::new();
    s.append("gefs.");
    push_padded(&mut s, dt.year as u64, 4, "0");
    push_padded(&mut s, dt.month as u64, 2, "0");
    push_padded(&mut s, dt.day as u64, 2, "0");
    s.append("/");
    push_padded(&mut s, dt.hour as u64, 2, "0");
    s.append("/");
    let ghost head = s@;
    assert(head =~= date_segment(dt) + seq!['/'] + hour_segment(dt) + seq!['/']);
    match version {
        Version::V0 => {},
        Version::V1 | Version::V2 => s.append("pgrb2a/"),
        Version::V3 => s.append("atmos/pgrb2ap5/"),
    }
    push_file_name(&mut s, version, coord);
    assert(s@ =~= grib_path(version, *coord));
    s
}

/// The path of the index file of the GRIB file of `coord`, in layout `version`: the GRIB
/// path followed by `.idx`, such as `gefs.20170101/00/gec00.t00z.pgrb2af006.idx`.
pub fn to_index_file_path(version: Version, coord: &Coordinate) -> (r: String)
    ensures
        r@ == grib_path(version, *coord) + idx_suffix(),
{
    proof {
        reveal_strlit(".idx");
    }
    let mut s = to_idx_path(version, coord);
    s.append(".idx");
    s
}

/// The path of the index file of `coord` (ending in `.idx`, as [`to_index_file_path`]
/// gives it), in the layout in force at its reference datetime; in the transition window
/// of `V2`, the earlier (`V1`) layout. [`decode`] reads such a path back.
pub fn encode(coord: &Coordinate) -> (r: Result<String, BeforeStartOfDatasetError>)
    ensures
        r matches Ok(p) ==> resolve(coord.reference_datetime.spec_key()) matches Some(v) && p@
            == grib_path(v, *coord) + idx_suffix(),
        r is Err <==> resolve(coord.reference_datetime.spec_key()) is None,
{
    match Version::try_from_reference_datetime(&coord.reference_datetime) {
        Ok(v) => Ok(to_index_file_path(v, coord)),
        Err(e) => Err(e),
    }
}

/// Whether the file name of `path` (its last segment) has the extension `idx`.
pub fn has_idx_extension(path: &str) -> (r: bool)
    ensures
        r == has_suffix(segments(path@).last(), idx_suffix()),
{
    let chars = to_chars(path);
    let segs = split_segments(&chars);
    let n = segs.len();
    proof {
        assert(segs@.map_values(|v: Vec<char>| v@).last() == segs@[n - 1]@);
    }
    is_idx_file(&segs[n - 1])
}

/// The segments of the index path of `c` in layout `v`.
pub open spec fn idx_path_segments(v: Version, c: Coordinate) -> Seq<Seq<char>> {
    let seg0 = date_segment(c.reference_datetime);
    let hh = hour_segment(c.reference_datetime);
    match v {
        Version::V0 => seq![seg0, hh, file_name_before_v3(c) + idx_suffix()],
        Version::V1 | Version::V2 => seq![
            seg0,
            hh,
            seq!['p', 'g', 'r', 'b', '2', 'a'],
            file_name_before_v3(c) + idx_suffix(),
        ],
        Version::V3 => seq![
            seg0,
            hh,
            seq!['a', 't', 'm', 'o', 's'],
            seq!['p', 'g', 'r', 'b', '2', 'a', 'p', '5'],
            file_name_v3(c) + idx_suffix(),
        ],
    }
}

proof fn lemma_no_slash_concat(a: Seq<char>, b: Seq<char>)
    requires
        no_slash(a),
        no_slash(b),
    ensures
        no_slash(a + b),
{
    assert forall|k: int| 0 <= k < (a + b).len() implies #[trigger] (a + b)[k] != '/' by {
        if k >= a.len() {
            assert((a + b)[k] == b[k - a.len()]);
        }
    }
}

proof fn lemma_member_no_slash(m: EnsembleMember)
    ensures
        no_slash(member_token(m)),
{
    match m {
        EnsembleMember::Perturbed(n) => {
            lemma_padded_no_slash(n as nat, 2, '0');
            lemma_no_slash_concat(seq!['g', 'e', 'p'], padded(n as nat, 2, '0'));
        },
        _ => {},
    }
}

proof fn lemma_file_names_no_slash(c: Coordinate)
    ensures
        no_slash(file_name_before_v3(c) + idx_suffix()),
        no_slash(file_name_v3(c) + idx_suffix()),
{
    let m = member_token(c.ensemble_member);
    let hh = hour_segment(c.reference_datetime);
    let step = padded(c.forecast_step_hours as nat, 3, '0');
    lemma_member_no_slash(c.ensemble_member);
    lemma_padded_no_slash(c.reference_datetime.hour as nat, 2, '0');
    lemma_padded_no_slash(c.forecast_step_hours as nat, 3, '0');
    let dot_t = seq!['.', 't'];
    let z_a = seq!['z', '.', 'p', 'g', 'r', 'b', '2', 'a'];
    let z_a3 = seq!['z', '.', 'p', 'g', 'r', 'b', '2', 'a', '.', '0', 'p', '5', '0', '.', 'f'];
    let tail = if c.forecast_step_hours == 0 {
        seq!['a', 'n', 'l']
    } else {
        seq!['f'] + step
    };
    lemma_no_slash_concat(seq!['f'], step);
    lemma_no_slash_concat(m, dot_t);
    lemma_no_slash_concat(m + dot_t, hh);
    lemma_no_slash_concat(m + dot_t + hh, z_a);
    lemma_no_slash_concat(m + dot_t + hh + z_a, tail);
    lemma_no_slash_concat(m + dot_t + hh + z_a + tail, idx_suffix());
    lemma_no_slash_concat(m + dot_t + hh, z_a3);
    lemma_no_slash_concat(m + dot_t + hh + z_a3, step);
    lemma_no_slash_concat(m + dot_t + hh + z_a3 + step, idx_suffix());
}

proof fn lemma_all_digits_concat(a: Seq<char>, b: Seq<char>)
    requires
        all_digits(a),
        all_digits(b),
    ensures
        all_digits(a + b),
{
    assert forall|k: int| 0 <= k < (a + b).len() implies is_digit(#[trigger] (a + b)[k]) by {
        if k >= a.len() {
            assert((a + b)[k] == b[k - a.len()]);
        }
    }
}

/// The first two segments of a well-formed datetime decode back to it.
proof fn lemma_datetime_segments(dt: ReferenceDatetime)
    requires
        dt.wf(),
    ensures
        datetime_from_segments(date_segment(dt), hour_segment(dt)) == Ok::<
            ReferenceDatetime,
            DecodeErrorKind,
        >(dt),
        has_prefix(date_segment(dt), gefs_prefix()),
        no_slash(date_segment(dt)),
        no_slash(hour_segment(dt)),
{
    reveal_with_fuel(pow10, 5);
    let y = padded(dt.year as nat, 4, '0');
    let m = padded(dt.month as nat, 2, '0');
    let d = padded(dt.day as nat, 2, '0');
    let h = padded(dt.hour as nat, 2, '0');
    lemma_padded_digits(dt.year as nat, 4);
    lemma_padded_digits(dt.month as nat, 2);
    lemma_padded_digits(dt.day as nat, 2);
    lemma_padded_digits(dt.hour as nat, 2);
    let seg0 = date_segment(dt);
    assert(seg0 == gefs_prefix() + y + m + d);
    assert(seg0.len() == 13);
    assert(seg0.subrange(5, 9) =~= y);
    assert(seg0.subrange(9, 11) =~= m);
    assert(seg0.subrange(11, 13) =~= d);
    assert(seg0.subrange(5, 13) =~= y + m + d);
    assert(seg0.subrange(0, 5) =~= gefs_prefix());
    lemma_all_digits_concat(y, m);
    lemma_all_digits_concat(y + m, d);
    assert(no_slash(gefs_prefix()));
    lemma_no_slash_concat(gefs_prefix(), y);
    lemma_no_slash_concat(gefs_prefix() + y, m);
    lemma_no_slash_concat(gefs_prefix() + y + m, d);
}

proof fn lemma_join3(a: Seq<char>, b: Seq<char>, c: Seq<char>)
    ensures
        join_segments(seq![a, b, c]) == a + seq!['/'] + b + seq!['/'] + c,
{
    let p = seq![a, b, c];
    assert(p.drop_first() =~= seq![b, c]);
    assert(seq![b, c].drop_first() =~= seq![c]);
    assert(join_segments(seq![c]) == c);
    assert(join_segments(seq![b, c]) == b + seq!['/'] + c);
    assert(join_segments(p) =~= a + seq!['/'] + b + seq!['/'] + c);
}

proof fn lemma_join4(a: Seq<char>, b: Seq<char>, c: Seq<char>, d: Seq<char>)
    ensures
        join_segments(seq![a, b, c, d]) == a + seq!['/'] + b + seq!['/'] + c + seq!['/'] + d,
{
    let p = seq![a, b, c, d];
    assert(p.drop_first() =~= seq![b, c, d]);
    lemma_join3(b, c, d);
    assert(join_segments(p) =~= a + seq!['/'] + b + seq!['/'] + c + seq!['/'] + d);
}

proof fn lemma_join5(a: Seq<char>, b: Seq<char>, c: Seq<char>, d: Seq<char>, e: Seq<char>)
    ensures
        join_segments(seq![a, b, c, d, e]) == a + seq!['/'] + b + seq!['/'] + c + seq!['/'] + d
            + seq!['/'] + e,
{
    let p = seq![a, b, c, d, e];
    assert(p.drop_first() =~= seq![b, c, d, e]);
    lemma_join4(b, c, d, e);
    assert(join_segments(p) =~= a + seq!['/'] + b + seq!['/'] + c + seq!['/'] + d + seq!['/']
        + e);
}

/// The index path of `c` in layout `v` is its segments joined with `/`.
proof fn lemma_idx_path_joined(v: Version, c: Coordinate)
    ensures
        join_segments(idx_path_segments(v, c)) == grib_path(v, c) + idx_suffix(),
{
    let seg0 = date_segment(c.reference_datetime);
    let hh = hour_segment(c.reference_datetime);
    match v {
        Version::V0 => {
            lemma_join3(seg0, hh, file_name_before_v3(c) + idx_suffix());
            assert(join_segments(idx_path_segments(v, c)) =~= grib_path(v, c) + idx_suffix());
        },
        Version::V1 | Version::V2 => {
            lemma_join4(
                seg0,
                hh,
                seq!['p', 'g', 'r', 'b', '2', 'a'],
                file_name_before_v3(c) + idx_suffix(),
            );
            assert(join_segments(idx_path_segments(v, c)) =~= grib_path(v, c) + idx_suffix());
        },
        Version::V3 => {
            lemma_join5(
                seg0,
                hh,
                seq!['a', 't', 'm', 'o', 's'],
                seq!['p', 'g', 'r', 'b', '2', 'a', 'p', '5'],
                file_name_v3(c) + idx_suffix(),
            );
            assert(join_segments(idx_path_segments(v, c)) =~= grib_path(v, c) + idx_suffix());
        },
    }
}

/// Encoding then decoding gives back the reference datetime, for every well-formed
/// coordinate, under the layout in force at its reference datetime; in the transition
/// window of `V2`, under either of the two layouts that it reads.
pub proof fn lemma_round_trip(v: Version, c: Coordinate)
    requires
        c.reference_datetime.wf(),
        resolve(c.reference_datetime.spec_key()) == Some(v) || (resolve(
            c.reference_datetime.spec_key(),
        ) == Some(Version::V2) && (v == Version::V1 || v == Version::V3)),
    ensures
        idx_decode(grib_path(v, c) + idx_suffix()) == Ok::<ReferenceDatetime, DecodeErrorKind>(
            c.reference_datetime,
        ),
{
    let dt = c.reference_datetime;
    let parts = idx_path_segments(v, c);
    lemma_datetime_segments(dt);
    lemma_file_names_no_slash(c);
    assert(no_slash(seq!['p', 'g', 'r', 'b', '2', 'a']));
    assert(no_slash(seq!['a', 't', 'm', 'o', 's']));
    assert(no_slash(seq!['p', 'g', 'r', 'b', '2', 'a', 'p', '5']));
    assert forall|p: int| 0 <= p < parts.len() implies no_slash(#[trigger] parts[p]) by {}
    lemma_segments_of_joined(parts);
    lemma_idx_path_joined(v, c);
    let last = parts.last();
    assert(last.subrange(last.len() - 4, last.len() as int) =~= idx_suffix());
}

/// A path whose first segment lacks the `gefs.` prefix, whose file name lacks the `.idx`
/// suffix, or whose hour segment is two digits of 24 or more, never decodes; `decode` then
/// returns an error.
pub proof fn lemma_malformed_paths_fail(s: Seq<char>)
    ensures
        !has_prefix(segments(s)[0], gefs_prefix()) ==> idx_decode(s) is Err,
        !has_suffix(segments(s).last(), idx_suffix()) ==> idx_decode(s) is Err,
        segments(s).len() >= 2 && segments(s)[1].len() == 2 && all_digits(segments(s)[1])
            && digits_value(segments(s)[1]) >= 24 ==> idx_decode(s) is Err,
{
}

} // verus!

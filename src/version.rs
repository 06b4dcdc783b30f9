//! The versions of the GEFS path layout, and which one a reference datetime falls under.
use vstd::prelude::*;

use crate::datetime::ReferenceDatetime;

verus! {

/// The layout of the GEFS paths has changed over time. Each version starts at a reference
/// datetime and lasts until the next one starts; the last lasts indefinitely.
///
/// These version numbers name layouts of paths, not versions of the forecast model.
#[derive(Clone, Copy, Debug, PartialEq, Eq, Structural, Hash)]
pub enum Version {
    /// Paths of the form `gefs.20170101/00/gec00.t00z.pgrb2aanl.idx`.
    V0,
    /// Paths of the form `gefs.20180727/00/pgrb2a/gec00.t00z.pgrb2aanl.idx`.
    V1,
    /// The two runs 2020-09-23T00 and T06, whose folders hold paths of both the `V1` and the
    /// `V3` forms. Paths are built in the `V1` form; both forms are read.
    V2,
    /// Paths of the form `gefs.20241008/00/atmos/pgrb2ap5/geavg.t00z.pgrb2a.0p50.f000.idx`.
    V3,
}

/// The reference datetime is earlier than the start of the dataset.
#[derive(Clone, Copy, Debug, PartialEq, Eq, Structural)]
pub struct BeforeStartOfDatasetError;

/// The start of a version, as a `YYYYMMDDHH` key.
pub open spec fn start_key(v: Version) -> int {
    match v {
        Version::V0 => 2017010100,
        Version::V1 => 2018072700,
        Version::V2 => 2020092300,
        Version::V3 => 2020092312,
    }
}

/// The version that is active at the datetime of key `key`: the latest one that started at
/// or before it. None before the first version.
pub open spec fn resolve(key: int) -> Option<Version> {
    if key < start_key(Version::V0) {
        None
    } else if key < start_key(Version::V1) {
        Some(Version::V0)
    } else if key < start_key(Version::V2) {
        Some(Version::V1)
    } else if key < start_key(Version::V3) {
        Some(Version::V2)
    } else {
        Some(Version::V3)
    }
}

impl Version {
    /// The reference datetime at which this version becomes active.
    pub fn start_reference_datetime(&self) -> (r: ReferenceDatetime)
        ensures
            r.wf(),
            r.spec_key() == start_key(*self),
    {
        match self {
            Version::V0 => ReferenceDatetime { year: 2017, month: 1, day: 1, hour: 0 },
            Version::V1 => ReferenceDatetime { year: 2018, month: 7, day: 27, hour: 0 },
            Version::V2 => ReferenceDatetime { year: 2020, month: 9, day: 23, hour: 0 },
            Version::V3 => ReferenceDatetime { year: 2020, month: 9, day: 23, hour: 12 },
        }
    }

    /// All versions, in the order in which they start.
    pub fn all_versions() -> (r: [Version; 4])
        ensures
            r@ == seq![Version::V0, Version::V1, Version::V2, Version::V3],
    {
        let r = [Version::V0, Version::V1, Version::V2, Version::V3];
        assert(r@ =~= seq![Version::V0, Version::V1, Version::V2, Version::V3]);
        r
    }

    /// The version that is active at `query_datetime`: the latest one whose start is not
    /// after it.
    pub fn try_from_reference_datetime(query_datetime: &ReferenceDatetime) -> (r: Result<
        Version,
        BeforeStartOfDatasetError,
    >)
        ensures
            r matches Ok(v) ==> resolve(query_datetime.spec_key()) == Some(v),
            r is Err <==> resolve(query_datetime.spec_key()) is None,
    {
        let versions = Self::all_versions();
        let key = query_datetime.key();
        let mut i: usize = 0;
        while i < 3
            invariant
                i <= 3,
                versions@ == seq![Version::V0, Version::V1, Version::V2, Version::V3],
                key == query_datetime.spec_key(),
                forall|k: int| 0 <= k < i ==> !(start_key(#[trigger] versions@[k]) <= key < start_key(versions@[k + 1])),
            decreases 3 - i,
        {
            let this_version = versions[i];
            let next_version = versions[i + 1];
            if this_version.start_reference_datetime().key() <= key
                && key < next_version.start_reference_datetime().key() {
                return Ok(this_version);
            }
            i = i + 1;
        }
        if versions[3].start_reference_datetime().key() <= key {
            Ok(versions[3])
        } else {
            Err(BeforeStartOfDatasetError)
        }
    }
}

/// Resolution is monotonic: a later datetime never falls under a version that started
/// earlier than the version of an earlier datetime; and a datetime before the start of the
/// first version never resolves.
pub proof fn lemma_resolve_monotonic(t1: ReferenceDatetime, t2: ReferenceDatetime)
    ensures
        t1.spec_key() < t2.spec_key() && resolve(t1.spec_key()) is Some ==> resolve(
            t2.spec_key(),
        ) is Some && start_key(resolve(t1.spec_key())->0) <= start_key(
            resolve(t2.spec_key())->0,
        ),
        t1.spec_key() < start_key(Version::V0) ==> resolve(t1.spec_key()) is None,
{
}

/// The resolved version always started at or before the datetime, and the next version,
/// if any, starts after it.
pub proof fn lemma_resolve_is_latest_start(t: ReferenceDatetime)
    ensures
        resolve(t.spec_key()) matches Some(v) ==> start_key(v) <= t.spec_key() && (v
            != Version::V3 ==> t.spec_key() < start_key(next_version(v))),
{
}

/// The version that follows `v`; the last one for the last one.
pub open spec fn next_version(v: Version) -> Version {
    match v {
        Version::V0 => Version::V1,
        Version::V1 => Version::V2,
        _ => Version::V3,
    }
}

} // verus!

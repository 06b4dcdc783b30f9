//! The coordinate labels of a dataset: five sorted sets of distinct labels, grown while the
//! store is listed.
use vstd::prelude::*;

use crate::codec::{
    decode, idx_decode, path_to_reference_datetime, prefix_decode, DecodeError, DecodeErrorKind,
};
use crate::database::{insert_sorted_id, sorted_ids};
use crate::datetime::{lemma_key_injective, ReferenceDatetime};
use crate::lex::{compare_str, lemma_str_order, str_lt, strictly_sorted};

use std::cmp::Ordering;

verus! {

/// The labels of each axis of a dataset. Each `Vec` is sorted and holds distinct values.
pub struct CoordLabels {
    pub reference_datetime: Vec<ReferenceDatetime>,
    pub ensemble_member: Vec<String>,
    /// Forecast steps, in hours.
    pub forecast_step: Vec<u64>,
    pub parameter: Vec<String>,
    pub vertical_level: Vec<String>,
}

/// Strictly increasing in time.
pub open spec fn sorted_datetimes(s: Seq<ReferenceDatetime>) -> bool {
    forall|i: int, j: int| 0 <= i < j < s.len() ==> (#[trigger] s[i]).spec_key() < (#[trigger] s[j]).spec_key()
}

/// The views of a sequence of strings.
pub open spec fn views(s: Seq<String>) -> Seq<Seq<char>> {
    s.map_values(|x: String| x@)
}

/// Inserts `dt` into the increasing sequence `v`, unless it is there already; returns
/// whether it was inserted.
fn insert_sorted_datetime(v: &mut Vec<ReferenceDatetime>, dt: ReferenceDatetime) -> (r: bool)
    requires
        sorted_datetimes(old(v)@),
        forall|i: int| 0 <= i < old(v)@.len() ==> (#[trigger] old(v)@[i]).wf(),
        dt.wf(),
    ensures
        sorted_datetimes(final(v)@),
        forall|i: int| 0 <= i < final(v)@.len() ==> (#[trigger] final(v)@[i]).wf(),
        r == !old(v)@.contains(dt),
        final(v)@.to_set() == old(v)@.to_set().insert(dt),
{
    let key = dt.key();
    let mut pos: usize = 0;
    while pos < v.len() && v[pos].key() < key
        invariant
            sorted_datetimes(v@),
            pos <= v@.len(),
            key == dt.spec_key(),
            forall|k: int| 0 <= k < pos ==> (#[trigger] v@[k]).spec_key() < key,
        decreases v.len() - pos,
    {
        pos = pos + 1;
    }
    let ghost before = v@;
    proof {
        assert forall|k: int| 0 <= k < before.len() && k != pos implies before[k] != dt by {
            if k > pos {
                assert(before[pos as int].spec_key() < before[k].spec_key());
            }
        }
    }
    if pos < v.len() && v[pos].key() == key {
        proof {
            lemma_key_injective(before[pos as int], dt);
            assert(before.to_set().insert(dt) =~= before.to_set());
        }
        return false;
    }
    proof {
        if pos < before.len() {
            assert(before[pos as int] != dt);
        }
        assert(!before.contains(dt));
    }
    v.insert(pos, dt);
    proof {
        let after = v@;
        assert(after =~= before.insert(pos as int, dt));
        assert forall|x: ReferenceDatetime| after.contains(x) <==> before.contains(x) || x == dt by {
            if after.contains(x) {
                let k = choose|k: int| 0 <= k < after.len() && after[k] == x;
                if k < pos {
                    assert(before[k] == x);
                } else if k > pos {
                    assert(before[k - 1] == x);
                }
            }
            if before.contains(x) {
                let k = choose|k: int| 0 <= k < before.len() && before[k] == x;
                if k < pos {
                    assert(after[k] == x);
                } else {
                    assert(after[k + 1] == x);
                }
            }
            if x == dt {
                assert(after[pos as int] == dt);
            }
        }
        assert(after.to_set() =~= before.to_set().insert(dt));
    }
    true
}

/// Inserts `s` into the increasing sequence of strings `v`, unless it is there already;
/// returns whether it was inserted.
fn insert_sorted_string(v: &mut Vec<String>, s: String) -> (r: bool)
    requires
        strictly_sorted(views(old(v)@)),
    ensures
        strictly_sorted(views(final(v)@)),
        r == !views(old(v)@).contains(s@),
        views(final(v)@).to_set() == views(old(v)@).to_set().insert(s@),
{
    let ghost before = views(v@);
    let mut pos: usize = 0;
    let mut found = false;
    while pos < v.len()
        invariant_except_break
            !found,
        invariant
            views(v@) == before,
            pos <= v@.len(),
            forall|k: int| 0 <= k < pos ==> str_lt(#[trigger] before[k], s@),
        ensures
            found ==> pos < v@.len() && before[pos as int] == s@,
            !found && pos < v@.len() ==> str_lt(s@, before[pos as int]),
        decreases v.len() - pos,
    {
        match compare_str(v[pos].as_str(), s.as_str()) {
            Ordering::Less => {
                pos = pos + 1;
            },
            Ordering::Equal => {
                found = true;
                break ;
            },
            Ordering::Greater => {
                break ;
            },
        }
    }
    proof {
        assert forall|k: int| 0 <= k < before.len() && k != pos implies before[k] != s@ by {
            if k < pos {
                lemma_str_order(before[k], s@, s@);
            } else {
                lemma_str_order(s@, before[pos as int], before[k]);
                lemma_str_order(before[k], s@, s@);
            }
        }
    }
    if found {
        proof {
            assert(before.to_set().insert(s@) =~= before.to_set());
        }
        return false;
    }
    proof {
        if pos < before.len() {
            lemma_str_order(s@, before[pos as int], s@);
        }
        assert(!before.contains(s@));
    }
    let ghost sv = s@;
    v.insert(pos, s);
    proof {
        let after = views(v@);
        assert(after =~= before.insert(pos as int, sv));
        assert forall|x: int, y: int| 0 <= x < y < after.len() implies str_lt(
            #[trigger] after[x],
            #[trigger] after[y],
        ) by {
            if y < pos {
            } else if x < pos && y == pos {
            } else if x < pos && y > pos {
                lemma_str_order(before[x], sv, before[y - 1]);
            } else if x == pos {
                if y - 1 > pos {
                    lemma_str_order(sv, before[pos as int], before[y - 1]);
                }
            } else {
                assert(after[x] == before[x - 1] && after[y] == before[y - 1]);
            }
        }
        assert forall|x: Seq<char>| after.contains(x) <==> before.contains(x) || x == sv by {
            if after.contains(x) {
                let k = choose|k: int| 0 <= k < after.len() && after[k] == x;
                if k < pos {
                    assert(before[k] == x);
                } else if k > pos {
                    assert(before[k - 1] == x);
                }
            }
            if before.contains(x) {
                let k = choose|k: int| 0 <= k < before.len() && before[k] == x;
                if k < pos {
                    assert(after[k] == x);
                } else {
                    assert(after[k + 1] == x);
                }
            }
            if x == sv {
                assert(after[pos as int] == sv);
            }
        }
        assert(after.to_set() =~= before.to_set().insert(sv));
    }
    true
}

/// What decoding `s` gives: as a listed prefix (see `path_to_reference_datetime`) when
/// `prefixes`, else as an index path (see `decode`).
pub open spec fn decode_as(prefixes: bool, s: Seq<char>) -> Result<ReferenceDatetime, DecodeErrorKind> {
    if prefixes {
        prefix_decode(s)
    } else {
        idx_decode(s)
    }
}

/// The reference datetimes that the paths `paths` decode to.
pub open spec fn decoded_datetimes(prefixes: bool, paths: Seq<Seq<char>>) -> Set<ReferenceDatetime> {
    Set::new(
        |dt: ReferenceDatetime|
            exists|i: int|
                0 <= i < paths.len() && #[trigger] decode_as(prefixes, paths[i]) == Ok::<
                    ReferenceDatetime,
                    DecodeErrorKind,
                >(dt),
    )
}

/// The paths of `paths` that do not decode, in order, each with the reason.
pub open spec fn failures(prefixes: bool, paths: Seq<Seq<char>>) -> Seq<(Seq<char>, DecodeErrorKind)>
    decreases paths.len(),
{
    if paths.len() == 0 {
        Seq::empty()
    } else {
        let rest = failures(prefixes, paths.drop_last());
        match decode_as(prefixes, paths.last()) {
            Ok(_) => rest,
            Err(k) => rest.push((paths.last(), k)),
        }
    }
}

/// The path and the reason of each error.
pub open spec fn error_views(errors: Seq<DecodeError>) -> Seq<(Seq<char>, DecodeErrorKind)> {
    errors.map_values(|e: DecodeError| (e.path@, e.kind))
}

/// Grows the five label sets of a dataset.
pub struct CoordLabelsBuilder {
    reference_datetime: Vec<ReferenceDatetime>,
    ensemble_member: Vec<String>,
    forecast_step: Vec<u64>,
    parameter: Vec<String>,
    vertical_level: Vec<String>,
}

impl CoordLabelsBuilder {
    /// Each set is held sorted, without duplicates.
    pub closed spec fn wf(&self) -> bool {
        &&& sorted_datetimes(self.reference_datetime@)
        &&& forall|i: int|
            0 <= i < self.reference_datetime@.len() ==> (#[trigger] self.reference_datetime@[i]).wf()
        &&& strictly_sorted(views(self.ensemble_member@))
        &&& sorted_ids(self.forecast_step@)
        &&& strictly_sorted(views(self.parameter@))
        &&& strictly_sorted(views(self.vertical_level@))
    }

    pub closed spec fn reference_datetimes(&self) -> Set<ReferenceDatetime> {
        self.reference_datetime@.to_set()
    }

    pub closed spec fn ensemble_members(&self) -> Set<Seq<char>> {
        views(self.ensemble_member@).to_set()
    }

    pub closed spec fn forecast_steps(&self) -> Set<u64> {
        self.forecast_step@.to_set()
    }

    pub closed spec fn parameters(&self) -> Set<Seq<char>> {
        views(self.parameter@).to_set()
    }

    pub closed spec fn vertical_levels(&self) -> Set<Seq<char>> {
        views(self.vertical_level@).to_set()
    }

    /// Empty label sets.
    pub fn new() -> (r: Self)
        ensures
            r.wf(),
            r.reference_datetimes() == Set::<ReferenceDatetime>::empty(),
            r.ensemble_members() == Set::<Seq<char>>::empty(),
            r.forecast_steps() == Set::<u64>::empty(),
            r.parameters() == Set::<Seq<char>>::empty(),
            r.vertical_levels() == Set::<Seq<char>>::empty(),
    {
        let r = CoordLabelsBuilder {
            reference_datetime: Vec::new(),
            ensemble_member: Vec::new(),
            forecast_step: Vec::new(),
            parameter: Vec::new(),
            vertical_level: Vec::new(),
        };
        proof {
            assert(r.reference_datetime@.to_set() =~= Set::<ReferenceDatetime>::empty());
            assert(views(r.ensemble_member@).to_set() =~= Set::<Seq<char>>::empty());
            assert(r.forecast_step@.to_set() =~= Set::<u64>::empty());
            assert(views(r.parameter@).to_set() =~= Set::<Seq<char>>::empty());
            assert(views(r.vertical_level@).to_set() =~= Set::<Seq<char>>::empty());
        }
        r
    }

    /// Adds a reference datetime; returns whether it was new.
    pub fn insert_reference_datetime(&mut self, datetime: ReferenceDatetime) -> (r: bool)
        requires
            old(self).wf(),
            datetime.wf(),
        ensures
            final(self).wf(),
            r == !old(self).reference_datetimes().contains(datetime),
            final(self).reference_datetimes() == old(self).reference_datetimes().insert(datetime),
            final(self).ensemble_members() == old(self).ensemble_members(),
            final(self).forecast_steps() == old(self).forecast_steps(),
            final(self).parameters() == old(self).parameters(),
            final(self).vertical_levels() == old(self).vertical_levels(),
    {
        insert_sorted_datetime(&mut self.reference_datetime, datetime)
    }

    /// Adds an ensemble member; returns whether it was new.
    pub fn insert_ensemble_member(&mut self, member: String) -> (r: bool)
        requires
            old(self).wf(),
        ensures
            final(self).wf(),
            r == !old(self).ensemble_members().contains(member@),
            final(self).ensemble_members() == old(self).ensemble_members().insert(member@),
            final(self).reference_datetimes() == old(self).reference_datetimes(),
            final(self).forecast_steps() == old(self).forecast_steps(),
            final(self).parameters() == old(self).parameters(),
            final(self).vertical_levels() == old(self).vertical_levels(),
    {
        insert_sorted_string(&mut self.ensemble_member, member)
    }

    /// Adds a forecast step, in hours; returns whether it was new.
    pub fn insert_forecast_step(&mut self, hours: u64) -> (r: bool)
        requires
            old(self).wf(),
        ensures
            final(self).wf(),
            r == !old(self).forecast_steps().contains(hours),
            final(self).forecast_steps() == old(self).forecast_steps().insert(hours),
            final(self).reference_datetimes() == old(self).reference_datetimes(),
            final(self).ensemble_members() == old(self).ensemble_members(),
            final(self).parameters() == old(self).parameters(),
            final(self).vertical_levels() == old(self).vertical_levels(),
    {
        let r = insert_sorted_id(&mut self.forecast_step, hours);
        proof {
            if !r {
                assert(old(self).forecast_step@.to_set().insert(hours) =~= old(self).forecast_step@.to_set());
            }
        }
        r
    }

    /// Adds a parameter abbreviation; returns whether it was new.
    pub fn insert_parameter(&mut self, parameter: String) -> (r: bool)
        requires
            old(self).wf(),
        ensures
            final(self).wf(),
            r == !old(self).parameters().contains(parameter@),
            final(self).parameters() == old(self).parameters().insert(parameter@),
            final(self).reference_datetimes() == old(self).reference_datetimes(),
            final(self).ensemble_members() == old(self).ensemble_members(),
            final(self).forecast_steps() == old(self).forecast_steps(),
            final(self).vertical_levels() == old(self).vertical_levels(),
    {
        insert_sorted_string(&mut self.parameter, parameter)
    }

    /// Adds a vertical level; returns whether it was new.
    pub fn insert_vertical_level(&mut self, level: String) -> (r: bool)
        requires
            old(self).wf(),
        ensures
            final(self).wf(),
            r == !old(self).vertical_levels().contains(level@),
            final(self).vertical_levels() == old(self).vertical_levels().insert(level@),
            final(self).reference_datetimes() == old(self).reference_datetimes(),
            final(self).ensemble_members() == old(self).ensemble_members(),
            final(self).forecast_steps() == old(self).forecast_steps(),
            final(self).parameters() == old(self).parameters(),
    {
        insert_sorted_string(&mut self.vertical_level, level)
    }

    /// The reference datetimes found so far, in increasing order.
    pub fn reference_datetime(&self) -> (r: &Vec<ReferenceDatetime>)
        requires
            self.wf(),
        ensures
            r@.to_set() == self.reference_datetimes(),
            sorted_datetimes(r@),
    {
        &self.reference_datetime
    }

    /// Decodes the index path `path` and adds its reference datetime; returns whether the
    /// datetime was new. A path that does not decode changes nothing.
    pub fn ingest_idx_path(&mut self, path: &str) -> (r: Result<bool, DecodeError>)
        requires
            old(self).wf(),
        ensures
            final(self).wf(),
            final(self).ensemble_members() == old(self).ensemble_members(),
            final(self).forecast_steps() == old(self).forecast_steps(),
            final(self).parameters() == old(self).parameters(),
            final(self).vertical_levels() == old(self).vertical_levels(),
            match idx_decode(path@) {
                Ok(dt) => r == Ok::<bool, DecodeError>(!old(self).reference_datetimes().contains(dt))
                    && final(self).reference_datetimes() == old(
                    self,
                ).reference_datetimes().insert(dt),
                Err(k) => r matches Err(e) && e.kind == k && e.path@ == path@
                    && final(self).reference_datetimes() == old(self).reference_datetimes(),
            },
    {
        match decode(path) {
            Ok(dt) => Ok(self.insert_reference_datetime(dt)),
            Err(e) => Err(e),
        }
    }

    /// Decodes the reference datetime of a listed prefix such as `gefs.20191122/18` and
    /// adds it; returns whether it was new. A prefix that does not decode changes nothing.
    pub fn ingest_reference_datetime_prefix(&mut self, path: &str) -> (r: Result<
        bool,
        DecodeError,
    >)
        requires
            old(self).wf(),
        ensures
            final(self).wf(),
            final(self).ensemble_members() == old(self).ensemble_members(),
            final(self).forecast_steps() == old(self).forecast_steps(),
            final(self).parameters() == old(self).parameters(),
            final(self).vertical_levels() == old(self).vertical_levels(),
            match prefix_decode(path@) {
                Ok(dt) => r == Ok::<bool, DecodeError>(!old(self).reference_datetimes().contains(dt))
                    && final(self).reference_datetimes() == old(
                    self,
                ).reference_datetimes().insert(dt),
                Err(k) => r matches Err(e) && e.kind == k && e.path@ == path@
                    && final(self).reference_datetimes() == old(self).reference_datetimes(),
            },
    {
        match path_to_reference_datetime(path) {
            Ok(dt) => Ok(self.insert_reference_datetime(dt)),
            Err(e) => Err(e),
        }
    }

    /// The five label sets, each sorted, without duplicates.
    pub fn build(self) -> (r: CoordLabels)
        requires
            self.wf(),
        ensures
            sorted_datetimes(r.reference_datetime@),
            r.reference_datetime@.to_set() == self.reference_datetimes(),
            r.reference_datetime@.len() == self.reference_datetimes().len(),
            strictly_sorted(views(r.ensemble_member@)),
            views(r.ensemble_member@).to_set() == self.ensemble_members(),
            sorted_ids(r.forecast_step@),
            r.forecast_step@.to_set() == self.forecast_steps(),
            strictly_sorted(views(r.parameter@)),
            views(r.parameter@).to_set() == self.parameters(),
            strictly_sorted(views(r.vertical_level@)),
            views(r.vertical_level@).to_set() == self.vertical_levels(),
    {
        proof {
            let s = self.reference_datetime@;
            assert(s.no_duplicates()) by {
                assert forall|i: int, j: int| 0 <= i < s.len() && 0 <= j < s.len() && i != j implies s[i]
                    != s[j] by {
                    if i < j {
                        assert(s[i].spec_key() < s[j].spec_key());
                    } else {
                        assert(s[j].spec_key() < s[i].spec_key());
                    }
                }
            }
            s.unique_seq_to_set();
        }
        CoordLabels {
            reference_datetime: self.reference_datetime,
            ensemble_member: self.ensemble_member,
            forecast_step: self.forecast_step,
            parameter: self.parameter,
            vertical_level: self.vertical_level,
        }
    }
}

impl CoordLabelsBuilder {
    /// Decodes each path of `paths`, in order, and adds its reference datetime: as listed
    /// prefixes such as `gefs.20191122/18` when `prefixes`, else as index paths. Returns an
    /// error, with the path and the reason, for each path that does not decode, in order;
    /// such a path adds nothing. A datetime shared by several paths is added once.
    pub fn ingest_paths(&mut self, paths: &Vec<String>, prefixes: bool) -> (errors: Vec<
        DecodeError,
    >)
        requires
            old(self).wf(),
        ensures
            final(self).wf(),
            final(self).reference_datetimes() == old(self).reference_datetimes().union(
                decoded_datetimes(prefixes, views(paths@)),
            ),
            error_views(errors@) == failures(prefixes, views(paths@)),
            final(self).ensemble_members() == old(self).ensemble_members(),
            final(self).forecast_steps() == old(self).forecast_steps(),
            final(self).parameters() == old(self).parameters(),
            final(self).vertical_levels() == old(self).vertical_levels(),
    {
        let ghost start = self.reference_datetimes();
        let ghost members = self.ensemble_members();
        let ghost steps = self.forecast_steps();
        let ghost params = self.parameters();
        let ghost levels = self.vertical_levels();
        let mut errors: Vec<DecodeError> = Vec::new();
        let ghost pv = views(paths@);
        let mut i: usize = 0;
        assert(decoded_datetimes(prefixes, pv.subrange(0, 0)) =~= Set::<ReferenceDatetime>::empty());
        assert(start.union(Set::<ReferenceDatetime>::empty()) =~= start);
        assert(error_views(errors@) =~= Seq::<(Seq<char>, DecodeErrorKind)>::empty());
        assert(pv.subrange(0, 0) =~= Seq::<Seq<char>>::empty());
        while i < paths.len()
            invariant
                pv == views(paths@),
                i <= paths@.len(),
                self.wf(),
                self.reference_datetimes() == start.union(
                    decoded_datetimes(prefixes, pv.subrange(0, i as int)),
                ),
                error_views(errors@) == failures(prefixes, pv.subrange(0, i as int)),
                self.ensemble_members() == members,
                self.forecast_steps() == steps,
                self.parameters() == params,
                self.vertical_levels() == levels,
            decreases paths.len() - i,
        {
            let ghost p = paths@[i as int]@;
            let result = if prefixes {
                self.ingest_reference_datetime_prefix(paths[i].as_str())
            } else {
                self.ingest_idx_path(paths[i].as_str())
            };
            proof {
                let pre = pv.subrange(0, i as int);
                let post = pv.subrange(0, i + 1);
                assert(post =~= pre.push(p));
                assert(post.drop_last() =~= pre);
                assert(post.last() == p);
                assert(pv[i as int] == p);
                match decode_as(prefixes, p) {
                    Ok(dt) => {
                        assert(decoded_datetimes(prefixes, post) =~= decoded_datetimes(prefixes, pre).insert(dt)) by {
                            assert forall|x: ReferenceDatetime| decoded_datetimes(prefixes, post).contains(x)
                                <==> decoded_datetimes(prefixes, pre).contains(x) || x == dt by {
                                if decoded_datetimes(prefixes, post).contains(x) {
                                    let k = choose|k: int|
                                        0 <= k < post.len() && #[trigger] decode_as(prefixes, post[k]) == Ok::<
                                            ReferenceDatetime,
                                            DecodeErrorKind,
                                        >(x);
                                    if k < i {
                                        assert(pre[k] == post[k]);
                                    }
                                }
                                if decoded_datetimes(prefixes, pre).contains(x) {
                                    let k = choose|k: int|
                                        0 <= k < pre.len() && #[trigger] decode_as(prefixes, pre[k]) == Ok::<
                                            ReferenceDatetime,
                                            DecodeErrorKind,
                                        >(x);
                                    assert(post[k] == pre[k]);
                                }
                                if x == dt {
                                    assert(post[i as int] == p);
                                }
                            }
                        }
                        assert(start.union(decoded_datetimes(prefixes, post)) =~= start.union(
                            decoded_datetimes(prefixes, pre),
                        ).insert(dt));
                    },
                    Err(_) => {
                        assert(decoded_datetimes(prefixes, post) =~= decoded_datetimes(prefixes, pre)) by {
                            assert forall|x: ReferenceDatetime| decoded_datetimes(prefixes, post).contains(x)
                                <==> decoded_datetimes(prefixes, pre).contains(x) by {
                                if decoded_datetimes(prefixes, post).contains(x) {
                                    let k = choose|k: int|
                                        0 <= k < post.len() && #[trigger] decode_as(prefixes, post[k]) == Ok::<
                                            ReferenceDatetime,
                                            DecodeErrorKind,
                                        >(x);
                                    if k < i {
                                        assert(pre[k] == post[k]);
                                    } else {
                                        assert(post[k] == p);
                                    }
                                }
                                if decoded_datetimes(prefixes, pre).contains(x) {
                                    let k = choose|k: int|
                                        0 <= k < pre.len() && #[trigger] decode_as(prefixes, pre[k]) == Ok::<
                                            ReferenceDatetime,
                                            DecodeErrorKind,
                                        >(x);
                                    assert(post[k] == pre[k]);
                                }
                            }
                        }
                    },
                }
            }
            match result {
                Ok(_) => {},
                Err(e) => {
                    let ghost e0 = errors@;
                    errors.push(e);
                    assert(error_views(errors@) =~= error_views(e0).push((p, decode_as(prefixes, p)->Err_0)));
                },
            }
            i = i + 1;
        }
        proof {
            assert(pv.subrange(0, paths@.len() as int) =~= pv);
        }
        errors
    }
}

/// Aggregates a listing of index paths: the reference datetime of every path that decodes
/// goes into the labels, once however many paths share it; the other four label sets stay
/// empty. Every path that does not decode gives one error, with the path and the reason,
/// in the order of the listing.
pub fn aggregate_idx_paths(paths: &Vec<String>) -> (r: (CoordLabels, Vec<DecodeError>))
    ensures
        r.0.reference_datetime@.to_set() == decoded_datetimes(false, views(paths@)),
        r.0.reference_datetime@.len() == decoded_datetimes(false, views(paths@)).len(),
        sorted_datetimes(r.0.reference_datetime@),
        r.0.ensemble_member@.len() == 0,
        r.0.forecast_step@.len() == 0,
        r.0.parameter@.len() == 0,
        r.0.vertical_level@.len() == 0,
        error_views(r.1@) == failures(false, views(paths@)),
{
    let mut builder = CoordLabelsBuilder::new();
    let errors = builder.ingest_paths(paths, false);
    proof {
        assert(Set::<ReferenceDatetime>::empty().union(decoded_datetimes(false, views(paths@)))
            =~= decoded_datetimes(false, views(paths@)));
    }
    let labels = builder.build();
    proof {
        if labels.ensemble_member@.len() > 0 {
            assert(views(labels.ensemble_member@).to_set().contains(views(labels.ensemble_member@)[0]));
        }
        if labels.forecast_step@.len() > 0 {
            assert(labels.forecast_step@.to_set().contains(labels.forecast_step@[0]));
        }
        if labels.parameter@.len() > 0 {
            assert(views(labels.parameter@).to_set().contains(views(labels.parameter@)[0]));
        }
        if labels.vertical_level@.len() > 0 {
            assert(views(labels.vertical_level@).to_set().contains(views(labels.vertical_level@)[0]));
        }
    }
    (labels, errors)
}

} // verus!

//! The parameter database: parameters by numeric identifier, and numeric identifiers by
//! abbreviation.
use vstd::prelude::*;

use std::cmp::Ordering;
use std::collections::BTreeMap;

use crate::lex::{compare_str, lemma_str_order, str_lt, strictly_sorted};
use crate::numeric_id::NumericId;
use crate::parameter::{Abbrev, Parameter};
use crate::text::{decimal, padded, push_decimal, push_padded};
use vstd::string::StringExecFns;

verus! {

broadcast use vstd::std_specs::btree::group_btree_axioms;

/// Strictly increasing.
pub open spec fn sorted_ids(s: Seq<u64>) -> bool {
    forall|i: int, j: int| 0 <= i < j < s.len() ==> s[i] < s[j]
}

/// The identifiers in `m` whose parameter has abbreviation `a`.
pub open spec fn ids_with_abbrev(m: Map<u64, Parameter>, a: Seq<char>) -> Set<u64> {
    m.dom().filter(|id: u64| m[id].abbrev@ == a)
}

/// The non-empty abbreviations of the parameters in `m`.
pub open spec fn abbrevs_of(m: Map<u64, Parameter>) -> Set<Seq<char>> {
    Set::new(
        |a: Seq<char>| a.len() > 0 && exists|id: u64| m.contains_key(id) && #[trigger] m[id].abbrev@ == a,
    )
}

/// `r` is what a lookup of abbreviation `a` returns from `m`: every identifier that
/// carries `a`, in increasing order, each with its parameter. An empty abbreviation
/// finds nothing.
pub open spec fn lookup_result(
    m: Map<u64, Parameter>,
    a: Seq<char>,
    r: Seq<(NumericId, Parameter)>,
) -> bool {
    let ids = r.map_values(|x: (NumericId, Parameter)| x.0.spec_packed());
    &&& sorted_ids(ids)
    &&& ids.to_set() == (if a.len() == 0 {
        Set::<u64>::empty()
    } else {
        ids_with_abbrev(m, a)
    })
    &&& forall|k: int| 0 <= k < r.len() ==> #[trigger] r[k].1 == m[r[k].0.spec_packed()]
}

/// What an insert of `parameter` under `numeric_id` into `m` does: it fails, leaving the
/// database as it was, exactly when the identifier is already present; else it adds the
/// pair.
pub open spec fn insert_result(
    m: Map<u64, Parameter>,
    numeric_id: NumericId,
    parameter: Parameter,
    m_after: Map<u64, Parameter>,
    r: Result<(), ParameterInsertionError>,
) -> bool {
    let key = numeric_id.spec_packed();
    if m.contains_key(key) {
        &&& r == Err::<(), ParameterInsertionError>(
            ParameterInsertionError::NumericIdAlreadyExistsInNumericIdToParam((numeric_id, m[key])),
        )
        &&& m_after == m
    } else {
        &&& r is Ok
        &&& m_after == m.insert(key, parameter)
    }
}

/// The error of a rejected insertion.
#[derive(Debug, PartialEq, Eq)]
pub enum ParameterInsertionError {
    /// The abbreviation index already holds this identifier under this abbreviation.
    NumericIdAlreadyExistsInAbbrevToNumericId((NumericId, Parameter)),
    /// The identifier is already in the database; the parameter is the one stored before.
    NumericIdAlreadyExistsInNumericIdToParam((NumericId, Parameter)),
}

/// The identifiers that share one abbreviation, in increasing order.
struct AbbrevEntry {
    abbrev: Abbrev,
    numeric_ids: Vec<u64>,
}

/// The abbreviation index `e` is consistent with the parameters `m`.
spec fn index_wf(e: Seq<AbbrevEntry>, m: Map<u64, Parameter>) -> bool {
    &&& forall|i: int| 0 <= i < e.len() ==> (#[trigger] e[i]).abbrev@.len() > 0
    &&& forall|i: int| 0 <= i < e.len() ==> sorted_ids((#[trigger] e[i]).numeric_ids@)
    &&& forall|i: int|
        0 <= i < e.len() ==> (#[trigger] e[i]).numeric_ids@.to_set() == ids_with_abbrev(
            m,
            e[i].abbrev@,
        )
    &&& forall|i: int| 0 <= i < e.len() ==> (#[trigger] e[i]).numeric_ids@.len() > 0
    &&& forall|i: int, j: int|
        0 <= i < j < e.len() ==> str_lt((#[trigger] e[i]).abbrev@, (#[trigger] e[j]).abbrev@)
    &&& forall|id: u64|
        m.contains_key(id) && (#[trigger] m[id]).abbrev@.len() > 0 ==> exists|i: int|
            0 <= i < e.len() && (#[trigger] e[i]).abbrev@ == m[id].abbrev@
}

/// A lookup table of GRIB parameters, by numeric identifier and by abbreviation.
///
/// Both indices change together, through [`ParameterDatabase::insert`] alone.
pub struct ParameterDatabase {
    /// Keyed by the packed identifier, so that the parameters of one category form one
    /// range of keys.
    numeric_id_to_param: BTreeMap<u64, Parameter>,
    /// Sorted by abbreviation; the empty abbreviation is never indexed.
    abbrev_to_numeric_id: Vec<AbbrevEntry>,
}

impl View for ParameterDatabase {
    type V = Map<u64, Parameter>;

    closed spec fn view(&self) -> Map<u64, Parameter> {
        self.numeric_id_to_param@
    }
}

impl ParameterDatabase {
    /// The well-formedness of the two indices.
    pub closed spec fn wf(&self) -> bool {
        index_wf(self.abbrev_to_numeric_id@, self.numeric_id_to_param@)
    }

    /// An empty database.
    pub fn new() -> (r: Self)
        ensures
            r.wf(),
            r@ == Map::<u64, Parameter>::empty(),
    {
        ParameterDatabase { numeric_id_to_param: BTreeMap::new(), abbrev_to_numeric_id: Vec::new() }
    }

    /// The number of parameters.
    pub fn num_numeric_ids(&self) -> (r: usize)
        ensures
            r == self@.len(),
    {
        self.numeric_id_to_param.len()
    }

    /// The parameter of `numeric_id`, if there is one.
    pub fn numeric_id_to_param(&self, numeric_id: &NumericId) -> (r: Option<Parameter>)
        ensures
            r == (if self@.contains_key(numeric_id.spec_packed()) {
                Some(self@[numeric_id.spec_packed()])
            } else {
                None::<Parameter>
            }),
    {
        match self.numeric_id_to_param.get(&numeric_id.as_u64()) {
            Some(p) => Some(p.clone()),
            None => None,
        }
    }
}

/// Adding a parameter that is not yet present adds its identifier to the identifiers of
/// its own abbreviation only.
proof fn lemma_ids_with_abbrev_insert(
    m: Map<u64, Parameter>,
    key: u64,
    p: Parameter,
    a: Seq<char>,
)
    requires
        !m.contains_key(key),
    ensures
        ids_with_abbrev(m.insert(key, p), a) == (if p.abbrev@ == a {
            ids_with_abbrev(m, a).insert(key)
        } else {
            ids_with_abbrev(m, a)
        }),
{
    assert(ids_with_abbrev(m.insert(key, p), a) =~= (if p.abbrev@ == a {
        ids_with_abbrev(m, a).insert(key)
    } else {
        ids_with_abbrev(m, a)
    }));
}

/// Whether `ids` holds `key`.
fn ids_contain(ids: &Vec<u64>, key: u64) -> (r: bool)
    ensures
        r == ids@.contains(key),
{
    let mut k: usize = 0;
    while k < ids.len()
        invariant
            k <= ids@.len(),
            forall|q: int| 0 <= q < k ==> ids@[q] != key,
        decreases ids.len() - k,
    {
        if ids[k] == key {
            return true;
        }
        k = k + 1;
    }
    false
}

/// Inserts `key` into the increasing sequence `ids`, unless it is there already; returns
/// whether it was inserted.
pub(crate) fn insert_sorted_id(ids: &mut Vec<u64>, key: u64) -> (r: bool)
    requires
        sorted_ids(old(ids)@),
    ensures
        sorted_ids(final(ids)@),
        r == !old(ids)@.contains(key),
        r ==> final(ids)@.to_set() == old(ids)@.to_set().insert(key),
        r ==> final(ids)@.len() == old(ids)@.len() + 1,
        !r ==> final(ids)@ == old(ids)@,
{
    let mut pos: usize = 0;
    while pos < ids.len() && ids[pos] < key
        invariant
            sorted_ids(ids@),
            pos <= ids@.len(),
            forall|k: int| 0 <= k < pos ==> ids@[k] < key,
        decreases ids.len() - pos,
    {
        pos = pos + 1;
    }
    if pos < ids.len() && ids[pos] == key {
        return false;
    }
    let ghost before = ids@;
    proof {
        assert forall|k: int| 0 <= k < before.len() implies before[k] != key by {
            if k >= pos {
                assert(before[pos as int] > key);
            }
        }
    }
    ids.insert(pos, key);
    proof {
        let after = ids@;
        assert(after =~= before.insert(pos as int, key));
        assert forall|x: u64| after.contains(x) <==> before.contains(x) || x == key by {
            if after.contains(x) {
                let k = choose|k: int| 0 <= k < after.len() && after[k] == x;
                if k < pos {
                    assert(before[k] == x);
                } else if k > pos {
                    assert(before[k - 1] == x);
                }
            }
            if before.contains(x) {
                let k = choose|k: int| 0 <= k < before.len() && before[k] == x;
                if k < pos {
                    assert(after[k] == x);
                } else {
                    assert(after[k + 1] == x);
                }
            }
            if x == key {
                assert(after[pos as int] == key);
            }
        }
        assert(after.to_set() =~= before.to_set().insert(key));
    }
    true
}

impl ParameterDatabase {
    /// Adds `numeric_id` to the identifiers of `parameter`'s abbreviation; returns whether
    /// it was not there yet. Returns false, and leaves the index as it is, when the pair is
    /// already indexed; leaves the index as it is for an empty abbreviation, which is never
    /// indexed.
    fn update_abbrev_to_numeric_id(&mut self, numeric_id: u64, parameter: &Parameter) -> (r:
        bool)
        requires
            old(self).wf(),
        ensures
            final(self)@ == old(self)@,
            r == (parameter.abbrev@.len() == 0 || !(old(self)@.contains_key(numeric_id)
                && old(self)@[numeric_id].abbrev@ == parameter.abbrev@)),
            !r ==> final(self).abbrev_to_numeric_id@ == old(self).abbrev_to_numeric_id@,
            parameter.abbrev@.len() == 0 ==> final(self).abbrev_to_numeric_id@ == old(
                self,
            ).abbrev_to_numeric_id@,
            !old(self)@.contains_key(numeric_id) ==> index_wf(
                final(self).abbrev_to_numeric_id@,
                old(self)@.insert(numeric_id, *parameter),
            ),
    {
        let ghost m = self.numeric_id_to_param@;
        let ghost m2 = m.insert(numeric_id, *parameter);
        let ghost a = parameter.abbrev@;
        let ghost e = self.abbrev_to_numeric_id@;
        proof {
            if !m.contains_key(numeric_id) {
                assert forall|b: Seq<char>| true implies #[trigger] ids_with_abbrev(m2, b) == (if a
                    == b {
                    ids_with_abbrev(m, b).insert(numeric_id)
                } else {
                    ids_with_abbrev(m, b)
                }) by {
                    lemma_ids_with_abbrev_insert(m, numeric_id, *parameter, b);
                }
            }
        }
        if parameter.abbrev.0.as_str().is_empty() {
            proof {
                if !m.contains_key(numeric_id) {
                assert forall|i: int| 0 <= i < e.len() implies (#[trigger] e[i]).numeric_ids@.to_set()
                    == ids_with_abbrev(m2, e[i].abbrev@) by {}
                assert forall|id: u64|
                    m2.contains_key(id) && (#[trigger] m2[id]).abbrev@.len() > 0 implies exists|
                    i: int,
                |
                    0 <= i < e.len() && (#[trigger] e[i]).abbrev@ == m2[id].abbrev@ by {
                    assert(m.contains_key(id) && m[id] == m2[id]);
                }
                }
            }
            return true;
        }
        let n = self.abbrev_to_numeric_id.len();
        let mut i: usize = 0;
        let mut found = false;
        while i < n
            invariant_except_break
                !found,
            invariant
                self.abbrev_to_numeric_id@ == e,
                self.numeric_id_to_param@ == m,
                a == parameter.abbrev@,
                n == e.len(),
                i <= n,
                forall|k: int| 0 <= k < i ==> str_lt((#[trigger] e[k]).abbrev@, a),
            ensures
                found ==> i < n && e[i as int].abbrev@ == a,
                !found ==> forall|k: int| 0 <= k < i ==> str_lt((#[trigger] e[k]).abbrev@, a),
                !found && i < n ==> str_lt(a, e[i as int].abbrev@),
            decreases n - i,
        {
            let here = self.abbrev_to_numeric_id[i].abbrev.0.as_str();
            assert(here@ == e[i as int].abbrev@);
            let mine = parameter.abbrev.0.as_str();
            let c = compare_str(here, mine);
            match c {
                Ordering::Less => {
                    assert(str_lt(e[i as int].abbrev@, a));
                    i = i + 1;
                },
                Ordering::Equal => {
                    found = true;
                    break ;
                },
                Ordering::Greater => {
                    break ;
                },
            }
        }
        if found {
            proof {
                assert(e[i as int].numeric_ids@.to_set().contains(numeric_id) <==> (m.contains_key(
                    numeric_id,
                ) && m[numeric_id].abbrev@ == a));
            }
            if ids_contain(&self.abbrev_to_numeric_id[i].numeric_ids, numeric_id) {
                return false;
            }
            let mut entry = self.abbrev_to_numeric_id.remove(i);
            insert_sorted_id(&mut entry.numeric_ids, numeric_id);
            self.abbrev_to_numeric_id.insert(i, entry);
            proof {
              if !m.contains_key(numeric_id) {
                let e2 = self.abbrev_to_numeric_id@;
                assert(e2 =~= e.update(i as int, e2[i as int]));
                assert forall|k: int| 0 <= k < e2.len() && k != i implies (#[trigger] e2[k]).abbrev@
                    != a by {
                    lemma_str_order(e[k].abbrev@, a, a);
                    lemma_str_order(a, e[k].abbrev@, e[k].abbrev@);
                }
                assert forall|id: u64|
                    m2.contains_key(id) && (#[trigger] m2[id]).abbrev@.len() > 0 implies exists|
                    k: int,
                |
                    0 <= k < e2.len() && (#[trigger] e2[k]).abbrev@ == m2[id].abbrev@ by {
                    if id == numeric_id {
                        assert(e2[i as int].abbrev@ == m2[id].abbrev@);
                    } else {
                        assert(m.contains_key(id) && m[id] == m2[id]);
                        let k = choose|k: int| 0 <= k < e.len() && (#[trigger] e[k]).abbrev@ == m[id].abbrev@;
                        assert(e2[k].abbrev@ == m2[id].abbrev@);
                    }
                }
              }
            }
        } else {
            let mut ids: Vec<u64> = Vec::new();
            ids.push(numeric_id);
            proof {
                assert(ids@ =~= seq![numeric_id]);
                assert(ids@[0] == numeric_id);
                assert(ids@.to_set() =~= set![numeric_id]);
            }
            let entry = AbbrevEntry { abbrev: parameter.abbrev.clone(), numeric_ids: ids };
            self.abbrev_to_numeric_id.insert(i, entry);
            proof {
                let e2 = self.abbrev_to_numeric_id@;
                assert(e2 =~= e.insert(i as int, e2[i as int]));
                assert(e2[i as int].numeric_ids@.to_set() =~= set![numeric_id]);
                assert forall|k: int| 0 <= k < e.len() implies (#[trigger] e[k]).abbrev@ != a by {
                    if k >= i {
                        lemma_str_order(a, e[i as int].abbrev@, e[k].abbrev@);
                    } else {
                        lemma_str_order(e[k].abbrev@, a, a);
                    }
                }
                assert(ids_with_abbrev(m, a) =~= Set::<u64>::empty()) by {
                    assert forall|id: u64| m.contains_key(id) implies m[id].abbrev@ != a by {
                        if m[id].abbrev@ == a {
                            let k = choose|k: int| 0 <= k < e.len() && (#[trigger] e[k]).abbrev@ == m[id].abbrev@;
                        }
                    }
                }
                if !m.contains_key(numeric_id) {
                assert forall|x: int, y: int| 0 <= x < y < e2.len() implies str_lt(
                    (#[trigger] e2[x]).abbrev@,
                    (#[trigger] e2[y]).abbrev@,
                ) by {
                    if x < i && y == i {
                    } else if x < i && y > i {
                        lemma_str_order(e[x].abbrev@, a, e[y - 1].abbrev@);
                    } else if x == i {
                        if y - 1 > i {
                            lemma_str_order(a, e[i as int].abbrev@, e[y - 1].abbrev@);
                        }
                    } else if x > i {
                        assert(e2[x] == e[x - 1] && e2[y] == e[y - 1]);
                    } else {
                        assert(e2[x] == e[x] && e2[y] == e[y]);
                    }
                }
                assert forall|k: int| 0 <= k < e2.len() implies (#[trigger] e2[k]).numeric_ids@.to_set()
                    == ids_with_abbrev(m2, e2[k].abbrev@) by {
                    if k < i {
                        assert(e2[k] == e[k]);
                    } else if k > i {
                        assert(e2[k] == e[k - 1]);
                    }
                }
                assert forall|id: u64|
                    m2.contains_key(id) && (#[trigger] m2[id]).abbrev@.len() > 0 implies exists|
                    k: int,
                |
                    0 <= k < e2.len() && (#[trigger] e2[k]).abbrev@ == m2[id].abbrev@ by {
                    if id == numeric_id {
                        assert(e2[i as int].abbrev@ == m2[id].abbrev@);
                    } else {
                        assert(m.contains_key(id) && m[id] == m2[id]);
                        let k = choose|k: int| 0 <= k < e.len() && (#[trigger] e[k]).abbrev@ == m[id].abbrev@;
                        if k < i {
                            assert(e2[k].abbrev@ == m2[id].abbrev@);
                        } else {
                            assert(e2[k + 1].abbrev@ == m2[id].abbrev@);
                        }
                    }
                }
                }
            }
        }
        true
    }
}

impl ParameterDatabase {
    /// Adds `parameter` under `numeric_id` to both indices.
    ///
    /// Fails, and changes nothing, when `numeric_id` is already present. An empty
    /// abbreviation is left out of the abbreviation index.
    pub fn insert(&mut self, numeric_id: NumericId, parameter: Parameter) -> (r: Result<
        (),
        ParameterInsertionError,
    >)
        requires
            old(self).wf(),
        ensures
            final(self).wf(),
            insert_result(old(self)@, numeric_id, parameter, final(self)@, r),
    {
        let key = numeric_id.as_u64();
        match self.numeric_id_to_param.get(&key) {
            Some(old_param) => {
                return Err(
                    ParameterInsertionError::NumericIdAlreadyExistsInNumericIdToParam(
                        (numeric_id, old_param.clone()),
                    ),
                );
            },
            None => {},
        }
        let numeric_id_is_unique = self.update_abbrev_to_numeric_id(key, &parameter);
        if !numeric_id_is_unique {
            return Err(
                ParameterInsertionError::NumericIdAlreadyExistsInAbbrevToNumericId(
                    (numeric_id, parameter),
                ),
            );
        }
        self.numeric_id_to_param.insert(key, parameter);
        Ok(())
    }

    /// The position of abbreviation `a` in the abbreviation index, if it is there.
    fn find_abbrev(&self, a: &String) -> (r: Option<usize>)
        requires
            self.wf(),
        ensures
            r matches Some(i) ==> i < self.abbrev_to_numeric_id@.len()
                && self.abbrev_to_numeric_id@[i as int].abbrev@ == a@,
            r is None && a@.len() > 0 ==> ids_with_abbrev(self@, a@) =~= Set::<u64>::empty(),
    {
        let ghost e = self.abbrev_to_numeric_id@;
        let mut i: usize = 0;
        while i < self.abbrev_to_numeric_id.len()
            invariant
                e == self.abbrev_to_numeric_id@,
                i <= e.len(),
                forall|k: int| 0 <= k < i ==> (#[trigger] e[k]).abbrev@ != a@,
            decreases e.len() - i,
        {
            if self.abbrev_to_numeric_id[i].abbrev.0 == *a {
                return Some(i);
            }
            i = i + 1;
        }
        proof {
            assert forall|id: u64| self@.contains_key(id) && a@.len() > 0 implies self@[id].abbrev@ != a@ by {
                if self@[id].abbrev@ == a@ && a@.len() > 0 {
                    let k = choose|k: int|
                        0 <= k < e.len() && (#[trigger] e[k]).abbrev@ == self@[id].abbrev@;
                }
            }
        }
        None
    }
}

impl ParameterDatabase {
    /// Every identifier that carries abbreviation `abbrev`, in increasing order, each with
    /// its parameter. Several entries are legitimate; an unknown or empty abbreviation
    /// gives none.
    pub fn abbrev_to_parameter(&self, abbrev: &Abbrev) -> (r: Vec<(NumericId, Parameter)>)
        requires
            self.wf(),
        ensures
            lookup_result(self@, abbrev@, r@),
    {
        let mut r: Vec<(NumericId, Parameter)> = Vec::new();
        if abbrev.0.as_str().is_empty() {
            proof {
                assert(r@.map_values(|x: (NumericId, Parameter)| x.0.spec_packed()).to_set()
                    =~= Set::<u64>::empty());
            }
            return r;
        }
        match self.find_abbrev(&abbrev.0) {
            None => {
                proof {
                    assert(r@.map_values(|x: (NumericId, Parameter)| x.0.spec_packed()).to_set()
                        =~= Set::<u64>::empty());
                }
                r
            },
            Some(i) => {
                let ids = &self.abbrev_to_numeric_id[i].numeric_ids;
                let ghost m = self@;
                let mut k: usize = 0;
                while k < ids.len()
                    invariant
                        m == self@,
                        self.wf(),
                        *ids == self.abbrev_to_numeric_id@[i as int].numeric_ids,
                        i < self.abbrev_to_numeric_id@.len(),
                        k <= ids@.len(),
                        r@.len() == k,
                        forall|q: int| 0 <= q < k ==> (#[trigger] r@[q]).0.spec_packed() == ids@[q],
                        forall|q: int| 0 <= q < k ==> #[trigger] r@[q].1 == m[r@[q].0.spec_packed()],
                    decreases ids.len() - k,
                {
                    let id = ids[k];
                    proof {
                        assert(ids@.to_set().contains(id));
                    }
                    match self.numeric_id_to_param.get(&id) {
                        Some(p) => {
                            r.push((NumericId::from_packed(id), p.clone()));
                        },
                        None => {
                            return r;
                        },
                    }
                    k = k + 1;
                }
                proof {
                    assert(r@.map_values(|x: (NumericId, Parameter)| x.0.spec_packed()) =~= ids@);
                }
                r
            },
        }
    }

    /// Every identifier that carries abbreviation `abbrev`, in increasing order.
    pub fn abbrev_to_numeric_id(&self, abbrev: &Abbrev) -> (r: Vec<NumericId>)
        requires
            self.wf(),
        ensures
            sorted_ids(r@.map_values(|x: NumericId| x.spec_packed())),
            r@.map_values(|x: NumericId| x.spec_packed()).to_set() == (if abbrev@.len() == 0 {
                Set::<u64>::empty()
            } else {
                ids_with_abbrev(self@, abbrev@)
            }),
    {
        let mut r: Vec<NumericId> = Vec::new();
        let found = if abbrev.0.as_str().is_empty() {
            None
        } else {
            self.find_abbrev(&abbrev.0)
        };
        match found {
            None => {
                proof {
                    assert(r@.map_values(|x: NumericId| x.spec_packed()).to_set() =~= Set::<
                        u64,
                    >::empty());
                }
                r
            },
            Some(i) => {
                let ids = &self.abbrev_to_numeric_id[i].numeric_ids;
                let mut k: usize = 0;
                while k < ids.len()
                    invariant
                        k <= ids@.len(),
                        r@.len() == k,
                        forall|q: int| 0 <= q < k ==> (#[trigger] r@[q]).spec_packed() == ids@[q],
                    decreases ids.len() - k,
                {
                    r.push(NumericId::from_packed(ids[k]));
                    k = k + 1;
                }
                proof {
                    assert(r@.map_values(|x: NumericId| x.spec_packed()) =~= ids@);
                }
                r
            },
        }
    }

    /// The number of distinct non-empty abbreviations.
    pub fn num_abbrevs(&self) -> (r: usize)
        requires
            self.wf(),
        ensures
            r == abbrevs_of(self@).len(),
    {
        let ghost e = self.abbrev_to_numeric_id@;
        let ghost m = self@;
        proof {
            let keys = e.map_values(|x: AbbrevEntry| x.abbrev@);
            assert forall|i: int, j: int| 0 <= i < keys.len() && 0 <= j < keys.len() && i != j implies keys[i]
                != keys[j] by {
                if i < j {
                    lemma_str_order(keys[i], keys[j], keys[j]);
                } else {
                    lemma_str_order(keys[j], keys[i], keys[i]);
                }
            }
            keys.unique_seq_to_set();
            assert forall|a: Seq<char>| keys.to_set().contains(a) <==> abbrevs_of(m).contains(a) by {
                if keys.to_set().contains(a) {
                    let i = choose|i: int| 0 <= i < keys.len() && keys[i] == a;
                    let id = e[i].numeric_ids@[0];
                    assert(e[i].numeric_ids@.to_set().contains(id));
                    assert(m.contains_key(id) && m[id].abbrev@ == a);
                }
                if abbrevs_of(m).contains(a) {
                    let id = choose|id: u64| m.contains_key(id) && #[trigger] m[id].abbrev@ == a;
                    let i = choose|i: int| 0 <= i < e.len() && (#[trigger] e[i]).abbrev@ == m[id].abbrev@;
                    assert(keys[i] == a);
                }
            }
            assert(keys.to_set() =~= abbrevs_of(m));
        }
        self.abbrev_to_numeric_id.len()
    }
}

/// The abbreviations of `m` that belong to more than one identifier.
pub open spec fn shared_abbrevs(m: Map<u64, Parameter>) -> Set<Seq<char>> {
    abbrevs_of(m).filter(|a: Seq<char>| ids_with_abbrev(m, a).len() > 1)
}

/// An increasing sequence has as many elements as its set.
proof fn lemma_sorted_ids_len(s: Seq<u64>)
    requires
        sorted_ids(s),
    ensures
        s.to_set().len() == s.len(),
{
    assert(s.no_duplicates()) by {
        assert forall|i: int, j: int| 0 <= i < s.len() && 0 <= j < s.len() && i != j implies s[i]
            != s[j] by {
            if i < j {
                assert(s[i] < s[j]);
            } else {
                assert(s[j] < s[i]);
            }
        }
    }
    s.unique_seq_to_set();
}

/// The identifiers of `ids` as `NumericId`s.
fn to_numeric_ids(ids: &Vec<u64>) -> (r: Vec<NumericId>)
    ensures
        r@.map_values(|x: NumericId| x.spec_packed()) == ids@,
{
    let mut r: Vec<NumericId> = Vec::new();
    let mut k: usize = 0;
    while k < ids.len()
        invariant
            k <= ids@.len(),
            r@.len() == k,
            forall|q: int| 0 <= q < k ==> (#[trigger] r@[q]).spec_packed() == ids@[q],
        decreases ids.len() - k,
    {
        r.push(NumericId::from_packed(ids[k]));
        k = k + 1;
    }
    assert(r@.map_values(|x: NumericId| x.spec_packed()) =~= ids@);
    r
}

impl ParameterDatabase {
    /// Every abbreviation that belongs to more than one identifier, in the order of the
    /// abbreviations, each with its identifiers in increasing order.
    pub fn abbrevs_with_multiple_numeric_ids(&self) -> (r: Vec<(Abbrev, Vec<NumericId>)>)
        requires
            self.wf(),
        ensures
            strictly_sorted(r@.map_values(|x: (Abbrev, Vec<NumericId>)| x.0@)),
            r@.map_values(|x: (Abbrev, Vec<NumericId>)| x.0@).to_set() == shared_abbrevs(self@),
            forall|k: int|
                0 <= k < r@.len() ==> sorted_ids(
                    (#[trigger] r@[k]).1@.map_values(|x: NumericId| x.spec_packed()),
                ),
            forall|k: int|
                0 <= k < r@.len() ==> (#[trigger] r@[k]).1@.map_values(
                    |x: NumericId| x.spec_packed(),
                ).to_set() == ids_with_abbrev(self@, r@[k].0@),
    {
        let ghost e = self.abbrev_to_numeric_id@;
        let ghost m = self@;
        let ghost mut src: Seq<int> = Seq::empty();
        let mut r: Vec<(Abbrev, Vec<NumericId>)> = Vec::new();
        let mut i: usize = 0;
        while i < self.abbrev_to_numeric_id.len()
            invariant
                e == self.abbrev_to_numeric_id@,
                m == self@,
                self.wf(),
                i <= e.len(),
                src.len() == r@.len(),
                forall|k: int| 0 <= k < src.len() ==> 0 <= #[trigger] src[k] < i,
                forall|x: int, y: int| 0 <= x < y < src.len() ==> #[trigger] src[x] < #[trigger] src[y],
                forall|k: int|
                    0 <= k < src.len() ==> (#[trigger] r@[k]).0@ == e[src[k]].abbrev@
                        && e[src[k]].numeric_ids@.len() > 1 && r@[k].1@.map_values(
                        |x: NumericId| x.spec_packed(),
                    ) == e[src[k]].numeric_ids@,
                forall|q: int|
                    0 <= q < i && (#[trigger] e[q]).numeric_ids@.len() > 1 ==> exists|k: int|
                        0 <= k < src.len() && #[trigger] src[k] == q,
            decreases e.len() - i,
        {
            let entry = &self.abbrev_to_numeric_id[i];
            if entry.numeric_ids.len() > 1 {
                let ids = to_numeric_ids(&entry.numeric_ids);
                let ghost src0 = src;
                let ghost r0 = r@;
                r.push((entry.abbrev.clone(), ids));
                proof {
                    src = src.push(i as int);
                    assert forall|q: int|
                        0 <= q < i + 1 && (#[trigger] e[q]).numeric_ids@.len() > 1 implies exists|
                        k: int,
                    | 0 <= k < src.len() && #[trigger] src[k] == q by {
                        if q == i {
                            assert(src[src0.len() as int] == q);
                        } else {
                            let k = choose|k: int| 0 <= k < src0.len() && #[trigger] src0[k] == q;
                            assert(src[k] == q);
                        }
                    }
                    assert forall|k: int|
                        0 <= k < src.len() implies (#[trigger] r@[k]).0@ == e[src[k]].abbrev@
                        && e[src[k]].numeric_ids@.len() > 1 && r@[k].1@.map_values(
                        |x: NumericId| x.spec_packed(),
                    ) == e[src[k]].numeric_ids@ by {
                        if k < src0.len() {
                            assert(r@[k] == r0[k] && src[k] == src0[k]);
                        }
                    }
                }
            }
            i = i + 1;
        }
        proof {
            let keys = r@.map_values(|x: (Abbrev, Vec<NumericId>)| x.0@);
            assert forall|x: int, y: int| 0 <= x < y < keys.len() implies str_lt(
                #[trigger] keys[x],
                #[trigger] keys[y],
            ) by {
                assert(src[x] < src[y]);
                assert(keys[x] == e[src[x]].abbrev@ && keys[y] == e[src[y]].abbrev@);
            }
            assert forall|a: Seq<char>| keys.to_set().contains(a) <==> shared_abbrevs(m).contains(a) by {
                if keys.to_set().contains(a) {
                    let k = choose|k: int| 0 <= k < keys.len() && keys[k] == a;
                    let q = src[k];
                    assert(r@[k].0@ == e[q].abbrev@);
                    let id = e[q].numeric_ids@[0];
                    assert(e[q].numeric_ids@.to_set().contains(id));
                    lemma_sorted_ids_len(e[q].numeric_ids@);
                }
                if shared_abbrevs(m).contains(a) {
                    let id = choose|id: u64| m.contains_key(id) && #[trigger] m[id].abbrev@ == a;
                    let q = choose|q: int| 0 <= q < e.len() && (#[trigger] e[q]).abbrev@ == m[id].abbrev@;
                    lemma_sorted_ids_len(e[q].numeric_ids@);
                    let k = choose|k: int| 0 <= k < src.len() && #[trigger] src[k] == q;
                    assert(r@[k].0@ == e[q].abbrev@);
                    assert(keys[k] == a);
                }
            }
            assert(keys.to_set() =~= shared_abbrevs(m));
            assert forall|k: int| 0 <= k < r@.len() implies sorted_ids(
                (#[trigger] r@[k]).1@.map_values(|x: NumericId| x.spec_packed()),
            ) && r@[k].1@.map_values(|x: NumericId| x.spec_packed()).to_set() == ids_with_abbrev(
                m,
                r@[k].0@,
            ) by {
                let q = src[k];
                assert(r@[k].0@ == e[q].abbrev@);
            }
        }
        r
    }
}

/// The two lines that describe one identifier and its parameter.
pub open spec fn id_lines(id: NumericId, p: Parameter) -> Seq<char> {
    "    - name='"@ + p.name@ + "', unit='"@ + p.unit@ + "',\n        - discipline="@ + padded(
        id.spec_product_discipline() as nat,
        2,
        ' ',
    ) + ", category="@ + padded(id.spec_parameter_category() as nat, 3, ' ') + ", number="@
        + padded(id.spec_parameter_number() as nat, 3, ' ') + ", center="@ + padded(
        id.spec_originating_center() as nat,
        5,
        ' ',
    ) + ", subcenter="@ + padded(id.spec_subcenter() as nat, 3, ' ') + "\n"@
}

/// The lines of the identifiers `ids`, with their parameters in `m`.
pub open spec fn ids_text(ids: Seq<NumericId>, m: Map<u64, Parameter>) -> Seq<char>
    decreases ids.len(),
{
    if ids.len() == 0 {
        Seq::empty()
    } else {
        ids_text(ids.drop_last(), m) + id_lines(ids.last(), m[ids.last().spec_packed()])
    }
}

/// The text of the groups `groups`: each abbreviation on a line, then its identifiers.
pub open spec fn groups_text(groups: Seq<(Abbrev, Vec<NumericId>)>, m: Map<u64, Parameter>) -> Seq<
    char,
>
    decreases groups.len(),
{
    if groups.len() == 0 {
        Seq::empty()
    } else {
        groups_text(groups.drop_last(), m) + "- "@ + groups.last().0@ + ":\n"@ + ids_text(
            groups.last().1@,
            m,
        )
    }
}

/// The report of the abbreviations `groups` that belong to several identifiers.
pub open spec fn report_text(groups: Seq<(Abbrev, Vec<NumericId>)>, m: Map<u64, Parameter>) -> Seq<
    char,
> {
    groups_text(groups, m) + "\n"@ + decimal(groups.len()) + " abbreviations are associated with multiple parameters.\n"@
}

/// Appends the two lines that describe `id` and its parameter `param`.
fn push_id_lines(s: &mut String, id: &NumericId, param: &Parameter)
    ensures
        final(s)@ == old(s)@ + id_lines(*id, *param),
{
    proof {
        reveal_strlit(" ");
    }
    let ghost before = s@;
    s.append("    - name='");
    s.append(param.name.as_str());
    s.append("', unit='");
    s.append(param.unit.as_str());
    s.append("',\n        - discipline=");
    push_padded(s, id.product_discipline() as u64, 2, " ");
    s.append(", category=");
    push_padded(s, id.parameter_category() as u64, 3, " ");
    s.append(", number=");
    push_padded(s, id.parameter_number() as u64, 3, " ");
    s.append(", center=");
    push_padded(s, id.originating_center() as u64, 5, " ");
    s.append(", subcenter=");
    push_padded(s, id.subcenter() as u64, 3, " ");
    s.append("\n");
    assert(" "@ =~= seq![' ']);
    assert(s@ =~= before + id_lines(*id, *param));
}

impl ParameterDatabase {
    /// A report, for auditing the tables, of every abbreviation that belongs to more than
    /// one identifier: each with the name, unit, discipline, category, number, center and
    /// subcenter of each of its identifiers, in the order of
    /// [`ParameterDatabase::abbrevs_with_multiple_numeric_ids`], then their count.
    pub fn describe_abbrevs_with_multiple_params(&self) -> (r: String)
        requires
            self.wf(),
        ensures
            exists|groups: Seq<(Abbrev, Vec<NumericId>)>|
                {
                    &&& strictly_sorted(groups.map_values(|x: (Abbrev, Vec<NumericId>)| x.0@))
                    &&& groups.map_values(|x: (Abbrev, Vec<NumericId>)| x.0@).to_set()
                        == shared_abbrevs(self@)
                    &&& forall|k: int|
                        0 <= k < groups.len() ==> sorted_ids(
                            (#[trigger] groups[k]).1@.map_values(|x: NumericId| x.spec_packed()),
                        ) && groups[k].1@.map_values(|x: NumericId| x.spec_packed()).to_set()
                            == ids_with_abbrev(self@, groups[k].0@)
                    &&& r@ == report_text(groups, self@)
                },
    {
        proof {
            reveal_strlit(" ");
        }
        let groups = self.abbrevs_with_multiple_numeric_ids();
        let ghost m = self@;
        let mut s = String::new();
        let mut g: usize = 0;
        assert(groups@.subrange(0, 0) =~= Seq::<(Abbrev, Vec<NumericId>)>::empty());
        while g < groups.len()
            invariant
                g <= groups@.len(),
                m == self@,
                self.wf(),
                forall|k: int|
                    0 <= k < groups@.len() ==> (#[trigger] groups@[k]).1@.map_values(
                        |x: NumericId| x.spec_packed(),
                    ).to_set() == ids_with_abbrev(m, groups@[k].0@),
                s@ == groups_text(groups@.subrange(0, g as int), m),
            decreases groups.len() - g,
        {
            let (abbrev, ids) = &groups[g];
            s.append("- ");
            s.append(abbrev.0.as_str());
            s.append(":\n");
            let ghost head = s@;
            let mut i: usize = 0;
            assert(ids@.subrange(0, 0) =~= Seq::<NumericId>::empty());
            while i < ids.len()
                invariant
                    i <= ids@.len(),
                    m == self@,
                    *ids == groups@[g as int].1,
                    g < groups@.len(),
                    ids@.map_values(|x: NumericId| x.spec_packed()).to_set() == ids_with_abbrev(
                        m,
                        groups@[g as int].0@,
                    ),
                    s@ == head + ids_text(ids@.subrange(0, i as int), m),
                decreases ids.len() - i,
            {
                let id = ids[i];
                proof {
                    assert(ids@.map_values(|x: NumericId| x.spec_packed())[i as int] == id.spec_packed());
                    assert(ids@.map_values(|x: NumericId| x.spec_packed()).to_set().contains(id.spec_packed()));
                }
                proof {
                    assert(m.contains_key(id.spec_packed()));
                }
                let param = match self.numeric_id_to_param.get(&id.as_u64()) {
                    Some(p) => p,
                    None => {
                        return s;
                    },
                };
                push_id_lines(&mut s, &id, param);
                proof {
                    let pre = ids@.subrange(0, i as int);
                    let post = ids@.subrange(0, i + 1);
                    assert(post.drop_last() =~= pre);
                    assert(post.last() == id);
                }
                i = i + 1;
            }
            proof {
                assert(ids@.subrange(0, ids@.len() as int) =~= ids@);
                let pre = groups@.subrange(0, g as int);
                let post = groups@.subrange(0, g + 1);
                assert(post.drop_last() =~= pre);
                assert(post.last() == groups@[g as int]);
                assert(s@ =~= groups_text(post, m));
            }
            g = g + 1;
        }
        proof {
            assert(groups@.subrange(0, groups@.len() as int) =~= groups@);
        }
        s.append("\n");
        push_decimal(&mut s, groups.len() as u64);
        s.append(" abbreviations are associated with multiple parameters.\n");
        assert(s@ =~= report_text(groups@, m));
        s
    }
}

/// Inserting an identifier that is already present fails, and leaves the database, and so
/// its size, as it was.
pub proof fn lemma_second_insert_fails(
    m0: Map<u64, Parameter>,
    numeric_id: NumericId,
    first: Parameter,
    second: Parameter,
    m1: Map<u64, Parameter>,
    r1: Result<(), ParameterInsertionError>,
    m2: Map<u64, Parameter>,
    r2: Result<(), ParameterInsertionError>,
)
    requires
        insert_result(m0, numeric_id, first, m1, r1),
        insert_result(m1, numeric_id, second, m2, r2),
    ensures
        r2 is Err,
        m2 == m1,
        m2.len() == m1.len(),
{
}

/// An abbreviation that exactly one identifier carries is found exactly once, with the
/// parameter that was inserted; the empty abbreviation is never found.
pub proof fn lemma_lookup_of_unique_abbrev(
    m: Map<u64, Parameter>,
    a: Seq<char>,
    r: Seq<(NumericId, Parameter)>,
)
    requires
        m.dom().finite(),
        lookup_result(m, a, r),
    ensures
        a.len() == 0 ==> r.len() == 0,
        a.len() > 0 && ids_with_abbrev(m, a).len() == 1 ==> r.len() == 1 && m.contains_key(
            r[0].0.spec_packed(),
        ) && r[0].1 == m[r[0].0.spec_packed()] && r[0].1.abbrev@ == a,
{
    let ids = r.map_values(|x: (NumericId, Parameter)| x.0.spec_packed());
    lemma_sorted_ids_len(ids);
    if a.len() > 0 && ids_with_abbrev(m, a).len() == 1 {
        assert(ids.to_set().contains(ids[0]));
    }
}

} // verus!

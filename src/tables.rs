//! Filling the parameter database from the rows of the GDAL parameter tables.
use vstd::prelude::*;

use crate::codec::{has_prefix, has_suffix};
use crate::database::{ParameterDatabase, ParameterInsertionError};
use crate::numeric_id::{pack_fields, NumericIdBuilder, MISSING_U16, MISSING_U8};
use crate::parameter::{Abbrev, Parameter};
use crate::path::{all_digits, digits_value, is_digit, parse_digits, pow10, to_chars};

verus! {

/// The lower-case form of `s`, as `str::to_lowercase` gives it.
pub uninterp spec fn lower_of(s: Seq<char>) -> Seq<char>;

/// Relies on `str::to_lowercase`: its result depends on the characters of `s` alone.
#[verifier::external_body]
fn to_lowercase(s: &str) -> (r: String)
    ensures
        r@ == lower_of(s@),
{
    s.to_lowercase()
}

/// Whether `p` occurs in `s` at position `i`.
pub open spec fn occurs_at(s: Seq<char>, p: Seq<char>, i: int) -> bool {
    0 <= i && i + p.len() <= s.len() && s.subrange(i, i + p.len()) == p
}

/// Whether `p` occurs anywhere in `s`.
pub open spec fn contains_seq(s: Seq<char>, p: Seq<char>) -> bool {
    exists|i: int| occurs_at(s, p, i)
}

/// Whether `p` occurs in `s` at position `i`.
fn matches_at(s: &Vec<char>, p: &Vec<char>, i: usize) -> (r: bool)
    ensures
        r == occurs_at(s@, p@, i as int),
{
    if i > s.len() || p.len() > s.len() - i {
        return false;
    }
    let n = s.len();
    let mut k: usize = 0;
    while k < p.len()
        invariant
            n == s@.len(),
            i + p@.len() <= s@.len(),
            k <= p@.len(),
            i + k <= s@.len(),
            forall|q: int| 0 <= q < k ==> s@[i + q] == p@[q],
        decreases p.len() - k,
    {
        if s[i + k] != p[k] {
            assert(s@.subrange(i as int, i + p@.len())[k as int] == s@[i + k]);
            return false;
        }
        k = k + 1;
    }
    assert(s@.subrange(i as int, i + p@.len()) =~= p@);
    true
}

/// Whether `p` occurs anywhere in `s`.
fn has_substring(s: &Vec<char>, p: &Vec<char>) -> (r: bool)
    ensures
        r == contains_seq(s@, p@),
{
    let mut i: usize = 0;
    while i < s.len()
        invariant
            i <= s@.len(),
            forall|q: int| 0 <= q < i ==> !occurs_at(s@, p@, q),
        decreases s.len() - i,
    {
        if matches_at(s, p, i) {
            return true;
        }
        i = i + 1;
    }
    if matches_at(s, p, i) {
        return true;
    }
    assert forall|q: int| !occurs_at(s@, p@, q) by {
        if q > i {
            assert(q + p@.len() > s@.len());
        }
    }
    false
}

pub open spec fn reserved_word() -> Seq<char> {
    seq!['r', 'e', 's', 'e', 'r', 'v', 'e', 'd']
}

pub open spec fn missing_word() -> Seq<char> {
    seq!['m', 'i', 's', 's', 'i', 'n', 'g']
}

/// Whether a table row is kept: its sub-category number is not negative (negative ones
/// mark comment rows), and its lower-case name mentions neither "reserved" nor
/// "missing".
pub open spec fn row_is_kept(subcat: i16, lowercase_name: Seq<char>) -> bool {
    subcat >= 0 && !contains_seq(lowercase_name, reserved_word()) && !contains_seq(
        lowercase_name,
        missing_word(),
    )
}

/// Whether a row with sub-category number `subcat` and lower-case name
/// `lowercase_name` is kept.
pub fn keep_row(subcat: i16, lowercase_name: &str) -> (r: bool)
    ensures
        r == row_is_kept(subcat, lowercase_name@),
{
    if subcat < 0 {
        return false;
    }
    proof {
        reveal_strlit("reserved");
        reveal_strlit("missing");
    }
    let name = to_chars(lowercase_name);
    let reserved = to_chars("reserved");
    let missing = to_chars("missing");
    assert(reserved@ =~= reserved_word());
    assert(missing@ =~= missing_word());
    !has_substring(&name, &reserved) && !has_substring(&name, &missing)
}

/// Whether a row with sub-category number `subcat` and name `name` is kept.
pub fn row_passes_filter(subcat: i16, name: &str) -> (r: bool)
    ensures
        r == row_is_kept(subcat, lower_of(name@)),
{
    let lowercase_name = to_lowercase(name);
    keep_row(subcat, lowercase_name.as_str())
}

/// The kind of a file of the GDAL parameter tables, told by its name.
#[derive(Clone, Copy, Debug, PartialEq, Eq, Structural)]
pub enum TableFile {
    /// `grib2_table_4_2_local_index.csv`: the index of the local tables.
    LocalIndex,
    /// `grib2_table_4_2_<discipline>_<category>.csv`: a table of the master table.
    Master { discipline: u8, category: u8 },
    /// `grib2_table_4_2_local_<Center>.csv`: the local table of a center.
    Local,
}

pub open spec fn table_prefix() -> Seq<char> {
    seq!['g', 'r', 'i', 'b', '2', '_', 't', 'a', 'b', 'l', 'e', '_', '4', '_', '2', '_']
}

pub open spec fn csv_suffix() -> Seq<char> {
    seq!['.', 'c', 's', 'v']
}

pub open spec fn local_prefix() -> Seq<char> {
    seq!['l', 'o', 'c', 'a', 'l', '_']
}

pub open spec fn local_index_name() -> Seq<char> {
    table_prefix() + local_prefix() + seq!['i', 'n', 'd', 'e', 'x'] + csv_suffix()
}

pub open spec fn is_upper(c: char) -> bool {
    'A' <= c <= 'Z'
}

pub open spec fn is_letter(c: char) -> bool {
    'A' <= c <= 'Z' || 'a' <= c <= 'z'
}

/// The discipline and category of the middle part `<discipline>_<category>` of the name
/// of a master table: one or two digits, `_`, one to three digits for a number up to 255.
pub open spec fn master_fields(mid: Seq<char>) -> Option<(u8, u8)> {
    let u: int = if mid.len() >= 2 && mid[1] == '_' {
        1
    } else if mid.len() >= 3 && mid[2] == '_' {
        2
    } else {
        0
    };
    let a = mid.subrange(0, u);
    let b = mid.subrange(u + 1, mid.len() as int);
    if u == 0 || !all_digits(a) || b.len() < 1 || b.len() > 3 || !all_digits(b)
        || digits_value(b) > 255 {
        None
    } else {
        Some((digits_value(a) as u8, digits_value(b) as u8))
    }
}

/// Whether the middle part of a name is `local_` followed by a capital letter and one or
/// more letters.
pub open spec fn is_local_name(mid: Seq<char>) -> bool {
    &&& mid.len() >= 8
    &&& has_prefix(mid, local_prefix())
    &&& is_upper(mid[6])
    &&& forall|i: int| 7 <= i < mid.len() ==> is_letter(#[trigger] mid[i])
}

/// The kind of the table file named `name`, if it is one.
pub open spec fn classify(name: Seq<char>) -> Option<TableFile> {
    if name == local_index_name() {
        Some(TableFile::LocalIndex)
    } else if !(name.len() >= 20 && has_prefix(name, table_prefix()) && has_suffix(
        name,
        csv_suffix(),
    )) {
        None
    } else {
        let mid = name.subrange(16, name.len() - 4);
        match master_fields(mid) {
            Some((d, c)) => Some(TableFile::Master { discipline: d, category: c }),
            None => if is_local_name(mid) {
                Some(TableFile::Local)
            } else {
                None
            },
        }
    }
}

/// Whether `s[start..end]` is all decimal digits.
fn all_digits_between(s: &Vec<char>, start: usize, end: usize) -> (r: bool)
    requires
        start <= end <= s@.len(),
    ensures
        r == all_digits(s@.subrange(start as int, end as int)),
{
    let mut i: usize = start;
    while i < end
        invariant
            start <= i <= end,
            end <= s@.len(),
            forall|k: int| start <= k < i ==> is_digit(#[trigger] s@[k]),
        decreases end - i,
    {
        if !('0' <= s[i] && s[i] <= '9') {
            assert(s@.subrange(start as int, end as int)[i - start] == s@[i as int]);
            return false;
        }
        i = i + 1;
    }
    assert forall|k: int| 0 <= k < end - start implies is_digit(
        #[trigger] s@.subrange(start as int, end as int)[k],
    ) by {
        assert(s@.subrange(start as int, end as int)[k] == s@[start + k]);
    }
    true
}

fn master_fields_of(mid: &Vec<char>) -> (r: Option<(u8, u8)>)
    ensures
        r == master_fields(mid@),
{
    let n = mid.len();
    let u: usize = if n >= 2 && mid[1] == '_' {
        1
    } else if n >= 3 && mid[2] == '_' {
        2
    } else {
        0
    };
    if u == 0 || !all_digits_between(mid, 0, u) {
        return None;
    }
    let blen = n - (u + 1);
    if blen < 1 || blen > 3 || !all_digits_between(mid, u + 1, n) {
        return None;
    }
    proof {
        reveal_with_fuel(pow10, 4);
    }
    let d = parse_digits(mid, 0, u);
    let c = parse_digits(mid, u + 1, n);
    if c > 255 {
        return None;
    }
    Some((d as u8, c as u8))
}

fn is_local_name_of(mid: &Vec<char>) -> (r: bool)
    ensures
        r == is_local_name(mid@),
{
    proof {
        reveal_strlit("local_");
    }
    let local = to_chars("local_");
    assert(local@ =~= local_prefix());
    if mid.len() < 8 || !matches_at(mid, &local, 0) {
        proof {
            if mid@.len() >= 8 {
                assert(mid@.subrange(0, 6) == mid@.subrange(0, local@.len() as int));
            }
        }
        return false;
    }
    if !('A' <= mid[6] && mid[6] <= 'Z') {
        return false;
    }
    let mut i: usize = 7;
    while i < mid.len()
        invariant
            7 <= i <= mid@.len(),
            forall|k: int| 7 <= k < i ==> is_letter(#[trigger] mid@[k]),
        decreases mid.len() - i,
    {
        let c = mid[i];
        if !(('A' <= c && c <= 'Z') || ('a' <= c && c <= 'z')) {
            return false;
        }
        i = i + 1;
    }
    true
}

/// The kind of the table file named `name`, if it is one.
pub fn classify_table_file(name: &str) -> (r: Option<TableFile>)
    ensures
        r == classify(name@),
{
    proof {
        reveal_strlit("grib2_table_4_2_local_index.csv");
        reveal_strlit("grib2_table_4_2_");
        reveal_strlit(".csv");
    }
    let s = to_chars(name);
    let index_name = to_chars("grib2_table_4_2_local_index.csv");
    assert(index_name@ =~= local_index_name());
    if s.len() == index_name.len() && matches_at(&s, &index_name, 0) {
        assert(s@.subrange(0, s@.len() as int) =~= s@);
        return Some(TableFile::LocalIndex);
    }
    proof {
        if s@ == local_index_name() {
            assert(s@.subrange(0, s@.len() as int) =~= s@);
        }
    }
    let prefix = to_chars("grib2_table_4_2_");
    let suffix = to_chars(".csv");
    assert(prefix@ =~= table_prefix());
    assert(suffix@ =~= csv_suffix());
    let n = s.len();
    if n < 20 || !matches_at(&s, &prefix, 0) || !matches_at(&s, &suffix, n - 4) {
        return None;
    }
    let mut mid: Vec<char> = Vec::new();
    let mut i: usize = 16;
    while i < n - 4
        invariant
            n == s@.len(),
            n >= 20,
            16 <= i <= n - 4,
            mid@ == s@.subrange(16, i as int),
        decreases n - 4 - i,
    {
        mid.push(s[i]);
        i = i + 1;
        assert(mid@ =~= s@.subrange(16, i as int));
    }
    match master_fields_of(&mid) {
        Some((d, c)) => Some(TableFile::Master { discipline: d, category: c }),
        None => {
            if is_local_name_of(&mid) {
                Some(TableFile::Local)
            } else {
                None
            }
        },
    }
}

/// The version of the master table that the tables belong to.
pub const MASTER_TABLE_VERSION: u8 = 30;

/// The subcenter code of the text `s` of the local index: empty, and 65535, mean missing
/// (255); otherwise a decimal number up to 255, optionally signed with `+`.
pub open spec fn subcenter_code(s: Seq<char>) -> Option<u8> {
    if s.len() == 0 {
        Some(MISSING_U8)
    } else {
        let body = if s[0] == '+' {
            s.drop_first()
        } else {
            s
        };
        if body.len() == 0 || !all_digits(body) {
            None
        } else if digits_value(body) == 65535 {
            Some(MISSING_U8)
        } else if digits_value(body) > 255 {
            None
        } else {
            Some(digits_value(body) as u8)
        }
    }
}

proof fn lemma_digits_value_grows(s: Seq<char>)
    requires
        s.len() > 0,
        all_digits(s),
    ensures
        digits_value(s) >= digits_value(s.drop_last()),
        digits_value(s.drop_last()) >= 0,
    decreases s.len(),
{
    lemma_digits_value_nonneg(s.drop_last());
}

proof fn lemma_digits_value_nonneg(s: Seq<char>)
    ensures
        digits_value(s) >= 0,
    decreases s.len(),
{
    if s.len() > 0 {
        lemma_digits_value_nonneg(s.drop_last());
    }
}

/// A subcenter code that is not a number up to 255, nor empty, nor 65535.
#[derive(Clone, Debug, PartialEq, Eq)]
pub struct SubcenterCodeError {
    pub text: String,
}

/// The subcenter code of the text `text` of the local index.
pub fn parse_subcenter_code(text: &str) -> (r: Result<u8, SubcenterCodeError>)
    ensures
        r matches Ok(v) ==> subcenter_code(text@) == Some(v),
        r matches Err(e) ==> subcenter_code(text@) is None && e.text@ == text@,
{
    let s = to_chars(text);
    if s.len() == 0 {
        return Ok(MISSING_U8);
    }
    let start: usize = if s[0] == '+' {
        1
    } else {
        0
    };
    let ghost body = s@.subrange(start as int, s@.len() as int);
    proof {
        if start == 1 {
            assert(body =~= s@.drop_first());
        } else {
            assert(body =~= s@);
        }
    }
    if start == s.len() {
        return Err(SubcenterCodeError { text: text.to_owned() });
    }
    // The value, or 65536 once it is known to be greater than 65535.
    let mut v: u64 = 0;
    let mut i: usize = start;
    while i < s.len()
        invariant
            start <= i <= s@.len(),
            body == s@.subrange(start as int, s@.len() as int),
            s@ == text@,
            s@.len() > 0,
            body == (if s@[0] == '+' {
                s@.drop_first()
            } else {
                s@
            }),
            all_digits(s@.subrange(start as int, i as int)),
            v <= 65536,
            v < 65536 ==> v == digits_value(s@.subrange(start as int, i as int)),
            v == 65536 ==> digits_value(s@.subrange(start as int, i as int)) > 65535,
        decreases s.len() - i,
    {
        let c = s[i];
        if !('0' <= c && c <= '9') {
            assert(body[i - start] == c);
            assert(!is_digit(body[i - start]));
            return Err(SubcenterCodeError { text: text.to_owned() });
        }
        let ghost pre = s@.subrange(start as int, i as int);
        let ghost post = s@.subrange(start as int, i + 1);
        assert(post =~= pre.push(c));
        assert(post.drop_last() =~= pre);
        let d = if c == '0' {
            0
        } else if c == '1' {
            1
        } else if c == '2' {
            2
        } else if c == '3' {
            3
        } else if c == '4' {
            4
        } else if c == '5' {
            5
        } else if c == '6' {
            6
        } else if c == '7' {
            7
        } else if c == '8' {
            8
        } else {
            9
        };
        proof {
            lemma_digits_value_grows(post);
        }
        if v < 65536 {
            v = v * 10 + d;
            if v > 65536 {
                v = 65536;
            }
        }
        i = i + 1;
    }
    proof {
        assert(s@.subrange(start as int, s@.len() as int) == body);
    }
    if v == 65535 {
        Ok(MISSING_U8)
    } else if v > 255 {
        Err(SubcenterCodeError { text: text.to_owned() })
    } else {
        Ok(v as u8)
    }
}

/// One row of the local index: the originating center and subcenter of a local table.
pub struct LocalIndexRow {
    pub center_code: u16,
    pub subcenter_code: u8,
    pub filename: String,
}

impl Clone for LocalIndexRow {
    fn clone(&self) -> (r: Self)
        ensures
            r == *self,
    {
        LocalIndexRow {
            center_code: self.center_code,
            subcenter_code: self.subcenter_code,
            filename: self.filename.clone(),
        }
    }
}

pub open spec fn ndfd_file_name() -> Seq<char> {
    table_prefix() + local_prefix() + seq!['N', 'D', 'F', 'D'] + csv_suffix()
}

/// The one repeated row of the local index that is skipped: a second entry for the NDFD
/// table with center 8 and a missing subcenter.
pub open spec fn is_skipped_duplicate(r: LocalIndexRow) -> bool {
    r.filename@ == ndfd_file_name() && r.center_code == 8 && r.subcenter_code == MISSING_U8
}

/// The local index of `rows`: file name to (center, subcenter); or the first file name
/// that is repeated, bar the skipped duplicate.
pub open spec fn local_index_of(rows: Seq<LocalIndexRow>) -> Result<
    Map<Seq<char>, (u16, u8)>,
    Seq<char>,
>
    decreases rows.len(),
{
    if rows.len() == 0 {
        Ok(Map::empty())
    } else {
        match local_index_of(rows.drop_last()) {
            Err(e) => Err(e),
            Ok(m) => {
                let r = rows.last();
                if m.contains_key(r.filename@) {
                    if is_skipped_duplicate(r) {
                        Ok(m)
                    } else {
                        Err(r.filename@)
                    }
                } else {
                    Ok(m.insert(r.filename@, (r.center_code, r.subcenter_code)))
                }
            },
        }
    }
}

proof fn lemma_local_index_error_persists(all: Seq<LocalIndexRow>, k: int, e: Seq<char>)
    requires
        0 <= k <= all.len(),
        local_index_of(all.subrange(0, k)) == Err::<Map<Seq<char>, (u16, u8)>, Seq<char>>(e),
    ensures
        local_index_of(all) == Err::<Map<Seq<char>, (u16, u8)>, Seq<char>>(e),
    decreases all.len() - k,
{
    if k == all.len() {
        assert(all.subrange(0, k) =~= all);
    } else {
        assert(all.subrange(0, k + 1).drop_last() =~= all.subrange(0, k));
        lemma_local_index_error_persists(all, k + 1, e);
    }
}

/// The originating center and subcenter of each local table, by file name.
pub struct LocalIndex {
    entries: Vec<LocalIndexRow>,
}

/// A file name that the local index lists twice.
#[derive(Clone, Debug, PartialEq, Eq)]
pub struct DuplicateFilename {
    pub filename: String,
}

impl View for LocalIndex {
    type V = Map<Seq<char>, (u16, u8)>;

    closed spec fn view(&self) -> Map<Seq<char>, (u16, u8)> {
        Map::new(
            |f: Seq<char>| exists|i: int| 0 <= i < self.entries@.len() && #[trigger] self.entries@[i].filename@ == f,
            |f: Seq<char>|
                {
                    let i = choose|i: int|
                        0 <= i < self.entries@.len() && #[trigger] self.entries@[i].filename@ == f;
                    (self.entries@[i].center_code, self.entries@[i].subcenter_code)
                },
        )
    }
}

impl LocalIndex {
    /// File names are distinct.
    pub closed spec fn wf(&self) -> bool {
        forall|i: int, j: int|
            0 <= i < j < self.entries@.len() ==> (#[trigger] self.entries@[i]).filename@
                != (#[trigger] self.entries@[j]).filename@
    }

    /// The position of `filename`, if it is listed.
    fn position(&self, filename: &String) -> (r: Option<usize>)
        requires
            self.wf(),
        ensures
            r matches Some(i) ==> i < self.entries@.len() && self.entries@[i as int].filename@
                == filename@,
            r is None ==> !self@.contains_key(filename@),
    {
        let mut i: usize = 0;
        while i < self.entries.len()
            invariant
                i <= self.entries@.len(),
                forall|k: int| 0 <= k < i ==> (#[trigger] self.entries@[k]).filename@ != filename@,
            decreases self.entries.len() - i,
        {
            if self.entries[i].filename == *filename {
                return Some(i);
            }
            i = i + 1;
        }
        None
    }

    /// The (center, subcenter) of the local table `filename`.
    pub fn get(&self, filename: &String) -> (r: Option<(u16, u8)>)
        requires
            self.wf(),
        ensures
            r == (if self@.contains_key(filename@) {
                Some(self@[filename@])
            } else {
                None::<(u16, u8)>
            }),
    {
        match self.position(filename) {
            None => None,
            Some(i) => {
                let e = &self.entries[i];
                proof {
                    assert(self@.contains_key(filename@));
                    let k = choose|k: int|
                        0 <= k < self.entries@.len() && #[trigger] self.entries@[k].filename@
                            == filename@;
                    if k != i {
                        if k < i {
                            assert(self.entries@[k].filename@ != self.entries@[i as int].filename@);
                        } else {
                            assert(self.entries@[i as int].filename@ != self.entries@[k].filename@);
                        }
                    }
                }
                Some((e.center_code, e.subcenter_code))
            },
        }
    }

    /// The local index of the rows of its table, in order; fails on a repeated file
    /// name, bar the one known repeated NDFD row, which is skipped.
    pub fn from_rows(rows: &Vec<LocalIndexRow>) -> (r: Result<LocalIndex, DuplicateFilename>)
        ensures
            match local_index_of(rows@) {
                Ok(m) => r matches Ok(index) && index.wf() && index@ == m,
                Err(f) => r matches Err(e) && e.filename@ == f,
            },
    {
        proof {
            reveal_strlit("grib2_table_4_2_local_NDFD.csv");
        }
        let ndfd = "grib2_table_4_2_local_NDFD.csv".to_owned();
        assert(ndfd@ =~= ndfd_file_name());
        let ghost all = rows@;
        let mut index = LocalIndex { entries: Vec::new() };
        assert(index@ =~= Map::<Seq<char>, (u16, u8)>::empty());
        let mut k: usize = 0;
        while k < rows.len()
            invariant
                k <= all.len(),
                all == rows@,
                ndfd@ == ndfd_file_name(),
                index.wf(),
                local_index_of(all.subrange(0, k as int)) == Ok::<
                    Map<Seq<char>, (u16, u8)>,
                    Seq<char>,
                >(index@),
            decreases all.len() - k,
        {
            let row = rows[k].clone();
            let ghost pre = all.subrange(0, k as int);
            let ghost post = all.subrange(0, k + 1);
            assert(row == all[k as int]);
            assert(post.drop_last() =~= pre);
            assert(post.last() == row);
            match index.position(&row.filename) {
                Some(i) => {
                    proof {
                        assert(index@.contains_key(row.filename@));
                    }
                    if row.filename == ndfd && row.center_code == 8 && row.subcenter_code == MISSING_U8 {
                        k = k + 1;
                    } else {
                        proof {
                            lemma_local_index_error_persists(all, k + 1, row.filename@);
                        }
                        return Err(DuplicateFilename { filename: row.filename });
                    }
                },
                None => {
                    let ghost old_index = index@;
                    let ghost e0 = index.entries@;
                    let ghost f = row.filename@;
                    let ghost v = (row.center_code, row.subcenter_code);
                    index.entries.push(row);
                    proof {
                        let e1 = index.entries@;
                        assert forall|x: int, y: int| 0 <= x < y < e1.len() implies (#[trigger] e1[x]).filename@
                            != (#[trigger] e1[y]).filename@ by {
                            if y == e0.len() {
                                assert(e1[x] == e0[x]);
                            } else {
                                assert(e1[x] == e0[x] && e1[y] == e0[y]);
                            }
                        }
                        assert forall|g: Seq<char>| #[trigger] index@.contains_key(g) <==> old_index.insert(
                            f,
                            v,
                        ).contains_key(g) by {
                            if index@.contains_key(g) {
                                let q = choose|q: int| 0 <= q < e1.len() && #[trigger] e1[q].filename@ == g;
                                if q < e0.len() {
                                    assert(e0[q] == e1[q]);
                                }
                            }
                            if old_index.contains_key(g) {
                                let q = choose|q: int| 0 <= q < e0.len() && #[trigger] e0[q].filename@ == g;
                                assert(e1[q] == e0[q]);
                            }
                            if g == f {
                                assert(e1[e0.len() as int].filename@ == f);
                            }
                        }
                        assert forall|g: Seq<char>| #[trigger] index@.contains_key(g) implies index@[g]
                            == old_index.insert(f, v)[g] by {
                            let q = choose|q: int| 0 <= q < e1.len() && #[trigger] e1[q].filename@ == g;
                            if g == f {
                                if q < e0.len() {
                                    assert(e0[q] == e1[q]);
                                    assert(old_index.contains_key(f));
                                }
                            } else {
                                let q0 = choose|q0: int| 0 <= q0 < e0.len() && #[trigger] e0[q0].filename@ == g;
                                assert(e1[q0] == e0[q0]);
                                if q != q0 {
                                    if q < q0 {
                                        assert(e1[q].filename@ != e1[q0].filename@);
                                    } else {
                                        assert(e1[q0].filename@ != e1[q].filename@);
                                    }
                                }
                            }
                        }
                        assert(index@ =~= old_index.insert(f, v));
                    }
                    k = k + 1;
                },
            }
        }
        assert(all.subrange(0, all.len() as int) =~= all);
        Ok(index)
    }
}

/// One row of a parameter table. Local tables give the discipline (`prod`) and category
/// (`cat`) of each row; master tables give them in their file name.
pub struct TableRow {
    pub prod: Option<u8>,
    pub cat: Option<u8>,
    /// Signed, because the comment rows at the top of each table have negative numbers.
    pub subcat: i16,
    pub short_name: String,
    pub name: String,
    pub unit: String,
}

/// The rows of one table file, with the file's name.
pub struct TableSource {
    pub file_name: String,
    pub rows: Vec<TableRow>,
}

/// Why the database could not be filled.
#[derive(Debug, PartialEq, Eq)]
pub enum PopulateError {
    /// A file whose name is not that of a table.
    UnrecognizedTableFile(String),
    /// A row of a local table without discipline or category.
    MissingDisciplineOrCategory(String),
    /// A kept row whose sub-category number does not fit in a byte.
    SubcategoryOutOfRange { file_name: String, subcat: i16 },
    /// A local table that the local index does not list.
    MissingLocalIndexEntry(String),
    /// An identifier that is already in the database.
    Insertion { file_name: String, error: ParameterInsertionError },
}

/// The kinds of [`PopulateError`].
#[derive(Clone, Copy, Debug, PartialEq, Eq, Structural)]
pub enum PopulateErrorKind {
    UnrecognizedTableFile,
    MissingDisciplineOrCategory,
    SubcategoryOutOfRange,
    MissingLocalIndexEntry,
    DuplicateNumericId,
}

impl PopulateError {
    pub open spec fn error_kind(&self) -> PopulateErrorKind {
        match self {
            PopulateError::UnrecognizedTableFile(_) => PopulateErrorKind::UnrecognizedTableFile,
            PopulateError::MissingDisciplineOrCategory(_) => PopulateErrorKind::MissingDisciplineOrCategory,
            PopulateError::SubcategoryOutOfRange { .. } => PopulateErrorKind::SubcategoryOutOfRange,
            PopulateError::MissingLocalIndexEntry(_) => PopulateErrorKind::MissingLocalIndexEntry,
            PopulateError::Insertion { .. } => PopulateErrorKind::DuplicateNumericId,
        }
    }
}

/// The parameter of a row.
pub open spec fn row_parameter(row: TableRow) -> Parameter {
    Parameter { abbrev: Abbrev(row.short_name), name: row.name, unit: row.unit }
}

/// The packed identifier of a kept row of a table of kind `kind` named `file`: the
/// master table version is set; rows of local tables also get the center and subcenter
/// that the local index gives for the file.
pub open spec fn row_key(
    kind: TableFile,
    row: TableRow,
    file: Seq<char>,
    index: Map<Seq<char>, (u16, u8)>,
) -> Result<u64, PopulateErrorKind> {
    match kind {
        TableFile::Master { discipline, category } => if row.subcat > 255 {
            Err(PopulateErrorKind::SubcategoryOutOfRange)
        } else {
            Ok(
                pack_fields(
                    discipline,
                    category,
                    row.subcat as u8,
                    MASTER_TABLE_VERSION,
                    MISSING_U16,
                    MISSING_U8,
                    MISSING_U8,
                ),
            )
        },
        TableFile::Local => if row.prod is None || row.cat is None {
            Err(PopulateErrorKind::MissingDisciplineOrCategory)
        } else if row.subcat > 255 {
            Err(PopulateErrorKind::SubcategoryOutOfRange)
        } else if !index.contains_key(file) {
            Err(PopulateErrorKind::MissingLocalIndexEntry)
        } else {
            Ok(
                pack_fields(
                    row.prod->0,
                    row.cat->0,
                    row.subcat as u8,
                    MASTER_TABLE_VERSION,
                    index[file].0,
                    index[file].1,
                    MISSING_U8,
                ),
            )
        },
        TableFile::LocalIndex => Err(PopulateErrorKind::UnrecognizedTableFile),
    }
}

/// The parameters after filling `m` from the tables `tables[t..]`, starting at row `k` of
/// table `t`: every kept row of every table is inserted in order, and the first failure
/// ends the filling.
pub open spec fn populate_from(
    m: Map<u64, Parameter>,
    tables: Seq<TableSource>,
    index: Map<Seq<char>, (u16, u8)>,
    t: int,
    k: int,
) -> Result<Map<u64, Parameter>, PopulateErrorKind>
    decreases tables.len() - t, tables[t].rows@.len() - k,
{
    if t < 0 || t >= tables.len() || k < 0 {
        Ok(m)
    } else {
        let table = tables[t];
        match classify(table.file_name@) {
            None => Err(PopulateErrorKind::UnrecognizedTableFile),
            Some(TableFile::LocalIndex) => populate_from(m, tables, index, t + 1, 0),
            Some(kind) => if k >= table.rows@.len() {
                populate_from(m, tables, index, t + 1, 0)
            } else {
                let row = table.rows@[k];
                if !row_is_kept(row.subcat, lower_of(row.name@)) {
                    populate_from(m, tables, index, t, k + 1)
                } else {
                    match row_key(kind, row, table.file_name@, index) {
                        Err(e) => Err(e),
                        Ok(id) => if m.contains_key(id) {
                            Err(PopulateErrorKind::DuplicateNumericId)
                        } else {
                            populate_from(m.insert(id, row_parameter(row)), tables, index, t, k + 1)
                        },
                    }
                }
            },
        }
    }
}

impl ParameterDatabase {
    /// Fills the database from the rows of the parameter tables, in order, skipping the
    /// local index file and the rows that the filter drops. Every parameter of a master
    /// table gets the master table version and missing center, subcenter and local table
    /// version; every parameter of a local table gets the center and subcenter of its
    /// file in `local_index`. The first failure aborts the filling.
    pub fn populate(self, tables: &Vec<TableSource>, local_index: &LocalIndex) -> (r: Result<
        ParameterDatabase,
        PopulateError,
    >)
        requires
            self.wf(),
            local_index.wf(),
        ensures
            match populate_from(self@, tables@, local_index@, 0, 0) {
                Ok(m) => r matches Ok(db) && db.wf() && db@ == m,
                Err(k) => r matches Err(e) && e.error_kind() == k,
            },
    {
        let ghost m0 = self@;
        let mut db = self;
        let mut t: usize = 0;
        while t < tables.len()
            invariant
                t <= tables@.len(),
                db.wf(),
                m0 == self@,
                populate_from(m0, tables@, local_index@, 0, 0) == populate_from(
                    db@,
                    tables@,
                    local_index@,
                    t as int,
                    0,
                ),
                local_index.wf(),
            decreases tables.len() - t,
        {
            let table = &tables[t];
            let kind = match classify_table_file(table.file_name.as_str()) {
                None => {
                    assert(populate_from(db@, tables@, local_index@, t as int, 0) == Err::<
                        Map<u64, Parameter>,
                        PopulateErrorKind,
                    >(PopulateErrorKind::UnrecognizedTableFile));
                    return Err(PopulateError::UnrecognizedTableFile(table.file_name.clone()));
                },
                Some(kind) => kind,
            };
            if kind != TableFile::LocalIndex {
                let mut k: usize = 0;
                while k < table.rows.len()
                    invariant
                        t < tables@.len(),
                        *table == tables@[t as int],
                        classify(table.file_name@) == Some(kind),
                        kind != TableFile::LocalIndex,
                        k <= table.rows@.len(),
                        db.wf(),
                        m0 == self@,
                        local_index.wf(),
                        populate_from(m0, tables@, local_index@, 0, 0) == populate_from(
                            db@,
                            tables@,
                            local_index@,
                            t as int,
                            k as int,
                        ),
                    decreases table.rows.len() - k,
                {
                    let row = &table.rows[k];
                    if row_passes_filter(row.subcat, row.name.as_str()) {
                        if row.subcat > 255 && kind != TableFile::Local {
                            return Err(
                                PopulateError::SubcategoryOutOfRange {
                                    file_name: table.file_name.clone(),
                                    subcat: row.subcat,
                                },
                            );
                        }
                        let mut builder = match kind {
                            TableFile::Master { discipline, category } => NumericIdBuilder::new(
                                discipline,
                                category,
                                row.subcat as u8,
                            ),
                            _ => {
                                let (d, c) = match (row.prod, row.cat) {
                                    (Some(d), Some(c)) => (d, c),
                                    _ => {
                                        return Err(
                                            PopulateError::MissingDisciplineOrCategory(
                                                table.file_name.clone(),
                                            ),
                                        );
                                    },
                                };
                                if row.subcat > 255 {
                                    return Err(
                                        PopulateError::SubcategoryOutOfRange {
                                            file_name: table.file_name.clone(),
                                            subcat: row.subcat,
                                        },
                                    );
                                }
                                NumericIdBuilder::new(d, c, row.subcat as u8)
                            },
                        };
                        builder.set_master_table_version(MASTER_TABLE_VERSION);
                        if kind == TableFile::Local {
                            match local_index.get(&table.file_name) {
                                None => {
                                    return Err(
                                        PopulateError::MissingLocalIndexEntry(
                                            table.file_name.clone(),
                                        ),
                                    );
                                },
                                Some((center, subcenter)) => {
                                    builder.set_originating_center(center);
                                    builder.set_subcenter(subcenter);
                                },
                            }
                        }
                        let numeric_id = builder.build();
                        let parameter = Parameter {
                            abbrev: Abbrev(row.short_name.clone()),
                            name: row.name.clone(),
                            unit: row.unit.clone(),
                        };
                        match db.insert(numeric_id, parameter) {
                            Ok(()) => {},
                            Err(error) => {
                                return Err(
                                    PopulateError::Insertion {
                                        file_name: table.file_name.clone(),
                                        error,
                                    },
                                );
                            },
                        }
                    }
                    k = k + 1;
                }
            }
            t = t + 1;
        }
        Ok(db)
    }
}

} // verus!

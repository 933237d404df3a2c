//! Scan bookkeeping: which catalog pages a scan accepts, which datasets it
//! announces, and the record keys under which announcements are posted.

use vstd::prelude::*;
use crate::catalog::{dataset_of, in_scope, is_valid_id_text, Dataset, DatasetView, Entry, Page};
use crate::error::BotError;
use crate::order::{lemma_text_lt_irreflexive, lemma_text_lt_total, lemma_text_lt_transitive, text_less, text_lt};
use crate::text::{chars_of, str_eq, string_push, string_texts};

verus! {

/// The base-32 alphabet of AT Protocol record keys (TIDs), as a function of
/// a digit below 32.
pub open spec fn tid_digit(k: u64) -> char {
    if k < 6 {
        (50 + k) as char
    } else {
        (97 + k - 6) as char
    }
}

/// The `i`-th character of the record key of a microsecond timestamp: the
/// timestamp shifted left by ten bits (in 64 bits), read as thirteen base-32
/// digits, most significant first.
pub open spec fn tid_char(micros: u64, i: int) -> char {
    tid_digit(((micros << 10u64) >> ((60 - 5 * i) as u64)) & 31u64)
}

/// The record key of a microsecond timestamp.
pub open spec fn tid_text(micros: u64) -> Seq<char> {
    Seq::new(13, |i: int| tid_char(micros, i))
}

fn digit(k: u64) -> (c: char)
    requires
        k < 32,
    ensures
        c == tid_digit(k),
{
    if k < 6 {
        ((50 + k) as u8) as char
    } else {
        ((97 + k - 6) as u8) as char
    }
}

/// The record key of a microsecond timestamp: thirteen base-32 characters
/// that sort like the timestamps they encode (`lemma_tid_order`).
pub fn tid(micros: u64) -> (s: String)
    ensures
        s@ == tid_text(micros),
{
    let n: u64 = micros << 10u64;
    let mut s = String::new();
    let mut i: u64 = 0;
    while i < 13
        invariant
            i <= 13,
            n == micros << 10u64,
            s@ == tid_text(micros).take(i as int),
        decreases 13 - i,
    {
        let shift: u64 = 60 - 5 * i;
        let k = (n >> shift) & 31u64;
        assert(((n >> shift) & 31u64) < 32) by (bit_vector);
        let c = digit(k);
        string_push(&mut s, c);
        assert(tid_text(micros).take(i as int).push(c) =~= tid_text(micros).take(i + 1));
        i = i + 1;
    }
    assert(tid_text(micros).take(13) =~= tid_text(micros));
    s
}

proof fn lemma_digit_injective(a: u64, b: u64)
    requires
        a < 32,
        b < 32,
        tid_digit(a) == tid_digit(b),
    ensures
        a == b,
{
    let (x, y) = (tid_digit(a), tid_digit(b));
    assert((x as u32) == (y as u32));
}

proof fn lemma_groups_determine(x: u64, y: u64)
    by (bit_vector)
    requires
        (x >> 60u64) & 31u64 == (y >> 60u64) & 31u64,
        (x >> 55u64) & 31u64 == (y >> 55u64) & 31u64,
        (x >> 50u64) & 31u64 == (y >> 50u64) & 31u64,
        (x >> 45u64) & 31u64 == (y >> 45u64) & 31u64,
        (x >> 40u64) & 31u64 == (y >> 40u64) & 31u64,
        (x >> 35u64) & 31u64 == (y >> 35u64) & 31u64,
        (x >> 30u64) & 31u64 == (y >> 30u64) & 31u64,
        (x >> 25u64) & 31u64 == (y >> 25u64) & 31u64,
        (x >> 20u64) & 31u64 == (y >> 20u64) & 31u64,
        (x >> 15u64) & 31u64 == (y >> 15u64) & 31u64,
        (x >> 10u64) & 31u64 == (y >> 10u64) & 31u64,
        (x >> 5u64) & 31u64 == (y >> 5u64) & 31u64,
        (x >> 0u64) & 31u64 == (y >> 0u64) & 31u64,
    ensures
        x == y,
{
}

proof fn group_eq(a: u64, b: u64, i: int)
    requires
        0 <= i < 13,
        tid_text(a) == tid_text(b),
    ensures
        ((a << 10u64) >> ((60 - 5 * i) as u64)) & 31u64 == ((b << 10u64) >> ((60 - 5 * i) as u64))
            & 31u64,
{
    let x = a << 10u64;
    let y = b << 10u64;
    assert(tid_text(a)[i] == tid_text(b)[i]);
    assert(tid_text(a)[i] == tid_char(a, i));
    assert(tid_text(b)[i] == tid_char(b, i));
    let s: u64 = (60 - 5 * i) as u64;
    assert(((x >> s) & 31u64) < 32) by (bit_vector);
    assert(((y >> s) & 31u64) < 32) by (bit_vector);
    lemma_digit_injective((x >> s) & 31u64, (y >> s) & 31u64);
}

/// Two timestamps below 2^54 microseconds (a few centuries after 1970) get
/// different record keys, so announcements queued one microsecond apart never
/// share a key.
pub proof fn lemma_tid_injective(a: u64, b: u64)
    requires
        a < 0x40_0000_0000_0000,
        b < 0x40_0000_0000_0000,
        tid_text(a) == tid_text(b),
    ensures
        a == b,
{
    let x = a << 10u64;
    let y = b << 10u64;
    group_eq(a, b, 0);
    group_eq(a, b, 1);
    group_eq(a, b, 2);
    group_eq(a, b, 3);
    group_eq(a, b, 4);
    group_eq(a, b, 5);
    group_eq(a, b, 6);
    group_eq(a, b, 7);
    group_eq(a, b, 8);
    group_eq(a, b, 9);
    group_eq(a, b, 10);
    group_eq(a, b, 11);
    group_eq(a, b, 12);
    lemma_groups_determine(x, y);
    assert(a < 0x40_0000_0000_0000 && b < 0x40_0000_0000_0000 && (a << 10u64) == (b << 10u64)
        ==> a == b) by (bit_vector);
}

proof fn lemma_group_step(x: u64, y: u64, s: u64)
    by (bit_vector)
    requires
        s <= 60,
        x < y,
        s == 60 || (x >> (s + 5)) == (y >> (s + 5)),
    ensures
        (x >> s) & 31u64 <= (y >> s) & 31u64,
        (x >> s) & 31u64 == (y >> s) & 31u64 ==> (x >> s) == (y >> s),
{
}

proof fn lemma_digit_order(a: u64, b: u64)
    requires
        a < b < 32,
    ensures
        (tid_digit(a) as u32) < (tid_digit(b) as u32),
{
}

proof fn lemma_tid_lt_from(a: u64, b: u64, i: int)
    requires
        a < b < 0x40_0000_0000_0000,
        0 <= i < 13,
        i == 0 || ((a << 10u64) >> ((65 - 5 * i) as u64)) == ((b << 10u64) >> ((65 - 5 * i) as u64)),
    ensures
        text_lt(tid_text(a).skip(i), tid_text(b).skip(i)),
    decreases 13 - i,
{
    let x = a << 10u64;
    let y = b << 10u64;
    assert(a < b && b < 0x40_0000_0000_0000 ==> (a << 10u64) < (b << 10u64)) by (bit_vector);
    let sh = (60 - 5 * i) as u64;
    if i > 0 {
        assert(sh + 5 == (65 - 5 * i) as u64);
    }
    lemma_group_step(x, y, sh);
    let ga = (x >> sh) & 31u64;
    let gb = (y >> sh) & 31u64;
    assert(((y >> sh) & 31u64) < 32) by (bit_vector);
    let ta = tid_text(a).skip(i);
    let tb = tid_text(b).skip(i);
    assert(ta[0] == tid_char(a, i));
    assert(tb[0] == tid_char(b, i));
    if ga < gb {
        lemma_digit_order(ga, gb);
    } else {
        assert(ga == gb);
        if i == 12 {
            assert(sh == 0);
            assert((x >> 0u64) == x && (y >> 0u64) == y) by (bit_vector);
        } else {
            assert(ta.drop_first() =~= tid_text(a).skip(i + 1));
            assert(tb.drop_first() =~= tid_text(b).skip(i + 1));
            assert(sh == (65 - 5 * (i + 1)) as u64);
            lemma_tid_lt_from(a, b, i + 1);
        }
    }
}

/// Record keys sort like the timestamps they encode: for timestamps below
/// 2^54 microseconds, an earlier timestamp has a key that sorts first (by
/// code point, hence also byte-wise, since the keys are ASCII).
pub proof fn lemma_tid_order(a: u64, b: u64)
    requires
        a < b < 0x40_0000_0000_0000,
    ensures
        text_lt(tid_text(a), tid_text(b)),
{
    lemma_tid_lt_from(a, b, 0);
    assert(tid_text(a).skip(0) =~= tid_text(a));
    assert(tid_text(b).skip(0) =~= tid_text(b));
}

/// Every record key is thirteen characters of the base-32 alphabet
/// `234567abcdefghijklmnopqrstuvwxyz`; its first character is at most `j`,
/// and it ends in `22` (the clock identifier 0).
pub proof fn lemma_tid_shape(m: u64)
    ensures
        tid_text(m).len() == 13,
        forall|i: int|
            0 <= i < 13 ==> {
                let c = #[trigger] tid_text(m)[i];
                ('2' <= c <= '7') || ('a' <= c <= 'z')
            },
        (tid_text(m)[0] as u32) <= ('j' as u32),
        tid_text(m)[11] == '2',
        tid_text(m)[12] == '2',
{
    let x = m << 10u64;
    assert forall|i: int| 0 <= i < 13 implies {
        let c = #[trigger] tid_text(m)[i];
        ('2' <= c <= '7') || ('a' <= c <= 'z')
    } by {
        let sh = (60 - 5 * i) as u64;
        assert(((x >> sh) & 31u64) < 32) by (bit_vector);
        assert(tid_text(m)[i] == tid_char(m, i));
    }
    assert(((x >> 60u64) & 31u64) < 16) by (bit_vector);
    assert(tid_text(m)[0] == tid_char(m, 0));
    assert((((m << 10u64) >> 5u64) & 31u64) == 0 && (((m << 10u64) >> 0u64) & 31u64) == 0) by (bit_vector);
    assert(tid_text(m)[11] == tid_char(m, 11));
    assert(tid_text(m)[12] == tid_char(m, 12));
}

} // verus!

verus! {

/// The identifiers of a list of datasets.
pub open spec fn ids_of(ds: Seq<DatasetView>) -> Seq<Seq<char>> {
    ds.map_values(|d: DatasetView| d.id)
}

/// No identifier occurs twice.
pub open spec fn distinct_ids(ds: Seq<DatasetView>) -> bool {
    forall|i: int, j: int| 0 <= i < j < ds.len() ==> ds[i].id != ds[j].id
}

/// The datasets of a scan after the entries `es` of a page are added to the
/// datasets `known` already seen in it: each entry must be in scope, carry a
/// valid identifier and not repeat one; the first entry that fails decides the
/// error.
pub open spec fn absorb(known: Seq<DatasetView>, es: Seq<Entry>) -> Result<Seq<DatasetView>, BotError>
    decreases es.len(),
{
    if es.len() == 0 {
        Ok(known)
    } else {
        let e = es[0];
        if !in_scope(e) {
            Err(BotError::UnexpectedScope)
        } else if !is_valid_id_text(e.resource.id@) {
            Err(BotError::InvalidDatasetId)
        } else if ids_of(known).contains(e.resource.id@) {
            Err(BotError::DuplicateId)
        } else {
            absorb(known.push(dataset_of(e)), es.drop_first())
        }
    }
}

/// The datasets of a scan after one more page, given the catalog size that
/// earlier pages reported (if any): the reported size must lie in
/// 1..=100000 and stay the same, the page must not be empty, and the scan
/// must not hold more datasets than the reported size.
pub open spec fn after_page(
    expected: Option<usize>,
    known: Seq<DatasetView>,
    total: usize,
    es: Seq<Entry>,
) -> Result<Seq<DatasetView>, BotError> {
    if !(0 < total <= 100_000) {
        Err(BotError::UnexpectedCatalogSize)
    } else if (expected matches Some(n) && n != total) {
        Err(BotError::CatalogChanged)
    } else if es.len() == 0 {
        Err(BotError::CatalogEndedEarly)
    } else {
        match absorb(known, es) {
            Err(e) => Err(e),
            Ok(ds) => if ds.len() > total {
                Err(BotError::PaginationMismatch)
            } else {
                Ok(ds)
            },
        }
    }
}

/// One scan of the whole catalog, page by page.
pub struct Scan {
    baseline: bool,
    expected: Option<usize>,
    datasets: Vec<Dataset>,
}

/// The identifiers among `ids` that `seen` does not hold, in order.
pub open spec fn unseen(ids: Seq<Seq<char>>, seen: Seq<Seq<char>>) -> Seq<Seq<char>>
    decreases ids.len(),
{
    if ids.len() == 0 {
        Seq::empty()
    } else if seen.contains(ids.last()) {
        unseen(ids.drop_last(), seen)
    } else {
        unseen(ids.drop_last(), seen).push(ids.last())
    }
}

/// A dataset to announce, with the record key it will be posted under.
pub struct Announcement {
    pub dataset: Dataset,
    pub rkey: String,
}

/// The datasets of a list of announcements.
pub open spec fn announced_views(v: Seq<Announcement>) -> Seq<DatasetView> {
    v.map_values(|a: Announcement| a.dataset@)
}

/// `out` lists, in identifier order, exactly the datasets of the scan whose
/// identifiers were not known before it.
pub open spec fn lists_new_datasets(
    gathered: Seq<DatasetView>,
    seen: Seq<Seq<char>>,
    out: Seq<DatasetView>,
) -> bool {
    &&& forall|i: int, j: int| 0 <= i < j < out.len() ==> text_lt(out[i].id, out[j].id)
    &&& forall|k: int|
        0 <= k < out.len() ==> gathered.contains(#[trigger] out[k]) && !seen.contains(out[k].id)
    &&& forall|d: DatasetView|
        gathered.contains(d) && !seen.contains(d.id) ==> exists|k: int|
            0 <= k < out.len() && (#[trigger] out[k]).id == d.id
}

impl Scan {
    /// Whether the scan sets the baseline (and announces nothing).
    pub closed spec fn is_baseline(&self) -> bool {
        self.baseline
    }

    /// The catalog size that the pages so far reported.
    pub closed spec fn expected_total(&self) -> Option<usize> {
        self.expected
    }

    /// The datasets of the pages so far, in order.
    pub closed spec fn gathered(&self) -> Seq<DatasetView> {
        self.datasets@.map_values(|d: Dataset| d@)
    }

    /// What every scan keeps: no identifier twice.
    pub open spec fn wf(&self) -> bool {
        distinct_ids(self.gathered())
    }

    /// Starts a scan. A baseline scan needs a database without a baseline, an
    /// announcing scan one with a baseline.
    pub fn start(baseline: bool, initialized: bool) -> (r: Result<Scan, BotError>)
        ensures
            baseline && initialized ==> r == Err::<Scan, BotError>(BotError::BaselineExists),
            !baseline && !initialized ==> r == Err::<Scan, BotError>(BotError::NotInitialized),
            baseline != initialized ==> (r matches Ok(s) && s.wf() && s.is_baseline() == baseline
                && s.expected_total() is None && s.gathered().len() == 0),
    {
        if baseline == initialized {
            return Err(
                if baseline {
                    BotError::BaselineExists
                } else {
                    BotError::NotInitialized
                },
            );
        }
        let s = Scan { baseline, expected: None, datasets: Vec::new() };
        assert(s.gathered() =~= Seq::<DatasetView>::empty());
        Ok(s)
    }

    /// Adds one page to the scan (consuming it; a failed page ends the scan).
    pub fn add_page(self, page: Page) -> (r: Result<Scan, BotError>)
        requires
            self.wf(),
        ensures
            match after_page(self.expected_total(), self.gathered(), page.total, page.results@) {
                Err(e) => r == Err::<Scan, BotError>(e),
                Ok(ds) => r matches Ok(s) && s.wf() && s.gathered() == ds && s.expected_total()
                    == Some(page.total) && s.is_baseline() == self.is_baseline(),
            },
    {
        let total = page.total;
        if !(0 < total && total <= 100_000) {
            return Err(BotError::UnexpectedCatalogSize);
        }
        match self.expected {
            Some(n) => {
                if n != total {
                    return Err(BotError::CatalogChanged);
                }
            },
            None => {},
        }
        if page.results.len() == 0 {
            return Err(BotError::CatalogEndedEarly);
        }
        let ghost start = self.gathered();
        let ghost all = page.results@;
        let ghost outcome = after_page(self.expected_total(), self.gathered(), total, all);
        assert(outcome == match absorb(start, all) {
            Err(e) => Err(e),
            Ok(ds) => if ds.len() > total {
                Err(BotError::PaginationMismatch)
            } else {
                Ok(ds)
            },
        });
        let mut results = page.results;
        let mut datasets = self.datasets;
        while results.len() > 0
            invariant
                absorb(start, all) == absorb(datasets@.map_values(|d: Dataset| d@), results@),
                outcome == after_page(self.expected_total(), self.gathered(), page.total, page.results@),
                outcome == match absorb(start, all) {
                    Err(e) => Err(e),
                    Ok(ds) => if ds.len() > total {
                        Err(BotError::PaginationMismatch)
                    } else {
                        Ok(ds)
                    },
                },
                distinct_ids(datasets@.map_values(|d: Dataset| d@)),
            decreases results@.len(),
        {
            let ghost known = datasets@.map_values(|d: Dataset| d@);
            let ghost rest = results@;
            let entry = results.remove(0);
            assert(results@ =~= rest.drop_first());
            let ghost e = entry;
            assert(e == rest[0]);
            assert(absorb(known, rest) == (if !in_scope(e) {
                Err(BotError::UnexpectedScope)
            } else if !is_valid_id_text(e.resource.id@) {
                Err(BotError::InvalidDatasetId)
            } else if ids_of(known).contains(e.resource.id@) {
                Err(BotError::DuplicateId)
            } else {
                absorb(known.push(dataset_of(e)), rest.drop_first())
            }));
            let d = match entry.dataset() {
                Ok(d) => d,
                Err(err) => return Err(err),
            };
            if has_id(&datasets, d.id.as_str()) {
                return Err(BotError::DuplicateId);
            }
            datasets.push(d);
            assert(datasets@.map_values(|d: Dataset| d@) =~= known.push(dataset_of(e)));
            assert forall|i: int, j: int|
                0 <= i < j < known.len() + 1 implies known.push(dataset_of(e))[i].id != known.push(
                dataset_of(e),
            )[j].id by {
                if j == known.len() {
                    assert(ids_of(known)[i] == known[i].id);
                }
            }
        }
        assert(absorb(start, all) == Ok::<Seq<DatasetView>, BotError>(
            datasets@.map_values(|d: Dataset| d@),
        ));
        if datasets.len() > total {
            return Err(BotError::PaginationMismatch);
        }
        Ok(Scan { baseline: self.baseline, expected: Some(total), datasets })
    }

    /// The announcements of a finished scan, given the identifiers known before
    /// it and the clock in microseconds: the datasets whose identifiers were not
    /// known, in identifier order, keyed by the record keys of the following
    /// microseconds. A baseline scan announces nothing.
    pub fn announcements(&self, seen: &Vec<String>, first_micros: u64) -> (r: Vec<Announcement>)
        requires
            self.wf(),
            first_micros + self.gathered().len() <= u64::MAX,
        ensures
            self.is_baseline() ==> r@.len() == 0,
            !self.is_baseline() ==> lists_new_datasets(
                self.gathered(),
                string_texts(seen@),
                announced_views(r@),
            ),
            forall|k: int|
                0 <= k < r@.len() ==> (#[trigger] r@[k]).rkey@ == tid_text(
                    (first_micros + 1 + k) as u64,
                ),
    {
        if self.baseline {
            return Vec::new();
        }
        let sorted = self.new_datasets_sorted(seen);
        let out = keyed(&sorted, first_micros);
        proof {
            lemma_cover_lists_new(self.gathered(), string_texts(seen@), views(sorted@));
        }
        out
    }

    fn new_datasets_sorted(&self, seen: &Vec<String>) -> (sorted: Vec<Dataset>)
        requires
            self.wf(),
        ensures
            sorted@.len() <= self.gathered().len(),
            strictly_sorted(views(sorted@)),
            drawn_from(self.gathered(), string_texts(seen@), self.gathered().len() as int, views(sorted@)),
            covers(self.gathered(), string_texts(seen@), self.gathered().len() as int, views(sorted@)),
    {
        let ghost g = self.gathered();
        let ghost known = string_texts(seen@);
        let mut sorted: Vec<Dataset> = Vec::new();
        let mut i: usize = 0;
        while i < self.datasets.len()
            invariant
                g == self.gathered(),
                g == views(self.datasets@),
                known == string_texts(seen@),
                distinct_ids(g),
                i <= g.len(),
                strictly_sorted(views(sorted@)),
                sorted@.len() <= i,
                drawn_from(g, known, i as int, views(sorted@)),
                covers(g, known, i as int, views(sorted@)),
            decreases g.len() - i,
        {
            let d = &self.datasets[i];
            assert(g[i as int] == d@);
            if !contains_text(seen, d.id.as_str()) {
                let ghost before = views(sorted@);
                assert(!ids_of(before).contains(d@.id)) by {
                    if ids_of(before).contains(d@.id) {
                        let k = choose|k: int| 0 <= k < ids_of(before).len() && ids_of(before)[k] == d@.id;
                        assert(before[k].id == d@.id);
                        let j = choose|j: int| 0 <= j < i && g[j] == #[trigger] before[k];
                        assert(g[j].id == g[i as int].id);
                    }
                }
                insert_sorted(&mut sorted, d.duplicate());
                let ghost p = choose|p: int|
                    0 <= p <= before.len() && views(sorted@) == before.insert(p, d@);
                proof {
                    lemma_insert_keeps_cover(g, known, i as int, before, views(sorted@), p);
                }
            } else {
                proof {
                    lemma_skip_keeps_cover(g, known, i as int, views(sorted@));
                }
            }
            i = i + 1;
        }
        sorted
    }

    /// The identifiers of the scan that were not known before it, in scan
    /// order: those a committed scan adds to the known identifiers.
    pub fn unseen_ids(&self, seen: &Vec<String>) -> (r: Vec<String>)
        ensures
            string_texts(r@) == unseen(ids_of(self.gathered()), string_texts(seen@)),
    {
        let ghost ids = ids_of(self.gathered());
        let ghost known = string_texts(seen@);
        let mut r: Vec<String> = Vec::new();
        let mut i: usize = 0;
        while i < self.datasets.len()
            invariant
                ids == ids_of(self.gathered()),
                known == string_texts(seen@),
                i <= self.datasets@.len(),
                string_texts(r@) == unseen(ids.take(i as int), known),
            decreases self.datasets@.len() - i,
        {
            assert(ids.take(i + 1).drop_last() =~= ids.take(i as int));
            assert(ids.take(i + 1).last() == self.datasets@[i as int]@.id);
            let id = &self.datasets[i].id;
            if !contains_text(seen, id.as_str()) {
                let ghost before = r@;
                r.push(id.clone());
                assert(string_texts(r@) =~= string_texts(before).push(id@));
            }
            i = i + 1;
        }
        assert(ids.take(i as int) =~= ids);
        r
    }

    /// Whether the scan has seen as many datasets as the catalog reported.
    pub fn is_complete(&self) -> (r: bool)
        ensures
            r == (self.expected_total() matches Some(n) && self.gathered().len() == n),
    {
        match self.expected {
            Some(n) => self.datasets.len() == n,
            None => false,
        }
    }

    /// The number of datasets seen so far.
    pub fn offset(&self) -> (r: usize)
        ensures
            r == self.gathered().len(),
    {
        self.datasets.len()
    }

    /// Whether the scan sets the baseline.
    pub fn sets_baseline(&self) -> (r: bool)
        ensures
            r == self.is_baseline(),
    {
        self.baseline
    }

    /// The identifiers seen so far, in order.
    pub fn ids(&self) -> (r: Vec<String>)
        ensures
            string_texts(r@) == ids_of(self.gathered()),
    {
        let mut r: Vec<String> = Vec::new();
        let mut i: usize = 0;
        while i < self.datasets.len()
            invariant
                i <= self.datasets@.len(),
                string_texts(r@) == ids_of(self.gathered()).take(i as int),
            decreases self.datasets@.len() - i,
        {
            let ghost before = r@;
            let id = self.datasets[i].id.clone();
            r.push(id);
            assert(self.gathered()[i as int] == self.datasets@[i as int]@);
            assert(string_texts(r@) =~= string_texts(before).push(id@));
            assert(string_texts(r@) =~= ids_of(self.gathered()).take(i + 1));
            i = i + 1;
        }
        assert(ids_of(self.gathered()).take(i as int) =~= ids_of(self.gathered()));
        r
    }

    /// The datasets seen so far, in order.
    pub fn datasets(&self) -> (r: Vec<Dataset>)
        ensures
            r@.map_values(|d: Dataset| d@) == self.gathered(),
    {
        let mut r: Vec<Dataset> = Vec::new();
        let mut i: usize = 0;
        while i < self.datasets.len()
            invariant
                i <= self.datasets@.len(),
                r@.map_values(|d: Dataset| d@) == self.gathered().take(i as int),
            decreases self.datasets@.len() - i,
        {
            let ghost before = r@;
            let d = self.datasets[i].duplicate();
            r.push(d);
            assert(self.gathered()[i as int] == self.datasets@[i as int]@);
            assert(r@.map_values(|d: Dataset| d@) =~= before.map_values(|d: Dataset| d@).push(d@));
            assert(r@.map_values(|d: Dataset| d@) =~= self.gathered().take(i + 1));
            i = i + 1;
        }
        assert(self.gathered().take(i as int) =~= self.gathered());
        r
    }
}

/// The views of a list of datasets.
pub open spec fn views(v: Seq<Dataset>) -> Seq<DatasetView> {
    v.map_values(|d: Dataset| d@)
}

/// The identifiers of the list sort strictly ascending.
pub open spec fn strictly_sorted(v: Seq<DatasetView>) -> bool {
    forall|i: int, j: int| 0 <= i < j < v.len() ==> text_lt(v[i].id, v[j].id)
}

/// Whether one of the strings has the given text.
fn contains_text(v: &Vec<String>, s: &str) -> (r: bool)
    ensures
        r == string_texts(v@).contains(s@),
{
    let mut i: usize = 0;
    while i < v.len()
        invariant
            i <= v@.len(),
            forall|j: int| 0 <= j < i ==> string_texts(v@)[j] != s@,
        decreases v@.len() - i,
    {
        if str_eq(v[i].as_str(), s) {
            assert(string_texts(v@)[i as int] == s@);
            return true;
        }
        i = i + 1;
    }
    false
}

/// Every dataset of `v` is one of the first `i` datasets of the scan and its
/// identifier was not known before the scan.
pub open spec fn drawn_from(g: Seq<DatasetView>, known: Seq<Seq<char>>, i: int, v: Seq<DatasetView>) -> bool {
    forall|k: int|
        0 <= k < v.len() ==> (exists|j: int| 0 <= j < i && g[j] == #[trigger] v[k]) && !known.contains(
            v[k].id,
        )
}

/// Every one of the first `i` datasets of the scan whose identifier was not
/// known before the scan has its identifier in `v`.
pub open spec fn covers(g: Seq<DatasetView>, known: Seq<Seq<char>>, i: int, v: Seq<DatasetView>) -> bool {
    forall|j: int|
        0 <= j < i && !known.contains(g[j].id) ==> exists|k: int|
            0 <= k < v.len() && (#[trigger] v[k]).id == g[j].id
}

proof fn lemma_cover_lists_new(g: Seq<DatasetView>, known: Seq<Seq<char>>, v: Seq<DatasetView>)
    requires
        drawn_from(g, known, g.len() as int, v),
        covers(g, known, g.len() as int, v),
        strictly_sorted(v),
    ensures
        lists_new_datasets(g, known, v),
{
    assert forall|k: int| 0 <= k < v.len() implies g.contains(#[trigger] v[k]) && !known.contains(
        v[k].id,
    ) by {
        let j = choose|j: int| 0 <= j < g.len() && g[j] == #[trigger] v[k];
    }
    assert forall|d: DatasetView| g.contains(d) && !known.contains(d.id) implies exists|k: int|
        0 <= k < v.len() && (#[trigger] v[k]).id == d.id by {
        let j = choose|j: int| 0 <= j < g.len() && g[j] == d;
        assert(!known.contains(g[j].id));
    }
}

proof fn lemma_insert_keeps_cover(
    g: Seq<DatasetView>,
    known: Seq<Seq<char>>,
    i: int,
    before: Seq<DatasetView>,
    after: Seq<DatasetView>,
    p: int,
)
    requires
        0 <= i < g.len(),
        drawn_from(g, known, i, before),
        covers(g, known, i, before),
        !known.contains(g[i].id),
        0 <= p <= before.len(),
        after == before.insert(p, g[i]),
    ensures
        drawn_from(g, known, i + 1, after),
        covers(g, known, i + 1, after),
{
    assert forall|k: int| 0 <= k < after.len() implies (exists|j: int|
        0 <= j < i + 1 && g[j] == #[trigger] after[k]) && !known.contains(after[k].id) by {
        if k < p {
            assert(after[k] == before[k]);
        } else if k == p {
            assert(after[k] == g[i]);
        } else {
            assert(after[k] == before[k - 1]);
        }
    }
    assert forall|j: int|
        0 <= j < i + 1 && !known.contains(g[j].id) implies exists|k: int|
            0 <= k < after.len() && (#[trigger] after[k]).id == g[j].id by {
        if j == i {
            assert(after[p].id == g[j].id);
        } else {
            let k = choose|k: int| 0 <= k < before.len() && (#[trigger] before[k]).id == g[j].id;
            if k < p {
                assert(after[k].id == g[j].id);
            } else {
                assert(after[k + 1].id == g[j].id);
            }
        }
    }
}

proof fn lemma_skip_keeps_cover(g: Seq<DatasetView>, known: Seq<Seq<char>>, i: int, v: Seq<DatasetView>)
    requires
        0 <= i < g.len(),
        drawn_from(g, known, i, v),
        covers(g, known, i, v),
        known.contains(g[i].id),
    ensures
        drawn_from(g, known, i + 1, v),
        covers(g, known, i + 1, v),
{
    assert forall|k: int| 0 <= k < v.len() implies (exists|j: int|
        0 <= j < i + 1 && g[j] == #[trigger] v[k]) && !known.contains(v[k].id) by {
        let j = choose|j: int| 0 <= j < i && g[j] == #[trigger] v[k];
    }
}

/// Keys each dataset with the record key of the microsecond after
/// `first_micros`, counting up.
fn keyed(sorted: &Vec<Dataset>, first_micros: u64) -> (out: Vec<Announcement>)
    requires
        first_micros + sorted@.len() <= u64::MAX,
    ensures
        announced_views(out@) == views(sorted@),
        forall|m: int|
            0 <= m < out@.len() ==> (#[trigger] out@[m]).rkey@ == tid_text(
                (first_micros + 1 + m) as u64,
            ),
{
    let ghost final_sorted = views(sorted@);
    let mut out: Vec<Announcement> = Vec::new();
    let mut k: usize = 0;
    while k < sorted.len()
        invariant
            final_sorted == views(sorted@),
            k <= sorted@.len(),
            first_micros + sorted@.len() <= u64::MAX,
            announced_views(out@) == final_sorted.take(k as int),
            forall|m: int|
                0 <= m < out@.len() ==> (#[trigger] out@[m]).rkey@ == tid_text(
                    (first_micros + 1 + m) as u64,
                ),
        decreases sorted@.len() - k,
    {
        let ghost before = out@;
        let a = Announcement {
            dataset: sorted[k].duplicate(),
            rkey: tid(first_micros + 1 + k as u64),
        };
        out.push(a);
        assert(out@ == before.push(a));
        assert(announced_views(out@) =~= announced_views(before).push(a.dataset@));
        assert(a.dataset@ == final_sorted[k as int]);
        assert(announced_views(out@) =~= final_sorted.take(k + 1)) by {
            assert(announced_views(before) == final_sorted.take(k as int));
        }
        k = k + 1;
    }
    assert(final_sorted.take(k as int) =~= final_sorted);
    out
}

/// Inserts a dataset into an id-sorted list that does not hold its id.
fn insert_sorted(sorted: &mut Vec<Dataset>, d: Dataset)
    requires
        strictly_sorted(views(old(sorted)@)),
        !ids_of(views(old(sorted)@)).contains(d@.id),
    ensures
        strictly_sorted(views(final(sorted)@)),
        exists|p: int|
            0 <= p <= old(sorted)@.len() && views(final(sorted)@) == views(old(sorted)@).insert(
                p,
                d@,
            ),
{
    let ghost old_v = views(sorted@);
    let key = chars_of(d.id.as_str());
    let mut p: usize = 0;
    while p < sorted.len()
        invariant
            old_v == views(sorted@),
            key@ == d@.id,
            p <= sorted@.len(),
            forall|q: int| 0 <= q < p ==> text_lt(old_v[q].id, d@.id),
            strictly_sorted(old_v),
            !ids_of(old_v).contains(d@.id),
        ensures
            p <= sorted@.len(),
            forall|q: int| 0 <= q < p ==> text_lt(old_v[q].id, d@.id),
            p < sorted@.len() ==> text_lt(d@.id, old_v[p as int].id),
        decreases sorted@.len() - p,
    {
        let other = chars_of(sorted[p].id.as_str());
        if text_less(key.as_slice(), other.as_slice()) {
            break;
        }
        proof {
            assert(ids_of(old_v)[p as int] == old_v[p as int].id);
            lemma_text_lt_total(d@.id, old_v[p as int].id);
        }
        p = p + 1;
    }
    proof {
        if p < old_v.len() {
            assert forall|q: int| p < q < old_v.len() implies text_lt(d@.id, old_v[q].id) by {
                lemma_text_lt_transitive(d@.id, old_v[p as int].id, old_v[q].id);
            }
        }
    }
    let ghost dv = d@;
    sorted.insert(p, d);
    let ghost new_v = old_v.insert(p as int, dv);
    assert(views(sorted@) =~= new_v);
    assert forall|i: int, j: int| 0 <= i < j < new_v.len() implies text_lt(new_v[i].id, new_v[j].id) by {
        if j < p {
        } else if j == p {
        } else if i < p {
            lemma_text_lt_transitive(old_v[i].id, dv.id, old_v[j - 1].id);
        } else if i == p {
        } else {
        }
    }
}

/// Whether one of the datasets carries the identifier.
fn has_id(ds: &Vec<Dataset>, id: &str) -> (r: bool)
    ensures
        r == ids_of(ds@.map_values(|d: Dataset| d@)).contains(id@),
{
    let ghost view = ds@.map_values(|d: Dataset| d@);
    let mut i: usize = 0;
    while i < ds.len()
        invariant
            view == ds@.map_values(|d: Dataset| d@),
            i <= ds@.len(),
            forall|j: int| 0 <= j < i ==> view[j].id != id@,
        decreases ds@.len() - i,
    {
        if str_eq(ds[i].id.as_str(), id) {
            assert(ids_of(view)[i as int] == id@);
            return true;
        }
        i = i + 1;
    }
    assert forall|k: int| 0 <= k < ids_of(view).len() implies ids_of(view)[k] != id@ by {
        assert(view[k].id != id@);
    }
    false
}

} // verus!

verus! {

/// Identifiers known before a scan are never announced by it: a dataset that
/// disappears from the catalog and reappears under the same identifier is not
/// announced again.
pub proof fn lemma_known_ids_not_announced(
    gathered: Seq<DatasetView>,
    seen: Seq<Seq<char>>,
    out: Seq<DatasetView>,
    id: Seq<char>,
)
    requires
        lists_new_datasets(gathered, seen, out),
        seen.contains(id),
    ensures
        !ids_of(out).contains(id),
{
    if ids_of(out).contains(id) {
        let k = choose|k: int| 0 <= k < ids_of(out).len() && ids_of(out)[k] == id;
        assert(out[k].id == id);
        assert(!seen.contains(out[k].id));
    }
}

/// Over two scans, where the identifiers of the first are known before the
/// second, no identifier is announced twice.
pub proof fn lemma_announced_at_most_once(
    first: Seq<DatasetView>,
    seen1: Seq<Seq<char>>,
    out1: Seq<DatasetView>,
    second: Seq<DatasetView>,
    seen2: Seq<Seq<char>>,
    out2: Seq<DatasetView>,
)
    requires
        lists_new_datasets(first, seen1, out1),
        lists_new_datasets(second, seen2, out2),
        forall|id: Seq<char>| ids_of(first).contains(id) ==> seen2.contains(id),
    ensures
        forall|i: int, j: int|
            0 <= i < out1.len() && 0 <= j < out2.len() ==> out1[i].id != out2[j].id,
{
    assert forall|i: int, j: int| 0 <= i < out1.len() && 0 <= j < out2.len() implies out1[i].id
        != out2[j].id by {
        assert(first.contains(out1[i]));
        let m = choose|m: int| 0 <= m < first.len() && first[m] == out1[i];
        assert(ids_of(first)[m] == out1[i].id);
        assert(seen2.contains(out1[i].id));
        assert(!seen2.contains(out2[j].id));
    }
}

/// A scan announces each dataset at most once, and the record keys of one
/// scan's announcements are all different.
pub proof fn lemma_one_scan_distinct(out: Seq<DatasetView>, first_micros: u64)
    requires
        forall|i: int, j: int| 0 <= i < j < out.len() ==> text_lt(out[i].id, out[j].id),
        first_micros + out.len() < 0x40_0000_0000_0000,
    ensures
        forall|i: int, j: int| 0 <= i < j < out.len() ==> out[i].id != out[j].id,
        forall|a: u64, b: u64|
            first_micros < a < b <= first_micros + out.len() ==> #[trigger] tid_text(a)
                != #[trigger] tid_text(b),
{
    assert forall|i: int, j: int| 0 <= i < j < out.len() implies out[i].id != out[j].id by {
        lemma_text_lt_irreflexive(out[i].id);
    }
    assert forall|a: u64, b: u64| first_micros < a < b <= first_micros + out.len() implies #[trigger] tid_text(a)
        != #[trigger] tid_text(b) by {
        if tid_text(a) == tid_text(b) {
            lemma_tid_injective(a, b);
        }
    }
}

proof fn lemma_unseen_covers(ids: Seq<Seq<char>>, seen: Seq<Seq<char>>, k: int)
    requires
        0 <= k < ids.len(),
    ensures
        (seen + unseen(ids, seen)).contains(ids[k]),
    decreases ids.len(),
{
    let init = ids.drop_last();
    if k < ids.len() - 1 {
        lemma_unseen_covers(init, seen, k);
        assert(init[k] == ids[k]);
        let j = choose|j: int| 0 <= j < (seen + unseen(init, seen)).len() && (seen + unseen(init, seen))[j] == ids[k];
        if !seen.contains(ids.last()) {
            assert((seen + unseen(ids, seen))[j] == (seen + unseen(init, seen))[j]);
        }
    } else if seen.contains(ids.last()) {
        let j = choose|j: int| 0 <= j < seen.len() && seen[j] == ids[k];
        assert((seen + unseen(ids, seen))[j] == seen[j]);
    } else {
        assert((seen + unseen(ids, seen))[(seen.len() + unseen(init, seen).len()) as int] == ids[k]);
    }
}

/// What a committed scan does to the stored history: the known identifiers
/// become `seen` followed by the scan's unseen identifiers, and the outbox
/// becomes `outbox` followed by the scan's announcements `queued`. Then every
/// identifier known before stays known, every queued row stays as it was,
/// every identifier of the scan is known afterwards, and no identifier known
/// before is announced. Applied scan after scan, an identifier once known
/// (whether or not later scans list it) is never announced again and never
/// forgotten.
pub proof fn lemma_commit_keeps_history<A>(
    seen: Seq<Seq<char>>,
    gathered: Seq<DatasetView>,
    out: Seq<DatasetView>,
    outbox: Seq<A>,
    queued: Seq<A>,
)
    requires
        lists_new_datasets(gathered, seen, out),
    ensures
        forall|x: Seq<char>| seen.contains(x) ==> (seen + unseen(ids_of(gathered), seen)).contains(x)
            && !ids_of(out).contains(x),
        forall|k: int| 0 <= k < gathered.len() ==> (seen + unseen(ids_of(gathered), seen)).contains(
            #[trigger] gathered[k].id,
        ),
        forall|i: int| 0 <= i < outbox.len() ==> (outbox + queued)[i] == outbox[i],
{
    let after = seen + unseen(ids_of(gathered), seen);
    assert forall|x: Seq<char>| seen.contains(x) implies after.contains(x) && !ids_of(out).contains(x) by {
        let j = choose|j: int| 0 <= j < seen.len() && seen[j] == x;
        assert(after[j] == seen[j]);
        lemma_known_ids_not_announced(gathered, seen, out, x);
    }
    assert forall|k: int| 0 <= k < gathered.len() implies after.contains(#[trigger] gathered[k].id) by {
        assert(ids_of(gathered)[k] == gathered[k].id);
        lemma_unseen_covers(ids_of(gathered), seen, k);
    }
}

} // verus!

//! Which database backups are kept: the seven newest, by file name.

use vstd::prelude::*;
use crate::order::{lemma_text_lt_transitive, text_less, text_lt};
use crate::text::{chars_of, ends_with, has_prefix, has_suffix, starts_with, string_texts};

verus! {

/// How many backups are kept.
pub const KEPT_BACKUPS: usize = 7;

/// The file name of a database backup: `catalog-backup-…sqlite`.
pub open spec fn is_backup_name(name: Seq<char>) -> bool {
    starts_with(name, "catalog-backup-"@) && ends_with(name, ".sqlite"@)
}

/// An entry of the backup directory.
pub struct FileEntry {
    pub name: String,
    pub is_file: bool,
}

/// The names of the regular files among the entries that are backups, in
/// directory order.
pub open spec fn backup_files(es: Seq<FileEntry>) -> Seq<Seq<char>>
    decreases es.len(),
{
    if es.len() == 0 {
        Seq::empty()
    } else {
        let before = backup_files(es.drop_last());
        if es.last().is_file && is_backup_name(es.last().name@) {
            before.push(es.last().name@)
        } else {
            before
        }
    }
}

/// The names sort in ascending order (equal names allowed).
pub open spec fn ascending(v: Seq<Seq<char>>) -> bool {
    forall|i: int, j: int| 0 <= i < j < v.len() ==> !text_lt(v[j], v[i])
}

/// Whether a file name is that of a backup.
pub fn backup_name(name: &str) -> (r: bool)
    ensures
        r == is_backup_name(name@),
{
    let cs = chars_of(name);
    let prefix = chars_of("catalog-backup-");
    let suffix = chars_of(".sqlite");
    has_prefix(cs.as_slice(), prefix.as_slice()) && has_suffix(cs.as_slice(), suffix.as_slice())
}

fn insert_ascending(v: &mut Vec<String>, x: String)
    requires
        ascending(string_texts(old(v)@)),
    ensures
        ascending(string_texts(final(v)@)),
        string_texts(final(v)@).to_multiset() == string_texts(old(v)@).to_multiset().insert(x@),
{
    let ghost old_v = string_texts(v@);
    let key = chars_of(x.as_str());
    let mut p: usize = 0;
    while p < v.len()
        invariant
            old_v == string_texts(v@),
            ascending(old_v),
            key@ == x@,
            p <= v@.len(),
            forall|q: int| 0 <= q < p ==> !text_lt(x@, old_v[q]),
        ensures
            p <= v@.len(),
            forall|q: int| 0 <= q < p ==> !text_lt(x@, old_v[q]),
            p < v@.len() ==> text_lt(x@, old_v[p as int]),
        decreases v@.len() - p,
    {
        let other = chars_of(v[p].as_str());
        assert(old_v[p as int] == v@[p as int]@);
        if text_less(key.as_slice(), other.as_slice()) {
            break;
        }
        p = p + 1;
    }
    let ghost xv = x@;
    v.insert(p, x);
    let ghost new_v = old_v.insert(p as int, xv);
    assert(string_texts(v@) =~= new_v);
    assert forall|i: int, j: int| 0 <= i < j < new_v.len() implies !text_lt(new_v[j], new_v[i]) by {
        if i < p && j == p {
            assert(new_v[i] == old_v[i] && new_v[j] == xv);
        } else if i == p && j > p {
            assert(new_v[i] == xv && new_v[j] == old_v[j - 1]);
            if text_lt(old_v[j - 1], xv) {
                lemma_text_lt_transitive(old_v[j - 1], xv, old_v[p as int]);
                crate::order::lemma_text_lt_irreflexive(old_v[p as int]);
            }
        } else if i < p && j > p {
            assert(new_v[i] == old_v[i] && new_v[j] == old_v[j - 1]);
        } else if j < p {
            assert(new_v[i] == old_v[i] && new_v[j] == old_v[j]);
        } else {
            assert(new_v[i] == old_v[i - 1] && new_v[j] == old_v[j - 1]);
        }
    }
    proof {
        vstd::seq_lib::to_multiset_insert(old_v, p as int, xv);
    }
}

/// The backups to delete so that the seven newest remain: the names of all
/// backup files, sorted, but the last seven.
pub fn stale_backups(entries: &Vec<FileEntry>) -> (r: Vec<String>)
    ensures
        exists|sorted: Seq<Seq<char>>|
            #![trigger sorted.to_multiset()]
            sorted.to_multiset() == backup_files(entries@).to_multiset() && ascending(sorted)
                && string_texts(r@) == sorted.take(
                if sorted.len() > 7 {
                    sorted.len() - 7
                } else {
                    0
                },
            ),
{
    let mut sorted: Vec<String> = Vec::new();
    let mut i: usize = 0;
    assert(entries@.take(0) =~= Seq::<FileEntry>::empty());
    assert(string_texts(sorted@) =~= backup_files(entries@.take(0)));
    while i < entries.len()
        invariant
            i <= entries@.len(),
            ascending(string_texts(sorted@)),
            string_texts(sorted@).to_multiset() == backup_files(entries@.take(i as int)).to_multiset(),
        decreases entries@.len() - i,
    {
        assert(entries@.take(i + 1).drop_last() =~= entries@.take(i as int));
        assert(entries@.take(i + 1).last() == entries@[i as int]);
        let e = &entries[i];
        if e.is_file && backup_name(e.name.as_str()) {
            insert_ascending(&mut sorted, e.name.clone());
            proof {
                vstd::seq_lib::to_multiset_build(backup_files(entries@.take(i as int)), e.name@);
            }
        }
        i = i + 1;
    }
    assert(entries@.take(i as int) =~= entries@);
    let n = sorted.len();
    let cut = if n > KEPT_BACKUPS {
        n - KEPT_BACKUPS
    } else {
        0
    };
    let mut out: Vec<String> = Vec::new();
    let mut k: usize = 0;
    while k < cut
        invariant
            cut <= sorted@.len(),
            k <= cut,
            string_texts(out@) == string_texts(sorted@).take(k as int),
        decreases cut - k,
    {
        let ghost before = out@;
        let name = sorted[k].clone();
        out.push(name);
        assert(string_texts(out@) =~= string_texts(before).push(sorted@[k as int]@));
        assert(string_texts(out@) =~= string_texts(sorted@).take(k + 1));
        k = k + 1;
    }
    assert(string_texts(out@) == string_texts(sorted@).take(cut as int));
    out
}

} // verus!

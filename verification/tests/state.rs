use chicago_data_bot::catalog::{Classification, Entry, Field, Metadata, Owner, Page, Resource};
use chicago_data_bot::error::BotError;
use chicago_data_bot::state::{tid, Announcement, Scan};

fn entry(id: &str) -> Entry {
    Entry {
        resource: Resource {
            id: id.to_string(),
            name: "Accessory Dwelling Units".into(),
            description: None,
            created_at: "2026-05-13T15:42:14Z".into(),
            kind: "dataset".into(),
            provenance: "official".into(),
        },
        classification: Classification {
            domain_category: Some("Buildings".into()),
            domain_metadata: vec![Field {
                key: "Metadata_Data-Owner".into(),
                value: "Department of Housing".into(),
            }],
        },
        owner: Some(Owner { display_name: Some("Maria Fiorillo".into()) }),
        metadata: Metadata { domain: "data.cityofchicago.org".into() },
    }
}

fn page(ids: &[&str]) -> Page {
    Page { results: ids.iter().map(|id| entry(id)).collect(), total: ids.len(), warnings: vec![] }
}

/// The durable state the bot keeps between runs, held in memory.
#[derive(Default)]
struct Store {
    baseline: bool,
    seen: Vec<String>,
    outbox: Vec<Announcement>,
    micros: u64,
}

impl Store {
    /// Runs one scan over the pages that `fetch` returns; only a complete scan
    /// changes the store.
    fn scan_with(
        &mut self,
        baseline: bool,
        mut fetch: impl FnMut(usize) -> Result<Page, String>,
    ) -> Result<usize, String> {
        let mut scan = Scan::start(baseline, self.baseline).map_err(|e| format!("{e:?}"))?;
        loop {
            let p = fetch(scan.offset())?;
            scan = scan.add_page(p).map_err(|e| format!("{e:?}"))?;
            if scan.is_complete() {
                break;
            }
        }
        let found = scan.announcements(&self.seen, self.micros);
        let added = found.len();
        self.micros += added as u64 + 1;
        let fresh = scan.unseen_ids(&self.seen);
        self.seen.extend(fresh);
        self.outbox.extend(found);
        if baseline {
            self.baseline = true;
        }
        Ok(added)
    }

    fn next(&self) -> Option<&Announcement> {
        self.outbox.first()
    }
}

#[test]
fn baseline_new_ids_and_reappearance() {
    let mut db = Store::default();
    assert!(db.scan_with(false, |_| Ok(page(&["aaaa-bbbb"]))).is_err());
    assert_eq!(db.scan_with(true, |_| Ok(page(&["aaaa-bbbb"]))).unwrap(), 0);
    assert!(db.next().is_none());
    assert!(db.scan_with(true, |_| Ok(page(&["aaaa-bbbb"]))).is_err());
    assert_eq!(db.scan_with(false, |_| Ok(page(&["aaaa-bbbb", "j4h8-ug9m"]))).unwrap(), 1);
    let key = db.next().unwrap().rkey.clone();
    assert_eq!(db.scan_with(false, |_| Ok(page(&["aaaa-bbbb"]))).unwrap(), 0);
    assert_eq!(db.scan_with(false, |_| Ok(page(&["aaaa-bbbb", "j4h8-ug9m"]))).unwrap(), 0);
    assert_eq!(db.next().unwrap().rkey, key);
}

#[test]
fn partial_scan_does_not_advance_baseline_or_queue() {
    let mut db = Store::default();
    let failed = db.scan_with(true, |offset| {
        if offset == 0 {
            let mut p = page(&["aaaa-bbbb"]);
            p.total = 2;
            Ok(p)
        } else {
            Err("network unavailable".into())
        }
    });
    assert!(failed.is_err());
    assert!(!db.baseline);
    assert_eq!(db.seen.len(), 0);
    db.scan_with(true, |_| Ok(page(&["aaaa-bbbb"]))).unwrap();
    assert!(db.scan_with(false, |_| Ok(page(&["j4h8-ug9m", "j4h8-ug9m"]))).is_err());
    assert!(db.next().is_none());
    assert_eq!(db.scan_with(false, |_| Ok(page(&["aaaa-bbbb", "j4h8-ug9m"]))).unwrap(), 1);
}

#[test]
fn record_keys_are_base32_timestamps() {
    assert_eq!(tid(0), "2222222222222");
    assert_eq!(tid(1), "2222222222322");
    assert_eq!(tid(1_700_000_000_000_000), "3ke6kg3wk2222");
    assert!(tid(1_700_000_000_000_000) < tid(1_700_000_000_000_001));
    assert_eq!(tid(1).len(), 13);
}

#[test]
fn announcements_are_new_ids_in_id_order_with_distinct_keys() {
    let scan = Scan::start(false, true).ok().unwrap();
    let scan = scan.add_page(page(&["zzzz-0000", "aaaa-bbbb", "mmmm-1111"])).ok().unwrap();
    assert!(scan.is_complete());
    let found = scan.announcements(&vec!["aaaa-bbbb".to_string()], 1_000);
    let ids: Vec<&str> = found.iter().map(|a| a.dataset.id.as_str()).collect();
    assert_eq!(ids, ["mmmm-1111", "zzzz-0000"]);
    assert_eq!(found[0].rkey, tid(1_001));
    assert_eq!(found[1].rkey, tid(1_002));
    assert_ne!(found[0].rkey, found[1].rkey);
}

#[test]
fn a_baseline_scan_announces_nothing() {
    let scan = Scan::start(true, false).ok().unwrap();
    let scan = scan.add_page(page(&["aaaa-bbbb"])).ok().unwrap();
    assert!(scan.announcements(&vec![], 5).is_empty());
}

#[test]
fn a_renamed_copy_with_a_new_id_is_announced() {
    let scan = Scan::start(false, true).ok().unwrap();
    let scan = scan.add_page(page(&["aaaa-bbbb", "cccc-dddd"])).ok().unwrap();
    let found = scan.announcements(&vec!["aaaa-bbbb".to_string()], 0);
    assert_eq!(found.len(), 1);
    assert_eq!(found[0].dataset.id, "cccc-dddd");
    assert_eq!(found[0].dataset.name, "Accessory Dwelling Units");
}

#[test]
fn suspicious_pages_are_refused() {
    let start = || Scan::start(false, true).ok().unwrap();
    let mut p = page(&["aaaa-bbbb"]);
    p.total = 0;
    assert_eq!(start().add_page(p).err(), Some(BotError::UnexpectedCatalogSize));
    let mut p = page(&["aaaa-bbbb"]);
    p.total = 100_001;
    assert_eq!(start().add_page(p).err(), Some(BotError::UnexpectedCatalogSize));
    let mut p = page(&[]);
    p.total = 3;
    assert_eq!(start().add_page(p).err(), Some(BotError::CatalogEndedEarly));
    let mut p = page(&["aaaa-bbbb", "cccc-dddd"]);
    p.total = 1;
    assert_eq!(start().add_page(p).err(), Some(BotError::PaginationMismatch));
    let mut p = page(&["aaaa-bbbb"]);
    p.total = 3;
    let s = start().add_page(p).ok().unwrap();
    assert!(!s.is_complete());
    let mut q = page(&["cccc-dddd"]);
    q.total = 4;
    assert_eq!(s.add_page(q).err(), Some(BotError::CatalogChanged));
    let mut p = page(&["aaaa-bbbb", "bad"]);
    p.total = 2;
    assert_eq!(start().add_page(p).err(), Some(BotError::InvalidDatasetId));
    assert_eq!(Scan::start(true, true).err(), Some(BotError::BaselineExists));
    assert_eq!(Scan::start(false, false).err(), Some(BotError::NotInitialized));
}

#[test]
fn a_scan_adds_only_unknown_ids_to_the_history() {
    let scan = Scan::start(false, true).ok().unwrap();
    let scan = scan.add_page(page(&["zzzz-0000", "aaaa-bbbb", "mmmm-1111"])).ok().unwrap();
    let seen = vec!["aaaa-bbbb".to_string(), "gone-0000".to_string()];
    assert_eq!(scan.unseen_ids(&seen), vec!["zzzz-0000".to_string(), "mmmm-1111".to_string()]);
    let keys: Vec<String> = (0..5).map(|m| tid(1_000 + m)).collect();
    assert!(keys.windows(2).all(|w| w[0] < w[1]));
    assert!(keys.iter().all(|k| k.ends_with("22") && k.len() == 13));
}

use chicago_data_bot::catalog::{
    check_page_size, check_warnings, page_query, single_entry, valid_id, Classification, Dataset,
    Entry, Field, Metadata, Owner, Page, Resource,
};
use chicago_data_bot::error::BotError;

fn entry(id: &str) -> Entry {
    Entry {
        resource: Resource {
            id: id.to_string(),
            name: "Accessory Dwelling Units (ADU) Permits".into(),
            description: Some("Permits for ADUs.".into()),
            created_at: "2026-05-13T15:42:14Z".into(),
            kind: "dataset".into(),
            provenance: "official".into(),
        },
        classification: Classification {
            domain_category: Some("Buildings".into()),
            domain_metadata: vec![
                Field { key: "Other".into(), value: "x".into() },
                Field { key: "Metadata_Data-Owner".into(), value: "Department of Housing".into() },
                Field { key: "Metadata_Data-Owner".into(), value: "Second".into() },
            ],
        },
        owner: Some(Owner { display_name: Some("Maria Fiorillo".into()) }),
        metadata: Metadata { domain: "data.cityofchicago.org".into() },
    }
}

#[test]
fn identifiers_are_four_and_four_lowercase_characters() {
    assert!(valid_id("j4h8-ug9m"));
    assert!(valid_id("xbwc-ntpx"));
    assert!(!valid_id("J4H8-UG9M"));
    assert!(!valid_id("j4h8ug9m"));
    assert!(!valid_id("j4h8-ug9mm"));
    assert!(!valid_id("j4h8_ug9m"));
    assert!(!valid_id("j4h8-ug9é"));
    assert!(!valid_id(""));
}

#[test]
fn entry_becomes_dataset_with_owner_fields() {
    let d = entry("j4h8-ug9m").dataset().unwrap();
    assert_eq!(d.id, "j4h8-ug9m");
    assert_eq!(d.data_owner, "Department of Housing");
    assert_eq!(d.dataset_owner, "Maria Fiorillo");
    assert_eq!(d.category, "Buildings");
    assert_eq!(d.description, "Permits for ADUs.");
    assert_eq!(d.url(), "https://data.cityofchicago.org/d/j4h8-ug9m");
    assert_eq!(d.date().unwrap(), "May 13, 2026");
}

#[test]
fn missing_metadata_is_labelled_not_provided() {
    let mut e = entry("j4h8-ug9m");
    e.resource.description = Some(" \n\t ".into());
    e.classification.domain_category = None;
    e.classification.domain_metadata = vec![];
    e.owner = Some(Owner { display_name: None });
    let d = e.dataset().unwrap();
    assert_eq!(d.description, "No description provided.");
    assert_eq!(d.category, "Not provided");
    assert_eq!(d.data_owner, "Not provided");
    assert_eq!(d.dataset_owner, "Not provided");
    let mut e = entry("j4h8-ug9m");
    e.owner = None;
    e.resource.description = None;
    let d = e.dataset().unwrap();
    assert_eq!(d.dataset_owner, "Not provided");
    assert_eq!(d.description, "No description provided.");
}

#[test]
fn entries_outside_scope_or_with_bad_ids_are_refused() {
    let mut e = entry("j4h8-ug9m");
    e.resource.kind = "map".into();
    assert_eq!(e.dataset().err(), Some(BotError::UnexpectedScope));
    let mut e = entry("j4h8-ug9m");
    e.resource.provenance = "community".into();
    assert_eq!(e.dataset().err(), Some(BotError::UnexpectedScope));
    let mut e = entry("j4h8-ug9m");
    e.metadata.domain = "data.example.org".into();
    assert_eq!(e.dataset().err(), Some(BotError::UnexpectedScope));
    assert_eq!(entry("bad").dataset().err(), Some(BotError::InvalidDatasetId));
}

#[test]
fn dates_are_shown_in_chicago_time() {
    let mut d: Dataset = entry("j4h8-ug9m").dataset().unwrap();
    d.created_at = "2026-01-01T03:00:00Z".into();
    assert_eq!(d.date().unwrap(), "December 31, 2025");
    d.created_at = "2026-07-04T12:00:00-05:00".into();
    assert_eq!(d.date().unwrap(), "July 4, 2026");
    d.created_at = "yesterday".into();
    assert_eq!(d.date(), Err(BotError::InvalidTimestamp));
}

#[test]
fn page_queries_ask_for_official_datasets_by_name() {
    let q = page_query(200, None).unwrap();
    let expected: Vec<(String, String)> = [
        ("domains", "data.cityofchicago.org"),
        ("only", "dataset"),
        ("provenance", "official"),
        ("limit", "100"),
        ("offset", "200"),
        ("order", "name"),
    ]
    .iter()
    .map(|(k, v)| (k.to_string(), v.to_string()))
    .collect();
    assert_eq!(q, expected);
    let q = page_query(0, Some("j4h8-ug9m")).unwrap();
    assert_eq!(q[4], ("offset".to_string(), "0".to_string()));
    assert_eq!(q[6], ("ids".to_string(), "j4h8-ug9m".to_string()));
    assert_eq!(page_query(0, Some("nope")).err(), Some(BotError::ExpectedSocrataId));
}

#[test]
fn pages_are_limited_and_must_be_clean() {
    assert_eq!(check_page_size(8_000_000), Ok(()));
    assert_eq!(check_page_size(8_000_001), Err(BotError::PageTooLarge));
    let page = Page { results: vec![entry("j4h8-ug9m")], total: 1, warnings: vec![] };
    let page = check_warnings(page).ok().unwrap();
    assert!(single_entry(page).is_ok());
    let page = Page { results: vec![], total: 0, warnings: vec!["slow".into()] };
    assert_eq!(check_warnings(page).err(), Some(BotError::CatalogWarnings));
    let page = Page { results: vec![], total: 0, warnings: vec![] };
    assert_eq!(single_entry(page).err(), Some(BotError::DatasetNotFound));
}

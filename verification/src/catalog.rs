//! Catalog records as the Socrata discovery API returns them, and the frozen
//! announcement payload derived from one.

use vstd::prelude::*;
use crate::error::BotError;
use crate::text::{blank, is_blank, owned, str_eq};
use vstd::utf8::encode_utf8;
use vstd::string::StringExecFns;
use crate::clock::{chicago_date, chicago_date_of, long_date, long_date_text};
use vstd::string::StringSliceAdditionalSpecFns;

verus! {

/// The catalog's domain.
pub const DOMAIN: &'static str = "data.cityofchicago.org";

/// The value a missing optional metadata field is shown as.
pub open spec fn not_provided() -> Seq<char> {
    "Not provided"@
}

/// The description shown when a dataset has none.
pub open spec fn no_description() -> Seq<char> {
    "No description provided."@
}

/// The key of the data owner among the domain metadata fields.
pub open spec fn data_owner_key() -> Seq<char> {
    "Metadata_Data-Owner"@
}

/// `metadata` of a catalog entry.
pub struct Metadata {
    pub domain: String,
}

/// `resource` of a catalog entry.
pub struct Resource {
    pub id: String,
    pub name: String,
    pub description: Option<String>,
    pub created_at: String,
    pub kind: String,
    pub provenance: String,
}

/// `classification` of a catalog entry.
pub struct Classification {
    pub domain_category: Option<String>,
    pub domain_metadata: Vec<Field>,
}

/// One key/value pair of domain metadata.
pub struct Field {
    pub key: String,
    pub value: String,
}

/// `owner` of a catalog entry.
pub struct Owner {
    pub display_name: Option<String>,
}

/// One result of a catalog page.
pub struct Entry {
    pub resource: Resource,
    pub classification: Classification,
    pub owner: Option<Owner>,
    pub metadata: Metadata,
}

/// One page of catalog results; `warnings` holds each warning as text.
pub struct Page {
    pub results: Vec<Entry>,
    pub total: usize,
    pub warnings: Vec<String>,
}

/// The frozen announcement payload of one dataset.
#[derive(Clone, Debug)]
pub struct Dataset {
    pub id: String,
    pub name: String,
    pub description: String,
    pub created_at: String,
    pub category: String,
    pub data_owner: String,
    pub dataset_owner: String,
}

/// A dataset as plain text values.
pub struct DatasetView {
    pub id: Seq<char>,
    pub name: Seq<char>,
    pub description: Seq<char>,
    pub created_at: Seq<char>,
    pub category: Seq<char>,
    pub data_owner: Seq<char>,
    pub dataset_owner: Seq<char>,
}

impl View for Dataset {
    type V = DatasetView;

    open spec fn view(&self) -> DatasetView {
        DatasetView {
            id: self.id@,
            name: self.name@,
            description: self.description@,
            created_at: self.created_at@,
            category: self.category@,
            data_owner: self.data_owner@,
            dataset_owner: self.dataset_owner@,
        }
    }
}

/// The text of an optional string, or "Not provided".
pub open spec fn text_or_not_provided(o: Option<String>) -> Seq<char> {
    match o {
        Some(s) => s@,
        None => not_provided(),
    }
}

/// The value of the first field with the data owner key, if any.
pub open spec fn first_data_owner(fields: Seq<Field>) -> Option<Seq<char>>
    decreases fields.len(),
{
    if fields.len() == 0 {
        None
    } else if fields[0].key@ == data_owner_key() {
        Some(fields[0].value@)
    } else {
        first_data_owner(fields.drop_first())
    }
}

/// Whether an entry belongs to the scope the bot announces: an official
/// dataset of the city domain.
pub open spec fn in_scope(e: Entry) -> bool {
    &&& e.metadata.domain@ == DOMAIN@
    &&& e.resource.kind@ == "dataset"@
    &&& e.resource.provenance@ == "official"@
}

/// The identifier rule of the catalog, over the UTF-8 bytes: nine bytes,
/// a hyphen in the middle, lowercase ASCII letters or digits elsewhere.
pub open spec fn is_valid_id(b: Seq<u8>) -> bool {
    &&& b.len() == 9
    &&& b[4] == 0x2d
    &&& forall|i: int|
        0 <= i < 9 && i != 4 ==> {
            let c = #[trigger] b[i];
            (0x61 <= c <= 0x7a) || (0x30 <= c <= 0x39)
        }
}

/// Whether the text of an identifier passes the identifier rule.
pub open spec fn is_valid_id_text(s: Seq<char>) -> bool {
    is_valid_id(encode_utf8(s))
}

/// The announcement payload of an in-scope entry with a valid identifier.
pub open spec fn dataset_of(e: Entry) -> DatasetView {
    DatasetView {
        id: e.resource.id@,
        name: e.resource.name@,
        description: match e.resource.description {
            Some(s) => if is_blank(s@) {
                no_description()
            } else {
                s@
            },
            None => no_description(),
        },
        created_at: e.resource.created_at@,
        category: text_or_not_provided(e.classification.domain_category),
        data_owner: match first_data_owner(e.classification.domain_metadata@) {
            Some(v) => v,
            None => not_provided(),
        },
        dataset_owner: match e.owner {
            Some(o) => text_or_not_provided(o.display_name),
            None => not_provided(),
        },
    }
}

/// Checks a catalog identifier such as `j4h8-ug9m`.
pub fn valid_id(id: &str) -> (r: bool)
    ensures
        r == is_valid_id(id.spec_bytes()),
{
    let b = id.as_bytes();
    if b.len() != 9 || b[4] != 0x2d {
        return false;
    }
    let mut i: usize = 0;
    while i < 9
        invariant
            b@ == id.spec_bytes(),
            b@.len() == 9,
            b@[4] == 0x2d,
            i <= 9,
            forall|j: int|
                0 <= j < i && j != 4 ==> {
                    let c = #[trigger] b@[j];
                    (0x61 <= c <= 0x7a) || (0x30 <= c <= 0x39)
                },
        decreases 9 - i,
    {
        let c = b[i];
        if i != 4 && !((0x61 <= c && c <= 0x7a) || (0x30 <= c && c <= 0x39)) {
            return false;
        }
        i = i + 1;
    }
    true
}

fn not_provided_text() -> (s: String)
    ensures
        s@ == not_provided(),
{
    owned("Not provided")
}

impl Entry {
    /// Turns an in-scope entry into its announcement payload, filling in what
    /// is missing.
    pub fn dataset(self) -> (r: Result<Dataset, BotError>)
        ensures
            !in_scope(self) ==> r == Err::<Dataset, BotError>(BotError::UnexpectedScope),
            in_scope(self) && !is_valid_id_text(self.resource.id@) ==> r == Err::<
                Dataset,
                BotError,
            >(BotError::InvalidDatasetId),
            in_scope(self) && is_valid_id_text(self.resource.id@) ==> (r matches Ok(d) && d@
                == dataset_of(self)),
    {
        if !(str_eq(self.metadata.domain.as_str(), DOMAIN) && str_eq(
            self.resource.kind.as_str(),
            "dataset",
        ) && str_eq(self.resource.provenance.as_str(), "official")) {
            return Err(BotError::UnexpectedScope);
        }
        if !valid_id(self.resource.id.as_str()) {
            return Err(BotError::InvalidDatasetId);
        }
        let description = match self.resource.description {
            Some(s) => if blank(s.as_str()) {
                owned("No description provided.")
            } else {
                s
            },
            None => owned("No description provided."),
        };
        let category = match self.classification.domain_category {
            Some(c) => c,
            None => not_provided_text(),
        };
        let fields = self.classification.domain_metadata;
        let ghost all = fields@;
        let mut data_owner: Option<String> = None;
        let mut i: usize = 0;
        assert(all.skip(0) =~= all);
        while i < fields.len() && data_owner.is_none()
            invariant
                fields@ == all,
                i <= fields@.len(),
                data_owner is None ==> first_data_owner(all) == first_data_owner(
                    all.skip(i as int),
                ),
                data_owner matches Some(v) ==> first_data_owner(all) == Some(v@),
            decreases fields@.len() - i,
        {
            assert(all.skip(i as int).drop_first() =~= all.skip(i + 1));
            if str_eq(fields[i].key.as_str(), "Metadata_Data-Owner") {
                data_owner = Some(fields[i].value.clone());
            }
            i = i + 1;
        }
        assert(data_owner is None ==> all.skip(i as int).len() == 0);
        let data_owner = match data_owner {
            Some(v) => v,
            None => not_provided_text(),
        };
        let dataset_owner = match self.owner {
            Some(o) => match o.display_name {
                Some(n) => n,
                None => not_provided_text(),
            },
            None => not_provided_text(),
        };
        Ok(
            Dataset {
                id: self.resource.id,
                name: self.resource.name,
                description,
                created_at: self.resource.created_at,
                category,
                data_owner,
                dataset_owner,
            },
        )
    }
}

/// The canonical link of a dataset.
pub open spec fn dataset_url(id: Seq<char>) -> Seq<char> {
    "https://data.cityofchicago.org/d/"@ + id
}

/// The creation date of a dataset as shown in posts and cards: its calendar
/// date in America/Chicago, written like "May 13, 2026".
pub open spec fn display_date(created_at: Seq<char>) -> Option<Seq<char>> {
    match chicago_date_of(created_at) {
        Some((y, m, d)) => Some(long_date_text(y, m, d)),
        None => None,
    }
}

impl Dataset {
    /// A copy of the dataset.
    pub fn duplicate(&self) -> (r: Dataset)
        ensures
            r@ == self@,
    {
        Dataset {
            id: self.id.clone(),
            name: self.name.clone(),
            description: self.description.clone(),
            created_at: self.created_at.clone(),
            category: self.category.clone(),
            data_owner: self.data_owner.clone(),
            dataset_owner: self.dataset_owner.clone(),
        }
    }

    /// The canonical link of the dataset.
    pub fn url(&self) -> (r: String)
        ensures
            r@ == dataset_url(self.id@),
    {
        let mut s = owned("https://data.cityofchicago.org/d/");
        s.append(self.id.as_str());
        s
    }

    /// The creation date in America/Chicago, such as "May 13, 2026".
    pub fn date(&self) -> (r: Result<String, BotError>)
        ensures
            match display_date(self.created_at@) {
                Some(t) => r matches Ok(s) && s@ == t,
                None => r == Err::<String, BotError>(BotError::InvalidTimestamp),
            },
    {
        match chicago_date(self.created_at.as_str()) {
            Some((y, m, d)) => Ok(long_date(y, m, d)),
            None => Err(BotError::InvalidTimestamp),
        }
    }
}

/// The address of the catalog API.
pub const API: &'static str = "https://api.us.socrata.com/api/catalog/v1";

/// The largest catalog page, in bytes, the bot reads.
pub const MAX_PAGE_BYTES: usize = 8_000_000;

/// The query of one catalog page: official datasets of the city domain, a
/// hundred at a time from `offset`, ordered by name, and, for a single
/// dataset, its identifier.
pub open spec fn page_query_of(offset: Seq<char>, id: Option<Seq<char>>) -> Seq<(Seq<char>, Seq<char>)> {
    let base = seq![
        ("domains"@, DOMAIN@),
        ("only"@, "dataset"@),
        ("provenance"@, "official"@),
        ("limit"@, "100"@),
        ("offset"@, offset),
        ("order"@, "name"@),
    ];
    match id {
        Some(i) => base.push(("ids"@, i)),
        None => base,
    }
}

/// The texts of query pairs.
pub open spec fn pairs_text(v: Seq<(String, String)>) -> Seq<(Seq<char>, Seq<char>)> {
    v.map_values(|p: (String, String)| (p.0@, p.1@))
}

fn pair(k: &str, v: String) -> (r: (String, String))
    ensures
        r.0@ == k@,
        r.1@ == v@,
{
    (owned(k), v)
}

/// The query parameters of a catalog page; a requested identifier must be a
/// catalog identifier.
pub fn page_query(offset: usize, id: Option<&str>) -> (r: Result<Vec<(String, String)>, BotError>)
    ensures
        match id {
            Some(i) => if is_valid_id_text(i@) {
                r matches Ok(v) && pairs_text(v@) == page_query_of(
                    crate::clock::decimal(offset as nat),
                    Some(i@),
                )
            } else {
                r == Err::<Vec<(String, String)>, BotError>(BotError::ExpectedSocrataId)
            },
            None => r matches Ok(v) && pairs_text(v@) == page_query_of(
                crate::clock::decimal(offset as nat),
                None,
            ),
        },
{
    let mut digits: Vec<char> = Vec::new();
    crate::clock::push_decimal(&mut digits, offset as u64);
    assert(digits@ =~= crate::clock::decimal(offset as nat));
    let mut v: Vec<(String, String)> = Vec::new();
    v.push(pair("domains", owned(DOMAIN)));
    v.push(pair("only", owned("dataset")));
    v.push(pair("provenance", owned("official")));
    v.push(pair("limit", owned("100")));
    v.push(pair("offset", crate::text::string_of(digits.as_slice())));
    v.push(pair("order", owned("name")));
    match id {
        Some(i) => {
            if !valid_id(i) {
                return Err(BotError::ExpectedSocrataId);
            }
            v.push(pair("ids", owned(i)));
            assert(pairs_text(v@) =~= page_query_of(
                crate::clock::decimal(offset as nat),
                Some(i@),
            ));
        },
        None => {
            assert(pairs_text(v@) =~= page_query_of(crate::clock::decimal(offset as nat), None));
        },
    }
    Ok(v)
}

/// A catalog page may be at most eight million bytes.
pub fn check_page_size(len: usize) -> (r: Result<(), BotError>)
    ensures
        len <= 8_000_000 ==> r == Ok::<(), BotError>(()),
        len > 8_000_000 ==> r == Err::<(), BotError>(BotError::PageTooLarge),
{
    if len <= MAX_PAGE_BYTES {
        Ok(())
    } else {
        Err(BotError::PageTooLarge)
    }
}

/// A catalog page is accepted only without warnings.
pub fn check_warnings(page: Page) -> (r: Result<Page, BotError>)
    ensures
        page.warnings@.len() == 0 ==> r == Ok::<Page, BotError>(page),
        page.warnings@.len() > 0 ==> r == Err::<Page, BotError>(BotError::CatalogWarnings),
{
    if page.warnings.len() == 0 {
        Ok(page)
    } else {
        Err(BotError::CatalogWarnings)
    }
}

/// The one entry of a page that asked for a single dataset.
pub fn single_entry(page: Page) -> (r: Result<Entry, BotError>)
    ensures
        page.results@.len() == 1 ==> r == Ok::<Entry, BotError>(page.results@[0]),
        page.results@.len() != 1 ==> r == Err::<Entry, BotError>(BotError::DatasetNotFound),
{
    let mut results = page.results;
    if results.len() != 1 {
        return Err(BotError::DatasetNotFound);
    }
    Ok(results.remove(0))
}

} // verus!

//! Links: what `reqwest`'s URL parser reads from a text, and the compact
//! labels under which links are shown on cards.

use vstd::prelude::*;
use crate::catalog::{is_valid_id_text, valid_id};
use crate::text::{chars_of, has_prefix, owned, starts_with, str_eq, string_of};
use vstd::string::StringExecFns;

verus! {

/// The parts of a parsed URL that the bot reads.
pub struct UrlParts {
    pub scheme: String,
    pub username: String,
    pub password: Option<String>,
    pub host: Option<String>,
    pub query: Option<String>,
    pub fragment: Option<String>,
    pub segments: Option<Vec<String>>,
}

/// The parts of a parsed URL as text.
pub struct UrlView {
    pub scheme: Seq<char>,
    pub username: Seq<char>,
    pub password: Option<Seq<char>>,
    pub host: Option<Seq<char>>,
    pub query: Option<Seq<char>>,
    pub fragment: Option<Seq<char>>,
    pub segments: Option<Seq<Seq<char>>>,
}

/// The text of an optional string.
pub open spec fn opt_text(o: Option<String>) -> Option<Seq<char>> {
    match o {
        Some(s) => Some(s@),
        None => None,
    }
}

impl View for UrlParts {
    type V = UrlView;

    open spec fn view(&self) -> UrlView {
        UrlView {
            scheme: self.scheme@,
            username: self.username@,
            password: opt_text(self.password),
            host: opt_text(self.host),
            query: opt_text(self.query),
            fragment: opt_text(self.fragment),
            segments: match self.segments {
                Some(v) => Some(v@.map_values(|s: String| s@)),
                None => None,
            },
        }
    }
}

/// What the URL parser of `reqwest` (the `url` crate) reads from a text, or
/// `None` when the text is not an absolute URL.
pub uninterp spec fn url_of(text: Seq<char>) -> Option<UrlView>;

/// `reqwest::Url::parse` with `scheme`, `username`, `password`, `host_str`,
/// `query`, `fragment` and `path_segments` read off the result. The contract
/// claims only that the parts are a function of the text.
#[verifier::external_body]
pub(crate) fn parse_url(text: &str) -> (r: Option<UrlParts>)
    ensures
        match r {
            Some(p) => url_of(text@) == Some(p@),
            None => url_of(text@) is None,
        },
{
    let u = reqwest::Url::parse(text).ok()?;
    Some(UrlParts {
        scheme: u.scheme().to_string(),
        username: u.username().to_string(),
        password: u.password().map(|s| s.to_string()),
        host: u.host_str().map(|s| s.to_string()),
        query: u.query().map(|s| s.to_string()),
        fragment: u.fragment().map(|s| s.to_string()),
        segments: u.path_segments().map(|p| p.map(|s| s.to_string()).collect()),
    })
}

/// A link written without its `https://` or `http://` scheme.
pub open spec fn without_scheme(v: Seq<char>) -> Seq<char> {
    if starts_with(v, "https://"@) {
        v.skip(8)
    } else if starts_with(v, "http://"@) {
        v.skip(7)
    } else {
        v
    }
}

/// The identifier a city dataset link points at: its last path segment, or
/// the one before a final `about_data`.
pub open spec fn dataset_id_in_path(segs: Seq<Seq<char>>) -> Option<Seq<char>> {
    if segs.len() > 0 && is_valid_id_text(segs.last()) {
        Some(segs.last())
    } else if segs.len() >= 2 && segs.last() == "about_data"@ && is_valid_id_text(
        segs[segs.len() - 2],
    ) {
        Some(segs[segs.len() - 2])
    } else {
        None
    }
}

/// The label of a link on a card: a city dataset link without query or
/// fragment becomes its canonical short form, any other link loses its
/// scheme, and a text that is not a URL stays as it is.
pub open spec fn compact_url_text(v: Seq<char>) -> Seq<char> {
    compact_label_of(v, url_of(v))
}

/// The label of a link given what the URL parser read from it.
pub open spec fn compact_label_of(v: Seq<char>, parsed: Option<UrlView>) -> Seq<char> {
    match parsed {
        None => v,
        Some(u) => if u.host == Some("data.cityofchicago.org"@) && u.query is None
            && u.fragment is None {
            match dataset_id_in_path(
                match u.segments {
                    Some(s) => s,
                    None => Seq::empty(),
                },
            ) {
                Some(id) => "data.cityofchicago.org/d/"@ + id,
                None => without_scheme(v),
            }
        } else {
            without_scheme(v)
        },
    }
}

fn strip_scheme(v: &str) -> (r: String)
    ensures
        r@ == without_scheme(v@),
{
    let cs = chars_of(v);
    let https = chars_of("https://");
    let http = chars_of("http://");
    proof {
        reveal_strlit("https://");
        reveal_strlit("http://");
    }
    if has_prefix(cs.as_slice(), https.as_slice()) {
        string_of(cs.as_slice().split_at(8).1)
    } else if has_prefix(cs.as_slice(), http.as_slice()) {
        string_of(cs.as_slice().split_at(7).1)
    } else {
        owned(v)
    }
}

/// The label under which a link is shown on a card.
pub fn compact_url(value: &str) -> (r: String)
    ensures
        r@ == compact_url_text(value@),
{
    let parsed = parse_url(value);
    compact_label(value, &parsed)
}

/// The label of a link, given the parts the URL parser read from it (`None`
/// when the text is not a URL).
pub fn compact_label(value: &str, parsed: &Option<UrlParts>) -> (r: String)
    ensures
        r@ == compact_label_of(
            value@,
            match parsed {
                Some(p) => Some(p@),
                None => None,
            },
        ),
{
    let url = match parsed {
        Some(u) => u,
        None => return owned(value),
    };
    let on_portal = match &url.host {
        Some(h) => str_eq(h.as_str(), "data.cityofchicago.org"),
        None => false,
    };
    if on_portal && url.query.is_none() && url.fragment.is_none() {
        let empty: Vec<String> = Vec::new();
        let segs = match &url.segments {
            Some(s) => s,
            None => &empty,
        };
        let ghost sv = segs@.map_values(|s: String| s@);
        assert(sv == match url@.segments {
            Some(s) => s,
            None => Seq::<Seq<char>>::empty(),
        }) by {
            if url.segments is None {
                assert(sv =~= Seq::<Seq<char>>::empty());
            }
        }
        let n = segs.len();
        let mut id: Option<&String> = None;
        if n > 0 && valid_id(segs[n - 1].as_str()) {
            assert(sv.last() == segs@[n - 1]@);
            id = Some(&segs[n - 1]);
        } else if n >= 2 && str_eq(segs[n - 1].as_str(), "about_data") && valid_id(
            segs[n - 2].as_str(),
        ) {
            assert(sv.last() == segs@[n - 1]@);
            assert(sv[n - 2] == segs@[n - 2]@);
            id = Some(&segs[n - 2]);
        } else {
            proof {
                if n > 0 {
                    assert(sv.last() == segs@[n - 1]@);
                }
                if n >= 2 {
                    assert(sv[n - 2] == segs@[n - 2]@);
                }
            }
        }
        match id {
            Some(i) => {
                let mut s = owned("data.cityofchicago.org/d/");
                s.append(i.as_str());
                return s;
            },
            None => {},
        }
    }
    strip_scheme(value)
}

} // verus!

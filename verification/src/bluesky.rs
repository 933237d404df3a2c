//! The decisions of publishing on Bluesky: which server origin is accepted,
//! what a record lookup means for a pending post, and where the link facet of
//! a post lies.

use vstd::prelude::*;
use crate::error::BotError;
use crate::link::{opt_text, parse_url, url_of};
use crate::text::{owned, str_eq};
use vstd::string::{StringExecFns, StringSliceAdditionalSpecFns};

verus! {

/// A text without the slashes at its end.
pub open spec fn trim_slashes(s: Seq<char>) -> Seq<char>
    decreases s.len(),
{
    if s.len() > 0 && s.last() == '/' {
        trim_slashes(s.drop_last())
    } else {
        s
    }
}

/// Whether a text is an HTTPS origin: an absolute `https` URL without user
/// name, password, query or fragment.
pub open spec fn is_https_origin(pds: Seq<char>) -> bool {
    url_of(pds) matches Some(u) && u.scheme == "https"@ && u.username.len() == 0 && u.password
        is None && u.query is None && u.fragment is None
}

/// The base address of the personal data server: an HTTPS origin, written
/// without trailing slashes.
pub fn pds_base(pds: &str) -> (r: Result<String, BotError>)
    ensures
        url_of(pds@) is None ==> r == Err::<String, BotError>(BotError::InvalidUrl),
        url_of(pds@) is Some && !is_https_origin(pds@) ==> r == Err::<String, BotError>(
            BotError::PdsNotHttpsOrigin,
        ),
        is_https_origin(pds@) ==> (r matches Ok(b) && b@ == trim_slashes(pds@)),
{
    let url = match parse_url(pds) {
        Some(u) => u,
        None => return Err(BotError::InvalidUrl),
    };
    if !(str_eq(url.scheme.as_str(), "https") && url.username.as_str().is_empty()
        && url.password.is_none() && url.query.is_none() && url.fragment.is_none()) {
        return Err(BotError::PdsNotHttpsOrigin);
    }
    let cs = crate::text::chars_of(pds);
    let mut n = cs.len();
    assert(cs@.take(n as int) =~= cs@);
    while n > 0 && cs[n - 1] == '/'
        invariant
            cs@ == pds@,
            n <= cs@.len(),
            trim_slashes(pds@) == trim_slashes(cs@.take(n as int)),
        decreases n,
    {
        assert(cs@.take(n as int).drop_last() =~= cs@.take(n - 1));
        n = n - 1;
    }
    Ok(crate::text::string_of(cs.as_slice().split_at(n).0))
}

/// The address of an XRPC method on a server.
pub fn endpoint(base: &str, method: &str) -> (r: String)
    ensures
        r@ == base@ + "/xrpc/"@ + method@,
{
    let mut s = owned(base);
    s.append("/xrpc/");
    s.append(method);
    s
}

/// What a `getRecord` reply says, as far as publication depends on it.
pub struct LookupReply {
    /// The HTTP status was a success.
    pub success: bool,
    /// The HTTP status code.
    pub status: u16,
    /// `value.text` of the record, if it is a string.
    pub text: Option<String>,
    /// `value.createdAt` of the record, if it is a string.
    pub created_at: Option<String>,
    /// `uri` of the record, if it is a string.
    pub uri: Option<String>,
    /// `error` of an error reply, if it is a string.
    pub error: Option<String>,
}

/// What the lookup of a pending post's key decides: the URI of a post that
/// is already there (which must be this very post), nothing when the key is
/// free, or an error that leaves the post pending.
pub open spec fn lookup_outcome(
    reply: LookupReply,
    text: Seq<char>,
    created: Seq<char>,
) -> Result<Option<Seq<char>>, BotError> {
    if reply.success {
        if opt_text(reply.text) == Some(text) && opt_text(reply.created_at) == Some(created) {
            match opt_text(reply.uri) {
                Some(u) => Ok(Some(u)),
                None => Err(BotError::MissingUri),
            }
        } else {
            Err(BotError::ExistingRecordMismatch)
        }
    } else if reply.status == 400 && opt_text(reply.error) == Some("RecordNotFound"@) {
        Ok(None)
    } else {
        Err(BotError::LookupFailed)
    }
}

fn same_text(o: &Option<String>, t: &str) -> (r: bool)
    ensures
        r == (opt_text(*o) == Some(t@)),
{
    match o {
        Some(s) => str_eq(s.as_str(), t),
        None => false,
    }
}

/// Decides on a pending post from the lookup of its record key: a record
/// that is already stored must be the same post (then its URI is the
/// result); a missing record lets the post be created; anything else is an
/// error and nothing is written.
pub fn lookup_decision(reply: &LookupReply, text: &str, created: &str) -> (r: Result<
    Option<String>,
    BotError,
>)
    ensures
        match lookup_outcome(*reply, text@, created@) {
            Ok(Some(u)) => r matches Ok(Some(s)) && s@ == u,
            Ok(None) => r matches Ok(None),
            Err(e) => r == Err::<Option<String>, BotError>(e),
        },
{
    if reply.success {
        if same_text(&reply.text, text) && same_text(&reply.created_at, created) {
            match &reply.uri {
                Some(u) => Ok(Some(u.clone())),
                None => Err(BotError::MissingUri),
            }
        } else {
            Err(BotError::ExistingRecordMismatch)
        }
    } else if reply.status == 400 && same_text(&reply.error, "RecordNotFound") {
        Ok(None)
    } else {
        Err(BotError::LookupFailed)
    }
}

/// The URI a `putRecord` reply gives for a created post.
pub fn created_uri(success: bool, uri: Option<String>) -> (r: Result<String, BotError>)
    ensures
        !success ==> r == Err::<String, BotError>(BotError::PublicationFailed),
        success && uri is None ==> r == Err::<String, BotError>(BotError::MissingUri),
        success && uri is Some ==> r == Ok::<String, BotError>(uri->0),
{
    if !success {
        return Err(BotError::PublicationFailed);
    }
    match uri {
        Some(u) => Ok(u),
        None => Err(BotError::MissingUri),
    }
}

/// Whether `u` occurs in `t` at byte offset `i`.
pub open spec fn occurs_at(t: Seq<u8>, u: Seq<u8>, i: int) -> bool {
    0 <= i && i + u.len() <= t.len() && t.subrange(i, i + u.len()) == u
}

fn occurs_here(t: &[u8], u: &[u8], i: usize) -> (r: bool)
    requires
        i + u@.len() <= t@.len(),
    ensures
        r == occurs_at(t@, u@, i as int),
{
    let n = t.len();
    let mut k: usize = 0;
    while k < u.len()
        invariant
            i + u@.len() <= t@.len(),
            n == t@.len(),
            k <= u@.len(),
            forall|m: int| 0 <= m < k ==> t@[i + m] == u@[m],
        decreases u@.len() - k,
    {
        if t[i + k] != u[k] {
            assert(t@.subrange(i as int, i + u@.len())[k as int] != u@[k as int]);
            return false;
        }
        k = k + 1;
    }
    assert(t@.subrange(i as int, i + u@.len()) =~= u@);
    true
}

/// The byte range of the link in the post text: its last occurrence, as
/// `str::rfind` finds it.
pub fn link_facet(text: &str, url: &str) -> (r: Result<(usize, usize), BotError>)
    ensures
        match r {
            Ok((start, end)) => occurs_at(text.spec_bytes(), url.spec_bytes(), start as int)
                && end == start + url.spec_bytes().len() && forall|j: int|
                start < j ==> !occurs_at(text.spec_bytes(), url.spec_bytes(), j),
            Err(e) => e == BotError::MissingLink && forall|j: int|
                !occurs_at(text.spec_bytes(), url.spec_bytes(), j),
        },
{
    let t = text.as_bytes();
    let u = url.as_bytes();
    if u.len() > t.len() {
        return Err(BotError::MissingLink);
    }
    let n = t.len();
    let mut i = n - u.len();
    loop
        invariant
            n == t@.len(),
            u@.len() <= t@.len(),
            i + u@.len() <= t@.len(),
            t@ == text.spec_bytes(),
            u@ == url.spec_bytes(),
            forall|j: int| i < j ==> !occurs_at(t@, u@, j),
        decreases i,
    {
        if occurs_here(t, u, i) {
            return Ok((i, i + u.len()));
        }
        if i == 0 {
            return Err(BotError::MissingLink);
        }
        i = i - 1;
    }
}

/// What a publishing run does next.
#[derive(Clone, Copy, Debug, PartialEq, Eq, Structural)]
pub enum PublishStep {
    /// The run ends.
    Stop,
    /// Log in to the server first.
    Login,
    /// Publish the oldest pending announcement.
    Publish,
}

/// The next step of a publishing run: nothing unless publishing was asked
/// for and an announcement is pending; a login before the first post (and
/// only then); then posts until `max_posts` were sent in this run.
pub open spec fn next_publish_step(
    publish: bool,
    pending: bool,
    logged_in: bool,
    posted: int,
    max_posts: int,
) -> PublishStep {
    if !publish || !pending {
        PublishStep::Stop
    } else if !logged_in {
        PublishStep::Login
    } else if posted >= max_posts {
        PublishStep::Stop
    } else {
        PublishStep::Publish
    }
}

/// Decides the next step of a publishing run from whether publishing was
/// asked for, whether an announcement is pending, whether the session is
/// logged in, and how many posts this run has sent. A run that counts its
/// posts thus sends at most `max_posts`, and logs in only with a post
/// pending.
pub fn publish_step(publish: bool, pending: bool, logged_in: bool, posted: usize, max_posts: usize) -> (r:
    PublishStep)
    ensures
        r == next_publish_step(publish, pending, logged_in, posted as int, max_posts as int),
        r == PublishStep::Publish ==> posted < max_posts,
        r == PublishStep::Login ==> publish && pending,
{
    if !publish || !pending {
        PublishStep::Stop
    } else if !logged_in {
        PublishStep::Login
    } else if posted >= max_posts {
        PublishStep::Stop
    } else {
        PublishStep::Publish
    }
}

} // verus!

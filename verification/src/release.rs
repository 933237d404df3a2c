//! The checks of the self-updater: which releases may be installed, which
//! checksum manifest is believed, and what a download must match.

use vstd::prelude::*;
use sha2::Digest;
use crate::error::BotError;
use crate::text::{char_texts, chars_eq, chars_of, lines, lines_of, owned, str_eq, string_of, words, words_of};
use vstd::utf8::encode_utf8;
use vstd::string::{StringExecFns, StringSliceAdditionalSpecFns};

verus! {

/// The repository that publishes releases.
pub const REPO: &'static str = "MisterClean/chicago-data-portal-datasets";

/// The asset name of the bot executable.
pub const BINARY: &'static str = "chicago-data-bot-linux-amd64";

/// The asset name of the updater executable.
pub const UPDATER: &'static str = "chicago-data-bot-updater-linux-amd64";

/// A lowercase hexadecimal digit, as a byte.
pub open spec fn is_lower_hex_byte(b: u8) -> bool {
    (0x30 <= b <= 0x39) || (0x61 <= b <= 0x66)
}

/// A lowercase hexadecimal digit.
pub open spec fn is_lower_hex_char(c: char) -> bool {
    ('0' <= c <= '9') || ('a' <= c <= 'f')
}

/// The UTF-8 bytes of `build-`.
pub open spec fn build_prefix() -> Seq<u8> {
    seq![0x62u8, 0x75u8, 0x69u8, 0x6cu8, 0x64u8, 0x2du8]
}

/// The UTF-8 bytes of a release tag name a production build: `build-`
/// followed by forty lowercase hexadecimal digits (a full commit hash).
pub open spec fn is_build_tag(b: Seq<u8>) -> bool {
    &&& b.len() == 46
    &&& b.take(6) == build_prefix()
    &&& forall|i: int| 6 <= i < 46 ==> is_lower_hex_byte(#[trigger] b[i])
}

/// Checks a release tag: `build-` and a full lowercase commit hash.
pub fn valid_tag(tag: &str) -> (r: bool)
    ensures
        r == is_build_tag(tag.spec_bytes()),
{
    let b = tag.as_bytes();
    if b.len() != 46 {
        return false;
    }
    if !(b[0] == 0x62 && b[1] == 0x75 && b[2] == 0x69 && b[3] == 0x6c && b[4] == 0x64 && b[5]
        == 0x2d) {
        proof {
            if b@.take(6) == build_prefix() {
                assert(b@.take(6)[0] == b@[0]);
                assert(b@.take(6)[1] == b@[1]);
                assert(b@.take(6)[2] == b@[2]);
                assert(b@.take(6)[3] == b@[3]);
                assert(b@.take(6)[4] == b@[4]);
                assert(b@.take(6)[5] == b@[5]);
            }
        }
        return false;
    }
    assert(b@.take(6) =~= build_prefix());
    let mut j: usize = 6;
    while j < 46
        invariant
            b@ == tag.spec_bytes(),
            b@.len() == 46,
            b@.take(6) == build_prefix(),
            6 <= j <= 46,
            forall|k: int| 6 <= k < j ==> is_lower_hex_byte(#[trigger] b@[k]),
        decreases 46 - j,
    {
        let c = b[j];
        if !((0x30 <= c && c <= 0x39) || (0x61 <= c && c <= 0x66)) {
            return false;
        }
        j = j + 1;
    }
    true
}

/// Sixty-four lowercase hexadecimal digits: a SHA-256 in hex.
pub open spec fn is_sha256_hex(s: Seq<char>) -> bool {
    s.len() == 64 && forall|i: int| 0 <= i < 64 ==> is_lower_hex_char(#[trigger] s[i])
}

fn sha256_hex_ok(s: &[char]) -> (r: bool)
    ensures
        r == is_sha256_hex(s@),
{
    if s.len() != 64 {
        return false;
    }
    let mut i: usize = 0;
    while i < 64
        invariant
            s@.len() == 64,
            i <= 64,
            forall|k: int| 0 <= k < i ==> is_lower_hex_char(#[trigger] s@[k]),
        decreases 64 - i,
    {
        let c = s[i];
        if !(('0' <= c && c <= '9') || ('a' <= c && c <= 'f')) {
            return false;
        }
        i = i + 1;
    }
    true
}

fn contains_chars(names: &Vec<Vec<char>>, x: &[char]) -> (r: bool)
    ensures
        r == char_texts(names@).contains(x@),
{
    let mut k: usize = 0;
    while k < names.len()
        invariant
            k <= names@.len(),
            forall|m: int| 0 <= m < k ==> names@[m]@ != x@,
        decreases names@.len() - k,
    {
        if chars_eq(names[k].as_slice(), x) {
            assert(char_texts(names@)[k as int] == x@);
            return true;
        }
        k = k + 1;
    }
    assert(!char_texts(names@).contains(x@)) by {
        if char_texts(names@).contains(x@) {
            let m = choose|m: int| 0 <= m < names@.len() && #[trigger] char_texts(names@)[m] == x@;
            assert(names@[m]@ == x@);
        }
    }
    false
}

/// Reads the lines of a checksum manifest, given the asset names already
/// listed and the bot checksum found so far: every line must be a hash and a
/// known asset name, and no asset may be listed twice.
pub open spec fn read_manifest(
    names: Seq<Seq<char>>,
    found: Option<Seq<char>>,
    ls: Seq<Seq<char>>,
) -> Result<Option<Seq<char>>, BotError>
    decreases ls.len(),
{
    if ls.len() == 0 {
        Ok(found)
    } else {
        let f = words_of(ls[0]);
        if f.len() != 2 {
            Err(BotError::UnexpectedManifest)
        } else if !is_sha256_hex(f[0]) {
            Err(BotError::InvalidSha256)
        } else if !(f[1] == BINARY@ || f[1] == UPDATER@) || names.contains(f[1]) {
            Err(BotError::UnexpectedAssetName)
        } else {
            read_manifest(
                names.push(f[1]),
                if f[1] == BINARY@ {
                    Some(f[0])
                } else {
                    found
                },
                ls.drop_first(),
            )
        }
    }
}

/// The checksum of the bot executable that a manifest lists.
pub open spec fn manifest_checksum(manifest: Seq<char>) -> Result<Seq<char>, BotError> {
    match read_manifest(Seq::empty(), None, lines_of(manifest)) {
        Err(e) => Err(e),
        Ok(None) => Err(BotError::MissingBotChecksum),
        Ok(Some(h)) => Ok(h),
    }
}

/// The bot's checksum from a `SHA256SUMS` manifest, which must list only the
/// bot and the updater, each once, with well-formed hashes.
pub fn checksum(manifest: &str) -> (r: Result<String, BotError>)
    ensures
        match manifest_checksum(manifest@) {
            Ok(h) => r matches Ok(s) && s@ == h,
            Err(e) => r == Err::<String, BotError>(e),
        },
{
    let text = chars_of(manifest);
    let ls = lines(text.as_slice());
    let binary = chars_of(BINARY);
    let updater = chars_of(UPDATER);
    let ghost all = char_texts(ls@);
    let mut names: Vec<Vec<char>> = Vec::new();
    let mut found: Option<Vec<char>> = None;
    let mut i: usize = 0;
    assert(all.skip(0) =~= all);
    assert(char_texts(names@) =~= Seq::<Seq<char>>::empty());
    while i < ls.len()
        invariant
            all == char_texts(ls@),
            all == lines_of(manifest@),
            binary@ == BINARY@,
            updater@ == UPDATER@,
            i <= ls@.len(),
            read_manifest(Seq::empty(), None, all) == read_manifest(
                char_texts(names@),
                match found {
                    Some(h) => Some(h@),
                    None => None,
                },
                all.skip(i as int),
            ),
        decreases ls@.len() - i,
    {
        assert(all.skip(i as int).drop_first() =~= all.skip(i + 1));
        assert(all.skip(i as int)[0] == ls@[i as int]@);
        let f = words(ls[i].as_slice());
        if f.len() != 2 {
            return Err(BotError::UnexpectedManifest);
        }
        if !sha256_hex_ok(f[0].as_slice()) {
            return Err(BotError::InvalidSha256);
        }
        let is_binary = chars_eq(f[1].as_slice(), binary.as_slice());
        let is_updater = chars_eq(f[1].as_slice(), updater.as_slice());
        if !(is_binary || is_updater) {
            return Err(BotError::UnexpectedAssetName);
        }
        if contains_chars(&names, f[1].as_slice()) {
            return Err(BotError::UnexpectedAssetName);
        }
        let ghost before = names@;
        let name = f[1].clone();
        names.push(name);
        assert(char_texts(names@) =~= char_texts(before).push(
            f@[1]@,
        ));
        if is_binary {
            found = Some(f[0].clone());
        }
        i = i + 1;
    }
    assert(all.skip(i as int) =~= Seq::<Seq<char>>::empty());
    match found {
        Some(h) => Ok(string_of(h.as_slice())),
        None => Err(BotError::MissingBotChecksum),
    }
}

/// The SHA-256 digest of a byte string.
pub uninterp spec fn sha256_of(data: Seq<u8>) -> Seq<u8>;

/// `sha2`'s `Sha256::digest`. The contract claims that the digest is a
/// function of the data and, as SHA-256 fixes, 32 bytes long.
#[verifier::external_body]
fn sha256_digest(data: &[u8]) -> (r: Vec<u8>)
    ensures
        r@ == sha256_of(data@),
        r@.len() == 32,
{
    sha2::Sha256::digest(data).to_vec()
}

/// The lowercase hexadecimal digit of a number below sixteen.
pub open spec fn hex_digit(n: u8) -> char {
    if n < 10 {
        (48 + n) as char
    } else {
        (87 + n) as char
    }
}

/// Bytes in lowercase hexadecimal, two digits each (`{:x}` of a digest).
pub open spec fn hex_of(b: Seq<u8>) -> Seq<char>
    decreases b.len(),
{
    if b.len() == 0 {
        Seq::empty()
    } else {
        hex_of(b.drop_last()).push(hex_digit(b.last() / 16)).push(hex_digit(b.last() % 16))
    }
}

fn hex_char(n: u8) -> (c: char)
    requires
        n < 16,
    ensures
        c == hex_digit(n),
{
    if n < 10 {
        (48 + n) as char
    } else {
        (87 + n) as char
    }
}

/// Bytes in lowercase hexadecimal.
pub fn to_hex(b: &[u8]) -> (s: String)
    ensures
        s@ == hex_of(b@),
{
    let mut out: Vec<char> = Vec::new();
    let mut i: usize = 0;
    while i < b.len()
        invariant
            i <= b@.len(),
            out@ == hex_of(b@.take(i as int)),
        decreases b@.len() - i,
    {
        let x = b[i];
        out.push(hex_char(x / 16));
        out.push(hex_char(x % 16));
        assert(b@.take(i + 1).drop_last() =~= b@.take(i as int));
        i = i + 1;
    }
    assert(b@.take(i as int) =~= b@);
    string_of(out.as_slice())
}

/// The SHA-256 of some bytes, in lowercase hexadecimal.
pub fn sha256_hex(data: &[u8]) -> (s: String)
    ensures
        s@ == hex_of(sha256_of(data@)),
{
    let digest = sha256_digest(data);
    to_hex(digest.as_slice())
}

/// The running size of a download after one more chunk, which must stay
/// within the limit.
pub fn add_chunk(total: usize, chunk: usize, limit: usize) -> (r: Result<usize, BotError>)
    ensures
        total + chunk <= limit ==> r == Ok::<usize, BotError>((total + chunk) as usize),
        total + chunk > limit ==> r == Err::<usize, BotError>(BotError::DownloadLimitExceeded),
{
    match total.checked_add(chunk) {
        Some(t) => if t <= limit {
            Ok(t)
        } else {
            Err(BotError::DownloadLimitExceeded)
        },
        None => Err(BotError::DownloadLimitExceeded),
    }
}

/// One asset of a release.
pub struct Asset {
    pub name: String,
    pub browser_download_url: String,
}

/// A release as the GitHub API describes it.
pub struct Release {
    pub tag_name: String,
    pub draft: bool,
    pub prerelease: bool,
    pub assets: Vec<Asset>,
}

/// Whether a release may be installed: a build tag, neither draft nor
/// prerelease.
pub open spec fn is_eligible(r: Release) -> bool {
    is_build_tag(encode_utf8(r.tag_name@)) && !r.draft && !r.prerelease
}

/// Checks that the latest release is an eligible production build.
pub fn check_eligible(release: &Release) -> (r: Result<(), BotError>)
    ensures
        is_eligible(*release) ==> r == Ok::<(), BotError>(()),
        !is_eligible(*release) ==> r == Err::<(), BotError>(BotError::IneligibleRelease),
{
    if valid_tag(release.tag_name.as_str()) && !release.draft && !release.prerelease {
        Ok(())
    } else {
        Err(BotError::IneligibleRelease)
    }
}

/// The only download URL the updater accepts for an asset of a release.
pub open spec fn asset_url_of(tag: Seq<char>, name: Seq<char>) -> Seq<char> {
    "https://github.com/"@ + REPO@ + "/releases/download/"@ + tag + "/"@ + name
}

/// The download URL an asset of a release must have.
pub fn asset_url(tag: &str, name: &str) -> (r: String)
    ensures
        r@ == asset_url_of(tag@, name@),
{
    let mut s = owned("https://github.com/");
    s.append(REPO);
    s.append("/releases/download/");
    s.append(tag);
    s.append("/");
    s.append(name);
    s
}

/// Whether a release lists the asset under exactly the expected URL.
pub open spec fn lists_asset(r: Release, name: Seq<char>) -> bool {
    exists|i: int|
        0 <= i < r.assets@.len() && (#[trigger] r.assets@[i]).name@ == name
            && r.assets@[i].browser_download_url@ == asset_url_of(r.tag_name@, name)
}

/// The download URL of an asset, which the release must list under exactly
/// that URL.
pub fn release_asset(release: &Release, name: &str) -> (r: Result<String, BotError>)
    ensures
        lists_asset(*release, name@) ==> (r matches Ok(u) && u@ == asset_url_of(
            release.tag_name@,
            name@,
        )),
        !lists_asset(*release, name@) ==> r == Err::<String, BotError>(BotError::MissingAsset),
{
    let expected = asset_url(release.tag_name.as_str(), name);
    let mut i: usize = 0;
    while i < release.assets.len()
        invariant
            expected@ == asset_url_of(release.tag_name@, name@),
            i <= release.assets@.len(),
            forall|j: int|
                0 <= j < i ==> !((#[trigger] release.assets@[j]).name@ == name@
                    && release.assets@[j].browser_download_url@ == expected@),
        decreases release.assets@.len() - i,
    {
        let a = &release.assets[i];
        if str_eq(a.name.as_str(), name) && str_eq(
            a.browser_download_url.as_str(),
            expected.as_str(),
        ) {
            return Ok(expected);
        }
        i = i + 1;
    }
    Err(BotError::MissingAsset)
}

/// A downloaded executable must match the manifest's checksum.
pub fn check_download(actual: &str, expected: &str) -> (r: Result<(), BotError>)
    ensures
        actual@ == expected@ ==> r == Ok::<(), BotError>(()),
        actual@ != expected@ ==> r == Err::<(), BotError>(BotError::ChecksumMismatch),
{
    if str_eq(actual, expected) {
        Ok(())
    } else {
        Err(BotError::ChecksumMismatch)
    }
}

/// An installed release directory must hold the expected executable.
pub fn check_installed(actual: &str, expected: &str) -> (r: Result<(), BotError>)
    ensures
        actual@ == expected@ ==> r == Ok::<(), BotError>(()),
        actual@ != expected@ ==> r == Err::<(), BotError>(BotError::UnexpectedReleaseContent),
{
    if str_eq(actual, expected) {
        Ok(())
    } else {
        Err(BotError::UnexpectedReleaseContent)
    }
}

/// Whether an entry of the releases directory is an old release to remove:
/// a directory named by a build tag that is neither the new release nor the
/// one kept for rollback.
pub fn is_stale_release(is_dir: bool, name: &str, is_target: bool, is_previous: bool) -> (r: bool)
    ensures
        r == (is_dir && is_build_tag(name.spec_bytes()) && !is_target && !is_previous),
{
    is_dir && valid_tag(name) && !is_target && !is_previous
}

proof fn lemma_read_manifest_locked(names: Seq<Seq<char>>, found: Option<Seq<char>>, ls: Seq<Seq<char>>)
    requires
        names.contains(BINARY@),
    ensures
        read_manifest(names, found, ls) matches Ok(r) ==> r == found,
    decreases ls.len(),
{
    if ls.len() > 0 {
        let f = words_of(ls[0]);
        if f.len() == 2 && is_sha256_hex(f[0]) && (f[1] == BINARY@ || f[1] == UPDATER@)
            && !names.contains(f[1]) {
            assert(f[1] != BINARY@);
            assert(names.push(f[1]).contains(BINARY@)) by {
                let j = choose|j: int| 0 <= j < names.len() && names[j] == BINARY@;
                assert(names.push(f[1])[j] == BINARY@);
            }
            lemma_read_manifest_locked(names.push(f[1]), found, ls.drop_first());
        }
    }
}

proof fn lemma_read_manifest_bot_line(
    names: Seq<Seq<char>>,
    found: Option<Seq<char>>,
    ls: Seq<Seq<char>>,
    k: int,
    h: Seq<char>,
)
    requires
        0 <= k < ls.len(),
        words_of(ls[k]) == seq![h, BINARY@],
    ensures
        read_manifest(names, found, ls) matches Ok(Some(s)) ==> s == h,
    decreases ls.len(),
{
    let f = words_of(ls[0]);
    if f.len() == 2 && is_sha256_hex(f[0]) && (f[1] == BINARY@ || f[1] == UPDATER@)
        && !names.contains(f[1]) {
        let next = if f[1] == BINARY@ {
            Some(f[0])
        } else {
            found
        };
        if k == 0 {
            assert(f[1] == BINARY@ && f[0] == h);
            assert(names.push(f[1])[names.len() as int] == BINARY@);
            lemma_read_manifest_locked(names.push(f[1]), next, ls.drop_first());
        } else {
            assert(ls.drop_first()[k - 1] == ls[k]);
            lemma_read_manifest_bot_line(names.push(f[1]), next, ls.drop_first(), k - 1, h);
        }
    }
}

proof fn lemma_read_manifest_source(names: Seq<Seq<char>>, found: Option<Seq<char>>, ls: Seq<Seq<char>>)
    ensures
        read_manifest(names, found, ls) matches Ok(Some(s)) ==> found == Some(s) || exists|k: int|
            0 <= k < ls.len() && #[trigger] words_of(ls[k]) == seq![s, BINARY@],
    decreases ls.len(),
{
    if ls.len() > 0 {
        let f = words_of(ls[0]);
        if f.len() == 2 && is_sha256_hex(f[0]) && (f[1] == BINARY@ || f[1] == UPDATER@)
            && !names.contains(f[1]) {
            let next = if f[1] == BINARY@ {
                Some(f[0])
            } else {
                found
            };
            lemma_read_manifest_source(names.push(f[1]), next, ls.drop_first());
            if let Ok(Some(s)) = read_manifest(names, found, ls) {
                if next == Some(s) && f[1] == BINARY@ {
                    assert(f =~= seq![s, BINARY@]);
                    assert(words_of(ls[0]) == seq![s, BINARY@]);
                } else if next != Some(s) {
                    let k = choose|k: int|
                        0 <= k < ls.drop_first().len() && #[trigger] words_of(ls.drop_first()[k])
                            == seq![s, BINARY@];
                    assert(ls.drop_first()[k] == ls[k + 1]);
                    assert(words_of(ls[k + 1]) == seq![s, BINARY@]);
                }
            }
        }
    }
}

/// The checksum taken from a manifest is the hash on the bot executable's
/// line: when some line reads `h  chicago-data-bot-linux-amd64`, an accepted
/// manifest yields exactly `h`, whatever lines (the updater's among them)
/// come before or after; and whatever an accepted manifest yields is the hash
/// of such a line.
pub proof fn lemma_checksum_is_bot_line(manifest: Seq<char>)
    ensures
        forall|k: int|
            0 <= k < lines_of(manifest).len() && #[trigger] words_of(lines_of(manifest)[k]).len() == 2
                && words_of(lines_of(manifest)[k])[1] == BINARY@ ==> (manifest_checksum(manifest) matches Ok(
                s,
            ) ==> s == words_of(lines_of(manifest)[k])[0]),
        manifest_checksum(manifest) matches Ok(s) ==> exists|k: int|
            0 <= k < lines_of(manifest).len() && #[trigger] words_of(lines_of(manifest)[k]) == seq![s, BINARY@],
{
    let ls = lines_of(manifest);
    assert forall|k: int|
        0 <= k < ls.len() && #[trigger] words_of(ls[k]).len() == 2 && words_of(ls[k])[1] == BINARY@ implies (
        manifest_checksum(manifest) matches Ok(s) ==> s == words_of(ls[k])[0]) by {
        let h = words_of(ls[k])[0];
        assert(words_of(ls[k]) =~= seq![h, BINARY@]);
        lemma_read_manifest_bot_line(Seq::empty(), None, ls, k, h);
    }
    lemma_read_manifest_source(Seq::empty(), None, ls);
}

} // verus!

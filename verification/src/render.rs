//! The text side of description cards and posts: styled spans, how links in
//! descriptions are labelled, the alt text of a card, the words that lines are
//! wrapped from, and the post caption.

use vstd::prelude::*;
use crate::link::{compact_url, compact_url_text, url_of, parse_url};
use crate::text::{
    ends_with, has_prefix, starts_with,
    char_texts, chars_of, string_texts, is_white_space, is_whitespace, owned, parts, parts_of, string_of,
    string_push, trim, trim_end_ws, trim_ws, end_ws_cut,
};
use vstd::string::StringExecFns;
use html2text::render::RichAnnotation;
use unicode_segmentation::UnicodeSegmentation;
use crate::canvas::{card_png, Canvas};
use crate::catalog::{dataset_url, display_date, Dataset, DatasetView};
use crate::error::BotError;
use vstd::string::StringSliceAdditionalSpecFns;
use vstd::utf8::encode_utf8;

verus! {

/// A run of text with one style: a link target and boldness.
#[derive(Clone, Debug)]
pub struct Span {
    pub text: String,
    pub link: Option<String>,
    pub bold: bool,
}

/// A span as plain values.
pub struct SpanView {
    pub text: Seq<char>,
    pub link: Option<Seq<char>>,
    pub bold: bool,
}

impl View for Span {
    type V = SpanView;

    open spec fn view(&self) -> SpanView {
        SpanView {
            text: self.text@,
            link: match self.link {
                Some(l) => Some(l@),
                None => None,
            },
            bold: self.bold,
        }
    }
}

/// The views of a list of spans.
pub open spec fn span_views(v: Seq<Span>) -> Seq<SpanView> {
    v.map_values(|s: Span| s@)
}

impl Span {
    /// Plain text: no link, not bold.
    pub fn text(text: &str) -> (r: Span)
        ensures
            r@ == (SpanView { text: text@, link: None, bold: false }),
    {
        Span { text: owned(text), link: None, bold: false }
    }

    /// A copy of the span.
    pub fn duplicate(&self) -> (r: Span)
        ensures
            r@ == self@,
    {
        Span {
            text: self.text.clone(),
            link: match &self.link {
                Some(l) => Some(l.clone()),
                None => None,
            },
            bold: self.bold,
        }
    }
}

/// Whether a text starts with `https://` or `http://`.
pub open spec fn has_web_scheme(s: Seq<char>) -> bool {
    starts_with(s, "https://"@) || starts_with(s, "http://"@)
}

fn web_scheme(s: &[char]) -> (r: bool)
    ensures
        r == has_web_scheme(s@),
{
    let https = chars_of("https://");
    let http = chars_of("http://");
    has_prefix(s, https.as_slice()) || has_prefix(s, http.as_slice())
}

/// Punctuation that may follow a bare link in prose without being part of it.
pub open spec fn is_trailing_punct(c: char) -> bool {
    c == '.' || c == ',' || c == ';' || c == ')' || c == ']'
}

/// A text without trailing punctuation.
pub open spec fn trim_end_punct(s: Seq<char>) -> Seq<char>
    decreases s.len(),
{
    if s.len() > 0 && is_trailing_punct(s.last()) {
        trim_end_punct(s.drop_last())
    } else {
        s
    }
}

/// The spans of one white-space-terminated piece of plain text: a bare web
/// link that the URL parser accepts (without punctuation after it) becomes a
/// link span labelled compactly, followed by what came after the link.
pub open spec fn part_spans(part: Seq<char>, bold: bool) -> Seq<SpanView> {
    let bare = trim_end_punct(trim_end_ws(part));
    if has_web_scheme(bare) && url_of(bare) is Some {
        seq![
            SpanView { text: compact_url_text(bare), link: Some(bare), bold },
            SpanView { text: part.skip(bare.len() as int), link: None, bold },
        ]
    } else {
        seq![SpanView { text: part, link: None, bold }]
    }
}

/// Bare web links in plain text become links: in a white-space-terminated
/// piece of text whose token, with trailing `.` `,` `;` `)` `]` cut, starts
/// with `http://` or `https://` and parses as a URL, that token becomes a span
/// linking to it, labelled compactly, and the cut punctuation (and white
/// space) follows unlinked; any other piece stays one plain span.
pub proof fn lemma_bare_links_become_links(part: Seq<char>, bold: bool)
    ensures
        ({
            let bare = trim_end_punct(trim_end_ws(part));
            (starts_with(bare, "http://"@) || starts_with(bare, "https://"@)) && url_of(bare) is Some
                ==> part_spans(part, bold) == seq![
                SpanView { text: compact_url_text(bare), link: Some(bare), bold },
                SpanView { text: part.skip(bare.len() as int), link: None, bold },
            ]
        }),
        ({
            let bare = trim_end_punct(trim_end_ws(part));
            !((starts_with(bare, "http://"@) || starts_with(bare, "https://"@)) && url_of(bare) is Some)
                ==> part_spans(part, bold) == seq![SpanView { text: part, link: None, bold }]
        }),
{
}

/// Linked text from the HTML keeps its destination, and is labelled
/// compactly exactly when the text (trimmed) is itself an `http://` or
/// `https://` address.
pub proof fn lemma_linked_text_labels(text: Seq<char>, l: Seq<char>, bold: bool)
    ensures
        text_spans(text, Some(l), bold).len() == 1,
        text_spans(text, Some(l), bold)[0].link == Some(l),
        text_spans(text, Some(l), bold)[0].bold == bold,
        (starts_with(trim_ws(text), "http://"@) || starts_with(trim_ws(text), "https://"@))
            ==> text_spans(text, Some(l), bold)[0].text == compact_url_text(trim_ws(text)),
        !(starts_with(trim_ws(text), "http://"@) || starts_with(trim_ws(text), "https://"@))
            ==> text_spans(text, Some(l), bold)[0].text == text,
{
}

/// The spans of a list of pieces, one after the other.
pub open spec fn parts_spans(ps: Seq<Seq<char>>, bold: bool) -> Seq<SpanView>
    decreases ps.len(),
{
    if ps.len() == 0 {
        Seq::empty()
    } else {
        parts_spans(ps.drop_last(), bold) + part_spans(ps.last(), bold)
    }
}

/// The spans of a run of description text with its link target (if the
/// HTML gave one) and boldness. Linked text keeps its words, unless it is
/// itself a web address, which is then labelled compactly.
pub open spec fn text_spans(text: Seq<char>, link: Option<Seq<char>>, bold: bool) -> Seq<SpanView> {
    match link {
        Some(l) => seq![
            SpanView {
                text: if has_web_scheme(trim_ws(text)) {
                    compact_url_text(trim_ws(text))
                } else {
                    text
                },
                link: Some(l),
                bold,
            },
        ],
        None => parts_spans(parts_of(text), bold),
    }
}

fn cut_end_punct(s: &[char]) -> (n: usize)
    ensures
        n <= s@.len(),
        s@.take(n as int) == trim_end_punct(s@),
{
    let mut n = s.len();
    assert(s@.take(n as int) =~= s@);
    while n > 0 && (s[n - 1] == '.' || s[n - 1] == ',' || s[n - 1] == ';' || s[n - 1] == ')'
        || s[n - 1] == ']')
        invariant
            n <= s@.len(),
            trim_end_punct(s@) == trim_end_punct(s@.take(n as int)),
        decreases n,
    {
        assert(s@.take(n as int).drop_last() =~= s@.take(n - 1));
        n = n - 1;
    }
    n
}

proof fn lemma_take_take<A>(s: Seq<A>, a: int, b: int)
    requires
        0 <= b <= a <= s.len(),
    ensures
        s.take(a).take(b) == s.take(b),
{
    assert(s.take(a).take(b) =~= s.take(b));
}

fn push_part_spans(out: &mut Vec<Span>, part: &[char], bold: bool)
    ensures
        span_views(final(out)@) == span_views(old(out)@) + part_spans(part@, bold),
{
    let token_len = end_ws_cut(part);
    let token = part.split_at(token_len).0;
    let bare_len = cut_end_punct(token);
    let bare = token.split_at(bare_len).0;
    assert(bare@ == trim_end_punct(trim_end_ws(part@)));
    let bare_text = string_of(bare);
    let ghost before = out@;
    if web_scheme(bare) && parse_url(bare_text.as_str()).is_some() {
        let label = compact_url(bare_text.as_str());
        let rest = string_of(part.split_at(bare_len).1);
        proof {
            lemma_take_take(part@, token_len as int, bare_len as int);
        }
        out.push(Span { text: label, link: Some(bare_text), bold });
        out.push(Span { text: rest, link: None, bold });
    } else {
        out.push(Span { text: string_of(part), link: None, bold });
    }
    assert(span_views(out@) =~= span_views(before) + part_spans(part@, bold));
}

/// The spans of a run of description text with its link target and
/// boldness.
pub fn spans_from_text(text: &str, link: Option<String>, bold: bool) -> (r: Vec<Span>)
    ensures
        span_views(r@) == text_spans(
            text@,
            match link {
                Some(l) => Some(l@),
                None => None,
            },
            bold,
        ),
{
    let cs = chars_of(text);
    match link {
        Some(l) => {
            let t = trim(cs.as_slice());
            let label = if web_scheme(t.as_slice()) {
                compact_url(string_of(t.as_slice()).as_str())
            } else {
                owned(text)
            };
            let mut out: Vec<Span> = Vec::new();
            out.push(Span { text: label, link: Some(l), bold });
            assert(span_views(out@) =~= text_spans(text@, Some(l@), bold));
            out
        },
        None => {
            let ps = parts(cs.as_slice());
            let mut out: Vec<Span> = Vec::new();
            let mut i: usize = 0;
            while i < ps.len()
                invariant
                    char_texts(ps@) == parts_of(text@),
                    i <= ps@.len(),
                    span_views(out@) == parts_spans(char_texts(ps@).take(i as int), bold),
                decreases ps@.len() - i,
            {
                assert(char_texts(ps@).take(i + 1).drop_last() =~= char_texts(ps@).take(i as int));
                assert(char_texts(ps@).take(i + 1).last() == ps@[i as int]@);
                push_part_spans(&mut out, ps[i].as_slice(), bold);
                i = i + 1;
            }
            assert(char_texts(ps@).take(i as int) =~= char_texts(ps@));
            out
        },
    }
}

/// The texts of the spans, one after the other.
pub open spec fn joined_text(spans: Seq<SpanView>) -> Seq<char>
    decreases spans.len(),
{
    if spans.len() == 0 {
        Seq::empty()
    } else {
        joined_text(spans.drop_last()) + spans.last().text
    }
}

/// The link targets of the spans, each once, in order of first appearance.
pub open spec fn distinct_links(spans: Seq<SpanView>) -> Seq<Seq<char>>
    decreases spans.len(),
{
    if spans.len() == 0 {
        Seq::empty()
    } else {
        let before = distinct_links(spans.drop_last());
        match spans.last().link {
            Some(u) => if before.contains(u) {
                before
            } else {
                before.push(u)
            },
            None => before,
        }
    }
}

/// Alt text keeps every link destination: the targets listed after the text
/// are exactly the link targets of the spans, each listed once.
pub proof fn lemma_accessible_keeps_links(spans: Seq<SpanView>)
    ensures
        forall|i: int|
            0 <= i < spans.len() && #[trigger] spans[i].link is Some ==> distinct_links(
                spans,
            ).contains(spans[i].link->0),
        forall|k: int|
            0 <= k < distinct_links(spans).len() ==> exists|i: int|
                0 <= i < spans.len() && spans[i].link == Some(#[trigger] distinct_links(spans)[k]),
        forall|a: int, b: int|
            0 <= a < b < distinct_links(spans).len() ==> distinct_links(spans)[a] != distinct_links(
                spans,
            )[b],
    decreases spans.len(),
{
    if spans.len() > 0 {
        let init = spans.drop_last();
        lemma_accessible_keeps_links(init);
        let before = distinct_links(init);
        let after = distinct_links(spans);
        assert forall|i: int| 0 <= i < spans.len() && #[trigger] spans[i].link is Some implies after.contains(
            spans[i].link->0,
        ) by {
            if i < spans.len() - 1 {
                assert(init[i] == spans[i]);
                let j = choose|j: int| 0 <= j < before.len() && before[j] == spans[i].link->0;
                assert(after[j] == before[j]);
            } else {
                if before.contains(spans[i].link->0) {
                } else {
                    assert(after[before.len() as int] == spans[i].link->0);
                }
            }
        }
        assert forall|k: int| 0 <= k < after.len() implies exists|i: int|
            0 <= i < spans.len() && spans[i].link == Some(#[trigger] after[k]) by {
            if k < before.len() {
                assert(after[k] == before[k]);
                let i = choose|i: int| 0 <= i < init.len() && init[i].link == Some(before[k]);
                assert(spans[i] == init[i]);
            } else {
                assert(spans[spans.len() - 1].link == Some(after[k]));
            }
        }
    }
}

/// One `Link:` line per target.
pub open spec fn link_lines(links: Seq<Seq<char>>) -> Seq<char>
    decreases links.len(),
{
    if links.len() == 0 {
        Seq::empty()
    } else {
        link_lines(links.drop_last()) + "\nLink: "@ + links.last()
    }
}

/// The accessible text of spans: their visible text, then every link target
/// that the labels stand for, so that no destination is lost.
pub open spec fn accessible_text(spans: Seq<SpanView>) -> Seq<char> {
    joined_text(spans) + link_lines(distinct_links(spans))
}

fn contains_string(v: &Vec<String>, s: &String) -> (r: bool)
    ensures
        r == string_texts(v@).contains(s@),
{
    let mut i: usize = 0;
    while i < v.len()
        invariant
            i <= v@.len(),
            forall|j: int| 0 <= j < i ==> v@[j]@ != s@,
        decreases v@.len() - i,
    {
        if crate::text::str_eq(v[i].as_str(), s.as_str()) {
            assert(string_texts(v@)[i as int] == s@);
            return true;
        }
        i = i + 1;
    }
    assert(!string_texts(v@).contains(s@)) by {
        if string_texts(v@).contains(s@) {
            let j = choose|j: int|
                0 <= j < v@.len() && #[trigger] string_texts(v@)[j] == s@;
            assert(v@[j]@ == s@);
        }
    }
    false
}

/// The text of spans followed by one line per distinct link target.
pub fn accessible(spans: &[Span]) -> (r: String)
    ensures
        r@ == accessible_text(span_views(spans@)),
{
    let ghost sv = span_views(spans@);
    let mut text = String::new();
    let mut links: Vec<String> = Vec::new();
    let mut i: usize = 0;
    while i < spans.len()
        invariant
            sv == span_views(spans@),
            i <= spans@.len(),
            text@ == joined_text(sv.take(i as int)),
            string_texts(links@) == distinct_links(sv.take(i as int)),
        decreases spans@.len() - i,
    {
        assert(sv.take(i + 1).drop_last() =~= sv.take(i as int));
        assert(sv.take(i + 1).last() == spans@[i as int]@);
        text.append(spans[i].text.as_str());
        match &spans[i].link {
            Some(u) => {
                if !contains_string(&links, u) {
                    let ghost before = links@;
                    links.push(u.clone());
                    assert(string_texts(links@) =~= string_texts(before).push(u@));
                }
            },
            None => {},
        }
        i = i + 1;
    }
    assert(sv.take(i as int) =~= sv);
    let ghost lv = string_texts(links@);
    let mut k: usize = 0;
    let ghost body = text@;
    while k < links.len()
        invariant
            lv == string_texts(links@),
            k <= links@.len(),
            text@ == body + link_lines(lv.take(k as int)),
        decreases links@.len() - k,
    {
        assert(lv.take(k + 1).drop_last() =~= lv.take(k as int));
        assert(lv.take(k + 1).last() == links@[k as int]@);
        text.append("\nLink: ");
        text.append(links[k].as_str());
        assert(text@ =~= body + link_lines(lv.take(k + 1)));
        k = k + 1;
    }
    assert(lv.take(k as int) =~= lv);
    text
}

/// The spans after one more character in the style of `style`: the last
/// span grows if it has the same link and boldness, otherwise a new span
/// starts.
pub open spec fn push_styled(spans: Seq<SpanView>, c: char, style: SpanView) -> Seq<SpanView> {
    if spans.len() > 0 && spans.last().bold == style.bold && spans.last().link == style.link {
        spans.update(
            spans.len() - 1,
            SpanView { text: spans.last().text.push(c), link: spans.last().link, bold: spans.last().bold },
        )
    } else {
        spans.push(SpanView { text: seq![c], link: style.link, bold: style.bold })
    }
}

/// Appends one character in the style of `style`.
pub fn push_char(spans: &mut Vec<Span>, c: char, style: &Span)
    ensures
        span_views(final(spans)@) == push_styled(span_views(old(spans)@), c, style@),
{
    let ghost before = span_views(spans@);
    let n = spans.len();
    if n > 0 && spans[n - 1].bold == style.bold && same_link(&spans[n - 1].link, &style.link) {
        let mut last = spans.pop().unwrap();
        string_push(&mut last.text, c);
        spans.push(last);
        assert(span_views(spans@) =~= push_styled(before, c, style@));
    } else {
        let mut text = String::new();
        string_push(&mut text, c);
        let link = match &style.link {
            Some(l) => Some(l.clone()),
            None => None,
        };
        spans.push(Span { text, link, bold: style.bold });
        assert(span_views(spans@) =~= push_styled(before, c, style@));
    }
}

fn same_link(a: &Option<String>, b: &Option<String>) -> (r: bool)
    ensures
        r == ((match a {
            Some(l) => Some(l@),
            None => None,
        }) == (match b {
            Some(l) => Some(l@),
            None => None,
        })),
{
    match (a, b) {
        (Some(x), Some(y)) => crate::text::str_eq(x.as_str(), y.as_str()),
        (None, None) => true,
        _ => false,
    }
}

/// The words and unfinished word after reading characters of one style.
pub open spec fn words_in_text(
    state: (Seq<Seq<SpanView>>, Seq<SpanView>),
    text: Seq<char>,
    style: SpanView,
) -> (Seq<Seq<SpanView>>, Seq<SpanView>)
    decreases text.len(),
{
    if text.len() == 0 {
        state
    } else {
        let (done, cur) = words_in_text(state, text.drop_last(), style);
        let c = text.last();
        if is_white_space(c) {
            if cur.len() > 0 {
                (done.push(cur), Seq::empty())
            } else {
                (done, cur)
            }
        } else {
            (done, push_styled(cur, c, style))
        }
    }
}

/// The words and unfinished word after reading a list of spans.
pub open spec fn words_in_spans(spans: Seq<SpanView>) -> (Seq<Seq<SpanView>>, Seq<SpanView>)
    decreases spans.len(),
{
    if spans.len() == 0 {
        (Seq::empty(), Seq::empty())
    } else {
        words_in_text(words_in_spans(spans.drop_last()), spans.last().text, spans.last())
    }
}

/// The words of styled text: maximal runs without white space, across span
/// boundaries, so punctuation stays with its word; each word keeps the
/// styles of its characters.
pub open spec fn styled_words(spans: Seq<SpanView>) -> Seq<Seq<SpanView>> {
    let (done, cur) = words_in_spans(spans);
    if cur.len() > 0 {
        done.push(cur)
    } else {
        done
    }
}

/// A text with its white space removed.
pub open spec fn without_ws(s: Seq<char>) -> Seq<char>
    decreases s.len(),
{
    if s.len() == 0 {
        Seq::empty()
    } else if is_white_space(s.last()) {
        without_ws(s.drop_last())
    } else {
        without_ws(s.drop_last()).push(s.last())
    }
}

/// The texts of words, one after the other.
pub open spec fn words_text(ws: Seq<Seq<SpanView>>) -> Seq<char>
    decreases ws.len(),
{
    if ws.len() == 0 {
        Seq::empty()
    } else {
        words_text(ws.drop_last()) + joined_text(ws.last())
    }
}

/// A word: some text, and no white space in it.
pub open spec fn is_word(w: Seq<SpanView>) -> bool {
    joined_text(w).len() > 0 && forall|i: int|
        0 <= i < joined_text(w).len() ==> !is_white_space(#[trigger] joined_text(w)[i])
}

proof fn lemma_without_ws_add(a: Seq<char>, b: Seq<char>)
    ensures
        without_ws(a + b) == without_ws(a) + without_ws(b),
    decreases b.len(),
{
    if b.len() == 0 {
        assert(a + b =~= a);
    } else {
        lemma_without_ws_add(a, b.drop_last());
        assert((a + b).drop_last() =~= a + b.drop_last());
        assert((a + b).last() == b.last());
    }
}

proof fn lemma_push_styled_text(spans: Seq<SpanView>, c: char, style: SpanView)
    ensures
        joined_text(push_styled(spans, c, style)) == joined_text(spans).push(c),
        push_styled(spans, c, style).len() > 0,
{
    let r = push_styled(spans, c, style);
    if spans.len() > 0 && spans.last().bold == style.bold && spans.last().link == style.link {
        assert(r.drop_last() =~= spans.drop_last());
        assert(joined_text(spans) == joined_text(spans.drop_last()) + spans.last().text);
        assert(joined_text(r) =~= joined_text(spans).push(c));
    } else {
        assert(r.drop_last() =~= spans);
        assert(joined_text(r) =~= joined_text(spans).push(c));
    }
}

/// The word-splitting state after some text: the finished words and the
/// current word, both made of the text's characters other than white space.
pub open spec fn words_state_ok(state: (Seq<Seq<SpanView>>, Seq<SpanView>)) -> bool {
    &&& forall|k: int| 0 <= k < state.0.len() ==> is_word(#[trigger] state.0[k])
    &&& (state.1.len() > 0 ==> is_word(state.1))
    &&& (state.1.len() == 0 ==> joined_text(state.1).len() == 0)
}

proof fn lemma_words_in_text(
    state: (Seq<Seq<SpanView>>, Seq<SpanView>),
    text: Seq<char>,
    style: SpanView,
)
    requires
        words_state_ok(state),
    ensures
        words_state_ok(words_in_text(state, text, style)),
        words_text(words_in_text(state, text, style).0) + joined_text(
            words_in_text(state, text, style).1,
        ) == words_text(state.0) + joined_text(state.1) + without_ws(text),
    decreases text.len(),
{
    if text.len() == 0 {
        assert(without_ws(text) =~= Seq::<char>::empty());
        assert(words_text(state.0) + joined_text(state.1) + without_ws(text) =~= words_text(state.0)
            + joined_text(state.1));
    } else {
        lemma_words_in_text(state, text.drop_last(), style);
        let (done, cur) = words_in_text(state, text.drop_last(), style);
        let c = text.last();
        let base = words_text(state.0) + joined_text(state.1);
        if is_white_space(c) {
            if cur.len() > 0 {
                let nd = done.push(cur);
                assert(nd.drop_last() =~= done);
                assert forall|k: int| 0 <= k < nd.len() implies is_word(#[trigger] nd[k]) by {
                    if k < done.len() {
                        assert(nd[k] == done[k]);
                    }
                }
                assert(joined_text(Seq::<SpanView>::empty()) =~= Seq::<char>::empty());
                assert(words_text(nd) + joined_text(Seq::<SpanView>::empty()) =~= words_text(done)
                    + joined_text(cur));
            }
        } else {
            lemma_push_styled_text(cur, c, style);
            let nc = push_styled(cur, c, style);
            assert forall|i: int| 0 <= i < joined_text(nc).len() implies !is_white_space(
                #[trigger] joined_text(nc)[i],
            ) by {
                if i < joined_text(cur).len() {
                    assert(joined_text(nc)[i] == joined_text(cur)[i]);
                } else {
                    assert(joined_text(nc)[i] == c);
                }
            }
            assert(words_text(done) + joined_text(nc) =~= (words_text(done) + joined_text(cur)).push(c));
            assert(base + without_ws(text) =~= (base + without_ws(text.drop_last())).push(c));
        }
    }
}

proof fn lemma_words_in_spans(spans: Seq<SpanView>)
    ensures
        words_state_ok(words_in_spans(spans)),
        words_text(words_in_spans(spans).0) + joined_text(words_in_spans(spans).1) == without_ws(
            joined_text(spans),
        ),
    decreases spans.len(),
{
    if spans.len() == 0 {
        assert(words_text(Seq::<Seq<SpanView>>::empty()) + joined_text(Seq::<SpanView>::empty())
            =~= without_ws(joined_text(spans)));
    } else {
        lemma_words_in_spans(spans.drop_last());
        let st = words_in_spans(spans.drop_last());
        lemma_words_in_text(st, spans.last().text, spans.last());
        lemma_without_ws_add(joined_text(spans.drop_last()), spans.last().text);
    }
}

/// Splitting styled text into words keeps every character that is not white
/// space, in order and in its style's span, and nothing else: the words'
/// texts, one after the other, are the text without its white space, and
/// every word is non-empty text without white space (so punctuation stays
/// with its word).
pub proof fn lemma_words_keep_text(spans: Seq<SpanView>)
    ensures
        words_text(styled_words(spans)) == without_ws(joined_text(spans)),
        forall|k: int| 0 <= k < styled_words(spans).len() ==> is_word(#[trigger] styled_words(spans)[k]),
{
    lemma_words_in_spans(spans);
    let (done, cur) = words_in_spans(spans);
    if cur.len() > 0 {
        let nd = done.push(cur);
        assert(nd.drop_last() =~= done);
        assert forall|k: int| 0 <= k < nd.len() implies is_word(#[trigger] nd[k]) by {
            if k < done.len() {
                assert(nd[k] == done[k]);
            }
        }
    } else {
        assert(words_text(done) + joined_text(cur) =~= words_text(done));
    }
}

/// The words of styled text, each a list of styled runs.
pub fn split_words(spans: &[Span]) -> (r: Vec<Vec<Span>>)
    ensures
        r@.map_values(|w: Vec<Span>| span_views(w@)) == styled_words(span_views(spans@)),
{
    let ghost sv = span_views(spans@);
    let mut done: Vec<Vec<Span>> = Vec::new();
    let mut cur: Vec<Span> = Vec::new();
    let mut i: usize = 0;
    while i < spans.len()
        invariant
            sv == span_views(spans@),
            i <= spans@.len(),
            words_in_spans(sv.take(i as int)) == (
                done@.map_values(|w: Vec<Span>| span_views(w@)),
                span_views(cur@),
            ),
        decreases spans@.len() - i,
    {
        assert(sv.take(i + 1).drop_last() =~= sv.take(i as int));
        assert(sv.take(i + 1).last() == spans@[i as int]@);
        let span = &spans[i];
        let cs = chars_of(span.text.as_str());
        let ghost start = words_in_spans(sv.take(i as int));
        let mut j: usize = 0;
        while j < cs.len()
            invariant
                cs@ == span.text@,
                j <= cs@.len(),
                words_in_text(start, cs@.take(j as int), span@) == (
                    done@.map_values(|w: Vec<Span>| span_views(w@)),
                    span_views(cur@),
                ),
            decreases cs@.len() - j,
        {
            let c = cs[j];
            assert(cs@.take(j + 1).drop_last() =~= cs@.take(j as int));
            assert(cs@.take(j + 1).last() == c);
            if is_whitespace(c) {
                if cur.len() > 0 {
                    let ghost before = done@;
                    done.push(cur);
                    assert(done@.map_values(|w: Vec<Span>| span_views(w@)) =~= before.map_values(
                        |w: Vec<Span>| span_views(w@),
                    ).push(span_views(done@.last()@)));
                    cur = Vec::new();
                    assert(span_views(cur@) =~= Seq::<SpanView>::empty());
                }
            } else {
                push_char(&mut cur, c, span);
            }
            j = j + 1;
        }
        assert(cs@.take(j as int) =~= cs@);
        i = i + 1;
    }
    assert(sv.take(i as int) =~= sv);
    if cur.len() > 0 {
        let ghost before = done@;
        done.push(cur);
        assert(done@.map_values(|w: Vec<Span>| span_views(w@)) =~= before.map_values(
            |w: Vec<Span>| span_views(w@),
        ).push(span_views(done@.last()@)));
    }
    done
}

/// An annotation of a piece of text that `html2text` produced.
pub enum Mark {
    /// A link to the target.
    Link(String),
    /// Strong text.
    Strong,
    /// Emphasised text.
    Emphasis,
    /// Any other annotation.
    Other,
}

/// An annotation as plain values.
pub enum MarkView {
    Link(Seq<char>),
    Strong,
    Emphasis,
    Other,
}

/// A piece of text of a rendered line with its annotations.
pub struct Tagged {
    pub text: String,
    pub marks: Vec<Mark>,
}

/// A piece of a rendered line as plain values.
pub struct TaggedView {
    pub text: Seq<char>,
    pub marks: Seq<MarkView>,
}

/// The view of an annotation.
pub open spec fn mark_view(m: Mark) -> MarkView {
    match m {
        Mark::Link(u) => MarkView::Link(u@),
        Mark::Strong => MarkView::Strong,
        Mark::Emphasis => MarkView::Emphasis,
        Mark::Other => MarkView::Other,
    }
}

/// The view of a piece of a rendered line.
pub open spec fn tagged_view(t: Tagged) -> TaggedView {
    TaggedView { text: t.text@, marks: t.marks@.map_values(|m: Mark| mark_view(m)) }
}

/// The views of the pieces of a rendered line.
pub open spec fn line_view(l: Seq<Tagged>) -> Seq<TaggedView> {
    l.map_values(|t: Tagged| tagged_view(t))
}

/// The views of rendered lines.
pub open spec fn lines_view(ls: Seq<Vec<Tagged>>) -> Seq<Seq<TaggedView>> {
    ls.map_values(|l: Vec<Tagged>| line_view(l@))
}

/// The lines that `html2text` renders from HTML with its rich decorator at a
/// width of 100000 columns, or `None` when it reports an error.
pub uninterp spec fn html_text_lines(html: Seq<char>) -> Option<Seq<Seq<TaggedView>>>;

/// `html2text::from_read_rich` at a width of 100000 columns, with each
/// line's tagged strings and their annotations read off. The contract claims
/// only that the lines are a function of the HTML. HTML with a `<table`
/// start tag is left out: the panicking and unwrapping arms of `html2text`'s
/// source (`lib.rs` 543, 622, 688, 1023, 1309, 2754, 2936, 2940, 2963 and
/// `render/text_renderer.rs` 1978-1990) all lie in its table layout, and
/// without a `table` element the HTML5 tree builder (`html5ever`) creates no
/// table, body, row or cell (stray `tbody`, `tr`, `td` tags are ignored in
/// body content). The remaining `expect`s check that the renderer's own
/// push/pop stacks and `markup5ever_rcdom`'s tree stay balanced, which holds
/// for every input; that is read from the source, not proved here.
#[verifier::external_body]
fn rich_lines(html: &str) -> (r: Option<Vec<Vec<Tagged>>>)
    requires
        !mentions_table(html@),
    ensures
        match r {
            Some(v) => html_text_lines(html@) == Some(lines_view(v@)),
            None => html_text_lines(html@) is None,
        },
{
    let lines = html2text::from_read_rich(html.as_bytes(), 100_000).ok()?;
    Some(lines.iter().map(|line| line.tagged_strings().map(|t| Tagged {
        text: t.s.clone(),
        marks: t.tag.iter().map(|a| match a {
            RichAnnotation::Link(u) => Mark::Link(u.clone()),
            RichAnnotation::Strong => Mark::Strong,
            RichAnnotation::Emphasis => Mark::Emphasis,
            _ => Mark::Other,
        }).collect(),
    }).collect()).collect())
}

/// The first link target among annotations.
pub open spec fn first_link(marks: Seq<MarkView>) -> Option<Seq<char>>
    decreases marks.len(),
{
    if marks.len() == 0 {
        None
    } else {
        match marks[0] {
            MarkView::Link(u) => Some(u),
            _ => first_link(marks.drop_first()),
        }
    }
}

/// Whether the annotations make text strong or emphasised (drawn bold).
pub open spec fn is_emphasised(marks: Seq<MarkView>) -> bool {
    exists|i: int|
        0 <= i < marks.len() && (#[trigger] marks[i] matches MarkView::Strong || marks[i] matches MarkView::Emphasis)
}

/// The spans of a rendered line.
pub open spec fn line_spans(line: Seq<TaggedView>) -> Seq<SpanView>
    decreases line.len(),
{
    if line.len() == 0 {
        Seq::empty()
    } else {
        line_spans(line.drop_last()) + text_spans(
            line.last().text,
            first_link(line.last().marks),
            is_emphasised(line.last().marks),
        )
    }
}

/// A rendered line with nothing but white space.
pub open spec fn is_blank_line(line: Seq<TaggedView>) -> bool {
    forall|i: int| 0 <= i < line.len() ==> crate::text::is_blank(#[trigger] line[i].text)
}

/// The single space that joins two lines of one paragraph.
pub open spec fn space_span() -> SpanView {
    SpanView { text: " "@, link: None, bold: false }
}

/// The finished paragraphs and the current one after some rendered lines:
/// blank lines end a paragraph, other lines join the current one.
pub open spec fn paragraphs_acc(ls: Seq<Seq<TaggedView>>) -> (Seq<Seq<SpanView>>, Seq<SpanView>)
    decreases ls.len(),
{
    if ls.len() == 0 {
        (Seq::empty(), Seq::empty())
    } else {
        let (done, cur) = paragraphs_acc(ls.drop_last());
        let line = ls.last();
        if is_blank_line(line) {
            if cur.len() > 0 {
                (done.push(cur), Seq::empty())
            } else {
                (done, cur)
            }
        } else {
            (
                done,
                (if cur.len() > 0 {
                    cur.push(space_span())
                } else {
                    cur
                }) + line_spans(line),
            )
        }
    }
}

/// The non-empty paragraphs of rendered lines.
pub open spec fn paragraphs_of(ls: Seq<Seq<TaggedView>>) -> Seq<Seq<SpanView>> {
    let (done, cur) = paragraphs_acc(ls);
    if cur.len() > 0 {
        done.push(cur)
    } else {
        done
    }
}

/// A description as the HTML renderer is given it: Windows line ends made
/// plain, and blank-line paragraph breaks of plain text made HTML breaks.
pub open spec fn prepared_html(html: Seq<char>) -> Seq<char> {
    crate::text::replace_all(
        crate::text::replace_all(html, "\r\n"@, "\n"@),
        "\n\n"@,
        "<br><br>"@,
    )
}

/// The paragraphs of a description, each a list of styled spans.
pub open spec fn description_paragraphs(html: Seq<char>) -> Result<Seq<Seq<SpanView>>, crate::error::BotError> {
    if mentions_table(prepared_html(html)) {
        Err(crate::error::BotError::TableInDescription)
    } else {
        match html_text_lines(prepared_html(html)) {
            None => Err(crate::error::BotError::DescriptionUnreadable),
            Some(ls) => Ok(paragraphs_of(ls)),
        }
    }
}

/// Whether a `<table` start tag (in any letter case) begins at position `i`.
pub open spec fn table_tag_at(s: Seq<char>, i: int) -> bool {
    &&& 0 <= i && i + 6 <= s.len()
    &&& s[i] == '<'
    &&& (s[i + 1] == 't' || s[i + 1] == 'T')
    &&& (s[i + 2] == 'a' || s[i + 2] == 'A')
    &&& (s[i + 3] == 'b' || s[i + 3] == 'B')
    &&& (s[i + 4] == 'l' || s[i + 4] == 'L')
    &&& (s[i + 5] == 'e' || s[i + 5] == 'E')
}

/// Whether HTML holds a `<table` start tag. Without one, the HTML5 tree
/// builder creates no table, table body, row or cell, so `html2text`'s table
/// layout (whose unchecked internal invariants could panic) is never entered.
pub open spec fn mentions_table(s: Seq<char>) -> bool {
    exists|i: int| table_tag_at(s, i)
}

fn is_table_tag_at(s: &[char], i: usize) -> (r: bool)
    requires
        i + 6 <= s@.len(),
    ensures
        r == table_tag_at(s@, i as int),
{
    s[i] == '<' && (s[i + 1] == 't' || s[i + 1] == 'T') && (s[i + 2] == 'a' || s[i + 2] == 'A')
        && (s[i + 3] == 'b' || s[i + 3] == 'B') && (s[i + 4] == 'l' || s[i + 4] == 'L') && (s[i
        + 5] == 'e' || s[i + 5] == 'E')
}

/// Whether HTML holds a `<table` start tag.
pub fn has_table_tag(s: &[char]) -> (r: bool)
    ensures
        r == mentions_table(s@),
{
    if s.len() < 6 {
        return false;
    }
    let mut i: usize = 0;
    while i <= s.len() - 6
        invariant
            s@.len() >= 6,
            forall|j: int| 0 <= j < i ==> !table_tag_at(s@, j),
        decreases s@.len() - i,
    {
        if is_table_tag_at(s, i) {
            return true;
        }
        i = i + 1;
    }
    assert forall|j: int| !table_tag_at(s@, j) by {
        if 0 <= j < i {
        }
    }
    false
}

fn first_link_of(marks: &Vec<Mark>) -> (r: Option<String>)
    ensures
        (match r {
            Some(u) => Some(u@),
            None => None,
        }) == first_link(marks@.map_values(|m: Mark| mark_view(m))),
{
    let ghost mv = marks@.map_values(|m: Mark| mark_view(m));
    let mut i: usize = 0;
    assert(mv.skip(0) =~= mv);
    while i < marks.len()
        invariant
            mv == marks@.map_values(|m: Mark| mark_view(m)),
            i <= marks@.len(),
            first_link(mv) == first_link(mv.skip(i as int)),
        decreases marks@.len() - i,
    {
        assert(mv.skip(i as int).drop_first() =~= mv.skip(i + 1));
        assert(mv.skip(i as int)[0] == mark_view(marks@[i as int]));
        match &marks[i] {
            Mark::Link(u) => return Some(u.clone()),
            _ => {},
        }
        i = i + 1;
    }
    None
}

fn emphasised(marks: &Vec<Mark>) -> (r: bool)
    ensures
        r == is_emphasised(marks@.map_values(|m: Mark| mark_view(m))),
{
    let ghost mv = marks@.map_values(|m: Mark| mark_view(m));
    let mut i: usize = 0;
    while i < marks.len()
        invariant
            mv == marks@.map_values(|m: Mark| mark_view(m)),
            i <= marks@.len(),
            forall|j: int| 0 <= j < i ==> !(#[trigger] mv[j] matches MarkView::Strong || mv[j] matches MarkView::Emphasis),
        decreases marks@.len() - i,
    {
        assert(mv[i as int] == mark_view(marks@[i as int]));
        match &marks[i] {
            Mark::Strong => return true,
            Mark::Emphasis => return true,
            _ => {},
        }
        i = i + 1;
    }
    false
}

fn blank_line(line: &Vec<Tagged>) -> (r: bool)
    ensures
        r == is_blank_line(line_view(line@)),
{
    let ghost lv = line_view(line@);
    let mut i: usize = 0;
    while i < line.len()
        invariant
            lv == line_view(line@),
            i <= line@.len(),
            forall|j: int| 0 <= j < i ==> crate::text::is_blank(#[trigger] lv[j].text),
        decreases line@.len() - i,
    {
        assert(lv[i as int].text == line@[i as int].text@);
        if !crate::text::blank(line[i].text.as_str()) {
            return false;
        }
        i = i + 1;
    }
    true
}

fn append_spans(out: &mut Vec<Span>, more: Vec<Span>)
    ensures
        span_views(final(out)@) == span_views(old(out)@) + span_views(more@),
{
    let ghost start = span_views(out@);
    let mut i: usize = 0;
    while i < more.len()
        invariant
            i <= more@.len(),
            span_views(out@) == start + span_views(more@).take(i as int),
        decreases more@.len() - i,
    {
        let ghost before = out@;
        out.push(more[i].duplicate());
        assert(span_views(out@) =~= span_views(before).push(more@[i as int]@));
        assert(span_views(more@).take(i + 1) =~= span_views(more@).take(i as int).push(
            more@[i as int]@,
        ));
        i = i + 1;
    }
    assert(span_views(more@).take(i as int) =~= span_views(more@));
}

fn spans_of_line(line: &Vec<Tagged>, out: &mut Vec<Span>)
    ensures
        span_views(final(out)@) == span_views(old(out)@) + line_spans(line_view(line@)),
{
    let ghost lv = line_view(line@);
    let ghost start = span_views(out@);
    let mut i: usize = 0;
    while i < line.len()
        invariant
            lv == line_view(line@),
            i <= line@.len(),
            span_views(out@) == start + line_spans(lv.take(i as int)),
        decreases line@.len() - i,
    {
        assert(lv.take(i + 1).drop_last() =~= lv.take(i as int));
        assert(lv.take(i + 1).last() == tagged_view(line@[i as int]));
        let t = &line[i];
        let link = first_link_of(&t.marks);
        let bold = emphasised(&t.marks);
        let more = spans_from_text(t.text.as_str(), link, bold);
        let ghost before = span_views(out@);
        append_spans(out, more);
        assert(span_views(out@) =~= start + line_spans(lv.take(i + 1)));
        i = i + 1;
    }
    assert(lv.take(i as int) =~= lv);
}

/// The paragraphs of a dataset description (HTML mixed with plain-text
/// paragraphs), each a list of styled spans.
pub fn description(html: &str) -> (r: Result<Vec<Vec<Span>>, crate::error::BotError>)
    ensures
        match description_paragraphs(html@) {
            Ok(ps) => r matches Ok(v) && v@.map_values(|p: Vec<Span>| span_views(p@)) == ps,
            Err(e) => r == Err::<Vec<Vec<Span>>, crate::error::BotError>(e),
        },
{
    let cs = chars_of(html);
    let crlf = chars_of("\r\n");
    let lf = chars_of("\n");
    let lflf = chars_of("\n\n");
    let brbr = chars_of("<br><br>");
    proof {
        reveal_strlit("\r\n");
        reveal_strlit("\n\n");
    }
    let step = crate::text::replace(cs.as_slice(), crlf.as_slice(), lf.as_slice());
    let prepared = crate::text::replace(step.as_slice(), lflf.as_slice(), brbr.as_slice());
    if has_table_tag(prepared.as_slice()) {
        return Err(crate::error::BotError::TableInDescription);
    }
    let text = string_of(prepared.as_slice());
    match rich_lines(text.as_str()) {
        Some(ls) => Ok(paragraphs(&ls)),
        None => Err(crate::error::BotError::DescriptionUnreadable),
    }
}

/// The paragraphs of lines rendered from HTML: blank lines end a paragraph,
/// other lines join it with a space; each paragraph is a list of styled
/// spans.
pub fn paragraphs(ls: &Vec<Vec<Tagged>>) -> (r: Vec<Vec<Span>>)
    ensures
        r@.map_values(|p: Vec<Span>| span_views(p@)) == paragraphs_of(lines_view(ls@)),
{
    let ghost lv = lines_view(ls@);
    let mut done: Vec<Vec<Span>> = Vec::new();
    let mut cur: Vec<Span> = Vec::new();
    let mut i: usize = 0;
    while i < ls.len()
        invariant
            lv == lines_view(ls@),
            i <= ls@.len(),
            paragraphs_acc(lv.take(i as int)) == (
                done@.map_values(|p: Vec<Span>| span_views(p@)),
                span_views(cur@),
            ),
        decreases ls@.len() - i,
    {
        assert(lv.take(i + 1).drop_last() =~= lv.take(i as int));
        assert(lv.take(i + 1).last() == line_view(ls@[i as int]@));
        if blank_line(&ls[i]) {
            if cur.len() > 0 {
                let ghost before = done@;
                done.push(cur);
                assert(done@.map_values(|p: Vec<Span>| span_views(p@)) =~= before.map_values(
                    |p: Vec<Span>| span_views(p@),
                ).push(span_views(done@.last()@)));
                cur = Vec::new();
                assert(span_views(cur@) =~= Seq::<SpanView>::empty());
            }
        } else {
            if cur.len() > 0 {
                let ghost before = span_views(cur@);
                cur.push(Span::text(" "));
                assert(span_views(cur@) =~= before.push(space_span()));
            }
            spans_of_line(&ls[i], &mut cur);
        }
        i = i + 1;
    }
    assert(lv.take(i as int) =~= lv);
    if cur.len() > 0 {
        let ghost before = done@;
        done.push(cur);
        assert(done@.map_values(|p: Vec<Span>| span_views(p@)) =~= before.map_values(
            |p: Vec<Span>| span_views(p@),
        ).push(span_views(done@.last()@)));
    }
    done
}

/// The views of the rows of a card.
pub open spec fn rows_view(rows: Seq<Vec<Span>>) -> Seq<Seq<SpanView>> {
    rows.map_values(|r: Vec<Span>| span_views(r@))
}

/// The spans of rows of text, each row followed by a space.
pub open spec fn rows_spans(rows: Seq<Seq<SpanView>>) -> Seq<SpanView>
    decreases rows.len(),
{
    if rows.len() == 0 {
        Seq::empty()
    } else {
        rows_spans(rows.drop_last()) + rows.last().push(space_span())
    }
}

/// The alt text of rows of a paragraph that was split across cards: the
/// rows' text, each row followed by a space, then the link targets.
pub fn rows_alt(rows: &Vec<Vec<Span>>) -> (r: String)
    ensures
        r@ == accessible_text(rows_spans(rows_view(rows@))),
{
    let ghost rv = rows_view(rows@);
    let mut spans: Vec<Span> = Vec::new();
    let mut i: usize = 0;
    while i < rows.len()
        invariant
            rv == rows_view(rows@),
            i <= rows@.len(),
            span_views(spans@) == rows_spans(rv.take(i as int)),
        decreases rows@.len() - i,
    {
        assert(rv.take(i + 1).drop_last() =~= rv.take(i as int));
        assert(rv.take(i + 1).last() == span_views(rows@[i as int]@));
        let row = &rows[i];
        let ghost start = span_views(spans@);
        let mut j: usize = 0;
        while j < row.len()
            invariant
                row@ == rows@[i as int]@,
                j <= row@.len(),
                span_views(spans@) == start + span_views(row@).take(j as int),
            decreases row@.len() - j,
        {
            let ghost before = spans@;
            spans.push(row[j].duplicate());
            assert(span_views(spans@) =~= span_views(before).push(row@[j as int]@));
            assert(span_views(row@).take(j + 1) =~= span_views(row@).take(j as int).push(
                row@[j as int]@,
            ));
            j = j + 1;
        }
        assert(span_views(row@).take(j as int) =~= span_views(row@));
        let ghost mid = span_views(spans@);
        spans.push(Span::text(" "));
        assert(span_views(spans@) =~= mid.push(space_span()));
        assert(span_views(spans@) =~= rows_spans(rv.take(i + 1)));
        i = i + 1;
    }
    assert(rv.take(i as int) =~= rv);
    accessible(spans.as_slice())
}

proof fn lemma_rows_spans_hold_rows(rows: Seq<Seq<SpanView>>, r: int, k: int)
    requires
        0 <= r < rows.len(),
        0 <= k < rows[r].len(),
    ensures
        exists|i: int| 0 <= i < rows_spans(rows).len() && rows_spans(rows)[i] == rows[r][k],
    decreases rows.len(),
{
    let init = rows.drop_last();
    if r < rows.len() - 1 {
        lemma_rows_spans_hold_rows(init, r, k);
        let i = choose|i: int| 0 <= i < rows_spans(init).len() && rows_spans(init)[i] == init[r][k];
        assert(rows_spans(rows)[i] == rows_spans(init)[i]);
    } else {
        let i = rows_spans(init).len() + k;
        assert(rows_spans(rows)[i] == rows.last()[k]);
    }
}

/// A paragraph split across cards keeps its link destinations: every link
/// target of a span in the rows is listed in the rows' alt text.
pub proof fn lemma_split_rows_keep_links(rows: Seq<Seq<SpanView>>, r: int, k: int)
    requires
        0 <= r < rows.len(),
        0 <= k < rows[r].len(),
        rows[r][k].link is Some,
    ensures
        distinct_links(rows_spans(rows)).contains(rows[r][k].link->0),
{
    lemma_rows_spans_hold_rows(rows, r, k);
    lemma_accessible_keeps_links(rows_spans(rows));
    let i = choose|i: int| 0 <= i < rows_spans(rows).len() && rows_spans(rows)[i] == rows[r][k];
    assert(rows_spans(rows)[i].link is Some);
}

/// The alt text of the metadata panel: one `label: value` line per field.
pub open spec fn metadata_alt_text(d: DatasetView, date: Seq<char>) -> Seq<char> {
    "Data Owner: "@ + d.data_owner + "\nCategory: "@ + d.category + "\nDate Created: "@ + date
        + "\nDataset Owner: "@ + d.dataset_owner
}

/// The alt text of a dataset's metadata panel.
pub fn metadata_alt(d: &Dataset) -> (r: Result<String, BotError>)
    ensures
        match display_date(d@.created_at) {
            Some(date) => r matches Ok(s) && s@ == metadata_alt_text(d@, date),
            None => r == Err::<String, BotError>(BotError::InvalidTimestamp),
        },
{
    let date = d.date()?;
    let mut s = owned("Data Owner: ");
    s.append(d.data_owner.as_str());
    s.append("\nCategory: ");
    s.append(d.category.as_str());
    s.append("\nDate Created: ");
    s.append(date.as_str());
    s.append("\nDataset Owner: ");
    s.append(d.dataset_owner.as_str());
    Ok(s)
}

/// The most cards a description may fill.
pub const MAX_CARDS: usize = 4;

/// A description may fill at most four cards; more fail visibly rather than
/// being cut.
pub fn check_card_count(cards: usize) -> (r: Result<(), BotError>)
    ensures
        cards <= 4 ==> r == Ok::<(), BotError>(()),
        cards > 4 ==> r == Err::<(), BotError>(BotError::TooManyCards),
{
    if cards <= MAX_CARDS {
        Ok(())
    } else {
        Err(BotError::TooManyCards)
    }
}

/// A block taller than a card may be split across cards only if it is a
/// paragraph; the metadata panel must fit on one card.
pub fn check_splittable(panel: bool) -> (r: Result<(), BotError>)
    ensures
        panel ==> r == Err::<(), BotError>(BotError::MetadataTooLarge),
        !panel ==> r == Ok::<(), BotError>(()),
{
    if panel {
        Err(BotError::MetadataTooLarge)
    } else {
        Ok(())
    }
}

/// A finished description card: the PNG file, its alt text, and its height.
pub struct Card {
    pub png: Vec<u8>,
    pub alt: String,
    pub height: u32,
}

/// The alt texts of the blocks of a card, each followed by a blank line.
pub open spec fn blocks_alt(alts: Seq<Seq<char>>) -> Seq<char>
    decreases alts.len(),
{
    if alts.len() == 0 {
        Seq::empty()
    } else {
        blocks_alt(alts.drop_last()) + alts.last() + "\n\n"@
    }
}

/// The length of the alt texts of blocks, each followed by a blank line.
pub open spec fn alts_size(alts: Seq<Seq<char>>) -> int
    decreases alts.len(),
{
    if alts.len() == 0 {
        0
    } else {
        alts_size(alts.drop_last()) + alts.last().len() + 2
    }
}

/// A card's alt text holds the alt text of every block, each once and in
/// order, each followed by a blank line ("\n\n"), and nothing else: block
/// `k` sits right after the texts of the blocks before it.
pub proof fn lemma_blocks_alt_layout(alts: Seq<Seq<char>>)
    ensures
        blocks_alt(alts).len() == alts_size(alts),
        forall|k: int|
            0 <= k < alts.len() ==> {
                let at = alts_size(#[trigger] alts.take(k));
                &&& blocks_alt(alts).subrange(at, at + alts[k].len()) == alts[k]
                &&& blocks_alt(alts).subrange(at + alts[k].len(), at + alts[k].len() + 2) == "\n\n"@
            },
    decreases alts.len(),
{
    reveal_strlit("\n\n");
    if alts.len() > 0 {
        let init = alts.drop_last();
        lemma_blocks_alt_layout(init);
        let whole = blocks_alt(alts);
        let front = blocks_alt(init);
        assert(whole == front + alts.last() + "\n\n"@);
        assert forall|k: int| 0 <= k < alts.len() implies {
            let at = alts_size(#[trigger] alts.take(k));
            &&& blocks_alt(alts).subrange(at, at + alts[k].len()) == alts[k]
            &&& blocks_alt(alts).subrange(at + alts[k].len(), at + alts[k].len() + 2) == "\n\n"@
        } by {
            if k < alts.len() - 1 {
                assert(alts.take(k) =~= init.take(k));
                assert(init[k] == alts[k]);
                let at = alts_size(init.take(k));
                lemma_alts_size_prefix(init, k);
                assert(front.len() == alts_size(init));
                assert(whole.subrange(at, at + alts[k].len()) =~= front.subrange(at, at + alts[k].len()));
                assert(whole.subrange(at + alts[k].len(), at + alts[k].len() + 2) =~= front.subrange(
                    at + alts[k].len(),
                    at + alts[k].len() + 2,
                ));
            } else {
                assert(alts.take(k) =~= init);
                let fl = front.len() as int;
                let kl = alts[k].len() as int;
                assert(whole.subrange(fl, fl + kl) =~= alts[k]);
                assert(whole.subrange(fl + kl, fl + kl + 2) =~= "\n\n"@);
            }
        }
    }
}

proof fn lemma_alts_size_nonneg(alts: Seq<Seq<char>>)
    ensures
        alts_size(alts) >= 0,
    decreases alts.len(),
{
    if alts.len() > 0 {
        lemma_alts_size_nonneg(alts.drop_last());
    }
}

proof fn lemma_alts_size_prefix(alts: Seq<Seq<char>>, k: int)
    requires
        0 <= k < alts.len(),
    ensures
        0 <= alts_size(alts.take(k)),
        alts_size(alts.take(k)) + alts[k].len() + 2 <= alts_size(alts),
    decreases alts.len(),
{
    lemma_alts_size_nonneg(alts.take(k));
    let init = alts.drop_last();
    if k < alts.len() - 1 {
        lemma_alts_size_prefix(init, k);
        assert(alts.take(k) =~= init.take(k));
    } else {
        assert(alts.take(k) =~= init);
    }
}

/// Finishes a card from its drawn canvas and the alt texts of its blocks:
/// the alt text is the blocks' texts, separated by blank lines, trimmed.
pub fn finish_card(canvas: Canvas, alts: &Vec<String>) -> (r: Result<Card, BotError>)
    ensures
        match card_png(canvas.pixels@, canvas.height as int) {
            Err(e) => r == Err::<Card, BotError>(e),
            Ok(b) => r matches Ok(c) && c.png@ == b && c.alt@ == trim_ws(
                blocks_alt(string_texts(alts@)),
            ) && c.height == canvas.height,
        },
{
    let ghost av = string_texts(alts@);
    let mut alt = String::new();
    let mut i: usize = 0;
    while i < alts.len()
        invariant
            av == string_texts(alts@),
            i <= alts@.len(),
            alt@ == blocks_alt(av.take(i as int)),
        decreases alts@.len() - i,
    {
        assert(av.take(i + 1).drop_last() =~= av.take(i as int));
        assert(av.take(i + 1).last() == alts@[i as int]@);
        alt.append(alts[i].as_str());
        alt.append("\n\n");
        i = i + 1;
    }
    assert(av.take(i as int) =~= av);
    let height = canvas.height;
    let png = canvas.png()?;
    let cs = chars_of(alt.as_str());
    let trimmed = trim(cs.as_slice());
    Ok(Card { png, alt: string_of(trimmed.as_slice()), height })
}

/// The extended grapheme clusters of a text, as `unicode-segmentation`
/// splits it.
pub uninterp spec fn graphemes_of(s: Seq<char>) -> Seq<Seq<char>>;

/// `unicode-segmentation`'s `graphemes(true).count()`. The contract claims
/// only that the count is the number of clusters the text splits into.
#[verifier::external_body]
fn grapheme_count(s: &str) -> (n: usize)
    ensures
        n == graphemes_of(s@).len(),
{
    s.graphemes(true).count()
}

/// The texts of the clusters, one after the other.
pub open spec fn concat(parts: Seq<Seq<char>>) -> Seq<char>
    decreases parts.len(),
{
    if parts.len() == 0 {
        Seq::empty()
    } else {
        concat(parts.drop_last()) + parts.last()
    }
}

/// `unicode-segmentation`'s `graphemes(true).take(n)` collected into a
/// `String`, for `n` at most the number of clusters. The contract claims only
/// that the result is the first `n` clusters of the text.
#[verifier::external_body]
fn grapheme_prefix(s: &str, n: usize) -> (r: String)
    requires
        n <= graphemes_of(s@).len(),
    ensures
        r@ == concat(graphemes_of(s@).take(n as int)),
{
    s.graphemes(true).take(n).collect()
}

/// The post text of a dataset when all metadata fits.
pub open spec fn full_post(d: DatasetView, date: Seq<char>) -> Seq<char> {
    "New Chicago dataset\n"@ + d.name + "\n\nData Owner: "@ + d.data_owner + "\nCategory: "@
        + d.category + "\nDate Created: "@ + date + "\nDataset Owner: "@ + d.dataset_owner
        + "\n\n"@ + dataset_url(d.id)
}

/// The ending of a post that points to the image for the details.
pub open spec fn short_tail(d: DatasetView) -> Seq<char> {
    "\n\nDetails in image.\n"@ + dataset_url(d.id)
}

/// Whether a text fits a Bluesky post: at most 300 graphemes and 3000 UTF-8
/// bytes.
pub open spec fn fits_post(text: Seq<char>) -> bool {
    graphemes_of(text).len() <= 300 && encode_utf8(text).len() <= 3000
}

/// How many graphemes of the title fit beside the opening line, the ending
/// and an ellipsis.
pub open spec fn title_budget(d: DatasetView) -> int {
    300 - graphemes_of("New Chicago dataset\n"@).len() - graphemes_of(short_tail(d)).len() - 1
}

/// How many graphemes of the title a shortened post keeps: the budget, or the
/// whole title if it is shorter.
pub open spec fn title_kept(d: DatasetView) -> int {
    if title_budget(d) < graphemes_of(d.name).len() {
        title_budget(d)
    } else {
        graphemes_of(d.name).len() as int
    }
}

/// The shortened post: the opening line, as much of the title as fits, an
/// ellipsis, and the ending.
pub open spec fn short_post(d: DatasetView) -> Seq<char> {
    "New Chicago dataset\n"@ + concat(graphemes_of(d.name).take(title_kept(d))) + "…"@
        + short_tail(d)
}

/// The post text of a dataset: all metadata and the link if it fits a post,
/// otherwise the title cut to fit, a pointer to the image, and the link; a
/// post that still does not fit is refused.
pub open spec fn post_of(d: DatasetView) -> Result<Seq<char>, BotError> {
    match display_date(d.created_at) {
        None => Err(BotError::InvalidTimestamp),
        Some(date) => if fits_post(full_post(d, date)) {
            Ok(full_post(d, date))
        } else if title_budget(d) < 0 {
            Err(BotError::PostTooLong)
        } else if fits_post(short_post(d)) {
            Ok(short_post(d))
        } else {
            Err(BotError::PostTooLong)
        },
    }
}

/// Every post fits Bluesky's limits (300 graphemes, 3000 UTF-8 bytes), opens
/// with "New Chicago dataset" and ends with the dataset's canonical link,
/// whether it carries all metadata or points to the image.
pub proof fn lemma_post_ends_with_link(d: DatasetView)
    ensures
        post_of(d) matches Ok(t) ==> {
            &&& fits_post(t)
            &&& starts_with(t, "New Chicago dataset\n"@)
            &&& ends_with(t, dataset_url(d.id))
        },
{
    let head = "New Chicago dataset\n"@;
    let url = dataset_url(d.id);
    if let Ok(t) = post_of(d) {
        let date = display_date(d.created_at)->0;
        if t == full_post(d, date) {
            let rest = d.name + "\n\nData Owner: "@ + d.data_owner + "\nCategory: "@ + d.category
                + "\nDate Created: "@ + date + "\nDataset Owner: "@ + d.dataset_owner + "\n\n"@;
            assert(t =~= head + rest + url);
            assert((head + rest + url).take(head.len() as int) =~= head);
            assert((head + rest + url).skip((head + rest + url).len() - url.len()) =~= url);
        } else {
            let rest = concat(graphemes_of(d.name).take(title_kept(d))) + "…"@
                + "\n\nDetails in image.\n"@;
            assert(t =~= head + rest + url);
            assert((head + rest + url).take(head.len() as int) =~= head);
            assert((head + rest + url).skip((head + rest + url).len() - url.len()) =~= url);
        }
    }
}

/// The post text of a dataset.
pub fn post_text(d: &Dataset) -> (r: Result<String, BotError>)
    ensures
        match post_of(d@) {
            Ok(t) => r matches Ok(s) && s@ == t,
            Err(e) => r == Err::<String, BotError>(e),
        },
{
    let date = d.date()?;
    let url = d.url();
    let mut full = owned("New Chicago dataset\n");
    full.append(d.name.as_str());
    full.append("\n\nData Owner: ");
    full.append(d.data_owner.as_str());
    full.append("\nCategory: ");
    full.append(d.category.as_str());
    full.append("\nDate Created: ");
    full.append(date.as_str());
    full.append("\nDataset Owner: ");
    full.append(d.dataset_owner.as_str());
    full.append("\n\n");
    full.append(url.as_str());
    assert(full@ =~= full_post(d@, date@));
    if grapheme_count(full.as_str()) <= 300 && full.as_str().as_bytes().len() <= 3000 {
        return Ok(full);
    }
    let mut short = owned("\n\nDetails in image.\n");
    short.append(url.as_str());
    assert(short@ =~= short_tail(d@));
    let head = "New Chicago dataset\n";
    let head_n = grapheme_count(head);
    let tail_n = grapheme_count(short.as_str());
    if head_n > 299 || tail_n > 299 - head_n {
        return Err(BotError::PostTooLong);
    }
    let budget = 299 - head_n - tail_n;
    let name_n = grapheme_count(d.name.as_str());
    let kept = if budget < name_n {
        budget
    } else {
        name_n
    };
    let title = grapheme_prefix(d.name.as_str(), kept);
    let mut text = owned(head);
    text.append(title.as_str());
    text.append("…");
    text.append(short.as_str());
    assert(text@ =~= short_post(d@));
    if grapheme_count(text.as_str()) <= 300 && text.as_str().as_bytes().len() <= 3000 {
        Ok(text)
    } else {
        Err(BotError::PostTooLong)
    }
}

} // verus!

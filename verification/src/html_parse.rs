//! HTML -> knowledge item parsing.
//!
//! Vault files are HTML5 documents whose body holds a flat sequence of
//! `<section data-knowledge-id=...>` elements. Each becomes one item:
//! metadata from the `data-*` attributes; the title from `data-title`, else
//! the first heading; relations from `<span data-rel data-target>` markers;
//! the body HTML from the content, without the framing a written section
//! adds; the body text from `data-body-text`, else the whitespace-collapsed
//! text of the section.
use vstd::prelude::*;
use crate::clock::{date_midnight_utc, now_utc, parse_date_only, parse_rfc3339, rfc3339_parse, Timestamp};
use crate::decimal::{decimal, lemma_decimal, lemma_parse_decimal, parse_usize, parse_usize_spec};
use crate::html_doc::{
    html_section_attr, html_section_count, html_section_heading, html_section_inner_html,
    html_section_rel_attrs, html_section_text, opt_pairs_view, parse_document, section_attr,
    section_count, section_heading, section_inner_html, section_rel_attrs, section_text,
    texts_view, HtmlDocument,
};
use crate::html_emit::{
    fixed_attrs, lines_attr, opt_attr, opt_time_text, optional_attrs, relations_footer,
    relations_footer_string, relations_view, section_attrs, section_inner, tags_attr,
    line_range_text,
};
use crate::clock::{instant_round_trips, rfc3339_text};
use crate::schema::{
    opt_view, Error, KnowledgeRecord, KnowledgeType, Relation, Scope, SourceType, Stability,
    Status,
};
use crate::text::{
    chars_eq, string_from_chars, char_vec, is_ascii_digit, is_space, join, join_strings, lemma_trim_no_space, slice_chars,
    lemma_words_join, split_whitespace, squash_whitespace, squash_ws, strings_view,
    to_owned_string, trim, trim_chars, words,
};

verus! {

// ---------------------------------------------------------------------------
// Line ranges
// ---------------------------------------------------------------------------
/// Position of the first occurrence of a character.
pub open spec fn first_index_of(s: Seq<char>, c: char) -> Option<nat>
    decreases s.len(),
{
    if s.len() == 0 {
        None
    } else if s[0] == c {
        Some(0)
    } else {
        match first_index_of(s.drop_first(), c) {
            Some(k) => Some(k + 1),
            None => None,
        }
    }
}

/// What `data-defined-at` says: `start-end`, or one line `n` meaning
/// `n-n`; each side trimmed and read as a `usize`.
pub open spec fn lines_of(s: Option<Seq<char>>) -> (Option<nat>, Option<nat>) {
    match s {
        None => (None, None),
        Some(t) => if t.len() == 0 {
            (None, None)
        } else {
            match first_index_of(t, '-') {
                Some(k) => (
                    parse_usize_spec(trim(t.take(k as int))),
                    parse_usize_spec(trim(t.skip(k as int + 1))),
                ),
                None => match parse_usize_spec(trim(t)) {
                    Some(n) => (Some(n), Some(n)),
                    None => (None, None),
                },
            }
        },
    }
}

pub open spec fn opt_nat(o: Option<usize>) -> Option<nat> {
    match o {
        Some(n) => Some(n as nat),
        None => None,
    }
}

proof fn lemma_first_index_of(s: Seq<char>, c: char, k: nat)
    requires
        k < s.len(),
        s[k as int] == c,
        forall|i: int| 0 <= i < k ==> s[i] != c,
    ensures
        first_index_of(s, c) == Some(k),
    decreases k,
{
    if k > 0 {
        lemma_first_index_of(s.drop_first(), c, (k - 1) as nat);
    }
}

proof fn lemma_no_index_of(s: Seq<char>, c: char)
    requires
        forall|i: int| 0 <= i < s.len() ==> s[i] != c,
    ensures
        first_index_of(s, c) is None,
    decreases s.len(),
{
    if s.len() > 0 {
        lemma_no_index_of(s.drop_first(), c);
    }
}

/// Reads `data-defined-at`.
pub fn parse_lines(s: Option<&str>) -> (r: (Option<usize>, Option<usize>))
    ensures
        (opt_nat(r.0), opt_nat(r.1)) == lines_of(
            match s {
                Some(t) => Some(t@),
                None => None,
            },
        ),
{
    let t = match s {
        Some(t) => t,
        None => return (None, None),
    };
    let cs = char_vec(t);
    if cs.len() == 0 {
        return (None, None);
    }
    let mut i: usize = 0;
    while i < cs.len() && cs[i] != '-'
        invariant
            i <= cs.len(),
            forall|j: int| 0 <= j < i ==> cs@[j] != '-',
        decreases cs.len() - i,
    {
        i += 1;
    }
    if i < cs.len() {
        proof {
            lemma_first_index_of(cs@, '-', i as nat);
        }
        let a = trim_chars(&slice_chars(&cs, 0, i));
        let b = trim_chars(&slice_chars(&cs, i + 1, cs.len()));
        assert(cs@.subrange(0, i as int) =~= cs@.take(i as int));
        assert(cs@.subrange(i + 1, cs.len() as int) =~= cs@.skip(i + 1));
        (parse_usize(&a), parse_usize(&b))
    } else {
        proof {
            lemma_no_index_of(cs@, '-');
        }
        let whole = trim_chars(&cs);
        match parse_usize(&whole) {
            Some(n) => (Some(n), Some(n)),
            None => (None, None),
        }
    }
}

/// A written line range reads back as the two line numbers.
pub proof fn lemma_lines_round_trip(a: nat, b: nat)
    requires
        a <= usize::MAX,
        b <= usize::MAX,
    ensures
        lines_of(Some(line_range_text(a, b))) == (Some(a), Some(b)),
{
    let da = decimal(a);
    let db = decimal(b);
    let t = line_range_text(a, b);
    lemma_decimal(a);
    lemma_decimal(b);
    lemma_parse_decimal(a);
    lemma_parse_decimal(b);
    assert(t == da + seq!['-'] + db);
    assert forall|i: int| 0 <= i < da.len() implies t[i] != '-' by {
        assert(t[i] == da[i]);
        assert(is_ascii_digit(da[i]));
    }
    lemma_first_index_of(t, '-', da.len());
    assert(t.take(da.len() as int) =~= da);
    assert(t.skip(da.len() as int + 1) =~= db);
    assert forall|i: int| 0 <= i < da.len() implies !is_space(#[trigger] da[i]) by {
        assert(is_ascii_digit(da[i]));
    }
    assert forall|i: int| 0 <= i < db.len() implies !is_space(#[trigger] db[i]) by {
        assert(is_ascii_digit(db[i]));
    }
    lemma_trim_no_space(da);
    lemma_trim_no_space(db);
}

// ---------------------------------------------------------------------------
// What a section gives
// ---------------------------------------------------------------------------
/// The `data-*` attributes the parser reads, numbered.
pub open spec fn attr_name(k: int) -> Seq<char> {
    if k == 0 {
        "data-knowledge-id"@
    } else if k == 1 {
        "data-knowledge-type"@
    } else if k == 2 {
        "data-scope"@
    } else if k == 3 {
        "data-confidence"@
    } else if k == 4 {
        "data-source-type"@
    } else if k == 5 {
        "data-status"@
    } else if k == 6 {
        "data-stability"@
    } else if k == 7 {
        "data-created"@
    } else if k == 8 {
        "data-modified"@
    } else if k == 9 {
        "data-valid-from"@
    } else if k == 10 {
        "data-valid-until"@
    } else if k == 11 {
        "data-domain"@
    } else if k == 12 {
        "data-tags"@
    } else if k == 13 {
        "data-claim-key"@
    } else if k == 14 {
        "data-path"@
    } else if k == 15 {
        "data-defined-at"@
    } else if k == 16 {
        "data-title"@
    } else {
        "data-body-text"@
    }
}

/// The attribute values of one section element.
#[derive(Debug)]
pub struct SectionAttrs {
    pub knowledge_id: Option<String>,
    pub knowledge_type: Option<String>,
    pub scope: Option<String>,
    pub confidence: Option<String>,
    pub source_type: Option<String>,
    pub status: Option<String>,
    pub stability: Option<String>,
    pub created: Option<String>,
    pub modified: Option<String>,
    pub valid_from: Option<String>,
    pub valid_until: Option<String>,
    pub domain: Option<String>,
    pub tags: Option<String>,
    pub claim_key: Option<String>,
    pub path: Option<String>,
    pub defined_at: Option<String>,
    pub title: Option<String>,
    pub body_text: Option<String>,
}

impl SectionAttrs {
    /// The value of the attribute numbered `k` (see `attr_name`).
    pub open spec fn get(self, k: int) -> Option<Seq<char>> {
        opt_view(
            if k == 0 {
                self.knowledge_id
            } else if k == 1 {
                self.knowledge_type
            } else if k == 2 {
                self.scope
            } else if k == 3 {
                self.confidence
            } else if k == 4 {
                self.source_type
            } else if k == 5 {
                self.status
            } else if k == 6 {
                self.stability
            } else if k == 7 {
                self.created
            } else if k == 8 {
                self.modified
            } else if k == 9 {
                self.valid_from
            } else if k == 10 {
                self.valid_until
            } else if k == 11 {
                self.domain
            } else if k == 12 {
                self.tags
            } else if k == 13 {
                self.claim_key
            } else if k == 14 {
                self.path
            } else if k == 15 {
                self.defined_at
            } else if k == 16 {
                self.title
            } else {
                self.body_text
            },
        )
    }
}

/// What the content of one section element gives.
#[derive(Debug)]
pub struct SectionContent {
    /// The text of the first `h1`..`h4` heading, if there is one.
    pub heading: Option<String>,
    /// `data-rel` / `data-target` of each relation marker.
    pub rel_attrs: Vec<(Option<String>, Option<String>)>,
    /// The inner HTML, kept verbatim for the round trip.
    pub inner_html: String,
    /// The text nodes, in document order.
    pub text: Vec<String>,
}

// ---------------------------------------------------------------------------
// Reading an item
// ---------------------------------------------------------------------------
pub open spec fn vocab_or<T>(v: Option<Seq<char>>, read: spec_fn(Seq<char>) -> T, default: T) -> T {
    match v {
        Some(s) => read(crate::text::normalized(s)),
        None => default,
    }
}

/// A mandatory instant: the attribute read as RFC 3339, else `now`.
pub open spec fn time_or_now(o: Option<Seq<char>>, now: Timestamp) -> Timestamp {
    match o {
        Some(s) => match rfc3339_parse(s) {
            Some(t) => t,
            None => now,
        },
        None => now,
    }
}

/// An optional instant: empty means none; RFC 3339 or a bare `YYYY-MM-DD`
/// (midnight UTC) is accepted.
pub open spec fn optional_time(o: Option<Seq<char>>) -> Option<Timestamp> {
    match o {
        Some(s) => if s.len() == 0 {
            None
        } else {
            match rfc3339_parse(s) {
                Some(t) => Some(t),
                None => date_midnight_utc(s),
            }
        },
        None => None,
    }
}

/// The relation markers that carry both attributes.
pub open spec fn complete_pairs(v: Seq<(Option<Seq<char>>, Option<Seq<char>>)>) -> Seq<
    (Seq<char>, Seq<char>),
>
    decreases v.len(),
{
    if v.len() == 0 {
        Seq::empty()
    } else {
        let rest = complete_pairs(v.drop_last());
        match v.last() {
            (Some(r), Some(t)) => rest.push((r, t)),
            _ => rest,
        }
    }
}

/// The body HTML within a section's content: the content without the
/// newline it opens with, without the footer listing `rels` and the newline
/// before it, wherever they are there.
pub open spec fn body_of(inner: Seq<char>, rels: Seq<(Seq<char>, Seq<char>)>) -> Seq<char> {
    let a = if inner.len() > 0 && inner[0] == '\n' {
        inner.drop_first()
    } else {
        inner
    };
    let f = relations_footer(rels);
    let b = if f.len() <= a.len() && a.skip(a.len() - f.len()) == f {
        a.take(a.len() - f.len())
    } else {
        a
    };
    if b.len() > 0 && b.last() == '\n' {
        b.drop_last()
    } else {
        b
    }
}

/// The item a section describes. `attr(k)` is the value of the attribute
/// numbered `k`; `now` stands in for missing creation and modification
/// times. Everything but the id has a default.
pub open spec fn reads_section(
    attr: spec_fn(int) -> Option<Seq<char>>,
    heading: Option<Seq<char>>,
    rel_attrs: Seq<(Option<Seq<char>>, Option<Seq<char>>)>,
    inner_html: Seq<char>,
    text: Seq<Seq<char>>,
    now: Timestamp,
    item: KnowledgeRecord,
) -> bool {
    &&& attr(0) == Some(item.id@)
    &&& item.knowledge_type == vocab_or(
        attr(1),
        |n: Seq<char>| KnowledgeType::from_name(n),
        KnowledgeType::Fact,
    )
    &&& item.scope == vocab_or(attr(2), |n: Seq<char>| Scope::from_name(n), Scope::User)
    &&& item.confidence@ == (match attr(3) {
        Some(c) => c,
        None => Seq::empty(),
    })
    &&& item.source_type == vocab_or(
        attr(4),
        |n: Seq<char>| SourceType::from_name(n),
        SourceType::User,
    )
    &&& item.status == vocab_or(attr(5), |n: Seq<char>| Status::from_name(n), Status::Active)
    &&& item.stability == vocab_or(
        attr(6),
        |n: Seq<char>| Stability::from_name(n),
        Stability::MediumTerm,
    )
    &&& item.created == time_or_now(attr(7), now)
    &&& item.modified == time_or_now(attr(8), now)
    &&& item.valid_from == optional_time(attr(9))
    &&& item.valid_until == optional_time(attr(10))
    &&& opt_view(item.domain) == attr(11)
    &&& strings_view(item.tags@) == words(
        match attr(12) {
            Some(t) => t,
            None => Seq::empty(),
        },
    )
    &&& opt_view(item.claim_key) == attr(13)
    &&& opt_view(item.defined_path) == attr(14)
    &&& (opt_nat(item.defined_start_line), opt_nat(item.defined_end_line)) == lines_of(attr(15))
    &&& item.title@ == (match attr(16) {
        Some(t) => t,
        None => match heading {
            Some(h) => trim(h),
            None => Seq::empty(),
        },
    })
    &&& relations_view(item.relations@) == complete_pairs(rel_attrs)
    &&& item.body_html@ == body_of(inner_html, complete_pairs(rel_attrs))
    &&& item.body_text@ == (match attr(17) {
        Some(t) => t,
        None => squash_ws(join(text, seq![' '])),
    })
}

fn read_vocab_knowledge_type(v: &Option<String>) -> (r: KnowledgeType)
    ensures
        r == vocab_or(opt_view(*v), |n: Seq<char>| KnowledgeType::from_name(n), KnowledgeType::Fact),
{
    match v {
        Some(s) => KnowledgeType::parse(s.as_str()),
        None => KnowledgeType::Fact,
    }
}

fn read_time(v: &Option<String>, now: Timestamp) -> (r: Timestamp)
    ensures
        r == time_or_now(opt_view(*v), now),
{
    match v {
        Some(s) => match parse_rfc3339(s.as_str()) {
            Some(t) => t,
            None => now,
        },
        None => now,
    }
}

fn read_optional_time(v: &Option<String>) -> (r: Option<Timestamp>)
    ensures
        r == optional_time(opt_view(*v)),
{
    match v {
        Some(s) => {
            if s.as_str().is_empty() {
                None
            } else {
                match parse_rfc3339(s.as_str()) {
                    Some(t) => Some(t),
                    None => parse_date_only(s.as_str()),
                }
            }
        },
        None => None,
    }
}

/// The body HTML within a section's content (see `body_of`).
fn body_from_inner(inner: &str, rels: &Vec<Relation>) -> (r: String)
    ensures
        r@ == body_of(inner@, relations_view(rels@)),
{
    let cs = char_vec(inner);
    let a = if cs.len() > 0 && cs[0] == '\n' {
        slice_chars(&cs, 1, cs.len())
    } else {
        slice_chars(&cs, 0, cs.len())
    };
    assert(cs@.subrange(1, cs.len() as int) =~= cs@.drop_first());
    assert(cs@.subrange(0, cs.len() as int) =~= cs@);
    let footer = relations_footer_string(rels);
    let f = char_vec(footer.as_str());
    let b = if f.len() <= a.len() && chars_eq(&slice_chars(&a, a.len() - f.len(), a.len()), &f) {
        slice_chars(&a, 0, a.len() - f.len())
    } else {
        slice_chars(&a, 0, a.len())
    };
    assert(a@.subrange(0, a.len() as int) =~= a@);
    proof {
        if f.len() <= a.len() {
            assert(a@.subrange(a.len() - f.len(), a.len() as int) =~= a@.skip(a.len() - f.len()));
            assert(a@.subrange(0, a.len() - f.len()) =~= a@.take(a.len() - f.len()));
        }
    }
    if b.len() > 0 && b[b.len() - 1] == '\n' {
        let c = slice_chars(&b, 0, b.len() - 1);
        assert(b@.subrange(0, b.len() - 1) =~= b@.drop_last());
        string_from_chars(&c)
    } else {
        string_from_chars(&b)
    }
}

fn read_relations(v: &Vec<(Option<String>, Option<String>)>) -> (r: Vec<Relation>)
    ensures
        relations_view(r@) == complete_pairs(opt_pairs_view(v@)),
{
    let mut r: Vec<Relation> = Vec::new();
    let mut i: usize = 0;
    while i < v.len()
        invariant
            i <= v.len(),
            relations_view(r@) == complete_pairs(opt_pairs_view(v@.take(i as int))),
        decreases v.len() - i,
    {
        assert(opt_pairs_view(v@.take(i + 1)).drop_last() =~= opt_pairs_view(v@.take(i as int)));
        match &v[i] {
            (Some(rel), Some(target)) => {
                let ghost before = r@;
                r.push(Relation { rel: rel.clone(), target: target.clone() });
                assert(relations_view(r@) =~= relations_view(before).push((rel@, target@)));
            },
            _ => {},
        }
        i += 1;
    }
    assert(v@.take(v.len() as int) =~= v@);
    r
}

/// The item a section describes; an error when it has no
/// `data-knowledge-id`.
pub fn parse_section(a: SectionAttrs, c: SectionContent, now: Timestamp) -> (r: Result<
    KnowledgeRecord,
    Error,
>)
    ensures
        match r {
            Ok(item) => reads_section(
                |k: int| a.get(k),
                opt_view(c.heading),
                opt_pairs_view(c.rel_attrs@),
                c.inner_html@,
                texts_view(c.text@),
                now,
                item,
            ),
            Err(e) => {
                &&& a.knowledge_id is None
                &&& e matches Error::Parse(m) && m@ == "section missing data-knowledge-id"@
            },
        },
{
    let ghost ga = a;
    let ghost gc = c;
    let id = match a.knowledge_id {
        Some(id) => id,
        None => {
            return Err(Error::Parse(to_owned_string("section missing data-knowledge-id")));
        },
    };
    let knowledge_type = read_vocab_knowledge_type(&a.knowledge_type);
    let scope = match &a.scope {
        Some(s) => Scope::parse(s.as_str()),
        None => Scope::User,
    };
    let confidence = match a.confidence {
        Some(s) => s,
        None => String::new(),
    };
    let source_type = match &a.source_type {
        Some(s) => SourceType::parse(s.as_str()),
        None => SourceType::User,
    };
    let status = match &a.status {
        Some(s) => Status::parse(s.as_str()),
        None => Status::Active,
    };
    let stability = match &a.stability {
        Some(s) => Stability::parse(s.as_str()),
        None => Stability::MediumTerm,
    };
    let created = read_time(&a.created, now);
    let modified = read_time(&a.modified, now);
    let valid_from = read_optional_time(&a.valid_from);
    let valid_until = read_optional_time(&a.valid_until);
    let domain = a.domain;
    let tag_text = match &a.tags {
        Some(t) => char_vec(t.as_str()),
        None => Vec::new(),
    };
    let tags = split_whitespace(&tag_text);
    let claim_key = a.claim_key;
    let defined_path = a.path;
    let (defined_start_line, defined_end_line) = match &a.defined_at {
        Some(s) => parse_lines(Some(s.as_str())),
        None => parse_lines(None),
    };
    let title = match a.title {
        Some(t) => t,
        None => match &c.heading {
            Some(h) => {
                let hv = char_vec(h.as_str());
                string_of(&trim_chars(&hv))
            },
            None => String::new(),
        },
    };
    let relations = read_relations(&c.rel_attrs);
    let body_html = body_from_inner(c.inner_html.as_str(), &relations);
    let body_text = match a.body_text {
        Some(t) => t,
        None => {
            let sp = " ";
            proof {
                reveal_strlit(" ");
                assert(sp@ =~= seq![' ']);
            }
            let joined = join_strings(&c.text, sp);
            let joined_chars = char_vec(joined.as_str());
            assert(strings_view(c.text@) =~= texts_view(c.text@));
            squash_whitespace(&joined_chars)
        },
    };
    let item = KnowledgeRecord {
        id,
        knowledge_type,
        scope,
        confidence,
        source_type,
        status,
        stability,
        created,
        modified,
        valid_from,
        valid_until,
        domain,
        tags,
        title,
        body_text,
        body_html,
        relations,
        claim_key,
        defined_path,
        defined_start_line,
        defined_end_line,
    };
    Ok(item)
}

/// The items of every section of a parsed document, given the instant that
/// stands in for missing times.
pub open spec fn reads_document(doc: Seq<char>, now: Timestamp, items: Seq<KnowledgeRecord>) -> bool {
    &&& items.len() == html_section_count(doc)
    &&& forall|i: int|
        0 <= i < items.len() ==> reads_section(
            |k: int| html_section_attr(doc, i, attr_name(k)),
            html_section_heading(doc, i),
            html_section_rel_attrs(doc, i),
            html_section_inner_html(doc, i),
            html_section_text(doc, i),
            now,
            #[trigger] items[i],
        )
}

fn read_attrs(d: &HtmlDocument, i: usize) -> (a: SectionAttrs)
    requires
        i < html_section_count(d.source()),
    ensures
        forall|k: int| 0 <= k <= 17 ==> #[trigger] a.get(k) == html_section_attr(d.source(), i as int, attr_name(k)),
        a.knowledge_id is Some,
{
    SectionAttrs {
        knowledge_id: section_attr(d, i, "data-knowledge-id"),
        knowledge_type: section_attr(d, i, "data-knowledge-type"),
        scope: section_attr(d, i, "data-scope"),
        confidence: section_attr(d, i, "data-confidence"),
        source_type: section_attr(d, i, "data-source-type"),
        status: section_attr(d, i, "data-status"),
        stability: section_attr(d, i, "data-stability"),
        created: section_attr(d, i, "data-created"),
        modified: section_attr(d, i, "data-modified"),
        valid_from: section_attr(d, i, "data-valid-from"),
        valid_until: section_attr(d, i, "data-valid-until"),
        domain: section_attr(d, i, "data-domain"),
        tags: section_attr(d, i, "data-tags"),
        claim_key: section_attr(d, i, "data-claim-key"),
        path: section_attr(d, i, "data-path"),
        defined_at: section_attr(d, i, "data-defined-at"),
        title: section_attr(d, i, "data-title"),
        body_text: section_attr(d, i, "data-body-text"),
    }
}

fn read_content(d: &HtmlDocument, i: usize) -> (c: SectionContent)
    requires
        i < html_section_count(d.source()),
    ensures
        opt_view(c.heading) == html_section_heading(d.source(), i as int),
        opt_pairs_view(c.rel_attrs@) == html_section_rel_attrs(d.source(), i as int),
        c.inner_html@ == html_section_inner_html(d.source(), i as int),
        texts_view(c.text@) == html_section_text(d.source(), i as int),
{
    SectionContent {
        heading: section_heading(d, i),
        rel_attrs: section_rel_attrs(d, i),
        inner_html: section_inner_html(d, i),
        text: section_text(d, i),
    }
}

/// Parse every knowledge `<section>` of a document, in document order;
/// `now` stands in for missing creation and modification times. Every
/// section the selector finds has an id, so this never fails.
pub fn parse_str_at(raw: &str, now: Timestamp) -> (r: Result<Vec<KnowledgeRecord>, Error>)
    ensures
        r is Ok,
        r matches Ok(items) ==> reads_document(raw@, now, items@),
{
    let d = parse_document(raw);
    let n = section_count(&d);
    let mut out: Vec<KnowledgeRecord> = Vec::new();
    let mut i: usize = 0;
    while i < n
        invariant
            d.source() == raw@,
            n == html_section_count(raw@),
            i <= n,
            out.len() == i,
            forall|j: int|
                0 <= j < i ==> reads_section(
                    |k: int| html_section_attr(raw@, j, attr_name(k)),
                    html_section_heading(raw@, j),
                    html_section_rel_attrs(raw@, j),
                    html_section_inner_html(raw@, j),
                    html_section_text(raw@, j),
                    now,
                    #[trigger] out@[j],
                ),
        decreases n - i,
    {
        let a = read_attrs(&d, i);
        let c = read_content(&d, i);
        let ghost ga = a;
        assert(ga.get(0) == html_section_attr(raw@, i as int, "data-knowledge-id"@));
        match parse_section(a, c, now) {
            Ok(item) => {
                assert(reads_section(
                    |k: int| html_section_attr(raw@, i as int, attr_name(k)),
                    html_section_heading(raw@, i as int),
                    html_section_rel_attrs(raw@, i as int),
                    html_section_inner_html(raw@, i as int),
                    html_section_text(raw@, i as int),
                    now,
                    item,
                )) by {
                    assert(ga.get(1) == html_section_attr(raw@, i as int, attr_name(1)));
                    assert(ga.get(2) == html_section_attr(raw@, i as int, attr_name(2)));
                    assert(ga.get(3) == html_section_attr(raw@, i as int, attr_name(3)));
                    assert(ga.get(4) == html_section_attr(raw@, i as int, attr_name(4)));
                    assert(ga.get(5) == html_section_attr(raw@, i as int, attr_name(5)));
                    assert(ga.get(6) == html_section_attr(raw@, i as int, attr_name(6)));
                    assert(ga.get(7) == html_section_attr(raw@, i as int, attr_name(7)));
                    assert(ga.get(8) == html_section_attr(raw@, i as int, attr_name(8)));
                    assert(ga.get(9) == html_section_attr(raw@, i as int, attr_name(9)));
                    assert(ga.get(10) == html_section_attr(raw@, i as int, attr_name(10)));
                    assert(ga.get(11) == html_section_attr(raw@, i as int, attr_name(11)));
                    assert(ga.get(12) == html_section_attr(raw@, i as int, attr_name(12)));
                    assert(ga.get(13) == html_section_attr(raw@, i as int, attr_name(13)));
                    assert(ga.get(14) == html_section_attr(raw@, i as int, attr_name(14)));
                    assert(ga.get(15) == html_section_attr(raw@, i as int, attr_name(15)));
                    assert(ga.get(16) == html_section_attr(raw@, i as int, attr_name(16)));
                    assert(ga.get(17) == html_section_attr(raw@, i as int, attr_name(17)));
                }
                out.push(item);
                assert(out@[i as int] == item);
            },
            Err(e) => {
                return Err(e);
            },
        }
        i += 1;
    }
    Ok(out)
}

/// Parse every knowledge `<section>` of a document, in document order,
/// with the current time standing in for missing creation and
/// modification times.
pub fn parse_str(raw: &str) -> (r: Result<Vec<KnowledgeRecord>, Error>)
    ensures
        r is Ok,
        r matches Ok(items) ==> exists|now: Timestamp| reads_document(raw@, now, items@),
{
    let now = now_utc();
    let r = parse_str_at(raw, now);
    if let Ok(items) = &r {
        assert(reads_document(raw@, now, items@));
    }
    r
}

// ---------------------------------------------------------------------------
// Round trip of the metadata through the attributes
// ---------------------------------------------------------------------------
/// The value of the first attribute with the given name.
pub open spec fn attr_lookup(attrs: Seq<(Seq<char>, Seq<char>)>, name: Seq<char>) -> Option<
    Seq<char>,
>
    decreases attrs.len(),
{
    if attrs.len() == 0 {
        None
    } else if attrs[0].0 == name {
        Some(attrs[0].1)
    } else {
        attr_lookup(attrs.drop_first(), name)
    }
}

proof fn lemma_attr_lookup_concat(
    a: Seq<(Seq<char>, Seq<char>)>,
    b: Seq<(Seq<char>, Seq<char>)>,
    name: Seq<char>,
)
    ensures
        attr_lookup(a + b, name) == (match attr_lookup(a, name) {
            Some(v) => Some(v),
            None => attr_lookup(b, name),
        }),
    decreases a.len(),
{
    if a.len() == 0 {
        assert(a + b =~= b);
    } else {
        lemma_attr_lookup_concat(a.drop_first(), b, name);
        assert((a + b).drop_first() =~= a.drop_first() + b);
    }
}

/// Items whose tags are words, and which have both line numbers or neither,
/// are the ones a section can carry without loss: tags are written
/// space-separated, and a line range only as `start-end`.
pub open spec fn writable(r: KnowledgeRecord) -> bool {
    &&& r.defined_start_line is Some <==> r.defined_end_line is Some
    &&& forall|k: int| 0 <= k < r.tags.len() ==> (#[trigger] r.tags@[k])@.len() > 0
    &&& forall|k: int, j: int|
        0 <= k < r.tags.len() && 0 <= j < r.tags@[k]@.len() ==> !is_space(#[trigger] r.tags@[k]@[j])
}

proof fn lemma_attr_names()
    ensures
        attr_name(0) =~= seq!['d','a','t','a','-','k','n','o','w','l','e','d','g','e','-','i','d'],
        attr_name(1) =~= seq!['d','a','t','a','-','k','n','o','w','l','e','d','g','e','-','t','y','p','e'],
        attr_name(2) =~= seq!['d','a','t','a','-','s','c','o','p','e'],
        attr_name(3) =~= seq!['d','a','t','a','-','c','o','n','f','i','d','e','n','c','e'],
        attr_name(4) =~= seq!['d','a','t','a','-','s','o','u','r','c','e','-','t','y','p','e'],
        attr_name(5) =~= seq!['d','a','t','a','-','s','t','a','t','u','s'],
        attr_name(6) =~= seq!['d','a','t','a','-','s','t','a','b','i','l','i','t','y'],
        attr_name(7) =~= seq!['d','a','t','a','-','c','r','e','a','t','e','d'],
        attr_name(8) =~= seq!['d','a','t','a','-','m','o','d','i','f','i','e','d'],
        attr_name(9) =~= seq!['d','a','t','a','-','v','a','l','i','d','-','f','r','o','m'],
        attr_name(10) =~= seq!['d','a','t','a','-','v','a','l','i','d','-','u','n','t','i','l'],
        attr_name(11) =~= seq!['d','a','t','a','-','d','o','m','a','i','n'],
        attr_name(12) =~= seq!['d','a','t','a','-','t','a','g','s'],
        attr_name(13) =~= seq!['d','a','t','a','-','c','l','a','i','m','-','k','e','y'],
        attr_name(14) =~= seq!['d','a','t','a','-','p','a','t','h'],
        attr_name(15) =~= seq!['d','a','t','a','-','d','e','f','i','n','e','d','-','a','t'],
        attr_name(16) =~= seq!['d','a','t','a','-','t','i','t','l','e'],
        attr_name(17) =~= seq!['d','a','t','a','-','b','o','d','y','-','t','e','x','t'],
{
    reveal_strlit("data-knowledge-id");
    reveal_strlit("data-knowledge-type");
    reveal_strlit("data-scope");
    reveal_strlit("data-confidence");
    reveal_strlit("data-source-type");
    reveal_strlit("data-status");
    reveal_strlit("data-stability");
    reveal_strlit("data-created");
    reveal_strlit("data-modified");
    reveal_strlit("data-valid-from");
    reveal_strlit("data-valid-until");
    reveal_strlit("data-domain");
    reveal_strlit("data-tags");
    reveal_strlit("data-claim-key");
    reveal_strlit("data-path");
    reveal_strlit("data-defined-at");
    reveal_strlit("data-title");
    reveal_strlit("data-body-text");
}

/// Different attribute numbers name different attributes.
proof fn lemma_attr_names_distinct(k: int, l: int)
    requires
        0 <= k <= 17,
        0 <= l <= 17,
        k != l,
    ensures
        attr_name(k) != attr_name(l),
{
    lemma_attr_names();
    let a = attr_name(k);
    let b = attr_name(l);
    if a.len() == b.len() {
        if a[5] == b[5] {
            if a[6] == b[6] {
                if a[7] == b[7] {
                    assert(a[8] != b[8] || a[9] != b[9] || a[10] != b[10]);
                }
            }
        }
    }
}

/// The attributes written for `r`, looked up by number.
pub open spec fn written_attr(r: KnowledgeRecord, k: int) -> Option<Seq<char>> {
    attr_lookup(section_attrs(r), attr_name(k))
}

proof fn lemma_lookup_skip(f: Seq<(Seq<char>, Seq<char>)>, j: int, name: Seq<char>)
    requires
        0 <= j <= f.len(),
        forall|m: int| 0 <= m < j ==> (#[trigger] f[m]).0 != name,
    ensures
        attr_lookup(f, name) == attr_lookup(f.skip(j), name),
    decreases j,
{
    if j > 0 {
        lemma_lookup_skip(f, j - 1, name);
        assert(f.skip(j - 1).drop_first() =~= f.skip(j));
    } else {
        assert(f.skip(0) =~= f);
    }
}

proof fn lemma_fixed_names(r: KnowledgeRecord)
    ensures
        fixed_attrs(r).len() == 11,
        forall|m: int| 0 <= m < 11 ==> (#[trigger] fixed_attrs(r)[m]).0 == attr_name(m),
{
}

proof fn lemma_lookup_fixed(r: KnowledgeRecord, k: int)
    requires
        0 <= k <= 10,
    ensures
        attr_lookup(fixed_attrs(r), attr_name(k)) == Some(fixed_attrs(r)[k].1),
{
    let f = fixed_attrs(r);
    lemma_fixed_names(r);
    assert forall|m: int| 0 <= m < k implies (#[trigger] f[m]).0 != attr_name(k) by {
        lemma_attr_names_distinct(m, k);
    }
    lemma_lookup_skip(f, k, attr_name(k));
    assert(f.skip(k)[0] == f[k]);
}

proof fn lemma_lookup_fixed_miss(r: KnowledgeRecord, k: int)
    requires
        11 <= k <= 17,
    ensures
        attr_lookup(fixed_attrs(r), attr_name(k)) is None,
{
    let f = fixed_attrs(r);
    lemma_fixed_names(r);
    assert forall|m: int| 0 <= m < 11 implies (#[trigger] f[m]).0 != attr_name(k) by {
        lemma_attr_names_distinct(m, k);
    }
    lemma_lookup_skip(f, 11, attr_name(k));
    assert(f.skip(11).len() == 0);
}

proof fn lemma_lookup_single(name: Seq<char>, value: Seq<char>, n: Seq<char>)
    ensures
        attr_lookup(seq![(name, value)], n) == (if name == n {
            Some(value)
        } else {
            None
        }),
{
    let e = Seq::<(Seq<char>, Seq<char>)>::empty();
    assert(seq![(name, value)].drop_first() =~= e);
    assert(attr_lookup(e, n) is None);
    assert(seq![(name, value)][0] == (name, value));
}

proof fn lemma_lookup_opt_attr(j: int, v: Option<Seq<char>>, k: int)
    requires
        11 <= j <= 17,
        11 <= k <= 17,
    ensures
        attr_lookup(opt_attr(attr_name(j), v), attr_name(k)) == (if j == k {
            v
        } else {
            None
        }),
{
    if j != k {
        lemma_attr_names_distinct(j, k);
    }
    match v {
        Some(x) => lemma_lookup_single(attr_name(j), x, attr_name(k)),
        None => {},
    }
}

proof fn lemma_lookup_optional(r: KnowledgeRecord, k: int)
    requires
        11 <= k <= 17,
    ensures
        attr_lookup(optional_attrs(r), attr_name(k)) == (if k == 11 {
            opt_view(r.domain)
        } else if k == 12 {
            if r.tags.len() > 0 {
                Some(join(strings_view(r.tags@), seq![' ']))
            } else {
                None
            }
        } else if k == 13 {
            opt_view(r.claim_key)
        } else if k == 14 {
            opt_view(r.defined_path)
        } else if k == 15 {
            match (r.defined_start_line, r.defined_end_line) {
                (Some(a), Some(b)) => Some(line_range_text(a as nat, b as nat)),
                _ => None,
            }
        } else if k == 16 {
            Some(r.title@)
        } else {
            Some(r.body_text@)
        }),
{
    let d = opt_attr(attr_name(11), opt_view(r.domain));
    let t = tags_attr(r);
    let c = opt_attr(attr_name(13), opt_view(r.claim_key));
    let p = opt_attr(attr_name(14), opt_view(r.defined_path));
    let l = lines_attr(r);
    let ti = opt_attr(attr_name(16), Some(r.title@));
    let bt = opt_attr(attr_name(17), Some(r.body_text@));
    lemma_attr_names();
    assert(optional_attrs(r) == d + t + c + p + l + ti + bt);
    lemma_attr_lookup_concat(d + t + c + p + l + ti, bt, attr_name(k));
    lemma_attr_lookup_concat(d + t + c + p + l, ti, attr_name(k));
    lemma_attr_lookup_concat(d + t + c + p, l, attr_name(k));
    lemma_attr_lookup_concat(d + t + c, p, attr_name(k));
    lemma_attr_lookup_concat(d + t, c, attr_name(k));
    lemma_attr_lookup_concat(d, t, attr_name(k));
    lemma_lookup_opt_attr(11, opt_view(r.domain), k);
    lemma_lookup_opt_attr(13, opt_view(r.claim_key), k);
    lemma_lookup_opt_attr(14, opt_view(r.defined_path), k);
    lemma_lookup_opt_attr(16, Some(r.title@), k);
    lemma_lookup_opt_attr(17, Some(r.body_text@), k);
    if r.tags.len() > 0 {
        lemma_lookup_opt_attr(12, Some(join(strings_view(r.tags@), seq![' '])), k);
        assert(t == opt_attr(attr_name(12), Some(join(strings_view(r.tags@), seq![' ']))));
    } else {
        assert(t == opt_attr(attr_name(12), None));
        lemma_lookup_opt_attr(12, None, k);
    }
    match (r.defined_start_line, r.defined_end_line) {
        (Some(a), Some(b)) => {
            lemma_lookup_opt_attr(15, Some(line_range_text(a as nat, b as nat)), k);
            assert(l == opt_attr(attr_name(15), Some(line_range_text(a as nat, b as nat))));
        },
        _ => {
            assert(l == opt_attr(attr_name(15), None));
            lemma_lookup_opt_attr(15, None, k);
        },
    }
}

proof fn lemma_written_attr(r: KnowledgeRecord, k: int)
    requires
        0 <= k <= 17,
    ensures
        0 <= k <= 10 ==> written_attr(r, k) == Some(fixed_attrs(r)[k].1),
        11 <= k ==> written_attr(r, k) == attr_lookup(optional_attrs(r), attr_name(k)),
{
    lemma_attr_lookup_concat(fixed_attrs(r), optional_attrs(r), attr_name(k));
    if k <= 10 {
        lemma_lookup_fixed(r, k);
    } else {
        lemma_lookup_fixed_miss(r, k);
    }
}

/// The body HTML comes back out of the content written for it.
proof fn lemma_body_of(body: Seq<char>, rels: Seq<(Seq<char>, Seq<char>)>)
    ensures
        body_of(seq!['\n'] + body + seq!['\n'] + relations_footer(rels), rels) == body,
{
    let f = relations_footer(rels);
    let inner = seq!['\n'] + body + seq!['\n'] + f;
    let a = inner.drop_first();
    assert(inner[0] == '\n');
    assert(a =~= body + seq!['\n'] + f);
    assert(a.skip(a.len() - f.len()) =~= f);
    let b = a.take(a.len() - f.len());
    assert(b =~= body + seq!['\n']);
    assert(b.drop_last() =~= body);
}

/// `item` is `r` read back: every field the same, the instants wherever the
/// `time` crate reads their written RFC 3339 text back as the same instant.
pub open spec fn read_back_as(item: KnowledgeRecord, r: KnowledgeRecord) -> bool {
    &&& item.id@ == r.id@
    &&& item.knowledge_type == r.knowledge_type
    &&& item.scope == r.scope
    &&& item.confidence@ == r.confidence@
    &&& item.source_type == r.source_type
    &&& item.status == r.status
    &&& item.stability == r.stability
    &&& instant_round_trips(r.created) ==> item.created == r.created
    &&& instant_round_trips(r.modified) ==> item.modified == r.modified
    &&& (r.valid_from matches Some(t) ==> instant_round_trips(t)) ==> item.valid_from
        == r.valid_from
    &&& (r.valid_until matches Some(t) ==> instant_round_trips(t)) ==> item.valid_until
        == r.valid_until
    &&& opt_view(item.domain) == opt_view(r.domain)
    &&& strings_view(item.tags@) == strings_view(r.tags@)
    &&& item.title@ == r.title@
    &&& item.body_text@ == r.body_text@
    &&& item.body_html@ == r.body_html@
    &&& relations_view(item.relations@) == relations_view(r.relations@)
    &&& opt_view(item.claim_key) == opt_view(r.claim_key)
    &&& opt_view(item.defined_path) == opt_view(r.defined_path)
    &&& item.defined_start_line == r.defined_start_line
    &&& item.defined_end_line == r.defined_end_line
}

/// A section written for an item reads back as the same item, given the
/// attribute values, relation markers and content the HTML parser hands
/// back are those written: every field comes back, and the instants are
/// those the `time` crate reads from the written RFC 3339 texts.
pub proof fn lemma_section_round_trip(
    r: KnowledgeRecord,
    attr: spec_fn(int) -> Option<Seq<char>>,
    heading: Option<Seq<char>>,
    rel_attrs: Seq<(Option<Seq<char>>, Option<Seq<char>>)>,
    inner_html: Seq<char>,
    text: Seq<Seq<char>>,
    now: Timestamp,
    item: KnowledgeRecord,
)
    requires
        writable(r),
        forall|k: int| 0 <= k <= 17 ==> #[trigger] attr(k) == written_attr(r, k),
        complete_pairs(rel_attrs) == relations_view(r.relations@),
        inner_html == section_inner(r),
        reads_section(attr, heading, rel_attrs, inner_html, text, now, item),
    ensures
        read_back_as(item, r),
        item.created == time_or_now(Some(rfc3339_text(r.created)), now),
        item.modified == time_or_now(Some(rfc3339_text(r.modified)), now),
        item.valid_from == optional_time(Some(opt_time_text(r.valid_from))),
        item.valid_until == optional_time(Some(opt_time_text(r.valid_until))),
{
    lemma_written_attr(r, 0);
    lemma_written_attr(r, 1);
    lemma_written_attr(r, 2);
    lemma_written_attr(r, 3);
    lemma_written_attr(r, 4);
    lemma_written_attr(r, 5);
    lemma_written_attr(r, 6);
    lemma_written_attr(r, 7);
    lemma_written_attr(r, 8);
    lemma_written_attr(r, 9);
    lemma_written_attr(r, 10);
    lemma_written_attr(r, 11);
    lemma_written_attr(r, 12);
    lemma_written_attr(r, 13);
    lemma_written_attr(r, 14);
    lemma_written_attr(r, 15);
    lemma_written_attr(r, 16);
    lemma_written_attr(r, 17);
    assert(attr(0) == written_attr(r, 0));
    assert(attr(1) == written_attr(r, 1));
    assert(attr(2) == written_attr(r, 2));
    assert(attr(3) == written_attr(r, 3));
    assert(attr(4) == written_attr(r, 4));
    assert(attr(5) == written_attr(r, 5));
    assert(attr(6) == written_attr(r, 6));
    assert(attr(7) == written_attr(r, 7));
    assert(attr(8) == written_attr(r, 8));
    assert(attr(9) == written_attr(r, 9));
    assert(attr(10) == written_attr(r, 10));
    assert(attr(11) == written_attr(r, 11));
    assert(attr(12) == written_attr(r, 12));
    assert(attr(13) == written_attr(r, 13));
    assert(attr(14) == written_attr(r, 14));
    assert(attr(15) == written_attr(r, 15));
    assert(attr(16) == written_attr(r, 16));
    assert(attr(17) == written_attr(r, 17));
    assert(written_attr(r, 0) == Some(r.id@));
    crate::schema::lemma_knowledge_type_round_trip(r.knowledge_type);
    crate::schema::lemma_scope_round_trip(r.scope);
    crate::schema::lemma_source_type_round_trip(r.source_type);
    crate::schema::lemma_status_round_trip(r.status);
    crate::schema::lemma_stability_round_trip(r.stability);
    assert(written_attr(r, 1) == Some(r.knowledge_type.name()));
    assert(written_attr(r, 2) == Some(r.scope.name()));
    assert(written_attr(r, 3) == Some(r.confidence@));
    assert(written_attr(r, 4) == Some(r.source_type.name()));
    assert(written_attr(r, 5) == Some(r.status.name()));
    assert(written_attr(r, 6) == Some(r.stability.name()));
    assert(written_attr(r, 7) == Some(rfc3339_text(r.created)));
    assert(written_attr(r, 8) == Some(rfc3339_text(r.modified)));
    assert(written_attr(r, 9) == Some(opt_time_text(r.valid_from)));
    assert(written_attr(r, 10) == Some(opt_time_text(r.valid_until)));
    lemma_lookup_optional(r, 11);
    assert(written_attr(r, 11) == opt_view(r.domain));
    lemma_lookup_optional(r, 12);
    lemma_lookup_optional(r, 13);
    assert(written_attr(r, 13) == opt_view(r.claim_key));
    lemma_lookup_optional(r, 14);
    assert(written_attr(r, 14) == opt_view(r.defined_path));
    lemma_lookup_optional(r, 15);
    lemma_lookup_optional(r, 16);
    assert(written_attr(r, 16) == Some(r.title@));
    lemma_lookup_optional(r, 17);
    assert(written_attr(r, 17) == Some(r.body_text@));
    if r.tags.len() > 0 {
        lemma_words_join(strings_view(r.tags@));
    } else {
        assert(strings_view(r.tags@) =~= Seq::<Seq<char>>::empty());
        assert(words(Seq::<char>::empty()) =~= Seq::<Seq<char>>::empty());
    }
    match (r.defined_start_line, r.defined_end_line) {
        (Some(a), Some(b)) => {
            lemma_lines_round_trip(a as nat, b as nat);
        },
        _ => {
            assert(written_attr(r, 15) is None);
        },
    }
    lemma_body_of(r.body_html@, relations_view(r.relations@));
    assert(item.body_html@ == r.body_html@);
}

/// The HTML parser hands back of the document just what was written for
/// `r`: one section, with the attribute values, relation markers and
/// content of `r`'s section.
pub open spec fn parser_reads_back(doc: Seq<char>, r: KnowledgeRecord) -> bool {
    &&& html_section_count(doc) == 1
    &&& forall|k: int|
        0 <= k <= 17 ==> #[trigger] html_section_attr(doc, 0, attr_name(k)) == written_attr(r, k)
    &&& complete_pairs(html_section_rel_attrs(doc, 0)) == relations_view(r.relations@)
    &&& html_section_inner_html(doc, 0) == section_inner(r)
}

/// An item round-trips with its `<section>` HTML: parsing the section
/// `emit_section` writes for a writable item (`parse_str_at`, whose result
/// `reads_document` describes) gives one item, the same as the first in
/// every field, wherever the HTML parser reads back what was written.
pub proof fn lemma_document_round_trip(
    r: KnowledgeRecord,
    doc: Seq<char>,
    now: Timestamp,
    items: Seq<KnowledgeRecord>,
)
    requires
        writable(r),
    ensures
        reads_document(doc, now, items) && parser_reads_back(doc, r) ==> items.len() == 1
            && read_back_as(items[0], r),
{
    if reads_document(doc, now, items) && parser_reads_back(doc, r) {
        let attr = |k: int| html_section_attr(doc, 0, attr_name(k));
        assert(reads_section(
            attr,
            html_section_heading(doc, 0),
            html_section_rel_attrs(doc, 0),
            html_section_inner_html(doc, 0),
            html_section_text(doc, 0),
            now,
            items[0],
        ));
        assert forall|k: int| 0 <= k <= 17 implies #[trigger] attr(k) == written_attr(r, k) by {
            assert(html_section_attr(doc, 0, attr_name(k)) == written_attr(r, k));
        }
        lemma_section_round_trip(
            r,
            attr,
            html_section_heading(doc, 0),
            html_section_rel_attrs(doc, 0),
            html_section_inner_html(doc, 0),
            html_section_text(doc, 0),
            now,
            items[0],
        );
    }
}

fn string_of(cs: &Vec<char>) -> (s: String)
    ensures
        s@ == cs@,
{
    crate::text::string_from_chars(cs)
}

} // verus!

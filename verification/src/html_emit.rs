//! Knowledge item -> HTML `<section>` serialisation.
//!
//! The section is the wrapping `<section>` skeleton with one `data-*`
//! attribute per metadata field (the title and body text included), the
//! verbatim `body_html` between newlines, and a footer of
//! `<span data-rel data-target>` relation markers.
use vstd::prelude::*;
use crate::clock::{rfc3339_or_empty, rfc3339_text, Timestamp};
use crate::decimal::{decimal, usize_to_string};
use crate::schema::{opt_view, KnowledgeRecord, Relation};
use crate::text::{char_vec, join, join_strings, strings_view};

verus! {

// ---------------------------------------------------------------------------
// Escaping
// ---------------------------------------------------------------------------
/// The replacement of one character in attribute values and text.
pub open spec fn escape_char(c: char) -> Seq<char> {
    if c == '&' {
        "&amp;"@
    } else if c == '"' {
        "&quot;"@
    } else if c == '<' {
        "&lt;"@
    } else if c == '>' {
        "&gt;"@
    } else {
        seq![c]
    }
}

/// `&`, `"`, `<` and `>` replaced by their character references.
pub open spec fn escape(s: Seq<char>) -> Seq<char>
    decreases s.len(),
{
    if s.len() == 0 {
        Seq::empty()
    } else {
        escape(s.drop_last()) + escape_char(s.last())
    }
}

/// Reads character references back: the inverse of `escape`.
pub open spec fn unescape(t: Seq<char>) -> Seq<char>
    decreases t.len(),
{
    if t.len() == 0 {
        Seq::empty()
    } else if t.len() >= 5 && t.take(5) == "&amp;"@ {
        seq!['&'] + unescape(t.skip(5))
    } else if t.len() >= 6 && t.take(6) == "&quot;"@ {
        seq!['"'] + unescape(t.skip(6))
    } else if t.len() >= 4 && t.take(4) == "&lt;"@ {
        seq!['<'] + unescape(t.skip(4))
    } else if t.len() >= 4 && t.take(4) == "&gt;"@ {
        seq!['>'] + unescape(t.skip(4))
    } else {
        seq![t[0]] + unescape(t.drop_first())
    }
}

pub proof fn lemma_escape_concat(a: Seq<char>, b: Seq<char>)
    ensures
        escape(a + b) == escape(a) + escape(b),
    decreases b.len(),
{
    if b.len() == 0 {
        assert(a + b =~= a);
    } else {
        lemma_escape_concat(a, b.drop_last());
        assert((a + b).drop_last() =~= a + b.drop_last());
    }
}

proof fn lemma_escape_char_literals()
    ensures
        "&amp;"@ =~= seq!['&', 'a', 'm', 'p', ';'],
        "&quot;"@ =~= seq!['&', 'q', 'u', 'o', 't', ';'],
        "&lt;"@ =~= seq!['&', 'l', 't', ';'],
        "&gt;"@ =~= seq!['&', 'g', 't', ';'],
{
    reveal_strlit("&amp;");
    reveal_strlit("&quot;");
    reveal_strlit("&lt;");
    reveal_strlit("&gt;");
}

/// Escaping loses nothing: reading the character references back gives the
/// text it was made from, so two different values never escape to the same text.
pub proof fn lemma_unescape_escape(s: Seq<char>)
    ensures
        unescape(escape(s)) == s,
    decreases s.len(),
{
    lemma_escape_char_literals();
    if s.len() > 0 {
        let c = s[0];
        let rest = s.drop_first();
        assert(s =~= seq![c] + rest);
        lemma_escape_concat(seq![c], rest);
        assert(seq![c].drop_last() =~= Seq::<char>::empty());
        assert(seq![c].last() == c);
        assert(escape(Seq::<char>::empty()) == Seq::<char>::empty());
        assert(escape(seq![c]) =~= escape(Seq::<char>::empty()) + escape_char(c));
        let t = escape(s);
        let e = escape_char(c);
        assert(t =~= e + escape(rest));
        lemma_unescape_escape(rest);
        assert(t.skip(e.len() as int) =~= escape(rest));
        assert(t.take(e.len() as int) =~= e);
        if c != '&' && c != '"' && c != '<' && c != '>' {
            assert(t[0] == c);
            assert(t.drop_first() =~= escape(rest));
        }
    }
}

/// Escaping is injective.
pub proof fn lemma_escape_injective(a: Seq<char>, b: Seq<char>)
    requires
        escape(a) == escape(b),
    ensures
        a == b,
{
    lemma_unescape_escape(a);
    lemma_unescape_escape(b);
}

/// Escaped text holds no `"`, `<` or `>`, so it can stand inside a quoted
/// attribute value or in element content.
pub proof fn lemma_escape_safe(s: Seq<char>)
    ensures
        forall|i: int|
            0 <= i < escape(s).len() ==> #[trigger] escape(s)[i] != '"' && escape(s)[i] != '<'
                && escape(s)[i] != '>',
    decreases s.len(),
{
    lemma_escape_char_literals();
    if s.len() > 0 {
        lemma_escape_safe(s.drop_last());
        let p = escape(s.drop_last());
        let e = escape_char(s.last());
        assert forall|i: int| 0 <= i < escape(s).len() implies #[trigger] escape(s)[i] != '"'
            && escape(s)[i] != '<' && escape(s)[i] != '>' by {
            if i < p.len() {
                assert(escape(s)[i] == p[i]);
            } else {
                assert(escape(s)[i] == e[i - p.len()]);
            }
        }
    }
}

fn push_escaped(out: &mut String, s: &str)
    ensures
        final(out)@ == old(out)@ + escape(s@),
{
    let ghost start = out@;
    let cs = char_vec(s);
    let mut i: usize = 0;
    while i < cs.len()
        invariant
            i <= cs.len(),
            out@ == start + escape(cs@.take(i as int)),
        decreases cs.len() - i,
    {
        let c = cs[i];
        let ghost done = cs@.take(i as int);
        assert(cs@.take(i + 1).drop_last() =~= done);
        if c == '&' {
            out.append("&amp;");
        } else if c == '"' {
            out.append("&quot;");
        } else if c == '<' {
            out.append("&lt;");
        } else if c == '>' {
            out.append("&gt;");
        } else {
            out.push(c);
            assert(out@ =~= start + escape(done) + seq![c]);
        }
        i += 1;
    }
    assert(cs@.take(cs.len() as int) =~= s@);
}

/// Attribute-value escaping.
pub fn escape_attr(s: &str) -> (r: String)
    ensures
        r@ == escape(s@),
{
    let mut r = String::new();
    push_escaped(&mut r, s);
    r
}

// ---------------------------------------------------------------------------
// The section
// ---------------------------------------------------------------------------
/// ` name="value"`, the value escaped.
pub open spec fn attr_text(name: Seq<char>, value: Seq<char>) -> Seq<char> {
    seq![' '] + name + seq!['=', '"'] + escape(value) + seq!['"']
}

/// The attributes in order, each written as by `attr_text`.
pub open spec fn attrs_text(attrs: Seq<(Seq<char>, Seq<char>)>) -> Seq<char>
    decreases attrs.len(),
{
    if attrs.len() == 0 {
        Seq::empty()
    } else {
        attrs_text(attrs.drop_last()) + attr_text(attrs.last().0, attrs.last().1)
    }
}

/// An attribute present only when the value is.
pub open spec fn opt_attr(name: Seq<char>, value: Option<Seq<char>>) -> Seq<
    (Seq<char>, Seq<char>),
> {
    match value {
        Some(v) => seq![(name, v)],
        None => Seq::empty(),
    }
}

/// The text written for an optional instant: empty when there is none.
pub open spec fn opt_time_text(t: Option<Timestamp>) -> Seq<char> {
    match t {
        Some(t) => rfc3339_text(t),
        None => Seq::empty(),
    }
}

/// `start-end`, the line range of a code item.
pub open spec fn line_range_text(start: nat, end: nat) -> Seq<char> {
    decimal(start) + seq!['-'] + decimal(end)
}

/// The attributes every section has, in the order they are written.
pub open spec fn fixed_attrs(r: KnowledgeRecord) -> Seq<(Seq<char>, Seq<char>)> {
    seq![
        ("data-knowledge-id"@, r.id@),
        ("data-knowledge-type"@, r.knowledge_type.name()),
        ("data-scope"@, r.scope.name()),
        ("data-confidence"@, r.confidence@),
        ("data-source-type"@, r.source_type.name()),
        ("data-status"@, r.status.name()),
        ("data-stability"@, r.stability.name()),
        ("data-created"@, rfc3339_text(r.created)),
        ("data-modified"@, rfc3339_text(r.modified)),
        ("data-valid-from"@, opt_time_text(r.valid_from)),
        ("data-valid-until"@, opt_time_text(r.valid_until)),
    ]
}

/// The attributes after the fixed ones: those a section has only when the
/// item has the field, then the title and the body text, which every
/// section carries so that they read back as written.
pub open spec fn optional_attrs(r: KnowledgeRecord) -> Seq<(Seq<char>, Seq<char>)> {
    opt_attr("data-domain"@, opt_view(r.domain)) + tags_attr(r) + opt_attr(
        "data-claim-key"@,
        opt_view(r.claim_key),
    ) + opt_attr("data-path"@, opt_view(r.defined_path)) + lines_attr(r) + opt_attr(
        "data-title"@,
        Some(r.title@),
    ) + opt_attr("data-body-text"@, Some(r.body_text@))
}

/// The `data-*` attributes of a section, in the order they are written.
pub open spec fn section_attrs(r: KnowledgeRecord) -> Seq<(Seq<char>, Seq<char>)> {
    fixed_attrs(r) + optional_attrs(r)
}

pub proof fn lemma_attrs_concat(a: Seq<(Seq<char>, Seq<char>)>, b: Seq<(Seq<char>, Seq<char>)>)
    ensures
        attrs_text(a + b) == attrs_text(a) + attrs_text(b),
    decreases b.len(),
{
    if b.len() == 0 {
        assert(a + b =~= a);
    } else {
        lemma_attrs_concat(a, b.drop_last());
        assert((a + b).drop_last() =~= a + b.drop_last());
    }
}

/// Relations as `(kind, target)` pairs.
pub open spec fn relations_view(rels: Seq<Relation>) -> Seq<(Seq<char>, Seq<char>)> {
    rels.map_values(|r: Relation| (r.rel@, r.target@))
}

/// The marker of one relation, given as `(kind, target)`, in the section
/// footer.
pub open spec fn relation_line(rel: (Seq<char>, Seq<char>)) -> Seq<char> {
    "    <span data-rel=\""@ + escape(rel.0) + "\" data-target=\""@ + escape(rel.1)
        + "\"></span>\n"@
}

pub open spec fn relation_lines(rels: Seq<(Seq<char>, Seq<char>)>) -> Seq<char>
    decreases rels.len(),
{
    if rels.len() == 0 {
        Seq::empty()
    } else {
        relation_lines(rels.drop_last()) + relation_line(rels.last())
    }
}

/// The footer listing the relations; nothing when there are none.
pub open spec fn relations_footer(rels: Seq<(Seq<char>, Seq<char>)>) -> Seq<char> {
    if rels.len() == 0 {
        Seq::empty()
    } else {
        "  <footer class=\"ctxk-meta\">\n"@ + relation_lines(rels) + "  </footer>\n"@
    }
}

/// The content of an item's section: a newline, the body HTML, a newline,
/// then the footer of relations.
pub open spec fn section_inner(r: KnowledgeRecord) -> Seq<char> {
    seq!['\n'] + r.body_html@ + seq!['\n'] + relations_footer(relations_view(r.relations@))
}

/// The whole `<section>` of an item, ending with a newline.
pub open spec fn section_html(r: KnowledgeRecord) -> Seq<char> {
    "<section"@ + attrs_text(section_attrs(r)) + seq!['>'] + section_inner(r) + "</section>\n"@
}

/// Writes ` name="value"`, the value escaped.
pub fn push_attr(buf: &mut String, name: &str, value: &str)
    ensures
        final(buf)@ == old(buf)@ + attr_text(name@, value@),
{
    let ghost start = buf@;
    buf.push(' ');
    buf.append(name);
    buf.push('=');
    buf.push('"');
    push_escaped(buf, value);
    buf.push('"');
    assert(buf@ =~= start + attr_text(name@, value@));
}

/// Appends one attribute to a text and its attribute list in step.
proof fn lemma_attrs_push(
    attrs: Seq<(Seq<char>, Seq<char>)>,
    name: Seq<char>,
    value: Seq<char>,
)
    ensures
        attrs_text(attrs.push((name, value))) == attrs_text(attrs) + attr_text(name, value),
{
    assert(attrs.push((name, value)).drop_last() =~= attrs);
}

#[verifier::rlimit(40)]
#[verifier::spinoff_prover]
fn push_fixed_attrs(s: &mut String, item: &KnowledgeRecord)
    ensures
        final(s)@ == old(s)@ + attrs_text(fixed_attrs(*item)),
{
    let ghost head = s@;
    let ghost mut attrs: Seq<(Seq<char>, Seq<char>)> = Seq::empty();
    push_attr(s, "data-knowledge-id", item.id.as_str());
    proof {
        lemma_attrs_push(attrs, "data-knowledge-id"@, item.id@);
        attrs = attrs.push(("data-knowledge-id"@, item.id@));
    }
    push_attr(s, "data-knowledge-type", item.knowledge_type.as_str());
    proof {
        lemma_attrs_push(attrs, "data-knowledge-type"@, item.knowledge_type.name());
        attrs = attrs.push(("data-knowledge-type"@, item.knowledge_type.name()));
    }
    push_attr(s, "data-scope", item.scope.as_str());
    proof {
        lemma_attrs_push(attrs, "data-scope"@, item.scope.name());
        attrs = attrs.push(("data-scope"@, item.scope.name()));
    }
    push_attr(s, "data-confidence", item.confidence.as_str());
    proof {
        lemma_attrs_push(attrs, "data-confidence"@, item.confidence@);
        attrs = attrs.push(("data-confidence"@, item.confidence@));
    }
    push_attr(s, "data-source-type", item.source_type.as_str());
    proof {
        lemma_attrs_push(attrs, "data-source-type"@, item.source_type.name());
        attrs = attrs.push(("data-source-type"@, item.source_type.name()));
    }
    push_attr(s, "data-status", item.status.as_str());
    proof {
        lemma_attrs_push(attrs, "data-status"@, item.status.name());
        attrs = attrs.push(("data-status"@, item.status.name()));
    }
    push_attr(s, "data-stability", item.stability.as_str());
    proof {
        lemma_attrs_push(attrs, "data-stability"@, item.stability.name());
        attrs = attrs.push(("data-stability"@, item.stability.name()));
    }
    let created = rfc3339_or_empty(&item.created);
    push_attr(s, "data-created", created.as_str());
    proof {
        lemma_attrs_push(attrs, "data-created"@, created@);
        attrs = attrs.push(("data-created"@, created@));
    }
    let modified = rfc3339_or_empty(&item.modified);
    push_attr(s, "data-modified", modified.as_str());
    proof {
        lemma_attrs_push(attrs, "data-modified"@, modified@);
        attrs = attrs.push(("data-modified"@, modified@));
    }
    let valid_from = match &item.valid_from {
        Some(d) => rfc3339_or_empty(d),
        None => String::new(),
    };
    push_attr(s, "data-valid-from", valid_from.as_str());
    proof {
        lemma_attrs_push(attrs, "data-valid-from"@, valid_from@);
        attrs = attrs.push(("data-valid-from"@, valid_from@));
    }
    let valid_until = match &item.valid_until {
        Some(d) => rfc3339_or_empty(d),
        None => String::new(),
    };
    push_attr(s, "data-valid-until", valid_until.as_str());
    proof {
        lemma_attrs_push(attrs, "data-valid-until"@, valid_until@);
        attrs = attrs.push(("data-valid-until"@, valid_until@));
    }
    assert(attrs =~= fixed_attrs(*item));
    assert(s@ =~= head + attrs_text(fixed_attrs(*item)));
}

fn push_opt_attr(s: &mut String, name: &str, value: &Option<String>)
    ensures
        final(s)@ == old(s)@ + attrs_text(opt_attr(name@, opt_view(*value))),
{
    let ghost head = s@;
    if let Some(v) = value {
        push_attr(s, name, v.as_str());
        proof {
            lemma_attrs_push(Seq::empty(), name@, v@);
            assert(opt_attr(name@, opt_view(*value)) =~= Seq::<(Seq<char>, Seq<char>)>::empty().push(
                (name@, v@),
            ));
        }
    }
}

/// The `data-tags` attribute, present when there are tags.
pub open spec fn tags_attr(r: KnowledgeRecord) -> Seq<(Seq<char>, Seq<char>)> {
    if r.tags.len() > 0 {
        seq![("data-tags"@, join(strings_view(r.tags@), seq![' ']))]
    } else {
        Seq::empty()
    }
}

/// The `data-defined-at` attribute, present when both line numbers are.
pub open spec fn lines_attr(r: KnowledgeRecord) -> Seq<(Seq<char>, Seq<char>)> {
    match (r.defined_start_line, r.defined_end_line) {
        (Some(a), Some(b)) => seq![("data-defined-at"@, line_range_text(a as nat, b as nat))],
        _ => Seq::empty(),
    }
}

fn push_tags_attr(s: &mut String, item: &KnowledgeRecord)
    ensures
        final(s)@ == old(s)@ + attrs_text(tags_attr(*item)),
{
    if item.tags.len() > 0 {
        let sp = " ";
        proof {
            reveal_strlit(" ");
            assert(sp@ =~= seq![' ']);
        }
        let tags = join_strings(&item.tags, sp);
        push_attr(s, "data-tags", tags.as_str());
        proof {
            lemma_attrs_push(Seq::empty(), "data-tags"@, tags@);
            assert(tags_attr(*item) =~= Seq::<(Seq<char>, Seq<char>)>::empty().push(
                ("data-tags"@, tags@),
            ));
        }
    }
}

/// `start-end`, written for the `data-defined-at` attribute.
pub fn line_range_string(a: usize, b: usize) -> (r: String)
    ensures
        r@ == line_range_text(a as nat, b as nat),
{
    let mut range = usize_to_string(a);
    range.push('-');
    let tail = usize_to_string(b);
    range.append(tail.as_str());
    range
}

fn push_lines_attr(s: &mut String, item: &KnowledgeRecord)
    ensures
        final(s)@ == old(s)@ + attrs_text(lines_attr(*item)),
{
    match (item.defined_start_line, item.defined_end_line) {
        (Some(a), Some(b)) => {
            let range = line_range_string(a, b);
            push_attr(s, "data-defined-at", range.as_str());
            proof {
                lemma_attrs_push(Seq::empty(), "data-defined-at"@, range@);
                assert(lines_attr(*item) =~= Seq::<(Seq<char>, Seq<char>)>::empty().push(
                    ("data-defined-at"@, range@),
                ));
            }
        },
        _ => {},
    }
}

fn push_optional_attrs(s: &mut String, item: &KnowledgeRecord)
    ensures
        final(s)@ == old(s)@ + attrs_text(optional_attrs(*item)),
{
    let ghost head = s@;
    push_opt_attr(s, "data-domain", &item.domain);
    push_tags_attr(s, item);
    push_opt_attr(s, "data-claim-key", &item.claim_key);
    push_opt_attr(s, "data-path", &item.defined_path);
    push_lines_attr(s, item);
    let ghost before_text = s@;
    push_attr(s, "data-title", item.title.as_str());
    push_attr(s, "data-body-text", item.body_text.as_str());
    proof {
        let d = opt_attr("data-domain"@, opt_view(item.domain));
        let t = tags_attr(*item);
        let c = opt_attr("data-claim-key"@, opt_view(item.claim_key));
        let p = opt_attr("data-path"@, opt_view(item.defined_path));
        let l = lines_attr(*item);
        let ti = opt_attr("data-title"@, Some(item.title@));
        let bt = opt_attr("data-body-text"@, Some(item.body_text@));
        lemma_attrs_push(Seq::empty(), "data-title"@, item.title@);
        lemma_attrs_push(Seq::empty(), "data-body-text"@, item.body_text@);
        assert(ti =~= Seq::<(Seq<char>, Seq<char>)>::empty().push(("data-title"@, item.title@)));
        assert(bt =~= Seq::<(Seq<char>, Seq<char>)>::empty().push(
            ("data-body-text"@, item.body_text@),
        ));
        lemma_attrs_concat(d, t);
        lemma_attrs_concat(d + t, c);
        lemma_attrs_concat(d + t + c, p);
        lemma_attrs_concat(d + t + c + p, l);
        lemma_attrs_concat(d + t + c + p + l, ti);
        lemma_attrs_concat(d + t + c + p + l + ti, bt);
    }
    assert(s@ =~= head + attrs_text(optional_attrs(*item)));
}

/// Emit a `<section>` for an item, suitable for appending to a vault
/// file's `<body>`. The returned string ends with `\n`.
pub fn emit_section(item: &KnowledgeRecord) -> (s: String)
    ensures
        s@ == section_html(*item),
{
    let mut s = String::new();
    s.append("<section");
    push_fixed_attrs(&mut s, item);
    push_optional_attrs(&mut s, item);
    proof {
        lemma_attrs_concat(fixed_attrs(*item), optional_attrs(*item));
    }
    assert(s@ =~= "<section"@ + attrs_text(section_attrs(*item)));
    let ghost opened = s@;
    s.push('>');
    s.push('\n');
    s.append(item.body_html.as_str());
    s.push('\n');
    let footer = relations_footer_string(&item.relations);
    s.append(footer.as_str());
    assert(s@ =~= opened + seq!['>'] + section_inner(*item));
    s.append("</section>\n");
    s
}

/// The footer listing the relations of an item (see `relations_footer`).
pub fn relations_footer_string(rels: &Vec<Relation>) -> (s: String)
    ensures
        s@ == relations_footer(relations_view(rels@)),
{
    let mut s = String::new();
    if rels.len() > 0 {
        s.append("  <footer class=\"ctxk-meta\">\n");
        let ghost footer_start = s@;
        let mut i: usize = 0;
        while i < rels.len()
            invariant
                i <= rels.len(),
                s@ == footer_start + relation_lines(relations_view(rels@.take(i as int))),
            decreases rels.len() - i,
        {
            let rel = &rels[i];
            assert(relations_view(rels@.take(i + 1)).drop_last() =~= relations_view(
                rels@.take(i as int),
            ));
            assert(relations_view(rels@.take(i + 1)).last() == (rel.rel@, rel.target@));
            let ghost before = s@;
            s.append("    <span data-rel=\"");
            push_escaped(&mut s, rel.rel.as_str());
            s.append("\" data-target=\"");
            push_escaped(&mut s, rel.target.as_str());
            s.append("\"></span>\n");
            assert(s@ =~= before + relation_line((rel.rel@, rel.target@)));
            i += 1;
        }
        assert(rels@.take(rels.len() as int) =~= rels@);
        s.append("  </footer>\n");
    }
    s
}

} // verus!

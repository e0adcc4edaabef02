//! The context bundle handed back for a query: each chosen item as the
//! agent sees it, its vocabulary fields and instants written out as text.
//! The score and the confidence, which are floating-point numbers, are
//! added by the caller.
use vstd::prelude::*;
use crate::clock::{format_rfc3339, rfc3339_format, rfc3339_or_empty, rfc3339_text};
use crate::schema::{opt_view, KnowledgeRecord, Relation};
use crate::text::{copy_strings, strings_view, to_owned_string};

verus! {

/// A relation as it appears in a bundle.
#[derive(Debug)]
pub struct RelationView {
    pub rel: String,
    pub target: String,
}

/// The text fields of a bundle item.
#[derive(Debug)]
pub struct BundleText {
    pub id: String,
    pub knowledge_type: String,
    pub scope: String,
    pub title: String,
    pub body_html: String,
    pub body_text: String,
    pub source_type: String,
    pub status: String,
    pub stability: String,
    /// RFC 3339, empty when the instant cannot be written.
    pub created: String,
    pub modified: String,
    /// RFC 3339, absent when there is none or it cannot be written.
    pub valid_until: Option<String>,
    pub domain: Option<String>,
    pub tags: Vec<String>,
    pub relations: Vec<RelationView>,
}

pub open spec fn views_of(v: Seq<RelationView>) -> Seq<(Seq<char>, Seq<char>)> {
    v.map_values(|r: RelationView| (r.rel@, r.target@))
}

pub open spec fn relations_of(v: Seq<Relation>) -> Seq<(Seq<char>, Seq<char>)> {
    v.map_values(|r: Relation| (r.rel@, r.target@))
}

/// The relations of an item, in order.
pub fn relation_views(rels: &Vec<Relation>) -> (r: Vec<RelationView>)
    ensures
        views_of(r@) == relations_of(rels@),
{
    let mut r: Vec<RelationView> = Vec::new();
    let mut i: usize = 0;
    while i < rels.len()
        invariant
            i <= rels.len(),
            views_of(r@) == relations_of(rels@.take(i as int)),
        decreases rels.len() - i,
    {
        r.push(
            RelationView {
                rel: to_owned_string(rels[i].rel.as_str()),
                target: to_owned_string(rels[i].target.as_str()),
            },
        );
        i += 1;
        assert(relations_of(rels@.take(i as int)) =~= relations_of(rels@.take(i - 1)).push(
            (rels@[i - 1].rel@, rels@[i - 1].target@),
        ));
        assert(views_of(r@) =~= views_of(r@.drop_last()).push((r@.last().rel@, r@.last().target@)));
    }
    assert(rels@.take(rels.len() as int) =~= rels@);
    r
}

/// The text fields of an item's bundle entry: its id, vocabulary names,
/// title and bodies, instants in RFC 3339, domain, tags and relations.
pub fn bundle_text(item: &KnowledgeRecord) -> (b: BundleText)
    ensures
        b.id@ == item.id@,
        b.knowledge_type@ == item.knowledge_type.name(),
        b.scope@ == item.scope.name(),
        b.title@ == item.title@,
        b.body_html@ == item.body_html@,
        b.body_text@ == item.body_text@,
        b.source_type@ == item.source_type.name(),
        b.status@ == item.status.name(),
        b.stability@ == item.stability.name(),
        b.created@ == rfc3339_text(item.created),
        b.modified@ == rfc3339_text(item.modified),
        opt_view(b.valid_until) == match item.valid_until {
            Some(t) => rfc3339_format(t),
            None => None,
        },
        opt_view(b.domain) == opt_view(item.domain),
        strings_view(b.tags@) == strings_view(item.tags@),
        views_of(b.relations@) == relations_of(item.relations@),
{
    let valid_until = match &item.valid_until {
        Some(t) => format_rfc3339(t),
        None => None,
    };
    let domain = match &item.domain {
        Some(d) => Some(to_owned_string(d.as_str())),
        None => None,
    };
    BundleText {
        id: to_owned_string(item.id.as_str()),
        knowledge_type: to_owned_string(item.knowledge_type.as_str()),
        scope: to_owned_string(item.scope.as_str()),
        title: to_owned_string(item.title.as_str()),
        body_html: to_owned_string(item.body_html.as_str()),
        body_text: to_owned_string(item.body_text.as_str()),
        source_type: to_owned_string(item.source_type.as_str()),
        status: to_owned_string(item.status.as_str()),
        stability: to_owned_string(item.stability.as_str()),
        created: rfc3339_or_empty(&item.created),
        modified: rfc3339_or_empty(&item.modified),
        valid_until,
        domain,
        tags: copy_strings(&item.tags),
        relations: relation_views(&item.relations),
    }
}

} // verus!

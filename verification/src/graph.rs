//! The force-graph view of the vault: one node per item, one edge per
//! relation.
use vstd::prelude::*;
use crate::schema::{KnowledgeRecord, Relation};
use crate::text::{char_vec, slice_chars, string_from_chars, to_owned_string};

verus! {

#[derive(Debug)]
pub struct GraphNode {
    pub id: String,
    pub title: String,
    pub knowledge_type: String,
    pub scope: String,
    pub status: String,
    pub snippet: String,
}

#[derive(Debug)]
pub struct GraphEdge {
    pub source: String,
    pub target: String,
    pub rel: String,
}

#[derive(Debug)]
pub struct GraphData {
    pub nodes: Vec<GraphNode>,
    pub edges: Vec<GraphEdge>,
}

/// At most this many characters of the body are shown on a node.
pub const SNIPPET_CHARS: usize = 160;

/// The node of an item: titled by its title, or by its id when untitled,
/// with the first characters of its body text.
pub open spec fn is_node_of(item: KnowledgeRecord, n: GraphNode) -> bool {
    &&& n.id@ == item.id@
    &&& n.title@ == (if item.title@.len() == 0 {
        item.id@
    } else {
        item.title@
    })
    &&& n.knowledge_type@ == item.knowledge_type.name()
    &&& n.scope@ == item.scope.name()
    &&& n.status@ == item.status.name()
    &&& n.snippet@ == item.body_text@.take(
        if item.body_text@.len() < SNIPPET_CHARS {
            item.body_text@.len() as int
        } else {
            SNIPPET_CHARS as int
        },
    )
}

/// The edges of the items: for each item in order, one per relation.
pub open spec fn edges_of(items: Seq<KnowledgeRecord>) -> Seq<(Seq<char>, Seq<char>, Seq<char>)>
    decreases items.len(),
{
    if items.len() == 0 {
        Seq::empty()
    } else {
        edges_of(items.drop_last()) + items.last().relations@.map_values(
            |r: Relation| (items.last().id@, r.target@, r.rel@),
        )
    }
}

pub open spec fn edge_view(e: GraphEdge) -> (Seq<char>, Seq<char>, Seq<char>) {
    (e.source@, e.target@, e.rel@)
}

fn node_of(item: &KnowledgeRecord) -> (n: GraphNode)
    ensures
        is_node_of(*item, n),
{
    let cs = char_vec(item.body_text.as_str());
    let end = if cs.len() < SNIPPET_CHARS {
        cs.len()
    } else {
        SNIPPET_CHARS
    };
    let snippet = string_from_chars(&slice_chars(&cs, 0, end));
    assert(cs@.subrange(0, end as int) =~= item.body_text@.take(end as int));
    GraphNode {
        id: item.id.clone(),
        title: if item.title.as_str().is_empty() {
            item.id.clone()
        } else {
            item.title.clone()
        },
        knowledge_type: to_owned_string(item.knowledge_type.as_str()),
        scope: to_owned_string(item.scope.as_str()),
        status: to_owned_string(item.status.as_str()),
        snippet,
    }
}

/// The nodes and edges of the graph view.
pub fn graph_data(items: &Vec<KnowledgeRecord>) -> (g: GraphData)
    ensures
        g.nodes.len() == items.len(),
        forall|i: int| 0 <= i < items.len() ==> is_node_of(items@[i], #[trigger] g.nodes@[i]),
        g.edges@.map_values(|e: GraphEdge| edge_view(e)) == edges_of(items@),
{
    let mut nodes: Vec<GraphNode> = Vec::new();
    let mut edges: Vec<GraphEdge> = Vec::new();
    let mut i: usize = 0;
    while i < items.len()
        invariant
            i <= items.len(),
            nodes.len() == i,
            forall|j: int| 0 <= j < i ==> is_node_of(items@[j], #[trigger] nodes@[j]),
            edges@.map_values(|e: GraphEdge| edge_view(e)) == edges_of(items@.take(i as int)),
        decreases items.len() - i,
    {
        let it = &items[i];
        nodes.push(node_of(it));
        let ghost before = edges@.map_values(|e: GraphEdge| edge_view(e));
        assert(items@.take(i + 1).drop_last() =~= items@.take(i as int));
        assert(items@.take(i + 1).last() == *it);
        let mut k: usize = 0;
        while k < it.relations.len()
            invariant
                k <= it.relations.len(),
                edges@.map_values(|e: GraphEdge| edge_view(e)) == before + it.relations@.take(
                    k as int,
                ).map_values(|r: Relation| (it.id@, r.target@, r.rel@)),
            decreases it.relations.len() - k,
        {
            let r = &it.relations[k];
            let ghost prev = edges@;
            edges.push(GraphEdge { source: it.id.clone(), target: r.target.clone(), rel: r.rel.clone() });
            assert(edges@.map_values(|e: GraphEdge| edge_view(e)) =~= prev.map_values(
                |e: GraphEdge| edge_view(e),
            ).push((it.id@, r.target@, r.rel@)));
            assert(it.relations@.take(k + 1).map_values(|r: Relation| (it.id@, r.target@, r.rel@))
                =~= it.relations@.take(k as int).map_values(
                |r: Relation| (it.id@, r.target@, r.rel@),
            ).push((it.id@, r.target@, r.rel@)));
            k += 1;
        }
        assert(it.relations@.take(it.relations.len() as int) =~= it.relations@);
        i += 1;
    }
    assert(items@.take(items.len() as int) =~= items@);
    GraphData { nodes, edges }
}

} // verus!

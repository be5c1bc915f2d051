//! Nodes and Clash chunks tagged with the name of their source.
use vstd::prelude::*;
use crate::text::{lemma_map_take_push, lemma_string_views, lemma_string_views_push, string_views};

verus! {

/// A node link and the source it came from.
#[derive(Debug, Clone)]
pub struct TaggedNode {
    pub node: String,
    pub source: String,
}

/// The model of a tagged node: its link and its source name.
pub type TagView = (Seq<char>, Seq<char>);

impl View for TaggedNode {
    type V = TagView;

    open spec fn view(&self) -> TagView {
        (self.node@, self.source@)
    }
}

/// The models of a sequence of tagged nodes.
pub open spec fn tag_views(v: Seq<TaggedNode>) -> Seq<TagView> {
    v.map_values(|t: TaggedNode| t@)
}

pub proof fn lemma_tag_views_push(v: Seq<TaggedNode>, x: TaggedNode)
    ensures
        tag_views(v.push(x)) == tag_views(v).push(x@),
{
    assert(tag_views(v.push(x)) =~= tag_views(v).push(x@));
}

pub proof fn lemma_tag_views_insert(v: Seq<TaggedNode>, p: int, x: TaggedNode)
    requires
        0 <= p <= v.len(),
    ensures
        tag_views(v.insert(p, x)) == tag_views(v).insert(p, x@),
{
    v.insert_ensures(p, x);
    tag_views(v).insert_ensures(p, x@);
    assert forall|k: int| 0 <= k < v.len() + 1 implies tag_views(v.insert(p, x))[k] == tag_views(
        v,
    ).insert(p, x@)[k] by {
        if k > p {
            assert(v.insert(p, x)[(k - 1) + 1] == v[k - 1]);
            assert(tag_views(v).insert(p, x@)[(k - 1) + 1] == tag_views(v)[k - 1]);
        }
    }
    assert(tag_views(v.insert(p, x)) =~= tag_views(v).insert(p, x@));
}

pub proof fn lemma_tag_views_update(v: Seq<TaggedNode>, p: int, x: TaggedNode)
    requires
        0 <= p < v.len(),
    ensures
        tag_views(v.update(p, x)) == tag_views(v).update(p, x@),
{
    assert(tag_views(v.update(p, x)) =~= tag_views(v).update(p, x@));
}

impl TaggedNode {
    /// A node tagged with `source`.
    pub fn new(node: String, source: &str) -> (r: TaggedNode)
        ensures
            r.node == node,
            r.source@ == source@,
    {
        TaggedNode { node, source: source.to_owned() }
    }

    /// A copy with the same link and source.
    pub fn duplicate(&self) -> (r: TaggedNode)
        ensures
            r@ == self@,
    {
        TaggedNode { node: self.node.clone(), source: self.source.clone() }
    }
}

/// A Clash document and the source it came from.
#[derive(Debug, Clone)]
pub struct TaggedChunk {
    pub body: String,
    pub source: String,
}

impl View for TaggedChunk {
    type V = TagView;

    open spec fn view(&self) -> TagView {
        (self.body@, self.source@)
    }
}

/// The models of a sequence of tagged chunks.
pub open spec fn chunk_views(v: Seq<TaggedChunk>) -> Seq<TagView> {
    v.map_values(|t: TaggedChunk| t@)
}

pub proof fn lemma_chunk_views_push(v: Seq<TaggedChunk>, x: TaggedChunk)
    ensures
        chunk_views(v.push(x)) == chunk_views(v).push(x@),
{
    assert(chunk_views(v.push(x)) =~= chunk_views(v).push(x@));
}

impl TaggedChunk {
    /// A chunk tagged with `source`.
    pub fn new(body: String, source: &str) -> (r: TaggedChunk)
        ensures
            r.body == body,
            r.source@ == source@,
    {
        TaggedChunk { body, source: source.to_owned() }
    }

    /// A copy with the same body and source.
    pub fn duplicate(&self) -> (r: TaggedChunk)
        ensures
            r@ == self@,
    {
        TaggedChunk { body: self.body.clone(), source: self.source.clone() }
    }
}

/// The links of tagged nodes, in order.
pub fn nodes_only(tagged: &[TaggedNode]) -> (r: Vec<String>)
    ensures
        r.deep_view() == tag_views(tagged@).map_values(|t: TagView| t.0),
{
    let mut r: Vec<String> = Vec::new();
    let mut i: usize = 0;
    while i < tagged.len()
        invariant
            i <= tagged.len(),
            string_views(r@) == tag_views(tagged@).take(i as int).map_values(|t: TagView| t.0),
        decreases tagged.len() - i,
    {
        let x = tagged[i].node.clone();
        proof {
            lemma_string_views_push(r@, x);
            lemma_map_take_push(tag_views(tagged@), |t: TagView| t.0, i as int);
        }
        r.push(x);
        i = i + 1;
    }
    assert(tag_views(tagged@).take(tagged.len() as int) == tag_views(tagged@));
    proof {
        lemma_string_views(r);
    }
    r
}

} // verus!

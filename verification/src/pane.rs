//! Panes: the tree that splits a window into views.
use vstd::prelude::*;

verus! {

/// The id of a pane within its window.
#[derive(Debug, Clone, Copy, PartialEq, Eq, Structural)]
pub struct PaneId(pub u32);

/// A pane: its id and the view it shows.
#[derive(Debug, Clone)]
pub struct Pane<V> {
    pub id: PaneId,
    pub view: V,
}

/// How a split lays out its children.
#[derive(Debug, Clone, Copy, PartialEq, Eq, Structural)]
pub enum Direction {
    Horizontal,
    Vertical,
}

/// A tree of panes: a leaf holds a pane; a split holds children and the weight of
/// each (their share of the space).
#[derive(Debug)]
pub enum PaneNode<V, W> {
    Leaf(Pane<V>),
    Split { direction: Direction, children: Vec<PaneNode<V, W>>, weights: Vec<W> },
}

impl<V, W> PaneNode<V, W> {
    /// The panes at the leaves, left to right.
    pub open spec fn leaves(self) -> Seq<Pane<V>>
        decreases self,
    {
        match self {
            PaneNode::Leaf(p) => seq![p],
            PaneNode::Split { children, .. } => leaves_of(children@),
        }
    }
}

/// The leaves of a list of trees, tree after tree.
pub open spec fn leaves_of<V, W>(nodes: Seq<PaneNode<V, W>>) -> Seq<Pane<V>>
    decreases nodes,
{
    if nodes.len() == 0 {
        Seq::empty()
    } else {
        leaves_of(nodes.drop_last()) + nodes.last().leaves()
    }
}

/// The first pane with the given id, left to right.
pub open spec fn first_with_id<V>(panes: Seq<Pane<V>>, id: PaneId) -> Option<Pane<V>>
    decreases panes.len(),
{
    if panes.len() == 0 {
        None
    } else if panes[0].id == id {
        Some(panes[0])
    } else {
        first_with_id(panes.drop_first(), id)
    }
}


pub proof fn lemma_first_with_id_concat<V>(a: Seq<Pane<V>>, b: Seq<Pane<V>>, id: PaneId)
    ensures
        first_with_id(a + b, id) == match first_with_id(a, id) {
            Some(p) => Some(p),
            None => first_with_id(b, id),
        },
    decreases a.len(),
{
    if a.len() > 0 {
        assert((a + b).drop_first() =~= a.drop_first() + b);
        assert((a + b)[0] == a[0]);
        lemma_first_with_id_concat(a.drop_first(), b, id);
    } else {
        assert(a + b =~= b);
    }
}

pub open spec fn found_matches<V>(r: Option<&Pane<V>>, s: Option<Pane<V>>) -> bool {
    match r {
        Some(p) => s == Some(*p),
        None => s is None,
    }
}

impl<V, W> PaneNode<V, W> {
    /// The first pane, left to right, with the given id.
    pub fn find(&self, id: PaneId) -> (r: Option<&Pane<V>>)
        ensures
            found_matches(r, first_with_id(self.leaves(), id)),
        decreases self,
    {
        match self {
            PaneNode::Leaf(pane) => {
                assert(self.leaves() == seq![*pane]);
                assert(seq![*pane][0] == *pane);
                if pane.id == id {
                    assert(first_with_id(seq![*pane], id) == Some(*pane));
                    Some(pane)
                } else {
                    proof {
                        assert(seq![*pane].drop_first() =~= Seq::<Pane<V>>::empty());
                        assert(first_with_id(Seq::<Pane<V>>::empty(), id) is None);
                        assert(seq![*pane][0].id != id);
                        assert(first_with_id(seq![*pane], id) is None);
                    }
                    None
                }
            },
            PaneNode::Split { children, .. } => {
                let mut i: usize = 0;
                proof {
                    assert(children@.take(0) =~= Seq::<PaneNode<V, W>>::empty());
                }
                while i < children.len()
                    invariant
                        i <= children.len(),
                        *self matches PaneNode::Split { children: cs, .. } && cs == children,
                        first_with_id(leaves_of(children@.take(i as int)), id) is None,
                    decreases children.len() - i,
                {
                    let child = &children[i];
                    let r = child.find(id);
                    proof {
                        assert(children@.take(i + 1).drop_last() =~= children@.take(i as int));
                        lemma_first_with_id_concat(leaves_of(children@.take(i as int)), child.leaves(), id);
                    }
                    if r.is_some() {
                        proof {
                            lemma_first_with_id_concat(
                                leaves_of(children@.take(i + 1)),
                                leaves_of(children@.skip(i + 1)),
                                id,
                            );
                            lemma_leaves_of_split(children@, i + 1);
                        }
                        assert(leaves_of(children@) == self.leaves());
                        return r;
                    }
                    i = i + 1;
                }
                proof {
                    assert(children@.take(i as int) =~= children@);
                }
                None
            },
        }
    }
}

pub proof fn lemma_leaves_of_split<V, W>(nodes: Seq<PaneNode<V, W>>, k: int)
    requires
        0 <= k <= nodes.len(),
    ensures
        leaves_of(nodes) == leaves_of(nodes.take(k)) + leaves_of(nodes.skip(k)),
    decreases nodes.len(),
{
    if k == nodes.len() {
        assert(nodes.take(k) =~= nodes);
        assert(nodes.skip(k) =~= Seq::<PaneNode<V, W>>::empty());
        assert(leaves_of(nodes) + Seq::<Pane<V>>::empty() =~= leaves_of(nodes));
    } else {
        lemma_leaves_of_split(nodes.drop_last(), k);
        assert(nodes.drop_last().take(k) =~= nodes.take(k));
        assert(nodes.skip(k).drop_last() =~= nodes.drop_last().skip(k));
        assert(nodes.skip(k).last() == nodes.last());
        assert(leaves_of(nodes.take(k)) + leaves_of(nodes.skip(k)) =~= leaves_of(nodes.take(k)) + leaves_of(
            nodes.drop_last().skip(k),
        ) + nodes.last().leaves());
    }
}

} // verus!

//! The tree of text groupings that every later stage works on.

use vstd::prelude::*;
use crate::text::{lemma_trimmed_idempotent, trim, trimmed};

verus! {

/// A node of extracted text: either one string, or an ordered group of nodes.
#[derive(Debug, PartialEq, Eq, Hash)]
pub enum Chunk {
    /// An ordered group of nodes.
    Chunks(Vec<Chunk>),
    /// A leaf: one string.
    String(String),
}

/// The mathematical value of a [`Chunk`].
pub enum ChunkView {
    Leaf(Seq<char>),
    Group(Seq<ChunkView>),
}

impl View for Chunk {
    type V = ChunkView;

    open spec fn view(&self) -> ChunkView
        decreases self,
    {
        match self {
            Chunk::String(s) => ChunkView::Leaf(s@),
            Chunk::Chunks(v) => ChunkView::Group(views(v@)),
        }
    }
}

impl Chunk {
    /// The leaf with the given text.
    pub fn leaf(text: String) -> (r: Chunk)
        ensures
            r@ == ChunkView::Leaf(text@),
    {
        Chunk::String(text)
    }

    /// The group of the given nodes, in their order.
    pub fn group(children: Vec<Chunk>) -> (r: Chunk)
        ensures
            r@ == ChunkView::Group(views(children@)),
    {
        Chunk::Chunks(children)
    }

    /// The children of a group; `None` for a leaf.
    pub fn get_contained(&self) -> (r: Option<&[Chunk]>)
        ensures
            match self@ {
                ChunkView::Leaf(_) => r is None,
                ChunkView::Group(cs) => r is Some && views(r.unwrap()@) == cs,
            },
    {
        match self {
            Chunk::String(_) => None,
            Chunk::Chunks(v) => {
                Some(v.as_slice())
            },
        }
    }

    /// The text of a leaf; `None` for a group.
    pub fn get_string(&self) -> (r: Option<&str>)
        ensures
            match self@ {
                ChunkView::Leaf(s) => r is Some && r.unwrap()@ == s,
                ChunkView::Group(_) => r is None,
            },
    {
        match self {
            Chunk::String(s) => Some(s.as_str()),
            Chunk::Chunks(_) => None,
        }
    }

    /// The compact form of this tree: every leaf trimmed, and every group of
    /// exactly one element replaced by that element, from the leaves up.
    pub fn simplify(self) -> (r: Chunk)
        ensures
            r@ == simplified(self@),
            is_compact(r@),
        decreases self,
    {
        proof {
            lemma_simplified_is_compact(self@);
        }
        match self {
            Chunk::String(s) => Chunk::String(trim(s.as_str()).to_owned()),
            Chunk::Chunks(v) => {
                let ghost children = v@;
                let mut fresh: Vec<Chunk> = Vec::new();
                proof {
                    assert(views(fresh@) =~= simplified_all(views(children)).take(0));
                    assert forall|i: int| 0 <= i < children.len() implies
                        decreases_to!(self => #[trigger] children[i]) by {
                        assert(decreases_to!(self => v));
                        assert(decreases_to!(v => v@));
                        assert(decreases_to!(v@ => v@[i]));
                    }
                }
                for c in it: v
                    invariant
                        it.seq() == children,
                        views(fresh@) == simplified_all(views(children)).take(it.index() as int),
                        forall|i: int|
                            0 <= i < children.len() ==>
                                decreases_to!(self => #[trigger] children[i]),
                {
                    let ghost before = fresh@;
                    assert(c == children[it.index() as int]);
                    fresh.push(c.simplify());
                    proof {
                        assert(views(fresh@) =~= views(before).push(simplified(c@)));
                        assert(views(fresh@) =~= simplified_all(views(children)).take(
                            it.index() + 1,
                        ));
                    }
                }
                proof {
                    assert(simplified_all(views(children)).take(children.len() as int)
                        =~= simplified_all(views(children)));
                }
                if fresh.len() == 1 {
                    fresh.pop().unwrap()
                } else {
                    Chunk::Chunks(fresh)
                }
            },
        }
    }

    /// Whether this node is a group.
    pub fn is_chunks(&self) -> (r: bool)
        ensures
            r == (self@ is Group),
    {
        match self {
            Chunk::String(_) => false,
            Chunk::Chunks(_) => true,
        }
    }
}

impl Clone for Chunk {
    /// A copy of the tree.
    fn clone(&self) -> (r: Chunk)
        ensures
            r@ == self@,
        decreases self,
    {
        match self {
            Chunk::String(s) => Chunk::String(s.clone()),
            Chunk::Chunks(v) => {
                let mut out: Vec<Chunk> = Vec::new();
                let mut i: usize = 0;
                proof {
                    assert forall|k: int| 0 <= k < v@.len() implies
                        decreases_to!(self => #[trigger] v@[k]) by {
                        assert(decreases_to!(self => v));
                        assert(decreases_to!(v => v@));
                        assert(decreases_to!(v@ => v@[k]));
                    }
                }
                while i < v.len()
                    invariant
                        i <= v.len(),
                        forall|k: int|
                            0 <= k < v@.len() ==> decreases_to!(self => #[trigger] v@[k]),
                        views(out@) == views(v@).take(i as int),
                    decreases v.len() - i,
                {
                    let ghost before = out@;
                    let copy = v[i].clone();
                    out.push(copy);
                    proof {
                        assert(views(out@) =~= views(before).push(copy@));
                        assert(views(out@) =~= views(v@).take(i + 1));
                    }
                    i += 1;
                }
                proof {
                    assert(views(out@) =~= views(v@));
                }
                Chunk::Chunks(out)
            },
        }
    }
}

/// The values of a sequence of chunks, element by element.
pub open spec fn views(chunks: Seq<Chunk>) -> Seq<ChunkView>
    decreases chunks,
{
    Seq::new(
        chunks.len(),
        |i: int|
            if 0 <= i < chunks.len() {
                chunks[i]@
            } else {
                arbitrary()
            },
    )
}

/// The values of the chunks of each page of a list.
pub open spec fn page_views(pages: Seq<Vec<Chunk>>) -> Seq<Seq<ChunkView>> {
    Seq::new(pages.len(), |i: int| views(pages[i]@))
}

/// The compact form of a tree: every leaf trimmed, and every group of
/// exactly one element replaced by that element, from the leaves up. A leaf
/// that trims to nothing stays, as an empty leaf.
pub open spec fn simplified(c: ChunkView) -> ChunkView
    decreases c,
{
    match c {
        ChunkView::Leaf(s) => ChunkView::Leaf(trimmed(s)),
        ChunkView::Group(children) => {
            let fresh = simplified_all(children);
            if fresh.len() == 1 {
                fresh[0]
            } else {
                ChunkView::Group(fresh)
            }
        },
    }
}

/// The compact form of each tree of a list.
pub open spec fn simplified_all(chunks: Seq<ChunkView>) -> Seq<ChunkView>
    decreases chunks,
{
    Seq::new(
        chunks.len(),
        |i: int|
            if 0 <= i < chunks.len() {
                simplified(chunks[i])
            } else {
                arbitrary()
            },
    )
}

/// Whether a tree is in compact form: no leaf has surrounding whitespace, and
/// no group has exactly one element.
pub open spec fn is_compact(c: ChunkView) -> bool
    decreases c,
{
    match c {
        ChunkView::Leaf(s) => trimmed(s) == s,
        ChunkView::Group(children) => children.len() != 1 && forall|i: int|
            0 <= i < children.len() ==> is_compact(#[trigger] children[i]),
    }
}

/// The texts of the leaves of a tree, from left to right.
pub open spec fn leaf_texts(c: ChunkView) -> Seq<Seq<char>>
    decreases c,
{
    match c {
        ChunkView::Leaf(s) => seq![s],
        ChunkView::Group(children) => leaf_texts_of(children),
    }
}

/// The texts of the leaves of a list of trees, from left to right.
pub open spec fn leaf_texts_of(chunks: Seq<ChunkView>) -> Seq<Seq<char>>
    decreases chunks,
{
    if chunks.len() == 0 {
        seq![]
    } else {
        leaf_texts_of(chunks.drop_last()) + leaf_texts(chunks.last())
    }
}

/// Each text of a list, trimmed.
pub open spec fn trimmed_all(texts: Seq<Seq<char>>) -> Seq<Seq<char>> {
    Seq::new(texts.len(), |i: int| trimmed(texts[i]))
}

/// What `simplify` returns is in compact form.
pub proof fn lemma_simplified_is_compact(c: ChunkView)
    ensures
        is_compact(simplified(c)),
    decreases c,
{
    match c {
        ChunkView::Leaf(s) => {
            lemma_trimmed_idempotent(s);
        },
        ChunkView::Group(children) => {
            let fresh = simplified_all(children);
            assert forall|i: int| 0 <= i < fresh.len() implies is_compact(#[trigger] fresh[i]) by {
                lemma_simplified_is_compact(children[i]);
            }
        },
    }
}

/// A tree in compact form is its own compact form.
pub proof fn lemma_compact_is_fixed(c: ChunkView)
    requires
        is_compact(c),
    ensures
        simplified(c) == c,
    decreases c,
{
    match c {
        ChunkView::Leaf(s) => {},
        ChunkView::Group(children) => {
            assert forall|i: int| 0 <= i < children.len() implies simplified(children[i])
                == children[i] by {
                lemma_compact_is_fixed(children[i]);
            }
            assert(simplified_all(children) =~= children);
        },
    }
}

/// Simplifying twice is simplifying once.
pub proof fn lemma_simplify_idempotent(c: ChunkView)
    ensures
        simplified(simplified(c)) == simplified(c),
{
    lemma_simplified_is_compact(c);
    lemma_compact_is_fixed(simplified(c));
}

/// Simplifying keeps the leaves and their order: the leaf texts of the
/// compact form are the leaf texts of the tree, each trimmed.
pub proof fn lemma_simplify_keeps_leaf_order(c: ChunkView)
    ensures
        leaf_texts(simplified(c)) == trimmed_all(leaf_texts(c)),
    decreases c, 1int,
{
    match c {
        ChunkView::Leaf(s) => {
            assert(leaf_texts(simplified(c)) =~= trimmed_all(leaf_texts(c)));
        },
        ChunkView::Group(children) => {
            let fresh = simplified_all(children);
            lemma_simplify_all_keeps_leaf_order(children);
            if fresh.len() == 1 {
                assert(fresh.drop_last() =~= Seq::<ChunkView>::empty());
                assert(leaf_texts_of(Seq::<ChunkView>::empty()) =~= Seq::<Seq<char>>::empty());
                assert(leaf_texts_of(fresh) =~= leaf_texts(fresh[0]));
            }
        },
    }
}

/// Simplifying keeps the leaf texts of a tree whose leaves have no
/// surrounding whitespace as they are, in their order.
pub proof fn lemma_simplify_keeps_trimmed_leaves(c: ChunkView)
    requires
        forall|i: int| 0 <= i < leaf_texts(c).len() ==> trimmed(#[trigger] leaf_texts(c)[i])
            == leaf_texts(c)[i],
    ensures
        leaf_texts(simplified(c)) == leaf_texts(c),
{
    lemma_simplify_keeps_leaf_order(c);
    assert(trimmed_all(leaf_texts(c)) =~= leaf_texts(c));
}

/// Simplifying each tree of a list keeps the leaves of the list and their
/// order.
pub proof fn lemma_simplify_all_keeps_leaf_order(chunks: Seq<ChunkView>)
    ensures
        leaf_texts_of(simplified_all(chunks)) == trimmed_all(leaf_texts_of(chunks)),
    decreases chunks, 0int,
{
    if chunks.len() == 0 {
        assert(leaf_texts_of(simplified_all(chunks)) =~= trimmed_all(leaf_texts_of(chunks)));
    } else {
        lemma_simplify_all_keeps_leaf_order(chunks.drop_last());
        lemma_simplify_keeps_leaf_order(chunks.last());
        assert(simplified_all(chunks).drop_last() =~= simplified_all(chunks.drop_last()));
        assert(simplified_all(chunks).last() == simplified(chunks.last()));
        assert(trimmed_all(leaf_texts_of(chunks.drop_last()) + leaf_texts(chunks.last()))
            =~= trimmed_all(leaf_texts_of(chunks.drop_last())) + trimmed_all(
            leaf_texts(chunks.last()),
        ));
    }
}

} // verus!

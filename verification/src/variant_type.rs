//! The type-description tree that drives the encoder.
//!
//! A [`VariantTypeNode`] stores a wire type together with, for every
//! structurally ambiguous position (tuple slot, array or maybe element,
//! dictionary key and value, enum variant payload), the node describing
//! that position.  For an enum it additionally carries the tag scheme: the
//! tagging mode and, per variant, the declared name and discriminant.
//!
//! The static descriptor may be sparse: [`child_type_or_default`] falls
//! back to deriving a child node from the parent's type alone.

use crate::ty::{ty_view, TyV, VariantTy};
use vstd::prelude::*;

verus! {

/// The width and signedness of an integer enum tag.
#[derive(Debug, Clone, Copy, PartialEq, Eq, Structural)]
pub enum ReprWidth {
    Signed8,
    Signed16,
    Signed32,
    Signed64,
    Unsigned8,
    Unsigned16,
    Unsigned32,
    Unsigned64,
}

impl ReprWidth {
    /// The wire type an integer tag of this width is encoded at.  There is
    /// no 8-bit signed wire type, so that width is promoted to the 16-bit
    /// signed one.
    pub open spec fn tag_ty(self) -> TyV {
        match self {
            ReprWidth::Signed8 => TyV::Int16,
            ReprWidth::Signed16 => TyV::Int16,
            ReprWidth::Signed32 => TyV::Int32,
            ReprWidth::Signed64 => TyV::Int64,
            ReprWidth::Unsigned8 => TyV::Byte,
            ReprWidth::Unsigned16 => TyV::Uint16,
            ReprWidth::Unsigned32 => TyV::Uint32,
            ReprWidth::Unsigned64 => TyV::Uint64,
        }
    }

    /// Whether the signed or unsigned range of this width contains `x`.
    pub open spec fn fits(self, x: int) -> bool {
        match self {
            ReprWidth::Signed8 => -128 <= x <= 127,
            ReprWidth::Signed16 => -0x8000 <= x <= 0x7fff,
            ReprWidth::Signed32 => -0x8000_0000 <= x <= 0x7fff_ffff,
            ReprWidth::Signed64 => -0x8000_0000_0000_0000 <= x <= 0x7fff_ffff_ffff_ffff,
            ReprWidth::Unsigned8 => 0 <= x <= 255,
            ReprWidth::Unsigned16 => 0 <= x <= 0xffff,
            ReprWidth::Unsigned32 => 0 <= x <= 0xffff_ffff,
            ReprWidth::Unsigned64 => 0 <= x <= 0xffff_ffff_ffff_ffff,
        }
    }

    pub open spec fn is_unsigned(self) -> bool {
        match self {
            ReprWidth::Unsigned8 | ReprWidth::Unsigned16 | ReprWidth::Unsigned32
            | ReprWidth::Unsigned64 => true,
            _ => false,
        }
    }
}

/// How an enum's discriminant is written on the wire.
#[derive(Debug, Clone, Copy, PartialEq, Eq, Structural)]
pub enum TagMode {
    /// The variant's declared textual name; the tag type is `s`.
    Name,
    /// The 0-based declaration index, at an unsigned width.
    Ordinal(ReprWidth),
    /// The declared discriminant value, at an explicit width.
    Repr(ReprWidth),
}

impl TagMode {
    /// The wire type of the tag under this mode.
    pub open spec fn tag_ty(self) -> TyV {
        match self {
            TagMode::Name => TyV::Str,
            TagMode::Ordinal(w) => w.tag_ty(),
            TagMode::Repr(w) => w.tag_ty(),
        }
    }
}

/// The representation-mode tag-width table: each declared width and
/// signedness maps to its documented wire type, with 8-bit signed promoted
/// to the 16-bit signed wire type.
pub proof fn lemma_tag_width_table()
    ensures
        TagMode::Repr(ReprWidth::Signed8).tag_ty() == TyV::Int16,
        TagMode::Repr(ReprWidth::Signed16).tag_ty() == TyV::Int16,
        TagMode::Repr(ReprWidth::Signed32).tag_ty() == TyV::Int32,
        TagMode::Repr(ReprWidth::Signed64).tag_ty() == TyV::Int64,
        TagMode::Repr(ReprWidth::Unsigned8).tag_ty() == TyV::Byte,
        TagMode::Repr(ReprWidth::Unsigned16).tag_ty() == TyV::Uint16,
        TagMode::Repr(ReprWidth::Unsigned32).tag_ty() == TyV::Uint32,
        TagMode::Repr(ReprWidth::Unsigned64).tag_ty() == TyV::Uint64,
{
}

/// One variant in a tag scheme: its declared name and discriminant.
#[derive(Debug, PartialEq, Eq)]
pub struct TagEntry {
    pub name: String,
    pub disc: i64,
}

/// The mathematical model of a [`TagEntry`].
#[verifier::ext_equal]
pub struct TagEntryV {
    pub name: Seq<char>,
    pub disc: i64,
}

impl View for TagEntry {
    type V = TagEntryV;

    open spec fn view(&self) -> TagEntryV {
        TagEntryV { name: self.name@, disc: self.disc }
    }
}

/// The tag scheme of an enum: the tagging mode and one entry per variant,
/// in declaration order.
#[derive(Debug, PartialEq, Eq)]
pub struct TagScheme {
    pub mode: TagMode,
    pub variants: Vec<TagEntry>,
}

/// The mathematical model of a [`TagScheme`].
#[verifier::ext_equal]
pub struct TagSchemeV {
    pub mode: TagMode,
    pub variants: Seq<TagEntryV>,
}

impl View for TagScheme {
    type V = TagSchemeV;

    open spec fn view(&self) -> TagSchemeV {
        TagSchemeV { mode: self.mode, variants: Seq::new(self.variants@.len(), |i: int| self.variants@[i]@) }
    }
}

/// The mathematical model of a [`VariantTypeNode`].
#[verifier::ext_equal]
pub struct NodeV {
    pub ty: TyV,
    pub child_tys: Seq<NodeV>,
    pub tag: Option<TagSchemeV>,
}

impl NodeV {
    /// A node holding a type alone, with no children and no tag scheme.
    pub open spec fn leaf(t: TyV) -> NodeV {
        NodeV { ty: t, child_tys: Seq::empty(), tag: None }
    }
}

/// A tree node that stores the wire type of a position together with the
/// nodes of its structurally ambiguous children.
#[derive(Debug)]
pub struct VariantTypeNode {
    pub ty: VariantTy,
    pub child_tys: Vec<VariantTypeNode>,
    pub tag: Option<TagScheme>,
}

/// The mathematical value of an executable type-description node.
pub open spec fn node_view(n: VariantTypeNode) -> NodeV
    decreases n,
{
    NodeV {
        ty: ty_view(n.ty),
        child_tys: nodes_view(n.child_tys@),
        tag: match n.tag {
            Some(s) => Some(s@),
            None => None,
        },
    }
}

/// The mathematical values of a sequence of nodes.
pub open spec fn nodes_view(ns: Seq<VariantTypeNode>) -> Seq<NodeV>
    decreases ns,
{
    if ns.len() == 0 {
        Seq::empty()
    } else {
        nodes_view(ns.drop_last()).push(node_view(ns.last()))
    }
}

/// `nodes_view` maps `node_view` over the sequence, position by position.
pub proof fn lemma_nodes_view(ns: Seq<VariantTypeNode>)
    ensures
        nodes_view(ns).len() == ns.len(),
        forall|i: int| 0 <= i < ns.len() ==> nodes_view(ns)[i] == node_view(ns[i]),
    decreases ns,
{
    if ns.len() > 0 {
        lemma_nodes_view(ns.drop_last());
    }
}

impl View for VariantTypeNode {
    type V = NodeV;

    open spec fn view(&self) -> NodeV {
        node_view(*self)
    }
}

impl VariantTypeNode {
    /// A node from a type and its child nodes, with no tag scheme.
    pub fn new(ty: VariantTy, child_tys: Vec<VariantTypeNode>) -> (n: VariantTypeNode)
        ensures
            n@ == (NodeV { ty: ty@, child_tys: nodes_view(child_tys@), tag: None::<TagSchemeV> }),
    {
        VariantTypeNode { ty, child_tys, tag: None }
    }

    /// A node for an enum: the wrapper type, one child node per variant,
    /// and the tag scheme.
    pub fn new_enum(ty: VariantTy, child_tys: Vec<VariantTypeNode>, tag: TagScheme) -> (n:
        VariantTypeNode)
        ensures
            n@ == (NodeV {
                ty: ty@,
                child_tys: nodes_view(child_tys@),
                tag: Some(tag@),
            }),
    {
        VariantTypeNode { ty, child_tys, tag: Some(tag) }
    }

    /// The wire type this node describes.
    pub fn type_(&self) -> (t: &VariantTy)
        ensures
            t@ == self@.ty,
    {
        &self.ty
    }

    /// The child nodes, positionally.
    pub fn child_types(&self) -> (c: &Vec<VariantTypeNode>)
        ensures
            nodes_view(c@) == self@.child_tys,
    {
        &self.child_tys
    }

    /// The tag scheme, present on enum nodes.
    pub fn tag_scheme(&self) -> (t: &Option<TagScheme>)
        ensures
            match t {
                Some(s) => self@.tag == Some(s@),
                None => self@.tag is None,
            },
    {
        &self.tag
    }

    /// An identical copy of this node.
    #[verifier::loop_isolation(false)]
    pub fn duplicate(&self) -> (r: VariantTypeNode)
        ensures
            r@ == self@,
        decreases self,
    {
        let ty = self.ty.duplicate();
        let mut out: Vec<VariantTypeNode> = Vec::new();
        let mut j: usize = 0;
        while j < self.child_tys.len()
            invariant
                0 <= j <= self.child_tys.len(),
                out@.len() == j,
                forall|i: int|
                    0 <= i < j ==> node_view(out@[i]) == node_view(self.child_tys@[i]),
            decreases self.child_tys.len() - j,
        {
            let c = self.child_tys[j].duplicate();
            out.push(c);
            j += 1;
        }
        proof {
            lemma_nodes_view(out@);
            lemma_nodes_view(self.child_tys@);
            assert(nodes_view(out@) =~= nodes_view(self.child_tys@));
        }
        let tag = match &self.tag {
            Some(s) => {
                let mut vs: Vec<TagEntry> = Vec::new();
                let mut k: usize = 0;
                while k < s.variants.len()
                    invariant
                        0 <= k <= s.variants.len(),
                        vs@.len() == k,
                        forall|i: int| 0 <= i < k ==> vs@[i]@ == s.variants@[i]@,
                    decreases s.variants.len() - k,
                {
                    let e = &s.variants[k];
                    vs.push(TagEntry { name: e.name.clone(), disc: e.disc });
                    k += 1;
                }
                proof {
                    assert(Seq::new(vs@.len(), |i: int| vs@[i]@) =~= Seq::new(
                        s.variants@.len(),
                        |i: int| s.variants@[i]@,
                    ));
                }
                Some(TagScheme { mode: s.mode, variants: vs })
            },
            None => None,
        };
        VariantTypeNode { ty, child_tys: out, tag }
    }
}

/// What [`child_type_or_default`] returns: the declared child when the
/// descriptor has one, else a node derived from the parent's type alone
/// (array and maybe element, dictionary key or value, tuple field), else
/// the wildcard node.
pub open spec fn child_or_default(n: NodeV, index: int) -> NodeV {
    if 0 <= index < n.child_tys.len() {
        n.child_tys[index]
    } else {
        match n.ty {
            TyV::Array(e) => elem_child(*e, index),
            TyV::Maybe(e) => elem_child(*e, index),
            TyV::Tuple(ts) => if 0 <= index < ts.len() {
                NodeV::leaf(ts[index])
            } else {
                NodeV::leaf(TyV::Any)
            },
            _ => NodeV::leaf(TyV::Any),
        }
    }
}

/// The derived child for an array or maybe element type: a dictionary
/// entry splits into key and value, any other element sits at position 0.
pub open spec fn elem_child(e: TyV, index: int) -> NodeV {
    match e {
        TyV::Entry(k, v) => if index == 0 {
            NodeV::leaf(*k)
        } else if index == 1 {
            NodeV::leaf(*v)
        } else {
            NodeV::leaf(TyV::Any)
        },
        _ => if index == 0 {
            NodeV::leaf(e)
        } else {
            NodeV::leaf(TyV::Any)
        },
    }
}

/// The derived node for an array or maybe element.
fn elem_child_node(
    e: &VariantTy,
    index: usize,
    Ghost(nv): Ghost<NodeV>,
    Ghost(iv): Ghost<int>,
) -> (r: VariantTypeNode)
    requires
        iv == index as int,
        !(0 <= iv < nv.child_tys.len()),
        nv.ty == TyV::Array(Box::new(e@)) || nv.ty == TyV::Maybe(Box::new(e@)),
    ensures
        r@ == child_or_default(nv, iv),
{
    match e {
        VariantTy::Entry(k, v) => {
            if index == 0 {
                VariantTypeNode::new(k.duplicate(), Vec::new())
            } else if index == 1 {
                VariantTypeNode::new(v.duplicate(), Vec::new())
            } else {
                VariantTypeNode::new(VariantTy::Any, Vec::new())
            }
        },
        _ => {
            if index == 0 {
                VariantTypeNode::new(e.duplicate(), Vec::new())
            } else {
                VariantTypeNode::new(VariantTy::Any, Vec::new())
            }
        },
    }
}

/// The declared child node at `index`, or one derived from the parent's
/// type when the static descriptor is sparse.
#[verifier::loop_isolation(false)]
pub fn child_type_or_default(node: &VariantTypeNode, index: usize) -> (r: VariantTypeNode)
    ensures
        r@ == child_or_default(node@, index as int),
{
    proof {
        lemma_nodes_view(node.child_tys@);
    }
    if index < node.child_tys.len() {
        return node.child_tys[index].duplicate();
    }
    match &node.ty {
        VariantTy::Array(e) => elem_child_node(e, index, Ghost(node@), Ghost(index as int)),
        VariantTy::Maybe(e) => elem_child_node(e, index, Ghost(node@), Ghost(index as int)),
        VariantTy::Tuple(ts) => {
            if index < ts.len() {
                proof {
                    crate::ty::lemma_tys_view(ts@);
                }
                VariantTypeNode::new(ts[index].duplicate(), Vec::new())
            } else {
                proof {
                    crate::ty::lemma_tys_view(ts@);
                }
                VariantTypeNode::new(VariantTy::Any, Vec::new())
            }
        },
        _ => {
            let r = VariantTypeNode::new(VariantTy::Any, Vec::new());
            proof {
                assert(index as int >= node@.child_tys.len());
                assert(child_or_default(node@, index as int) == NodeV::leaf(TyV::Any));
                assert(r@ == NodeV::leaf(TyV::Any));
            }
            r
        },
    }
}

} // verus!

//! The logical data model's type descriptors.
//!
//! A [`Shape`] describes the static structure of a logical value: the
//! scalars, strings, optionals, sequences, tuples and structs, maps,
//! transparent single-field wrappers, enums with a tag scheme, and
//! embedded wire values.  [`variant_type`] computes the type-description
//! tree of a shape, which is what drives the encoder.

use crate::ty::{TyV, VariantTy};
use crate::variant_type::{
    nodes_view, NodeV, ReprWidth, TagEntry, TagEntryV, TagMode, TagScheme, TagSchemeV,
    VariantTypeNode,
};
use vstd::prelude::*;

verus! {

/// The mathematical model of a [`Shape`].
#[verifier::ext_equal]
pub enum ShapeV {
    Bool,
    I8,
    I16,
    I32,
    I64,
    U8,
    U16,
    U32,
    U64,
    F64,
    Char,
    Str,
    Path,
    Sig,
    Bytes,
    Unit,
    Opt(Box<ShapeV>),
    List(Box<ShapeV>),
    Tup(Seq<ShapeV>),
    MapOf(Box<ShapeV>, Box<ShapeV>),
    Newtype(Box<ShapeV>),
    Enum(EnumShapeV),
    Wire,
}

/// The mathematical model of an [`EnumShape`].
#[verifier::ext_equal]
pub struct EnumShapeV {
    pub tag: TagMode,
    pub variants: Seq<VariantShapeV>,
}

/// The mathematical model of a [`VariantShape`].
#[verifier::ext_equal]
pub struct VariantShapeV {
    pub name: Seq<char>,
    pub disc: i64,
    pub payload: PayloadShapeV,
}

/// The mathematical model of a [`PayloadShape`].
#[verifier::ext_equal]
pub enum PayloadShapeV {
    Unit,
    Newtype(Box<ShapeV>),
    Fields(Seq<ShapeV>),
}

impl ShapeV {
    /// The static wire type of this shape.  There is no 8-bit signed wire
    /// type, so `I8` is promoted to the 16-bit signed one; a character is
    /// carried as a string.
    pub open spec fn ty(self) -> TyV
        decreases self,
    {
        match self {
            ShapeV::Bool => TyV::Bool,
            ShapeV::I8 => TyV::Int16,
            ShapeV::I16 => TyV::Int16,
            ShapeV::I32 => TyV::Int32,
            ShapeV::I64 => TyV::Int64,
            ShapeV::U8 => TyV::Byte,
            ShapeV::U16 => TyV::Uint16,
            ShapeV::U32 => TyV::Uint32,
            ShapeV::U64 => TyV::Uint64,
            ShapeV::F64 => TyV::Double,
            ShapeV::Char => TyV::Str,
            ShapeV::Str => TyV::Str,
            ShapeV::Path => TyV::ObjPath,
            ShapeV::Sig => TyV::Sig,
            ShapeV::Bytes => TyV::Array(Box::new(TyV::Byte)),
            ShapeV::Unit => TyV::Tuple(Seq::empty()),
            ShapeV::Opt(e) => TyV::Maybe(Box::new(e.ty())),
            ShapeV::List(e) => TyV::Array(Box::new(e.ty())),
            ShapeV::Tup(ss) => TyV::Tuple(Self::tys(ss)),
            ShapeV::MapOf(k, v) => TyV::Array(Box::new(TyV::Entry(Box::new(k.ty()), Box::new(v.ty())))),
            ShapeV::Newtype(e) => e.ty(),
            ShapeV::Enum(es) => if EnumShapeV::all_unit(es.variants) {
                es.tag.tag_ty()
            } else {
                TyV::Tuple(seq![es.tag.tag_ty(), TyV::Var])
            },
            ShapeV::Wire => TyV::Var,
        }
    }

    /// The static wire types of a sequence of shapes.
    pub open spec fn tys(ss: Seq<ShapeV>) -> Seq<TyV>
        decreases ss,
    {
        if ss.len() == 0 {
            Seq::empty()
        } else {
            Self::tys(ss.drop_last()).push(ss.last().ty())
        }
    }

    /// `tys` maps `ty` over the sequence, position by position.
    pub proof fn lemma_tys(ss: Seq<ShapeV>)
        ensures
            Self::tys(ss).len() == ss.len(),
            forall|i: int| 0 <= i < ss.len() ==> Self::tys(ss)[i] == ss[i].ty(),
        decreases ss,
    {
        if ss.len() > 0 {
            Self::lemma_tys(ss.drop_last());
        }
    }

    /// The type-description node of this shape: its static wire type, a
    /// child node for each structurally ambiguous position, and the tag
    /// scheme on enum nodes.  A transparent wrapper's node is exactly the
    /// node of its single field.
    pub open spec fn node(self) -> NodeV
        decreases self,
    {
        match self {
            ShapeV::Opt(e) => NodeV {
                ty: TyV::Maybe(Box::new(e.ty())),
                child_tys: seq![e.node()],
                tag: None,
            },
            ShapeV::List(e) => NodeV {
                ty: TyV::Array(Box::new(e.ty())),
                child_tys: seq![e.node()],
                tag: None,
            },
            ShapeV::Tup(ss) => NodeV {
                ty: TyV::Tuple(Self::tys(ss)),
                child_tys: Self::nodes(ss),
                tag: None,
            },
            ShapeV::MapOf(k, v) => NodeV {
                ty: TyV::Array(Box::new(TyV::Entry(Box::new(k.ty()), Box::new(v.ty())))),
                child_tys: seq![k.node(), v.node()],
                tag: None,
            },
            ShapeV::Newtype(e) => e.node(),
            ShapeV::Enum(es) => if EnumShapeV::all_unit(es.variants) {
                NodeV { ty: es.tag.tag_ty(), child_tys: Seq::empty(), tag: Some(es.scheme()) }
            } else {
                NodeV {
                    ty: TyV::Tuple(seq![es.tag.tag_ty(), TyV::Var]),
                    child_tys: EnumShapeV::payload_nodes(es.variants),
                    tag: Some(es.scheme()),
                }
            },
            _ => NodeV::leaf(self.ty()),
        }
    }

    /// The nodes of a sequence of shapes.
    pub open spec fn nodes(ss: Seq<ShapeV>) -> Seq<NodeV>
        decreases ss,
    {
        if ss.len() == 0 {
            Seq::empty()
        } else {
            Self::nodes(ss.drop_last()).push(ss.last().node())
        }
    }

    /// `nodes` maps `node` over the sequence, position by position.
    pub proof fn lemma_nodes(ss: Seq<ShapeV>)
        ensures
            Self::nodes(ss).len() == ss.len(),
            forall|i: int| 0 <= i < ss.len() ==> Self::nodes(ss)[i] == ss[i].node(),
        decreases ss,
    {
        if ss.len() > 0 {
            Self::lemma_nodes(ss.drop_last());
        }
    }

    /// Well-formedness: map keys are basic, enum tag schemes are coherent,
    /// and every reachable shape is well-formed.
    pub open spec fn wf(self) -> bool
        decreases self,
    {
        match self {
            ShapeV::Opt(e) => e.wf(),
            ShapeV::List(e) => e.wf(),
            ShapeV::Tup(ss) => Self::all_wf(ss),
            ShapeV::MapOf(k, v) => k.ty().is_basic() && k.wf() && v.wf(),
            ShapeV::Newtype(e) => e.wf(),
            ShapeV::Enum(es) => es.wf(),
            _ => true,
        }
    }

    /// Every shape in the sequence is well-formed.
    pub open spec fn all_wf(ss: Seq<ShapeV>) -> bool
        decreases ss,
    {
        if ss.len() == 0 {
            true
        } else {
            ss[0].wf() && Self::all_wf(ss.subrange(1, ss.len() as int))
        }
    }

    /// `all_wf` holds exactly when each shape is well-formed.
    pub proof fn lemma_all_wf(ss: Seq<ShapeV>)
        ensures
            Self::all_wf(ss) <==> (forall|i: int| 0 <= i < ss.len() ==> #[trigger] ss[i].wf()),
        decreases ss,
    {
        if ss.len() > 0 {
            let tail = ss.subrange(1, ss.len() as int);
            Self::lemma_all_wf(tail);
            if Self::all_wf(ss) {
                assert forall|i: int| 0 <= i < ss.len() implies #[trigger] ss[i].wf() by {
                    if i >= 1 {
                        assert(ss[i] == tail[i - 1]);
                    }
                }
            }
            if forall|i: int| 0 <= i < ss.len() ==> #[trigger] ss[i].wf() {
                assert forall|i: int| 0 <= i < tail.len() implies #[trigger] tail[i].wf() by {
                    assert(tail[i] == ss[i + 1]);
                }
                assert(ss[0].wf());
                assert(Self::all_wf(ss));
            }
        }
    }
}

impl EnumShapeV {
    /// Whether every variant carries no payload.
    pub open spec fn all_unit(vs: Seq<VariantShapeV>) -> bool
        decreases vs,
    {
        if vs.len() == 0 {
            true
        } else {
            vs[0].payload is Unit && Self::all_unit(vs.subrange(1, vs.len() as int))
        }
    }

    /// `all_unit` holds exactly when each variant's payload is `Unit`.
    pub proof fn lemma_all_unit(vs: Seq<VariantShapeV>)
        ensures
            Self::all_unit(vs) <==> (forall|i: int|
                0 <= i < vs.len() ==> #[trigger] vs[i].payload is Unit),
        decreases vs,
    {
        if vs.len() > 0 {
            let tail = vs.subrange(1, vs.len() as int);
            Self::lemma_all_unit(tail);
            if Self::all_unit(vs) {
                assert forall|i: int| 0 <= i < vs.len() implies #[trigger] vs[i].payload
                    is Unit by {
                    if i >= 1 {
                        assert(vs[i] == tail[i - 1]);
                    }
                }
            }
            if forall|i: int| 0 <= i < vs.len() ==> #[trigger] vs[i].payload is Unit {
                assert forall|i: int| 0 <= i < tail.len() implies #[trigger] tail[i].payload
                    is Unit by {
                    assert(tail[i] == vs[i + 1]);
                }
                assert(vs[0].payload is Unit);
                assert(Self::all_unit(vs));
            }
        }
    }

    /// The tag scheme recorded on the enum's node: the mode with each
    /// variant's name and discriminant.
    pub open spec fn scheme(self) -> TagSchemeV {
        TagSchemeV {
            mode: self.tag,
            variants: Seq::new(
                self.variants.len(),
                |i: int| TagEntryV { name: self.variants[i].name, disc: self.variants[i].disc },
            ),
        }
    }

    /// The payload node of each variant, in declaration order.
    pub open spec fn payload_nodes(vs: Seq<VariantShapeV>) -> Seq<NodeV>
        decreases vs,
    {
        if vs.len() == 0 {
            Seq::empty()
        } else {
            Self::payload_nodes(vs.drop_last()).push(vs.last().payload.node())
        }
    }

    /// `payload_nodes` maps the payload node over the sequence.
    pub proof fn lemma_payload_nodes(vs: Seq<VariantShapeV>)
        ensures
            Self::payload_nodes(vs).len() == vs.len(),
            forall|i: int|
                0 <= i < vs.len() ==> Self::payload_nodes(vs)[i] == vs[i].payload.node(),
        decreases vs,
    {
        if vs.len() > 0 {
            Self::lemma_payload_nodes(vs.drop_last());
        }
    }

    /// Coherence of the scheme: under name tagging the names are distinct,
    /// under ordinal tagging the width is unsigned and admits every index,
    /// under representation tagging the discriminants are distinct and fit
    /// the declared width; and every payload shape is well-formed.
    pub open spec fn wf(self) -> bool
        decreases self,
    {
        &&& match self.tag {
            TagMode::Name => forall|i: int, j: int|
                0 <= i < j < self.variants.len() ==> (#[trigger] self.variants[i].name)
                    != (#[trigger] self.variants[j].name),
            TagMode::Ordinal(w) => w.is_unsigned() && forall|i: int|
                0 <= i < self.variants.len() ==> w.fits(i),
            TagMode::Repr(w) => {
                &&& forall|i: int, j: int|
                    0 <= i < j < self.variants.len() ==> (#[trigger] self.variants[i].disc)
                        != (#[trigger] self.variants[j].disc)
                &&& forall|i: int|
                    0 <= i < self.variants.len() ==> w.fits(
                        #[trigger] self.variants[i].disc as int,
                    )
            },
        }
        &&& Self::variants_wf(self.variants)
    }

    /// Every variant's payload shape is well-formed.
    pub open spec fn variants_wf(vs: Seq<VariantShapeV>) -> bool
        decreases vs,
    {
        if vs.len() == 0 {
            true
        } else {
            vs[0].payload.wf() && Self::variants_wf(vs.subrange(1, vs.len() as int))
        }
    }

    /// `variants_wf` holds exactly when each payload shape is well-formed.
    pub proof fn lemma_variants_wf(vs: Seq<VariantShapeV>)
        ensures
            Self::variants_wf(vs) <==> (forall|i: int|
                0 <= i < vs.len() ==> #[trigger] vs[i].payload.wf()),
        decreases vs,
    {
        if vs.len() > 0 {
            let tail = vs.subrange(1, vs.len() as int);
            Self::lemma_variants_wf(tail);
            if Self::variants_wf(vs) {
                assert forall|i: int| 0 <= i < vs.len() implies #[trigger] vs[i].payload.wf() by {
                    if i >= 1 {
                        assert(vs[i] == tail[i - 1]);
                    }
                }
            }
            if forall|i: int| 0 <= i < vs.len() ==> #[trigger] vs[i].payload.wf() {
                assert forall|i: int| 0 <= i < tail.len() implies #[trigger] tail[
                    i
                ].payload.wf() by {
                    assert(tail[i] == vs[i + 1]);
                }
                assert(vs[0].payload.wf());
                assert(Self::variants_wf(vs));
            }
        }
    }
}

impl PayloadShapeV {
    /// The wire type a payload of this shape is boxed at.
    pub open spec fn ty(self) -> TyV
        decreases self,
    {
        match self {
            PayloadShapeV::Unit => TyV::Tuple(Seq::empty()),
            PayloadShapeV::Newtype(e) => e.ty(),
            PayloadShapeV::Fields(ss) => TyV::Tuple(ShapeV::tys(ss)),
        }
    }

    /// The type-description node of a payload of this shape.
    pub open spec fn node(self) -> NodeV
        decreases self,
    {
        match self {
            PayloadShapeV::Unit => NodeV::leaf(TyV::Tuple(Seq::empty())),
            PayloadShapeV::Newtype(e) => e.node(),
            PayloadShapeV::Fields(ss) => NodeV {
                ty: TyV::Tuple(ShapeV::tys(ss)),
                child_tys: ShapeV::nodes(ss),
                tag: None,
            },
        }
    }

    /// Well-formedness of the payload's field shapes.
    pub open spec fn wf(self) -> bool
        decreases self,
    {
        match self {
            PayloadShapeV::Unit => true,
            PayloadShapeV::Newtype(e) => e.wf(),
            PayloadShapeV::Fields(ss) => ShapeV::all_wf(ss),
        }
    }
}

/// A logical type descriptor.
#[derive(Debug, PartialEq, Eq)]
pub enum Shape {
    Bool,
    I8,
    I16,
    I32,
    I64,
    U8,
    U16,
    U32,
    U64,
    /// An IEEE 754 double, carried as its bit pattern.
    F64,
    Char,
    Str,
    /// An object-path string, validated on encode and on decode.
    Path,
    /// A type-signature string, validated on encode and on decode.
    Sig,
    Bytes,
    Unit,
    Opt(Box<Shape>),
    List(Box<Shape>),
    Tup(Vec<Shape>),
    MapOf(Box<Shape>, Box<Shape>),
    /// A transparent single-field wrapper: it encodes exactly as its field.
    Newtype(Box<Shape>),
    Enum(EnumShape),
    /// An embedded wire value, carried in a dynamic box.
    Wire,
}

/// An enum's shape: its tag scheme and its variants in declaration order.
#[derive(Debug, PartialEq, Eq)]
pub struct EnumShape {
    pub tag: TagMode,
    pub variants: Vec<VariantShape>,
}

/// One enum variant: its name, its declared discriminant, and the shape of
/// its payload.
#[derive(Debug, PartialEq, Eq)]
pub struct VariantShape {
    pub name: String,
    pub disc: i64,
    pub payload: PayloadShape,
}

/// The shape of one variant's payload.
#[derive(Debug, PartialEq, Eq)]
pub enum PayloadShape {
    Unit,
    Newtype(Box<Shape>),
    Fields(Vec<Shape>),
}

/// The mathematical value of an executable shape.
pub open spec fn shape_view(s: Shape) -> ShapeV
    decreases s,
{
    match s {
        Shape::Bool => ShapeV::Bool,
        Shape::I8 => ShapeV::I8,
        Shape::I16 => ShapeV::I16,
        Shape::I32 => ShapeV::I32,
        Shape::I64 => ShapeV::I64,
        Shape::U8 => ShapeV::U8,
        Shape::U16 => ShapeV::U16,
        Shape::U32 => ShapeV::U32,
        Shape::U64 => ShapeV::U64,
        Shape::F64 => ShapeV::F64,
        Shape::Char => ShapeV::Char,
        Shape::Str => ShapeV::Str,
        Shape::Path => ShapeV::Path,
        Shape::Sig => ShapeV::Sig,
        Shape::Bytes => ShapeV::Bytes,
        Shape::Unit => ShapeV::Unit,
        Shape::Opt(e) => ShapeV::Opt(Box::new(shape_view(*e))),
        Shape::List(e) => ShapeV::List(Box::new(shape_view(*e))),
        Shape::Tup(ss) => ShapeV::Tup(shapes_view(ss@)),
        Shape::MapOf(k, v) => ShapeV::MapOf(Box::new(shape_view(*k)), Box::new(shape_view(*v))),
        Shape::Newtype(e) => ShapeV::Newtype(Box::new(shape_view(*e))),
        Shape::Enum(es) => ShapeV::Enum(
            EnumShapeV { tag: es.tag, variants: variant_shapes_view(es.variants@) },
        ),
        Shape::Wire => ShapeV::Wire,
    }
}

/// The mathematical values of a sequence of shapes.
pub open spec fn shapes_view(ss: Seq<Shape>) -> Seq<ShapeV>
    decreases ss,
{
    if ss.len() == 0 {
        Seq::empty()
    } else {
        shapes_view(ss.drop_last()).push(shape_view(ss.last()))
    }
}

/// The mathematical values of a sequence of variant shapes.
pub open spec fn variant_shapes_view(vs: Seq<VariantShape>) -> Seq<VariantShapeV>
    decreases vs,
{
    if vs.len() == 0 {
        Seq::empty()
    } else {
        variant_shapes_view(vs.drop_last()).push(
            VariantShapeV {
                name: vs.last().name@,
                disc: vs.last().disc,
                payload: payload_shape_view(vs.last().payload),
            },
        )
    }
}

/// The mathematical value of a payload shape.
pub open spec fn payload_shape_view(p: PayloadShape) -> PayloadShapeV
    decreases p,
{
    match p {
        PayloadShape::Unit => PayloadShapeV::Unit,
        PayloadShape::Newtype(e) => PayloadShapeV::Newtype(Box::new(shape_view(*e))),
        PayloadShape::Fields(ss) => PayloadShapeV::Fields(shapes_view(ss@)),
    }
}

/// `shapes_view` maps `shape_view` over the sequence.
pub proof fn lemma_shapes_view(ss: Seq<Shape>)
    ensures
        shapes_view(ss).len() == ss.len(),
        forall|i: int| 0 <= i < ss.len() ==> shapes_view(ss)[i] == shape_view(ss[i]),
    decreases ss,
{
    if ss.len() > 0 {
        lemma_shapes_view(ss.drop_last());
    }
}

/// `variant_shapes_view` maps the entry view over the sequence.
pub proof fn lemma_variant_shapes_view(vs: Seq<VariantShape>)
    ensures
        variant_shapes_view(vs).len() == vs.len(),
        forall|i: int|
            0 <= i < vs.len() ==> variant_shapes_view(vs)[i] == (VariantShapeV {
                name: vs[i].name@,
                disc: vs[i].disc,
                payload: payload_shape_view(vs[i].payload),
            }),
    decreases vs,
{
    if vs.len() > 0 {
        lemma_variant_shapes_view(vs.drop_last());
    }
}

impl View for Shape {
    type V = ShapeV;

    open spec fn view(&self) -> ShapeV {
        shape_view(*self)
    }
}

/// The node of a shape carries the shape's own static wire type.
pub proof fn lemma_node_ty(s: ShapeV)
    ensures
        s.node().ty == s.ty(),
    decreases s,
{
    match s {
        ShapeV::Newtype(e) => {
            lemma_node_ty(*e);
        },
        _ => {},
    }
}

/// The payload node of a variant carries the payload's wire type.
pub proof fn lemma_payload_node_ty(p: PayloadShapeV)
    ensures
        p.node().ty == p.ty(),
    decreases p,
{
    match p {
        PayloadShapeV::Newtype(e) => {
            lemma_node_ty(*e);
        },
        _ => {},
    }
}

/// Whether every variant of an enum carries no payload.
#[verifier::loop_isolation(false)]
fn payloads_all_unit(vs: &Vec<VariantShape>) -> (r: bool)
    ensures
        r == EnumShapeV::all_unit(variant_shapes_view(vs@)),
{
    proof {
        lemma_variant_shapes_view(vs@);
        EnumShapeV::lemma_all_unit(variant_shapes_view(vs@));
    }
    let mut j: usize = 0;
    while j < vs.len()
        invariant
            0 <= j <= vs.len(),
            forall|i: int| 0 <= i < j ==> #[trigger] payload_shape_view(vs@[i].payload) is Unit,
        decreases vs.len() - j,
    {
        match &vs[j].payload {
            PayloadShape::Unit => {},
            _ => {
                proof {
                    assert(!(variant_shapes_view(vs@)[j as int].payload is Unit));
                }
                return false;
            },
        }
        j += 1;
    }
    proof {
        let vsv = variant_shapes_view(vs@);
        assert forall|i: int| 0 <= i < vsv.len() implies #[trigger] vsv[i].payload is Unit by {
            assert(payload_shape_view(vs@[i].payload) is Unit);
        }
    }
    true
}

/// A leaf node holding a type alone.
fn leaf_node(ty: VariantTy) -> (n: VariantTypeNode)
    ensures
        n@ == NodeV::leaf(ty@),
{
    let ghost tv = ty@;
    let n = VariantTypeNode::new(ty, Vec::new());
    proof {
        assert(nodes_view(Seq::<VariantTypeNode>::empty()) =~= Seq::<NodeV>::empty());
        assert(n@ =~= NodeV::leaf(tv));
    }
    n
}

/// The node for a unit payload or unit struct: the empty tuple type.
fn empty_tuple_node() -> (n: VariantTypeNode)
    ensures
        n@ == NodeV::leaf(TyV::Tuple(Seq::empty())),
{
    let n = VariantTypeNode::new(VariantTy::Tuple(Vec::new()), Vec::new());
    proof {
        assert(crate::ty::tys_view(Seq::<VariantTy>::empty()) =~= Seq::<TyV>::empty());
        assert(nodes_view(Seq::<VariantTypeNode>::empty()) =~= Seq::<NodeV>::empty());
        assert(n@ =~= NodeV::leaf(TyV::Tuple(Seq::empty())));
    }
    n
}

/// The node of an enum shape: the tag type alone when every variant is a
/// unit variant, else the `(tag, v)` wrapper with one payload node per
/// variant; the tag scheme rides along in both cases.
#[verifier::loop_isolation(false)]
fn enum_node(es: &EnumShape) -> (n: VariantTypeNode)
    ensures
        n@ == ShapeV::Enum(
            EnumShapeV { tag: es.tag, variants: variant_shapes_view(es.variants@) },
        ).node(),
    decreases es,
{
    let ghost esv = EnumShapeV { tag: es.tag, variants: variant_shapes_view(es.variants@) };
    let mut entries: Vec<TagEntry> = Vec::new();
    let mut children: Vec<VariantTypeNode> = Vec::new();
    let mut j: usize = 0;
    proof {
        lemma_variant_shapes_view(es.variants@);
    }
    while j < es.variants.len()
        invariant
            0 <= j <= es.variants.len(),
            entries@.len() == j,
            children@.len() == j,
            forall|i: int|
                0 <= i < j ==> entries@[i]@ == (TagEntryV {
                    name: es.variants@[i].name@,
                    disc: es.variants@[i].disc,
                }),
            forall|i: int|
                0 <= i < j ==> crate::variant_type::node_view(children@[i]) == payload_shape_view(
                    es.variants@[i].payload,
                ).node(),
        decreases es.variants.len() - j,
    {
        let vs = &es.variants[j];
        entries.push(TagEntry { name: vs.name.clone(), disc: vs.disc });
        let pn = payload_node(&vs.payload);
        children.push(pn);
        j += 1;
    }
    let unit_only = payloads_all_unit(&es.variants);
    let tag_ty = tag_mode_ty(es.tag);
    let scheme = TagScheme { mode: es.tag, variants: entries };
    proof {
        assert(scheme@ =~= esv.scheme());
    }
    if unit_only {
        VariantTypeNode::new_enum(tag_ty, Vec::new(), scheme)
    } else {
        proof {
            crate::variant_type::lemma_nodes_view(children@);
            EnumShapeV::lemma_payload_nodes(esv.variants);
            assert(nodes_view(children@) =~= EnumShapeV::payload_nodes(esv.variants));
        }
        let mut tys: Vec<VariantTy> = Vec::new();
        tys.push(tag_ty);
        tys.push(VariantTy::Var);
        proof {
            crate::ty::lemma_tys_view(tys@);
            assert(crate::ty::tys_view(tys@) =~= seq![esv.tag.tag_ty(), TyV::Var]);
        }
        VariantTypeNode::new_enum(VariantTy::Tuple(tys), children, scheme)
    }
}

/// The type-description tree of a shape: computed once per concrete type
/// by the binding layer and shared read-only afterwards.
#[verifier::loop_isolation(false)]
pub fn variant_type(shape: &Shape) -> (n: VariantTypeNode)
    ensures
        n@ == shape@.node(),
    decreases shape,
{
    match shape {
        Shape::Bool => leaf_node(VariantTy::Bool),
        Shape::I8 => leaf_node(VariantTy::Int16),
        Shape::I16 => leaf_node(VariantTy::Int16),
        Shape::I32 => leaf_node(VariantTy::Int32),
        Shape::I64 => leaf_node(VariantTy::Int64),
        Shape::U8 => leaf_node(VariantTy::Byte),
        Shape::U16 => leaf_node(VariantTy::Uint16),
        Shape::U32 => leaf_node(VariantTy::Uint32),
        Shape::U64 => leaf_node(VariantTy::Uint64),
        Shape::F64 => leaf_node(VariantTy::Double),
        Shape::Char => leaf_node(VariantTy::Str),
        Shape::Str => leaf_node(VariantTy::Str),
        Shape::Path => leaf_node(VariantTy::ObjPath),
        Shape::Sig => leaf_node(VariantTy::Sig),
        Shape::Bytes => {
            let eb = VariantTy::Byte;
            proof {
                assert(eb@ == TyV::Byte);
            }
            leaf_node(VariantTy::Array(Box::new(eb)))
        },
        Shape::Unit => empty_tuple_node(),
        Shape::Opt(e) => {
            let child = variant_type(e);
            let ety = shape_ty(e);
            let mut children: Vec<VariantTypeNode> = Vec::new();
            children.push(child);
            proof {
                crate::variant_type::lemma_nodes_view(children@);
                assert(nodes_view(children@) =~= seq![shape_view(**e).node()]);
            }
            VariantTypeNode::new(VariantTy::Maybe(Box::new(ety)), children)
        },
        Shape::List(e) => {
            let child = variant_type(e);
            let ety = shape_ty(e);
            let mut children: Vec<VariantTypeNode> = Vec::new();
            children.push(child);
            proof {
                crate::variant_type::lemma_nodes_view(children@);
                assert(nodes_view(children@) =~= seq![shape_view(**e).node()]);
            }
            VariantTypeNode::new(VariantTy::Array(Box::new(ety)), children)
        },
        Shape::Tup(ss) => {
            let mut tys: Vec<VariantTy> = Vec::new();
            let mut children: Vec<VariantTypeNode> = Vec::new();
            let mut j: usize = 0;
            while j < ss.len()
                invariant
                    0 <= j <= ss.len(),
                    tys@.len() == j,
                    children@.len() == j,
                    forall|i: int|
                        0 <= i < j ==> crate::ty::ty_view(tys@[i]) == shape_view(ss@[i]).ty(),
                    forall|i: int|
                        0 <= i < j ==> crate::variant_type::node_view(children@[i]) == shape_view(
                            ss@[i],
                        ).node(),
                decreases ss.len() - j,
            {
                let t = shape_ty(&ss[j]);
                let c = variant_type(&ss[j]);
                tys.push(t);
                children.push(c);
                j += 1;
            }
            proof {
                crate::ty::lemma_tys_view(tys@);
                lemma_shapes_view(ss@);
                ShapeV::lemma_tys(shapes_view(ss@));
                assert(crate::ty::tys_view(tys@) =~= ShapeV::tys(shapes_view(ss@)));
                crate::variant_type::lemma_nodes_view(children@);
                ShapeV::lemma_nodes(shapes_view(ss@));
                assert(nodes_view(children@) =~= ShapeV::nodes(shapes_view(ss@)));
            }
            VariantTypeNode::new(VariantTy::Tuple(tys), children)
        },
        Shape::MapOf(k, v) => {
            let kty = shape_ty(k);
            let vty = shape_ty(v);
            let kn = variant_type(k);
            let vn = variant_type(v);
            let mut children: Vec<VariantTypeNode> = Vec::new();
            children.push(kn);
            children.push(vn);
            let ent = VariantTy::Entry(Box::new(kty), Box::new(vty));
            proof {
                assert(ent@ == TyV::Entry(
                    Box::new(shape_view(**k).ty()),
                    Box::new(shape_view(**v).ty()),
                ));
                crate::variant_type::lemma_nodes_view(children@);
                assert(nodes_view(children@) =~= seq![
                    shape_view(**k).node(),
                    shape_view(**v).node(),
                ]);
            }
            VariantTypeNode::new(VariantTy::Array(Box::new(ent)), children)
        },
        Shape::Newtype(e) => variant_type(e),
        Shape::Enum(es) => enum_node(es),
        Shape::Wire => leaf_node(VariantTy::Var),
    }
}

/// The static wire type of a shape, as a type tree.
#[verifier::loop_isolation(false)]
pub fn shape_ty(shape: &Shape) -> (t: VariantTy)
    ensures
        t@ == shape@.ty(),
    decreases shape,
{
    match shape {
        Shape::Bool => VariantTy::Bool,
        Shape::I8 => VariantTy::Int16,
        Shape::I16 => VariantTy::Int16,
        Shape::I32 => VariantTy::Int32,
        Shape::I64 => VariantTy::Int64,
        Shape::U8 => VariantTy::Byte,
        Shape::U16 => VariantTy::Uint16,
        Shape::U32 => VariantTy::Uint32,
        Shape::U64 => VariantTy::Uint64,
        Shape::F64 => VariantTy::Double,
        Shape::Char => VariantTy::Str,
        Shape::Str => VariantTy::Str,
        Shape::Path => VariantTy::ObjPath,
        Shape::Sig => VariantTy::Sig,
        Shape::Bytes => {
            let eb = VariantTy::Byte;
            proof {
                assert(eb@ == TyV::Byte);
            }
            let t = VariantTy::Array(Box::new(eb));
            proof {
                assert(t@ == TyV::Array(Box::new(TyV::Byte)));
            }
            t
        },
        Shape::Unit => {
            let t = VariantTy::Tuple(Vec::new());
            proof {
                assert(crate::ty::tys_view(Seq::<VariantTy>::empty()) =~= Seq::<TyV>::empty());
            }
            t
        },
        Shape::Opt(e) => VariantTy::Maybe(Box::new(shape_ty(e))),
        Shape::List(e) => {
            let inner = shape_ty(e);
            proof {
                assert(inner@ == shape_view(**e).ty());
                assert(shape_view(*shape) == ShapeV::List(Box::new(shape_view(**e))));
                assert(shape_view(*shape).ty() == TyV::Array(Box::new(shape_view(**e).ty())));
            }
            let t = VariantTy::Array(Box::new(inner));
            proof {
                assert(t@ == TyV::Array(Box::new(shape_view(**e).ty())));
            }
            t
        },
        Shape::Tup(ss) => {
            let mut tys: Vec<VariantTy> = Vec::new();
            let mut j: usize = 0;
            while j < ss.len()
                invariant
                    0 <= j <= ss.len(),
                    tys@.len() == j,
                    forall|i: int|
                        0 <= i < j ==> crate::ty::ty_view(tys@[i]) == shape_view(ss@[i]).ty(),
                decreases ss.len() - j,
            {
                let t = shape_ty(&ss[j]);
                tys.push(t);
                j += 1;
            }
            proof {
                crate::ty::lemma_tys_view(tys@);
                lemma_shapes_view(ss@);
                ShapeV::lemma_tys(shapes_view(ss@));
                assert(crate::ty::tys_view(tys@) =~= ShapeV::tys(shapes_view(ss@)));
            }
            VariantTy::Tuple(tys)
        },
        Shape::MapOf(k, v) => {
            let kt = shape_ty(k);
            let vt = shape_ty(v);
            let ent = VariantTy::Entry(Box::new(kt), Box::new(vt));
            proof {
                assert(ent@ == TyV::Entry(
                    Box::new(shape_view(**k).ty()),
                    Box::new(shape_view(**v).ty()),
                ));
            }
            let t = VariantTy::Array(Box::new(ent));
            proof {
                assert(t@ == TyV::Array(Box::new(ent@)));
            }
            t
        },
        Shape::Newtype(e) => shape_ty(e),
        Shape::Enum(es) => {
            let unit_only = payloads_all_unit(&es.variants);
            let tag_ty = tag_mode_ty(es.tag);
            if unit_only {
                tag_ty
            } else {
                let mut tys: Vec<VariantTy> = Vec::new();
                tys.push(tag_ty);
                tys.push(VariantTy::Var);
                proof {
                    crate::ty::lemma_tys_view(tys@);
                    assert(crate::ty::tys_view(tys@) =~= seq![
                        shape_view(*shape)->Enum_0.tag.tag_ty(),
                        TyV::Var,
                    ]);
                }
                VariantTy::Tuple(tys)
            }
        },
        Shape::Wire => VariantTy::Var,
    }
}

/// The wire type of an enum tag under the given mode.
pub fn tag_mode_ty(mode: TagMode) -> (t: VariantTy)
    ensures
        t@ == mode.tag_ty(),
{
    match mode {
        TagMode::Name => VariantTy::Str,
        TagMode::Ordinal(w) => width_ty(w),
        TagMode::Repr(w) => width_ty(w),
    }
}

/// The wire type of an integer tag of the given width; 8-bit signed is
/// promoted to the 16-bit signed wire type.
pub fn width_ty(w: ReprWidth) -> (t: VariantTy)
    ensures
        t@ == w.tag_ty(),
{
    match w {
        ReprWidth::Signed8 => VariantTy::Int16,
        ReprWidth::Signed16 => VariantTy::Int16,
        ReprWidth::Signed32 => VariantTy::Int32,
        ReprWidth::Signed64 => VariantTy::Int64,
        ReprWidth::Unsigned8 => VariantTy::Byte,
        ReprWidth::Unsigned16 => VariantTy::Uint16,
        ReprWidth::Unsigned32 => VariantTy::Uint32,
        ReprWidth::Unsigned64 => VariantTy::Uint64,
    }
}

/// The type-description node of one variant payload.
#[verifier::loop_isolation(false)]
pub fn payload_node(p: &PayloadShape) -> (n: VariantTypeNode)
    ensures
        n@ == p@.node(),
    decreases p,
{
    match p {
        PayloadShape::Unit => empty_tuple_node(),
        PayloadShape::Newtype(e) => variant_type(e),
        PayloadShape::Fields(ss) => {
            let mut tys: Vec<VariantTy> = Vec::new();
            let mut children: Vec<VariantTypeNode> = Vec::new();
            let mut j: usize = 0;
            while j < ss.len()
                invariant
                    0 <= j <= ss.len(),
                    tys@.len() == j,
                    children@.len() == j,
                    forall|i: int|
                        0 <= i < j ==> crate::ty::ty_view(tys@[i]) == shape_view(ss@[i]).ty(),
                    forall|i: int|
                        0 <= i < j ==> crate::variant_type::node_view(children@[i]) == shape_view(
                            ss@[i],
                        ).node(),
                decreases ss.len() - j,
            {
                let t = shape_ty(&ss[j]);
                let c = variant_type(&ss[j]);
                tys.push(t);
                children.push(c);
                j += 1;
            }
            proof {
                crate::ty::lemma_tys_view(tys@);
                lemma_shapes_view(ss@);
                ShapeV::lemma_tys(shapes_view(ss@));
                assert(crate::ty::tys_view(tys@) =~= ShapeV::tys(shapes_view(ss@)));
                crate::variant_type::lemma_nodes_view(children@);
                ShapeV::lemma_nodes(shapes_view(ss@));
                assert(nodes_view(children@) =~= ShapeV::nodes(shapes_view(ss@)));
            }
            VariantTypeNode::new(VariantTy::Tuple(tys), children)
        },
    }
}

impl View for PayloadShape {
    type V = PayloadShapeV;

    open spec fn view(&self) -> PayloadShapeV {
        payload_shape_view(*self)
    }
}

} // verus!

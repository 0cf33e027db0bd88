use vstd::prelude::*;
use crate::model::identity_seq;
use crate::permutation::PermArray;

verus! {

/// Colours of the eight hexagonal faces.
#[derive(Clone, Copy, Debug, PartialEq, Eq)]
pub enum Hex {
    White,
    Pink,
    Red,
    Blue,
    Yellow,
    Silver,
    Orange,
    Green,
}

/// Colours of the six square faces.
#[derive(Clone, Copy, Debug, PartialEq, Eq)]
pub enum Square {
    White,
    Yellow,
    Blue,
    Green,
    Red,
    Orange,
}

/// The centre triangle of a hexagonal face.
#[derive(Clone, Copy, Debug, PartialEq, Eq)]
pub struct TriangleFacet(pub Hex);

/// An edge facet, between a square face and a hexagonal face.
#[derive(Clone, Copy, Debug, PartialEq, Eq)]
pub struct EdgeFacet(pub Square, pub Hex);

/// A square face.
#[derive(Clone, Copy, Debug, PartialEq, Eq)]
pub struct SquareFacet(pub Square);

/// Every facet of a puzzle with centre cuts only.
#[derive(Clone, Copy, Debug, PartialEq, Eq)]
pub enum Facet {
    Square(SquareFacet),
    Triangle(TriangleFacet),
    Edge(EdgeFacet),
}

/// Puzzle state: the facets of each cut family and where each family's
/// positions have been moved to.
pub struct Puzzle {
    pub edges: Vec<EdgeFacet>,
    pub squares: Vec<SquareFacet>,
    pub triangles: Vec<TriangleFacet>,
    pub edge_permutation: PermArray<24>,
    pub square_permutation: PermArray<6>,
    pub triangle_permutation: PermArray<8>,
}

impl Puzzle {
    /// A solved puzzle: no facets recorded and every family unmoved.
    pub fn new() -> (r: Self)
        ensures
            r.edges@.len() == 0,
            r.squares@.len() == 0,
            r.triangles@.len() == 0,
            r.edge_permutation.wf(),
            r.edge_permutation@ == identity_seq(24),
            r.square_permutation.wf(),
            r.square_permutation@ == identity_seq(6),
            r.triangle_permutation.wf(),
            r.triangle_permutation@ == identity_seq(8),
    {
        Puzzle {
            edges: Vec::new(),
            squares: Vec::new(),
            triangles: Vec::new(),
            edge_permutation: PermArray::identity(),
            square_permutation: PermArray::identity(),
            triangle_permutation: PermArray::identity(),
        }
    }
}

/// The six square facets, one of each colour, in position order.
pub open spec fn square_facet_list() -> Seq<SquareFacet> {
    seq![
        SquareFacet(Square::White),
        SquareFacet(Square::Yellow),
        SquareFacet(Square::Blue),
        SquareFacet(Square::Green),
        SquareFacet(Square::Red),
        SquareFacet(Square::Orange),
    ]
}

/// The triangle facets, in position order.
pub open spec fn triangle_facet_list() -> Seq<TriangleFacet> {
    seq![
        TriangleFacet(Hex::White),
        TriangleFacet(Hex::Pink),
        TriangleFacet(Hex::Red),
        TriangleFacet(Hex::Blue),
        TriangleFacet(Hex::Yellow),
        TriangleFacet(Hex::Silver),
        TriangleFacet(Hex::Orange),
        TriangleFacet(Hex::Green),
    ]
}

/// The edge facets, in position order: four for each square face, each paired
/// with the hexagonal face on its other side.
pub open spec fn edge_facet_list() -> Seq<EdgeFacet> {
    seq![
        EdgeFacet(Square::Blue, Hex::White),
        EdgeFacet(Square::Blue, Hex::Orange),
        EdgeFacet(Square::Blue, Hex::Pink),
        EdgeFacet(Square::Blue, Hex::Green),
        EdgeFacet(Square::Yellow, Hex::White),
        EdgeFacet(Square::Yellow, Hex::Silver),
        EdgeFacet(Square::Yellow, Hex::Blue),
        EdgeFacet(Square::Yellow, Hex::Orange),
        EdgeFacet(Square::Orange, Hex::White),
        EdgeFacet(Square::Orange, Hex::Green),
        EdgeFacet(Square::Orange, Hex::Red),
        EdgeFacet(Square::Orange, Hex::Silver),
        EdgeFacet(Square::Green, Hex::Yellow),
        EdgeFacet(Square::Green, Hex::Blue),
        EdgeFacet(Square::Green, Hex::Silver),
        EdgeFacet(Square::Green, Hex::Red),
        EdgeFacet(Square::Red, Hex::Yellow),
        EdgeFacet(Square::Red, Hex::Pink),
        EdgeFacet(Square::Red, Hex::Orange),
        EdgeFacet(Square::Red, Hex::Blue),
        EdgeFacet(Square::White, Hex::Yellow),
        EdgeFacet(Square::White, Hex::Red),
        EdgeFacet(Square::White, Hex::Green),
        EdgeFacet(Square::White, Hex::Pink),
    ]
}

pub fn square_facets() -> (r: Vec<SquareFacet>)
    ensures
        r@ == square_facet_list(),
{
    let r = vec![
        SquareFacet(Square::White),
        SquareFacet(Square::Yellow),
        SquareFacet(Square::Blue),
        SquareFacet(Square::Green),
        SquareFacet(Square::Red),
        SquareFacet(Square::Orange),
    ];
    proof {
        assert(r@ =~= square_facet_list());
    }
    r
}

pub fn triangle_facets() -> (r: Vec<TriangleFacet>)
    ensures
        r@ == triangle_facet_list(),
{
    let r = vec![
        TriangleFacet(Hex::White),
        TriangleFacet(Hex::Pink),
        TriangleFacet(Hex::Red),
        TriangleFacet(Hex::Blue),
        TriangleFacet(Hex::Yellow),
        TriangleFacet(Hex::Silver),
        TriangleFacet(Hex::Orange),
        TriangleFacet(Hex::Green),
    ];
    proof {
        assert(r@ =~= triangle_facet_list());
    }
    r
}

pub fn edge_facets() -> (r: Vec<EdgeFacet>)
    ensures
        r@ == edge_facet_list(),
{
    let r = vec![
        EdgeFacet(Square::Blue, Hex::White),
        EdgeFacet(Square::Blue, Hex::Orange),
        EdgeFacet(Square::Blue, Hex::Pink),
        EdgeFacet(Square::Blue, Hex::Green),
        EdgeFacet(Square::Yellow, Hex::White),
        EdgeFacet(Square::Yellow, Hex::Silver),
        EdgeFacet(Square::Yellow, Hex::Blue),
        EdgeFacet(Square::Yellow, Hex::Orange),
        EdgeFacet(Square::Orange, Hex::White),
        EdgeFacet(Square::Orange, Hex::Green),
        EdgeFacet(Square::Orange, Hex::Red),
        EdgeFacet(Square::Orange, Hex::Silver),
        EdgeFacet(Square::Green, Hex::Yellow),
        EdgeFacet(Square::Green, Hex::Blue),
        EdgeFacet(Square::Green, Hex::Silver),
        EdgeFacet(Square::Green, Hex::Red),
        EdgeFacet(Square::Red, Hex::Yellow),
        EdgeFacet(Square::Red, Hex::Pink),
        EdgeFacet(Square::Red, Hex::Orange),
        EdgeFacet(Square::Red, Hex::Blue),
        EdgeFacet(Square::White, Hex::Yellow),
        EdgeFacet(Square::White, Hex::Red),
        EdgeFacet(Square::White, Hex::Green),
        EdgeFacet(Square::White, Hex::Pink),
    ];
    proof {
        assert(r@ =~= edge_facet_list());
    }
    r
}

} // verus!

//! The two vertex-record layouts a mesh file can commit to, and the check
//! that a mesh's layout fits the material that will render it.

use vstd::prelude::*;

verus! {

/// Position only; three bit-pattern words.
pub struct Basic {
    pub position: [u32; 3],
}

pub ghost struct BasicView {
    pub position: Seq<u32>,
}

impl View for Basic {
    type V = BasicView;

    open spec fn view(&self) -> BasicView {
        BasicView { position: self.position@ }
    }
}

impl DeepView for Basic {
    type V = BasicView;

    open spec fn deep_view(&self) -> BasicView {
        self@
    }
}

/// Position, normal, UV, four joint indices and four joint weights.
pub struct NJW {
    pub position: [u32; 3],
    pub normal: [u32; 3],
    pub uv: [u32; 2],
    pub joints: [u32; 4],
    pub weights: [u32; 4],
}

pub ghost struct NJWView {
    pub position: Seq<u32>,
    pub normal: Seq<u32>,
    pub uv: Seq<u32>,
    pub joints: Seq<u32>,
    pub weights: Seq<u32>,
}

impl View for NJW {
    type V = NJWView;

    open spec fn view(&self) -> NJWView {
        NJWView {
            position: self.position@,
            normal: self.normal@,
            uv: self.uv@,
            joints: self.joints@,
            weights: self.weights@,
        }
    }
}

impl DeepView for NJW {
    type V = NJWView;

    open spec fn deep_view(&self) -> NJWView {
        self@
    }
}

/// The closed set of vertex-record layouts; a mesh file commits to exactly
/// one for its whole lifetime.
#[derive(Clone, Copy, PartialEq, Eq, Structural, Debug)]
pub enum VertexType {
    Basic,
    NJW,
}

/// What the loader needs to know about a material: which vertex layout its
/// pipeline consumes.
#[derive(Clone, Copy, PartialEq, Eq, Structural, Debug)]
pub enum MaterialKind {
    /// Renders unskinned geometry.
    Basic,
    /// Renders skinned, animated geometry.
    BasicAnim,
}

/// Basic vertices bind only to a basic material, skinned vertices only to a
/// skinned-rendering material.
pub open spec fn compatible_spec(vt: VertexType, m: MaterialKind) -> bool {
    match m {
        MaterialKind::Basic => vt == VertexType::Basic,
        MaterialKind::BasicAnim => vt == VertexType::NJW,
    }
}

/// The variant-name bytes written to (and expected from) a mesh file, the
/// trailing delimiter not included.
pub open spec fn variant_name_spec(vt: VertexType) -> Seq<u8> {
    match vt {
        VertexType::Basic => seq!['B' as u8, 'a' as u8, 's' as u8, 'i' as u8, 'c' as u8],
        VertexType::NJW => seq!['N' as u8, 'J' as u8, 'W' as u8],
    }
}

impl VertexType {
    pub fn compatible(&self, m: &MaterialKind) -> (r: bool)
        ensures
            r == compatible_spec(*self, *m),
    {
        match m {
            MaterialKind::Basic => match self {
                VertexType::Basic => true,
                _ => false,
            },
            MaterialKind::BasicAnim => match self {
                VertexType::NJW => true,
                _ => false,
            },
        }
    }

    /// The layout a stored variant name selects, if it is a known one.
    pub fn parse(name: &Vec<u8>) -> (r: Option<VertexType>)
        ensures
            r == Some(VertexType::Basic) <==> name@ == variant_name_spec(VertexType::Basic),
            r == Some(VertexType::NJW) <==> name@ == variant_name_spec(VertexType::NJW),
            r is None <==> (name@ != variant_name_spec(VertexType::Basic)
                && name@ != variant_name_spec(VertexType::NJW)),
    {
        if name.len() == 5 && name[0] == 'B' as u8 && name[1] == 'a' as u8
            && name[2] == 's' as u8 && name[3] == 'i' as u8 && name[4] == 'c' as u8 {
            assert(name@ =~= variant_name_spec(VertexType::Basic));
            Some(VertexType::Basic)
        } else if name.len() == 3 && name[0] == 'N' as u8 && name[1] == 'J' as u8
            && name[2] == 'W' as u8 {
            assert(name@ =~= variant_name_spec(VertexType::NJW));
            Some(VertexType::NJW)
        } else {
            assert(name@ != variant_name_spec(VertexType::Basic));
            assert(name@ != variant_name_spec(VertexType::NJW));
            None
        }
    }

    /// The variant-name bytes for this layout.
    pub fn name_bytes(&self) -> (r: Vec<u8>)
        ensures
            r@ == variant_name_spec(*self),
    {
        let mut r: Vec<u8> = Vec::new();
        match self {
            VertexType::Basic => {
                r.push('B' as u8);
                r.push('a' as u8);
                r.push('s' as u8);
                r.push('i' as u8);
                r.push('c' as u8);
                assert(r@ =~= variant_name_spec(VertexType::Basic));
            },
            VertexType::NJW => {
                r.push('N' as u8);
                r.push('J' as u8);
                r.push('W' as u8);
                assert(r@ =~= variant_name_spec(VertexType::NJW));
            },
        }
        r
    }
}

} // verus!

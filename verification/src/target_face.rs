//! Target faces and the fixed table of faces each class may shoot.

use crate::class::Class;
use vstd::prelude::*;

verus! {

/// A target face, named by shooting distance and face diameter.
#[derive(Clone, Copy, Debug, PartialEq, Eq, Structural)]
pub enum TargetFace {
    M60cm122,
    M50cm80,
    M40cm122,
    M20cm122,
}

/// The faces a class may shoot, in order; the first is the recommended
/// default.
pub open spec fn faces_for_spec(c: Class) -> Seq<TargetFace> {
    match c {
        Class::RSU => seq![TargetFace::M20cm122],
        Class::RST => seq![TargetFace::M40cm122],
        Class::CC => seq![TargetFace::M50cm80],
        Class::RP => seq![TargetFace::M60cm122],
    }
}

pub open spec fn spec_face_label(f: TargetFace) -> Seq<char> {
    match f {
        TargetFace::M60cm122 => "60m / 122cm"@,
        TargetFace::M50cm80 => "50m / 80cm"@,
        TargetFace::M40cm122 => "40m / 122cm"@,
        TargetFace::M20cm122 => "20m / 122cm"@,
    }
}

impl TargetFace {
    /// The valid faces for a class. Never empty, and fixed: the same class
    /// always yields the same list.
    pub fn for_cls(cls: Class) -> (r: Vec<TargetFace>)
        ensures
            r@ == faces_for_spec(cls),
            r@.len() > 0,
    {
        let v = match cls {
            Class::RSU => vec![TargetFace::M20cm122],
            Class::RST => vec![TargetFace::M40cm122],
            Class::CC => vec![TargetFace::M50cm80],
            Class::RP => vec![TargetFace::M60cm122],
        };
        assert(v@ =~= faces_for_spec(cls));
        v
    }

    /// Human-readable label of the face.
    pub fn label(&self) -> (r: &'static str)
        ensures
            r@ == spec_face_label(*self),
    {
        match self {
            TargetFace::M60cm122 => "60m / 122cm",
            TargetFace::M50cm80 => "50m / 80cm",
            TargetFace::M40cm122 => "40m / 122cm",
            TargetFace::M20cm122 => "20m / 122cm",
        }
    }
}

} // verus!

//! Layout rules: the alignment and size that a layout standard assigns to a
//! type.

use crate::align::{is_pow2, is_power_of_two, lemma_small_pow2, round_up};
use vstd::prelude::*;

verus! {

/// The alignment and size, in bytes, of one type under one layout standard.
///
/// The size includes whatever trailing padding the type needs to end on its
/// own alignment boundary, so values of the type can follow each other
/// without any gap.
#[derive(Clone, Copy, Debug, PartialEq, Eq, Structural)]
pub struct LayoutRule {
    /// Boundary on which a value must start; a power of two.
    pub alignment: usize,
    /// Number of bytes a value occupies; a multiple of `alignment`.
    pub size: usize,
}

impl LayoutRule {
    /// A rule is well formed when its alignment is a power of two and its
    /// size is a multiple of its alignment.
    pub open spec fn wf(self) -> bool {
        &&& is_pow2(self.alignment as nat)
        &&& self.size % self.alignment == 0
    }

    /// Where a value with this rule starts when the bytes before it end at
    /// `cursor`: the next multiple of the alignment.
    pub open spec fn start_after(self, cursor: nat) -> nat {
        round_up(cursor, self.alignment as nat)
    }

    /// Where a value with this rule ends when the bytes before it end at
    /// `cursor`.
    pub open spec fn end_after(self, cursor: nat) -> nat {
        self.start_after(cursor) + self.size as nat
    }

    /// Builds the rule `(alignment, size)` if it is well formed.
    pub fn new(alignment: usize, size: usize) -> (rule: Option<LayoutRule>)
        ensures
            rule == if (LayoutRule { alignment, size }).wf() {
                Some(LayoutRule { alignment, size })
            } else {
                None
            },
    {
        if is_power_of_two(alignment) && size % alignment == 0 {
            Some(LayoutRule { alignment, size })
        } else {
            None
        }
    }

    /// Tells whether this rule is well formed.
    pub fn is_valid(&self) -> (valid: bool)
        ensures
            valid == self.wf(),
    {
        is_power_of_two(self.alignment) && self.size % self.alignment == 0
    }
}

/// Whether every rule of a sequence is well formed.
pub open spec fn all_wf(rules: Seq<LayoutRule>) -> bool {
    forall|i: int| 0 <= i < rules.len() ==> (#[trigger] rules[i]).wf()
}

/// The two GLSL layout standards.
#[derive(Clone, Copy, Debug, PartialEq, Eq, Structural)]
pub enum Standard {
    /// The layout of uniform blocks: structs and arrays are aligned to at
    /// least 16 bytes.
    Std140,
    /// The layout of storage blocks: structs and arrays are aligned as their
    /// members are.
    Std430,
}

impl Standard {
    /// The least alignment of a struct or an array under this standard.
    pub open spec fn min_alignment(self) -> nat {
        match self {
            Standard::Std140 => 16,
            Standard::Std430 => 1,
        }
    }

    /// The least alignment of a struct or an array under this standard:
    /// 16 bytes for `std140`, 1 byte for `std430`.
    pub fn floor(self) -> (floor: usize)
        ensures
            floor == self.min_alignment(),
            is_pow2(floor as nat),
    {
        proof {
            lemma_small_pow2();
        }
        match self {
            Standard::Std140 => 16,
            Standard::Std430 => 1,
        }
    }
}

/// The scalar types of GLSL.
#[derive(Clone, Copy, Debug, PartialEq, Eq, Structural)]
pub enum Scalar {
    /// `float`: a 32-bit floating-point number.
    Float,
    /// `double`: a 64-bit floating-point number.
    Double,
    /// `int`: a 32-bit signed integer.
    Int,
    /// `uint`: a 32-bit unsigned integer.
    UInt,
    /// `bool`: a truth value, kept in 32 bits.
    Bool,
}

impl Scalar {
    /// Number of bytes of one scalar.
    pub open spec fn width(self) -> nat {
        if self is Double {
            8
        } else {
            4
        }
    }
}

/// The types with a rule of their own: scalars, vectors of two to four
/// scalars, and square matrices of floats.
#[derive(Clone, Copy, Debug, PartialEq, Eq, Structural)]
pub enum Primitive {
    /// One scalar.
    Scalar(Scalar),
    /// A vector of two scalars.
    Vec2(Scalar),
    /// A vector of three scalars.
    Vec3(Scalar),
    /// A vector of four scalars.
    Vec4(Scalar),
    /// Two columns of two floats.
    Mat2,
    /// Three columns of three floats.
    Mat3,
    /// Four columns of four floats.
    Mat4,
}

impl Primitive {
    /// Number of bytes that hold data in a value of this type: its
    /// components without any padding.
    pub open spec fn data_bytes(self) -> nat {
        match self {
            Primitive::Scalar(s) => s.width(),
            Primitive::Vec2(s) => 2 * s.width(),
            Primitive::Vec3(s) => 3 * s.width(),
            Primitive::Vec4(s) => 4 * s.width(),
            Primitive::Mat2 => 2 * 2 * 4,
            Primitive::Mat3 => 3 * 3 * 4,
            Primitive::Mat4 => 4 * 4 * 4,
        }
    }

    /// The alignment of this type: a scalar is aligned to its width, a vector
    /// of two to twice, a vector of three or four to four times the width of
    /// its scalar, and a matrix to 16 bytes.
    pub open spec fn alignment(self) -> nat {
        match self {
            Primitive::Scalar(s) => s.width(),
            Primitive::Vec2(s) => 2 * s.width(),
            Primitive::Vec3(s) => 4 * s.width(),
            Primitive::Vec4(s) => 4 * s.width(),
            Primitive::Mat2 => 16,
            Primitive::Mat3 => 16,
            Primitive::Mat4 => 16,
        }
    }

    /// The size of this type. A scalar or a vector takes its data, rounded up
    /// to its alignment. A matrix takes one 16-byte stride for each column.
    pub open spec fn size(self) -> nat {
        match self {
            Primitive::Mat2 => 2 * round_up(2 * 4, 16),
            Primitive::Mat3 => 3 * round_up(3 * 4, 16),
            Primitive::Mat4 => 4 * round_up(4 * 4, 16),
            _ => round_up(self.data_bytes(), self.alignment()),
        }
    }

    /// The rule of this type. It is the same under both standards.
    pub open spec fn layout(self) -> LayoutRule {
        LayoutRule { alignment: self.alignment() as usize, size: self.size() as usize }
    }

    /// Number of bytes that hold data in a value of this type: its
    /// components without any padding. A vector of three floats has 12 bytes
    /// of data in a size of 16.
    pub fn data_size(self) -> (bytes: usize)
        ensures
            bytes == self.data_bytes(),
            bytes <= self.layout().size,
    {
        proof {
            lemma_primitive_rules_wf(self);
        }
        match self {
            Primitive::Scalar(Scalar::Double) => 8,
            Primitive::Scalar(_) => 4,
            Primitive::Vec2(Scalar::Double) => 16,
            Primitive::Vec2(_) => 8,
            Primitive::Vec3(Scalar::Double) => 24,
            Primitive::Vec3(_) => 12,
            Primitive::Vec4(Scalar::Double) => 32,
            Primitive::Vec4(_) => 16,
            Primitive::Mat2 => 16,
            Primitive::Mat3 => 36,
            Primitive::Mat4 => 64,
        }
    }

    /// The rule that `standard` gives this type.
    pub fn rule(self, standard: Standard) -> (rule: LayoutRule)
        ensures
            rule == self.layout(),
            rule.wf(),
    {
        proof {
            lemma_primitive_rules_wf(self);
            lemma_table_roundings();
        }
        match self {
            Primitive::Scalar(Scalar::Double) => LayoutRule { alignment: 8, size: 8 },
            Primitive::Scalar(_) => LayoutRule { alignment: 4, size: 4 },
            Primitive::Vec2(Scalar::Double) => LayoutRule { alignment: 16, size: 16 },
            Primitive::Vec2(_) => LayoutRule { alignment: 8, size: 8 },
            Primitive::Vec3(Scalar::Double) => LayoutRule { alignment: 32, size: 32 },
            Primitive::Vec3(_) => LayoutRule { alignment: 16, size: 16 },
            Primitive::Vec4(Scalar::Double) => LayoutRule { alignment: 32, size: 32 },
            Primitive::Vec4(_) => LayoutRule { alignment: 16, size: 16 },
            Primitive::Mat2 => LayoutRule { alignment: 16, size: 32 },
            Primitive::Mat3 => LayoutRule { alignment: 16, size: 48 },
            Primitive::Mat4 => LayoutRule { alignment: 16, size: 64 },
        }
    }
}

/// The roundings that the rule table holds.
proof fn lemma_table_roundings()
    ensures
        round_up(4, 4) == 4,
        round_up(8, 8) == 8,
        round_up(8, 16) == 16,
        round_up(12, 16) == 16,
        round_up(16, 16) == 16,
        round_up(24, 32) == 32,
        round_up(32, 32) == 32,
{
}

/// The rule of every primitive type is well formed: its alignment is a power
/// of two and its size a multiple of its alignment. Its data fit in its size.
pub proof fn lemma_primitive_rules_wf(kind: Primitive)
    ensures
        kind.layout().wf(),
        kind.data_bytes() <= kind.layout().size,
        kind.layout().alignment == kind.alignment(),
        kind.layout().size == kind.size(),
{
    lemma_small_pow2();
    lemma_table_roundings();
    let rule = kind.layout();
    match kind {
        Primitive::Scalar(s) => {
            if s is Double {
                assert(rule == LayoutRule { alignment: 8, size: 8 });
            } else {
                assert(rule == LayoutRule { alignment: 4, size: 4 });
            }
        },
        Primitive::Vec2(s) => {
            if s is Double {
                assert(rule == LayoutRule { alignment: 16, size: 16 });
            } else {
                assert(rule == LayoutRule { alignment: 8, size: 8 });
            }
        },
        Primitive::Vec3(s) => {
            if s is Double {
                assert(rule == LayoutRule { alignment: 32, size: 32 });
            } else {
                assert(rule == LayoutRule { alignment: 16, size: 16 });
            }
        },
        Primitive::Vec4(s) => {
            if s is Double {
                assert(rule == LayoutRule { alignment: 32, size: 32 });
            } else {
                assert(rule == LayoutRule { alignment: 16, size: 16 });
            }
        },
        Primitive::Mat2 => {
            assert(rule == LayoutRule { alignment: 16, size: 32 });
        },
        Primitive::Mat3 => {
            assert(rule == LayoutRule { alignment: 16, size: 48 });
        },
        Primitive::Mat4 => {
            assert(rule == LayoutRule { alignment: 16, size: 64 });
        },
    }
}

/// The rule table, entry by entry, for the vectors of one scalar and for the
/// matrices.
pub proof fn lemma_rule_table(scalar: Scalar)
    ensures
        scalar.width() == if scalar is Double {
            8nat
        } else {
            4nat
        },
        Primitive::Scalar(scalar).layout().alignment == scalar.width(),
        Primitive::Scalar(scalar).layout().size == scalar.width(),
        Primitive::Vec2(scalar).layout().alignment == 2 * scalar.width(),
        Primitive::Vec2(scalar).layout().size == 2 * scalar.width(),
        Primitive::Vec3(scalar).layout().alignment == 4 * scalar.width(),
        Primitive::Vec3(scalar).layout().size == 4 * scalar.width(),
        Primitive::Vec4(scalar).layout().alignment == 4 * scalar.width(),
        Primitive::Vec4(scalar).layout().size == 4 * scalar.width(),
        Primitive::Mat2.layout() == (LayoutRule { alignment: 16, size: 32 }),
        Primitive::Mat3.layout() == (LayoutRule { alignment: 16, size: 48 }),
        Primitive::Mat4.layout() == (LayoutRule { alignment: 16, size: 64 }),
{
    lemma_table_roundings();
}

} // verus!

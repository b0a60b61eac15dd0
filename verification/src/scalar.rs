//! Scalars that Rust has no type for, or another one: floating-point numbers
//! carried as their bits, and the boolean of GLSL.

use crate::image::{
    dword_image, lemma_dword_image_injective, lemma_word_image_injective, push_dword, push_word,
    word_image,
};
use crate::rule::{lemma_primitive_rules_wf, lemma_rule_table, LayoutRule, Primitive, Scalar, Standard};
use crate::std140::{AsStd140, Std140};
use vstd::prelude::*;

verus! {

/// A 32-bit floating-point number, carried as its bits (`f32::to_bits`).
#[derive(Clone, Copy, Debug, PartialEq, Eq, Structural)]
pub struct Float(pub u32);

/// A 64-bit floating-point number, carried as its bits (`f64::to_bits`).
#[derive(Clone, Copy, Debug, PartialEq, Eq, Structural)]
pub struct Double(pub u64);

/// The boolean of GLSL: four bytes that hold 0 or 1.
#[derive(Clone, Copy, Debug, PartialEq, Eq, Structural)]
pub struct Bool(pub bool);

impl Bool {
    /// The word that stands for this truth value: 1 for true, 0 for false.
    pub open spec fn word(self) -> u32 {
        if self.0 {
            1
        } else {
            0
        }
    }
}

impl Std140 for Float {
    open spec fn layout() -> LayoutRule {
        Primitive::Scalar(Scalar::Float).layout()
    }

    open spec fn image(&self) -> Seq<u8> {
        word_image(self.0)
    }

    proof fn lemma_layout(&self) {
        lemma_primitive_rules_wf(Primitive::Scalar(Scalar::Float));
        lemma_rule_table(Scalar::Float);
    }

    proof fn lemma_image_injective(&self, other: &Self) {
        lemma_word_image_injective(self.0, other.0);
    }

    fn alignment() -> usize {
        Primitive::Scalar(Scalar::Float).rule(Standard::Std140).alignment
    }

    fn size() -> usize {
        Primitive::Scalar(Scalar::Float).rule(Standard::Std140).size
    }

    fn to_bytes(&self) -> Vec<u8> {
        let mut bytes: Vec<u8> = Vec::new();
        push_word(&mut bytes, self.0);
        bytes
    }
}

impl Std140 for Double {
    open spec fn layout() -> LayoutRule {
        Primitive::Scalar(Scalar::Double).layout()
    }

    open spec fn image(&self) -> Seq<u8> {
        dword_image(self.0)
    }

    proof fn lemma_layout(&self) {
        lemma_primitive_rules_wf(Primitive::Scalar(Scalar::Double));
        lemma_rule_table(Scalar::Double);
    }

    proof fn lemma_image_injective(&self, other: &Self) {
        lemma_dword_image_injective(self.0, other.0);
    }

    fn alignment() -> usize {
        Primitive::Scalar(Scalar::Double).rule(Standard::Std140).alignment
    }

    fn size() -> usize {
        Primitive::Scalar(Scalar::Double).rule(Standard::Std140).size
    }

    fn to_bytes(&self) -> Vec<u8> {
        let mut bytes: Vec<u8> = Vec::new();
        push_dword(&mut bytes, self.0);
        bytes
    }
}

impl Std140 for Bool {
    open spec fn layout() -> LayoutRule {
        Primitive::Scalar(Scalar::Bool).layout()
    }

    open spec fn image(&self) -> Seq<u8> {
        word_image(self.word())
    }

    proof fn lemma_layout(&self) {
        lemma_primitive_rules_wf(Primitive::Scalar(Scalar::Bool));
        lemma_rule_table(Scalar::Bool);
    }

    proof fn lemma_image_injective(&self, other: &Self) {
        lemma_word_image_injective(self.word(), other.word());
    }

    fn alignment() -> usize {
        Primitive::Scalar(Scalar::Bool).rule(Standard::Std140).alignment
    }

    fn size() -> usize {
        Primitive::Scalar(Scalar::Bool).rule(Standard::Std140).size
    }

    fn to_bytes(&self) -> Vec<u8> {
        let mut bytes: Vec<u8> = Vec::new();
        let word: u32 = if self.0 {
            1
        } else {
            0
        };
        push_word(&mut bytes, word);
        bytes
    }
}

impl AsStd140 for bool {
    type Std140Type = Bool;

    open spec fn std140(&self) -> Bool {
        Bool(*self)
    }

    fn as_std140(&self) -> Bool {
        Bool(*self)
    }
}

/// A truth value reads back from its `std140` counterpart as it was, and
/// its word is 0 or 1.
pub proof fn lemma_bool_reads_back(value: bool)
    ensures
        value.std140().0 == value,
        value.std140().word() == 0 || value.std140().word() == 1,
        value.std140().word() == 1 <==> value,
{
}

} // verus!

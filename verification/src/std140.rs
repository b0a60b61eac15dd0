//! Defines traits and types for working with data adhering to GLSL's `std140`
//! layout specification.

use crate::align::{align_offset, lemma_pow2_positive, padding_for};
use crate::padded::Padded;
use crate::image::{
    lemma_same_parts, lemma_word_image_injective, push_bytes, push_word, push_zeros, to_word,
    twos_complement, word_image, zeros,
};
use crate::rule::{lemma_primitive_rules_wf, lemma_rule_table, LayoutRule, Primitive, Scalar, Standard};
use crate::scalar::Float;
use crate::sink::Sink;
use crate::stream::emit;
use vstd::array::array_as_slice;
use vstd::prelude::*;

verus! {

/// Trait implemented for all `std140` primitives: values whose bytes can go
/// into a buffer as they are.
pub trait Std140: Copy {
    /// The alignment and size of every value of this type.
    spec fn layout() -> LayoutRule;

    /// The bytes of this value as they lie in a buffer, padding included.
    spec fn image(&self) -> Seq<u8>;

    /// The layout is well formed, and every image is as long as it says.
    proof fn lemma_layout(&self)
        ensures
            Self::layout().wf(),
            self.image().len() == Self::layout().size,
    ;

    /// Values with the same image are the same value: what went into the
    /// bytes can be read back from them.
    proof fn lemma_image_injective(&self, other: &Self)
        requires
            self.image() == other.image(),
        ensures
            *self == *other,
    ;

    /// Boundary, in bytes, on which a value of this type must start.
    fn alignment() -> (alignment: usize)
        ensures
            alignment == Self::layout().alignment,
    ;

    /// Number of bytes that a value of this type occupies.
    fn size() -> (size: usize)
        ensures
            size == Self::layout().size,
    ;

    /// The bytes of this value as they lie in a buffer.
    fn to_bytes(&self) -> (bytes: Vec<u8>)
        ensures
            bytes@ == self.image(),
    ;
}

/// Trait implemented for all types that can be turned into `std140` values.
pub trait AsStd140 {
    /// The `std140` counterpart of this type.
    type Std140Type: Std140;

    /// The `std140` value that stands for this one.
    spec fn std140(&self) -> Self::Std140Type;

    /// Converts this value into its `std140` counterpart.
    fn as_std140(&self) -> (value: Self::Std140Type)
        ensures
            value == self.std140(),
    ;
}

/// The rule of the `std140` counterpart of `T`.
pub fn layout_of<T>() -> (rule: LayoutRule) where T: AsStd140
    ensures
        rule == T::Std140Type::layout(),
{
    LayoutRule { alignment: T::Std140Type::alignment(), size: T::Std140Type::size() }
}

impl<T> AsStd140 for T where T: Std140 {
    type Std140Type = Self;

    open spec fn std140(&self) -> Self {
        *self
    }

    fn as_std140(&self) -> Self {
        *self
    }
}

/// A primitive is its own `std140` value: converting it changes nothing,
/// so each of its fields reads back as it was.
pub proof fn lemma_primitive_converts_to_itself<T: Std140>(value: T)
    ensures
        value.std140() == value,
{
}

impl Std140 for u32 {
    open spec fn layout() -> LayoutRule {
        Primitive::Scalar(Scalar::UInt).layout()
    }

    open spec fn image(&self) -> Seq<u8> {
        word_image(*self)
    }

    proof fn lemma_layout(&self) {
        lemma_primitive_rules_wf(Primitive::Scalar(Scalar::UInt));
        lemma_rule_table(Scalar::UInt);
    }

    proof fn lemma_image_injective(&self, other: &Self) {
        lemma_word_image_injective(*self, *other);
    }

    fn alignment() -> usize {
        Primitive::Scalar(Scalar::UInt).rule(Standard::Std140).alignment
    }

    fn size() -> usize {
        Primitive::Scalar(Scalar::UInt).rule(Standard::Std140).size
    }

    fn to_bytes(&self) -> Vec<u8> {
        let mut bytes: Vec<u8> = Vec::new();
        push_word(&mut bytes, *self);
        bytes
    }
}

impl Std140 for i32 {
    open spec fn layout() -> LayoutRule {
        Primitive::Scalar(Scalar::Int).layout()
    }

    open spec fn image(&self) -> Seq<u8> {
        word_image(twos_complement(*self))
    }

    proof fn lemma_layout(&self) {
        lemma_primitive_rules_wf(Primitive::Scalar(Scalar::Int));
        lemma_rule_table(Scalar::Int);
    }

    proof fn lemma_image_injective(&self, other: &Self) {
        lemma_word_image_injective(twos_complement(*self), twos_complement(*other));
    }

    fn alignment() -> usize {
        Primitive::Scalar(Scalar::Int).rule(Standard::Std140).alignment
    }

    fn size() -> usize {
        Primitive::Scalar(Scalar::Int).rule(Standard::Std140).size
    }

    fn to_bytes(&self) -> Vec<u8> {
        let mut bytes: Vec<u8> = Vec::new();
        push_word(&mut bytes, to_word(*self));
        bytes
    }
}

/// A vector of two floats.
#[derive(Debug, Clone, Copy, PartialEq, Eq, Structural)]
pub struct Vec2 {
    pub x: Float,
    pub y: Float,
}

impl Std140 for Vec2 {
    open spec fn layout() -> LayoutRule {
        Primitive::Vec2(Scalar::Float).layout()
    }

    open spec fn image(&self) -> Seq<u8> {
        self.x.image() + self.y.image()
    }

    proof fn lemma_layout(&self) {
        lemma_primitive_rules_wf(Primitive::Vec2(Scalar::Float));
        lemma_rule_table(Scalar::Float);
    }

    proof fn lemma_image_injective(&self, other: &Self) {
        self.x.lemma_layout();
        other.x.lemma_layout();
        lemma_same_parts(self.x.image(), self.y.image(), other.x.image(), other.y.image());
        self.x.lemma_image_injective(&other.x);
        self.y.lemma_image_injective(&other.y);
    }

    fn alignment() -> usize {
        Primitive::Vec2(Scalar::Float).rule(Standard::Std140).alignment
    }

    fn size() -> usize {
        Primitive::Vec2(Scalar::Float).rule(Standard::Std140).size
    }

    fn to_bytes(&self) -> Vec<u8> {
        let mut bytes: Vec<u8> = Vec::new();
        push_word(&mut bytes, self.x.0);
        push_word(&mut bytes, self.y.0);
        bytes
    }
}

/// A vector of three floats. Its three components are followed by four
/// bytes of padding.
#[derive(Debug, Clone, Copy, PartialEq, Eq, Structural)]
pub struct Vec3 {
    pub x: Float,
    pub y: Float,
    pub z: Float,
}

impl Std140 for Vec3 {
    open spec fn layout() -> LayoutRule {
        Primitive::Vec3(Scalar::Float).layout()
    }

    open spec fn image(&self) -> Seq<u8> {
        self.x.image() + self.y.image() + self.z.image() + zeros(4)
    }

    proof fn lemma_layout(&self) {
        lemma_primitive_rules_wf(Primitive::Vec3(Scalar::Float));
        lemma_rule_table(Scalar::Float);
    }

    proof fn lemma_image_injective(&self, other: &Self) {
        self.x.lemma_layout();
        other.x.lemma_layout();
        self.y.lemma_layout();
        other.y.lemma_layout();
        self.z.lemma_layout();
        other.z.lemma_layout();
        lemma_same_parts(
            self.x.image() + self.y.image() + self.z.image(),
            zeros(4),
            other.x.image() + other.y.image() + other.z.image(),
            zeros(4),
        );
        lemma_same_parts(
            self.x.image() + self.y.image(),
            self.z.image(),
            other.x.image() + other.y.image(),
            other.z.image(),
        );
        lemma_same_parts(self.x.image(), self.y.image(), other.x.image(), other.y.image());
        self.x.lemma_image_injective(&other.x);
        self.y.lemma_image_injective(&other.y);
        self.z.lemma_image_injective(&other.z);
    }

    fn alignment() -> usize {
        Primitive::Vec3(Scalar::Float).rule(Standard::Std140).alignment
    }

    fn size() -> usize {
        Primitive::Vec3(Scalar::Float).rule(Standard::Std140).size
    }

    fn to_bytes(&self) -> Vec<u8> {
        let mut bytes: Vec<u8> = Vec::new();
        push_word(&mut bytes, self.x.0);
        push_word(&mut bytes, self.y.0);
        push_word(&mut bytes, self.z.0);
        push_zeros(&mut bytes, 4);
        bytes
    }
}

/// A vector of four floats.
#[derive(Debug, Clone, Copy, PartialEq, Eq, Structural)]
pub struct Vec4 {
    pub x: Float,
    pub y: Float,
    pub z: Float,
    pub w: Float,
}

impl Std140 for Vec4 {
    open spec fn layout() -> LayoutRule {
        Primitive::Vec4(Scalar::Float).layout()
    }

    open spec fn image(&self) -> Seq<u8> {
        self.x.image() + self.y.image() + self.z.image() + self.w.image()
    }

    proof fn lemma_layout(&self) {
        lemma_primitive_rules_wf(Primitive::Vec4(Scalar::Float));
        lemma_rule_table(Scalar::Float);
    }

    proof fn lemma_image_injective(&self, other: &Self) {
        self.x.lemma_layout();
        other.x.lemma_layout();
        self.y.lemma_layout();
        other.y.lemma_layout();
        self.z.lemma_layout();
        other.z.lemma_layout();
        lemma_same_parts(
            self.x.image() + self.y.image() + self.z.image(),
            self.w.image(),
            other.x.image() + other.y.image() + other.z.image(),
            other.w.image(),
        );
        lemma_same_parts(
            self.x.image() + self.y.image(),
            self.z.image(),
            other.x.image() + other.y.image(),
            other.z.image(),
        );
        lemma_same_parts(self.x.image(), self.y.image(), other.x.image(), other.y.image());
        self.x.lemma_image_injective(&other.x);
        self.y.lemma_image_injective(&other.y);
        self.z.lemma_image_injective(&other.z);
        self.w.lemma_image_injective(&other.w);
    }

    fn alignment() -> usize {
        Primitive::Vec4(Scalar::Float).rule(Standard::Std140).alignment
    }

    fn size() -> usize {
        Primitive::Vec4(Scalar::Float).rule(Standard::Std140).size
    }

    fn to_bytes(&self) -> Vec<u8> {
        let mut bytes: Vec<u8> = Vec::new();
        push_word(&mut bytes, self.x.0);
        push_word(&mut bytes, self.y.0);
        push_word(&mut bytes, self.z.0);
        push_word(&mut bytes, self.w.0);
        bytes
    }
}

/// A matrix of two columns of two floats. Each column is followed by eight
/// bytes of padding.
#[derive(Debug, Clone, Copy, PartialEq, Eq, Structural)]
pub struct Mat2 {
    pub x: Vec2,
    pub y: Vec2,
}

impl Std140 for Mat2 {
    open spec fn layout() -> LayoutRule {
        Primitive::Mat2.layout()
    }

    open spec fn image(&self) -> Seq<u8> {
        self.x.image() + zeros(8) + self.y.image() + zeros(8)
    }

    proof fn lemma_layout(&self) {
        lemma_primitive_rules_wf(Primitive::Mat2);
        lemma_rule_table(Scalar::Float);
        self.x.lemma_layout();
        self.y.lemma_layout();
    }

    proof fn lemma_image_injective(&self, other: &Self) {
        self.x.lemma_layout();
        other.x.lemma_layout();
        self.y.lemma_layout();
        other.y.lemma_layout();
        lemma_rule_table(Scalar::Float);
        lemma_same_parts(
            self.x.image() + zeros(8) + self.y.image(),
            zeros(8),
            other.x.image() + zeros(8) + other.y.image(),
            zeros(8),
        );
        lemma_same_parts(
            self.x.image() + zeros(8),
            self.y.image(),
            other.x.image() + zeros(8),
            other.y.image(),
        );
        lemma_same_parts(self.x.image(), zeros(8), other.x.image(), zeros(8));
        self.x.lemma_image_injective(&other.x);
        self.y.lemma_image_injective(&other.y);
    }

    fn alignment() -> usize {
        Primitive::Mat2.rule(Standard::Std140).alignment
    }

    fn size() -> usize {
        Primitive::Mat2.rule(Standard::Std140).size
    }

    fn to_bytes(&self) -> Vec<u8> {
        let mut bytes: Vec<u8> = self.x.to_bytes();
        push_zeros(&mut bytes, 8);
        push_bytes(&mut bytes, self.y.to_bytes().as_slice());
        push_zeros(&mut bytes, 8);
        bytes
    }
}

/// A matrix of three columns of three floats. Each column is followed by
/// four bytes of padding.
#[derive(Debug, Clone, Copy, PartialEq, Eq, Structural)]
pub struct Mat3 {
    pub x: Vec3,
    pub y: Vec3,
    pub z: Vec3,
}

impl Std140 for Mat3 {
    open spec fn layout() -> LayoutRule {
        Primitive::Mat3.layout()
    }

    open spec fn image(&self) -> Seq<u8> {
        self.x.image() + self.y.image() + self.z.image()
    }

    proof fn lemma_layout(&self) {
        lemma_primitive_rules_wf(Primitive::Mat3);
        lemma_rule_table(Scalar::Float);
        self.x.lemma_layout();
        self.y.lemma_layout();
        self.z.lemma_layout();
    }

    proof fn lemma_image_injective(&self, other: &Self) {
        self.x.lemma_layout();
        other.x.lemma_layout();
        self.y.lemma_layout();
        other.y.lemma_layout();
        lemma_rule_table(Scalar::Float);
        lemma_same_parts(
            self.x.image() + self.y.image(),
            self.z.image(),
            other.x.image() + other.y.image(),
            other.z.image(),
        );
        lemma_same_parts(self.x.image(), self.y.image(), other.x.image(), other.y.image());
        self.x.lemma_image_injective(&other.x);
        self.y.lemma_image_injective(&other.y);
        self.z.lemma_image_injective(&other.z);
    }

    fn alignment() -> usize {
        Primitive::Mat3.rule(Standard::Std140).alignment
    }

    fn size() -> usize {
        Primitive::Mat3.rule(Standard::Std140).size
    }

    fn to_bytes(&self) -> Vec<u8> {
        let mut bytes: Vec<u8> = self.x.to_bytes();
        push_bytes(&mut bytes, self.y.to_bytes().as_slice());
        push_bytes(&mut bytes, self.z.to_bytes().as_slice());
        bytes
    }
}

/// A matrix of four columns of four floats.
#[derive(Debug, Clone, Copy, PartialEq, Eq, Structural)]
pub struct Mat4 {
    pub x: Vec4,
    pub y: Vec4,
    pub z: Vec4,
    pub w: Vec4,
}

impl Std140 for Mat4 {
    open spec fn layout() -> LayoutRule {
        Primitive::Mat4.layout()
    }

    open spec fn image(&self) -> Seq<u8> {
        self.x.image() + self.y.image() + self.z.image() + self.w.image()
    }

    proof fn lemma_layout(&self) {
        lemma_primitive_rules_wf(Primitive::Mat4);
        lemma_rule_table(Scalar::Float);
        self.x.lemma_layout();
        self.y.lemma_layout();
        self.z.lemma_layout();
        self.w.lemma_layout();
    }

    proof fn lemma_image_injective(&self, other: &Self) {
        self.x.lemma_layout();
        other.x.lemma_layout();
        self.y.lemma_layout();
        other.y.lemma_layout();
        self.z.lemma_layout();
        other.z.lemma_layout();
        lemma_rule_table(Scalar::Float);
        lemma_same_parts(
            self.x.image() + self.y.image() + self.z.image(),
            self.w.image(),
            other.x.image() + other.y.image() + other.z.image(),
            other.w.image(),
        );
        lemma_same_parts(
            self.x.image() + self.y.image(),
            self.z.image(),
            other.x.image() + other.y.image(),
            other.z.image(),
        );
        lemma_same_parts(self.x.image(), self.y.image(), other.x.image(), other.y.image());
        self.x.lemma_image_injective(&other.x);
        self.y.lemma_image_injective(&other.y);
        self.z.lemma_image_injective(&other.z);
        self.w.lemma_image_injective(&other.w);
    }

    fn alignment() -> usize {
        Primitive::Mat4.rule(Standard::Std140).alignment
    }

    fn size() -> usize {
        Primitive::Mat4.rule(Standard::Std140).size
    }

    fn to_bytes(&self) -> Vec<u8> {
        let mut bytes: Vec<u8> = self.x.to_bytes();
        push_bytes(&mut bytes, self.y.to_bytes().as_slice());
        push_bytes(&mut bytes, self.z.to_bytes().as_slice());
        push_bytes(&mut bytes, self.w.to_bytes().as_slice());
        bytes
    }
}

/// Type that enables writing correctly aligned `std140` values to a buffer.
///
/// `Writer` is useful when many values need to be laid out in a row that
/// cannot be represented by a struct alone, like dynamically sized arrays or
/// dynamically laid-out values.
pub struct Writer<W> {
    writer: W,
    offset: usize,
}

impl<W: Sink> Writer<W> {
    /// The sink that this writer fills.
    pub closed spec fn sink(&self) -> W {
        self.writer
    }

    /// Number of bytes written through this writer, padding included.
    pub closed spec fn cursor(&self) -> nat {
        self.offset as nat
    }

    /// What one write makes of a writer: whether writing `image` at the next
    /// multiple of `alignment` can turn the writer `self` into `after`, with
    /// success if `ok`.
    ///
    /// The write succeeds if the sink has promised room for the padding and
    /// the image. After a success the sink holds the zero bytes of the
    /// padding and then the image, the cursor has passed both, and the sink
    /// still promises what it promised beyond them. After a failure the sink
    /// holds some first part of these bytes, and the cursor stands before or
    /// after the padding.
    pub open spec fn writes(self, after: Self, ok: bool, alignment: nat, image: Seq<u8>) -> bool {
        let padding = padding_for(self.cursor(), alignment);
        let whole = emit(self.sink().bytes(), self.cursor(), alignment, image);
        &&& self.sink().accepts(padding + image.len()) ==> ok
        &&& ok ==> after.sink().bytes() == whole
        &&& ok ==> after.cursor() == self.cursor() + padding + image.len()
        &&& ok ==> forall|n: nat| #[trigger]
            self.sink().accepts(n) && n >= padding + image.len() ==> after.sink().accepts(
                (n - padding - image.len()) as nat,
            )
        &&& !ok ==> self.sink().bytes().is_prefix_of(after.sink().bytes())
        &&& !ok ==> after.sink().bytes().is_prefix_of(whole)
        &&& !ok ==> after.cursor() == self.cursor() || after.cursor() == self.cursor() + padding
    }

    /// Starts writing into `writer`, counting from zero.
    pub fn new(writer: W) -> (created: Self)
        ensures
            created.sink() == writer,
            created.cursor() == 0,
    {
        Self { writer, offset: 0 }
    }

    /// Writes `image` at the next multiple of `alignment`, filling the gap
    /// with zero bytes. If the sink rejects a byte, its error is returned.
    pub fn write_image(&mut self, alignment: usize, image: &[u8]) -> (result: Result<(), W::Error>)
        requires
            alignment > 0,
            old(self).cursor() + padding_for(old(self).cursor(), alignment as nat) + image@.len()
                <= usize::MAX,
        ensures
            old(self).writes(*final(self), result is Ok, alignment as nat, image@),
    {
        let padding: usize = align_offset(self.offset, alignment);
        let ghost start = old(self).sink().bytes();
        let zero: [u8; 1] = [0u8];
        let mut written: usize = 0;
        while written < padding
            invariant
                written <= padding,
                padding == padding_for(old(self).cursor(), alignment as nat),
                start == old(self).sink().bytes(),
                zero@ == seq![0u8],
                self.offset == old(self).offset,
                self.writer.bytes() == start + zeros(written as nat),
                forall|n: nat| #[trigger]
                    old(self).sink().accepts(n) && n >= written ==> self.writer.accepts(
                        (n - written) as nat,
                    ),
            decreases padding - written,
        {
            proof {
                let total = (padding + image@.len()) as nat;
                if old(self).sink().accepts(total) {
                    self.writer.lemma_accepts_fewer(1, (total - written) as nat);
                }
                assert(start + zeros(written as nat) + seq![0u8] == start + zeros(
                    (written + 1) as nat,
                ));
                assert((start + zeros((written + 1) as nat)).is_prefix_of(
                    start + zeros(padding as nat) + image@,
                ));
            }
            match self.writer.write_all(array_as_slice(&zero)) {
                Ok(()) => {},
                Err(e) => {
                    return Err(e);
                },
            }
            written = written + 1;
        }
        self.offset = self.offset + padding;

        proof {
            let total = (padding + image@.len()) as nat;
            if old(self).sink().accepts(total) {
                assert(self.writer.accepts((total - padding) as nat));
            }
            assert(start.is_prefix_of(start + zeros(padding as nat)));
        }
        match self.writer.write_all(image) {
            Ok(()) => {},
            Err(e) => {
                return Err(e);
            },
        }
        self.offset = self.offset + image.len();
        Ok(())
    }

    /// Writes `value` at the next offset that its alignment allows, filling
    /// the gap with zero bytes. If the sink rejects a byte, its error is
    /// returned.
    pub fn write<T>(&mut self, value: &T) -> (result: Result<(), W::Error>) where T: AsStd140
        requires
            T::Std140Type::layout().end_after(old(self).cursor()) <= usize::MAX,
        ensures
            old(self).writes(
                *final(self),
                result is Ok,
                T::Std140Type::layout().alignment as nat,
                value.std140().image(),
            ),
            result is Ok ==> final(self).cursor() == T::Std140Type::layout().end_after(
                old(self).cursor(),
            ),
    {
        let value = value.as_std140();
        let alignment: usize = T::Std140Type::alignment();
        let bytes = value.to_bytes();
        proof {
            value.lemma_layout();
            lemma_pow2_positive(alignment as nat);
        }
        self.write_image(alignment, bytes.as_slice())
    }

    /// Writes a padded value at the next offset that its alignment allows,
    /// filling the gap with zero bytes. If the sink rejects a byte, its error
    /// is returned.
    pub fn write_padded(&mut self, value: &Padded) -> (result: Result<(), W::Error>)
        requires
            value.wf(),
            value.layout().end_after(old(self).cursor()) <= usize::MAX,
        ensures
            old(self).writes(
                *final(self),
                result is Ok,
                value.layout().alignment as nat,
                value.image(),
            ),
            result is Ok ==> final(self).cursor() == value.layout().end_after(old(self).cursor()),
    {
        let rule = value.rule();
        proof {
            lemma_pow2_positive(rule.alignment as nat);
        }
        self.write_image(rule.alignment, value.as_bytes())
    }

    /// Number of bytes written so far, padding included.
    pub fn len(&self) -> (len: usize)
        ensures
            len == self.cursor(),
    {
        self.offset
    }

    /// Gives the sink back.
    pub fn into_inner(self) -> (writer: W)
        ensures
            writer == self.sink(),
    {
        self.writer
    }
}

} // verus!

//! Padded values: the byte image of a value together with its rule, and the
//! images of structs and arrays built from those of their parts.

use crate::align::lemma_pow2_positive;
use crate::compose::{
    array_alignment, array_layout, array_size, array_stride, field_offset, lemma_array_stride,
    lemma_struct_rule_wf, struct_alignment, struct_layout, struct_size,
};
use crate::image::{push_bytes, push_zeros, zeros};
use crate::rule::{all_wf, LayoutRule, Standard};
use crate::stream::{
    emit_all, lemma_emit_all_len, lemma_emit_all_prefix, lemma_emit_all_step, lemma_replay_step,
    replay, sized,
};
use crate::std140::{layout_of, AsStd140, Std140};
use vstd::prelude::*;
use vstd::slice::slice_subrange;

verus! {

/// A value in the shape a buffer holds it in: its bytes, padding included,
/// and the rule that says where they may start.
#[derive(Clone, Debug, PartialEq, Eq)]
pub struct Padded {
    rule: LayoutRule,
    bytes: Vec<u8>,
}

/// The rules of a sequence of padded values.
pub open spec fn layouts(values: Seq<Padded>) -> Seq<LayoutRule> {
    Seq::new(values.len(), |i: int| values[i].layout())
}

/// The images of a sequence of padded values.
pub open spec fn images(values: Seq<Padded>) -> Seq<Seq<u8>> {
    Seq::new(values.len(), |i: int| values[i].image())
}

/// Whether every value of a sequence is well formed.
pub open spec fn all_padded(values: Seq<Padded>) -> bool {
    forall|i: int| 0 <= i < values.len() ==> (#[trigger] values[i]).wf()
}

/// The image of a struct: each field's image at the field's offset, zero
/// bytes in every gap and after the last field up to the struct's size.
pub open spec fn struct_image(
    standard: Standard,
    rules: Seq<LayoutRule>,
    images: Seq<Seq<u8>>,
) -> Seq<u8> {
    let fields = emit_all(Seq::empty(), 0, rules, images);
    fields + zeros((struct_size(standard, rules) - fields.len()) as nat)
}

/// The image of an array: each element's image, followed by zero bytes up
/// to the stride.
pub open spec fn array_image(
    standard: Standard,
    element: LayoutRule,
    images: Seq<Seq<u8>>,
) -> Seq<u8>
    decreases images.len(),
{
    if images.len() == 0 {
        Seq::empty()
    } else {
        array_image(standard, element, images.drop_last()) + images.last() + zeros(
            (array_stride(standard, element) - element.size) as nat,
        )
    }
}

impl Padded {
    /// The rule of this value.
    pub closed spec fn layout(&self) -> LayoutRule {
        self.rule
    }

    /// The bytes of this value.
    pub closed spec fn image(&self) -> Seq<u8> {
        self.bytes@
    }

    /// A padded value is well formed when its rule is and it has as many
    /// bytes as its rule says.
    pub open spec fn wf(&self) -> bool {
        &&& self.layout().wf()
        &&& self.image().len() == self.layout().size
    }

    /// Pairs `bytes` with `rule`, if the rule is well formed and the bytes
    /// are as many as it says.
    pub fn new(rule: LayoutRule, bytes: Vec<u8>) -> (padded: Option<Padded>)
        ensures
            padded is Some <==> rule.wf() && bytes@.len() == rule.size,
            padded matches Some(p) ==> p.wf() && p.layout() == rule && p.image() == bytes@,
    {
        if rule.is_valid() && bytes.len() == rule.size {
            Some(Padded { rule, bytes })
        } else {
            None
        }
    }

    /// The padded value of `value`: its `std140` counterpart, as bytes.
    pub fn of<T>(value: &T) -> (padded: Padded) where T: AsStd140
        ensures
            padded.wf(),
            padded.layout() == T::Std140Type::layout(),
            padded.image() == value.std140().image(),
    {
        let value = value.as_std140();
        proof {
            value.lemma_layout();
        }
        Padded { rule: layout_of::<T>(), bytes: value.to_bytes() }
    }

    /// Reads back a part of this value: the field of a struct or the element
    /// of an array that has the rule `rule` and starts at `offset`. There is
    /// such a part if the rule is well formed, the offset is a multiple of
    /// its alignment, and the part ends within this value.
    pub fn read_at(&self, offset: usize, rule: &LayoutRule) -> (part: Option<Padded>)
        ensures
            part is Some <==> rule.wf() && offset % rule.alignment == 0 && offset + rule.size
                <= self.image().len(),
            part matches Some(p) ==> p.wf() && p.layout() == *rule && p.image()
                == self.image().subrange(offset as int, offset + rule.size),
    {
        if !rule.is_valid() {
            return None;
        }
        proof {
            lemma_pow2_positive(rule.alignment as nat);
        }
        if offset % rule.alignment != 0 {
            return None;
        }
        let len: usize = self.bytes.len();
        match offset.checked_add(rule.size) {
            Some(end) => {
                if end <= len {
                    let mut bytes: Vec<u8> = Vec::new();
                    push_bytes(&mut bytes, slice_subrange(self.bytes.as_slice(), offset, end));
                    Some(Padded { rule: *rule, bytes })
                } else {
                    None
                }
            },
            None => None,
        }
    }

    /// The rule of this value.
    pub fn rule(&self) -> (rule: LayoutRule)
        ensures
            rule == self.layout(),
    {
        self.rule
    }

    /// The bytes of this value.
    pub fn as_bytes(&self) -> (bytes: &[u8])
        ensures
            bytes@ == self.image(),
    {
        self.bytes.as_slice()
    }
}

/// Collects the rules of `values`.
fn rules_of(values: &[Padded]) -> (rules: Vec<LayoutRule>)
    ensures
        rules@ == layouts(values@),
{
    let mut rules: Vec<LayoutRule> = Vec::new();
    let mut i: usize = 0;
    while i < values.len()
        invariant
            i <= values@.len(),
            rules@ == layouts(values@).take(i as int),
        decreases values@.len() - i,
    {
        rules.push(values[i].rule);
        i = i + 1;
        assert(layouts(values@).take(i as int) == layouts(values@).take(i - 1).push(
            values@[i - 1].layout(),
        ));
    }
    assert(layouts(values@).take(i as int) == layouts(values@));
    rules
}

/// The rules of well-formed values are well formed, and their images are as
/// long as their rules say.
pub proof fn lemma_padded_sized(values: Seq<Padded>)
    requires
        all_padded(values),
    ensures
        all_wf(layouts(values)),
        sized(layouts(values), images(values)),
{
    assert forall|i: int| 0 <= i < values.len() implies (#[trigger] layouts(values)[i]).wf()
        && (#[trigger] images(values)[i]).len() == layouts(values)[i].size by {
        assert(values[i].wf());
    }
}

/// Reading a struct's image back field by field gives each field's image
/// as it went in: nothing is lost or changed on the way through the bytes.
pub proof fn lemma_fields_read_back(
    standard: Standard,
    rules: Seq<LayoutRule>,
    images: Seq<Seq<u8>>,
    i: int,
)
    requires
        all_wf(rules),
        sized(rules, images),
        0 <= i < rules.len(),
    ensures
        field_offset(rules, i) + rules[i].size <= struct_image(standard, rules, images).len(),
        struct_image(standard, rules, images).subrange(
            field_offset(rules, i) as int,
            field_offset(rules, i) + rules[i].size,
        ) == images[i],
{
    let n = rules.len() as int;
    lemma_emit_all_prefix(rules, images, i + 1, n);
    lemma_emit_all_prefix(rules, images, i, i + 1);
    lemma_emit_all_step(rules, images, i);
    lemma_replay_step(0, rules, i);
    assert(rules.take(n) == rules);
    assert(images.take(n) == images);
    let all = emit_all(Seq::empty(), 0, rules, images);
    let upto = emit_all(Seq::empty(), 0, rules.take(i + 1), images.take(i + 1));
    let start = field_offset(rules, i) as int;
    let end = start + rules[i].size;
    assert(upto.len() == end);
    assert(upto.subrange(start, end) == images[i]);
    assert(all.subrange(0, end).subrange(start, end) == all.subrange(start, end));
    assert(struct_image(standard, rules, images).subrange(start, end) == all.subrange(start, end));
}

/// In a struct's image every byte between two fields, and after the last
/// one, is zero.
pub proof fn lemma_gaps_are_zero(
    standard: Standard,
    rules: Seq<LayoutRule>,
    images: Seq<Seq<u8>>,
    i: int,
    at: int,
)
    requires
        all_wf(rules),
        sized(rules, images),
        0 <= i <= rules.len(),
        replay(0, rules.take(i)) <= at,
        i < rules.len() ==> at < field_offset(rules, i),
        i == rules.len() ==> at < struct_size(standard, rules),
    ensures
        at < struct_image(standard, rules, images).len(),
        struct_image(standard, rules, images)[at] == 0,
{
    let n = rules.len() as int;
    assert(rules.take(n) == rules);
    assert(images.take(n) == images);
    let all = emit_all(Seq::empty(), 0, rules, images);
    lemma_emit_all_len(rules, images);
    lemma_struct_rule_wf(standard, rules);
    if i < n {
        lemma_emit_all_prefix(rules, images, i + 1, n);
        lemma_emit_all_prefix(rules, images, i, i + 1);
        lemma_emit_all_step(rules, images, i);
        lemma_replay_step(0, rules, i);
        let upto = emit_all(Seq::empty(), 0, rules.take(i + 1), images.take(i + 1));
        assert(upto[at] == 0);
        assert(all.subrange(0, upto.len() as int)[at] == all[at]);
    }
}

/// Builds the padded value of a struct from those of its fields, in the
/// order in which the fields are declared.
pub fn pack_struct(standard: Standard, fields: &[Padded]) -> (packed: Padded)
    requires
        all_padded(fields@),
        struct_size(standard, layouts(fields@)) <= usize::MAX,
    ensures
        packed.wf(),
        packed.layout().alignment == struct_alignment(standard, layouts(fields@)),
        packed.layout().size == struct_size(standard, layouts(fields@)),
        packed.image() == struct_image(standard, layouts(fields@), images(fields@)),
{
    let rules = rules_of(fields);
    let ghost rules_seq = layouts(fields@);
    let ghost images_seq = images(fields@);
    proof {
        lemma_padded_sized(fields@);
    }
    let layout = struct_layout(standard, rules.as_slice());
    let mut bytes: Vec<u8> = Vec::new();
    let mut i: usize = 0;
    while i < fields.len()
        invariant
            i <= fields@.len(),
            rules_seq == layouts(fields@),
            images_seq == images(fields@),
            all_wf(rules_seq),
            sized(rules_seq, images_seq),
            layout.offsets@.len() == fields@.len(),
            forall|j: int|
                0 <= j < fields@.len() ==> (#[trigger] layout.offsets@[j]) == field_offset(
                    rules_seq,
                    j,
                ),
            bytes@ == emit_all(Seq::empty(), 0, rules_seq.take(i as int), images_seq.take(i as int)),
            bytes@.len() == replay(0, rules_seq.take(i as int)),
        decreases fields@.len() - i,
    {
        proof {
            lemma_emit_all_step(rules_seq, images_seq, i as int);
            lemma_replay_step(0, rules_seq, i as int);
            lemma_pow2_positive(rules_seq[i as int].alignment as nat);
        }
        let offset: usize = layout.offsets[i];
        let gap: usize = offset - bytes.len();
        push_zeros(&mut bytes, gap);
        push_bytes(&mut bytes, fields[i].bytes.as_slice());
        i = i + 1;
    }
    proof {
        assert(rules_seq.take(i as int) == rules_seq);
        assert(images_seq.take(i as int) == images_seq);
        lemma_struct_rule_wf(standard, rules_seq);
    }
    let tail: usize = layout.rule.size - bytes.len();
    push_zeros(&mut bytes, tail);
    Padded { rule: layout.rule, bytes }
}

/// Whether every image has `size` bytes.
pub open spec fn all_of_size(images: Seq<Seq<u8>>, size: nat) -> bool {
    forall|i: int| 0 <= i < images.len() ==> (#[trigger] images[i]).len() == size
}

/// The image of an array has one stride for each element.
pub proof fn lemma_array_image_len(standard: Standard, element: LayoutRule, images: Seq<Seq<u8>>)
    requires
        element.wf(),
        all_of_size(images, element.size as nat),
    ensures
        array_image(standard, element, images).len() == array_size(
            standard,
            element,
            images.len(),
        ),
    decreases images.len(),
{
    let stride = array_stride(standard, element);
    lemma_array_stride(standard, element);
    if images.len() > 0 {
        let head = images.drop_last();
        assert(all_of_size(head, element.size as nat)) by {
            assert forall|i: int| 0 <= i < head.len() implies (#[trigger] head[i]).len()
                == element.size by {
                assert(head[i] == images[i]);
            }
        }
        lemma_array_image_len(standard, element, head);
        assert(images.last() == images[images.len() - 1]);
        assert(stride * images.len() == stride * head.len() + stride) by (nonlinear_arith)
            requires
                images.len() == head.len() + 1,
        ;
    } else {
        assert(stride * 0 == 0);
    }
}

/// Reading an array's image back element by element gives each element's
/// image as it went in: element `i` lies `i` strides from the start.
pub proof fn lemma_elements_read_back(
    standard: Standard,
    element: LayoutRule,
    images: Seq<Seq<u8>>,
    i: int,
)
    requires
        element.wf(),
        all_of_size(images, element.size as nat),
        0 <= i < images.len(),
    ensures
        array_stride(standard, element) * i + element.size <= array_image(
            standard,
            element,
            images,
        ).len(),
        array_image(standard, element, images).subrange(
            array_stride(standard, element) * i,
            array_stride(standard, element) * i + element.size,
        ) == images[i],
    decreases images.len(),
{
    let stride = array_stride(standard, element);
    lemma_array_stride(standard, element);
    let head = images.drop_last();
    assert(all_of_size(head, element.size as nat)) by {
        assert forall|j: int| 0 <= j < head.len() implies (#[trigger] head[j]).len()
            == element.size by {
            assert(head[j] == images[j]);
        }
    }
    lemma_array_image_len(standard, element, head);
    lemma_array_image_len(standard, element, images);
    let all = array_image(standard, element, images);
    let before = array_image(standard, element, head);
    let start = stride * i;
    let end = start + element.size;
    assert(images.last() == images[images.len() - 1]);
    if i == images.len() - 1 {
        assert(all.subrange(start, end) == images[i]);
    } else {
        lemma_elements_read_back(standard, element, head, i);
        assert(head[i] == images[i]);
        assert(end <= before.len());
        assert(all.subrange(start, end) == before.subrange(start, end));
    }
}

/// Builds the padded value of an array from those of its elements, which
/// all have the rule `element`.
pub fn pack_array(standard: Standard, element: &LayoutRule, elements: &[Padded]) -> (packed:
    Padded)
    requires
        element.wf(),
        all_padded(elements@),
        forall|i: int| 0 <= i < elements@.len() ==> (#[trigger] elements@[i]).layout() == *element,
        array_stride(standard, *element) <= usize::MAX,
        array_size(standard, *element, elements@.len()) <= usize::MAX,
    ensures
        packed.wf(),
        packed.layout().alignment == array_alignment(standard, *element),
        packed.layout().size == array_size(standard, *element, elements@.len()),
        packed.image() == array_image(standard, *element, images(elements@)),
{
    let layout = array_layout(standard, *element, elements.len());
    let ghost images_seq = images(elements@);
    let gap: usize = layout.stride - element.size;
    let mut bytes: Vec<u8> = Vec::new();
    let mut i: usize = 0;
    proof {
        assert(all_of_size(images_seq, element.size as nat)) by {
            assert forall|j: int| 0 <= j < images_seq.len() implies (#[trigger] images_seq[j]).len()
                == element.size by {
                assert(elements@[j].wf());
            }
        }
        lemma_array_image_len(standard, *element, images_seq);
    }
    while i < elements.len()
        invariant
            i <= elements@.len(),
            images_seq == images(elements@),
            gap == array_stride(standard, *element) - element.size,
            bytes@ == array_image(standard, *element, images_seq.take(i as int)),
        decreases elements@.len() - i,
    {
        proof {
            assert(images_seq.take(i + 1).drop_last() == images_seq.take(i as int));
            assert(images_seq.take(i + 1).last() == elements@[i as int].image());
        }
        push_bytes(&mut bytes, elements[i].bytes.as_slice());
        push_zeros(&mut bytes, gap);
        i = i + 1;
    }
    proof {
        assert(images_seq.take(i as int) == images_seq);
    }
    Padded { rule: layout.rule, bytes }
}

} // verus!

//! Layouts of aggregates: a struct from the rules of its fields, an array
//! from the rule of its element.

use crate::align::{
    align_offset, is_pow2, lemma_multiple_of_larger_pow2, lemma_pow2_divides, lemma_pow2_positive,
    lemma_round_up_bounds, lemma_round_up_of_multiple, lemma_small_pow2, round_up,
};
use crate::rule::{all_wf, LayoutRule, Standard};
use crate::stream::{lemma_replay_prefix, lemma_replay_step, replay};
use vstd::arithmetic::div_mod::{lemma_fundamental_div_mod, lemma_mod_multiples_basic};
use vstd::prelude::*;

verus! {

/// The largest of `floor` and the alignments of `rules`.
pub open spec fn max_alignment(floor: nat, rules: Seq<LayoutRule>) -> nat
    decreases rules.len(),
{
    if rules.len() == 0 {
        floor
    } else {
        let rest = max_alignment(floor, rules.drop_last());
        if rules.last().alignment > rest {
            rules.last().alignment as nat
        } else {
            rest
        }
    }
}

/// The alignment of a struct: the largest alignment among its fields, and
/// at least what the standard asks of every struct.
pub open spec fn struct_alignment(standard: Standard, fields: Seq<LayoutRule>) -> nat {
    max_alignment(standard.min_alignment(), fields)
}

/// The offset of field `i` in a struct: the first multiple of the field's
/// alignment at or after the end of the field before it.
pub open spec fn field_offset(fields: Seq<LayoutRule>, i: int) -> nat
    recommends
        0 <= i < fields.len(),
{
    fields[i].start_after(replay(0, fields.take(i)))
}

/// The size of a struct: the end of its last field, rounded up to the
/// struct's own alignment.
pub open spec fn struct_size(standard: Standard, fields: Seq<LayoutRule>) -> nat {
    round_up(replay(0, fields), struct_alignment(standard, fields))
}

/// The alignment of an array: that of its element, and at least what the
/// standard asks of every array.
pub open spec fn array_alignment(standard: Standard, element: LayoutRule) -> nat {
    if element.alignment >= standard.min_alignment() {
        element.alignment as nat
    } else {
        standard.min_alignment()
    }
}

/// The distance in bytes from one element of an array to the next: the
/// element's size rounded up to the array's alignment.
pub open spec fn array_stride(standard: Standard, element: LayoutRule) -> nat {
    round_up(element.size as nat, array_alignment(standard, element))
}

/// The size of an array of `count` elements.
pub open spec fn array_size(standard: Standard, element: LayoutRule, count: nat) -> nat {
    array_stride(standard, element) * count
}

/// The largest alignment is a power of two, as each alignment is, and each
/// alignment divides it.
pub proof fn lemma_max_alignment(floor: nat, rules: Seq<LayoutRule>, i: int)
    requires
        is_pow2(floor),
        all_wf(rules),
        0 <= i <= rules.len(),
    ensures
        is_pow2(max_alignment(floor, rules)),
        max_alignment(floor, rules) >= floor,
        max_alignment(floor, rules) % floor == 0,
        i < rules.len() ==> max_alignment(floor, rules) >= rules[i].alignment,
        i < rules.len() ==> max_alignment(floor, rules) % (rules[i].alignment as nat) == 0,
    decreases rules.len(),
{
    if rules.len() == 0 {
        lemma_pow2_divides(floor, floor);
    } else {
        let rest = rules.drop_last();
        let last = rules.last();
        assert(last == rules[rules.len() - 1]);
        assert(all_wf(rest)) by {
            assert forall|j: int| 0 <= j < rest.len() implies (#[trigger] rest[j]).wf() by {
                assert(rest[j] == rules[j]);
            }
        }
        let before = max_alignment(floor, rest);
        let all = max_alignment(floor, rules);
        if i < rest.len() {
            lemma_max_alignment(floor, rest, i);
            assert(rest[i] == rules[i]);
            lemma_pow2_divides(rules[i].alignment as nat, all);
        } else {
            lemma_max_alignment(floor, rest, rest.len() as int);
            lemma_pow2_divides(last.alignment as nat, all);
        }
        lemma_pow2_divides(before, all);
        lemma_pow2_divides(floor, all);
    }
}

/// In a struct every field starts on a multiple of its own alignment, at or
/// after the end of the field before it, and ends within the struct.
pub proof fn lemma_fields_placed(standard: Standard, fields: Seq<LayoutRule>, i: int)
    requires
        all_wf(fields),
        0 <= i < fields.len(),
    ensures
        field_offset(fields, i) % (fields[i].alignment as nat) == 0,
        i > 0 ==> field_offset(fields, i) >= field_offset(fields, i - 1) + fields[i - 1].size,
        field_offset(fields, i) + fields[i].size <= struct_size(standard, fields),
{
    lemma_replay_step(0, fields, i);
    if i > 0 {
        lemma_replay_step(0, fields, i - 1);
    }
    lemma_replay_prefix(0, fields, i + 1);
    lemma_struct_rule_wf(standard, fields);
}

/// The rule of a struct is well formed, and the struct's alignment is a
/// multiple of the alignment of each of its fields: a field that is aligned
/// within the struct is aligned in any buffer that the struct is aligned in.
pub proof fn lemma_struct_rule_wf(standard: Standard, fields: Seq<LayoutRule>)
    requires
        all_wf(fields),
    ensures
        is_pow2(struct_alignment(standard, fields)),
        struct_size(standard, fields) % struct_alignment(standard, fields) == 0,
        replay(0, fields) <= struct_size(standard, fields),
        forall|i: int|
            0 <= i < fields.len() ==> struct_alignment(standard, fields) % (
            #[trigger] fields[i].alignment as nat) == 0,
{
    lemma_small_pow2();
    let floor = standard.min_alignment();
    lemma_max_alignment(floor, fields, fields.len() as int);
    lemma_pow2_positive(struct_alignment(standard, fields));
    lemma_round_up_bounds(replay(0, fields), struct_alignment(standard, fields));
    assert forall|i: int| 0 <= i < fields.len() implies struct_alignment(standard, fields) % (
    #[trigger] fields[i].alignment as nat) == 0 by {
        lemma_max_alignment(floor, fields, i);
    }
}

/// The stride of an array is a multiple of the array's alignment and of the
/// element's, and no smaller than the element. Under `std140` it is a
/// multiple of 16; under `std430` it is the element's size.
pub proof fn lemma_array_stride(standard: Standard, element: LayoutRule)
    requires
        element.wf(),
    ensures
        is_pow2(array_alignment(standard, element)),
        array_stride(standard, element) % array_alignment(standard, element) == 0,
        array_stride(standard, element) % (element.alignment as nat) == 0,
        array_stride(standard, element) >= element.size,
        standard is Std140 ==> array_stride(standard, element) % 16 == 0,
        standard is Std430 ==> array_stride(standard, element) == element.size,
{
    lemma_small_pow2();
    let alignment = array_alignment(standard, element);
    let stride = array_stride(standard, element);
    lemma_pow2_positive(alignment);
    lemma_pow2_positive(element.alignment as nat);
    lemma_round_up_bounds(element.size as nat, alignment);
    lemma_multiple_of_larger_pow2(stride, element.alignment as nat, alignment);
    match standard {
        Standard::Std140 => {
            lemma_multiple_of_larger_pow2(stride, 16, alignment);
        },
        Standard::Std430 => {
            lemma_round_up_of_multiple(element.size as nat, element.alignment as nat);
        },
    }
}

/// A struct that starts on a multiple of its alignment has each of its
/// fields on a multiple of the field's alignment, counted from the start of
/// the buffer.
pub proof fn lemma_field_aligned_in_buffer(
    standard: Standard,
    fields: Seq<LayoutRule>,
    i: int,
    base: nat,
)
    requires
        all_wf(fields),
        0 <= i < fields.len(),
        base % struct_alignment(standard, fields) == 0,
    ensures
        (base + field_offset(fields, i)) % (fields[i].alignment as nat) == 0,
{
    let alignment = fields[i].alignment as nat;
    lemma_small_pow2();
    lemma_max_alignment(standard.min_alignment(), fields, i);
    lemma_multiple_of_larger_pow2(base, alignment, struct_alignment(standard, fields));
    lemma_fields_placed(standard, fields, i);
    lemma_sum_of_multiples(base, field_offset(fields, i), alignment);
}

/// An array that starts on a multiple of its alignment has each of its
/// elements on a multiple of the element's alignment, counted from the start
/// of the buffer.
pub proof fn lemma_element_aligned_in_buffer(
    standard: Standard,
    element: LayoutRule,
    i: nat,
    base: nat,
)
    requires
        element.wf(),
        base % array_alignment(standard, element) == 0,
    ensures
        (base + array_stride(standard, element) * i) % (element.alignment as nat) == 0,
{
    let alignment = element.alignment as nat;
    lemma_array_stride(standard, element);
    lemma_pow2_positive(alignment);
    lemma_multiple_of_larger_pow2(base, alignment, array_alignment(standard, element));
    lemma_product_is_multiple(array_stride(standard, element), i, alignment);
    lemma_sum_of_multiples(base, array_stride(standard, element) * i, alignment);
}

/// The layout of a struct: its rule and the offset of each field.
#[derive(Clone, Debug, PartialEq, Eq)]
pub struct StructLayout {
    /// The alignment and size of the struct.
    pub rule: LayoutRule,
    /// The offset of each field from the start of the struct, in order.
    pub offsets: Vec<usize>,
}

/// The layout of an array: its rule and the distance between its elements.
#[derive(Clone, Copy, Debug, PartialEq, Eq, Structural)]
pub struct ArrayLayout {
    /// The alignment and size of the array.
    pub rule: LayoutRule,
    /// The distance in bytes from one element to the next.
    pub stride: usize,
}

/// Lays out a struct whose fields have the rules `fields`, in the order in
/// which they are declared.
pub fn struct_layout(standard: Standard, fields: &[LayoutRule]) -> (layout: StructLayout)
    requires
        all_wf(fields@),
        struct_size(standard, fields@) <= usize::MAX,
    ensures
        layout.rule.alignment == struct_alignment(standard, fields@),
        layout.rule.size == struct_size(standard, fields@),
        layout.rule.wf(),
        layout.offsets@.len() == fields@.len(),
        forall|i: int|
            0 <= i < fields@.len() ==> (#[trigger] layout.offsets@[i]) == field_offset(fields@, i),
        forall|i: int|
            0 <= i < fields@.len() ==> (#[trigger] layout.offsets@[i]) % fields@[i].alignment == 0,
        forall|i: int|
            0 < i < fields@.len() ==> (#[trigger] layout.offsets@[i]) >= layout.offsets@[i - 1]
                + fields@[i - 1].size,
        forall|i: int|
            0 <= i < fields@.len() ==> (#[trigger] layout.offsets@[i]) + fields@[i].size
                <= layout.rule.size,
{
    let mut alignment: usize = standard.floor();
    let mut cursor: usize = 0;
    let mut offsets: Vec<usize> = Vec::new();
    let mut i: usize = 0;
    proof {
        lemma_struct_rule_wf(standard, fields@);
    }
    while i < fields.len()
        invariant
            i <= fields@.len(),
            all_wf(fields@),
            replay(0, fields@) <= usize::MAX,
            alignment == max_alignment(standard.min_alignment(), fields@.take(i as int)),
            cursor == replay(0, fields@.take(i as int)),
            offsets@.len() == i,
            forall|j: int| 0 <= j < i ==> (#[trigger] offsets@[j]) == field_offset(fields@, j),
        decreases fields@.len() - i,
    {
        let field: LayoutRule = fields[i];
        proof {
            assert(fields@[i as int].wf());
            lemma_pow2_positive(field.alignment as nat);
            lemma_replay_step(0, fields@, i as int);
            lemma_replay_prefix(0, fields@, i + 1);
            assert(fields@.take(i + 1).drop_last() == fields@.take(i as int));
            assert(fields@.take(i + 1).last() == fields@[i as int]);
        }
        let offset: usize = cursor + align_offset(cursor, field.alignment);
        offsets.push(offset);
        cursor = offset + field.size;
        if field.alignment > alignment {
            alignment = field.alignment;
        }
        i = i + 1;
    }
    proof {
        assert(fields@.take(i as int) == fields@);
        lemma_pow2_positive(alignment as nat);
        assert forall|j: int| 0 <= j < fields@.len() implies (#[trigger] offsets@[j])
            % fields@[j].alignment == 0 && offsets@[j] + fields@[j].size <= struct_size(
            standard,
            fields@,
        ) && (j > 0 ==> offsets@[j] >= offsets@[j - 1] + fields@[j - 1].size) by {
            lemma_fields_placed(standard, fields@, j);
        }
    }
    let size: usize = cursor + align_offset(cursor, alignment);
    StructLayout { rule: LayoutRule { alignment, size }, offsets }
}

/// Lays out an array of `count` elements that have the rule `element`.
pub fn array_layout(standard: Standard, element: LayoutRule, count: usize) -> (layout: ArrayLayout)
    requires
        element.wf(),
        array_stride(standard, element) <= usize::MAX,
        array_size(standard, element, count as nat) <= usize::MAX,
    ensures
        layout.rule.alignment == array_alignment(standard, element),
        layout.stride == array_stride(standard, element),
        layout.rule.size == array_size(standard, element, count as nat),
        layout.rule.wf(),
        layout.stride >= element.size,
        layout.stride % element.alignment == 0,
        standard is Std140 ==> layout.stride % 16 == 0,
        standard is Std430 ==> layout.stride == element.size,
{
    let floor: usize = standard.floor();
    let alignment: usize = if element.alignment >= floor {
        element.alignment
    } else {
        floor
    };
    proof {
        lemma_array_stride(standard, element);
        lemma_pow2_positive(alignment as nat);
    }
    let stride: usize = element.size + align_offset(element.size, alignment);
    let size: usize = stride * count;
    proof {
        lemma_product_is_multiple(stride as nat, count as nat, alignment as nat);
    }
    ArrayLayout { rule: LayoutRule { alignment, size }, stride }
}

/// The sum of two multiples of `divisor` is a multiple of `divisor`.
proof fn lemma_sum_of_multiples(a: nat, b: nat, divisor: nat)
    requires
        divisor > 0,
        a % divisor == 0,
        b % divisor == 0,
    ensures
        (a + b) % divisor == 0,
{
    let d = divisor as int;
    let j = (a as int) / d;
    let k = (b as int) / d;
    lemma_fundamental_div_mod(a as int, d);
    lemma_fundamental_div_mod(b as int, d);
    assert(a + b == (j + k) * d) by (nonlinear_arith)
        requires
            a == d * j,
            b == d * k,
    ;
    lemma_mod_multiples_basic(j + k, d);
}

/// A multiple of a multiple of `divisor` is a multiple of `divisor`.
proof fn lemma_product_is_multiple(factor: nat, count: nat, divisor: nat)
    requires
        divisor > 0,
        factor % divisor == 0,
    ensures
        (factor * count) % divisor == 0,
{
    let k = (factor as int) / (divisor as int);
    lemma_fundamental_div_mod(factor as int, divisor as int);
    assert(factor * count == (k * count) * divisor) by (nonlinear_arith)
        requires
            factor == divisor * k,
    ;
    lemma_mod_multiples_basic(k * count, divisor as int);
}

} // verus!

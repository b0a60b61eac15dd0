use crevice::compose::{array_layout, struct_layout};
use crevice::rule::{LayoutRule, Primitive, Scalar, Standard};

fn float() -> LayoutRule {
    Primitive::Scalar(Scalar::Float).rule(Standard::Std140)
}

fn double() -> LayoutRule {
    Primitive::Scalar(Scalar::Double).rule(Standard::Std140)
}

fn vec2() -> LayoutRule {
    Primitive::Vec2(Scalar::Float).rule(Standard::Std140)
}

fn vec3() -> LayoutRule {
    Primitive::Vec3(Scalar::Float).rule(Standard::Std140)
}

fn mat3() -> LayoutRule {
    Primitive::Mat3.rule(Standard::Std140)
}

#[test]
fn a_float_after_a_vector_of_three_lands_at_16() {
    let layout = struct_layout(Standard::Std140, &[vec3(), float()]);
    assert_eq!(layout.offsets, vec![0, 16]);
    assert_eq!(layout.rule.alignment, 16);
    assert_eq!(layout.rule.size, 32);
}

#[test]
fn a_struct_of_one_vector_of_three_takes_16_bytes() {
    let layout = struct_layout(Standard::Std140, &[vec3()]);
    assert_eq!(layout.offsets, vec![0]);
    assert_eq!(layout.rule, LayoutRule { alignment: 16, size: 16 });
}

#[test]
fn std140_rounds_a_struct_of_scalars_to_16() {
    let layout = struct_layout(Standard::Std140, &[float(), float(), float()]);
    assert_eq!(layout.offsets, vec![0, 4, 8]);
    assert_eq!(layout.rule, LayoutRule { alignment: 16, size: 16 });
}

#[test]
fn std430_keeps_a_struct_of_scalars_tight() {
    let layout = struct_layout(Standard::Std430, &[float(), float(), float()]);
    assert_eq!(layout.offsets, vec![0, 4, 8]);
    assert_eq!(layout.rule, LayoutRule { alignment: 4, size: 12 });
}

#[test]
fn fields_are_padded_to_their_own_alignment() {
    let fields = [float(), vec2(), float(), double(), mat3(), float()];
    let layout = struct_layout(Standard::Std430, &fields);
    assert_eq!(layout.offsets, vec![0, 8, 16, 24, 32, 80]);
    assert_eq!(layout.rule, LayoutRule { alignment: 16, size: 96 });
    let layout = struct_layout(Standard::Std140, &fields);
    assert_eq!(layout.offsets, vec![0, 8, 16, 24, 32, 80]);
    assert_eq!(layout.rule, LayoutRule { alignment: 16, size: 96 });
}

#[test]
fn the_largest_field_alignment_wins() {
    let dvec4 = Primitive::Vec4(Scalar::Double).rule(Standard::Std140);
    let layout = struct_layout(Standard::Std140, &[float(), dvec4]);
    assert_eq!(layout.offsets, vec![0, 32]);
    assert_eq!(layout.rule, LayoutRule { alignment: 32, size: 64 });
}

#[test]
fn a_struct_without_fields_has_size_zero_and_the_floor_alignment() {
    let layout = struct_layout(Standard::Std140, &[]);
    assert!(layout.offsets.is_empty());
    assert_eq!(layout.rule, LayoutRule { alignment: 16, size: 0 });
    let layout = struct_layout(Standard::Std430, &[]);
    assert!(layout.offsets.is_empty());
    assert_eq!(layout.rule, LayoutRule { alignment: 1, size: 0 });
}

#[test]
fn nested_structs_compose() {
    let inner = struct_layout(Standard::Std140, &[vec3(), float()]).rule;
    let outer = struct_layout(Standard::Std140, &[float(), inner, float()]);
    assert_eq!(outer.offsets, vec![0, 16, 48]);
    assert_eq!(outer.rule, LayoutRule { alignment: 16, size: 64 });
}

#[test]
fn offsets_are_aligned_and_do_not_overlap() {
    let fields = [float(), vec3(), vec2(), double(), float(), mat3(), vec2()];
    for standard in [Standard::Std140, Standard::Std430] {
        let layout = struct_layout(standard, &fields);
        assert_eq!(layout.offsets.len(), fields.len());
        for i in 0..fields.len() {
            assert_eq!(layout.offsets[i] % fields[i].alignment, 0);
            assert_eq!(layout.rule.alignment % fields[i].alignment, 0);
            assert!(layout.offsets[i] + fields[i].size <= layout.rule.size);
            if i > 0 {
                assert!(layout.offsets[i] >= layout.offsets[i - 1] + fields[i - 1].size);
            }
        }
        assert!(layout.rule.is_valid());
    }
}

#[test]
fn an_array_of_three_floats_takes_48_bytes_under_std140() {
    let layout = array_layout(Standard::Std140, float(), 3);
    assert_eq!(layout.stride, 16);
    assert_eq!(layout.rule, LayoutRule { alignment: 16, size: 48 });
}

#[test]
fn an_array_of_three_floats_takes_12_bytes_under_std430() {
    let layout = array_layout(Standard::Std430, float(), 3);
    assert_eq!(layout.stride, 4);
    assert_eq!(layout.rule, LayoutRule { alignment: 4, size: 12 });
}

#[test]
fn an_array_of_wide_elements_keeps_their_alignment() {
    let dvec4 = Primitive::Vec4(Scalar::Double).rule(Standard::Std140);
    for standard in [Standard::Std140, Standard::Std430] {
        let layout = array_layout(standard, dvec4, 5);
        assert_eq!(layout.stride, 32);
        assert_eq!(layout.rule, LayoutRule { alignment: 32, size: 160 });
    }
}

#[test]
fn an_array_of_matrices() {
    for standard in [Standard::Std140, Standard::Std430] {
        let layout = array_layout(standard, mat3(), 4);
        assert_eq!(layout.stride, 48);
        assert_eq!(layout.rule, LayoutRule { alignment: 16, size: 192 });
    }
}

#[test]
fn an_empty_array_has_size_zero() {
    let layout = array_layout(Standard::Std140, float(), 0);
    assert_eq!(layout.stride, 16);
    assert_eq!(layout.rule, LayoutRule { alignment: 16, size: 0 });
    let layout = array_layout(Standard::Std430, vec2(), 0);
    assert_eq!(layout.stride, 8);
    assert_eq!(layout.rule, LayoutRule { alignment: 8, size: 0 });
}

#[test]
fn std140_strides_are_multiples_of_16() {
    for element in [float(), double(), vec2(), vec3(), mat3()] {
        let layout = array_layout(Standard::Std140, element, 7);
        assert_eq!(layout.stride % 16, 0);
        assert!(layout.stride >= element.size);
        assert_eq!(layout.rule.size, layout.stride * 7);
    }
}

#[test]
fn std430_strides_are_multiples_of_the_element_alignment() {
    for element in [float(), double(), vec2(), vec3(), mat3()] {
        let layout = array_layout(Standard::Std430, element, 7);
        assert_eq!(layout.stride % element.alignment, 0);
        assert_eq!(layout.stride, element.size);
        assert_eq!(layout.rule.alignment, element.alignment);
        assert_eq!(layout.rule.size, layout.stride * 7);
    }
}

#[test]
fn fields_and_elements_are_aligned_wherever_the_aggregate_is() {
    let fields = [float(), vec3(), vec2(), double(), float(), mat3(), vec2()];
    for standard in [Standard::Std140, Standard::Std430] {
        let layout = struct_layout(standard, &fields);
        for multiple in 0..5 {
            let base = multiple * layout.rule.alignment;
            for i in 0..fields.len() {
                assert_eq!((base + layout.offsets[i]) % fields[i].alignment, 0);
            }
        }
        for element in fields {
            let layout = array_layout(standard, element, 9);
            for multiple in 0..5 {
                let base = multiple * layout.rule.alignment;
                for i in 0..9 {
                    assert_eq!((base + i * layout.stride) % element.alignment, 0);
                }
            }
        }
    }
}

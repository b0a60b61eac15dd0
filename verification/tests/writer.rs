use crevice::padded::{pack_struct, Padded};
use crevice::rule::Standard;
use crevice::scalar::{Bool, Double, Float};
use crevice::sink::{Bounded, Exhausted};
use crevice::std140::{Mat2, Mat3, Mat4, Vec2, Vec3, Vec4, Writer};

fn float(value: f32) -> Float {
    Float(value.to_bits())
}

fn vec3(x: f32, y: f32, z: f32) -> Vec3 {
    Vec3 { x: float(x), y: float(y), z: float(z) }
}

fn vec4(x: f32, y: f32, z: f32, w: f32) -> Vec4 {
    Vec4 { x: float(x), y: float(y), z: float(z), w: float(w) }
}

fn floats(values: &[f32]) -> Vec<u8> {
    let mut bytes = Vec::new();
    for value in values {
        bytes.extend_from_slice(&value.to_ne_bytes());
    }
    bytes
}

#[test]
fn a_new_writer_has_written_nothing() {
    let writer = Writer::new(Vec::new());
    assert_eq!(writer.len(), 0);
    assert_eq!(writer.into_inner(), Vec::<u8>::new());
}

#[test]
fn a_writer_counts_from_zero_whatever_the_sink_holds() {
    let mut writer = Writer::new(vec![9u8, 9, 9]);
    assert_eq!(writer.len(), 0);
    writer.write(&1u32).unwrap();
    assert_eq!(writer.len(), 4);
    let mut expected = vec![9u8, 9, 9];
    expected.extend_from_slice(&1u32.to_ne_bytes());
    assert_eq!(writer.into_inner(), expected);
}

#[test]
fn a_word_is_written_in_native_byte_order() {
    let mut writer = Writer::new(Vec::new());
    writer.write(&0x0102_0304u32).unwrap();
    assert_eq!(writer.len(), 4);
    assert_eq!(writer.into_inner(), 0x0102_0304u32.to_ne_bytes().to_vec());
}

#[test]
fn a_negative_integer_is_written_in_twos_complement() {
    let mut writer = Writer::new(Vec::new());
    writer.write(&-2i32).unwrap();
    writer.write(&i32::MIN).unwrap();
    writer.write(&i32::MAX).unwrap();
    writer.write(&0i32).unwrap();
    let mut expected = Vec::new();
    expected.extend_from_slice(&0xffff_fffeu32.to_ne_bytes());
    expected.extend_from_slice(&0x8000_0000u32.to_ne_bytes());
    expected.extend_from_slice(&0x7fff_ffffu32.to_ne_bytes());
    expected.extend_from_slice(&0u32.to_ne_bytes());
    assert_eq!(writer.into_inner(), expected);
}

#[test]
fn a_float_is_written_as_its_bits() {
    let mut writer = Writer::new(Vec::new());
    writer.write(&float(1.5)).unwrap();
    assert_eq!(writer.into_inner(), 1.5f32.to_ne_bytes().to_vec());
}

#[test]
fn a_double_takes_eight_bytes_on_an_eight_byte_boundary() {
    let mut writer = Writer::new(Vec::new());
    writer.write(&7u32).unwrap();
    writer.write(&Double((-2.25f64).to_bits())).unwrap();
    assert_eq!(writer.len(), 16);
    let mut expected = 7u32.to_ne_bytes().to_vec();
    expected.extend_from_slice(&[0; 4]);
    expected.extend_from_slice(&(-2.25f64).to_ne_bytes());
    assert_eq!(writer.into_inner(), expected);
}

#[test]
fn a_boolean_is_written_as_zero_or_one() {
    let mut writer = Writer::new(Vec::new());
    writer.write(&true).unwrap();
    writer.write(&false).unwrap();
    writer.write(&Bool(true)).unwrap();
    assert_eq!(writer.len(), 12);
    let mut expected = 1u32.to_ne_bytes().to_vec();
    expected.extend_from_slice(&0u32.to_ne_bytes());
    expected.extend_from_slice(&1u32.to_ne_bytes());
    assert_eq!(writer.into_inner(), expected);
}

#[test]
fn a_vector_of_two_is_aligned_to_eight() {
    let mut writer = Writer::new(Vec::new());
    writer.write(&float(1.0)).unwrap();
    writer.write(&Vec2 { x: float(2.0), y: float(3.0) }).unwrap();
    assert_eq!(writer.len(), 16);
    assert_eq!(writer.into_inner(), floats(&[1.0, 0.0, 2.0, 3.0]));
}

#[test]
fn a_vector_of_three_ends_in_four_zero_bytes() {
    let mut writer = Writer::new(Vec::new());
    writer.write(&vec3(1.0, 2.0, 3.0)).unwrap();
    assert_eq!(writer.len(), 16);
    assert_eq!(writer.into_inner(), floats(&[1.0, 2.0, 3.0, 0.0]));
}

#[test]
fn a_vector_of_four_fills_its_16_bytes() {
    let mut writer = Writer::new(Vec::new());
    writer.write(&vec4(1.0, 2.0, 3.0, 4.0)).unwrap();
    assert_eq!(writer.into_inner(), floats(&[1.0, 2.0, 3.0, 4.0]));
}

#[test]
fn the_columns_of_a_matrix_of_two_are_16_bytes_apart() {
    let matrix = Mat2 {
        x: Vec2 { x: float(1.0), y: float(2.0) },
        y: Vec2 { x: float(3.0), y: float(4.0) },
    };
    let mut writer = Writer::new(Vec::new());
    writer.write(&matrix).unwrap();
    assert_eq!(writer.len(), 32);
    assert_eq!(writer.into_inner(), floats(&[1.0, 2.0, 0.0, 0.0, 3.0, 4.0, 0.0, 0.0]));
}

#[test]
fn a_matrix_of_three_takes_48_bytes() {
    let matrix = Mat3 { x: vec3(1.0, 2.0, 3.0), y: vec3(4.0, 5.0, 6.0), z: vec3(7.0, 8.0, 9.0) };
    let mut writer = Writer::new(Vec::new());
    writer.write(&matrix).unwrap();
    assert_eq!(writer.len(), 48);
    assert_eq!(
        writer.into_inner(),
        floats(&[1.0, 2.0, 3.0, 0.0, 4.0, 5.0, 6.0, 0.0, 7.0, 8.0, 9.0, 0.0])
    );
}

#[test]
fn a_matrix_of_four_takes_64_bytes() {
    let matrix = Mat4 {
        x: vec4(1.0, 2.0, 3.0, 4.0),
        y: vec4(5.0, 6.0, 7.0, 8.0),
        z: vec4(9.0, 10.0, 11.0, 12.0),
        w: vec4(13.0, 14.0, 15.0, 16.0),
    };
    let mut writer = Writer::new(Vec::new());
    writer.write(&7u32).unwrap();
    writer.write(&matrix).unwrap();
    assert_eq!(writer.len(), 80);
    let bytes = writer.into_inner();
    assert_eq!(bytes[..4], 7u32.to_ne_bytes());
    assert_eq!(bytes[4..16], [0u8; 12]);
    assert_eq!(
        bytes[16..],
        floats(&[
            1.0, 2.0, 3.0, 4.0, 5.0, 6.0, 7.0, 8.0, 9.0, 10.0, 11.0, 12.0, 13.0, 14.0, 15.0, 16.0
        ])[..]
    );
}

#[test]
fn an_integer_then_a_struct_of_one_vector_of_three() {
    let vector = vec3(1.0, 2.0, 3.0);
    let wrapped = pack_struct(Standard::Std140, &[Padded::of(&vector)]);
    let mut writer = Writer::new(Vec::new());
    writer.write(&0xdead_beefu32).unwrap();
    writer.write_padded(&wrapped).unwrap();
    assert_eq!(writer.len(), 32);
    let bytes = writer.into_inner();
    assert_eq!(bytes.len(), 32);
    assert_eq!(bytes[0..4], 0xdead_beefu32.to_ne_bytes());
    assert_eq!(bytes[4..16], [0u8; 12]);
    assert_eq!(bytes[16..28], floats(&[1.0, 2.0, 3.0])[..]);
    assert_eq!(bytes[28..32], [0u8; 4]);
}

#[test]
fn values_in_a_row_are_padded_between() {
    let mut writer = Writer::new(Vec::new());
    writer.write(&2u32).unwrap();
    writer.write(&vec3(1.0, 0.0, 0.0)).unwrap();
    writer.write(&float(0.5)).unwrap();
    writer.write(&vec3(0.0, 1.0, 0.0)).unwrap();
    assert_eq!(writer.len(), 64);
    let bytes = writer.into_inner();
    assert_eq!(bytes[0..4], 2u32.to_ne_bytes());
    assert_eq!(bytes[4..16], [0u8; 12]);
    assert_eq!(bytes[16..32], floats(&[1.0, 0.0, 0.0, 0.0])[..]);
    assert_eq!(bytes[32..36], 0.5f32.to_ne_bytes());
    assert_eq!(bytes[36..48], [0u8; 12]);
    assert_eq!(bytes[48..64], floats(&[0.0, 1.0, 0.0, 0.0])[..]);
}

#[test]
fn write_image_pads_with_zero_bytes() {
    let mut writer = Writer::new(Vec::new());
    writer.write_image(1, &[0xaa]).unwrap();
    writer.write_image(4, &[0xbb, 0xcc]).unwrap();
    writer.write_image(8, &[]).unwrap();
    writer.write_image(2, &[0xdd]).unwrap();
    assert_eq!(writer.len(), 9);
    assert_eq!(writer.into_inner(), vec![0xaa, 0, 0, 0, 0xbb, 0xcc, 0, 0, 0xdd]);
}

#[test]
fn a_bounded_sink_takes_what_fits() {
    let mut writer = Writer::new(Bounded::new(32));
    writer.write(&1u32).unwrap();
    writer.write(&vec3(1.0, 2.0, 3.0)).unwrap();
    assert_eq!(writer.len(), 32);
    let sink = writer.into_inner();
    assert_eq!(sink.capacity(), 32);
    assert_eq!(sink.as_bytes()[0..4], 1u32.to_ne_bytes());
    assert_eq!(sink.as_bytes()[4..16], [0u8; 12]);
    assert_eq!(sink.as_bytes()[16..32], floats(&[1.0, 2.0, 3.0, 0.0])[..]);
}

#[test]
fn a_full_sink_rejects_the_value() {
    let mut writer = Writer::new(Bounded::new(6));
    writer.write(&1u32).unwrap();
    let error = writer.write(&2u32).unwrap_err();
    assert_eq!(error, Exhausted { offered: 4, room: 2 });
}

#[test]
fn a_full_sink_rejects_the_padding() {
    let mut writer = Writer::new(Bounded::new(6));
    writer.write(&1u32).unwrap();
    let error = writer.write(&vec3(1.0, 2.0, 3.0)).unwrap_err();
    assert_eq!(error, Exhausted { offered: 1, room: 0 });
}

#[test]
fn a_rejected_value_leaves_a_first_part_of_its_bytes() {
    let mut writer = Writer::new(Bounded::new(6));
    writer.write(&0x0a0b_0c0du32).unwrap();
    assert!(writer.write(&vec3(1.0, 2.0, 3.0)).is_err());
    assert_eq!(writer.len(), 4);
    let sink = writer.into_inner();
    assert_eq!(sink.as_bytes()[..4], 0x0a0b_0c0du32.to_ne_bytes());
    assert_eq!(sink.as_bytes()[4..], [0u8; 2]);

    let mut writer = Writer::new(Bounded::new(18));
    writer.write(&1u32).unwrap();
    assert!(writer.write(&vec3(1.0, 2.0, 3.0)).is_err());
    assert_eq!(writer.len(), 16);
    let sink = writer.into_inner();
    assert_eq!(sink.as_bytes()[..4], 1u32.to_ne_bytes());
    assert_eq!(sink.as_bytes()[4..], [0u8; 12]);
}

#[test]
fn a_sink_without_room_rejects_the_first_value() {
    let mut writer = Writer::new(Bounded::new(0));
    assert_eq!(writer.write(&1u32), Err(Exhausted { offered: 4, room: 0 }));
    assert!(writer.write_image(1, &[]).is_ok());
}

use crevice::rule::{LayoutRule, Primitive, Scalar, Standard};
use crevice::scalar::{Double, Float};
use crevice::sink::Bounded;
use crevice::sizer::Sizer;
use crevice::std140::{layout_of, Mat3, Vec2, Vec3, Writer};

fn float(value: f32) -> Float {
    Float(value.to_bits())
}

#[test]
fn a_new_sizer_has_counted_nothing() {
    assert_eq!(Sizer::new().len(), 0);
}

#[test]
fn a_sizer_counts_padding_and_size() {
    let mut sizer = Sizer::new();
    sizer.write(&LayoutRule { alignment: 4, size: 4 });
    assert_eq!(sizer.len(), 4);
    sizer.write(&LayoutRule { alignment: 16, size: 16 });
    assert_eq!(sizer.len(), 32);
    sizer.write(&LayoutRule { alignment: 8, size: 8 });
    assert_eq!(sizer.len(), 40);
    sizer.write(&LayoutRule { alignment: 16, size: 48 });
    assert_eq!(sizer.len(), 96);
    sizer.write(&LayoutRule { alignment: 1, size: 3 });
    assert_eq!(sizer.len(), 99);
    sizer.write(&LayoutRule { alignment: 16, size: 0 });
    assert_eq!(sizer.len(), 112);
}

#[test]
fn layout_of_gives_the_rule_of_the_table() {
    assert_eq!(layout_of::<u32>(), Primitive::Scalar(Scalar::UInt).rule(Standard::Std140));
    assert_eq!(layout_of::<i32>(), Primitive::Scalar(Scalar::Int).rule(Standard::Std140));
    assert_eq!(layout_of::<bool>(), Primitive::Scalar(Scalar::Bool).rule(Standard::Std140));
    assert_eq!(layout_of::<Float>(), Primitive::Scalar(Scalar::Float).rule(Standard::Std140));
    assert_eq!(layout_of::<Double>(), LayoutRule { alignment: 8, size: 8 });
    assert_eq!(layout_of::<Vec2>(), LayoutRule { alignment: 8, size: 8 });
    assert_eq!(layout_of::<Vec3>(), LayoutRule { alignment: 16, size: 16 });
    assert_eq!(layout_of::<Mat3>(), LayoutRule { alignment: 16, size: 48 });
}

#[test]
fn a_sizer_counts_what_a_writer_emits() {
    let vector = Vec3 { x: float(1.0), y: float(2.0), z: float(3.0) };
    let pair = Vec2 { x: float(4.0), y: float(5.0) };
    let matrix = Mat3 { x: vector, y: vector, z: vector };

    let mut writer = Writer::new(Vec::new());
    let mut sizer = Sizer::new();

    writer.write(&5u32).unwrap();
    sizer.write(&layout_of::<u32>());
    assert_eq!(sizer.len(), writer.len());

    writer.write(&vector).unwrap();
    sizer.write(&layout_of::<Vec3>());
    assert_eq!(sizer.len(), writer.len());

    writer.write(&true).unwrap();
    sizer.write(&layout_of::<bool>());
    assert_eq!(sizer.len(), writer.len());

    writer.write(&Double(1.0f64.to_bits())).unwrap();
    sizer.write(&layout_of::<Double>());
    assert_eq!(sizer.len(), writer.len());

    writer.write(&pair).unwrap();
    sizer.write(&layout_of::<Vec2>());
    assert_eq!(sizer.len(), writer.len());

    writer.write(&matrix).unwrap();
    sizer.write(&layout_of::<Mat3>());
    assert_eq!(sizer.len(), writer.len());

    writer.write(&-1i32).unwrap();
    sizer.write(&layout_of::<i32>());
    assert_eq!(sizer.len(), writer.len());

    assert_eq!(sizer.len(), 116);
    assert_eq!(writer.into_inner().len(), 116);
}

#[test]
fn a_buffer_sized_by_a_sizer_takes_the_whole_sequence() {
    let vector = Vec3 { x: float(1.0), y: float(2.0), z: float(3.0) };
    let mut sizer = Sizer::new();
    sizer.write(&layout_of::<u32>());
    sizer.write(&layout_of::<Vec3>());
    sizer.write(&layout_of::<Vec3>());
    sizer.write(&layout_of::<Float>());
    assert_eq!(sizer.len(), 52);

    let mut writer = Writer::new(Bounded::new(sizer.len()));
    writer.write(&2u32).unwrap();
    writer.write(&vector).unwrap();
    writer.write(&vector).unwrap();
    writer.write(&float(0.5)).unwrap();
    assert_eq!(writer.len(), sizer.len());
    assert!(writer.write_image(1, &[0]).is_err());
    assert_eq!(writer.into_inner().as_bytes().len(), 52);
}

#[test]
fn a_sizer_never_goes_back() {
    let mut sizer = Sizer::new();
    let mut before = sizer.len();
    for rule in [
        LayoutRule { alignment: 4, size: 4 },
        LayoutRule { alignment: 16, size: 0 },
        LayoutRule { alignment: 1, size: 0 },
        LayoutRule { alignment: 8, size: 24 },
        LayoutRule { alignment: 32, size: 32 },
    ] {
        sizer.write(&rule);
        assert!(sizer.len() >= before);
        assert_eq!(sizer.len() % rule.alignment, 0);
        before = sizer.len();
    }
    assert_eq!(before, 96);
}

use motion_k::motion_graphics::attributes::attribute::Attribute;
use motion_k::motion_graphics::attributes::interpolated_attribute::{
    FrameSample, InterpolatedAttribute, Keyframe,
};
use motion_k::motion_graphics::attributes::static_attribute::StaticAttribute;
use motion_k::motion_graphics::elements::line::check_line_points;
use motion_k::motion_graphics::elements::shape::check_shape_points;

#[test]
fn static_attribute_keeps_its_value() {
    let a = StaticAttribute::new(42u32);
    assert_eq!(a.get_frame(0), 42);
    assert_eq!(a.get_frame(usize::MAX), 42);
}

fn ramp() -> InterpolatedAttribute<i32> {
    let mut a = InterpolatedAttribute::new();
    a.add(10, 0);
    a.add(20, 100);
    a
}

#[test]
fn sample_on_and_between_keyframes() {
    let a = ramp();
    assert_eq!(a.sample(0), FrameSample::Hold(0));
    assert_eq!(a.sample(50), FrameSample::Blend { from: 0, time_in: 50, span: 100 });
    assert_eq!(a.sample(99), FrameSample::Blend { from: 0, time_in: 99, span: 100 });
    assert_eq!(a.sample(100), FrameSample::Hold(1));
    assert_eq!(a.sample(1000), FrameSample::Hold(1));
}

#[test]
fn sample_with_three_keyframes() {
    let mut a = ramp();
    a.add_t(0, 300);
    assert_eq!(a.sample(100), FrameSample::Hold(1));
    assert_eq!(a.sample(250), FrameSample::Blend { from: 1, time_in: 150, span: 200 });
    assert_eq!(a.sample(300), FrameSample::Hold(2));
}

#[test]
fn single_keyframe_holds_everywhere() {
    let mut a = InterpolatedAttribute::new();
    a.add(7u8, 50);
    assert!(a.is_defined_at(0));
    assert_eq!(a.sample(0), FrameSample::Hold(0));
    assert_eq!(a.sample(80), FrameSample::Hold(0));
}

#[test]
fn defined_only_from_a_keyframe_on() {
    let empty: InterpolatedAttribute<i32> = InterpolatedAttribute::new();
    assert!(!empty.is_defined_at(0));
    let mut a = InterpolatedAttribute::new();
    a.add(1, 10);
    a.add(2, 20);
    assert!(!a.is_defined_at(5));
    assert!(a.is_defined_at(10));
    assert!(a.is_defined_at(25));
}

#[test]
fn keyframes_out_of_order_search_from_the_end() {
    let mut a = InterpolatedAttribute::new();
    a.add(1, 50);
    a.add(2, 10);
    a.add(3, 80);
    // Searching down from the last keyframe, keyframe 1 (frame 10) is the
    // first one not after frame 20.
    assert_eq!(a.sample(20), FrameSample::Blend { from: 1, time_in: 10, span: 70 });
    assert_eq!(a.sample(60), FrameSample::Blend { from: 1, time_in: 50, span: 70 });
}

#[test]
fn keyframe_access() {
    let a = ramp();
    assert_eq!(a.len(), 2);
    assert_eq!(a.keyframe(1).value(), 20);
    assert_eq!(a.keyframe(1).frame(), 100);
    let k = Keyframe::new(3.5f32, 9).boxed();
    assert_eq!(k.value(), 3.5);
    assert_eq!(k.frame(), 9);
    assert_eq!(ramp().boxed().len(), 2);
}

#[test]
fn element_point_checks() {
    assert_eq!(check_shape_points(2), Err("Shape must have at least three points"));
    assert_eq!(check_shape_points(3), Ok(()));
    assert_eq!(check_line_points(1), Err("Line must have at least two points"));
    assert_eq!(check_line_points(0), Err("Line must have at least two points"));
    assert_eq!(check_line_points(2), Ok(()));
}

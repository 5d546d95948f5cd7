use voice_changer::audio_processor::AudioProcessor;
use voice_changer::factor::Factor;
use voice_changer::voice_transformer::{
    transformer_for_name, IdentityTransformer, PitchShiftTransformer, RobotTransformer,
    Transformer,
};

#[test]
fn robot_doubles_samples_and_clamps() {
    let robot = RobotTransformer::new(Factor::from_milli(2000));
    assert_eq!(robot.transform(vec![100]), vec![200]);
    assert_eq!(robot.transform(vec![200]), vec![255]);
}

#[test]
fn robot_at_unit_intensity_is_identity() {
    let robot = RobotTransformer::new(Factor::one());
    assert_eq!(robot.transform(vec![0, 64, 255]), vec![0, 64, 255]);
}

#[test]
fn pitch_shift_scales_amplitude() {
    // the pitch parameter acts as an amplitude multiplier
    let shifter = PitchShiftTransformer::new(Factor::from_milli(500));
    assert_eq!(shifter.transform(vec![100, 9]), vec![50, 4]);
}

#[test]
fn identity_returns_every_buffer_unchanged() {
    let identity = IdentityTransformer {};
    assert_eq!(identity.transform(vec![]), Vec::<u8>::new());
    assert_eq!(identity.transform(vec![1, 2, 3]), vec![1, 2, 3]);
}

#[test]
fn processor_delegates_to_the_transformer() {
    let processor = AudioProcessor::new();
    let robot = RobotTransformer::new(Factor::from_milli(2000));
    assert_eq!(processor.apply_transform(vec![10, 20], robot), vec![20, 40]);
}

#[test]
fn name_robot_selects_the_robot_transformer() {
    let t = transformer_for_name("robot", Factor::from_milli(2000), Factor::one());
    assert_eq!(t.transform(vec![100]), vec![200]);
}

#[test]
fn name_pitch_shift_selects_the_pitch_transformer() {
    let t = transformer_for_name("pitch_shift", Factor::from_milli(2000), Factor::from_milli(500));
    assert_eq!(t.transform(vec![100]), vec![50]);
}

#[test]
fn unknown_name_returns_the_input_unchanged() {
    let t = transformer_for_name("unknown", Factor::from_milli(2000), Factor::from_milli(500));
    assert_eq!(t.transform(vec![10, 200, 0]), vec![10, 200, 0]);

    let empty_name = transformer_for_name("", Factor::from_milli(0), Factor::from_milli(0));
    assert_eq!(empty_name.transform(vec![42]), vec![42]);
}

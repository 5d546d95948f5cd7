use voice_changer::config::Config;

#[test]
fn missing_pitch_key_falls_back_to_one() {
    let config = Config::parse_config_data("gain = 2.0\nthreshold = 77\n");
    assert_eq!(config.pitch.milli, 1000);
    assert_eq!(config.gain.milli, 2000);
    assert_eq!(config.threshold, 77);
}

#[test]
fn empty_source_yields_all_defaults() {
    let config = Config::parse_config_data("");
    assert_eq!(config.input_file, "input.wav");
    assert_eq!(config.output_file, "output.wav");
    assert_eq!(config.transformer, "robot");
    assert_eq!(config.intensity.milli, 800);
    assert_eq!(config.pitch.milli, 1000);
    assert_eq!(config.sample_rate, 44100);
    assert_eq!(config.bit_depth, 16);
    assert_eq!(config.channels, 2);
    assert_eq!(config.reverb_intensity.milli, 500);
    assert_eq!(config.echo_delay, 500);
    assert_eq!(config.echo_decay.milli, 300);
    assert_eq!(config.gain.milli, 1000);
    assert_eq!(config.pan.milli, 500);
    assert_eq!(config.low_gain.milli, 1000);
    assert_eq!(config.mid_gain.milli, 1000);
    assert_eq!(config.high_gain.milli, 1000);
    assert_eq!(config.threshold, 128);
    assert_eq!(config.compression_ratio.milli, 2000);
    assert_eq!(config.fade_in_duration, 5000);
    assert_eq!(config.fade_out_duration, 5000);
}

#[test]
fn values_are_trimmed_and_parsed() {
    let config = Config::parse_config_data("pitch =   1.5  \ntransformer =  pitch_shift \n");
    assert_eq!(config.pitch.milli, 1500);
    assert_eq!(config.transformer, "pitch_shift");
}

#[test]
fn the_first_matching_line_wins() {
    let config = Config::parse_config_data("gain = 2.0\ngain = 3.0\n");
    assert_eq!(config.gain.milli, 2000);
}

#[test]
fn the_value_is_the_whole_remainder_after_the_first_equals_sign() {
    // the remainder "0.5 = leftover" is no number, so the default wins
    let config = Config::parse_config_data("gain = 0.5 = leftover\n");
    assert_eq!(config.gain.milli, 1000);
    // a text value keeps any further equals signs it holds
    let config = Config::parse_config_data("transformer = a=b\n");
    assert_eq!(config.transformer, "a=b");
}

#[test]
fn a_line_without_equals_falls_back_to_the_default() {
    let config = Config::parse_config_data("pitch 1.5\n");
    assert_eq!(config.pitch.milli, 1000);
}

#[test]
fn malformed_values_fall_back_to_the_default() {
    let config = Config::parse_config_data(
        "pitch = fast\nsample_rate = 99999999999999999999\nchannels = 300\nintensity = 1.2.3\n",
    );
    assert_eq!(config.pitch.milli, 1000);
    assert_eq!(config.sample_rate, 44100);
    assert_eq!(config.channels, 2);
    assert_eq!(config.intensity.milli, 800);
}

#[test]
fn decimal_factor_forms() {
    assert_eq!(Config::parse_config_data("pitch = 0.8\n").pitch.milli, 800);
    assert_eq!(Config::parse_config_data("pitch = .5\n").pitch.milli, 500);
    assert_eq!(Config::parse_config_data("pitch = 5.\n").pitch.milli, 5000);
    assert_eq!(Config::parse_config_data("pitch = 2\n").pitch.milli, 2000);
    // fraction digits beyond the third are dropped
    assert_eq!(Config::parse_config_data("pitch = 1.2345\n").pitch.milli, 1234);
    // a lone point holds no digit at all
    assert_eq!(Config::parse_config_data("pitch = .\n").pitch.milli, 1000);
}

#[test]
fn keys_match_by_line_prefix() {
    // a line starting with the key's text is taken, even with a suffix
    let config = Config::parse_config_data("gain2 = 3.0\n");
    assert_eq!(config.gain.milli, 3000);
}

#[test]
fn keys_do_not_match_mid_line() {
    let config = Config::parse_config_data("high_gain = 3.0\npitch = 1.0\n");
    assert_eq!(config.gain.milli, 1000);
    assert_eq!(config.high_gain.milli, 3000);
}

#[test]
fn a_missing_final_newline_is_fine() {
    let config = Config::parse_config_data("pitch = 0.25");
    assert_eq!(config.pitch.milli, 250);
}

#[test]
fn carriage_returns_are_trimmed_from_values() {
    let config = Config::parse_config_data("pitch = 1.5\r\ngain = 0.5\r\n");
    assert_eq!(config.pitch.milli, 1500);
    assert_eq!(config.gain.milli, 500);
}

#[test]
fn numeric_bounds_are_respected() {
    assert_eq!(Config::parse_config_data("channels = 255\n").channels, 255);
    assert_eq!(Config::parse_config_data("channels = 256\n").channels, 2);
    assert_eq!(Config::parse_config_data("bit_depth = 65535\n").bit_depth, 65535);
    assert_eq!(Config::parse_config_data("bit_depth = 65536\n").bit_depth, 16);
    assert_eq!(
        Config::parse_config_data("sample_rate = 4294967295\n").sample_rate,
        4294967295
    );
    assert_eq!(Config::parse_config_data("sample_rate = 4294967296\n").sample_rate, 44100);
}

#[test]
fn factors_too_large_to_represent_fall_back() {
    // 5000000 in thousandths overflows a 32-bit factor
    let config = Config::parse_config_data("pitch = 5000000\n");
    assert_eq!(config.pitch.milli, 1000);
}

use audiostream::settings::{
    Application, AudioEncoding, Bandwidth, Bitrate, BitrateChoice, ConnectionSettings, Signal,
    DEFAULT_LATENCY, MAX_BIT_RATE, MAX_LATENCY, MIN_BIT_RATE, MIN_LATENCY,
};

fn settings() -> ConnectionSettings {
    ConnectionSettings::new("mic".to_string(), "speaker".to_string())
}

fn opus(
    purpose: Application,
    bandwidth: Bandwidth,
    bit_rate: Bitrate,
    signal_type: Signal,
) -> AudioEncoding {
    AudioEncoding::Opus { purpose, bandwidth, bit_rate, signal_type }
}

#[test]
fn first_settings() {
    let s = settings();
    assert_eq!(
        s.encoding,
        opus(Application::Voip, Bandwidth::Auto, Bitrate::Auto, Signal::Voice)
    );
    assert_eq!(f32::from_bits(s.latency), 0.1f32);
    assert_eq!(s.input_device_name, "mic");
    assert_eq!(s.output_device_name, "speaker");
    assert_eq!(DEFAULT_LATENCY, 0.1f32.to_bits());
}

#[test]
fn each_menu_changes_its_own_setting() {
    let mut s = settings();
    s.choose_application(Application::LowDelay);
    assert_eq!(
        s.encoding,
        opus(Application::LowDelay, Bandwidth::Auto, Bitrate::Auto, Signal::Voice)
    );
    s.choose_bandwidth(Bandwidth::Fullband);
    assert_eq!(
        s.encoding,
        opus(Application::LowDelay, Bandwidth::Fullband, Bitrate::Auto, Signal::Voice)
    );
    s.choose_bit_rate(BitrateChoice::Max);
    assert_eq!(
        s.encoding,
        opus(Application::LowDelay, Bandwidth::Fullband, Bitrate::Max, Signal::Voice)
    );
    s.choose_signal_type(Signal::Music);
    assert_eq!(
        s.encoding,
        opus(Application::LowDelay, Bandwidth::Fullband, Bitrate::Max, Signal::Music)
    );
    assert_eq!(s.latency, DEFAULT_LATENCY);
    assert_eq!(s.input_device_name, "mic");
}

#[test]
fn a_custom_bit_rate_starts_in_the_middle_and_stays_on_its_slider() {
    let rate = |s: &ConnectionSettings| {
        let AudioEncoding::Opus { bit_rate, .. } = s.encoding;
        bit_rate
    };
    let mut s = settings();
    s.choose_bit_rate(BitrateChoice::Custom);
    assert_eq!(rate(&s), Bitrate::BitsPerSecond(98_000));
    s.tune_bit_rate(64_000);
    assert_eq!(rate(&s), Bitrate::BitsPerSecond(64_000));
    s.tune_bit_rate(1);
    assert_eq!(rate(&s), Bitrate::BitsPerSecond(1_000));
    s.tune_bit_rate(1_000_000);
    assert_eq!(rate(&s), Bitrate::BitsPerSecond(256_000));
    s.choose_bit_rate(BitrateChoice::Custom);
    assert_eq!(rate(&s), Bitrate::BitsPerSecond(98_000));
    s.choose_bit_rate(BitrateChoice::Auto);
    assert_eq!(rate(&s), Bitrate::Auto);
}

#[test]
fn without_a_custom_bit_rate_there_is_nothing_to_tune() {
    let mut s = settings();
    s.tune_bit_rate(64_000);
    assert_eq!(
        s.encoding,
        opus(Application::Voip, Bandwidth::Auto, Bitrate::Auto, Signal::Voice)
    );
}

#[test]
fn a_copy_of_the_settings_is_independent() {
    let mut s = settings();
    let copy = s.clone();
    s.choose_signal_type(Signal::Auto);
    s.input_device_name = "other".to_string();
    assert_eq!(copy.input_device_name, "mic");
    assert_eq!(
        copy.encoding,
        opus(Application::Voip, Bandwidth::Auto, Bitrate::Auto, Signal::Voice)
    );
}

#[test]
fn the_ends_of_the_latency_slider() {
    assert_eq!(f32::from_bits(MIN_LATENCY), 0.01);
    assert_eq!(f32::from_bits(MAX_LATENCY), 3.0);
}

#[test]
fn the_latency_stays_on_its_slider() {
    let mut settings = settings();
    for (moved, shown) in [
        (0.5f32, 0.5f32),
        (0.01, 0.01),
        (3.0, 3.0),
        (0.009, 0.01),
        (0.0, 0.01),
        (-0.0, 0.01),
        (-2.0, 0.01),
        (3.5, 3.0),
        (f32::INFINITY, 3.0),
        (f32::NEG_INFINITY, 0.01),
    ] {
        settings.tune_latency(moved.to_bits());
        assert_eq!(f32::from_bits(settings.latency), shown);
    }
}

#[test]
fn no_series_of_changes_leaves_the_sliders() {
    let mut settings = settings();
    settings.choose_bit_rate(BitrateChoice::Custom);
    settings.choose_signal_type(Signal::Music);
    settings.choose_bandwidth(Bandwidth::Wideband);
    let AudioEncoding::Opus { bit_rate, .. } = settings.encoding;
    assert_eq!(bit_rate, Bitrate::BitsPerSecond(98_000));
    for rate in [i32::MIN, 0, 999, 1_000, 77_777, 256_000, 256_001, i32::MAX] {
        settings.tune_bit_rate(rate);
        settings.tune_latency(rate as u32);
        settings.choose_application(Application::Audio);
        let AudioEncoding::Opus { bit_rate, .. } = settings.encoding;
        match bit_rate {
            Bitrate::BitsPerSecond(shown) => {
                assert!(MIN_BIT_RATE <= shown && shown <= MAX_BIT_RATE);
            }
            _ => panic!("the custom bit rate is gone"),
        }
        assert!(MIN_LATENCY <= settings.latency && settings.latency <= MAX_LATENCY);
    }
}

use lala_bar::audio::PwAudioInfo;
use lala_bar::settings::SettingsConfig;
use lala_bar::slider::SliderIndex;

#[test]
fn slider_cycles_forward_and_back() {
    let b = SliderIndex::Balance;
    assert_eq!(b.next(), SliderIndex::Left);
    assert_eq!(b.next().next(), SliderIndex::Right);
    assert_eq!(b.next().next().next(), SliderIndex::Balance);
    assert_eq!(b.pre(), SliderIndex::Right);
    assert_eq!(SliderIndex::Left.pre(), SliderIndex::Balance);
    assert_eq!(SliderIndex::Right.pre(), SliderIndex::Left);
    assert_eq!(SliderIndex::default(), SliderIndex::Balance);
}

#[test]
fn audio_info_keeps_its_format() {
    let info = PwAudioInfo::new(2, 48000);
    assert_eq!(info.channels(), 2);
    assert_eq!(info.rate(), 48000);
}

#[test]
fn background_is_written_as_lowercase_hex() {
    let mut s = SettingsConfig::default();
    s.set_background(255, 0, 16);
    assert_eq!(s.background_color.as_deref(), Some("#ff0010"));
    s.set_background(0, 171, 9);
    assert_eq!(s.background_color.as_deref(), Some("#00ab09"));
}

#[test]
fn background_is_parsed_as_css_color() {
    let mut s = SettingsConfig::default();
    assert_eq!(s.background(), None);
    s.set_background(255, 0, 16);
    assert_eq!(s.background(), Some((255, 0, 16, 255)));
    s.background_color = Some("red".to_string());
    assert_eq!(s.background(), Some((255, 0, 0, 255)));
    s.background_color = Some("not a color".to_string());
    assert_eq!(s.background(), None);
}

#[test]
fn reset_clears_background() {
    let mut s = SettingsConfig::default();
    s.set_background(1, 2, 3);
    s.reset();
    assert_eq!(s.background_color, None);
}

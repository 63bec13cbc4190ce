use sensor_uplink::indicator::{band_of, indicator_update, Band};
use sensor_uplink::measurement::Measurement;

#[test]
fn co2_band_boundaries() {
    assert_eq!(band_of(599), Band::Green);
    assert_eq!(band_of(600), Band::Amber);
    assert_eq!(band_of(999), Band::Amber);
    assert_eq!(band_of(1000), Band::Red);
    assert_eq!(band_of(599).name(), "green");
    assert_eq!(band_of(600).name(), "amber");
    assert_eq!(band_of(999).name(), "amber");
    assert_eq!(band_of(1000).name(), "red");
}

#[test]
fn co2_band_extremes() {
    assert_eq!(band_of(0), Band::Green);
    assert_eq!(band_of(u16::MAX), Band::Red);
}

#[test]
fn indicator_duties() {
    assert_eq!(Band::Green.duties(), (0, 100, 0));
    assert_eq!(Band::Amber.duties(), (100, 100, 0));
    assert_eq!(Band::Red.duties(), (100, 0, 0));
    assert_eq!(indicator_update(Measurement::Co2(1200)), Some((100, 0, 0)));
    assert_eq!(indicator_update(Measurement::Temperature(21.5f32.to_bits())), None);
    assert_eq!(indicator_update(Measurement::Humidity(40.2f32.to_bits())), None);
}

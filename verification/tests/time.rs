use parkour_api::time::Time;

fn time(seconds: f32) -> Time {
    Time::from_bits(seconds.to_bits()).unwrap()
}

#[test]
fn a_time_gives_its_number_back() {
    for seconds in [0.0f32, 1.0, 39.0, 40.0, 42.5, 1e-40, 3.4e38, -1.0, -42.5, f32::INFINITY, f32::NEG_INFINITY] {
        assert_eq!(f32::from_bits(time(seconds).to_bits()), seconds);
        assert_eq!(time(seconds).to_bits(), seconds.to_bits());
    }
}

#[test]
fn the_key_of_forty_two_and_a_half() {
    assert_eq!(42.5f32.to_bits(), 0x422a_0000);
    assert_eq!(time(42.5).order_key(), 0xc22a_0000);
    assert_eq!((-42.5f32).to_bits(), 0xc22a_0000);
    assert_eq!(time(-42.5).order_key(), 0x3dd5_ffff);
    assert_eq!(time(0.0).order_key(), 0x8000_0000);
}

#[test]
fn what_is_not_a_number_is_no_time() {
    assert!(Time::from_bits(f32::NAN.to_bits()).is_none());
    assert!(Time::from_bits(0x7f80_0001).is_none());
    assert!(Time::from_bits(0xff80_0001).is_none());
    assert!(Time::from_bits(0xffff_ffff).is_none());
    assert!(Time::from_bits(0x7f80_0000).is_some());
    assert!(Time::from_bits(0xff80_0000).is_some());
}

#[test]
fn negative_zero_is_zero() {
    let zero = time(0.0);
    let negative_zero = time(-0.0);
    assert!(zero.same_as(&negative_zero));
    assert_eq!(negative_zero.to_bits(), 0);
    assert!(!negative_zero.is_shorter_than(&zero));
    assert!(!zero.is_shorter_than(&negative_zero));
}

#[test]
fn keys_order_as_the_numbers_do() {
    let numbers = [
        f32::NEG_INFINITY,
        -3.4e38,
        -42.5,
        -1.0,
        -1e-40,
        0.0,
        1e-45,
        1e-40,
        1.0,
        39.0,
        40.0,
        42.5,
        45.0,
        3.4e38,
        f32::INFINITY,
    ];
    for a in numbers {
        for b in numbers {
            assert_eq!(time(a).is_shorter_than(&time(b)), a < b);
            assert_eq!(time(a).order_key() < time(b).order_key(), a < b);
            assert_eq!(time(a).same_as(&time(b)), a == b);
        }
    }
}

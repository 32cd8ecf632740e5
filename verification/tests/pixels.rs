use satfire::binary64::{
    at_least, is_finite, is_infinite, is_nan, less_than, max_ignoring_nan, min_ignoring_nan,
    INFINITY, NEG_INFINITY,
};
use satfire::geo::{bbox_fields, BoxError, MAX_LATITUDE, MAX_LONGITUDE, MIN_LATITUDE, MIN_LONGITUDE};
use satfire::{BoundingBox, Coord, DataQualityFlagCode, DecodeError, MaskCode, Pixel, PixelList};

fn coord(lat: f64, lon: f64) -> Coord {
    Coord { lat: lat.to_bits(), lon: lon.to_bits() }
}

fn square(top: f64, left: f64) -> Pixel {
    Pixel {
        ul: coord(top, left),
        ll: coord(top - 1.0, left),
        lr: coord(top - 1.0, left + 1.0),
        ur: coord(top, left + 1.0),
        power: 0.0f64.to_bits(),
        area: 0.0f64.to_bits(),
        temperature: 0.0f64.to_bits(),
        scan_angle: 0.0f64.to_bits(),
        mask_flag: MaskCode(0),
        data_quality_flag: DataQualityFlagCode(0),
    }
}

fn pixel_list_test_setup() -> PixelList {
    let moved = Pixel {
        ul: coord(45.0000002, -121.0000002),
        ll: coord(44.0000002, -120.9999998),
        lr: coord(43.9999998, -120.0000002),
        ur: coord(44.9999998, -119.9999998),
        ..square(0.0, 0.0)
    };
    let pixels = [
        square(46.0, -121.0),
        square(46.0, -120.0),
        square(46.0, -119.0),
        moved,
        square(45.0, -120.0),
        square(45.0, -119.0),
        square(44.0, -121.0),
        square(44.0, -120.0),
        square(44.0, -119.0),
    ];

    let mut plist = PixelList::with_capacity(9);
    for p in pixels {
        plist.push(p);
    }

    plist
}

fn samples() -> Vec<f64> {
    vec![
        0.0,
        -0.0,
        1.0,
        -1.0,
        8.3,
        8.299999999999999,
        -8.3,
        1.0e-310,
        -1.0e-310,
        f64::MIN_POSITIVE,
        f64::MAX,
        f64::MIN,
        f64::INFINITY,
        f64::NEG_INFINITY,
        f64::NAN,
        -f64::NAN,
        1234.5,
        100000.0,
    ]
}

#[test]
fn serialized_list_has_eight_bytes_and_a_hundred_per_pixel() {
    let plist = pixel_list_test_setup();
    assert_eq!(plist.binary_serialize().len(), 8 + 9 * 100);
    assert_eq!(PixelList::new().binary_serialize(), vec![0u8; 8]);
}

#[test]
fn serialized_pixel_has_the_stated_layout() {
    let pixel = Pixel {
        ul: coord(1.0, 2.0),
        ll: coord(3.0, 4.0),
        lr: coord(5.0, 6.0),
        ur: coord(7.0, 8.0),
        power: 9.0f64.to_bits(),
        area: 10.0f64.to_bits(),
        temperature: 11.0f64.to_bits(),
        scan_angle: 12.0f64.to_bits(),
        mask_flag: MaskCode(-2),
        data_quality_flag: DataQualityFlagCode(0x0102),
    };
    let mut list = PixelList::new();
    list.push(pixel);
    let bytes = list.binary_serialize();

    let mut expected: Vec<u8> = Vec::new();
    expected.extend_from_slice(&1u64.to_le_bytes());
    for v in [1.0f64, 2.0, 3.0, 4.0, 5.0, 6.0, 7.0, 8.0, 9.0, 10.0, 11.0, 12.0] {
        expected.extend_from_slice(&v.to_le_bytes());
    }
    expected.extend_from_slice(&(-2i16).to_le_bytes());
    expected.extend_from_slice(&0x0102i16.to_le_bytes());
    assert_eq!(bytes, expected);

    let mut alone: Vec<u8> = Vec::new();
    pixel.write_bytes(&mut alone);
    assert_eq!(alone[..], expected[8..]);
    assert_eq!(Pixel::read_bytes(&bytes, 8), pixel);
}

#[test]
fn round_trip_keeps_every_bit() {
    let mut list = PixelList::new();
    for (k, v) in samples().into_iter().enumerate() {
        let mut p = square(v, -v);
        p.power = v.to_bits();
        p.area = (v * 2.0).to_bits();
        p.temperature = (-v).to_bits();
        p.scan_angle = 0x7FF8_0000_0000_1234;
        p.mask_flag = MaskCode(i16::MIN + k as i16);
        p.data_quality_flag = DataQualityFlagCode(i16::MAX - k as i16);
        list.push(p);
    }
    let back = PixelList::binary_deserialize(&list.binary_serialize()).unwrap();
    assert_eq!(back.pixels(), list.pixels());
}

#[test]
fn bytes_that_are_no_list_give_errors() {
    assert!(matches!(PixelList::binary_deserialize(&[]), Err(DecodeError::MissingCount)));
    assert!(matches!(PixelList::binary_deserialize(&[1, 0, 0, 0, 0, 0, 0]), Err(DecodeError::MissingCount)));

    let mut bytes = pixel_list_test_setup().binary_serialize();
    bytes.pop();
    assert!(matches!(PixelList::binary_deserialize(&bytes), Err(DecodeError::Truncated)));

    let huge = u64::MAX.to_le_bytes();
    assert!(matches!(PixelList::binary_deserialize(&huge), Err(DecodeError::Truncated)));
}

#[test]
fn bytes_behind_the_last_pixel_are_not_read() {
    let list = pixel_list_test_setup();
    let mut bytes = list.binary_serialize();
    bytes.extend_from_slice(&[7, 7, 7]);
    let back = PixelList::binary_deserialize(&bytes).unwrap();
    assert_eq!(back.pixels(), list.pixels());
}

#[test]
fn order_of_bit_patterns_is_the_order_of_the_values() {
    for a in samples() {
        for b in samples() {
            assert_eq!(less_than(a.to_bits(), b.to_bits()), a < b, "{} < {}", a, b);
            assert_eq!(at_least(a.to_bits(), b.to_bits()), a >= b, "{} >= {}", a, b);
        }
    }
}

#[test]
fn classification_of_bit_patterns() {
    for a in samples() {
        assert_eq!(is_nan(a.to_bits()), a.is_nan());
        assert_eq!(is_infinite(a.to_bits()), a.is_infinite());
        assert_eq!(is_finite(a.to_bits()), a.is_finite());
    }
    assert_eq!(INFINITY, f64::INFINITY.to_bits());
    assert_eq!(NEG_INFINITY, f64::NEG_INFINITY.to_bits());
}

#[test]
fn larger_and_smaller_ignore_nan() {
    for a in samples() {
        for b in samples() {
            let max = f64::from_bits(max_ignoring_nan(a.to_bits(), b.to_bits()));
            let min = f64::from_bits(min_ignoring_nan(a.to_bits(), b.to_bits()));
            if a.is_nan() && b.is_nan() {
                assert!(max.is_nan() && min.is_nan());
            } else {
                assert_eq!(max, a.max(b));
                assert_eq!(min, a.min(b));
            }
        }
    }
    let plus = 0.0f64.to_bits();
    let minus = (-0.0f64).to_bits();
    assert_eq!(max_ignoring_nan(plus, minus), plus);
    assert_eq!(max_ignoring_nan(minus, plus), minus);
}

#[test]
fn pixel_merge_takes_larger_measurements_and_smaller_codes() {
    let mut a = square(45.0, -120.0);
    a.power = 10.0f64.to_bits();
    a.area = f64::NAN.to_bits();
    a.temperature = 500.0f64.to_bits();
    a.scan_angle = 3.0f64.to_bits();
    a.mask_flag = MaskCode(30);
    a.data_quality_flag = DataQualityFlagCode(0);
    let mut b = square(10.0, 10.0);
    b.power = 20.0f64.to_bits();
    b.area = 7.0f64.to_bits();
    b.temperature = 400.0f64.to_bits();
    b.scan_angle = 9.0f64.to_bits();
    b.mask_flag = MaskCode(10);
    b.data_quality_flag = DataQualityFlagCode(5);

    let mut merged = a;
    merged.max_merge(&b);
    assert_eq!(merged.power, 20.0f64.to_bits());
    assert_eq!(merged.area, 7.0f64.to_bits());
    assert_eq!(merged.temperature, 500.0f64.to_bits());
    assert_eq!(merged.scan_angle, 3.0f64.to_bits());
    assert_eq!(merged.mask_flag, MaskCode(10));
    assert_eq!(merged.data_quality_flag, DataQualityFlagCode(0));
    assert_eq!(merged.ul, a.ul);
    assert_eq!(merged.lr, a.lr);

    let mut list = PixelList::new();
    list.push(b);
    list.push(a);
    list.max_merge_at(1, &b);
    assert_eq!(list.pixels()[0], b);
    assert_eq!(list.pixels()[1], merged);
}

#[test]
fn maxima_skip_what_is_not_finite() {
    let mut list = PixelList::new();
    assert_eq!(list.maximum_temperature(), f64::NEG_INFINITY.to_bits());
    assert_eq!(list.maximum_scan_angle(), f64::NEG_INFINITY.to_bits());
    for (t, a) in [(f64::NAN, f64::INFINITY), (300.5, -2.0), (f64::INFINITY, 7.25), (-10.0, f64::NAN), (299.0, 7.0)] {
        let mut p = square(1.0, 1.0);
        p.temperature = t.to_bits();
        p.scan_angle = a.to_bits();
        list.push(p);
    }
    assert_eq!(list.maximum_temperature(), 300.5f64.to_bits());
    assert_eq!(list.maximum_scan_angle(), 7.25f64.to_bits());

    let mut none = PixelList::new();
    let mut p = square(1.0, 1.0);
    p.temperature = f64::NAN.to_bits();
    p.scan_angle = f64::NEG_INFINITY.to_bits();
    none.push(p);
    assert_eq!(none.maximum_temperature(), f64::NEG_INFINITY.to_bits());
    assert_eq!(none.maximum_scan_angle(), f64::NEG_INFINITY.to_bits());
}

#[test]
fn bounding_boxes_hold_every_corner() {
    let skewed = Pixel {
        ul: coord(3.0, 2.0),
        ll: coord(0.0, 0.0),
        lr: coord(2.0, 2.0),
        ur: coord(5.0, 4.0),
        ..square(0.0, 0.0)
    };
    assert_eq!(skewed.bounding_box(), BoundingBox { ll: coord(0.0, 0.0), ur: coord(5.0, 4.0) });

    let list = pixel_list_test_setup();
    assert_eq!(list.bounding_box(), BoundingBox { ll: coord(43.0, -121.0000002), ur: coord(46.0, -118.0) });
    assert_eq!(
        PixelList::new().bounding_box(),
        BoundingBox { ll: coord(f64::INFINITY, f64::INFINITY), ur: coord(f64::NEG_INFINITY, f64::NEG_INFINITY) }
    );
}

#[test]
fn list_basics() {
    let mut list = PixelList::new();
    assert!(list.is_empty());
    list.push(square(1.0, 2.0));
    list.push(square(3.0, 4.0));
    assert_eq!(list.len(), 2);
    assert!(!list.is_empty());
    assert_eq!(list.pixels()[1], square(3.0, 4.0));
    let copy = list.clone();
    list.clear();
    assert!(list.is_empty());
    assert_eq!(copy.pixels(), &[square(1.0, 2.0), square(3.0, 4.0)][..]);
}

fn plus(a: u64, b: u64) -> u64 {
    (f64::from_bits(a) + f64::from_bits(b)).to_bits()
}

#[test]
fn totals_add_up_what_is_finite() {
    let mut list = PixelList::new();
    assert_eq!(list.total_power(plus), 0.0f64.to_bits());
    assert_eq!(list.total_are(plus), 0.0f64.to_bits());
    for (power, area) in [(1.5, f64::NAN), (f64::INFINITY, 10.0), (2.25, 0.5), (f64::NAN, f64::NEG_INFINITY), (-0.5, 1.0e3)] {
        let mut p = square(1.0, 1.0);
        p.power = power.to_bits();
        p.area = area.to_bits();
        list.push(p);
    }
    assert_eq!(list.total_power(plus), 3.25f64.to_bits());
    assert_eq!(list.total_are(plus), 1010.5f64.to_bits());
    // The order of the additions is that of the list.
    let mut order = PixelList::new();
    for power in [1.0e16f64, 1.0, -1.0e16, 1.0] {
        let mut p = square(1.0, 1.0);
        p.power = power.to_bits();
        order.push(p);
    }
    assert_eq!(order.total_power(plus), (((0.0 + 1.0e16) + 1.0) + -1.0e16 + 1.0f64).to_bits());
    assert_eq!(f64::from_bits(order.total_power(plus)), 1.0);
}

#[test]
fn boxes_are_made_of_limits_in_order_and_on_the_globe() {
    let make = |a: f64, b: f64, c: f64, d: f64| BoundingBox::from_limits(a.to_bits(), b.to_bits(), c.to_bits(), d.to_bits());
    assert_eq!(make(44.0, -116.5, 49.5, -104.0), Ok(BoundingBox { ll: coord(44.0, -116.5), ur: coord(49.5, -104.0) }));
    assert_eq!(make(-90.0, -180.0, 90.0, 180.0), Ok(BoundingBox { ll: coord(-90.0, -180.0), ur: coord(90.0, 180.0) }));
    assert_eq!(make(44.0, -116.5, 44.0, -104.0), Err(BoxError::NotInOrder));
    assert_eq!(make(44.0, -104.0, 49.5, -116.5), Err(BoxError::NotInOrder));
    assert_eq!(make(95.0, 0.0, 91.0, 1.0), Err(BoxError::NotInOrder));
    assert_eq!(make(-90.5, 0.0, 10.0, 1.0), Err(BoxError::OutOfRange));
    assert_eq!(make(0.0, 0.0, 90.5, 1.0), Err(BoxError::OutOfRange));
    assert_eq!(make(0.0, -180.5, 1.0, 1.0), Err(BoxError::OutOfRange));
    assert_eq!(make(0.0, 0.0, 1.0, 180.5), Err(BoxError::OutOfRange));
    assert_eq!(make(0.0, 0.0, f64::INFINITY, 1.0), Err(BoxError::OutOfRange));
    assert_eq!(make(f64::NAN, 0.0, 1.0, 1.0), Err(BoxError::NotInOrder));
    assert_eq!(make(0.0, f64::NAN, 1.0, 1.0), Err(BoxError::NotInOrder));
    assert_eq!(make(0.0, 0.0, f64::NAN, 1.0), Err(BoxError::NotInOrder));
    assert_eq!(make(0.0, 0.0, 1.0, f64::NAN), Err(BoxError::NotInOrder));
    assert_eq!(make(f64::NEG_INFINITY, 0.0, 1.0, 1.0), Err(BoxError::OutOfRange));
    assert_eq!(make(-0.0, -0.0, 0.0, 0.0), Err(BoxError::NotInOrder));
    assert_eq!(MAX_LATITUDE, 90.0f64.to_bits());
    assert_eq!(MIN_LATITUDE, (-90.0f64).to_bits());
    assert_eq!(MAX_LONGITUDE, 180.0f64.to_bits());
    assert_eq!(MIN_LONGITUDE, (-180.0f64).to_bits());
}

#[test]
fn limits_are_written_with_commas_between() {
    assert_eq!(bbox_fields("44.0,-116.5,49.5,-104.0"), Some([(0, 4), (5, 11), (12, 16), (17, 23)]));
    assert_eq!(bbox_fields("1,2,3,4,5"), Some([(0, 1), (2, 3), (4, 5), (6, 7)]));
    assert_eq!(bbox_fields(",,,"), Some([(0, 0), (1, 1), (2, 2), (3, 3)]));
    assert_eq!(bbox_fields("1,2,3"), None);
    assert_eq!(bbox_fields(""), None);
    assert_eq!(bbox_fields("1,2"), None);
    for text in ["44.0,-116.5,49.5,-104.0", "a,b,c,d,e,f", ",,,", " 1 ,2,,4", "1,2,3", "x"] {
        let parts: Vec<&str> = text.split(',').collect();
        match bbox_fields(text) {
            Some(fields) => {
                assert!(parts.len() >= 4);
                for k in 0..4 {
                    assert_eq!(&text[fields[k].0..fields[k].1], parts[k]);
                }
            }
            None => assert!(parts.len() < 4),
        }
    }
}

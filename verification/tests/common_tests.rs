use radar_worker::common::{Coordinate, Distance, Rat};

fn rat_f64(r: Rat) -> f64 {
    r.num as f64 / r.den as f64
}

/// Nano-degrees of a decimal degree value.
fn nano(x: f64) -> i64 {
    (x * 1e9).round() as i64
}

#[test]
fn test_distance() {
    let dist = Distance::KM(Rat::whole(180));
    assert!((rat_f64(dist.to_km()) - 180.0).abs() <= f64::EPSILON);
    assert!((rat_f64(dist.to_degrees()) - 1.6169681846537741).abs() <= f64::EPSILON);
    assert!((rat_f64(Distance::Degrees(dist.to_degrees()).to_km()) - 180.0).abs() <= f64::EPSILON);
}

#[test]
fn test_distance_nano_degrees() {
    // 0.5 degrees is exactly half a billion nano-degrees
    let d = Distance::Degrees(Rat::new(5, 10));
    assert_eq!(d.to_nano_degrees(), 500_000_000);
    // 240 km in degrees: 240 * 72 / 8015 degrees
    let km = Distance::KM(Rat::whole(240));
    let deg = km.to_degrees();
    assert_eq!(deg.num, 240 * 72);
    assert_eq!(deg.den, 8015);
}

#[test]
fn test_coordinate_nano() {
    let c = Coordinate {
        lat: nano(-6.9005217),
        lon: nano(107.6144183),
    };
    assert_eq!(c.lat, -6_900_521_700);
    assert_eq!(c.lon, 107_614_418_300);
}

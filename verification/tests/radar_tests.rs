use radar_worker::canvas::{rgba, Canvas};
use radar_worker::common::{Coordinate, Distance, Rat};
use radar_worker::radar::color_scheme::{hex_to_rgb, pixel_to_color_scheme, unified_color};
use radar_worker::radar::formula::{considerate_floor, isqrt, q_inside, qx_circ, EqResult};
use radar_worker::radar::image_crop::CropResult;
use radar_worker::radar::radar_data::{
    parse_decimal, parse_frames, parse_legend, parse_timestamp, station_bounds, RadarError,
};
use radar_worker::radar::radar_overlap::is_overlapping;
use radar_worker::radar::{Legends, RadarData, RadarImagery};

fn nano(x: f64) -> i64 {
    (x * 1e9).round() as i64
}

fn deg(v: i64) -> f64 {
    v as f64 / 1e9
}

fn empty_legends() -> Legends {
    Legends {
        levels: vec![],
        colors: vec![],
    }
}

fn station(bounds: [Coordinate; 2], center: Coordinate, range: Distance) -> RadarData {
    RadarData {
        bounds,
        city: "".to_string(),
        station: "".to_string(),
        code: "".to_string(),
        center,
        range,
        priority: 0,
        striped: false,
        images: vec![],
        legends: empty_legends(),
    }
}

#[test]
fn test_crop() {
    let bounds = [
        Coordinate {
            lat: nano(0.0),
            lon: nano(0.0),
        },
        Coordinate {
            lat: nano(-1.0),
            lon: nano(1.0),
        },
    ];

    let radar_bounds = [
        Coordinate {
            lat: nano(0.6),
            lon: nano(-0.7),
        },
        Coordinate {
            lat: nano(-1.4),
            lon: nano(1.3),
        },
    ];

    let radar_bounds2 = [
        Coordinate {
            lat: nano(-0.1),
            lon: nano(0.1),
        },
        Coordinate {
            lat: nano(-0.2),
            lon: nano(0.3),
        },
    ];

    let mut radar_test = station(
        radar_bounds,
        Coordinate {
            lat: nano(-0.4),
            lon: nano(0.3),
        },
        Distance::Degrees(Rat::whole(2)),
    );

    let image = Canvas::new(2000, 2000);
    let im = RadarImagery::builder(bounds).build();

    let crop: CropResult = im.crop(&image, &radar_test, 1827, 1827);

    // since crop is larger than what the bound SHOULD BE
    // the bounds may be larger than predicted, so it's fine

    assert_eq!(crop.image.height, 1000);
    assert_eq!(crop.image.width, 1000);
    assert!((deg(crop.cropped_bounds[0].lat) - 0.0).abs() <= 0.0001);
    assert!((deg(crop.cropped_bounds[0].lon) - 0.0).abs() <= 0.0001);
    assert!((deg(crop.cropped_bounds[1].lat) - -1.0).abs() <= 0.0001);
    assert!((deg(crop.cropped_bounds[1].lon) - 1.0).abs() <= 0.0001);

    assert!((deg(crop.on_canvas_pos[0].x) - 0.0).abs() <= 0.0001);
    assert!((deg(crop.on_canvas_pos[0].y) - 0.0).abs() <= 0.0001);
    assert!((deg(crop.on_canvas_pos[1].x) - 1827.0).abs() <= 0.0001);
    assert!((deg(crop.on_canvas_pos[1].y) - 1827.0).abs() <= 0.0001);

    radar_test.bounds = radar_bounds2;
    let crop = im.crop(&image, &radar_test, 1500, 1500);

    assert_eq!(crop.image.height, 2000);
    assert_eq!(crop.image.width, 2000);
    assert!((deg(crop.cropped_bounds[0].lat) - -0.1).abs() <= 0.0001);
    assert!((deg(crop.cropped_bounds[0].lon) - 0.1).abs() <= 0.0001);
    assert!((deg(crop.cropped_bounds[1].lat) - -0.2).abs() <= 0.0001);
    assert!((deg(crop.cropped_bounds[1].lon) - 0.3).abs() <= 0.0001);

    assert!((deg(crop.on_canvas_pos[0].x) - 150.0).abs() <= 0.0001);
    assert!((deg(crop.on_canvas_pos[0].y) - 150.0).abs() <= 0.0001);
    assert!((deg(crop.on_canvas_pos[1].x) - 450.0).abs() <= 0.0001);
    assert!((deg(crop.on_canvas_pos[1].y) - 300.0).abs() <= 0.0001);

    let radar_bounds3 = [
        Coordinate {
            lat: nano(-0.45),
            lon: nano(0.46),
        },
        Coordinate {
            lat: nano(-1.5),
            lon: nano(1.5),
        },
    ];

    radar_test.bounds = radar_bounds3;
    let crop = im.crop(&image, &radar_test, 1425, 1425);
    assert_eq!(crop.image.height, 1048);
    assert_eq!(crop.image.width, 1039);
    assert!((deg(crop.cropped_bounds[0].lat) - -0.45).abs() <= 0.0001);
    assert!((deg(crop.cropped_bounds[0].lon) - 0.46).abs() <= 0.0001);
    assert!((deg(crop.cropped_bounds[1].lat) - -1.0002).abs() <= 0.0001);
    assert!((deg(crop.cropped_bounds[1].lon) - 1.0002).abs() <= 0.0001);

    assert!((deg(crop.on_canvas_pos[0].x) - 655.5).abs() <= 0.0001);
    assert!((deg(crop.on_canvas_pos[0].y) - 641.25).abs() <= 0.0001);
    assert!((deg(crop.on_canvas_pos[1].x) - 1425.0).abs() <= 0.0001);
    assert!((deg(crop.on_canvas_pos[1].y) - 1425.0).abs() <= 0.0001);

    let crop = im.crop(&image, &radar_test, 1426, 1426);
    assert_eq!(crop.image.height, 1048);
    assert_eq!(crop.image.width, 1039);
    assert!((deg(crop.cropped_bounds[0].lat) - -0.45).abs() <= 0.0001);
    assert!((deg(crop.cropped_bounds[0].lon) - 0.46).abs() <= 0.0001);
    assert!((deg(crop.cropped_bounds[1].lat) - -1.0002).abs() <= 0.0001);
    assert!((deg(crop.cropped_bounds[1].lon) - 1.0002).abs() <= 0.0001);

    assert!((deg(crop.on_canvas_pos[0].x) - 655.96).abs() <= 0.0001);
    assert!((deg(crop.on_canvas_pos[0].y) - 641.7).abs() <= 0.0001);
    assert!((deg(crop.on_canvas_pos[1].x) - 1426.0).abs() <= 0.0001);
    assert!((deg(crop.on_canvas_pos[1].y) - 1426.0).abs() <= 0.0001);
}

#[test]
fn radar_data_test_overlap() {
    let reference = [
        Coordinate {
            lat: nano(-6.0404882),
            lon: nano(106.618351),
        },
        Coordinate {
            lat: nano(-6.4975978),
            lon: nano(107.144467),
        },
    ];
    let bounds1 = [
        Coordinate {
            lat: nano(-6.1436955),
            lon: nano(106.4568831),
        },
        Coordinate {
            lat: nano(-6.4405944),
            lon: nano(106.9040865),
        },
    ];
    let bounds2 = [
        Coordinate {
            lat: nano(-6.4055851),
            lon: nano(107.4918877),
        },
        Coordinate {
            lat: nano(-6.5101027),
            lon: nano(107.55644),
        },
    ];

    let im = RadarImagery::builder(reference).build();
    assert!(im.is_overlapping(&bounds1));
    assert!(!im.is_overlapping(&bounds2));
}

#[test]
fn radar_overlap_test_overlap() {
    // bounds does not matter here
    // the things that matter are the center and the range
    let zero = Coordinate {
        lat: nano(0.0),
        lon: nano(0.0),
    };
    let a = station([zero, zero], zero, Distance::Degrees(Rat::new(5, 10)));

    let mut b = station([zero, zero], zero, Distance::Degrees(Rat::new(5, 10)));
    b.code = String::from("different");
    b.center = Coordinate {
        lat: nano(0.0),
        lon: nano(1.1),
    };
    assert!(!is_overlapping(&a, &b));

    b.center = Coordinate {
        lat: nano(0.0),
        lon: nano(0.9),
    };
    assert!(is_overlapping(&a, &b));

    b.center = Coordinate {
        lat: nano(0.7),
        lon: nano(0.7),
    };
    assert!(is_overlapping(&a, &b));

    b.center = Coordinate {
        lat: nano(0.8),
        lon: nano(0.8),
    };
    assert!(!is_overlapping(&a, &b));
}

#[test]
fn test_color_remap() {
    let zero = Coordinate { lat: 0, lon: 0 };
    let mut r = station([zero, zero], zero, Distance::Degrees(Rat::whole(1)));
    r.legends = Legends {
        levels: vec![0, 1],
        colors: vec![rgba(1, 2, 3, 255), rgba(4, 5, 6, 255)],
    };
    // a pixel matching entry 1 becomes the unified entry of rank 1
    assert_eq!(
        pixel_to_color_scheme(rgba(4, 5, 6, 255), &r),
        unified_color(1)
    );
    // a pixel matching nothing passes through
    assert_eq!(
        pixel_to_color_scheme(rgba(9, 9, 9, 255), &r),
        rgba(9, 9, 9, 255)
    );
    // a pixel matching an entry past the unified palette becomes transparent
    let mut colors = Vec::new();
    let mut levels = Vec::new();
    let mut i = 0u8;
    while i < 15 {
        colors.push(rgba(i, i, i, 255));
        levels.push(i as i32);
        i += 1;
    }
    r.legends = Legends { levels, colors };
    assert_eq!(
        pixel_to_color_scheme(rgba(14, 14, 14, 255), &r),
        rgba(0, 0, 0, 0)
    );
}

#[test]
fn test_overlay_transparent_identity() {
    let mut a = Canvas::new(4, 4);
    a.put_pixel(1, 2, rgba(10, 20, 30, 40));
    let b = Canvas::new(4, 4);
    let before = a.clone();
    let out = radar_worker::util::overlay_image(a, &b, 7, 10);
    let mut y = 0u32;
    while y < 4 {
        let mut x = 0u32;
        while x < 4 {
            assert_eq!(out.get_pixel(x, y), before.get_pixel(x, y));
            x += 1;
        }
        y += 1;
    }
}

#[test]
fn test_overlay_blend_values() {
    let mut a = Canvas::new(1, 1);
    a.put_pixel(0, 0, rgba(100, 0, 200, 255));
    let mut b = Canvas::new(1, 1);
    b.put_pixel(0, 0, rgba(200, 50, 100, 255));
    // opacity 1/2: each channel moves halfway, truncated toward zero
    let out = radar_worker::util::overlay_image(a, &b, 1, 2);
    let p = out.get_pixel(0, 0);
    assert_eq!(p.r, 150);
    assert_eq!(p.g, 25);
    assert_eq!(p.b, 150);
    assert_eq!(p.a, 255);
}

#[test]
fn test_considerate_floor() {
    // whole numbers of units pass through unchanged
    assert_eq!(considerate_floor(9_000_000_000), 9_000_000_000);
    assert_eq!(considerate_floor(0), 0);
    assert_eq!(considerate_floor(-3_000_000_000), -3_000_000_000);
    // anything visibly below the next whole number floors
    assert_eq!(considerate_floor(9_999_999_999), 9_000_000_000);
    assert_eq!(considerate_floor(9_100_000_000), 9_000_000_000);
}

#[test]
fn test_isqrt() {
    assert_eq!(isqrt(0), 0);
    assert_eq!(isqrt(15), 3);
    assert_eq!(isqrt(16), 4);
    assert_eq!(isqrt(250_000_000_000_000_000), 500_000_000);
}

#[test]
fn test_qx_circ() {
    let zero = Coordinate { lat: 0, lon: 0 };
    let r = station([zero, zero], zero, Distance::Degrees(Rat::new(5, 10)));
    // the equator line crosses the half-degree disk at +/- 0.5 degrees
    match qx_circ(&r, 0) {
        EqResult::Real(pos, neg) => {
            assert_eq!(pos, 500_000_000);
            assert_eq!(neg, -500_000_000);
        }
        EqResult::NoResult => panic!("line should cross the disk"),
    }
    // a line far north misses it
    match qx_circ(&r, nano(0.6)) {
        EqResult::NoResult => {}
        EqResult::Real(_, _) => panic!("line should miss the disk"),
    }
    // the center is inside: the form is negative there
    assert!(q_inside(&r, 0, 0) < 0);
    assert!(q_inside(&r, nano(0.6), 0) > 0);
}

#[test]
fn test_parse_decimal() {
    assert_eq!(parse_decimal("-6.0404882"), Some(-6_040_488_200));
    assert_eq!(parse_decimal("107"), Some(107_000_000_000));
    assert_eq!(parse_decimal("+1.5"), Some(1_500_000_000));
    assert_eq!(parse_decimal(".5"), Some(500_000_000));
    assert_eq!(parse_decimal("5."), Some(5_000_000_000));
    assert_eq!(parse_decimal("1.2345678901234"), Some(1_234_567_890));
    assert_eq!(parse_decimal(""), None);
    assert_eq!(parse_decimal("abc"), None);
    assert_eq!(parse_decimal("1.2.3"), None);
    assert_eq!(parse_decimal("-"), None);
}

#[test]
fn test_parse_timestamp() {
    // 2024-01-15 10:30 UTC is 1705314600 seconds after the epoch
    assert_eq!(parse_timestamp("2024-01-15 10:30 UTC"), Some(1_705_314_600));
    assert_eq!(parse_timestamp("1970-01-01 00:00 UTC"), Some(0));
    // leap day accepted on leap years only
    assert!(parse_timestamp("2024-02-29 00:00 UTC").is_some());
    assert_eq!(parse_timestamp("2023-02-29 00:00 UTC"), None);
    assert_eq!(parse_timestamp("2024-13-01 00:00 UTC"), None);
    assert_eq!(parse_timestamp("2024-01-15 24:00 UTC"), None);
    assert_eq!(parse_timestamp("No Data"), None);
    assert_eq!(parse_timestamp("2024-01-15 10:30 GMT"), None);
}

#[test]
fn test_parse_frames() {
    let times = vec![
        "No Data".to_string(),
        "2024-01-15 10:30 UTC".to_string(),
        "2024-01-15 10:40 UTC".to_string(),
    ];
    let files = vec![
        "a.png".to_string(),
        "b.png".to_string(),
        "c.png".to_string(),
    ];
    let frames = parse_frames(&times, &files).unwrap();
    assert_eq!(frames.len(), 2);
    assert_eq!(frames[0].time, 1_705_314_600);
    assert_eq!(frames[0].url, "b.png");
    assert_eq!(frames[1].url, "c.png");

    let short = vec!["2024-01-15 10:30 UTC".to_string()];
    let out = parse_frames(&short, &files);
    assert!(matches!(out, Err(RadarError::FrameListMismatch)));
}

#[test]
fn test_hex_to_rgb() {
    assert_eq!(hex_to_rgb("#ff0000"), Some(rgba(255, 0, 0, 255)));
    assert_eq!(hex_to_rgb("112233"), Some(rgba(17, 34, 51, 255)));
    assert_eq!(hex_to_rgb("#ADd8e6"), Some(rgba(173, 216, 230, 255)));
    assert_eq!(hex_to_rgb("#ff"), None);
    assert_eq!(hex_to_rgb("zzzzzz"), None);
}

#[test]
fn test_parse_legend_fallback() {
    let l = parse_legend(
        vec![0, 1],
        vec!["#102030".to_string(), "nonsense".to_string()],
    );
    assert_eq!(l.colors[0], rgba(16, 32, 48, 255));
    assert_eq!(l.colors[1], rgba(0, 0, 0, 0));
}

#[test]
fn test_station_bounds_errors() {
    let one = vec!["1".to_string()];
    let two = vec!["1".to_string(), "2".to_string()];
    let bad = vec!["x".to_string(), "2".to_string()];
    assert!(matches!(
        station_bounds(&one, &two),
        Err(RadarError::TlcLength)
    ));
    assert!(matches!(
        station_bounds(&two, &one),
        Err(RadarError::BrcLength)
    ));
    assert!(matches!(
        station_bounds(&bad, &two),
        Err(RadarError::CoordParse)
    ));
    let ok = station_bounds(&two, &two).unwrap();
    assert_eq!(ok[0].lat, 1_000_000_000);
    assert_eq!(ok[1].lon, 2_000_000_000);
}

#[test]
fn test_assemble_staleness() {
    let im = RadarImagery::builder([
        Coordinate { lat: nano(1.0), lon: nano(-1.0) },
        Coordinate { lat: nano(-1.0), lon: nano(1.0) },
    ])
    .enforce_age_threshold(true)
    .build();
    let frames = vec![radar_worker::radar::RadarImagesData {
        time: 1_000_000,
        url: "x.png".to_string(),
    }];
    let zero = Coordinate { lat: 0, lon: 0 };
    // 21 minutes after the frame: stale, demoted with the striped mark
    let rd = im
        .assemble_radar_data(
            "c".to_string(),
            "s".to_string(),
            "PWK".to_string(),
            [zero, zero],
            zero,
            frames.clone(),
            Legends { levels: vec![], colors: vec![] },
            1_000_000 + 21 * 60,
        )
        .unwrap();
    assert!(rd.striped);
    assert_eq!(rd.priority, -1);
    // 5 minutes after: fresh, the PWK override gives priority 1 and 120 km
    let rd = im
        .assemble_radar_data(
            "c".to_string(),
            "s".to_string(),
            "PWK".to_string(),
            [zero, zero],
            zero,
            frames.clone(),
            Legends { levels: vec![], colors: vec![] },
            1_000_000 + 5 * 60,
        )
        .unwrap();
    assert!(!rd.striped);
    assert_eq!(rd.priority, 1);
    match rd.range {
        Distance::KM(r) => {
            assert_eq!(r.num, 120);
            assert_eq!(r.den, 1);
        }
        Distance::Degrees(_) => panic!("range override should be in kilometres"),
    }
    // no parseable frames: the station is dropped
    let none = im.assemble_radar_data(
        "c".to_string(),
        "s".to_string(),
        "ZZZ".to_string(),
        [zero, zero],
        zero,
        vec![],
        Legends { levels: vec![], colors: vec![] },
        0,
    );
    assert!(none.is_none());
}

#[test]
fn test_keep_station() {
    let viewport = [
        Coordinate { lat: nano(1.0), lon: nano(-1.0) },
        Coordinate { lat: nano(-1.0), lon: nano(1.0) },
    ];
    let im = RadarImagery::builder(viewport)
        .omit_radar(vec!["SKIP".to_string()])
        .build();
    let inside = [
        Coordinate { lat: nano(0.5), lon: nano(-0.5) },
        Coordinate { lat: nano(-0.5), lon: nano(0.5) },
    ];
    let outside = [
        Coordinate { lat: nano(9.0), lon: nano(7.0) },
        Coordinate { lat: nano(8.0), lon: nano(8.0) },
    ];
    assert!(im.keep_station(&inside, &"JAK".to_string()));
    assert!(!im.keep_station(&inside, &"SKIP".to_string()));
    assert!(!im.keep_station(&outside, &"JAK".to_string()));
}

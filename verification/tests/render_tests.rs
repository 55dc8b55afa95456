use radar_worker::canvas::rgba;
use radar_worker::common::{Coordinate, Distance, Rat};
use radar_worker::radar::color_scheme::unified_color;
use radar_worker::radar::{Image, Legends, RadarData, RadarImagery, RadarImagesData};
use std::io::Cursor;

fn nano(x: f64) -> i64 {
    (x * 1e9).round() as i64
}

fn png_bytes_of_color(w: u32, h: u32, px: [u8; 4]) -> Vec<u8> {
    let img = image::RgbaImage::from_pixel(w, h, image::Rgba(px));
    let mut buf: Vec<u8> = Vec::new();
    img.write_to(&mut Cursor::new(&mut buf), image::ImageFormat::Png)
        .unwrap();
    buf
}

#[test]
fn test_render_single_station() {
    let viewport = [
        Coordinate {
            lat: nano(1.0),
            lon: nano(-1.0),
        },
        Coordinate {
            lat: nano(-1.0),
            lon: nano(1.0),
        },
    ];
    let data = RadarData {
        bounds: viewport,
        city: "Testville".to_string(),
        station: "Test".to_string(),
        code: "TST".to_string(),
        center: Coordinate { lat: 0, lon: 0 },
        range: Distance::KM(Rat::whole(240)),
        priority: 0,
        striped: false,
        images: vec![RadarImagesData {
            time: 0,
            url: "frame.png".to_string(),
        }],
        legends: Legends {
            levels: vec![0],
            colors: vec![rgba(17, 34, 51, 255)],
        },
    };
    let bytes = png_bytes_of_color(2, 2, [17, 34, 51, 255]);
    let mut im = RadarImagery::builder(viewport).build();
    let result = im
        .render(10, 10, viewport, vec![Image { data, image: bytes }])
        .unwrap();
    assert_eq!(result.used_radars.len(), 1);
    assert_eq!(result.used_radars[0].code, "TST");
    assert_eq!(result.image.width, 10);
    assert_eq!(result.image.height, 10);
    // the center of the viewport is inside the disk: the legend color maps
    // to the first unified palette entry
    assert_eq!(result.image.get_pixel(5, 5), unified_color(0));
}

#[test]
fn test_render_bad_png_is_an_error() {
    let viewport = [
        Coordinate {
            lat: nano(1.0),
            lon: nano(-1.0),
        },
        Coordinate {
            lat: nano(-1.0),
            lon: nano(1.0),
        },
    ];
    let data = RadarData {
        bounds: viewport,
        city: "".to_string(),
        station: "".to_string(),
        code: "BAD".to_string(),
        center: Coordinate { lat: 0, lon: 0 },
        range: Distance::KM(Rat::whole(240)),
        priority: 0,
        striped: false,
        images: vec![],
        legends: Legends {
            levels: vec![],
            colors: vec![],
        },
    };
    let mut im = RadarImagery::builder(viewport).build();
    let result = im.render(
        10,
        10,
        viewport,
        vec![Image {
            data,
            image: vec![1, 2, 3],
        }],
    );
    match result {
        Err(e) => assert_eq!(e.code, "BAD"),
        Ok(_) => panic!("bytes that are no PNG must fail the render"),
    }
}

#[test]
fn test_render_striped_station_dithers() {
    let viewport = [
        Coordinate {
            lat: nano(1.0),
            lon: nano(-1.0),
        },
        Coordinate {
            lat: nano(-1.0),
            lon: nano(1.0),
        },
    ];
    let data = RadarData {
        bounds: viewport,
        city: "".to_string(),
        station: "".to_string(),
        code: "STR".to_string(),
        center: Coordinate { lat: 0, lon: 0 },
        range: Distance::KM(Rat::whole(240)),
        priority: -1,
        striped: true,
        images: vec![],
        legends: Legends {
            levels: vec![0],
            colors: vec![rgba(17, 34, 51, 255)],
        },
    };
    let bytes = png_bytes_of_color(4, 4, [17, 34, 51, 255]);
    let mut im = RadarImagery::builder(viewport).build();
    let result = im
        .render(16, 16, viewport, vec![Image { data, image: bytes }])
        .unwrap();
    // the two-of-eight diagonal pattern: (x + y) % 8 > 2 stays transparent
    let mut painted = 0u32;
    let mut skipped_ok = true;
    let mut y = 0u32;
    while y < 16 {
        let mut x = 0u32;
        while x < 16 {
            let p = result.image.get_pixel(x, y);
            if (x + y) % 8 > 2 && p.a != 0 {
                skipped_ok = false;
            }
            if p.a != 0 {
                painted += 1;
            }
            x += 1;
        }
        y += 1;
    }
    assert!(skipped_ok);
    assert!(painted > 0);
}

#[test]
fn test_render_no_stations() {
    let viewport = [
        Coordinate {
            lat: nano(1.0),
            lon: nano(-1.0),
        },
        Coordinate {
            lat: nano(-1.0),
            lon: nano(1.0),
        },
    ];
    let mut im = RadarImagery::builder(viewport).build();
    let result = im.render(8, 8, viewport, vec![]).unwrap();
    assert_eq!(result.used_radars.len(), 0);
    let mut y = 0u32;
    while y < 8 {
        let mut x = 0u32;
        while x < 8 {
            assert_eq!(result.image.get_pixel(x, y), rgba(0, 0, 0, 0));
            x += 1;
        }
        y += 1;
    }
}

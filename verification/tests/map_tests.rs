use radar_worker::common::Coordinate;
use radar_worker::map::canvas_meta::CanvasMetadata;
use radar_worker::map::util::{_coord_to_tile, _get_tiles_range};
use radar_worker::canvas::{rgba, Canvas};
use radar_worker::map::bounding::{bounding_box, gazetteer_bounds, PlaceError};
use radar_worker::map::{stitch_tiles, u32_to_string, MapImageryBuilder, MapStyle, ZoomSetting};

fn nano(x: f64) -> i64 {
    (x * 1e9).round() as i64
}

fn tiles(v: i64) -> f64 {
    v as f64 / 1e9
}

#[test]
fn test_coord_to_tile() {
    let coord_1 = Coordinate {
        lat: nano(5.98),
        lon: nano(2.33),
    };
    let t1 = _coord_to_tile(&coord_1, 13);

    assert!((tiles(t1.x) - 4149.0204444).abs() <= 0.001);
    assert!((tiles(t1.y) - 3959.6740473).abs() <= 0.001);
}

#[test]
fn test_get_tiles_range() {
    let bounds = [
        Coordinate {
            lat: nano(5.98),
            lon: nano(2.33),
        },
        Coordinate {
            lat: nano(1.0),
            lon: nano(3.0),
        },
    ];
    let range = _get_tiles_range(&bounds, 13);
    // tile works the same way as pixel positions
    // where going south means higher y
    assert!((tiles(range[0].x) - 4149.0204444).abs() <= 0.001);
    assert!((tiles(range[0].y) - 3959.6740473).abs() <= 0.001);
    assert!((tiles(range[1].x) - 4164.2666666).abs() <= 0.001);
    assert!((tiles(range[1].y) - 4073.2432891).abs() <= 0.001);
}

#[test]
fn test_auto_zoom_level() {
    let bounds = [
        Coordinate {
            lat: nano(-6.8423027),
            lon: nano(107.5468144),
        },
        Coordinate {
            lat: nano(-6.9675463),
            lon: nano(107.7356557),
        },
    ];

    let imagery = MapImageryBuilder::new(bounds)
        .zoom_setting(ZoomSetting::MaxTiles(50))
        .build();
    assert_eq!(imagery.zoom_level, 14);

    let bounds = [
        Coordinate {
            lat: nano(-6.0871085),
            lon: nano(106.7597323),
        },
        Coordinate {
            lat: nano(-7.7006901),
            lon: nano(108.9011875),
        },
    ];

    let imagery = MapImageryBuilder::new(bounds)
        .zoom_setting(ZoomSetting::MaxTiles(50))
        .build();
    assert_eq!(imagery.zoom_level, 10);
}

#[test]
fn test_auto_zoom_monotone_in_budget() {
    let bounds = [
        Coordinate {
            lat: nano(-6.0871085),
            lon: nano(106.7597323),
        },
        Coordinate {
            lat: nano(-7.7006901),
            lon: nano(108.9011875),
        },
    ];
    let builder = MapImageryBuilder::new(bounds);
    let mut last = builder.auto_zoom_level(1);
    let budgets = [2, 5, 10, 50, 200, 1000];
    let mut i = 0;
    while i < budgets.len() {
        let z = builder.auto_zoom_level(budgets[i]);
        assert!(z >= last);
        last = z;
        i += 1;
    }
}

#[test]
fn test_canvas_metadata() {
    let bounds = [
        Coordinate {
            lat: nano(-6.9005217),
            lon: nano(107.6144183),
        },
        Coordinate {
            lat: nano(-6.9291531),
            lon: nano(107.679947),
        },
    ];

    let meta = CanvasMetadata::new(bounds, 15);
    let approx = meta.bounds().approx();
    let exact = meta.bounds();
    let rows = meta.rows();
    let cols = meta.cols();

    // for east and south, it is +1 because it's ceiled
    assert_eq!(approx.west, 26179);
    assert_eq!(approx.east, 26186);
    assert_eq!(approx.north, 17013);
    assert_eq!(approx.south, 17017);
    assert_eq!(rows, 4);
    assert_eq!(cols, 7);

    assert!((tiles(exact.west) - 26179.303496818).abs() <= 0.000001);
    assert!((tiles(exact.east) - 26185.268064711).abs() <= 0.000001);
    assert!((tiles(exact.north) - 17013.624785892).abs() <= 0.000001);
    assert!((tiles(exact.south) - 17016.249974678).abs() <= 0.000001);
}

#[test]
fn test_iterator() {
    let bounds = [
        Coordinate {
            lat: nano(69.78),
            lon: nano(170.42),
        },
        Coordinate {
            lat: nano(60.84),
            lon: nano(-155.23),
        },
    ];
    let meta = CanvasMetadata::new(bounds, 5);

    let iter_cols_ref = vec![31, 0, 1, 2];
    assert_eq!(meta.iter_cols().data, iter_cols_ref);

    let iter_rows_ref = vec![7, 8, 9];
    assert_eq!(meta.iter_rows().data, iter_rows_ref);
}

#[test]
fn test_tile_cover() {
    // the integer rectangle covers the fractional one
    let bounds = [
        Coordinate {
            lat: nano(-6.9005217),
            lon: nano(107.6144183),
        },
        Coordinate {
            lat: nano(-6.9291531),
            lon: nano(107.679947),
        },
    ];
    let meta = CanvasMetadata::new(bounds, 15);
    let exact = meta.bounds();
    let approx = meta.bounds().approx();
    assert!((approx.west as i64) * 1_000_000_000 <= exact.west);
    assert!((approx.north as i64) * 1_000_000_000 <= exact.north);
    assert!((approx.east as i64) * 1_000_000_000 >= exact.east);
    assert!((approx.south as i64) * 1_000_000_000 >= exact.south);
}

#[test]
fn test_tiles_iterator_next() {
    let bounds = [
        Coordinate {
            lat: nano(69.78),
            lon: nano(170.42),
        },
        Coordinate {
            lat: nano(60.84),
            lon: nano(-155.23),
        },
    ];
    let meta = CanvasMetadata::new(bounds, 5);
    let mut it = meta.iter_rows();
    assert_eq!(it.next(), Some(7));
    assert_eq!(it.next(), Some(8));
    assert_eq!(it.next(), Some(9));
    assert_eq!(it.next(), None);
}

#[test]
fn test_dimensions() {
    let bounds = [
        Coordinate {
            lat: nano(-6.9005217),
            lon: nano(107.6144183),
        },
        Coordinate {
            lat: nano(-6.9291531),
            lon: nano(107.679947),
        },
    ];
    let meta = CanvasMetadata::new(bounds, 15);
    let crop = meta.get_crop();
    let (w, h) = meta.dimensions();
    // 7 columns and 4 rows of 256-pixel tiles, minus the crop
    assert_eq!(w, 7 * 256 - crop.left - crop.right);
    assert_eq!(h, 4 * 256 - crop.top - crop.bottom);
    assert!(w > 0 && h > 0);
}

#[test]
fn test_tile_url_path() {
    assert_eq!(u32_to_string(0), "0");
    assert_eq!(u32_to_string(4096), "4096");
    assert_eq!(
        MapStyle::Transport.url_path(123, 456, 12),
        "https://tile.thunderforest.com/transport/12/123/456.png"
    );
    assert_eq!(
        MapStyle::Spinal.url_path(0, 1, 0),
        "https://tile.thunderforest.com/spinal-map/0/0/1.png"
    );
}

#[test]
fn test_bounding_box_selection() {
    let empty: Vec<[Coordinate; 2]> = vec![];
    assert_eq!(bounding_box(&empty), Err(PlaceError::NoSuchPlace));
    let first = [
        Coordinate { lat: nano(1.0), lon: nano(2.0) },
        Coordinate { lat: nano(-1.0), lon: nano(3.0) },
    ];
    let second = [
        Coordinate { lat: nano(9.0), lon: nano(9.0) },
        Coordinate { lat: nano(8.0), lon: nano(9.5) },
    ];
    assert_eq!(bounding_box(&vec![first, second]), Ok(first));
}

#[test]
fn test_gazetteer_bounds() {
    let bbox = [
        "-6.4976".to_string(),
        "-6.0405".to_string(),
        "106.6184".to_string(),
        "107.1445".to_string(),
    ];
    let b = gazetteer_bounds(&bbox).unwrap();
    assert_eq!(b[0].lat, nano(-6.0405));
    assert_eq!(b[0].lon, nano(106.6184));
    assert_eq!(b[1].lat, nano(-6.4976));
    assert_eq!(b[1].lon, nano(107.1445));

    let bad = [
        "x".to_string(),
        "-6.0405".to_string(),
        "106.6184".to_string(),
        "107.1445".to_string(),
    ];
    assert!(gazetteer_bounds(&bad).is_none());
}

#[test]
fn test_stitch_tiles() {
    let mut a = Canvas::new(256, 256);
    a.put_pixel(0, 0, rgba(1, 1, 1, 255));
    let mut b = Canvas::new(256, 256);
    b.put_pixel(10, 20, rgba(2, 2, 2, 255));
    let stitched = stitch_tiles(&vec![a, b], 2, 1).unwrap();
    assert_eq!(stitched.width, 512);
    assert_eq!(stitched.height, 256);
    assert_eq!(stitched.get_pixel(0, 0), rgba(1, 1, 1, 255));
    assert_eq!(stitched.get_pixel(256 + 10, 20), rgba(2, 2, 2, 255));
    assert_eq!(stitched.get_pixel(300, 100), rgba(0, 0, 0, 0));

    // a grid of the wrong shape stitches to nothing
    let c = Canvas::new(256, 256);
    assert!(stitch_tiles(&vec![c], 2, 1).is_none());
    let d = Canvas::new(100, 256);
    assert!(stitch_tiles(&vec![d], 1, 1).is_none());
}

use mandelbrot::{Orientation, Raster, RegionError};

#[test]
fn validate_counts_pixels() {
    let r = Raster { img_w: 100, img_h: 100 };
    assert_eq!(r.validate(), Ok(10_000));
    let r = Raster { img_w: 3, img_h: 7 };
    assert_eq!(r.validate(), Ok(21));
}

#[test]
fn zero_width_is_rejected() {
    let r = Raster { img_w: 0, img_h: 100 };
    assert_eq!(r.validate(), Err(RegionError::ZeroWidth));
    let r = Raster { img_w: 0, img_h: 0 };
    assert_eq!(r.validate(), Err(RegionError::ZeroWidth));
}

#[test]
fn zero_height_is_rejected() {
    let r = Raster { img_w: 100, img_h: 0 };
    assert_eq!(r.validate(), Err(RegionError::ZeroHeight));
}

#[test]
fn too_many_pixels_is_rejected() {
    let r = Raster { img_w: 65_536, img_h: 65_536 };
    assert_eq!(r.validate(), Err(RegionError::TooManyPixels));
    let r = Raster { img_w: 65_536, img_h: 65_535 };
    assert_eq!(r.validate(), Ok(65_536 * 65_535));
}

#[test]
fn square_multiplies_resolution() {
    assert_eq!(Raster::square(1024, 2), Some(Raster { img_w: 2048, img_h: 2048 }));
    assert_eq!(Raster::square(1, 1), Some(Raster { img_w: 1, img_h: 1 }));
    assert_eq!(Raster::square(u32::MAX, 2), None);
    assert_eq!(Raster::square(65_536, 65_536), None);
}

#[test]
fn index_and_coords_are_row_major() {
    let r = Raster { img_w: 5, img_h: 4 };
    assert_eq!(r.pixel_index(0, 0), 0);
    assert_eq!(r.pixel_index(4, 0), 4);
    assert_eq!(r.pixel_index(0, 1), 5);
    assert_eq!(r.pixel_index(2, 3), 17);
    assert_eq!(r.pixel_coords(17), (2, 3));
    assert_eq!(r.pixel_coords(4), (4, 0));
    for i in 0..20u32 {
        let (x, y) = r.pixel_coords(i);
        assert!(x < 5 && y < 4);
        assert_eq!(r.pixel_index(x, y), i);
    }
}

#[test]
fn offsets_follow_orientation() {
    let r = Raster { img_w: 10, img_h: 8 };
    assert_eq!(r.plane_offsets(3, 0, Orientation::TopDown), (3, 8));
    assert_eq!(r.plane_offsets(3, 7, Orientation::TopDown), (3, 1));
    assert_eq!(r.plane_offsets(3, 0, Orientation::BottomUp), (3, 0));
    assert_eq!(r.plane_offsets(9, 7, Orientation::BottomUp), (9, 7));
}

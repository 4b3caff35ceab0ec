use mandelbrot::{discrete_level, to_bytes, ColorMode, Output, Shade};

#[test]
fn discrete_levels() {
    assert_eq!(discrete_level(Output::InSet), 0);
    assert_eq!(discrete_level(Output::NotInSet(0)), 100);
    assert_eq!(discrete_level(Output::NotInSet(1)), 200);
    assert_eq!(discrete_level(Output::NotInSet(2)), 255);
    assert_eq!(discrete_level(Output::NotInSet(1000)), 255);
    assert_eq!(discrete_level(Output::NotInSet(usize::MAX)), 255);
}

#[test]
fn shade_from_output() {
    assert_eq!(Shade::from_output(Output::InSet), Shade::InSet);
    assert_eq!(Shade::from_output(Output::NotInSet(0)), Shade::Level(100));
    assert_eq!(Shade::from_output(Output::NotInSet(7)), Shade::Level(255));
}

#[test]
fn channel_counts() {
    assert_eq!(ColorMode::Grayscale.channels(), 1);
    assert_eq!(ColorMode::Rgb.channels(), 3);
}

#[test]
fn grayscale_bytes() {
    let grid = vec![Shade::InSet, Shade::Level(7), Shade::Level(255), Shade::Level(0)];
    assert_eq!(to_bytes(&grid, ColorMode::Grayscale), vec![0, 7, 255, 0]);
}

#[test]
fn rgb_bytes() {
    let grid = vec![Shade::Level(9), Shade::InSet, Shade::Level(200)];
    assert_eq!(
        to_bytes(&grid, ColorMode::Rgb),
        vec![0, 0, 9, 0, 0, 0, 0, 0, 200]
    );
}

#[test]
fn empty_grid_gives_no_bytes() {
    assert_eq!(to_bytes(&[], ColorMode::Grayscale), Vec::<u8>::new());
    assert_eq!(to_bytes(&[], ColorMode::Rgb), Vec::<u8>::new());
}

#[test]
fn colouring_twice_gives_same_bytes() {
    let grid: Vec<Shade> = (0..300u32)
        .map(|i| if i % 7 == 0 { Shade::InSet } else { Shade::Level((i % 256) as u8) })
        .collect();
    for mode in [ColorMode::Grayscale, ColorMode::Rgb] {
        let a = to_bytes(&grid, mode);
        let b = to_bytes(&grid, mode);
        assert_eq!(a, b);
        assert_eq!(a.len(), grid.len() * mode.channels());
    }
}

use firework::color::{hsl_to_rgb, Hsl, Rgb};

fn rgb(h: i64, s: i64, l: i64) -> Rgb {
    hsl_to_rgb(&Hsl { h, s, l })
}

#[test]
fn primary_colors_convert_exactly() {
    assert_eq!(rgb(0, 100000, 50000), Rgb { r: 255, g: 0, b: 0 });
    assert_eq!(rgb(120000, 100000, 50000), Rgb { r: 0, g: 255, b: 0 });
    assert_eq!(rgb(240000, 100000, 50000), Rgb { r: 0, g: 0, b: 255 });
    assert_eq!(rgb(60000, 100000, 50000), Rgb { r: 255, g: 255, b: 0 });
    assert_eq!(rgb(180000, 100000, 50000), Rgb { r: 0, g: 255, b: 255 });
    assert_eq!(rgb(300000, 100000, 50000), Rgb { r: 255, g: 0, b: 255 });
}

#[test]
fn extremes_of_lightness_and_saturation() {
    // full lightness washes every hue to white, zero lightness to black
    assert_eq!(rgb(37000, 81000, 100000), Rgb { r: 255, g: 255, b: 255 });
    assert_eq!(rgb(312000, 12000, 0), Rgb { r: 0, g: 0, b: 0 });
    // zero saturation is a pure gray of the lightness
    assert_eq!(rgb(123000, 0, 50000), Rgb { r: 127, g: 127, b: 127 });
}

#[test]
fn channels_stay_in_range_across_the_space() {
    let mut h: i64 = 0;
    while h < 360000 {
        let mut l: i64 = 0;
        while l <= 100000 {
            let c = rgb(h, 100000, l);
            let _ = (c.r, c.g, c.b);
            l += 9973;
        }
        h += 8117;
    }
}

#[test]
fn lightness_ninety_percent_is_bright() {
    let c = rgb(0, 100000, 90000);
    assert_eq!(c, Rgb { r: 255, g: 204, b: 204 });
}

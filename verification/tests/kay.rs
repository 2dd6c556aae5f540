use genart::kay::{ImageScans, Raster};
use genart::kayconfig::{ConfigError, KayConfig, PixelCalc};
use genart::pixel::{pixel_average, pixel_max, Rgb};

fn px(r: u8, g: u8, b: u8) -> Rgb {
    Rgb { r, g, b }
}

#[test]
fn calc_min_and_max() {
    assert_eq!(PixelCalc::Min.calc(3, 9), 3);
    assert_eq!(PixelCalc::Min.calc(9, 3), 3);
    assert_eq!(PixelCalc::Max.calc(3, 9), 9);
    assert_eq!(PixelCalc::Max.calc(255, 0), 255);
}

#[test]
fn calc_average_rounds_down() {
    assert_eq!(PixelCalc::Av.calc(3, 4), 3);
    assert_eq!(PixelCalc::Av.calc(100, 155), 127);
    assert_eq!(PixelCalc::Av.calc(0, 0), 0);
}

#[test]
fn calc_difference_is_absolute() {
    assert_eq!(PixelCalc::Diff.calc(10, 250), 240);
    assert_eq!(PixelCalc::Diff.calc(250, 10), 240);
    assert_eq!(PixelCalc::Diff.calc(7, 7), 0);
}

#[test]
fn calc_zero_is_zero() {
    assert_eq!(PixelCalc::Zero.calc(200, 100), 0);
}

#[test]
fn can_calc_refuses_only_an_average_past_a_byte() {
    assert!(PixelCalc::Av.can_calc(100, 155));
    assert!(!PixelCalc::Av.can_calc(100, 156));
    assert!(!PixelCalc::Av.can_calc(255, 255));
    assert!(PixelCalc::Min.can_calc(255, 255));
    assert!(PixelCalc::Max.can_calc(255, 255));
    assert!(PixelCalc::Diff.can_calc(255, 255));
    assert!(PixelCalc::Zero.can_calc(255, 255));
}

#[test]
fn letters_name_the_calculations() {
    let all = [
        (PixelCalc::Min, 'n'),
        (PixelCalc::Max, 'x'),
        (PixelCalc::Av, 'a'),
        (PixelCalc::Diff, 'd'),
        (PixelCalc::Zero, 'z'),
    ];
    for (calc, letter) in all {
        assert_eq!(calc.letter(), letter);
        assert_eq!(calc.as_str(), letter.to_string());
        assert_eq!(calc.to_string(), letter.to_string());
        assert_eq!(PixelCalc::try_from(letter), Ok(calc));
    }
}

#[test]
fn other_letters_are_invalid() {
    for c in ['N', 'b', ' ', '0', 'é'] {
        assert_eq!(PixelCalc::try_from(c), Err(ConfigError::Invalid));
    }
}

#[test]
fn parse_next_reads_one_letter() {
    let mut chars = "xq".chars();
    assert_eq!(PixelCalc::parse_next(&mut chars), Ok(PixelCalc::Max));
    assert_eq!(PixelCalc::parse_next(&mut chars), Err(ConfigError::Invalid));
    assert_eq!(PixelCalc::parse_next(&mut chars), Err(ConfigError::Missing));
}

#[test]
fn error_messages() {
    assert_eq!(ConfigError::Missing.message(), "err");
    assert_eq!(ConfigError::Invalid.message(), "Invalid");
}

#[test]
fn default_config_is_aannn() {
    let c = KayConfig::default();
    assert_eq!(
        c,
        KayConfig {
            scan_x: PixelCalc::Av,
            scan_y: PixelCalc::Av,
            calc_r: PixelCalc::Min,
            calc_g: PixelCalc::Min,
            calc_b: PixelCalc::Min,
        }
    );
    assert_eq!(c.to_string(), "aannn");
}

#[test]
fn parse_reads_five_letters() {
    let c = KayConfig::parse("nxadz").unwrap();
    assert_eq!(
        c,
        KayConfig {
            scan_x: PixelCalc::Min,
            scan_y: PixelCalc::Max,
            calc_r: PixelCalc::Av,
            calc_g: PixelCalc::Diff,
            calc_b: PixelCalc::Zero,
        }
    );
    assert_eq!(c.to_string(), "nxadz");
}

#[test]
fn parse_passes_over_what_follows_the_fifth_letter() {
    assert_eq!(KayConfig::parse("aannn and more"), Ok(KayConfig::default()));
}

#[test]
fn parse_refuses_short_texts() {
    assert_eq!(KayConfig::parse(""), Err(ConfigError::Missing));
    assert_eq!(KayConfig::parse("aann"), Err(ConfigError::Missing));
}

#[test]
fn parse_refuses_unknown_letters() {
    assert_eq!(KayConfig::parse("aanqn"), Err(ConfigError::Invalid));
    assert_eq!(KayConfig::parse("Aannn"), Err(ConfigError::Invalid));
}

#[test]
fn parse_reports_the_first_fault() {
    assert_eq!(KayConfig::parse("aq"), Err(ConfigError::Invalid));
    assert_eq!(KayConfig::parse("aaé"), Err(ConfigError::Invalid));
}

#[test]
fn from_str_is_parse() {
    assert_eq!("zzzzz".parse::<KayConfig>(), KayConfig::parse("zzzzz"));
    assert_eq!("zz".parse::<KayConfig>(), Err(ConfigError::Missing));
}

#[test]
fn text_round_trip() {
    let all = [PixelCalc::Min, PixelCalc::Max, PixelCalc::Av, PixelCalc::Diff, PixelCalc::Zero];
    for a in all {
        for b in all {
            let c = KayConfig { scan_x: a, scan_y: b, calc_r: b, calc_g: a, calc_b: PixelCalc::Av };
            assert_eq!(KayConfig::parse(&c.to_string()), Ok(c));
        }
    }
}

#[test]
fn average_of_pixels() {
    let run = [px(0, 10, 255), px(1, 20, 255), px(3, 31, 254)];
    assert_eq!(pixel_average(&run), px(1, 20, 254));
    assert_eq!(pixel_average(&run[..1]), px(0, 10, 255));
}

#[test]
fn max_of_pixels() {
    let run = [px(0, 10, 255), px(1, 20, 3), px(3, 5, 254)];
    assert_eq!(pixel_max(&run), px(3, 20, 255));
    assert_eq!(pixel_max(&[]), px(0, 0, 0));
}

#[test]
fn scan_by_calculation() {
    let run = [px(4, 10, 255), px(8, 20, 3), px(3, 5, 254)];
    assert_eq!(PixelCalc::Min.scan(&run), px(0, 0, 0));
    assert_eq!(PixelCalc::Max.scan(&run), px(8, 20, 255));
    assert_eq!(PixelCalc::Av.scan(&run), px(5, 11, 170));
    assert_eq!(PixelCalc::Zero.scan(&run), px(0, 0, 0));
    assert_eq!(PixelCalc::Max.scan(&[]), px(0, 0, 0));
}

fn two_by_three() -> Raster {
    // rows: (10, 20), (30, 40), (50, 61) in every channel, blue doubled
    let v = [10u8, 20, 30, 40, 50, 61];
    Raster::new(2, 3, v.iter().map(|c| px(*c, *c + 1, *c * 2)).collect()).unwrap()
}

#[test]
fn raster_needs_one_pixel_for_each_place() {
    assert!(Raster::new(2, 3, vec![px(0, 0, 0); 5]).is_none());
    assert!(Raster::new(2, 3, vec![px(0, 0, 0); 7]).is_none());
    assert!(Raster::new(0, 3, vec![]).is_some());
    assert!(Raster::new(2, 3, vec![px(0, 0, 0); 6]).is_some());
}

#[test]
fn raster_rows_and_columns() {
    let img = two_by_three();
    assert_eq!(img.get_pixel(1, 2), px(61, 62, 122));
    assert_eq!(img.get_pixel(0, 1), px(30, 31, 60));
    assert_eq!(img.row(1), vec![px(30, 31, 60), px(40, 41, 80)]);
    assert_eq!(img.column(1), vec![px(20, 21, 40), px(40, 41, 80), px(61, 62, 122)]);
}

#[test]
fn scans_average_columns_and_rows() {
    let scans = ImageScans::new(&two_by_three());
    assert_eq!(scans.x, vec![px(30, 31, 60), px(40, 41, 80)]);
    assert_eq!(scans.y, vec![px(15, 16, 30), px(35, 36, 70), px(55, 56, 111)]);
}

#[test]
fn scans_of_an_empty_image_are_empty() {
    let img = Raster::new(0, 0, vec![]).unwrap();
    let scans = ImageScans::new(&img);
    assert!(scans.x.is_empty() && scans.y.is_empty());
}

#[test]
fn remap_combines_column_and_row() {
    let mut img = two_by_three();
    let scans = ImageScans::new(&img);
    let config = KayConfig::parse("aanxd").unwrap();
    assert!(scans.fits_config(&config));
    config.remap(&mut img, &scans);
    assert_eq!((img.width, img.height), (2, 3));
    // column 1: (40, 41, 80); row 2: (55, 56, 111)
    assert_eq!(img.get_pixel(1, 2), px(40, 56, 31));
    // column 0: (30, 31, 60); row 0: (15, 16, 30)
    assert_eq!(img.get_pixel(0, 0), px(15, 31, 30));
    for y in 0..3u32 {
        for x in 0..2u32 {
            let want = config.remap_pixel(scans.x[x as usize], scans.y[y as usize]);
            assert_eq!(img.get_pixel(x, y), want);
        }
    }
}

#[test]
fn remap_pixel_takes_each_channel_by_its_own_calculation() {
    let config = KayConfig::parse("aaxnz").unwrap();
    assert_eq!(config.remap_pixel(px(1, 2, 3), px(9, 8, 7)), px(9, 2, 0));
}

#[test]
fn fits_config_finds_an_average_past_a_byte() {
    let img = Raster::new(1, 1, vec![px(200, 100, 0)]).unwrap();
    let scans = ImageScans::new(&img);
    assert!(!scans.fits_config(&KayConfig::parse("aaann").unwrap()));
    assert!(scans.fits_config(&KayConfig::parse("aanan").unwrap()));
    assert!(!KayConfig::parse("aaann").unwrap().can_remap_pixel(px(200, 0, 0), px(200, 0, 0)));
}

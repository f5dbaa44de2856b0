//! Pictures in black and white.

use receipter::raster::{
    blank_warning, dither, encode, finish, flatten, has_shades, is_blank, lighten, lighten_all, over_white, prepare,
    scaled_height, threshold, Dither, Picture,
};

fn picture(width: u32, dots: &[u8]) -> Picture {
    Picture { width, height: dots.len() as u32 / width, dots: dots.to_vec() }
}

#[test]
fn shades_are_seen_through_to_the_paper() {
    assert_eq!(over_white(0, 255), 0);
    assert_eq!(over_white(77, 255), 77);
    assert_eq!(over_white(0, 0), 255);
    assert_eq!(over_white(0, 128), 127);
}

#[test]
fn a_picture_is_laid_on_white_paper() {
    let p = flatten(2, 1, &[0, 255, 0, 128]).unwrap();
    assert_eq!((p.width, p.height, p.dots), (2, 1, vec![0, 127]));
    assert!(flatten(2, 1, &[0, 255, 0]).is_none());
    assert!(flatten(1, 1, &[0, 255, 0, 128]).is_none());
    assert!(Picture::from_dots(2, 2, vec![0; 4]).is_some());
    assert!(Picture::from_dots(2, 2, vec![0; 5]).is_none());
}

#[test]
fn proportions_are_kept() {
    assert_eq!(scaled_height(1152, 800, 576), Some(400));
    assert_eq!(scaled_height(3, 2, 576), Some(384));
    assert_eq!(scaled_height(10000, 1, 8), Some(1));
    assert_eq!(scaled_height(1, u32::MAX, 8), None);
}

#[test]
fn lightening_takes_ink_away() {
    assert_eq!(lighten(0, 0), 0);
    assert_eq!(lighten(0, 30), 77);
    assert_eq!(lighten(100, 50), 178);
    assert_eq!(lighten(0, 100), 255);
    assert_eq!(lighten(255, 60), 255);
    assert_eq!(lighten_all(&picture(2, &[0, 100]), 50).dots, vec![128, 178]);
}

#[test]
fn the_threshold_lies_at_the_middle_grey() {
    assert_eq!(threshold(&picture(4, &[0, 128, 129, 255])).dots, vec![0, 0, 255, 255]);
}

#[test]
fn artwork_stays_up_to_half_and_then_drops_out() {
    let solid = picture(2, &[0, 255]);
    assert_eq!(prepare(&solid, Dither::Off, 50).dots, vec![0, 255]);
    let gone = prepare(&solid, Dither::Off, 51);
    assert!(is_blank(&gone));
    assert_eq!(
        blank_warning(60),
        "nothing is left to print after --lighten 60; try a lower percentage, or \
         --dither on to thin the artwork instead of dropping it"
    );
}

#[test]
fn dithering_spreads_what_a_dot_leaves_over() {
    // 100 prints black and leaves 100: 43 to the right, 31 below, 6 to the lower right.
    let got = dither(&picture(2, &[100, 100, 100, 100]));
    assert_eq!(got.dots, vec![0, 255, 0, 0]);
    let grey = dither(&picture(16, &[128; 256]));
    let black = grey.dots.iter().filter(|d| **d == 0).count();
    assert!((120..=136).contains(&black), "{black}");
}

#[test]
fn dithering_thins_by_the_percentage() {
    let solid = picture(32, &[0; 1024]);
    let thin = prepare(&solid, Dither::On, 30);
    let black = thin.dots.iter().filter(|d| **d == 0).count();
    assert!((690..=745).contains(&black), "{black}");
}

#[test]
fn pictures_with_real_shades_are_dithered() {
    let art: Vec<u8> = (0..100).map(|i| if i < 5 { 120 } else { 0 }).collect();
    assert!(!has_shades(&picture(10, &art)));
    let photo: Vec<u8> = (0..100).map(|i| if i < 6 { 120 } else { 0 }).collect();
    assert!(has_shades(&picture(10, &photo)));
    assert_eq!(
        prepare(&picture(10, &photo), Dither::Auto, 0).dots,
        prepare(&picture(10, &photo), Dither::On, 0).dots
    );
    assert_eq!(
        prepare(&picture(10, &art), Dither::Auto, 0).dots,
        prepare(&picture(10, &art), Dither::Off, 0).dots
    );
}

#[test]
fn black_and_white_is_printed_dot_for_dot() {
    let dots: Vec<u8> = (0..64u32).map(|i| if i * i % 7 < 3 { 0 } else { 255 }).collect();
    for how in [Dither::Auto, Dither::On, Dither::Off] {
        assert_eq!(prepare(&picture(8, &dots), how, 0).dots, dots);
    }
}

#[test]
fn an_image_is_encoded_as_it_is_printed() {
    let p = picture(8, &[0, 255, 100, 200, 128, 129, 0, 255]);
    let png = finish(&p).unwrap();
    let decoded = image::load_from_memory(&png).unwrap().to_luma8();
    assert_eq!((decoded.width(), decoded.height()), (8, 1));
    assert_eq!(decoded.into_raw(), vec![0, 255, 0, 255, 0, 255, 0, 255]);
    let whole = image::load_from_memory(&encode(&p).unwrap()).unwrap().to_luma8();
    assert_eq!(whole.into_raw(), p.dots);
    assert_eq!(encode(&Picture { width: 0, height: 0, dots: vec![] }), None);
}

//! Colour specification parsing and rendering tests.

use jp2k::colour_specification::ColourSpecificationBox;
use jp2k::colour_specification::ColourSpecificationMethods;
use jp2k::colour_specification::EnumeratedColourSpaces;

fn do_colour_specification_box_parse(input: Vec<u8>) -> ColourSpecificationBox {
    let len = input.len() as u64;
    let decode_result = ColourSpecificationBox::decode(&input, 0, len, 0);
    assert!(decode_result.is_ok());
    decode_result.unwrap().0
}

#[test]
fn parse_enumerated_colourspace() {
    let input: Vec<u8> = vec![0x01, 0x00, 0x00, 0x00, 0x00, 0x00, 0x10];
    let colour_specification_box = do_colour_specification_box_parse(input);
    assert_eq!(
        *colour_specification_box.method(),
        ColourSpecificationMethods::EnumeratedColourSpace {
            code: EnumeratedColourSpaces::sRGB
        }
    );
    assert_eq!(colour_specification_box.colourspace_approximation(), 0);
    assert_eq!(colour_specification_box.precedence(), 0);
}

#[test]
fn parse_enumerated_colourspace_approx() {
    let input: Vec<u8> = vec![0x01, 0x00, 0x01, 0x00, 0x00, 0x00, 0x12];
    let colour_specification_box = do_colour_specification_box_parse(input);
    assert_eq!(
        *colour_specification_box.method(),
        ColourSpecificationMethods::EnumeratedColourSpace {
            code: EnumeratedColourSpaces::sYCC
        }
    );
    assert_eq!(colour_specification_box.colourspace_approximation(), 1);
    assert_eq!(colour_specification_box.precedence(), 0);
}

#[test]
fn parse_restricted_icc_colourspace() {
    let input: Vec<u8> = vec![0x02, 0x03, 0x04, 0x01, 0x02, 0x04, 0xFF];
    let colour_specification_box = do_colour_specification_box_parse(input);
    assert_eq!(
        *colour_specification_box.method(),
        ColourSpecificationMethods::RestrictedICCProfile {
            profile_data: vec![0x01, 0x02, 0x04, 0xFF]
        }
    );
    assert_eq!(colour_specification_box.colourspace_approximation(), 4);
    assert_eq!(colour_specification_box.precedence(), 3);
}

#[test]
fn parse_any_icc_colourspace() {
    let input: Vec<u8> = vec![0x03, 0x00, 0x02, 0x01, 0x02, 0x04, 0xFF];
    let colour_specification_box = do_colour_specification_box_parse(input);
    assert_eq!(
        *colour_specification_box.method(),
        ColourSpecificationMethods::AnyICCProfile {
            profile_data: vec![0x01, 0x02, 0x04, 0xFF]
        }
    );
    assert_eq!(colour_specification_box.colourspace_approximation(), 2);
    assert_eq!(colour_specification_box.precedence(), 0);
}

#[test]
fn parse_parameterized_colourspace() {
    let input: Vec<u8> = vec![0x05, 0x01, 0x02, 0x00, 0x01, 0x00, 0x02, 0x00, 0x03, 0x80];
    let colour_specification_box = do_colour_specification_box_parse(input);
    assert_eq!(
        *colour_specification_box.method(),
        ColourSpecificationMethods::ParameterizedColourspace {
            colour_primaries: 1,
            transfer_characteristics: 2,
            matrix_coefficients: 3,
            video_full_range: true
        }
    );
    assert_eq!(colour_specification_box.colourspace_approximation(), 2);
    assert_eq!(colour_specification_box.precedence(), 1);
}

#[test]
fn test_colourspace_method_format_bilevel() {
    assert_eq!(
        ColourSpecificationMethods::EnumeratedColourSpace {
            code: EnumeratedColourSpaces::BiLevel,
        }
        .description(),
        "Enumerated colourspace: Bi-level"
    );
}

#[test]
fn test_colourspace_method_format_ycbcr1() {
    assert_eq!(
        ColourSpecificationMethods::EnumeratedColourSpace {
            code: EnumeratedColourSpaces::YCbCr1,
        }
        .description(),
        "Enumerated colourspace: YCbCr(1)"
    );
}

#[test]
fn test_colourspace_method_format_ycbcr2() {
    assert_eq!(
        ColourSpecificationMethods::EnumeratedColourSpace {
            code: EnumeratedColourSpaces::YCbCr2,
        }
        .description(),
        "Enumerated colourspace: YCbCr(2)"
    );
}

#[test]
fn test_colourspace_method_format_ycbcr3() {
    assert_eq!(
        ColourSpecificationMethods::EnumeratedColourSpace {
            code: EnumeratedColourSpaces::YCbCr3,
        }
        .description(),
        "Enumerated colourspace: YCbCr(3)"
    );
}

#[test]
fn test_colourspace_method_format_photo_ycc() {
    assert_eq!(
        ColourSpecificationMethods::EnumeratedColourSpace {
            code: EnumeratedColourSpaces::PhotoYCC,
        }
        .description(),
        "Enumerated colourspace: PhotoYCC"
    );
}

#[test]
fn test_colourspace_method_format_cmy() {
    assert_eq!(
        ColourSpecificationMethods::EnumeratedColourSpace {
            code: EnumeratedColourSpaces::CMY,
        }
        .description(),
        "Enumerated colourspace: CMY"
    );
}

#[test]
fn test_colourspace_method_format_cmyk() {
    assert_eq!(
        ColourSpecificationMethods::EnumeratedColourSpace {
            code: EnumeratedColourSpaces::CMYK,
        }
        .description(),
        "Enumerated colourspace: CMYK"
    );
}

#[test]
fn test_colourspace_method_format_ycck() {
    assert_eq!(
        ColourSpecificationMethods::EnumeratedColourSpace {
            code: EnumeratedColourSpaces::YCCK,
        }
        .description(),
        "Enumerated colourspace: YCCK"
    );
}

#[test]
fn test_colourspace_method_format_cielab() {
    assert_eq!(
        ColourSpecificationMethods::EnumeratedColourSpace {
            code: EnumeratedColourSpaces::CIELab {
                rl: 100,
                ol: 0,
                ra: 170,
                oa: 256,
                rb: 200,
                ob: 192,
                il: 0x00443635
            },
        }
        .description(),
        "Enumerated colourspace: CIELab"
    );
}

#[test]
fn test_colourspace_method_format_bilevel2() {
    assert_eq!(
        ColourSpecificationMethods::EnumeratedColourSpace {
            code: EnumeratedColourSpaces::BiLevel2,
        }
        .description(),
        "Enumerated colourspace: Bi-level(2)"
    );
}

#[test]
fn test_colourspace_method_format_srgb() {
    assert_eq!(
        ColourSpecificationMethods::EnumeratedColourSpace {
            code: EnumeratedColourSpaces::sRGB,
        }
        .description(),
        "Enumerated colourspace: sRGB"
    );
}

#[test]
fn test_colourspace_method_format_greyscale() {
    assert_eq!(
        ColourSpecificationMethods::EnumeratedColourSpace {
            code: EnumeratedColourSpaces::Greyscale,
        }
        .description(),
        "Enumerated colourspace: greyscale"
    );
}

#[test]
fn test_colourspace_method_format_sycc() {
    assert_eq!(
        ColourSpecificationMethods::EnumeratedColourSpace {
            code: EnumeratedColourSpaces::sYCC,
        }
        .description(),
        "Enumerated colourspace: sYCC"
    );
}

#[test]
fn test_colourspace_method_format_ciejab() {
    assert_eq!(
        ColourSpecificationMethods::EnumeratedColourSpace {
            code: EnumeratedColourSpaces::CIEJab {
                rj: 100,
                oj: 0,
                ra: 255,
                oa: 192,
                rb: 255,
                ob: 128
            },
        }
        .description(),
        "Enumerated colourspace: CIEJab"
    );
}

#[test]
fn test_colourspace_method_format_esrgb() {
    assert_eq!(
        ColourSpecificationMethods::EnumeratedColourSpace {
            code: EnumeratedColourSpaces::esRGB,
        }
        .description(),
        "Enumerated colourspace: e-sRGB"
    );
}

#[test]
fn test_colourspace_method_format_romm_rgb() {
    assert_eq!(
        ColourSpecificationMethods::EnumeratedColourSpace {
            code: EnumeratedColourSpaces::ROMMRGB,
        }
        .description(),
        "Enumerated colourspace: ROMM-RGB"
    );
}

#[test]
fn test_colourspace_method_format_ybpbr_1125_60() {
    assert_eq!(
        ColourSpecificationMethods::EnumeratedColourSpace {
            code: EnumeratedColourSpaces::YPbPr112560,
        }
        .description(),
        "Enumerated colourspace: YPbPr(1125/60)"
    );
}

#[test]
fn test_colourspace_method_format_ybpbr_1250_50() {
    assert_eq!(
        ColourSpecificationMethods::EnumeratedColourSpace {
            code: EnumeratedColourSpaces::YPbPr125050,
        }
        .description(),
        "Enumerated colourspace: YPbPr(1250/50)"
    );
}

#[test]
fn test_colourspace_method_format_e_sycc() {
    assert_eq!(
        ColourSpecificationMethods::EnumeratedColourSpace {
            code: EnumeratedColourSpaces::esYCC,
        }
        .description(),
        "Enumerated colourspace: e-sYCC"
    );
}

#[test]
fn test_colourspace_method_format_scrgb() {
    assert_eq!(
        ColourSpecificationMethods::EnumeratedColourSpace {
            code: EnumeratedColourSpaces::scRGB,
        }
        .description(),
        "Enumerated colourspace: scRGB"
    );
}

#[test]
fn test_colourspace_method_format_scrgb_gray_scale() {
    assert_eq!(
        ColourSpecificationMethods::EnumeratedColourSpace {
            code: EnumeratedColourSpaces::scRGBGrayScale,
        }
        .description(),
        "Enumerated colourspace: scRGB gray scale"
    );
}

#[test]
fn test_colourspace_method_format_restricted_icc() {
    assert_eq!(
        ColourSpecificationMethods::RestrictedICCProfile {
            // Not actually valid ICC data
            profile_data: vec![0, 0, 1, 3, 3]
        }
        .description(),
        "Restricted ICC Profile"
    );
}

#[test]
fn test_colourspace_method_format_any_icc() {
    assert_eq!(
        ColourSpecificationMethods::AnyICCProfile {
            // Not actually valid ICC data
            profile_data: vec![2, 3]
        }
        .description(),
        "\"Any\" ICC Profile"
    );
}

#[test]
fn test_colourspace_method_format_parameterized() {
    assert_eq!(
        ColourSpecificationMethods::ParameterizedColourspace {
            colour_primaries: 1,
            transfer_characteristics: 17,
            matrix_coefficients: 10,
            video_full_range: true
        }
        .description(),
        "Parameterized colourspace, colour primaries: 1, transfer characteristics: 17, matrix coefficients: 10, video full range: true"
    );
}

#[test]
fn methdat_round_trips_the_enumerated_code() {
    let m = ColourSpecificationMethods::EnumeratedColourSpace {
        code: EnumeratedColourSpaces::sRGB,
    };
    assert_eq!(m.encoded_meth(), 1);
    assert_eq!(m.encoded_methdat(), vec![0, 0, 0, 16]);
}

//! Transform tests: the 5-3 lifting filter, the two-dimensional
//! procedures, and the sample array.

use jp2k::dwt::Array2D;
use jp2k::dwt::DwtProcessor;
use jp2k::dwt::FilterType;
use jp2k::dwt::SubBandType;
use jp2k::dwt::dwt_53_forward;
use jp2k::dwt::dwt_53_inverse;
use jp2k::dwt::ALPHA_NUMERATOR;
use jp2k::dwt::BETA_NUMERATOR;
use jp2k::dwt::DELTA_NUMERATOR;
use jp2k::dwt::GAMMA_NUMERATOR;
use jp2k::dwt::K_NUMERATOR;
use jp2k::dwt::LIFT_SCALE;

fn arrays_eq(a: &Array2D<i64>, b: &Array2D<i64>) -> bool {
    if a.width() != b.width() || a.height() != b.height() {
        return false;
    }
    for row in 0..a.height() {
        for col in 0..a.width() {
            if *a.get(col as i32 + a.u0, row as i32 + a.v0)
                != *b.get(col as i32 + b.u0, row as i32 + b.v0)
            {
                return false;
            }
        }
    }
    true
}

#[test]
fn test_array2d_creation() {
    let arr: Array2D<f64> = Array2D::new(4, 3);
    assert_eq!(arr.width(), 4);
    assert_eq!(arr.height(), 3);
    assert_eq!(*arr.get(0, 0), 0.0);
}

#[test]
fn test_array2d_with_offset() {
    let arr: Array2D<f64> = Array2D::with_offset(4, 3, 10, 20);
    assert_eq!(arr.u0, 10);
    assert_eq!(arr.v0, 20);
    assert_eq!(arr.u1(), 14);
    assert_eq!(arr.v1(), 23);
}

#[test]
fn test_array2d_row_column_ops() {
    let data: Vec<f64> = (0..12).map(|x| x as f64).collect();
    let mut arr = Array2D::from_data(data, 4, 3);

    let row = arr.get_row(1);
    assert_eq!(row, vec![4.0, 5.0, 6.0, 7.0]);

    let col = arr.get_column(2);
    assert_eq!(col, vec![2.0, 6.0, 10.0]);

    arr.set_row(0, &vec![10.0, 11.0, 12.0, 13.0]);
    assert_eq!(*arr.get(0, 0), 10.0);

    arr.set_column(0, &vec![20.0, 21.0, 22.0]);
    assert_eq!(*arr.get(0, 2), 22.0);
}

#[test]
fn test_filter_type_enum() {
    let ft1 = FilterType::Reversible53;
    let ft2 = FilterType::Irreversible97;
    assert_ne!(ft1, ft2);
}

#[test]
fn test_subband_type_enum() {
    let sbt = SubBandType::LL;
    assert_eq!(sbt, SubBandType::LL);
}

#[test]
fn test_lifting_parameters() {
    let alpha = ALPHA_NUMERATOR as f64 / LIFT_SCALE as f64;
    let beta = BETA_NUMERATOR as f64 / LIFT_SCALE as f64;
    let gamma = GAMMA_NUMERATOR as f64 / LIFT_SCALE as f64;
    let delta = DELTA_NUMERATOR as f64 / LIFT_SCALE as f64;
    let k = K_NUMERATOR as f64 / LIFT_SCALE as f64;
    assert!(alpha < 0.0);
    assert!(beta < 0.0);
    assert!(gamma > 0.0);
    assert!(delta > 0.0);
    assert!(k > 1.0);
}

#[test]
fn test_decode_1d_53() {
    // The worked one-dimensional example of the standard: signed
    // coefficients against the level-shifted samples.
    let processor = DwtProcessor::new(FilterType::Reversible53);
    let exp_transformed: Vec<i64> = vec![-26, 1, -22, 5, -30, 1, -32, 0, -19];
    let samples: Vec<i64> = vec![101, 103, 104, 105, 96, 97, 96, 102, 109];
    let signal: Vec<i64> = samples.iter().map(|v| v - 128).collect();

    let transformed = processor.subband_decompose_1d(&signal, 0);
    assert_eq!(transformed, exp_transformed);
    let reconstructed = processor.subband_reconstruct_1d(&transformed, 0);
    assert_eq!(reconstructed, signal);
}

#[test]
fn inverse_1d_53_reconstructs_the_standard_example() {
    // Reconstruction alone: the coefficients of the worked example produce
    // the 8-bit samples after the +128 level shift.
    let processor = DwtProcessor::new(FilterType::Reversible53);
    let coeffs: Vec<i64> = vec![-26, 1, -22, 5, -30, 1, -32, 0, -19];
    let reconstructed = processor.subband_reconstruct_1d(&coeffs, 0);
    let samples: Vec<i64> = reconstructed.iter().map(|v| v + 128).collect();
    assert_eq!(samples, vec![101, 103, 104, 105, 96, 97, 96, 102, 109]);
}

#[test]
fn test_1d_roundtrip_53_simple() {
    let processor = DwtProcessor::new(FilterType::Reversible53);
    let signal: Vec<i64> = vec![1, 2, 3, 4, 5, 6, 7, 8];

    let transformed = processor.subband_decompose_1d(&signal, 0);
    let reconstructed = processor.subband_reconstruct_1d(&transformed, 0);

    assert_eq!(reconstructed, signal);
}

#[test]
fn test_1d_decompose_53_energy_preservation() {
    let processor = DwtProcessor::new(FilterType::Reversible53);
    let signal: Vec<i64> = vec![1, 2, 3, 4];

    let transformed = processor.subband_decompose_1d(&signal, 0);

    // Check that we got a result of the same length
    assert_eq!(transformed.len(), signal.len());
}

#[test]
fn test_2d_deinterleave_interleave_roundtrip() {
    let processor = DwtProcessor::new(FilterType::Reversible53);

    let data: Vec<i64> = (0..16).collect();
    let original = Array2D::from_data(data, 4, 4);

    let subbands = processor.deinterleave_2d(&original);
    let reconstructed = processor.interleave_2d(&subbands);

    assert!(arrays_eq(&original, &reconstructed));
}

#[test]
fn test_2d_roundtrip_53() {
    let processor = DwtProcessor::new(FilterType::Reversible53);

    let data: Vec<i64> = (0..64).collect();
    let original = Array2D::from_data(data, 8, 8);

    let subbands = processor.subband_decompose_2d(&original);
    let reconstructed = processor.subband_reconstruct_2d(&subbands);

    assert!(arrays_eq(&original, &reconstructed));
}

#[test]
fn test_multi_level_dwt_53() {
    let processor = DwtProcessor::new(FilterType::Reversible53);

    let data: Vec<i64> = (0..256).collect();
    let original = Array2D::from_data(data, 16, 16);

    let subbands = processor.fdwt(&original, 2);
    assert_eq!(subbands.len(), 2);

    // Check sub-band dimensions per level
    assert_eq!(subbands[0].ll.width(), 8);
    assert_eq!(subbands[0].ll.height(), 8);
    assert_eq!(subbands[1].ll.width(), 4);
    assert_eq!(subbands[1].ll.height(), 4);

    let reconstructed = processor.idwt(&subbands, 2);
    assert_eq!(reconstructed.width(), original.width());
    assert_eq!(reconstructed.height(), original.height());
    assert!(arrays_eq(&original, &reconstructed));
}

#[test]
fn test_convenience_functions() {
    let data: Vec<i64> = (0..64).collect();
    let input = Array2D::from_data(data, 8, 8);

    let subbands_53 = dwt_53_forward(&input, 1);
    let result_53 = dwt_53_inverse(&subbands_53, 1);
    assert!(arrays_eq(&input, &result_53));
}

#[test]
fn test_round_trip_function() {
    let processor = DwtProcessor::new(FilterType::Reversible53);

    let data: Vec<i64> = (0..64).collect();
    let input = Array2D::from_data(data, 8, 8);

    let result = processor.round_trip(&input, 2);
    assert!(arrays_eq(&input, &result));
}

#[test]
fn test_single_element_signal() {
    let processor_53 = DwtProcessor::new(FilterType::Reversible53);

    let signal: Vec<i64> = vec![42];

    // Even start: the decomposition and the reconstruction are both the
    // identity on a single sample.
    let t53 = processor_53.subband_decompose_1d(&signal, 0);
    assert_eq!(t53, vec![42]);
    let r53 = processor_53.subband_reconstruct_1d(&t53, 0);
    assert_eq!(r53, vec![42]);
}

#[test]
fn length_one_signal_doubles_at_odd_start() {
    // Odd start: the single sample is a high-pass position, doubled on
    // decomposition and halved on reconstruction.
    let processor = DwtProcessor::new(FilterType::Reversible53);
    let signal: Vec<i64> = vec![21];
    let t = processor.subband_decompose_1d(&signal, 1);
    assert_eq!(t, vec![42]);
    let r = processor.subband_reconstruct_1d(&t, 1);
    assert_eq!(r, vec![21]);
}

#[test]
fn one_by_one_tile_reconstructs_to_its_sample() {
    // A 1x1 tile-component: the inverse transform returns the single
    // sample unchanged.
    let processor = DwtProcessor::new(FilterType::Reversible53);
    let original = Array2D::from_data(vec![7i64], 1, 1);
    let result = processor.round_trip(&original, 1);
    assert_eq!(result.width(), 1);
    assert_eq!(result.height(), 1);
    assert_eq!(*result.get(0, 0), 7);
}

#[test]
fn test_small_signals() {
    let processor = DwtProcessor::new(FilterType::Reversible53);

    // Length 2
    let signal2: Vec<i64> = vec![1, 2];
    let t2 = processor.subband_decompose_1d(&signal2, 0);
    let r2 = processor.subband_reconstruct_1d(&t2, 0);
    assert_eq!(r2, signal2);

    // Length 3
    let signal3: Vec<i64> = vec![1, 2, 3];
    let t3 = processor.subband_decompose_1d(&signal3, 0);
    let r3 = processor.subband_reconstruct_1d(&t3, 0);
    assert_eq!(r3, signal3);
}

#[test]
fn test_dc_signal() {
    let processor = DwtProcessor::new(FilterType::Reversible53);

    // DC signal (all same value): high-pass coefficients vanish and the
    // constant round-trips exactly.
    let signal: Vec<i64> = vec![5; 8];
    let transformed = processor.subband_decompose_1d(&signal, 0);
    assert_eq!(transformed, vec![5, 0, 5, 0, 5, 0, 5, 0]);
    let reconstructed = processor.subband_reconstruct_1d(&transformed, 0);
    assert_eq!(reconstructed, signal);
}

#[test]
fn test_subband_dimensions() {
    let processor = DwtProcessor::new(FilterType::Reversible53);

    // 7x5 input (odd dimensions): the subband dimensions follow the
    // ceiling rule, and together they partition the samples.
    let data: Vec<i64> = (0..35).collect();
    let input = Array2D::from_data(data, 7, 5);

    let subbands = processor.subband_decompose_2d(&input);

    assert_eq!(subbands.ll.width(), 4);
    assert_eq!(subbands.ll.height(), 3);
    assert_eq!(subbands.hl.width(), 3);
    assert_eq!(subbands.hl.height(), 3);
    assert_eq!(subbands.lh.width(), 4);
    assert_eq!(subbands.lh.height(), 2);
    assert_eq!(subbands.hh.width(), 3);
    assert_eq!(subbands.hh.height(), 2);
    let total = subbands.ll.width() * subbands.ll.height()
        + subbands.hl.width() * subbands.hl.height()
        + subbands.lh.width() * subbands.lh.height()
        + subbands.hh.width() * subbands.hh.height();
    assert_eq!(total, 35);

    // Verify round-trip
    let reconstructed = processor.subband_reconstruct_2d(&subbands);
    assert_eq!(reconstructed.width(), input.width());
    assert_eq!(reconstructed.height(), input.height());
    assert!(arrays_eq(&input, &reconstructed));
}

#[test]
fn test_non_zero_offset() {
    let processor = DwtProcessor::new(FilterType::Reversible53);

    let data: Vec<i64> = (0..64).collect();
    let mut input = Array2D::from_data(data, 8, 8);
    input.u0 = 0;
    input.v0 = 0;

    let result = processor.round_trip(&input, 1);
    assert!(arrays_eq(&input, &result));
}

#[test]
fn test_extend_signal() {
    // Boundary handling via symmetric extension round-trips exactly.
    let processor = DwtProcessor::new(FilterType::Reversible53);

    let signal: Vec<i64> = vec![1, 2, 3, 4];
    let transformed = processor.subband_decompose_1d(&signal, 0);
    let reconstructed = processor.subband_reconstruct_1d(&transformed, 0);
    assert_eq!(reconstructed, signal);
}

#[test]
fn test_pse_basic() {
    // Boundary mirroring on an odd-length signal.
    let processor = DwtProcessor::new(FilterType::Reversible53);

    let signal: Vec<i64> = vec![10, 20, 30, 40, 50];
    let transformed = processor.subband_decompose_1d(&signal, 0);
    let reconstructed = processor.subband_reconstruct_1d(&transformed, 0);
    assert_eq!(reconstructed, signal);
}

fn ramp_13x17() -> Array2D<i64> {
    let sample_data: Vec<Vec<i64>> = vec![
        vec![0, 1, 2, 3, 4, 5, 6, 7, 8, 9, 10, 11, 12],
        vec![1, 1, 2, 3, 4, 5, 6, 7, 8, 9, 10, 11, 12],
        vec![2, 2, 2, 3, 4, 5, 6, 7, 8, 9, 10, 11, 12],
        vec![3, 3, 3, 4, 5, 5, 6, 7, 8, 9, 10, 11, 12],
        vec![4, 4, 4, 5, 5, 6, 7, 8, 8, 9, 10, 11, 12],
        vec![5, 5, 5, 5, 6, 7, 7, 8, 9, 10, 11, 12, 13],
        vec![6, 6, 6, 6, 7, 7, 8, 9, 10, 10, 11, 12, 13],
        vec![7, 7, 7, 7, 8, 8, 9, 9, 10, 11, 12, 13, 13],
        vec![8, 8, 8, 8, 8, 9, 10, 10, 11, 12, 12, 13, 14],
        vec![9, 9, 9, 9, 9, 10, 10, 11, 12, 12, 13, 14, 15],
        vec![10, 10, 10, 10, 10, 11, 11, 12, 12, 13, 14, 14, 15],
        vec![11, 11, 11, 11, 11, 12, 12, 13, 13, 14, 14, 15, 16],
        vec![12, 12, 12, 12, 12, 13, 13, 13, 14, 15, 15, 16, 16],
        vec![13, 13, 13, 13, 13, 13, 14, 14, 15, 15, 16, 17, 17],
        vec![14, 14, 14, 14, 14, 14, 15, 15, 16, 16, 17, 17, 18],
        vec![15, 15, 15, 15, 15, 15, 16, 16, 17, 17, 18, 18, 19],
        vec![16, 16, 16, 16, 16, 16, 17, 17, 17, 18, 18, 19, 20],
    ];
    let mut data = Vec::with_capacity(13 * 17);
    for row in &sample_data {
        for &val in row {
            data.push(val);
        }
    }
    Array2D::from_data(data, 13, 17)
}

fn flatten(a: &Array2D<i64>) -> Vec<i64> {
    let mut out = Vec::new();
    for row in 0..a.height() {
        for col in 0..a.width() {
            out.push(*a.get(col as i32 + a.u0, row as i32 + a.v0));
        }
    }
    out
}

#[test]
fn test_spec_example_data_53() {
    // The 13x17 ramp image of the standard's worked example: two-level
    // decomposition dimensions and contents, and an exact round trip.
    let original = ramp_13x17();

    let processor_53 = DwtProcessor::new(FilterType::Reversible53);
    let sub_bands = processor_53.fdwt(&original, 2);

    assert_eq!(sub_bands.len(), 2, "expected 2 sub_bands");
    let sb1 = &sub_bands[0];
    assert_eq!(sb1.hh.width(), 6);
    assert_eq!(sb1.hh.height(), 8);
    assert_eq!(sb1.lh.width(), 7);
    assert_eq!(sb1.lh.height(), 8);
    assert_eq!(sb1.hl.width(), 6);
    assert_eq!(sb1.hl.height(), 9);
    let sb2 = &sub_bands[1];
    assert_eq!(sb2.hh.width(), 3);
    assert_eq!(sb2.hh.height(), 4);
    assert_eq!(sb2.lh.width(), 4);
    assert_eq!(sb2.lh.height(), 4);
    assert_eq!(sb2.hl.width(), 3);
    assert_eq!(sb2.hl.height(), 5);
    assert_eq!(sb2.ll.width(), 4);
    assert_eq!(sb2.ll.height(), 5);

    assert_eq!(
        flatten(&sb2.ll),
        vec![0, 4, 8, 12, 4, 5, 8, 12, 8, 8, 11, 15, 12, 12, 14, 18, 16, 16, 18, 20,]
    );
    assert_eq!(
        flatten(&sb2.ll)[0..4],
        [0, 4, 8, 12],
        "first row of the deepest low-pass band"
    );
    assert_eq!(
        flatten(&sb2.hl),
        vec![0, 0, 0, 0, 1, 0, 0, 1, 0, 0, 0, 1, 0, 0, 0]
    );
    assert_eq!(
        flatten(&sb2.lh),
        vec![0, 0, 0, 0, 0, 1, 1, 1, 0, 0, 0, 0, 0, 0, 0, 0]
    );
    assert_eq!(flatten(&sb2.hh), vec![-1, 0, 0, 0, -1, 0, 0, 1, 0, 0, 0, 0]);

    assert_eq!(
        flatten(&sb1.hl),
        vec![
            0, 0, 0, 0, 0, 0, 0, 0, 0, 0, 0, 0, 0, 1, 0, 1, 0, 0, 0, 0, 0, 0, -1, 1, 0, 0, 0, 0,
            1, 1, 0, 0, 1, 1, 0, -1, 0, 0, 1, 0, 1, 1, 0, 0, 0, 0, 0, 0, 0, 0, 0, 0, 0, 0,
        ]
    );
    assert_eq!(
        flatten(&sb1.lh),
        vec![
            0, 0, 0, 0, 0, 0, 0, 0, 0, 1, 0, 0, 0, 0, 0, 0, 0, 0, 0, 1, 1, 0, 0, 1, 0, 0, 1, 1,
            0, 0, 0, 0, 1, 0, 2, 0, 0, 0, 0, 0, 0, 1, 0, 0, 0, 0, 0, 0, 1, 0, 0, 0, 0, 1, 1, 0,
        ]
    );
    assert_eq!(
        flatten(&sb1.hh),
        vec![
            0, 0, 0, 0, 0, 0, 0, 0, 0, 0, 0, 0, 0, 0, 1, 0, 1, 0, 0, 0, 0, 0, 0, 1, 0, 0, 0, 0,
            0, 1, 0, 0, 0, 1, 0, 0, 0, 0, 0, 0, 0, 1, 0, 0, 0, 0, -1, 0,
        ]
    );

    // Round trip
    let result_53 = processor_53.round_trip(&original, 2);
    assert!(arrays_eq(&original, &result_53));
}

#[test]
fn constant_image_round_trips_exactly() {
    // DC preservation: a constant tile-component reconstructs to the same
    // constant after a two-level transform.
    let processor = DwtProcessor::new(FilterType::Reversible53);
    let data: Vec<i64> = vec![9; 12 * 10];
    let input = Array2D::from_data(data, 12, 10);
    let result = processor.round_trip(&input, 2);
    for row in 0..10 {
        for col in 0..12 {
            assert_eq!(*result.get(col, row), 9);
        }
    }
}

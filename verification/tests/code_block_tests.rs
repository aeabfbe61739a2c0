//! Bit-plane coder tests: a scripted decision source against the
//! standard's worked code-block trace, and the real arithmetic decoder
//! against the same code-block's byte segment.

use jp2k::code_block::CodeBlockDecoder;
use jp2k::code_block::SubBand;
use jp2k::coder::Decoder;
use jp2k::coder::MqDecoder;

struct MockCoder {
    exp: Vec<(usize, u8)>,
    index: usize,
}

impl Decoder for MockCoder {
    fn decode_bit(&mut self, cx: usize) -> u8 {
        let (exp_cx, out) = self.exp[self.index];
        self.index += 1;
        assert_eq!(exp_cx, cx, "incorrect cx during decode");
        out
    }
}

/// The standard's worked code-block of the high-pass band: 1x4, ten
/// bit-planes of which seven are zero, seven coding passes. The scripted
/// decisions pin down the context sequence; the coefficients come out as
/// (1, 5, 1, 0).
#[test]
fn test_cb_decode_j10b_mocked() {
    let mut coder = MockCoder {
        exp: vec![
            (17, 1),
            (18, 0),
            (18, 1),
            (9, 0),
            (3, 0),
            (0, 0),
            (3, 0),
            (3, 0),
            (14, 0),
            (0, 0),
            (3, 1),
            (10, 0),
            (3, 1),
            (10, 0),
            (3, 0),
            (16, 1),
        ],
        index: 0,
    };
    // There are 7 coding passes in this example
    let mut codeblock = CodeBlockDecoder::new(1, 4, SubBand::LH, 7, 10);
    codeblock.num_zero_bit_plane(7);
    // 10 - 7 = 3 bits to set => 7 coding passes

    assert!(
        codeblock.decode(&mut coder).is_ok(),
        "Expected decode to work"
    );
    assert_eq!(
        coder.exp.len(),
        coder.index,
        "Expected all mock data to be used"
    );

    let coeffs = codeblock.coefficients();
    let exp_coeffs = vec![1, 5, 1, 0];
    assert_eq!(coeffs, exp_coeffs, "Coefficients didn't match");
}

/// The standard's worked code-block of the deepest low-pass band: 1x5,
/// nine bit-planes of which three are zero, sixteen coding passes.
#[test]
fn test_cb_decode_j10a_mocked() {
    let mut coder = MockCoder {
        exp: vec![
            (17, 1),
            (18, 1),
            (18, 1),
            (9, 1),
            (3, 0),
            (3, 1),
            (10, 0),
            (3, 1),
            (10, 0),
            (15, 0),
            (0, 1),
            (9, 1),
            (4, 1),
            (10, 0),
            // Refinement phase
            (15, 1),
            (15, 0),
            (15, 1),
            (16, 0),
            (15, 0),
            // next bit-plane
            (16, 0),
            (16, 1),
            (16, 1),
            (16, 0),
            (16, 0),
            // next bit-plane
            (16, 1),
            (16, 1),
            (16, 1),
            (16, 0),
            (16, 1),
            // last bit-plane
            (16, 0),
            (16, 0),
            (16, 0),
            (16, 0),
            (16, 1),
        ],
        index: 0,
    };
    // There are 16 coding passes in this example
    let mut codeblock = CodeBlockDecoder::new(1, 5, SubBand::LL, 16, 9);
    codeblock.num_zero_bit_plane(3);
    // 9 - 3 = 6 bits to set => 16 coding passes

    assert!(
        codeblock.decode(&mut coder).is_ok(),
        "Expected decode to work"
    );
    assert_eq!(
        coder.exp.len(),
        coder.index,
        "Expected all mock data to be used"
    );

    let coeffs = codeblock.coefficients();
    let exp_coeffs = vec![-26, -22, -30, -32, -19];
    assert_eq!(coeffs, exp_coeffs, "Coefficients didn't match");
}

/// The same code-block decoded from its real compressed byte segment
/// through the arithmetic decoder.
#[test]
fn mq_decodes_the_standard_code_block() {
    let mut coder = MqDecoder::new(vec![0x0F, 0xB1, 0x76]);
    let mut codeblock = CodeBlockDecoder::new(1, 4, SubBand::LH, 7, 10);
    codeblock.num_zero_bit_plane(7);
    assert!(codeblock.decode(&mut coder).is_ok());
    assert_eq!(codeblock.coefficients(), vec![1, 5, 1, 0]);
}

/// The low-pass worked code-block decoded from its real compressed byte
/// segment through the arithmetic decoder.
#[test]
fn mq_decodes_the_low_pass_code_block() {
    let mut coder = MqDecoder::new(vec![0x01, 0x8F, 0x0D, 0xC8, 0x75, 0x5D]);
    let mut codeblock = CodeBlockDecoder::new(1, 5, SubBand::LL, 16, 9);
    codeblock.num_zero_bit_plane(3);
    assert!(codeblock.decode(&mut coder).is_ok());
    assert_eq!(codeblock.coefficients(), vec![-26, -22, -30, -32, -19]);
}

/// Decoding the same byte segment twice yields the same bit sequence.
#[test]
fn mq_decoding_is_deterministic() {
    let contexts = [17usize, 18, 18, 9, 3, 0, 3, 3, 14, 0, 3, 10, 3, 10, 3, 16];
    let mut a = MqDecoder::new(vec![0x0F, 0xB1, 0x76]);
    let mut b = MqDecoder::new(vec![0x0F, 0xB1, 0x76]);
    for &cx in contexts.iter() {
        assert_eq!(a.decode_bit(cx), b.decode_bit(cx));
    }
}

/// An empty byte segment still yields decisions: the decoder behaves as if
/// an endless run of stuffed bytes followed.
#[test]
fn mq_decodes_from_an_empty_segment() {
    let mut coder = MqDecoder::new(vec![]);
    for cx in 0..19usize {
        let b = coder.decode_bit(cx);
        assert!(b <= 1);
    }
}

/// A coefficient that never sees a 1-bit stays insignificant and reads as
/// zero.
#[test]
fn all_zero_decisions_leave_the_block_empty() {
    struct Zeros;

    impl Decoder for Zeros {
        fn decode_bit(&mut self, _cx: usize) -> u8 {
            0
        }
    }

    let mut coder = Zeros;
    let mut codeblock = CodeBlockDecoder::new(2, 2, SubBand::HH, 4, 3);
    assert!(codeblock.decode(&mut coder).is_ok());
    assert_eq!(codeblock.coefficients(), vec![0, 0, 0, 0]);
}

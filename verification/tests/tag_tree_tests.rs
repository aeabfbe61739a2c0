//! Tag-tree decoding tests, including the worked examples of the
//! standard's packet-header annex.

use jp2k::bit_reader::BitReader;
use jp2k::shared::I2;
use jp2k::tag_tree::InclusionTagTree;
use jp2k::tag_tree::TagTreeDecoder;
use jp2k::tag_tree::ZeroPlaneTagTree;

#[test]
fn test_oner() {
    // A one-leaf tree: the first read consumes three bits and yields 2.
    let mut tt = TagTreeDecoder::new(1, 1);
    assert_eq!(0, tt.max_depth);
    let mut bits_read_exp = 0;
    let mut br = BitReader::new(vec![0b0010_0000]).unwrap();

    assert_eq!(2, tt.read(I2 { x: 0, y: 0 }, &mut br).unwrap());
    bits_read_exp += 3;
    assert_eq!(bits_read_exp, br.bits_read());
}

/// A two-level tree over a 2x2 array: reads in raster order consume
/// (3, 1, 2, 2) bits and yield the values (1, 1, 2, 2).
#[test]
fn test_two_level() {
    let mut tt = TagTreeDecoder::new(2, 2);
    assert_eq!(1, tt.max_depth);

    let mut bits_read_exp = 0;
    let mut br = BitReader::new(vec![0b0111_0101]).unwrap();

    assert_eq!(1, tt.read(I2 { x: 0, y: 0 }, &mut br).unwrap());
    bits_read_exp += 3;
    assert_eq!(bits_read_exp, br.bits_read());
    assert_eq!(1, tt.read(I2 { x: 1, y: 0 }, &mut br).unwrap());
    bits_read_exp += 1;
    assert_eq!(bits_read_exp, br.bits_read());
    assert_eq!(2, tt.read(I2 { x: 0, y: 1 }, &mut br).unwrap());
    bits_read_exp += 2;
    assert_eq!(bits_read_exp, br.bits_read());
    assert_eq!(2, tt.read(I2 { x: 1, y: 1 }, &mut br).unwrap());
    bits_read_exp += 2;
    assert_eq!(bits_read_exp, br.bits_read());
}

/// The worked 6x3 example of the standard's tag-tree description.
#[test]
fn test_given_example() {
    let mut tt = TagTreeDecoder::new(6, 3);

    let mut bits_read_exp = 0;
    let mut br = BitReader::new(vec![
        0b0111_1001,
        0b1010_0110,
        0b1101_0101,
        0b1000_1011,
        0b0111_0111,
        0b1101_0000,
    ])
    .unwrap();

    assert_eq!(3, tt.max_depth);

    assert_eq!(1, tt.read(I2 { x: 0, y: 0 }, &mut br).unwrap());
    bits_read_exp += 5;
    assert_eq!(bits_read_exp, br.bits_read());
    assert_eq!(3, tt.read(I2 { x: 1, y: 0 }, &mut br).unwrap());
    bits_read_exp += 3;
    assert_eq!(bits_read_exp, br.bits_read());
    assert_eq!(2, tt.read(I2 { x: 2, y: 0 }, &mut br).unwrap());
    bits_read_exp += 3;
    assert_eq!(bits_read_exp, br.bits_read());
    assert_eq!(3, tt.read(I2 { x: 3, y: 0 }, &mut br).unwrap());
    bits_read_exp += 3;
    assert_eq!(bits_read_exp, br.bits_read());
    assert_eq!(2, tt.read(I2 { x: 4, y: 0 }, &mut br).unwrap());
    bits_read_exp += 4;
    assert_eq!(bits_read_exp, br.bits_read());
    assert_eq!(3, tt.read(I2 { x: 5, y: 0 }, &mut br).unwrap());
    bits_read_exp += 2;
    assert_eq!(bits_read_exp, br.bits_read());

    // Next row
    assert_eq!(2, tt.read(I2 { x: 0, y: 1 }, &mut br).unwrap());
    bits_read_exp += 2;
    assert_eq!(bits_read_exp, br.bits_read());
    assert_eq!(2, tt.read(I2 { x: 1, y: 1 }, &mut br).unwrap());
    bits_read_exp += 2;
    assert_eq!(bits_read_exp, br.bits_read());
    assert_eq!(1, tt.read(I2 { x: 2, y: 1 }, &mut br).unwrap());
    bits_read_exp += 1;
    assert_eq!(bits_read_exp, br.bits_read());
    assert_eq!(4, tt.read(I2 { x: 3, y: 1 }, &mut br).unwrap());
    bits_read_exp += 4;
    assert_eq!(bits_read_exp, br.bits_read());
    assert_eq!(3, tt.read(I2 { x: 4, y: 1 }, &mut br).unwrap());
    bits_read_exp += 2;
    assert_eq!(bits_read_exp, br.bits_read());
    assert_eq!(2, tt.read(I2 { x: 5, y: 1 }, &mut br).unwrap());
    bits_read_exp += 1;
    assert_eq!(bits_read_exp, br.bits_read());

    // Next row
    assert_eq!(2, tt.read(I2 { x: 0, y: 2 }, &mut br).unwrap());
    bits_read_exp += 3;
    assert_eq!(bits_read_exp, br.bits_read());
    assert_eq!(2, tt.read(I2 { x: 1, y: 2 }, &mut br).unwrap());
    bits_read_exp += 1;
    assert_eq!(bits_read_exp, br.bits_read());
    assert_eq!(2, tt.read(I2 { x: 2, y: 2 }, &mut br).unwrap());
    bits_read_exp += 3;
    assert_eq!(bits_read_exp, br.bits_read());
    assert_eq!(2, tt.read(I2 { x: 3, y: 2 }, &mut br).unwrap());
    bits_read_exp += 1;
    assert_eq!(bits_read_exp, br.bits_read());
    assert_eq!(1, tt.read(I2 { x: 4, y: 2 }, &mut br).unwrap());
    bits_read_exp += 2;
    assert_eq!(bits_read_exp, br.bits_read());
    assert_eq!(2, tt.read(I2 { x: 5, y: 2 }, &mut br).unwrap());
    bits_read_exp += 2;
    assert_eq!(bits_read_exp, br.bits_read());
}

/// Inclusion decoding over two packets of a 3x2 code-block grid.
#[test]
fn test_packet_cb_inclusion() {
    let mut incl_tree = InclusionTagTree::new(3, 2);

    let mut bits_read_exp = 0;
    let mut br = BitReader::new(vec![0b1111_0001, 0b0011_0000]).unwrap();

    {
        let cb00 = I2 { x: 0, y: 0 };
        let included = incl_tree.query_inclusion(cb00, 0);
        assert!(!included);
        assert_eq!(bits_read_exp, br.bits_read());

        let to_include = incl_tree.read_for_inclusion(cb00, 0, &mut br).unwrap();
        assert!(to_include, "expected to include value");
        bits_read_exp += 3;
        assert_eq!(bits_read_exp, br.bits_read());
    }
    {
        let cb10 = I2 { x: 1, y: 0 };
        let included = incl_tree.query_inclusion(cb10, 0);
        assert!(!included);

        let to_include = incl_tree.read_for_inclusion(cb10, 0, &mut br).unwrap();
        assert!(to_include, "expected to include value");
        bits_read_exp += 1;
        assert_eq!(bits_read_exp, br.bits_read());
    }
    {
        let cb20 = I2 { x: 2, y: 0 };
        let included = incl_tree.query_inclusion(cb20, 0);
        assert!(!included);

        let to_include = incl_tree.read_for_inclusion(cb20, 0, &mut br).unwrap();
        assert!(!to_include, "!expected to include value");
        bits_read_exp += 1;
        assert_eq!(bits_read_exp, br.bits_read());
    }
    {
        let cb01 = I2 { x: 0, y: 1 };
        let included = incl_tree.query_inclusion(cb01, 0);
        assert!(!included);

        let to_include = incl_tree.read_for_inclusion(cb01, 0, &mut br).unwrap();
        assert!(!to_include, "!expected to include value");
        bits_read_exp += 1;
        assert_eq!(bits_read_exp, br.bits_read());
    }
    {
        let cb11 = I2 { x: 1, y: 1 };
        let included = incl_tree.query_inclusion(cb11, 0);
        assert!(!included);

        let to_include = incl_tree.read_for_inclusion(cb11, 0, &mut br).unwrap();
        assert!(!to_include, "!expected to include value");
        bits_read_exp += 1;
        assert_eq!(bits_read_exp, br.bits_read());
    }
    {
        let cb21 = I2 { x: 2, y: 1 };
        let included = incl_tree.query_inclusion(cb21, 0);
        assert!(!included);

        let to_include = incl_tree.read_for_inclusion(cb21, 0, &mut br).unwrap();
        assert!(!to_include, "!expected to include value");
        bits_read_exp += 0;
        assert_eq!(bits_read_exp, br.bits_read());
    }

    // The second packet resumes the same trees.
    {
        let cb00 = I2 { x: 0, y: 0 };
        let included = incl_tree.query_inclusion(cb00, 1);
        assert!(included);
        assert_eq!(bits_read_exp, br.bits_read());
        // already included
    }
    {
        let cb10 = I2 { x: 1, y: 0 };
        let included = incl_tree.query_inclusion(cb10, 1);
        assert!(included);
        assert_eq!(bits_read_exp, br.bits_read());
        // already included
    }
    {
        let cb20 = I2 { x: 2, y: 0 };
        let included = incl_tree.query_inclusion(cb20, 1);
        assert!(!included);

        let to_include = incl_tree.read_for_inclusion(cb20, 1, &mut br).unwrap();
        assert!(!to_include, "!expected to include value");
        bits_read_exp += 2;
        assert_eq!(bits_read_exp, br.bits_read());
    }
    {
        let cb01 = I2 { x: 0, y: 1 };
        let included = incl_tree.query_inclusion(cb01, 1);
        assert!(!included);

        let to_include = incl_tree.read_for_inclusion(cb01, 1, &mut br).unwrap();
        assert!(!to_include, "!expected to include value");
        bits_read_exp += 1;
        assert_eq!(bits_read_exp, br.bits_read());
    }
    {
        let cb11 = I2 { x: 1, y: 1 };
        let included = incl_tree.query_inclusion(cb11, 1);
        assert!(!included);

        let to_include = incl_tree.read_for_inclusion(cb11, 1, &mut br).unwrap();
        assert!(to_include, "expected to include value");
        bits_read_exp += 1;
        assert_eq!(bits_read_exp, br.bits_read());
    }
    {
        let cb21 = I2 { x: 2, y: 1 };
        let included = incl_tree.query_inclusion(cb21, 1);
        assert!(!included);

        let to_include = incl_tree.read_for_inclusion(cb21, 1, &mut br).unwrap();
        assert!(to_include, "expected to include value");
        bits_read_exp += 1;
        assert_eq!(bits_read_exp, br.bits_read());
    }
}

#[test]
fn test_tag_tree_zero_bit() {
    let mut zero_tree = ZeroPlaneTagTree::new(3, 2);

    let mut bits_read_exp = 0;
    let mut br = BitReader::new(vec![0b0001_1101, 0b1000_1100]).unwrap();

    {
        let cb00 = I2 { x: 0, y: 0 };
        let zbs = zero_tree.read(cb00, &mut br).unwrap();
        assert_eq!(3, zbs);
        bits_read_exp += 6;
        assert_eq!(bits_read_exp, br.bits_read());
    }
    {
        let cb10 = I2 { x: 1, y: 0 };
        let zbs = zero_tree.read(cb10, &mut br).unwrap();
        assert_eq!(4, zbs);
        bits_read_exp += 2;
        assert_eq!(bits_read_exp, br.bits_read());
    }
    {
        let cb11 = I2 { x: 1, y: 1 };
        let zbs = zero_tree.read(cb11, &mut br).unwrap();
        assert_eq!(3, zbs);
        bits_read_exp += 1;
        assert_eq!(bits_read_exp, br.bits_read());
    }
    {
        let cb21 = I2 { x: 2, y: 1 };
        let zbs = zero_tree.read(cb21, &mut br).unwrap();
        assert_eq!(6, zbs);
        bits_read_exp += 5;
        assert_eq!(bits_read_exp, br.bits_read());
    }
}

#[test]
fn rereading_a_decoded_leaf_consumes_no_bits() {
    // Terminal values are sticky: a second full read of the same leaf
    // consumes nothing and returns the same value.
    let mut tt = TagTreeDecoder::new(2, 2);
    let mut br = BitReader::new(vec![0b0111_0101]).unwrap();
    assert_eq!(1, tt.read(I2 { x: 0, y: 0 }, &mut br).unwrap());
    let consumed = br.bits_read();
    assert_eq!(1, tt.read(I2 { x: 0, y: 0 }, &mut br).unwrap());
    assert_eq!(consumed, br.bits_read());
}

#[test]
fn truncated_input_fails_a_tag_tree_read() {
    // A single zero byte cannot finish decoding a leaf value of 8 or more.
    let mut tt = TagTreeDecoder::new(1, 1);
    let mut br = BitReader::new(vec![0b0000_0000]).unwrap();
    assert!(tt.read(I2 { x: 0, y: 0 }, &mut br).is_err());
}

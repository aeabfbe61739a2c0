//! The box-structured file format: a sequence of length-prefixed boxes
//! wrapping the codestream and its metadata.
//!
//! Parsing works on an in-memory byte sequence. The reader validates the
//! required structure: the fixed signature box first, the file type box
//! with a compatible brand second, a single header superbox before any
//! codestream box, and at least one colour specification inside the header.

use vstd::prelude::*;

use crate::bytes::read_bytes;
use crate::bytes::read_u16;
use crate::bytes::read_u32;
use crate::bytes::read_u64;
use crate::bytes::read_u8;
use crate::colour_specification::ColourSpecificationBox;

verus! {

/// A box type: the four ASCII type characters packed big-endian.
pub type BoxType = u32;

pub const BOX_TYPE_SIGNATURE: BoxType = 0x6A50_2020;

pub const BOX_TYPE_FILE_TYPE: BoxType = 0x6674_7970;

pub const BOX_TYPE_HEADER: BoxType = 0x6A70_3268;

pub const BOX_TYPE_IMAGE_HEADER: BoxType = 0x6968_6472;

pub const BOX_TYPE_BITS_PER_COMPONENT: BoxType = 0x6270_6363;

pub const BOX_TYPE_COLOUR_SPECIFICATION: BoxType = 0x636F_6C72;

pub const BOX_TYPE_PALETTE: BoxType = 0x7063_6C72;

pub const BOX_TYPE_COMPONENT_MAPPING: BoxType = 0x636D_6170;

pub const BOX_TYPE_CHANNEL_DEFINITION: BoxType = 0x6364_6566;

pub const BOX_TYPE_RESOLUTION: BoxType = 0x7265_7320;

pub const BOX_TYPE_CAPTURE_RESOLUTION: BoxType = 0x7265_7363;

pub const BOX_TYPE_DEFAULT_DISPLAY_RESOLUTION: BoxType = 0x7265_7364;

pub const BOX_TYPE_CONTIGUOUS_CODESTREAM: BoxType = 0x6A70_3263;

pub const BOX_TYPE_INTELLECTUAL_PROPERTY: BoxType = 0x6A70_3269;

pub const BOX_TYPE_XML: BoxType = 0x786D_6C20;

pub const BOX_TYPE_UUID: BoxType = 0x7575_6964;

pub const BOX_TYPE_UUID_INFO: BoxType = 0x7569_6E66;

pub const BOX_TYPE_UUID_LIST: BoxType = 0x756C_7374;

pub const BOX_TYPE_DATA_ENTRY_URL: BoxType = 0x7572_6C20;

/// The brand of conforming core files, the characters `jp2 `.
pub const BRAND_JP2: u32 = 0x6A70_3220;

/// The brand of extended-format files, which this reader rejects.
pub const BRAND_JPX: u32 = 0x6A70_7820;

/// Error values returned from file-format parsing.
#[derive(Debug)]
pub enum JP2Error {
    /// The signature box did not hold the required magic value; the input
    /// is not of this file format (it may be a bare codestream).
    InvalidSignature { signature: [u8; 4], offset: u64 },
    /// The major brand is not a supported value.
    InvalidBrand { brand: u32, offset: u64 },
    /// The file declares a feature outside the core coding system.
    Unsupported,
    /// The compatibility list does not name a supported brand.
    NotCompatible { compatibility_list: Vec<u32> },
    /// A box of an unexpected type was encountered.
    BoxUnexpected { box_type: BoxType, offset: u64 },
    /// A box that may appear only once was seen again.
    BoxDuplicate { box_type: BoxType, offset: u64 },
    /// A box was not in the expected form.
    BoxMalformed { box_type: BoxType, offset: u64 },
    /// A required box is absent.
    BoxMissing { box_type: BoxType },
    /// The input ended in the middle of a structure.
    Truncated { offset: u64 },
}

/// The capability set every box exposes: its type identifier, its payload
/// length, and the payload's byte offset in the input.
pub trait JBox {
    /// The box's four-character type, packed big-endian.
    fn identifier(&self) -> BoxType;

    /// The payload length in bytes.
    fn length(&self) -> u64;

    /// The payload's byte offset in the input.
    fn offset(&self) -> u64;
}

/// The enumeration of known box types.
#[derive(Debug, Clone, Copy, PartialEq, Eq, Structural)]
pub enum BoxTypes {
    Signature,
    FileType,
    Header,
    ImageHeader,
    BitsPerComponent,
    ColourSpecification,
    Palette,
    ComponentMapping,
    ChannelDefinition,
    Resolution,
    CaptureResolution,
    DefaultDisplayResolution,
    ContiguousCodestream,
    IntellectualProperty,
    Xml,
    Uuid,
    UUIDInfo,
    UUIDList,
    DataEntryURL,
    Unknown,
}

impl BoxTypes {
    /// Classifies a four-character type code.
    pub fn new(value: BoxType) -> (r: BoxTypes)
        ensures
            r == BoxTypes::spec_of(value),
    {
        match value {
            BOX_TYPE_SIGNATURE => BoxTypes::Signature,
            BOX_TYPE_FILE_TYPE => BoxTypes::FileType,
            BOX_TYPE_HEADER => BoxTypes::Header,
            BOX_TYPE_IMAGE_HEADER => BoxTypes::ImageHeader,
            BOX_TYPE_BITS_PER_COMPONENT => BoxTypes::BitsPerComponent,
            BOX_TYPE_COLOUR_SPECIFICATION => BoxTypes::ColourSpecification,
            BOX_TYPE_PALETTE => BoxTypes::Palette,
            BOX_TYPE_COMPONENT_MAPPING => BoxTypes::ComponentMapping,
            BOX_TYPE_CHANNEL_DEFINITION => BoxTypes::ChannelDefinition,
            BOX_TYPE_RESOLUTION => BoxTypes::Resolution,
            BOX_TYPE_CAPTURE_RESOLUTION => BoxTypes::CaptureResolution,
            BOX_TYPE_DEFAULT_DISPLAY_RESOLUTION => BoxTypes::DefaultDisplayResolution,
            BOX_TYPE_CONTIGUOUS_CODESTREAM => BoxTypes::ContiguousCodestream,
            BOX_TYPE_INTELLECTUAL_PROPERTY => BoxTypes::IntellectualProperty,
            BOX_TYPE_XML => BoxTypes::Xml,
            BOX_TYPE_UUID => BoxTypes::Uuid,
            BOX_TYPE_UUID_INFO => BoxTypes::UUIDInfo,
            BOX_TYPE_UUID_LIST => BoxTypes::UUIDList,
            BOX_TYPE_DATA_ENTRY_URL => BoxTypes::DataEntryURL,
            _ => BoxTypes::Unknown,
        }
    }

    /// The classification of a type code.
    pub open spec fn spec_of(value: BoxType) -> BoxTypes {
        if value == BOX_TYPE_SIGNATURE {
            BoxTypes::Signature
        } else if value == BOX_TYPE_FILE_TYPE {
            BoxTypes::FileType
        } else if value == BOX_TYPE_HEADER {
            BoxTypes::Header
        } else if value == BOX_TYPE_IMAGE_HEADER {
            BoxTypes::ImageHeader
        } else if value == BOX_TYPE_BITS_PER_COMPONENT {
            BoxTypes::BitsPerComponent
        } else if value == BOX_TYPE_COLOUR_SPECIFICATION {
            BoxTypes::ColourSpecification
        } else if value == BOX_TYPE_PALETTE {
            BoxTypes::Palette
        } else if value == BOX_TYPE_COMPONENT_MAPPING {
            BoxTypes::ComponentMapping
        } else if value == BOX_TYPE_CHANNEL_DEFINITION {
            BoxTypes::ChannelDefinition
        } else if value == BOX_TYPE_RESOLUTION {
            BoxTypes::Resolution
        } else if value == BOX_TYPE_CAPTURE_RESOLUTION {
            BoxTypes::CaptureResolution
        } else if value == BOX_TYPE_DEFAULT_DISPLAY_RESOLUTION {
            BoxTypes::DefaultDisplayResolution
        } else if value == BOX_TYPE_CONTIGUOUS_CODESTREAM {
            BoxTypes::ContiguousCodestream
        } else if value == BOX_TYPE_INTELLECTUAL_PROPERTY {
            BoxTypes::IntellectualProperty
        } else if value == BOX_TYPE_XML {
            BoxTypes::Xml
        } else if value == BOX_TYPE_UUID {
            BoxTypes::Uuid
        } else if value == BOX_TYPE_UUID_INFO {
            BoxTypes::UUIDInfo
        } else if value == BOX_TYPE_UUID_LIST {
            BoxTypes::UUIDList
        } else if value == BOX_TYPE_DATA_ENTRY_URL {
            BoxTypes::DataEntryURL
        } else {
            BoxTypes::Unknown
        }
    }
}

/// The signature box: a fixed four-byte magic value that identifies the
/// file format and catches common transmission errors.
#[derive(Debug)]
pub struct SignatureBox {
    pub length: u64,
    pub offset: u64,
}

impl SignatureBox {
    /// The required magic value of the signature payload.
    pub fn signature(&self) -> (r: [u8; 4])
        ensures
            r@ == seq![13u8, 10u8, 135u8, 10u8],
    {
        let r = [13u8, 10u8, 135u8, 10u8];
        proof {
            assert(r@ =~= seq![13u8, 10u8, 135u8, 10u8]);
        }
        r
    }

    /// Parses the signature payload: succeeds exactly when the four magic
    /// bytes follow at `pos`.
    pub fn decode(bytes: &[u8], pos: usize, offset: u64) -> (r: Result<
        (SignatureBox, usize),
        JP2Error,
    >)
        ensures
            match r {
                Ok((b, p2)) => {
                    &&& pos + 4 <= bytes@.len()
                    &&& bytes@[pos as int] == 13 && bytes@[pos + 1] == 10 && bytes@[pos + 2] == 135
                        && bytes@[pos + 3] == 10
                    &&& p2 == pos + 4
                    &&& b.length == 12
                },
                Err(_) => pos + 4 > bytes@.len() || !(bytes@[pos as int] == 13 && bytes@[pos + 1]
                    == 10 && bytes@[pos + 2] == 135 && bytes@[pos + 3] == 10),
            },
    {
        let (b0, p1) = match read_u8(bytes, pos) {
            Some(v) => v,
            None => {
                return Err(JP2Error::Truncated { offset: pos as u64 });
            },
        };
        let (b1, p2) = match read_u8(bytes, p1) {
            Some(v) => v,
            None => {
                return Err(JP2Error::Truncated { offset: p1 as u64 });
            },
        };
        let (b2, p3) = match read_u8(bytes, p2) {
            Some(v) => v,
            None => {
                return Err(JP2Error::Truncated { offset: p2 as u64 });
            },
        };
        let (b3, p4) = match read_u8(bytes, p3) {
            Some(v) => v,
            None => {
                return Err(JP2Error::Truncated { offset: p3 as u64 });
            },
        };
        if b0 == 13 && b1 == 10 && b2 == 135 && b3 == 10 {
            Ok((SignatureBox { length: 12, offset }, p4))
        } else {
            Err(JP2Error::InvalidSignature { signature: [b0, b1, b2, b3], offset: p4 as u64 })
        }
    }
}

impl JBox for SignatureBox {
    fn identifier(&self) -> BoxType {
        BOX_TYPE_SIGNATURE
    }

    fn length(&self) -> u64 {
        self.length
    }

    fn offset(&self) -> u64 {
        self.offset
    }
}

/// Compatibility-list entry `i` of a file type box whose payload starts at
/// `pos`.
pub open spec fn compat_entry(bytes: Seq<u8>, pos: int, i: int) -> int {
    crate::bytes::be32(bytes, pos + 8 + 4 * i)
}

/// The file type box: the brand that defines the file and the list of
/// standards the file is compatible with.
#[derive(Debug)]
pub struct FileTypeBox {
    pub length: u64,
    pub offset: u64,
    pub brand_code: u32,
    pub min_version_value: u32,
    pub compatibility: Vec<u32>,
}

impl FileTypeBox {
    /// The brand, as its four characters packed big-endian.
    pub fn brand(&self) -> (r: u32)
        ensures
            r == self.brand_code,
    {
        self.brand_code
    }

    /// The minor version number; zero for conforming files.
    pub fn min_version(&self) -> (r: u32)
        ensures
            r == self.min_version_value,
    {
        self.min_version_value
    }

    /// The compatibility list, each entry four characters packed
    /// big-endian.
    pub fn compatibility_list(&self) -> (r: &Vec<u32>)
        ensures
            r == self.compatibility,
    {
        &self.compatibility
    }

    /// Parses a file type box payload of `length` bytes: the brand, the
    /// minor version, and the compatibility list filling the remainder.
    /// The brand must be the core brand, and the compatibility list must
    /// name it.
    pub fn decode(bytes: &[u8], pos: usize, length: u64, offset: u64) -> (r: Result<
        (FileTypeBox, usize),
        JP2Error,
    >)
        requires
            length >= 8,
        ensures
            match r {
                Ok((b, p2)) => {
                    &&& b.brand_code == crate::bytes::be32(bytes@, pos as int)
                    &&& b.brand_code == BRAND_JP2
                    &&& b.min_version_value == crate::bytes::be32(bytes@, pos + 4)
                    &&& b.compatibility@.len() == (length - 8) / 4
                    &&& forall|i: int|
                        0 <= i < b.compatibility@.len() ==> #[trigger] b.compatibility@[i]
                            == crate::bytes::be32(bytes@, pos + 8 + 4 * i)
                    &&& exists|i: int|
                        0 <= i < b.compatibility@.len() && b.compatibility@[i] == BRAND_JP2
                    &&& p2 == pos + 8 + 4 * ((length - 8) / 4)
                    &&& b.length == length
                    &&& b.offset == offset
                },
                Err(_) => {
                    ||| pos + 8 > bytes@.len()
                    ||| crate::bytes::be32(bytes@, pos as int) != BRAND_JP2
                    ||| pos + 8 + 4 * ((length - 8) / 4) > bytes@.len()
                    ||| !(exists|i: int|
                        0 <= i < (length - 8) / 4 && #[trigger] compat_entry(bytes@, pos as int, i)
                            == BRAND_JP2)
                },
            },
    {
        let (brand, p1) = match read_u32(bytes, pos) {
            Some(v) => v,
            None => {
                return Err(JP2Error::Truncated { offset: pos as u64 });
            },
        };
        if brand == BRAND_JPX {
            return Err(JP2Error::Unsupported);
        }
        if brand != BRAND_JP2 {
            return Err(JP2Error::InvalidBrand { brand, offset: p1 as u64 });
        }
        let (min_version, p2) = match read_u32(bytes, p1) {
            Some(v) => v,
            None => {
                return Err(JP2Error::Truncated { offset: p1 as u64 });
            },
        };
        // The number of compatibility entries comes from the box length.
        let count = (length - 8) / 4;
        let mut compatibility: Vec<u32> = Vec::new();
        let mut found = false;
        let mut i: u64 = 0;
        let mut p = p2;
        while i < count
            invariant
                i <= count,
                count == (length - 8) / 4,
                length >= 8,
                pos + 8 <= bytes@.len(),
                p == pos + 8 + 4 * i,
                compatibility@.len() == i,
                brand == crate::bytes::be32(bytes@, pos as int),
                brand == BRAND_JP2,
                min_version == crate::bytes::be32(bytes@, pos + 4),
                forall|j: int|
                    0 <= j < compatibility@.len() ==> #[trigger] compatibility@[j]
                        == crate::bytes::be32(bytes@, pos + 8 + 4 * j),
                found <==> exists|j: int|
                    0 <= j < compatibility@.len() && compatibility@[j] == BRAND_JP2,
            decreases count - i,
        {
            let (cl, pn) = match read_u32(bytes, p) {
                Some(v) => v,
                None => {
                    proof {
                        // The failing entry lies before the end of the list.
                        assert(pos + 8 + 4 * i + 4 <= pos + 8 + 4 * count) by (nonlinear_arith)
                            requires
                                i < count,
                        ;
                    }
                    return Err(JP2Error::Truncated { offset: p as u64 });
                },
            };
            let ghost pre = compatibility@;
            compatibility.push(cl);
            if cl == BRAND_JP2 {
                found = true;
                proof {
                    assert(compatibility@[compatibility@.len() - 1] == BRAND_JP2);
                }
            } else {
                proof {
                    if !found {
                        assert forall|j: int|
                            0 <= j < compatibility@.len() implies compatibility@[j]
                            != BRAND_JP2 by {
                            if j < pre.len() {
                                assert(compatibility@[j] == pre[j]);
                            }
                        }
                    } else {
                        let j = choose|j: int| 0 <= j < pre.len() && pre[j] == BRAND_JP2;
                        assert(compatibility@[j] == BRAND_JP2);
                    }
                }
            }
            p = pn;
            i = i + 1;
        }
        if !found {
            proof {
                assert forall|j: int|
                    0 <= j < (length - 8) / 4 implies #[trigger] compat_entry(
                    bytes@,
                    pos as int,
                    j,
                ) != BRAND_JP2 by {
                    assert(compatibility@[j] == crate::bytes::be32(bytes@, pos + 8 + 4 * j));
                }
            }
            return Err(JP2Error::NotCompatible { compatibility_list: compatibility });
        }
        let b = FileTypeBox {
            length,
            offset,
            brand_code: brand,
            min_version_value: min_version,
            compatibility,
        };
        proof {
            let j = choose|j: int|
                0 <= j < b.compatibility@.len() && b.compatibility@[j] == BRAND_JP2;
            assert(0 <= j < b.compatibility@.len() && b.compatibility@[j] == BRAND_JP2);
            assert(exists|i: int|
                0 <= i < b.compatibility@.len() && b.compatibility@[i] == BRAND_JP2);
        }
        Ok((b, p))
    }
}

impl JBox for FileTypeBox {
    fn identifier(&self) -> BoxType {
        BOX_TYPE_FILE_TYPE
    }

    fn length(&self) -> u64 {
        self.length
    }

    fn offset(&self) -> u64 {
        self.offset
    }
}

/// The image header box: fixed-length generic information about the image.
#[derive(Debug)]
pub struct ImageHeaderBox {
    pub length: u64,
    pub offset: u64,
    pub height_value: u32,
    pub width_value: u32,
    pub components: u16,
    pub bpc: u8,
    pub compression: u8,
    pub unknown_colourspace: u8,
    pub ipr: u8,
}

impl ImageHeaderBox {
    /// The image area height.
    pub fn height(&self) -> (r: u32)
        ensures
            r == self.height_value,
    {
        self.height_value
    }

    /// The image area width.
    pub fn width(&self) -> (r: u32)
        ensures
            r == self.width_value,
    {
        self.width_value
    }

    /// The number of components.
    pub fn components_num(&self) -> (r: u16)
        ensures
            r == self.components,
    {
        self.components
    }

    /// The common bit depth of the components: the stored field's low seven
    /// bits plus one, or 255 when the components vary and a bits-per-
    /// component box carries the depths. Depths beyond 38 bits are reserved.
    pub fn components_bits(&self) -> (r: u8)
        requires
            self.bpc == 255 || (self.bpc & 0x7F) <= 37,
        ensures
            r == (if self.bpc == 255 {
                255u8
            } else {
                ((self.bpc & 0x7F) + 1) as u8
            }),
    {
        if self.bpc == 255 {
            255
        } else {
            let low_bits = self.bpc & 0x7F;
            proof {
                let b = self.bpc;
                assert((b & 0x7F) < 128) by (bit_vector);
            }
            low_bits + 1
        }
    }

    /// Whether the components carry signed values.
    pub fn values_are_signed(&self) -> (r: bool)
        ensures
            r == (self.bpc != 255 && self.bpc & 0x80 == 0x80),
    {
        if self.bpc == 255 {
            false
        } else {
            self.bpc & 0x80 == 0x80
        }
    }

    /// The compression type; 7 for the wavelet coding of this standard.
    pub fn compression_type(&self) -> (r: u8)
        ensures
            r == self.compression,
    {
        self.compression
    }

    /// Whether the colourspace of the image data is unknown.
    pub fn colourspace_unknown(&self) -> (r: u8)
        ensures
            r == self.unknown_colourspace,
    {
        self.unknown_colourspace
    }

    /// Whether the file carries intellectual property rights information.
    pub fn intellectual_property(&self) -> (r: u8)
        ensures
            r == self.ipr,
    {
        self.ipr
    }

    /// Parses the 14-byte image header payload. A bits-per-component byte
    /// whose depth field names a reserved depth (beyond 38 bits) is
    /// malformed.
    pub fn decode(bytes: &[u8], pos: usize, length: u64, offset: u64) -> (r: Result<
        (ImageHeaderBox, usize),
        JP2Error,
    >)
        ensures
            match r {
                Ok((b, p2)) => {
                    &&& pos + 14 <= bytes@.len()
                    &&& b.height_value == crate::bytes::be32(bytes@, pos as int)
                    &&& b.width_value == crate::bytes::be32(bytes@, pos + 4)
                    &&& b.components == crate::bytes::be16(bytes@, pos + 8)
                    &&& b.bpc == bytes@[pos + 10]
                    &&& b.compression == bytes@[pos + 11]
                    &&& b.unknown_colourspace == bytes@[pos + 12]
                    &&& b.ipr == bytes@[pos + 13]
                    &&& b.bpc == 255 || (b.bpc & 0x7F) <= 37
                    &&& p2 == pos + 14
                    &&& b.length == length
                    &&& b.offset == offset
                },
                Err(_) => pos + 14 > bytes@.len() || !(bytes@[pos + 10] == 255 || (bytes@[pos + 10]
                    & 0x7F) <= 37),
            },
    {
        let (height, p1) = match read_u32(bytes, pos) {
            Some(v) => v,
            None => {
                return Err(JP2Error::Truncated { offset: pos as u64 });
            },
        };
        let (width, p2) = match read_u32(bytes, p1) {
            Some(v) => v,
            None => {
                return Err(JP2Error::Truncated { offset: p1 as u64 });
            },
        };
        let (components, p3) = match read_u16(bytes, p2) {
            Some(v) => v,
            None => {
                return Err(JP2Error::Truncated { offset: p2 as u64 });
            },
        };
        let (bpc, p4) = match read_u8(bytes, p3) {
            Some(v) => v,
            None => {
                return Err(JP2Error::Truncated { offset: p3 as u64 });
            },
        };
        let (compression, p5) = match read_u8(bytes, p4) {
            Some(v) => v,
            None => {
                return Err(JP2Error::Truncated { offset: p4 as u64 });
            },
        };
        let (unknown_colourspace, p6) = match read_u8(bytes, p5) {
            Some(v) => v,
            None => {
                return Err(JP2Error::Truncated { offset: p5 as u64 });
            },
        };
        let (ipr, p7) = match read_u8(bytes, p6) {
            Some(v) => v,
            None => {
                return Err(JP2Error::Truncated { offset: p6 as u64 });
            },
        };
        if !(bpc == 255 || (bpc & 0x7F) <= 37) {
            // Depths beyond 38 bits are reserved.
            return Err(JP2Error::BoxMalformed { box_type: BOX_TYPE_IMAGE_HEADER, offset });
        }
        Ok((
            ImageHeaderBox {
                length,
                offset,
                height_value: height,
                width_value: width,
                components,
                bpc,
                compression,
                unknown_colourspace: unknown_colourspace,
                ipr,
            },
            p7,
        ))
    }
}

impl JBox for ImageHeaderBox {
    fn identifier(&self) -> BoxType {
        BOX_TYPE_IMAGE_HEADER
    }

    fn length(&self) -> u64 {
        self.length
    }

    fn offset(&self) -> u64 {
        self.offset
    }
}

/// The channel types of the channel definition box.
#[derive(Debug, PartialEq, Eq, Structural)]
pub enum ChannelTypes {
    /// Colour image data for the associated colour.
    ColourImageData,
    /// An opacity channel.
    Opacity,
    /// A premultiplied opacity channel.
    PremultipliedOpacity,
    /// A value reserved for future use.
    Reserved { value: u16 },
    /// The channel's type is not specified.
    Unspecified { value: u16 },
}

impl ChannelTypes {
    /// Classifies a channel type code.
    pub fn new(value: u16) -> (r: ChannelTypes)
        ensures
            value == 0 ==> r == ChannelTypes::ColourImageData,
            value == 1 ==> r == ChannelTypes::Opacity,
            value == 2 ==> r == ChannelTypes::PremultipliedOpacity,
            3 <= value < 0xFFFF ==> r == (ChannelTypes::Reserved { value }),
            value == 0xFFFF ==> r == (ChannelTypes::Unspecified { value }),
    {
        if value == 0 {
            ChannelTypes::ColourImageData
        } else if value == 1 {
            ChannelTypes::Opacity
        } else if value == 2 {
            ChannelTypes::PremultipliedOpacity
        } else if value <= 0xFFFE {
            ChannelTypes::Reserved { value }
        } else {
            ChannelTypes::Unspecified { value }
        }
    }
}

/// One channel description of the channel definition box.
#[derive(Debug)]
pub struct Channel {
    pub index: u16,
    pub typ: u16,
    pub association: u16,
}

impl Channel {
    /// The index of the channel this description applies to.
    pub fn channel_index(&self) -> (r: u16)
        ensures
            r == self.index,
    {
        self.index
    }

    /// The channel's type, classified.
    pub fn channel_type(&self) -> (r: ChannelTypes)
        ensures
            self.typ == 0 ==> r == ChannelTypes::ColourImageData,
            self.typ == 1 ==> r == ChannelTypes::Opacity,
            self.typ == 2 ==> r == ChannelTypes::PremultipliedOpacity,
    {
        ChannelTypes::new(self.typ)
    }

    /// The channel's raw type code.
    pub fn channel_type_u16(&self) -> (r: u16)
        ensures
            r == self.typ,
    {
        self.typ
    }

    /// The colour index this channel is associated with.
    pub fn channel_association(&self) -> (r: u16)
        ensures
            r == self.association,
    {
        self.association
    }
}

/// The channel definition box: the meaning of each channel's samples.
#[derive(Debug)]
pub struct ChannelDefinitionBox {
    pub length: u64,
    pub offset: u64,
    pub channel_list: Vec<Channel>,
}

impl ChannelDefinitionBox {
    /// The channel descriptions, in box order.
    pub fn channels(&self) -> (r: &Vec<Channel>)
        ensures
            r == self.channel_list,
    {
        &self.channel_list
    }

    /// Parses the channel definition payload: a count, then that many
    /// (index, type, association) triples.
    pub fn decode(bytes: &[u8], pos: usize, length: u64, offset: u64) -> (r: Result<
        (ChannelDefinitionBox, usize),
        JP2Error,
    >)
        ensures
            match r {
                Ok((b, p2)) => {
                    &&& pos + 2 <= bytes@.len()
                    &&& b.channel_list@.len() == crate::bytes::be16(bytes@, pos as int)
                    &&& forall|i: int|
                        0 <= i < b.channel_list@.len() ==> {
                            &&& (#[trigger] b.channel_list@[i]).index == crate::bytes::be16(
                                bytes@,
                                pos + 2 + 6 * i,
                            )
                            &&& b.channel_list@[i].typ == crate::bytes::be16(
                                bytes@,
                                pos + 4 + 6 * i,
                            )
                            &&& b.channel_list@[i].association == crate::bytes::be16(
                                bytes@,
                                pos + 6 + 6 * i,
                            )
                        }
                    &&& p2 == pos + 2 + 6 * crate::bytes::be16(bytes@, pos as int)
                    &&& b.length == length
                    &&& b.offset == offset
                },
                Err(_) => pos + 2 > bytes@.len() || pos + 2 + 6 * crate::bytes::be16(
                    bytes@,
                    pos as int,
                ) > bytes@.len(),
            },
    {
        let (count, p1) = match read_u16(bytes, pos) {
            Some(v) => v,
            None => {
                return Err(JP2Error::Truncated { offset: pos as u64 });
            },
        };
        let mut channel_list: Vec<Channel> = Vec::new();
        let mut i: u16 = 0;
        let mut p = p1;
        while i < count
            invariant
                i <= count,
                pos + 2 <= bytes@.len(),
                count == crate::bytes::be16(bytes@, pos as int),
                p == pos + 2 + 6 * i,
                channel_list@.len() == i,
                forall|j: int|
                    0 <= j < channel_list@.len() ==> {
                        &&& (#[trigger] channel_list@[j]).index == crate::bytes::be16(
                            bytes@,
                            pos + 2 + 6 * j,
                        )
                        &&& channel_list@[j].typ == crate::bytes::be16(bytes@, pos + 4 + 6 * j)
                        &&& channel_list@[j].association == crate::bytes::be16(
                            bytes@,
                            pos + 6 + 6 * j,
                        )
                    },
            decreases count - i,
        {
            proof {
                assert(pos + 2 + 6 * i + 6 <= pos + 2 + 6 * count) by (nonlinear_arith)
                    requires
                        i < count,
                ;
            }
            let (index, pa) = match read_u16(bytes, p) {
                Some(v) => v,
                None => {
                    return Err(JP2Error::Truncated { offset: p as u64 });
                },
            };
            let (typ, pb) = match read_u16(bytes, pa) {
                Some(v) => v,
                None => {
                    return Err(JP2Error::Truncated { offset: pa as u64 });
                },
            };
            let (association, pc) = match read_u16(bytes, pb) {
                Some(v) => v,
                None => {
                    return Err(JP2Error::Truncated { offset: pb as u64 });
                },
            };
            channel_list.push(Channel { index, typ, association });
            p = pc;
            i = i + 1;
        }
        Ok((ChannelDefinitionBox { length, offset, channel_list }, p))
    }
}

impl JBox for ChannelDefinitionBox {
    fn identifier(&self) -> BoxType {
        BOX_TYPE_CHANNEL_DEFINITION
    }

    fn length(&self) -> u64 {
        self.length
    }

    fn offset(&self) -> u64 {
        self.offset
    }
}

/// How a channel is generated from the codestream's components.
#[derive(Debug, Clone, Copy, PartialEq, Eq, Structural)]
pub enum ComponentMapType {
    /// The channel is a component used directly.
    Direct,
    /// The channel is created by applying the palette to a component.
    Palette,
    /// A value reserved for future use.
    Reserved { value: u8 },
}

impl ComponentMapType {
    /// Classifies a mapping type code.
    pub fn new(value: u8) -> (r: ComponentMapType)
        ensures
            value == 1 ==> r == ComponentMapType::Direct,
            value == 2 ==> r == ComponentMapType::Palette,
            value != 1 && value != 2 ==> r == (ComponentMapType::Reserved { value }),
    {
        if value == 1 {
            ComponentMapType::Direct
        } else if value == 2 {
            ComponentMapType::Palette
        } else {
            ComponentMapType::Reserved { value }
        }
    }
}

/// One entry of the component mapping box.
#[derive(Debug)]
pub struct ComponentMap {
    pub component_index: u16,
    pub map_type: ComponentMapType,
    pub palette_column: u8,
}

impl ComponentMap {
    /// The codestream component mapped to this channel.
    pub fn component(&self) -> (r: u16)
        ensures
            r == self.component_index,
    {
        self.component_index
    }

    /// The mapping type code.
    pub fn mapping_type(&self) -> (r: u8)
        ensures
            r == match self.map_type {
                ComponentMapType::Direct => 1u8,
                ComponentMapType::Palette => 2u8,
                ComponentMapType::Reserved { value } => value,
            },
    {
        match self.map_type {
            ComponentMapType::Direct => 1,
            ComponentMapType::Palette => 2,
            ComponentMapType::Reserved { value } => value,
        }
    }

    /// The palette column used for this channel.
    pub fn palette(&self) -> (r: u8)
        ensures
            r == self.palette_column,
    {
        self.palette_column
    }
}

/// The component mapping box: how channels are produced from components.
#[derive(Debug)]
pub struct ComponentMappingBox {
    pub length: u64,
    pub offset: u64,
    pub mapping: Vec<ComponentMap>,
}

impl ComponentMappingBox {
    /// The channel mapping entries, in channel order.
    pub fn component_map(&self) -> (r: &Vec<ComponentMap>)
        ensures
            r == self.mapping,
    {
        &self.mapping
    }

    /// Parses the component mapping payload: four bytes per channel,
    /// filling the box length.
    pub fn decode(bytes: &[u8], pos: usize, length: u64, offset: u64) -> (r: Result<
        (ComponentMappingBox, usize),
        JP2Error,
    >)
        ensures
            match r {
                Ok((b, p2)) => {
                    &&& b.mapping@.len() == length / 4
                    &&& forall|i: int|
                        0 <= i < b.mapping@.len() ==> {
                            &&& (#[trigger] b.mapping@[i]).component_index == crate::bytes::be16(
                                bytes@,
                                pos + 4 * i,
                            )
                            &&& b.mapping@[i].palette_column == bytes@[pos + 3 + 4 * i]
                        }
                    &&& p2 == pos + 4 * (length / 4)
                    &&& b.length == length
                    &&& b.offset == offset
                },
                Err(_) => pos + 4 * (length / 4) > bytes@.len() && length / 4 >= 1,
            },
    {
        let count = length / 4;
        let mut mapping: Vec<ComponentMap> = Vec::new();
        let mut i: u64 = 0;
        let mut p = pos;
        while i < count
            invariant
                i <= count,
                count == length / 4,
                p == pos + 4 * i,
                mapping@.len() == i,
                forall|j: int|
                    0 <= j < mapping@.len() ==> {
                        &&& (#[trigger] mapping@[j]).component_index == crate::bytes::be16(
                            bytes@,
                            pos + 4 * j,
                        )
                        &&& mapping@[j].palette_column == bytes@[pos + 3 + 4 * j]
                    },
            decreases count - i,
        {
            proof {
                assert(pos + 4 * i + 4 <= pos + 4 * count) by (nonlinear_arith)
                    requires
                        i < count,
                ;
            }
            let (component_index, pa) = match read_u16(bytes, p) {
                Some(v) => v,
                None => {
                    return Err(JP2Error::Truncated { offset: p as u64 });
                },
            };
            let (mt, pb) = match read_u8(bytes, pa) {
                Some(v) => v,
                None => {
                    return Err(JP2Error::Truncated { offset: pa as u64 });
                },
            };
            let (palette_column, pc) = match read_u8(bytes, pb) {
                Some(v) => v,
                None => {
                    return Err(JP2Error::Truncated { offset: pb as u64 });
                },
            };
            mapping.push(
                ComponentMap {
                    component_index,
                    map_type: ComponentMapType::new(mt),
                    palette_column,
                },
            );
            p = pc;
            i = i + 1;
        }
        Ok((ComponentMappingBox { length, offset, mapping }, p))
    }
}

impl JBox for ComponentMappingBox {
    fn identifier(&self) -> BoxType {
        BOX_TYPE_COMPONENT_MAPPING
    }

    fn length(&self) -> u64 {
        self.length
    }

    fn offset(&self) -> u64 {
        self.offset
    }
}

/// The bit depth of one palette column or component: a depth with a
/// signedness flag, or a reserved value.
#[derive(Debug, PartialEq, Eq, Structural)]
pub enum BitDepth {
    /// Signed values of the given depth, sign bit included.
    Signed { value: u8 },
    /// Unsigned values of the given depth.
    Unsigned { value: u8 },
    /// A reserved encoding.
    Reserved { value: u8 },
}

impl BitDepth {
    /// Decodes a depth byte: the low seven bits are the depth minus one,
    /// the high bit marks signed values.
    pub fn new(byte: u8) -> (r: BitDepth)
        ensures
            byte >= 128 ==> r == (BitDepth::Signed { value: ((byte & 0x7F) + 1) as u8 }),
            byte < 128 ==> r == (BitDepth::Unsigned { value: (byte + 1) as u8 }),
    {
        proof {
            let b = byte;
            assert((b & 0x7F) < 128) by (bit_vector);
            assert(b < 128 ==> (b & 0x7F) == b) by (bit_vector);
            assert((b >> 7) == 1 <==> b >= 128) by (bit_vector);
        }
        let value = (byte & 0x7F) + 1;
        let signedness = byte >> 7;
        if signedness == 1 {
            BitDepth::Signed { value }
        } else {
            BitDepth::Unsigned { value }
        }
    }

    /// The number of bits.
    pub fn value(&self) -> (r: u8)
        ensures
            r == match *self {
                BitDepth::Signed { value } => value,
                BitDepth::Unsigned { value } => value,
                BitDepth::Reserved { value } => value,
            },
    {
        match self {
            BitDepth::Signed { value } => *value,
            BitDepth::Unsigned { value } => *value,
            BitDepth::Reserved { value } => *value,
        }
    }

    /// The number of whole bytes needed to store values of this depth.
    pub fn num_bytes(&self) -> (r: u8)
        ensures
            r == (match *self {
                BitDepth::Signed { value } => (value + 7) / 8,
                BitDepth::Unsigned { value } => (value + 7) / 8,
                BitDepth::Reserved { value } => (value + 7) / 8,
            }),
    {
        match self {
            BitDepth::Signed { value } => (*value / 8) + (if *value % 8 == 0 { 0 } else { 1 }),
            BitDepth::Unsigned { value } => (*value / 8) + (if *value % 8 == 0 { 0 } else { 1 }),
            BitDepth::Reserved { value } => (*value / 8) + (if *value % 8 == 0 { 0 } else { 1 }),
        }
    }

    /// The encoded depth byte: the depth minus one in the low seven bits,
    /// the sign flag in the high bit; the inverse of `new`.
    pub fn encoded(&self) -> (r: u8)
        requires
            match *self {
                BitDepth::Signed { value } => 1 <= value <= 128,
                BitDepth::Unsigned { value } => 1 <= value <= 128,
                BitDepth::Reserved { value } => value >= 1,
            },
        ensures
            r == (match *self {
                BitDepth::Signed { value } => (value - 1) as u8 | 0x80,
                BitDepth::Unsigned { value } => (value - 1) as u8,
                BitDepth::Reserved { value } => (value - 1) as u8,
            }),
    {
        match self {
            BitDepth::Signed { value } => (*value - 1) | 0x80,
            BitDepth::Unsigned { value } => *value - 1,
            BitDepth::Reserved { value } => *value - 1,
        }
    }

    /// Decoding a depth byte and re-encoding it gives the byte back.
    pub proof fn lemma_encoding_round_trip(byte: u8)
        ensures
            byte >= 128 ==> ((byte & 0x7F) + 1 - 1) as u8 | 0x80 == byte,
            byte < 128 ==> (byte + 1 - 1) as u8 == byte,
    {
        assert(byte >= 128 ==> ((byte & 0x7F) as u8 | 0x80) == byte) by (bit_vector);
    }
}

/// The width in bytes of palette column `c`'s stored values, from the
/// depth byte at `pos + 3 + c`: one byte for depths up to eight bits, two
/// bytes beyond.
pub open spec fn palette_col_width(bytes: Seq<u8>, pos: int, c: int) -> int {
    if (bytes[pos + 3 + c] & 0x7F) < 8 {
        1
    } else {
        2
    }
}

/// Whether palette column `c`'s depth byte names a value of at most
/// sixteen bits, the widest this reader stores.
pub open spec fn palette_col_narrow(bytes: Seq<u8>, pos: int, c: int) -> bool {
    (bytes[pos + 3 + c] & 0x7F) < 16
}

/// The byte offset of column `c` within one palette entry row: the sum of
/// the widths of the columns before it.
pub open spec fn palette_row_prefix(bytes: Seq<u8>, pos: int, c: int) -> int
    decreases c,
{
    if c <= 0 {
        0
    } else {
        palette_row_prefix(bytes, pos, c - 1) + palette_col_width(bytes, pos, c - 1)
    }
}

/// The value of palette entry `e`, column `c`, read from the rows that
/// follow the `ncols` depth bytes.
pub open spec fn palette_entry_at(bytes: Seq<u8>, pos: int, ncols: int, e: int, c: int) -> u32 {
    let base = pos + 3 + ncols + e * palette_row_prefix(bytes, pos, ncols) + palette_row_prefix(
        bytes,
        pos,
        c,
    );
    if palette_col_width(bytes, pos, c) == 1 {
        bytes[base] as u32
    } else {
        crate::bytes::be16(bytes, base) as u32
    }
}

/// A row prefix is never negative.
pub proof fn lemma_palette_prefix_nonneg(bytes: Seq<u8>, pos: int, c: int)
    requires
        c >= 0,
    ensures
        palette_row_prefix(bytes, pos, c) >= 0,
    decreases c,
{
    if c > 0 {
        lemma_palette_prefix_nonneg(bytes, pos, c - 1);
    }
}

/// Row prefixes grow with the column index.
pub proof fn lemma_palette_prefix_mono(bytes: Seq<u8>, pos: int, c1: int, c2: int)
    requires
        0 <= c1 <= c2,
    ensures
        palette_row_prefix(bytes, pos, c1) <= palette_row_prefix(bytes, pos, c2),
    decreases c2,
{
    if c1 < c2 {
        lemma_palette_prefix_mono(bytes, pos, c1, c2 - 1);
    }
}

/// The palette box: a lookup table creating channels from one component.
#[derive(Debug)]
pub struct PaletteBox {
    pub length: u64,
    pub offset: u64,
    pub bit_depths: Vec<BitDepth>,
    pub entry_rows: Vec<Vec<u32>>,
}

impl PaletteBox {
    /// The number of entries (rows) in the palette.
    pub fn num_entries(&self) -> (r: u16)
        requires
            self.entry_rows@.len() <= 1024,
        ensures
            r == self.entry_rows@.len(),
    {
        self.entry_rows.len() as u16
    }

    /// The number of columns in the palette.
    pub fn num_components(&self) -> (r: u8)
        requires
            self.bit_depths@.len() <= 255,
        ensures
            r == self.bit_depths@.len(),
    {
        self.bit_depths.len() as u8
    }

    /// The bit depth of the given column, if it exists.
    pub fn bit_depth(&self, column_index: u8) -> (r: Option<&BitDepth>)
        ensures
            match r {
                Some(d) => column_index < self.bit_depths@.len() && *d
                    == self.bit_depths@[column_index as int],
                None => column_index >= self.bit_depths@.len(),
            },
    {
        if (column_index as usize) < self.bit_depths.len() {
            Some(&self.bit_depths[column_index as usize])
        } else {
            None
        }
    }

    /// The palette rows: `num_entries` rows of `num_components` values.
    pub fn entries(&self) -> (r: &Vec<Vec<u32>>)
        ensures
            r == self.entry_rows,
    {
        &self.entry_rows
    }

    /// One palette cell, if the row and column exist.
    pub fn entry(&self, entry_index: u16, column_index: u8) -> (r: Option<&u32>)
        ensures
            match r {
                Some(v) => entry_index < self.entry_rows@.len() && column_index
                    < self.entry_rows@[entry_index as int]@.len() && *v
                    == self.entry_rows@[entry_index as int]@[column_index as int],
                None => entry_index >= self.entry_rows@.len() || column_index
                    >= self.entry_rows@[entry_index as int]@.len(),
            },
    {
        if (entry_index as usize) < self.entry_rows.len() {
            let row = &self.entry_rows[entry_index as usize];
            if (column_index as usize) < row.len() {
                Some(&row[column_index as usize])
            } else {
                None
            }
        } else {
            None
        }
    }

    /// Parses the palette payload: entry and column counts, per-column bit
    /// depths, then the entries, each value stored in the smallest whole
    /// number of bytes its column's depth needs (one or two here).
    pub fn decode(bytes: &[u8], pos: usize, length: u64, offset: u64) -> (r: Result<
        (PaletteBox, usize),
        JP2Error,
    >)
        ensures
            match r {
                Ok((b, p2)) => {
                    &&& pos + 3 <= bytes@.len()
                    &&& b.entry_rows@.len() == crate::bytes::be16(bytes@, pos as int)
                    &&& b.bit_depths@.len() == bytes@[pos + 2]
                    &&& forall|i: int|
                        0 <= i < b.bit_depths@.len() ==> #[trigger] b.bit_depths@[i] == (
                        if bytes@[pos + 3 + i] >= 128 {
                            BitDepth::Signed { value: ((bytes@[pos + 3 + i] & 0x7F) + 1) as u8 }
                        } else {
                            BitDepth::Unsigned { value: (bytes@[pos + 3 + i] + 1) as u8 }
                        })
                    &&& forall|e: int|
                        0 <= e < b.entry_rows@.len() ==> #[trigger] b.entry_rows@[e]@.len()
                            == b.bit_depths@.len()
                    &&& forall|e: int, c: int|
                        0 <= e < b.entry_rows@.len() && 0 <= c < b.bit_depths@.len()
                            ==> #[trigger] b.entry_rows@[e]@[c] == palette_entry_at(
                            bytes@,
                            pos as int,
                            bytes@[pos + 2] as int,
                            e,
                            c,
                        )
                    &&& (b.entry_rows@.len() > 0 ==> forall|c: int|
                        0 <= c < b.bit_depths@.len() ==> #[trigger] palette_col_narrow(
                            bytes@,
                            pos as int,
                            c,
                        ))
                    &&& p2 == pos + 3 + b.bit_depths@.len() + b.entry_rows@.len()
                        * palette_row_prefix(bytes@, pos as int, bytes@[pos + 2] as int)
                    &&& b.length == length
                    &&& b.offset == offset
                },
                Err(_) => true,
            },
            (pos + 3 <= bytes@.len() && pos + 3 + bytes@[pos + 2] + crate::bytes::be16(
                bytes@,
                pos as int,
            ) * palette_row_prefix(bytes@, pos as int, bytes@[pos + 2] as int) <= bytes@.len() && (
            forall|c: int|
                0 <= c < bytes@[pos + 2] ==> #[trigger] palette_col_narrow(
                    bytes@,
                    pos as int,
                    c,
                ))) ==> r is Ok,
    {
        let (num_entries, p1) = match read_u16(bytes, pos) {
            Some(v) => v,
            None => {
                return Err(JP2Error::Truncated { offset: pos as u64 });
            },
        };
        let (num_columns, p2) = match read_u8(bytes, p1) {
            Some(v) => v,
            None => {
                return Err(JP2Error::Truncated { offset: p1 as u64 });
            },
        };
        let ghost stride = palette_row_prefix(bytes@, pos as int, num_columns as int);
        let ghost ebase: int = pos + 3 + num_columns;
        let ghost fits = pos + 3 <= bytes@.len() && ebase + (num_entries as int) * stride
            <= bytes@.len() && (forall|c: int|
            0 <= c < num_columns ==> #[trigger] palette_col_narrow(bytes@, pos as int, c));
        proof {
            lemma_palette_prefix_nonneg(bytes@, pos as int, num_columns as int);
        }
        let mut bit_depths: Vec<BitDepth> = Vec::new();
        let mut i: u8 = 0;
        let mut p = p2;
        while i < num_columns
            invariant
                i <= num_columns,
                pos + 3 <= bytes@.len(),
                p == pos + 3 + i,
                bit_depths@.len() == i,
                stride == palette_row_prefix(bytes@, pos as int, num_columns as int),
                stride >= 0,
                ebase == pos + 3 + num_columns,
                num_columns == bytes@[pos + 2],
                num_entries == crate::bytes::be16(bytes@, pos as int),
                fits == (pos + 3 <= bytes@.len() && ebase + (num_entries as int) * stride
                    <= bytes@.len() && (forall|c: int|
                    0 <= c < num_columns ==> #[trigger] palette_col_narrow(
                        bytes@,
                        pos as int,
                        c,
                    ))),
                forall|j: int|
                    0 <= j < bit_depths@.len() ==> #[trigger] bit_depths@[j] == (if bytes@[pos + 3
                        + j] >= 128 {
                        BitDepth::Signed { value: ((bytes@[pos + 3 + j] & 0x7F) + 1) as u8 }
                    } else {
                        BitDepth::Unsigned { value: (bytes@[pos + 3 + j] + 1) as u8 }
                    }),
            decreases num_columns - i,
        {
            let (bd, pn) = match read_u8(bytes, p) {
                Some(v) => v,
                None => {
                    proof {
                        if fits {
                            assert((num_entries as int) * stride >= 0) by (nonlinear_arith)
                                requires
                                    num_entries >= 0,
                                    stride >= 0,
                            ;
                            assert(false);
                        }
                    }
                    return Err(JP2Error::Truncated { offset: p as u64 });
                },
            };
            bit_depths.push(BitDepth::new(bd));
            p = pn;
            i = i + 1;
        }
        let mut entry_rows: Vec<Vec<u32>> = Vec::new();
        let mut e: u16 = 0;
        while e < num_entries
            invariant
                e <= num_entries,
                entry_rows@.len() == e,
                bit_depths@.len() == num_columns,
                pos + 3 <= bytes@.len(),
                num_columns == bytes@[pos + 2],
                num_entries == crate::bytes::be16(bytes@, pos as int),
                stride == palette_row_prefix(bytes@, pos as int, num_columns as int),
                stride >= 0,
                ebase == pos + 3 + num_columns,
                fits == (pos + 3 <= bytes@.len() && ebase + (num_entries as int) * stride
                    <= bytes@.len() && (forall|c: int|
                    0 <= c < num_columns ==> #[trigger] palette_col_narrow(
                        bytes@,
                        pos as int,
                        c,
                    ))),
                p == ebase + e * stride,
                forall|j: int|
                    0 <= j < bit_depths@.len() ==> #[trigger] bit_depths@[j] == (if bytes@[pos + 3
                        + j] >= 128 {
                        BitDepth::Signed { value: ((bytes@[pos + 3 + j] & 0x7F) + 1) as u8 }
                    } else {
                        BitDepth::Unsigned { value: (bytes@[pos + 3 + j] + 1) as u8 }
                    }),
                forall|e2: int|
                    0 <= e2 < entry_rows@.len() ==> #[trigger] entry_rows@[e2]@.len()
                        == num_columns,
                forall|e2: int, c2: int|
                    0 <= e2 < entry_rows@.len() && 0 <= c2 < num_columns
                        ==> #[trigger] entry_rows@[e2]@[c2] == palette_entry_at(
                        bytes@,
                        pos as int,
                        num_columns as int,
                        e2,
                        c2,
                    ),
                e > 0 ==> forall|c2: int|
                    0 <= c2 < num_columns ==> #[trigger] palette_col_narrow(
                        bytes@,
                        pos as int,
                        c2,
                    ),
            decreases num_entries - e,
        {
            let mut row: Vec<u32> = Vec::new();
            let mut c: u8 = 0;
            while c < num_columns
                invariant
                    c <= num_columns,
                    bit_depths@.len() == num_columns,
                    row@.len() == c,
                    e < num_entries,
                    entry_rows@.len() == e,
                    pos + 3 <= bytes@.len(),
                    num_columns == bytes@[pos + 2],
                    num_entries == crate::bytes::be16(bytes@, pos as int),
                    stride == palette_row_prefix(bytes@, pos as int, num_columns as int),
                    stride >= 0,
                    ebase == pos + 3 + num_columns,
                    fits == (pos + 3 <= bytes@.len() && ebase + (num_entries as int) * stride
                        <= bytes@.len() && (forall|c2: int|
                        0 <= c2 < num_columns ==> #[trigger] palette_col_narrow(
                            bytes@,
                            pos as int,
                            c2,
                        ))),
                    p == ebase + e * stride + palette_row_prefix(bytes@, pos as int, c as int),
                    forall|j: int|
                        0 <= j < bit_depths@.len() ==> #[trigger] bit_depths@[j] == (
                        if bytes@[pos + 3 + j] >= 128 {
                            BitDepth::Signed { value: ((bytes@[pos + 3 + j] & 0x7F) + 1) as u8 }
                        } else {
                            BitDepth::Unsigned { value: (bytes@[pos + 3 + j] + 1) as u8 }
                        }),
                    forall|c2: int|
                        0 <= c2 < row@.len() ==> #[trigger] row@[c2] == palette_entry_at(
                            bytes@,
                            pos as int,
                            num_columns as int,
                            e as int,
                            c2,
                        ),
                    forall|c2: int|
                        0 <= c2 < c ==> #[trigger] palette_col_narrow(bytes@, pos as int, c2),
                    forall|e2: int|
                        0 <= e2 < entry_rows@.len() ==> #[trigger] entry_rows@[e2]@.len()
                            == num_columns,
                    forall|e2: int, c2: int|
                        0 <= e2 < entry_rows@.len() && 0 <= c2 < num_columns
                            ==> #[trigger] entry_rows@[e2]@[c2] == palette_entry_at(
                            bytes@,
                            pos as int,
                            num_columns as int,
                            e2,
                            c2,
                        ),
                    e > 0 ==> forall|c2: int|
                        0 <= c2 < num_columns ==> #[trigger] palette_col_narrow(
                            bytes@,
                            pos as int,
                            c2,
                        ),
                decreases num_columns - c,
            {
                let nb = bit_depths[c as usize].num_bytes();
                proof {
                    let d: u8 = bytes@[pos + 3 + c];
                    assert(d < 128 ==> (d & 0x7F) == d) by (bit_vector);
                    assert((d & 0x7F) < 128) by (bit_vector);
                    assert(nb == ((d & 0x7F) + 8) / 8);
                }
                proof {
                    if fits {
                        lemma_palette_prefix_mono(bytes@, pos as int, c as int + 1,
                            num_columns as int);
                        assert(e * stride + stride == (e + 1) * stride) by (nonlinear_arith);
                        assert(ebase + (e + 1) * stride <= ebase + (num_entries as int) * stride)
                            by (nonlinear_arith)
                            requires
                                e + 1 <= num_entries as int,
                                stride >= 0,
                        ;
                    }
                }
                let value: u32 = if nb <= 1 {
                    let (v, pn) = match read_u8(bytes, p) {
                        Some(v) => v,
                        None => {
                            proof {
                                if fits {
                                    assert(palette_col_width(bytes@, pos as int, c as int) == 1);
                                    assert(p + 1 <= bytes@.len());
                                    assert(false);
                                }
                            }
                            return Err(JP2Error::Truncated { offset: p as u64 });
                        },
                    };
                    p = pn;
                    v as u32
                } else if nb == 2 {
                    let (v, pn) = match read_u16(bytes, p) {
                        Some(v) => v,
                        None => {
                            proof {
                                if fits {
                                    assert(palette_col_width(bytes@, pos as int, c as int) == 2);
                                    assert(p + 2 <= bytes@.len());
                                    assert(false);
                                }
                            }
                            return Err(JP2Error::Truncated { offset: p as u64 });
                        },
                    };
                    p = pn;
                    v as u32
                } else {
                    // Palette values wider than 16 bits are outside this
                    // reader's resource bounds.
                    proof {
                        if fits {
                            assert(palette_col_narrow(bytes@, pos as int, c as int));
                            assert(false);
                        }
                    }
                    return Err(JP2Error::BoxMalformed { box_type: BOX_TYPE_PALETTE, offset });
                };
                row.push(value);
                proof {
                    assert(row@[c as int] == palette_entry_at(
                        bytes@,
                        pos as int,
                        num_columns as int,
                        e as int,
                        c as int,
                    ));
                }
                c = c + 1;
            }
            entry_rows.push(row);
            proof {
                assert(ebase + e * stride + stride == ebase + (e + 1) * stride)
                    by (nonlinear_arith);
            }
            e = e + 1;
        }
        Ok((PaletteBox { length, offset, bit_depths, entry_rows }, p))
    }
}

impl JBox for PaletteBox {
    fn identifier(&self) -> BoxType {
        BOX_TYPE_PALETTE
    }

    fn length(&self) -> u64 {
        self.length
    }

    fn offset(&self) -> u64 {
        self.offset
    }
}

/// The bits-per-component box: per-component depths when they vary.
#[derive(Debug)]
pub struct BitsPerComponentBox {
    pub length: u64,
    pub offset: u64,
    pub depths: Vec<u8>,
}

impl BitsPerComponentBox {
    /// The per-component bit depths, in codestream component order.
    pub fn bits_per_component(&self) -> (r: Vec<BitDepth>)
        ensures
            r@.len() == self.depths@.len(),
            forall|i: int|
                0 <= i < r@.len() ==> #[trigger] r@[i] == (if self.depths@[i] >= 128 {
                    BitDepth::Signed { value: ((self.depths@[i] & 0x7F) + 1) as u8 }
                } else {
                    BitDepth::Unsigned { value: (self.depths@[i] + 1) as u8 }
                }),
    {
        let mut out: Vec<BitDepth> = Vec::new();
        let mut i: usize = 0;
        while i < self.depths.len()
            invariant
                i <= self.depths@.len(),
                out@.len() == i,
                forall|j: int|
                    0 <= j < i ==> #[trigger] out@[j] == (if self.depths@[j] >= 128 {
                        BitDepth::Signed { value: ((self.depths@[j] & 0x7F) + 1) as u8 }
                    } else {
                        BitDepth::Unsigned { value: (self.depths@[j] + 1) as u8 }
                    }),
            decreases self.depths@.len() - i,
        {
            out.push(BitDepth::new(self.depths[i]));
            i = i + 1;
        }
        out
    }

    /// Parses the payload: one depth byte per component, filling the box.
    pub fn decode(bytes: &[u8], pos: usize, length: u64, offset: u64) -> (r: Result<
        (BitsPerComponentBox, usize),
        JP2Error,
    >)
        ensures
            match r {
                Ok((b, p2)) => {
                    &&& b.depths@.len() == length
                    &&& b.length == length
                    &&& b.offset == offset
                    &&& pos + length <= bytes@.len()
                    &&& b.depths@ == bytes@.subrange(pos as int, pos + length)
                    &&& p2 == pos + length
                },
                Err(_) => length > usize::MAX || pos + length > bytes@.len(),
            },
    {
        if length > usize::MAX as u64 {
            return Err(JP2Error::Truncated { offset: pos as u64 });
        }
        let (depths, p1) = match read_bytes(bytes, pos, length as usize) {
            Some(v) => v,
            None => {
                return Err(JP2Error::Truncated { offset: pos as u64 });
            },
        };
        Ok((BitsPerComponentBox { length, offset, depths }, p1))
    }
}

impl JBox for BitsPerComponentBox {
    fn identifier(&self) -> BoxType {
        BOX_TYPE_BITS_PER_COMPONENT
    }

    fn length(&self) -> u64 {
        self.length
    }

    fn offset(&self) -> u64 {
        self.offset
    }
}

/// The capture resolution box: the grid resolution at which the source was
/// digitized, as vertical and horizontal rationals with decimal exponents.
#[derive(Debug)]
pub struct CaptureResolutionBox {
    pub length: u64,
    pub offset: u64,
    pub vn: u16,
    pub vd: u16,
    pub hn: u16,
    pub hd: u16,
    pub ve: i8,
    pub he: i8,
}

impl CaptureResolutionBox {
    pub fn vertical_capture_grid_resolution_numerator(&self) -> (r: u16)
        ensures
            r == self.vn,
    {
        self.vn
    }

    pub fn vertical_capture_grid_resolution_denominator(&self) -> (r: u16)
        ensures
            r == self.vd,
    {
        self.vd
    }

    pub fn horizontal_capture_grid_resolution_numerator(&self) -> (r: u16)
        ensures
            r == self.hn,
    {
        self.hn
    }

    pub fn horizontal_capture_grid_resolution_denominator(&self) -> (r: u16)
        ensures
            r == self.hd,
    {
        self.hd
    }

    pub fn vertical_capture_grid_resolution_exponent(&self) -> (r: i8)
        ensures
            r == self.ve,
    {
        self.ve
    }

    pub fn horizontal_capture_grid_resolution_exponent(&self) -> (r: i8)
        ensures
            r == self.he,
    {
        self.he
    }

    /// Parses the ten-byte capture resolution payload.
    pub fn decode(bytes: &[u8], pos: usize, length: u64, offset: u64) -> (r: Result<
        (CaptureResolutionBox, usize),
        JP2Error,
    >)
        ensures
            match r {
                Ok((b, p2)) => {
                    &&& pos + 10 <= bytes@.len()
                    &&& b.vn == crate::bytes::be16(bytes@, pos as int)
                    &&& b.vd == crate::bytes::be16(bytes@, pos + 2)
                    &&& b.hn == crate::bytes::be16(bytes@, pos + 4)
                    &&& b.hd == crate::bytes::be16(bytes@, pos + 6)
                    &&& b.ve == bytes@[pos + 8] as i8
                    &&& b.he == bytes@[pos + 9] as i8
                    &&& p2 == pos + 10
                },
                Err(_) => pos + 10 > bytes@.len(),
            },
    {
        let (vn, p1) = match read_u16(bytes, pos) {
            Some(v) => v,
            None => {
                return Err(JP2Error::Truncated { offset: pos as u64 });
            },
        };
        let (vd, p2) = match read_u16(bytes, p1) {
            Some(v) => v,
            None => {
                return Err(JP2Error::Truncated { offset: p1 as u64 });
            },
        };
        let (hn, p3) = match read_u16(bytes, p2) {
            Some(v) => v,
            None => {
                return Err(JP2Error::Truncated { offset: p2 as u64 });
            },
        };
        let (hd, p4) = match read_u16(bytes, p3) {
            Some(v) => v,
            None => {
                return Err(JP2Error::Truncated { offset: p3 as u64 });
            },
        };
        let (ve, p5) = match read_u8(bytes, p4) {
            Some(v) => v,
            None => {
                return Err(JP2Error::Truncated { offset: p4 as u64 });
            },
        };
        let (he, p6) = match read_u8(bytes, p5) {
            Some(v) => v,
            None => {
                return Err(JP2Error::Truncated { offset: p5 as u64 });
            },
        };
        Ok((
            CaptureResolutionBox {
                length,
                offset,
                vn,
                vd,
                hn,
                hd,
                ve: ve as i8,
                he: he as i8,
            },
            p6,
        ))
    }
}

impl JBox for CaptureResolutionBox {
    fn identifier(&self) -> BoxType {
        BOX_TYPE_CAPTURE_RESOLUTION
    }

    fn length(&self) -> u64 {
        self.length
    }

    fn offset(&self) -> u64 {
        self.offset
    }
}

/// The default display resolution box: a suggested display grid
/// resolution, in the same rational form as the capture resolution.
#[derive(Debug)]
pub struct DefaultDisplayResolutionBox {
    pub length: u64,
    pub offset: u64,
    pub vn: u16,
    pub vd: u16,
    pub hn: u16,
    pub hd: u16,
    pub ve: i8,
    pub he: i8,
}

impl DefaultDisplayResolutionBox {
    pub fn vertical_display_grid_resolution_numerator(&self) -> (r: u16)
        ensures
            r == self.vn,
    {
        self.vn
    }

    pub fn vertical_display_grid_resolution_denominator(&self) -> (r: u16)
        ensures
            r == self.vd,
    {
        self.vd
    }

    pub fn horizontal_display_grid_resolution_numerator(&self) -> (r: u16)
        ensures
            r == self.hn,
    {
        self.hn
    }

    pub fn horizontal_display_grid_resolution_denominator(&self) -> (r: u16)
        ensures
            r == self.hd,
    {
        self.hd
    }

    pub fn vertical_display_grid_resolution_exponent(&self) -> (r: i8)
        ensures
            r == self.ve,
    {
        self.ve
    }

    pub fn horizontal_display_grid_resolution_exponent(&self) -> (r: i8)
        ensures
            r == self.he,
    {
        self.he
    }

    /// Parses the ten-byte display resolution payload.
    pub fn decode(bytes: &[u8], pos: usize, length: u64, offset: u64) -> (r: Result<
        (DefaultDisplayResolutionBox, usize),
        JP2Error,
    >)
        ensures
            match r {
                Ok((b, p2)) => {
                    &&& pos + 10 <= bytes@.len()
                    &&& b.vn == crate::bytes::be16(bytes@, pos as int)
                    &&& b.vd == crate::bytes::be16(bytes@, pos + 2)
                    &&& b.hn == crate::bytes::be16(bytes@, pos + 4)
                    &&& b.hd == crate::bytes::be16(bytes@, pos + 6)
                    &&& b.ve == bytes@[pos + 8] as i8
                    &&& b.he == bytes@[pos + 9] as i8
                    &&& p2 == pos + 10
                },
                Err(_) => pos + 10 > bytes@.len(),
            },
    {
        let (vn, p1) = match read_u16(bytes, pos) {
            Some(v) => v,
            None => {
                return Err(JP2Error::Truncated { offset: pos as u64 });
            },
        };
        let (vd, p2) = match read_u16(bytes, p1) {
            Some(v) => v,
            None => {
                return Err(JP2Error::Truncated { offset: p1 as u64 });
            },
        };
        let (hn, p3) = match read_u16(bytes, p2) {
            Some(v) => v,
            None => {
                return Err(JP2Error::Truncated { offset: p2 as u64 });
            },
        };
        let (hd, p4) = match read_u16(bytes, p3) {
            Some(v) => v,
            None => {
                return Err(JP2Error::Truncated { offset: p3 as u64 });
            },
        };
        let (ve, p5) = match read_u8(bytes, p4) {
            Some(v) => v,
            None => {
                return Err(JP2Error::Truncated { offset: p4 as u64 });
            },
        };
        let (he, p6) = match read_u8(bytes, p5) {
            Some(v) => v,
            None => {
                return Err(JP2Error::Truncated { offset: p5 as u64 });
            },
        };
        Ok((
            DefaultDisplayResolutionBox {
                length,
                offset,
                vn,
                vd,
                hn,
                hd,
                ve: ve as i8,
                he: he as i8,
            },
            p6,
        ))
    }
}

impl JBox for DefaultDisplayResolutionBox {
    fn identifier(&self) -> BoxType {
        BOX_TYPE_DEFAULT_DISPLAY_RESOLUTION
    }

    fn length(&self) -> u64 {
        self.length
    }

    fn offset(&self) -> u64 {
        self.offset
    }
}

/// The resolution superbox: capture and default display resolutions.
#[derive(Debug)]
pub struct ResolutionSuperBox {
    pub length: u64,
    pub offset: u64,
    pub capture: Option<CaptureResolutionBox>,
    pub default_display: Option<DefaultDisplayResolutionBox>,
}

impl ResolutionSuperBox {
    /// The capture resolution, when present.
    pub fn capture_resolution_box(&self) -> (r: &Option<CaptureResolutionBox>)
        ensures
            r == self.capture,
    {
        &self.capture
    }

    /// The default display resolution, when present.
    pub fn default_display_resolution_box(&self) -> (r: &Option<DefaultDisplayResolutionBox>)
        ensures
            r == self.default_display,
    {
        &self.default_display
    }

    /// Whether the rational resolution fields `vn/vd`, `hn/hd` and the two
    /// exponents were read from the ten payload bytes at `q`.
    pub open spec fn resolution_fields_at(
        bytes: Seq<u8>,
        q: int,
        vn: u16,
        vd: u16,
        hn: u16,
        hd: u16,
        ve: i8,
        he: i8,
    ) -> bool {
        &&& 0 <= q
        &&& q + 10 <= bytes.len()
        &&& vn == crate::bytes::be16(bytes, q)
        &&& vd == crate::bytes::be16(bytes, q + 2)
        &&& hn == crate::bytes::be16(bytes, q + 4)
        &&& hd == crate::bytes::be16(bytes, q + 6)
        &&& ve == bytes[q + 8] as i8
        &&& he == bytes[q + 9] as i8
    }

    /// Parses the resolution superbox: its sub-boxes in any order within
    /// the superbox's payload, at least one of the two present, neither
    /// repeated; each parsed sub-box's fields come from ten payload bytes
    /// of the input.
    pub fn decode(bytes: &[u8], pos: usize, length: u64, offset: u64) -> (r: Result<
        (ResolutionSuperBox, usize),
        JP2Error,
    >)
        ensures
            match r {
                Ok((b, p2)) => {
                    &&& b.capture is Some || b.default_display is Some
                    &&& (b.capture matches Some(cb) ==> exists|q: int|
                        pos < q && #[trigger] Self::resolution_fields_at(
                            bytes@,
                            q,
                            cb.vn,
                            cb.vd,
                            cb.hn,
                            cb.hd,
                            cb.ve,
                            cb.he,
                        ))
                    &&& (b.default_display matches Some(db) ==> exists|q: int|
                        pos < q && #[trigger] Self::resolution_fields_at(
                            bytes@,
                            q,
                            db.vn,
                            db.vd,
                            db.hn,
                            db.hd,
                            db.ve,
                            db.he,
                        ))
                },
                Err(_) => true,
            },
    {
        let mut capture: Option<CaptureResolutionBox> = None;
        let mut default_display: Option<DefaultDisplayResolutionBox> = None;
        let mut p = pos;
        let ghost mut cap_q: int = 0;
        let ghost mut disp_q: int = 0;
        // The walk must not run past the superbox's own payload.
        let end64: u64 = if length > u64::MAX - pos as u64 {
            u64::MAX
        } else {
            pos as u64 + length
        };
        loop
            invariant
                p >= pos,
                capture matches Some(cb) ==> pos < cap_q && Self::resolution_fields_at(
                    bytes@,
                    cap_q,
                    cb.vn,
                    cb.vd,
                    cb.hn,
                    cb.hd,
                    cb.ve,
                    cb.he,
                ),
                default_display matches Some(db) ==> pos < disp_q && Self::resolution_fields_at(
                    bytes@,
                    disp_q,
                    db.vn,
                    db.vd,
                    db.hn,
                    db.hd,
                    db.ve,
                    db.he,
                ),
            decreases vstd::math::max(0, bytes@.len() as int + 1 - p),
        {
            if p >= bytes.len() || p as u64 >= end64 {
                break;
            }
            let (hdr, body) = match decode_box_header(bytes, p) {
                Ok(v) => v,
                Err(_) => {
                    break;
                },
            };
            match BoxTypes::new(hdr.box_type) {
                BoxTypes::CaptureResolution => {
                    if capture.is_some() {
                        return Err(JP2Error::BoxUnexpected {
                            box_type: BOX_TYPE_CAPTURE_RESOLUTION,
                            offset: body as u64,
                        });
                    }
                    let (cb, pn) = match CaptureResolutionBox::decode(
                        bytes,
                        body,
                        hdr.box_length,
                        body as u64,
                    ) {
                        Ok(v) => v,
                        Err(e) => {
                            return Err(e);
                        },
                    };
                    if pn <= p {
                        break;
                    }
                    proof {
                        cap_q = body as int;
                        assert(Self::resolution_fields_at(
                            bytes@,
                            cap_q,
                            cb.vn,
                            cb.vd,
                            cb.hn,
                            cb.hd,
                            cb.ve,
                            cb.he,
                        ));
                    }
                    capture = Some(cb);
                    p = pn;
                },
                BoxTypes::DefaultDisplayResolution => {
                    if default_display.is_some() {
                        return Err(JP2Error::BoxUnexpected {
                            box_type: BOX_TYPE_DEFAULT_DISPLAY_RESOLUTION,
                            offset: body as u64,
                        });
                    }
                    let (db, pn) = match DefaultDisplayResolutionBox::decode(
                        bytes,
                        body,
                        hdr.box_length,
                        body as u64,
                    ) {
                        Ok(v) => v,
                        Err(e) => {
                            return Err(e);
                        },
                    };
                    if pn <= p {
                        break;
                    }
                    proof {
                        disp_q = body as int;
                        assert(Self::resolution_fields_at(
                            bytes@,
                            disp_q,
                            db.vn,
                            db.vd,
                            db.hn,
                            db.hd,
                            db.ve,
                            db.he,
                        ));
                    }
                    default_display = Some(db);
                    p = pn;
                },
                _ => {
                    break;
                },
            }
        }
        if capture.is_none() && default_display.is_none() {
            return Err(JP2Error::BoxMalformed { box_type: BOX_TYPE_RESOLUTION, offset });
        }
        Ok((ResolutionSuperBox { length, offset, capture, default_display }, p))
    }
}

impl JBox for ResolutionSuperBox {
    fn identifier(&self) -> BoxType {
        BOX_TYPE_RESOLUTION
    }

    fn length(&self) -> u64 {
        self.length
    }

    fn offset(&self) -> u64 {
        self.offset
    }
}

/// The result of decoding the characters of a byte payload; the name
/// stands for whatever the lossy conversion of the standard library
/// produces on those bytes.
pub uninterp spec fn utf8_lossy_of(bytes: Seq<u8>) -> Seq<char>;

/// Relies on String::from_utf8_lossy: the characters depend on the bytes
/// alone, with invalid sequences replaced.
#[verifier::external_body]
fn utf8_lossy(bytes: &Vec<u8>) -> (r: String)
    ensures
        r@ == utf8_lossy_of(bytes@),
{
    String::from_utf8_lossy(bytes).into_owned()
}

/// The intellectual property box: rights information carried verbatim.
#[derive(Debug)]
pub struct IntellectualPropertyBox {
    pub length: u64,
    pub offset: u64,
    pub data: Vec<u8>,
}

impl IntellectualPropertyBox {
    /// The payload as text.
    pub fn format(&self) -> (r: String)
        ensures
            r@ == utf8_lossy_of(self.data@),
    {
        utf8_lossy(&self.data)
    }

    /// Takes the whole payload verbatim.
    pub fn decode(bytes: &[u8], pos: usize, length: u64, offset: u64) -> (r: Result<
        (IntellectualPropertyBox, usize),
        JP2Error,
    >)
        ensures
            match r {
                Ok((b, p2)) => {
                    &&& pos + length <= bytes@.len()
                    &&& b.data@ == bytes@.subrange(pos as int, pos + length)
                    &&& p2 == pos + length
                },
                Err(_) => length > usize::MAX || pos + length > bytes@.len(),
            },
    {
        if length > usize::MAX as u64 {
            return Err(JP2Error::Truncated { offset: pos as u64 });
        }
        let (data, p1) = match read_bytes(bytes, pos, length as usize) {
            Some(v) => v,
            None => {
                return Err(JP2Error::Truncated { offset: pos as u64 });
            },
        };
        Ok((IntellectualPropertyBox { length, offset, data }, p1))
    }
}

impl JBox for IntellectualPropertyBox {
    fn identifier(&self) -> BoxType {
        BOX_TYPE_INTELLECTUAL_PROPERTY
    }

    fn length(&self) -> u64 {
        self.length
    }

    fn offset(&self) -> u64 {
        self.offset
    }
}

/// An XML box: vendor-specific information in XML form.
#[derive(Debug)]
pub struct XMLBox {
    pub length: u64,
    pub offset: u64,
    pub xml: Vec<u8>,
}

impl XMLBox {
    /// The payload as text.
    pub fn format(&self) -> (r: String)
        ensures
            r@ == utf8_lossy_of(self.xml@),
    {
        utf8_lossy(&self.xml)
    }

    /// Takes the whole payload verbatim.
    pub fn decode(bytes: &[u8], pos: usize, length: u64, offset: u64) -> (r: Result<
        (XMLBox, usize),
        JP2Error,
    >)
        ensures
            match r {
                Ok((b, p2)) => {
                    &&& pos + length <= bytes@.len()
                    &&& b.xml@ == bytes@.subrange(pos as int, pos + length)
                    &&& p2 == pos + length
                },
                Err(_) => length > usize::MAX || pos + length > bytes@.len(),
            },
    {
        if length > usize::MAX as u64 {
            return Err(JP2Error::Truncated { offset: pos as u64 });
        }
        let (xml, p1) = match read_bytes(bytes, pos, length as usize) {
            Some(v) => v,
            None => {
                return Err(JP2Error::Truncated { offset: pos as u64 });
            },
        };
        Ok((XMLBox { length, offset, xml }, p1))
    }
}

impl JBox for XMLBox {
    fn identifier(&self) -> BoxType {
        BOX_TYPE_XML
    }

    fn length(&self) -> u64 {
        self.length
    }

    fn offset(&self) -> u64 {
        self.offset
    }
}

/// A UUID box: vendor-specific information tagged by a 16-byte identifier.
#[derive(Debug)]
pub struct UUIDBox {
    pub length: u64,
    pub offset: u64,
    pub id: Vec<u8>,
    pub payload: Vec<u8>,
}

impl UUIDBox {
    /// The 16-byte identifier naming the payload's format.
    pub fn uuid(&self) -> (r: &Vec<u8>)
        ensures
            r == self.id,
    {
        &self.id
    }

    /// The vendor-specific payload.
    pub fn data(&self) -> (r: &Vec<u8>)
        ensures
            r == self.payload,
    {
        &self.payload
    }

    /// Parses the identifier and takes the rest of the payload verbatim.
    pub fn decode(bytes: &[u8], pos: usize, length: u64, offset: u64) -> (r: Result<
        (UUIDBox, usize),
        JP2Error,
    >)
        requires
            length >= 16,
        ensures
            match r {
                Ok((b, p2)) => {
                    &&& pos + length <= bytes@.len()
                    &&& b.id@ == bytes@.subrange(pos as int, pos + 16)
                    &&& b.payload@ == bytes@.subrange(pos + 16, pos + length)
                    &&& p2 == pos + length
                },
                Err(_) => length > usize::MAX || pos + length > bytes@.len(),
            },
    {
        if length > usize::MAX as u64 {
            return Err(JP2Error::Truncated { offset: pos as u64 });
        }
        let (id, p1) = match read_bytes(bytes, pos, 16) {
            Some(v) => v,
            None => {
                return Err(JP2Error::Truncated { offset: pos as u64 });
            },
        };
        let (payload, p2) = match read_bytes(bytes, p1, (length - 16) as usize) {
            Some(v) => v,
            None => {
                return Err(JP2Error::Truncated { offset: p1 as u64 });
            },
        };
        Ok((UUIDBox { length, offset, id, payload }, p2))
    }
}

impl JBox for UUIDBox {
    fn identifier(&self) -> BoxType {
        BOX_TYPE_UUID
    }

    fn length(&self) -> u64 {
        self.length
    }

    fn offset(&self) -> u64 {
        self.offset
    }
}

/// The UUID list box: identifiers an info superbox provides links for.
#[derive(Debug)]
pub struct UUIDListBox {
    pub length: u64,
    pub offset: u64,
    pub id_list: Vec<Vec<u8>>,
}

impl UUIDListBox {
    /// The 16-byte identifiers.
    pub fn ids(&self) -> (r: &Vec<Vec<u8>>)
        ensures
            r == self.id_list,
    {
        &self.id_list
    }

    /// How many identifiers the box holds.
    pub fn number_of_uuids(&self) -> (r: u16)
        requires
            self.id_list@.len() <= u16::MAX,
        ensures
            r == self.id_list@.len(),
    {
        self.id_list.len() as u16
    }

    /// Parses the count and that many 16-byte identifiers.
    pub fn decode(bytes: &[u8], pos: usize, length: u64, offset: u64) -> (r: Result<
        (UUIDListBox, usize),
        JP2Error,
    >)
        ensures
            match r {
                Ok((b, p2)) => {
                    &&& pos + 2 <= bytes@.len()
                    &&& b.id_list@.len() == crate::bytes::be16(bytes@, pos as int)
                    &&& forall|i: int|
                        0 <= i < b.id_list@.len() ==> (#[trigger] b.id_list@[i])@
                            == bytes@.subrange(pos + 2 + 16 * i, pos + 18 + 16 * i)
                    &&& p2 == pos + 2 + 16 * crate::bytes::be16(bytes@, pos as int)
                },
                Err(_) => pos + 2 > bytes@.len() || pos + 2 + 16 * crate::bytes::be16(
                    bytes@,
                    pos as int,
                ) > bytes@.len(),
            },
    {
        let (count, p1) = match read_u16(bytes, pos) {
            Some(v) => v,
            None => {
                return Err(JP2Error::Truncated { offset: pos as u64 });
            },
        };
        let mut id_list: Vec<Vec<u8>> = Vec::new();
        let mut i: u16 = 0;
        let mut p = p1;
        while i < count
            invariant
                i <= count,
                pos + 2 <= bytes@.len(),
                count == crate::bytes::be16(bytes@, pos as int),
                p == pos + 2 + 16 * i,
                id_list@.len() == i,
                forall|j: int|
                    0 <= j < id_list@.len() ==> (#[trigger] id_list@[j])@ == bytes@.subrange(
                        pos + 2 + 16 * j,
                        pos + 18 + 16 * j,
                    ),
            decreases count - i,
        {
            proof {
                assert(pos + 2 + 16 * i + 16 <= pos + 2 + 16 * count) by (nonlinear_arith)
                    requires
                        i < count,
                ;
            }
            let (id, pn) = match read_bytes(bytes, p, 16) {
                Some(v) => v,
                None => {
                    return Err(JP2Error::Truncated { offset: p as u64 });
                },
            };
            id_list.push(id);
            p = pn;
            i = i + 1;
        }
        Ok((UUIDListBox { length, offset, id_list }, p))
    }
}

impl JBox for UUIDListBox {
    fn identifier(&self) -> BoxType {
        BOX_TYPE_UUID_LIST
    }

    fn length(&self) -> u64 {
        self.length
    }

    fn offset(&self) -> u64 {
        self.offset
    }
}

/// The data entry URL box: where to learn more about the listed
/// identifiers.
#[derive(Debug)]
pub struct DataEntryURLBox {
    pub length: u64,
    pub offset: u64,
    pub version_value: u8,
    pub flags_value: Vec<u8>,
    pub location_bytes: Vec<u8>,
}

impl DataEntryURLBox {
    /// The format version; zero in conforming files.
    pub fn version(&self) -> (r: u8)
        ensures
            r == self.version_value,
    {
        self.version_value
    }

    /// The three flag bytes; zero in conforming files.
    pub fn flags(&self) -> (r: &Vec<u8>)
        ensures
            r == self.flags_value,
    {
        &self.flags_value
    }

    /// The URL: a null-terminated string of the payload's remainder.
    pub fn location(&self) -> (r: &Vec<u8>)
        ensures
            r == self.location_bytes,
    {
        &self.location_bytes
    }

    /// Parses version, flags, and the URL filling the payload.
    pub fn decode(bytes: &[u8], pos: usize, length: u64, offset: u64) -> (r: Result<
        (DataEntryURLBox, usize),
        JP2Error,
    >)
        requires
            length >= 4,
        ensures
            match r {
                Ok((b, p2)) => {
                    &&& pos + length <= bytes@.len()
                    &&& b.version_value == bytes@[pos as int]
                    &&& b.flags_value@ == bytes@.subrange(pos + 1, pos + 4)
                    &&& b.location_bytes@ == bytes@.subrange(pos + 4, pos + length)
                    &&& p2 == pos + length
                },
                Err(_) => length > usize::MAX || pos + length > bytes@.len(),
            },
    {
        if length > usize::MAX as u64 {
            return Err(JP2Error::Truncated { offset: pos as u64 });
        }
        let (version_value, p1) = match read_u8(bytes, pos) {
            Some(v) => v,
            None => {
                return Err(JP2Error::Truncated { offset: pos as u64 });
            },
        };
        let (flags_value, p2) = match read_bytes(bytes, p1, 3) {
            Some(v) => v,
            None => {
                return Err(JP2Error::Truncated { offset: p1 as u64 });
            },
        };
        let (location_bytes, p3) = match read_bytes(bytes, p2, (length - 4) as usize) {
            Some(v) => v,
            None => {
                return Err(JP2Error::Truncated { offset: p2 as u64 });
            },
        };
        Ok((DataEntryURLBox { length, offset, version_value, flags_value, location_bytes }, p3))
    }
}

impl JBox for DataEntryURLBox {
    fn identifier(&self) -> BoxType {
        BOX_TYPE_DATA_ENTRY_URL
    }

    fn length(&self) -> u64 {
        self.length
    }

    fn offset(&self) -> u64 {
        self.offset
    }
}

/// A UUID info superbox: pairs a list of identifiers with a URL.
#[derive(Debug)]
pub struct UUIDInfoSuperBox {
    pub length: u64,
    pub offset: u64,
    pub uuid_list: Option<UUIDListBox>,
    pub data_entry_url: Option<DataEntryURLBox>,
}

impl UUIDInfoSuperBox {
    /// The identifier list, once parsed.
    pub fn uuid_list_box(&self) -> (r: &Option<UUIDListBox>)
        ensures
            r == self.uuid_list,
    {
        &self.uuid_list
    }

    /// The URL, once parsed.
    pub fn data_entry_url_box(&self) -> (r: &Option<DataEntryURLBox>)
        ensures
            r == self.data_entry_url,
    {
        &self.data_entry_url
    }
}

impl JBox for UUIDInfoSuperBox {
    fn identifier(&self) -> BoxType {
        BOX_TYPE_UUID_INFO
    }

    fn length(&self) -> u64 {
        self.length
    }

    fn offset(&self) -> u64 {
        self.offset
    }
}

/// A contiguous codestream box: the byte range holding the codestream.
#[derive(Debug)]
pub struct ContiguousCodestreamBox {
    pub length: u64,
    pub offset: u64,
}

impl ContiguousCodestreamBox {
    /// Records the codestream's position: a zero length runs to the end of
    /// the input.
    pub fn decode(bytes: &[u8], pos: usize, length: u64, offset: u64) -> (r: Result<
        (ContiguousCodestreamBox, usize),
        JP2Error,
    >)
        ensures
            match r {
                Ok((b, p2)) => {
                    &&& b.offset == offset
                    &&& (length == 0 ==> p2 == bytes@.len() && b.length == bytes@.len() - pos)
                    &&& (length != 0 ==> p2 == pos + length && b.length == length)
                },
                Err(_) => (length == 0 && pos > bytes@.len()) || (length != 0 && (length
                    > usize::MAX || pos + length > usize::MAX || pos + length > bytes@.len())),
            },
    {
        if length == 0 {
            if pos > bytes.len() {
                return Err(JP2Error::Truncated { offset: pos as u64 });
            }
            let rest = (bytes.len() - pos) as u64;
            Ok((ContiguousCodestreamBox { length: rest, offset }, bytes.len()))
        } else {
            if length > usize::MAX as u64 || pos > usize::MAX - (length as usize) || pos + (
            length as usize) > bytes.len() {
                return Err(JP2Error::Truncated { offset: pos as u64 });
            }
            Ok((ContiguousCodestreamBox { length, offset }, pos + length as usize))
        }
    }
}

impl JBox for ContiguousCodestreamBox {
    fn identifier(&self) -> BoxType {
        BOX_TYPE_CONTIGUOUS_CODESTREAM
    }

    fn length(&self) -> u64 {
        self.length
    }

    fn offset(&self) -> u64 {
        self.offset
    }
}

/// A parsed box header: the payload length (zero meaning "to the end of
/// the input"), the type code, and the header's own size.
#[derive(Debug, Clone, Copy, PartialEq, Eq, Structural)]
pub struct BoxHeader {
    pub box_length: u64,
    pub box_type: BoxType,
    pub header_length: u8,
}

/// Parses one box header at `pos`: a 32-bit length and a type, with an
/// optional 64-bit extended length. Returns the header and the payload's
/// start position. Lengths 2 through 7 are reserved and malformed, and an
/// extended length must cover at least its own header.
pub fn decode_box_header(bytes: &[u8], pos: usize) -> (r: Result<(BoxHeader, usize), JP2Error>)
    ensures
        match r {
            Ok((h, p2)) => {
                &&& pos + 8 <= bytes@.len()
                &&& h.box_type == crate::bytes::be32(bytes@, pos + 4)
                &&& p2 == pos + h.header_length
                &&& (h.header_length == 8 || h.header_length == 16)
                &&& !(2 <= crate::bytes::be32(bytes@, pos as int) <= 7)
                &&& (crate::bytes::be32(bytes@, pos as int) == 0 ==> h.box_length == 0
                    && h.header_length == 8)
                &&& (crate::bytes::be32(bytes@, pos as int) == 1 ==> h.box_length
                    == crate::bytes::be64(bytes@, pos + 8) - 16 && h.header_length == 16)
                &&& (crate::bytes::be32(bytes@, pos as int) >= 8 ==> h.box_length
                    == crate::bytes::be32(bytes@, pos as int) - 8 && h.header_length == 8)
            },
            Err(_) => {
                ||| pos + 8 > bytes@.len()
                ||| 2 <= crate::bytes::be32(bytes@, pos as int) <= 7
                ||| (crate::bytes::be32(bytes@, pos as int) == 1 && (pos + 16 > bytes@.len()
                    || crate::bytes::be64(bytes@, pos + 8) < 16))
            },
        },
{
    let (box_length_value, p1) = match read_u32(bytes, pos) {
        Some(v) => v,
        None => {
            return Err(JP2Error::Truncated { offset: pos as u64 });
        },
    };
    let (box_type, p2) = match read_u32(bytes, p1) {
        Some(v) => v,
        None => {
            return Err(JP2Error::Truncated { offset: p1 as u64 });
        },
    };
    if box_length_value == 0 {
        // The box runs to the end of the input.
        Ok((BoxHeader { box_length: 0, box_type, header_length: 8 }, p2))
    } else if box_length_value == 1 {
        // The actual length follows as a 64-bit field covering the whole
        // box, header included.
        let (xl, p3) = match read_u64(bytes, p2) {
            Some(v) => v,
            None => {
                return Err(JP2Error::Truncated { offset: p2 as u64 });
            },
        };
        if xl < 16 {
            return Err(JP2Error::BoxMalformed { box_type, offset: p2 as u64 });
        }
        Ok((BoxHeader { box_length: xl - 16, box_type, header_length: 16 }, p3))
    } else if box_length_value <= 7 {
        // Reserved length values.
        Err(JP2Error::BoxMalformed { box_type, offset: pos as u64 })
    } else {
        Ok((BoxHeader { box_length: (box_length_value - 8) as u64, box_type, header_length: 8 }, p2))
    }
}

/// A header superbox payload of the smallest conforming shape, `pos` its
/// first byte: the 22-byte image header box with an accepted bit depth,
/// then one 15-byte colour specification box carrying an enumerated,
/// parameterless colourspace, the two together filling the 37 payload
/// bytes.
pub open spec fn spec_minimal_header(bytes: Seq<u8>, pos: int) -> bool {
    &&& pos >= 0
    &&& pos + 37 <= bytes.len()
    &&& crate::bytes::be32(bytes, pos) == 22
    &&& crate::bytes::be32(bytes, pos + 4) == BOX_TYPE_IMAGE_HEADER
    &&& (bytes[pos + 18] == 255 || (bytes[pos + 18] & 0x7F) <= 37)
    &&& crate::bytes::be32(bytes, pos + 22) == 15
    &&& crate::bytes::be32(bytes, pos + 26) == BOX_TYPE_COLOUR_SPECIFICATION
    &&& bytes[pos + 30] == 1
    &&& crate::bytes::be32(bytes, pos + 33) != 14
    &&& crate::bytes::be32(bytes, pos + 33) != 19
}

/// A file of the smallest conforming shape: the 12-byte signature box, a
/// 20-byte file type box naming the core brand once, a header superbox of
/// the smallest shape, and one codestream box running to the end of the
/// input.
pub open spec fn spec_minimal_file(bytes: Seq<u8>) -> bool {
    &&& bytes.len() >= 85
    &&& crate::bytes::be32(bytes, 0) == 12
    &&& crate::bytes::be32(bytes, 4) == BOX_TYPE_SIGNATURE
    &&& bytes[8] == 13 && bytes[9] == 10 && bytes[10] == 135 && bytes[11] == 10
    &&& crate::bytes::be32(bytes, 12) == 20
    &&& crate::bytes::be32(bytes, 16) == BOX_TYPE_FILE_TYPE
    &&& crate::bytes::be32(bytes, 20) == BRAND_JP2
    &&& crate::bytes::be32(bytes, 28) == BRAND_JP2
    &&& crate::bytes::be32(bytes, 32) == 45
    &&& crate::bytes::be32(bytes, 36) == BOX_TYPE_HEADER
    &&& spec_minimal_header(bytes, 40)
    &&& crate::bytes::be32(bytes, 77) == 0
    &&& crate::bytes::be32(bytes, 81) == BOX_TYPE_CONTIGUOUS_CODESTREAM
}

/// Whether the METH, PREC and APPROX fields of `cb` were read from the
/// three payload bytes at `q`.
pub open spec fn colour_fields_at(bytes: Seq<u8>, q: int, cb: ColourSpecificationBox) -> bool {
    &&& 0 <= q
    &&& q + 3 <= bytes.len()
    &&& cb.method.encoded_meth_value() == bytes[q]
    &&& cb.precedence == bytes[q + 1]
    &&& cb.colourspace_approximation == bytes[q + 2]
}

/// Whether `cb`'s METH, PREC and APPROX fields were read from three
/// payload bytes somewhere in the input.
pub open spec fn colour_tied(bytes: Seq<u8>, cb: ColourSpecificationBox) -> bool {
    exists|q: int| colour_fields_at(bytes, q, cb)
}

/// The header superbox: generic information about the file, starting with
/// the image header box and containing at least one colour specification.
#[derive(Debug)]
pub struct HeaderSuperBox {
    pub length: u64,
    pub offset: u64,
    pub image_header_box: ImageHeaderBox,
    pub bits_per_component_box: Option<BitsPerComponentBox>,
    pub colour_specification_boxes: Vec<ColourSpecificationBox>,
    pub palette_box: Option<PaletteBox>,
    pub component_mapping_box: Option<ComponentMappingBox>,
    pub channel_definition_box: Option<ChannelDefinitionBox>,
    pub resolution_box: Option<ResolutionSuperBox>,
}

/// Parses one child box of the header superbox at `p` and files it in
/// the slot its type names. Returns the next position; `None` ends the
/// walk (an unreadable header, a box that did not advance, or a box that
/// belongs outside the superbox).
#[verifier::rlimit(100)]
#[verifier::spinoff_prover]
fn header_child_step(
    bytes: &[u8],
    p: usize,
    Ghost(pos): Ghost<int>,
    bits_per_component_box: &mut Option<BitsPerComponentBox>,
    colour_specification_boxes: &mut Vec<ColourSpecificationBox>,
    palette_box: &mut Option<PaletteBox>,
    component_mapping_box: &mut Option<ComponentMappingBox>,
    channel_definition_box: &mut Option<ChannelDefinitionBox>,
    resolution_box: &mut Option<ResolutionSuperBox>,
) -> (r: (Result<Option<usize>, JP2Error>, Ghost<int>))
    ensures
        (r.0 matches Ok(Some(pn)) ==> pn > p),
        old(colour_specification_boxes)@.len() <= final(colour_specification_boxes)@.len()
            <= old(colour_specification_boxes)@.len() + 1,
        forall|k: int|
            0 <= k < old(colour_specification_boxes)@.len()
                ==> #[trigger] final(colour_specification_boxes)@[k]
                == old(colour_specification_boxes)@[k],
        final(colour_specification_boxes)@.len() == old(colour_specification_boxes)@.len() + 1
            ==> colour_fields_at(
            bytes@,
            r.1@,
            final(colour_specification_boxes)@[old(colour_specification_boxes)@.len() as int],
        ),
        (spec_minimal_header(bytes@, pos) && p == pos + 22
            && old(colour_specification_boxes)@.len() == 0) ==> (r.0 matches Ok(Some(pn)) && pn
            == pos + 37 && final(colour_specification_boxes)@.len() == 1),
{
    let data_len = bytes.len();
    let ghost minimal = spec_minimal_header(bytes@, pos) && p == pos + 22;
    let (h, body2) = match decode_box_header(bytes, p) {
        Ok(v) => v,
        Err(_) => {
            proof {
                if minimal {
                    assert(crate::bytes::be32(bytes@, p as int) == 15);
                    assert(false);
                }
            }
            return (Ok(None), Ghost(0));
        },
    };
    proof {
        if minimal {
            assert(h.box_type == crate::bytes::be32(bytes@, pos + 26));
            assert(h.box_type == BOX_TYPE_COLOUR_SPECIFICATION);
            assert(BoxTypes::spec_of(h.box_type) == BoxTypes::ColourSpecification);
            assert(h.box_length == 7);
            assert(body2 == pos + 30);
        }
    }
    match BoxTypes::new(h.box_type) {
        BoxTypes::ImageHeader => {
            // Image header boxes in other places are ignored.
            if h.box_length > usize::MAX as u64 || body2 > usize::MAX - (h.box_length as usize) {
                return (Ok(None), Ghost(0));
            }
            let pn = body2 + h.box_length as usize;
            if pn <= p {
                return (Ok(None), Ghost(0));
            }
            (Ok(Some(pn)), Ghost(0))
        },
        BoxTypes::ColourSpecification => {
            if h.box_length < 3 {
                return (
                    Err(JP2Error::BoxMalformed {
                        box_type: BOX_TYPE_COLOUR_SPECIFICATION,
                        offset: body2 as u64,
                    }),
                    Ghost(0),
                );
            }
            let (cb, pn) = match ColourSpecificationBox::decode(
                bytes,
                body2,
                h.box_length,
                body2 as u64,
            ) {
                Ok(v) => v,
                Err(e) => {
                    proof {
                        if minimal {
                            assert(bytes@[pos + 30] == 1);
                            assert(pos + 37 <= data_len);
                            assert(false);
                        }
                    }
                    return (Err(e), Ghost(0));
                },
            };
            proof {
                if minimal {
                    assert(pn == pos + 37);
                }
            }
            if pn <= p {
                return (Ok(None), Ghost(0));
            }
            colour_specification_boxes.push(cb);
            proof {
                let n = colour_specification_boxes@.len() - 1;
                assert(colour_fields_at(bytes@, body2 as int, colour_specification_boxes@[n]));
            }
            (Ok(Some(pn)), Ghost(body2 as int))
        },
        BoxTypes::BitsPerComponent => {
            if bits_per_component_box.is_some() {
                return (
                    Err(JP2Error::BoxDuplicate {
                        box_type: BOX_TYPE_BITS_PER_COMPONENT,
                        offset: body2 as u64,
                    }),
                    Ghost(0),
                );
            }
            let (bb, pn) = match BitsPerComponentBox::decode(bytes, body2, h.box_length, body2 as u64) {
                Ok(v) => v,
                Err(e) => {
                    return (Err(e), Ghost(0));
                },
            };
            if pn <= p {
                return (Ok(None), Ghost(0));
            }
            *bits_per_component_box = Some(bb);
            (Ok(Some(pn)), Ghost(0))
        },
        BoxTypes::Palette => {
            if palette_box.is_some() {
                return (
                    Err(JP2Error::BoxDuplicate {
                        box_type: BOX_TYPE_PALETTE,
                        offset: body2 as u64,
                    }),
                    Ghost(0),
                );
            }
            let (pb, pn) = match PaletteBox::decode(bytes, body2, h.box_length, body2 as u64) {
                Ok(v) => v,
                Err(e) => {
                    return (Err(e), Ghost(0));
                },
            };
            if pn <= p {
                return (Ok(None), Ghost(0));
            }
            *palette_box = Some(pb);
            (Ok(Some(pn)), Ghost(0))
        },
        BoxTypes::ComponentMapping => {
            if component_mapping_box.is_some() {
                return (
                    Err(JP2Error::BoxDuplicate {
                        box_type: BOX_TYPE_COMPONENT_MAPPING,
                        offset: body2 as u64,
                    }),
                    Ghost(0),
                );
            }
            let (mb, pn) = match ComponentMappingBox::decode(bytes, body2, h.box_length, body2 as u64) {
                Ok(v) => v,
                Err(e) => {
                    return (Err(e), Ghost(0));
                },
            };
            if pn <= p {
                return (Ok(None), Ghost(0));
            }
            *component_mapping_box = Some(mb);
            (Ok(Some(pn)), Ghost(0))
        },
        BoxTypes::ChannelDefinition => {
            if channel_definition_box.is_some() {
                return (
                    Err(JP2Error::BoxDuplicate {
                        box_type: BOX_TYPE_CHANNEL_DEFINITION,
                        offset: body2 as u64,
                    }),
                    Ghost(0),
                );
            }
            let (db, pn) = match ChannelDefinitionBox::decode(bytes, body2, h.box_length, body2 as u64) {
                Ok(v) => v,
                Err(e) => {
                    return (Err(e), Ghost(0));
                },
            };
            if pn <= p {
                return (Ok(None), Ghost(0));
            }
            *channel_definition_box = Some(db);
            (Ok(Some(pn)), Ghost(0))
        },
        BoxTypes::Resolution => {
            if resolution_box.is_some() {
                return (
                    Err(JP2Error::BoxDuplicate {
                        box_type: BOX_TYPE_RESOLUTION,
                        offset: body2 as u64,
                    }),
                    Ghost(0),
                );
            }
            let (rb, pn) = match ResolutionSuperBox::decode(bytes, body2, h.box_length, body2 as u64) {
                Ok(v) => v,
                Err(e) => {
                    return (Err(e), Ghost(0));
                },
            };
            if pn <= p {
                return (Ok(None), Ghost(0));
            }
            *resolution_box = Some(rb);
            (Ok(Some(pn)), Ghost(0))
        },
        BoxTypes::Unknown => {
            // Unknown boxes inside the header are skipped by their
            // declared length.
            if h.box_length > usize::MAX as u64 || body2 > usize::MAX - (h.box_length as usize) {
                return (Ok(None), Ghost(0));
            }
            let pn = body2 + h.box_length as usize;
            if pn <= p {
                return (Ok(None), Ghost(0));
            }
            (Ok(Some(pn)), Ghost(0))
        },
        _ => {
            // A recognised box that belongs outside the header ends the
            // superbox; it is left for the caller.
            (Ok(None), Ghost(0))
        },
    }
}

impl HeaderSuperBox {
    /// Parses the header superbox: the image header box first, then its
    /// other boxes in any order. Unknown boxes are skipped by their length;
    /// a recognised non-header box ends the superbox. At least one colour
    /// specification box must be present, and the boxes that may appear
    /// only once must not repeat.
    #[verifier::rlimit(100)]
    #[verifier::spinoff_prover]
    pub fn decode(bytes: &[u8], pos: usize, length: u64, offset: u64) -> (r: Result<
        (HeaderSuperBox, usize),
        JP2Error,
    >)
        ensures
            match r {
                Ok((b, p2)) => {
                    &&& b.colour_specification_boxes@.len() >= 1
                    &&& forall|k: int|
                        0 <= k < b.colour_specification_boxes@.len() ==> colour_tied(
                            bytes@,
                            #[trigger] b.colour_specification_boxes@[k],
                        )
                    &&& pos + 8 <= bytes@.len()
                    &&& crate::bytes::be32(bytes@, pos + 4) == BOX_TYPE_IMAGE_HEADER
                    &&& (crate::bytes::be32(bytes@, pos as int) >= 8 ==> {
                        &&& b.image_header_box.height_value == crate::bytes::be32(bytes@, pos + 8)
                        &&& b.image_header_box.width_value == crate::bytes::be32(bytes@, pos + 12)
                        &&& b.image_header_box.components == crate::bytes::be16(bytes@, pos + 16)
                        &&& b.image_header_box.bpc == bytes@[pos + 18]
                        &&& b.image_header_box.compression == bytes@[pos + 19]
                    })
                    &&& b.length == length
                    &&& b.offset == offset
                },
                Err(_) => true,
            },
            (spec_minimal_header(bytes@, pos as int) && length == 37 && offset == pos) ==> (
            r matches Ok(v) && v.1 == pos + 37),
    {
        let (hdr, body) = match decode_box_header(bytes, pos) {
            Ok(v) => v,
            Err(e) => {
                return Err(e);
            },
        };
        if hdr.box_type != BOX_TYPE_IMAGE_HEADER {
            return Err(JP2Error::BoxUnexpected { box_type: hdr.box_type, offset: body as u64 });
        }
        let (image_header_box, p0) = match ImageHeaderBox::decode(
            bytes,
            body,
            hdr.box_length,
            body as u64,
        ) {
            Ok(v) => v,
            Err(e) => {
                return Err(e);
            },
        };
        let mut bits_per_component_box: Option<BitsPerComponentBox> = None;
        let mut colour_specification_boxes: Vec<ColourSpecificationBox> = Vec::new();
        let mut palette_box: Option<PaletteBox> = None;
        let mut component_mapping_box: Option<ComponentMappingBox> = None;
        let mut channel_definition_box: Option<ChannelDefinitionBox> = None;
        let mut resolution_box: Option<ResolutionSuperBox> = None;
        let mut p = p0;
        let _data_len = bytes.len();
        let ghost mut qs: Seq<int> = Seq::empty();
        let ghost minimal = spec_minimal_header(bytes@, pos as int) && length == 37 && offset
            == pos;
        // The walk must not run past the superbox's own payload.
        let end64: u64 = if length > u64::MAX - offset {
            u64::MAX
        } else {
            offset + length
        };
        loop
            invariant
                p >= 0,
                qs.len() == colour_specification_boxes@.len(),
                forall|k: int|
                    0 <= k < qs.len() ==> colour_fields_at(
                        bytes@,
                        qs[k],
                        #[trigger] colour_specification_boxes@[k],
                    ),
                minimal == (spec_minimal_header(bytes@, pos as int) && length == 37 && offset
                    == pos),
                minimal ==> end64 == pos + 37,
                minimal ==> {
                    ||| (p == pos + 22 && colour_specification_boxes@.len() == 0)
                    ||| (p == pos + 37 && colour_specification_boxes@.len() >= 1)
                },
            ensures
                minimal ==> p == pos + 37 && colour_specification_boxes@.len() >= 1,
            decreases vstd::math::max(0, bytes@.len() as int + 1 - p),
        {
            if p >= bytes.len() || p as u64 >= end64 {
                proof {
                    if minimal {
                        assert(end64 == pos + 37);
                        assert(p == pos + 37);
                    }
                }
                break;
            }
            let ghost pre_cols = colour_specification_boxes@;
            let ghost pre_qs = qs;
            let (res, wq) = header_child_step(
                bytes,
                p,
                Ghost(pos as int),
                &mut bits_per_component_box,
                &mut colour_specification_boxes,
                &mut palette_box,
                &mut component_mapping_box,
                &mut channel_definition_box,
                &mut resolution_box,
            );
            proof {
                if colour_specification_boxes@.len() == pre_cols.len() + 1 {
                    qs = qs.push(wq@);
                }
                assert forall|k: int|
                    0 <= k < qs.len() implies colour_fields_at(
                    bytes@,
                    qs[k],
                    #[trigger] colour_specification_boxes@[k],
                ) by {
                    if k < pre_cols.len() {
                        assert(qs[k] == pre_qs[k]);
                        assert(colour_specification_boxes@[k] == pre_cols[k]);
                    }
                }
            }
            match res {
                Ok(Some(pn)) => {
                    p = pn;
                },
                Ok(None) => {
                    proof {
                        if minimal {
                            assert(false);
                        }
                    }
                    break;
                },
                Err(e) => {
                    proof {
                        if minimal {
                            assert(false);
                        }
                    }
                    return Err(e);
                },
            }
        }
        // At least one colour specification box is required.
        if colour_specification_boxes.len() == 0 {
            return Err(JP2Error::BoxMalformed {
                box_type: BOX_TYPE_IMAGE_HEADER,
                offset: p as u64,
            });
        }
        let result = HeaderSuperBox {
            length,
            offset,
            image_header_box,
            bits_per_component_box,
            colour_specification_boxes,
            palette_box,
            component_mapping_box,
            channel_definition_box,
            resolution_box,
        };
        proof {
            assert forall|k: int|
                0 <= k < result.colour_specification_boxes@.len() implies colour_tied(
                bytes@,
                #[trigger] result.colour_specification_boxes@[k],
            ) by {
                assert(colour_fields_at(bytes@, qs[k], result.colour_specification_boxes@[k]));
            }
        }
        Ok((result, p))
    }
}

impl JBox for HeaderSuperBox {
    fn identifier(&self) -> BoxType {
        BOX_TYPE_HEADER
    }

    fn length(&self) -> u64 {
        self.length
    }

    fn offset(&self) -> u64 {
        self.offset
    }
}

/// A parsed file: the required signature, file type and header boxes, the
/// codestream positions, and the optional metadata boxes.
#[derive(Debug)]
pub struct JP2File {
    pub total_length: u64,
    pub signature: Option<SignatureBox>,
    pub file_type: Option<FileTypeBox>,
    pub header: Option<HeaderSuperBox>,
    pub contiguous_codestreams: Vec<ContiguousCodestreamBox>,
    pub intellectual_property: Option<IntellectualPropertyBox>,
    pub xml: Vec<XMLBox>,
    pub uuid: Vec<UUIDBox>,
    pub uuid_info: Vec<UUIDInfoSuperBox>,
}

impl JP2File {
    /// The number of bytes parsed.
    pub fn length(&self) -> (r: u64)
        ensures
            r == self.total_length,
    {
        self.total_length
    }

    /// The signature box; present in every successfully parsed file.
    pub fn signature_box(&self) -> (r: &Option<SignatureBox>)
        ensures
            r == self.signature,
    {
        &self.signature
    }

    /// The file type box; present in every successfully parsed file.
    pub fn file_type_box(&self) -> (r: &Option<FileTypeBox>)
        ensures
            r == self.file_type,
    {
        &self.file_type
    }

    /// The header superbox, once seen.
    pub fn header_box(&self) -> (r: &Option<HeaderSuperBox>)
        ensures
            r == self.header,
    {
        &self.header
    }

    /// The codestream boxes, in file order; readers use the first.
    pub fn contiguous_codestreams_boxes(&self) -> (r: &Vec<ContiguousCodestreamBox>)
        ensures
            r == self.contiguous_codestreams,
    {
        &self.contiguous_codestreams
    }

    /// The intellectual property box, when present.
    pub fn intellectual_property_box(&self) -> (r: &Option<IntellectualPropertyBox>)
        ensures
            r == self.intellectual_property,
    {
        &self.intellectual_property
    }

    /// The XML boxes, in file order.
    pub fn xml_boxes(&self) -> (r: &Vec<XMLBox>)
        ensures
            r == self.xml,
    {
        &self.xml
    }

    /// The UUID boxes, in file order.
    pub fn uuid_boxes(&self) -> (r: &Vec<UUIDBox>)
        ensures
            r == self.uuid,
    {
        &self.uuid
    }

    /// The UUID info superboxes, in file order.
    pub fn uuid_info_boxes(&self) -> (r: &Vec<UUIDInfoSuperBox>)
        ensures
            r == self.uuid_info,
    {
        &self.uuid_info
    }
}

/// Parses a whole file from memory.
///
/// The signature box must come first and the file type box second; a
/// header superbox must precede any codestream box and both must be
/// present. On success the signature, file type, header and codestream
/// boxes are present and validated.
#[verifier::rlimit(100)]
#[verifier::spinoff_prover]
pub fn decode_jp2(bytes: &[u8]) -> (r: Result<JP2File, JP2Error>)
    ensures
        match r {
            Ok(f) => {
                &&& f.signature is Some
                &&& bytes@.len() >= 12
                &&& crate::bytes::be32(bytes@, 4) == BOX_TYPE_SIGNATURE
                &&& bytes@[8] == 13 && bytes@[9] == 10 && bytes@[10] == 135 && bytes@[11] == 10
                &&& crate::bytes::be32(bytes@, 16) == BOX_TYPE_FILE_TYPE
                &&& (f.file_type matches Some(ft) && ft.brand_code == BRAND_JP2 && exists|j: int|
                    0 <= j < ft.compatibility@.len() && ft.compatibility@[j] == BRAND_JP2)
                &&& (crate::bytes::be32(bytes@, 12) >= 8 ==> (f.file_type matches Some(ft) && {
                    &&& ft.brand_code == crate::bytes::be32(bytes@, 20)
                    &&& ft.min_version_value == crate::bytes::be32(bytes@, 24)
                    &&& ft.compatibility@.len() == (crate::bytes::be32(bytes@, 12) - 16) / 4
                    &&& forall|i: int|
                        0 <= i < ft.compatibility@.len() ==> #[trigger] ft.compatibility@[i]
                            == compat_entry(bytes@, 20, i)
                }))
                &&& (f.header matches Some(h) && h.colour_specification_boxes@.len() >= 1)
                &&& f.contiguous_codestreams@.len() >= 1
                &&& (f.header matches Some(h) ==> forall|i: int|
                    0 <= i < f.contiguous_codestreams@.len() ==> h.offset
                        < #[trigger] f.contiguous_codestreams@[i].offset)
                &&& forall|i: int, j: int|
                    0 <= i < j < f.contiguous_codestreams@.len()
                        ==> #[trigger] f.contiguous_codestreams@[i].offset
                        < #[trigger] f.contiguous_codestreams@[j].offset
            },
            Err(_) => true,
        },
        spec_minimal_file(bytes@) ==> r is Ok,
{
    let (hdr0, body0) = match decode_box_header(bytes, 0) {
        Ok(v) => v,
        Err(e) => {
            return Err(e);
        },
    };
    if hdr0.box_type != BOX_TYPE_SIGNATURE {
        return Err(JP2Error::BoxUnexpected { box_type: hdr0.box_type, offset: body0 as u64 });
    }
    if hdr0.header_length != 8 {
        return Err(JP2Error::BoxMalformed { box_type: BOX_TYPE_SIGNATURE, offset: 0 });
    }
    let (signature_box, p1) = match SignatureBox::decode(bytes, body0, body0 as u64) {
        Ok(v) => v,
        Err(e) => {
            return Err(e);
        },
    };
    let (hdr1, body1) = match decode_box_header(bytes, p1) {
        Ok(v) => v,
        Err(e) => {
            return Err(e);
        },
    };
    if hdr1.box_type != BOX_TYPE_FILE_TYPE {
        return Err(JP2Error::BoxUnexpected { box_type: hdr1.box_type, offset: body1 as u64 });
    }
    if hdr1.box_length < 8 {
        return Err(JP2Error::BoxMalformed { box_type: BOX_TYPE_FILE_TYPE, offset: p1 as u64 });
    }
    let (file_type_box, p2) = match FileTypeBox::decode(
        bytes,
        body1,
        hdr1.box_length,
        body1 as u64,
    ) {
        Ok(v) => v,
        Err(e) => {
            proof {
                if spec_minimal_file(bytes@) {
                    assert(compat_entry(bytes@, 20, 0) == BRAND_JP2);
                    assert(false);
                }
            }
            return Err(e);
        },
    };
    let mut header_box_option: Option<HeaderSuperBox> = None;
    let mut contiguous_codestream_boxes: Vec<ContiguousCodestreamBox> = Vec::new();
    let mut intellectual_property_option: Option<IntellectualPropertyBox> = None;
    let mut xml_boxes: Vec<XMLBox> = Vec::new();
    let mut uuid_boxes: Vec<UUIDBox> = Vec::new();
    let mut uuid_info_boxes: Vec<UUIDInfoSuperBox> = Vec::new();
    let mut current_uuid_info_box: Option<UUIDInfoSuperBox> = None;
    let mut p = p2;
    let ghost minimal = spec_minimal_file(bytes@);
    loop
        invariant
            p >= 0,
            bytes@.len() >= 12,
            bytes@[8] == 13 && bytes@[9] == 10 && bytes@[10] == 135 && bytes@[11] == 10,
            file_type_box.brand_code == BRAND_JP2,
            exists|j: int|
                0 <= j < file_type_box.compatibility@.len() && file_type_box.compatibility@[j]
                    == BRAND_JP2,
            header_box_option matches Some(h) ==> h.colour_specification_boxes@.len() >= 1,
            header_box_option matches Some(h) ==> h.offset < p,
            header_box_option is None ==> contiguous_codestream_boxes@.len() == 0,
            forall|i: int|
                0 <= i < contiguous_codestream_boxes@.len()
                    ==> #[trigger] contiguous_codestream_boxes@[i].offset <= p,
            forall|i: int, j: int|
                0 <= i < j < contiguous_codestream_boxes@.len()
                    ==> #[trigger] contiguous_codestream_boxes@[i].offset
                    < #[trigger] contiguous_codestream_boxes@[j].offset,
            (header_box_option matches Some(h) ==> forall|i: int|
                0 <= i < contiguous_codestream_boxes@.len() ==> h.offset
                    < #[trigger] contiguous_codestream_boxes@[i].offset),
            minimal == spec_minimal_file(bytes@),
            minimal ==> {
                ||| (p == 32 && header_box_option is None && contiguous_codestream_boxes@.len()
                    == 0)
                ||| (p == 77 && header_box_option is Some && contiguous_codestream_boxes@.len()
                    == 0)
                ||| (p == bytes@.len() && header_box_option is Some
                    && contiguous_codestream_boxes@.len() >= 1)
            },
        ensures
            minimal ==> header_box_option is Some && contiguous_codestream_boxes@.len() >= 1,
        decreases vstd::math::max(0, bytes@.len() as int + 1 - p),
    {
        if p >= bytes.len() {
            proof {
                if minimal {
                    assert(p == bytes@.len());
                }
            }
            break;
        }
        let (h, body) = match decode_box_header(bytes, p) {
            Ok(v) => v,
            Err(_) => {
                // A trailing fragment too short for a box header ends the
                // parse, as an exhausted input does.
                proof {
                    if minimal {
                        assert(p == 32 || p == 77);
                        assert(false);
                    }
                }
                break;
            },
        };
        proof {
            if minimal {
                if p == 32 {
                    assert(h.box_type == crate::bytes::be32(bytes@, 36));
                    assert(h.box_type == BOX_TYPE_HEADER);
                    assert(BoxTypes::spec_of(h.box_type) == BoxTypes::Header);
                    assert(h.box_length == 37);
                    assert(body == 40);
                } else {
                    assert(p == 77);
                    assert(h.box_type == crate::bytes::be32(bytes@, 81));
                    assert(h.box_type == BOX_TYPE_CONTIGUOUS_CODESTREAM);
                    assert(BoxTypes::spec_of(h.box_type) == BoxTypes::ContiguousCodestream);
                    assert(h.box_length == 0);
                    assert(body == 85);
                }
            }
        }
        match BoxTypes::new(h.box_type) {
            BoxTypes::Header => {
                // There is exactly one header superbox in a file.
                if header_box_option.is_some() {
                    return Err(JP2Error::BoxDuplicate {
                        box_type: BOX_TYPE_HEADER,
                        offset: body as u64,
                    });
                }
                let (hb, pn) = match HeaderSuperBox::decode(bytes, body, h.box_length, body as u64)
                    {
                    Ok(v) => v,
                    Err(e) => {
                        proof {
                            if minimal {
                                assert(false);
                            }
                        }
                        return Err(e);
                    },
                };
                proof {
                    if minimal {
                        assert(pn == 77);
                    }
                }
                if pn <= body {
                    break;
                }
                header_box_option = Some(hb);
                p = pn;
            },
            BoxTypes::IntellectualProperty => {
                proof {
                    if minimal {
                        assert(false);
                    }
                }
                let (ib, pn) = match IntellectualPropertyBox::decode(
                    bytes,
                    body,
                    h.box_length,
                    body as u64,
                ) {
                    Ok(v) => v,
                    Err(e) => {
                        return Err(e);
                    },
                };
                if pn <= p {
                    break;
                }
                intellectual_property_option = Some(ib);
                p = pn;
            },
            BoxTypes::Xml => {
                proof {
                    if minimal {
                        assert(false);
                    }
                }
                let (xb, pn) = match XMLBox::decode(bytes, body, h.box_length, body as u64) {
                    Ok(v) => v,
                    Err(e) => {
                        return Err(e);
                    },
                };
                if pn <= p {
                    break;
                }
                xml_boxes.push(xb);
                p = pn;
            },
            BoxTypes::Uuid => {
                proof {
                    if minimal {
                        assert(false);
                    }
                }
                if h.box_length < 16 {
                    return Err(JP2Error::BoxMalformed {
                        box_type: BOX_TYPE_UUID,
                        offset: body as u64,
                    });
                }
                let (ub, pn) = match UUIDBox::decode(bytes, body, h.box_length, body as u64) {
                    Ok(v) => v,
                    Err(e) => {
                        return Err(e);
                    },
                };
                if pn <= p {
                    break;
                }
                uuid_boxes.push(ub);
                p = pn;
            },
            BoxTypes::UUIDInfo => {
                proof {
                    if minimal {
                        assert(false);
                    }
                }
                // The info superbox's children follow as the next boxes and
                // attach to it as they are parsed.
                if let Some(info_box) = current_uuid_info_box {
                    uuid_info_boxes.push(info_box);
                }
                current_uuid_info_box = Some(
                    UUIDInfoSuperBox {
                        length: h.box_length,
                        offset: body as u64,
                        uuid_list: None,
                        data_entry_url: None,
                    },
                );
                if body <= p {
                    break;
                }
                p = body;
            },
            BoxTypes::UUIDList => {
                proof {
                    if minimal {
                        assert(false);
                    }
                }
                let (lb, pn) = match UUIDListBox::decode(bytes, body, h.box_length, body as u64) {
                    Ok(v) => v,
                    Err(e) => {
                        return Err(e);
                    },
                };
                match &mut current_uuid_info_box {
                    Some(uuid_info_box) => {
                        uuid_info_box.uuid_list = Some(lb);
                    },
                    None => {
                        return Err(JP2Error::BoxMissing { box_type: BOX_TYPE_UUID_INFO });
                    },
                }
                if pn <= p {
                    break;
                }
                p = pn;
            },
            BoxTypes::DataEntryURL => {
                proof {
                    if minimal {
                        assert(false);
                    }
                }
                if h.box_length < 4 {
                    return Err(JP2Error::BoxMalformed {
                        box_type: BOX_TYPE_DATA_ENTRY_URL,
                        offset: body as u64,
                    });
                }
                let (db, pn) = match DataEntryURLBox::decode(
                    bytes,
                    body,
                    h.box_length,
                    body as u64,
                ) {
                    Ok(v) => v,
                    Err(e) => {
                        return Err(e);
                    },
                };
                match &mut current_uuid_info_box {
                    Some(uuid_info_box) => {
                        uuid_info_box.data_entry_url = Some(db);
                    },
                    None => {
                        return Err(JP2Error::BoxMissing { box_type: BOX_TYPE_UUID_INFO });
                    },
                }
                if pn <= p {
                    break;
                }
                p = pn;
            },
            BoxTypes::ContiguousCodestream => {
                // The header superbox must precede the codestream.
                if header_box_option.is_none() {
                    return Err(JP2Error::BoxUnexpected {
                        box_type: h.box_type,
                        offset: body as u64,
                    });
                }
                let (cb, pn) = match ContiguousCodestreamBox::decode(
                    bytes,
                    body,
                    h.box_length,
                    body as u64,
                ) {
                    Ok(v) => v,
                    Err(e) => {
                        proof {
                            if minimal {
                                assert(false);
                            }
                        }
                        return Err(e);
                    },
                };
                proof {
                    if minimal {
                        assert(pn == bytes@.len());
                    }
                }
                if pn <= p {
                    break;
                }
                contiguous_codestream_boxes.push(cb);
                p = pn;
            },
            _ => {
                proof {
                    if minimal {
                        assert(false);
                    }
                }
                return Err(JP2Error::BoxUnexpected { box_type: h.box_type, offset: body as u64 });
            },
        }
    }
    if let Some(info_box) = current_uuid_info_box {
        uuid_info_boxes.push(info_box);
    }
    // The header superbox and at least one codestream box are mandatory.
    if header_box_option.is_none() {
        return Err(JP2Error::BoxMissing { box_type: BOX_TYPE_HEADER });
    }
    if contiguous_codestream_boxes.len() == 0 {
        return Err(JP2Error::BoxMissing { box_type: BOX_TYPE_CONTIGUOUS_CODESTREAM });
    }
    let f = JP2File {
        total_length: p as u64,
        signature: Some(signature_box),
        file_type: Some(file_type_box),
        header: header_box_option,
        contiguous_codestreams: contiguous_codestream_boxes,
        intellectual_property: intellectual_property_option,
        xml: xml_boxes,
        uuid: uuid_boxes,
        uuid_info: uuid_info_boxes,
    };
    proof {
        let ft = f.file_type->Some_0;
        let j = choose|j: int|
            0 <= j < ft.compatibility@.len() && ft.compatibility@[j] == BRAND_JP2;
        assert(0 <= j < ft.compatibility@.len() && ft.compatibility@[j] == BRAND_JP2);
    }
    Ok(f)
}

} // verus!

//! Colour specification: the methods by which a file declares the
//! colourspace of the decompressed image, and the enumerated colourspaces.

use vstd::prelude::*;
use vstd::string::StringExecFns;

use crate::bytes::read_bytes;
use crate::bytes::read_u16;
use crate::bytes::read_u32;
use crate::bytes::read_u8;
use crate::jp2::JP2Error;

verus! {

/// The big-endian bytes of a 32-bit value.
pub open spec fn be32_bytes(v: int) -> Seq<u8> {
    seq![
        ((v / 0x100_0000) % 0x100) as u8,
        ((v / 0x1_0000) % 0x100) as u8,
        ((v / 0x100) % 0x100) as u8,
        (v % 0x100) as u8,
    ]
}

/// The big-endian bytes of a 16-bit value.
pub open spec fn be16_bytes(v: int) -> Seq<u8> {
    seq![((v / 0x100) % 0x100) as u8, (v % 0x100) as u8]
}

/// Appends the big-endian bytes of a 32-bit value.
fn push_be32(out: &mut Vec<u8>, v: u32)
    ensures
        final(out)@ == old(out)@ + be32_bytes(v as int),
{
    out.push((v / 0x100_0000) as u8);
    out.push(((v / 0x1_0000) % 0x100) as u8);
    out.push(((v / 0x100) % 0x100) as u8);
    out.push((v % 0x100) as u8);
    proof {
        assert(final(out)@ =~= old(out)@ + be32_bytes(v as int));
    }
}

/// Appends the big-endian bytes of a 16-bit value.
fn push_be16(out: &mut Vec<u8>, v: u16)
    ensures
        final(out)@ == old(out)@ + be16_bytes(v as int),
{
    out.push((v / 0x100) as u8);
    out.push((v % 0x100) as u8);
    proof {
        assert(final(out)@ =~= old(out)@ + be16_bytes(v as int));
    }
}

/// The decimal digits of `n`, most significant first.
pub open spec fn spec_decimal(n: int) -> Seq<char>
    decreases n,
{
    if n < 0 {
        Seq::empty()
    } else if n < 10 {
        spec_digit(n)
    } else {
        spec_decimal(n / 10) + spec_digit(n % 10)
    }
}

/// The character of one decimal digit, as a one-character string.
pub open spec fn spec_digit(d: int) -> Seq<char> {
    if d == 0 {
        "0"@
    } else if d == 1 {
        "1"@
    } else if d == 2 {
        "2"@
    } else if d == 3 {
        "3"@
    } else if d == 4 {
        "4"@
    } else if d == 5 {
        "5"@
    } else if d == 6 {
        "6"@
    } else if d == 7 {
        "7"@
    } else if d == 8 {
        "8"@
    } else {
        "9"@
    }
}

/// Renders an integer in decimal.
pub fn decimal_string(n: u32) -> (r: String)
    ensures
        r@ == spec_decimal(n as int),
    decreases n,
{
    let d: &str = match n % 10 {
        0 => "0",
        1 => "1",
        2 => "2",
        3 => "3",
        4 => "4",
        5 => "5",
        6 => "6",
        7 => "7",
        8 => "8",
        _ => "9",
    };
    if n < 10 {
        let s = String::from_str(d);
        proof {
            assert(s@ =~= spec_decimal(n as int));
        }
        s
    } else {
        let mut s = decimal_string(n / 10);
        s.append(d);
        proof {
            assert(s@ =~= spec_decimal(n as int));
        }
        s
    }
}

/// Colour specification methods (the METH field).
#[derive(Debug, PartialEq)]
pub enum ColourSpecificationMethods {
    /// An enumerated colourspace, named by an integer code.
    EnumeratedColourSpace { code: EnumeratedColourSpaces },
    /// An embedded ICC profile from the restricted classes.
    RestrictedICCProfile { profile_data: Vec<u8> },
    /// Any embedded input ICC profile (an extension value).
    AnyICCProfile { profile_data: Vec<u8> },
    /// A vendor-defined colour method (an extension value).
    VendorColourMethod { vendor_defined_code: Vec<u8>, vendor_parameters: Vec<u8> },
    /// A parameterized colourspace (an extension value).
    ParameterizedColourspace {
        colour_primaries: u16,
        transfer_characteristics: u16,
        matrix_coefficients: u16,
        video_full_range: bool,
    },
    /// Any other value, reserved; readers ignore the whole box.
    Reserved { value: u8 },
}

impl ColourSpecificationMethods {
    /// The encoded METH byte of this method.
    pub fn encoded_meth(&self) -> (r: u8)
        ensures
            r == match self {
                ColourSpecificationMethods::EnumeratedColourSpace { .. } => 1u8,
                ColourSpecificationMethods::RestrictedICCProfile { .. } => 2u8,
                ColourSpecificationMethods::AnyICCProfile { .. } => 3u8,
                ColourSpecificationMethods::VendorColourMethod { .. } => 4u8,
                ColourSpecificationMethods::ParameterizedColourspace { .. } => 5u8,
                ColourSpecificationMethods::Reserved { value } => *value,
            },
    {
        match self {
            ColourSpecificationMethods::EnumeratedColourSpace { .. } => 1,
            ColourSpecificationMethods::RestrictedICCProfile { .. } => 2,
            ColourSpecificationMethods::AnyICCProfile { .. } => 3,
            ColourSpecificationMethods::VendorColourMethod { .. } => 4,
            ColourSpecificationMethods::ParameterizedColourspace { .. } => 5,
            ColourSpecificationMethods::Reserved { value } => *value,
        }
    }

    /// The METHDAT payload this method encodes to.
    pub open spec fn spec_methdat(self) -> Seq<u8> {
        match self {
            ColourSpecificationMethods::EnumeratedColourSpace { code } => code.spec_methdat(),
            ColourSpecificationMethods::RestrictedICCProfile { profile_data } => profile_data@,
            ColourSpecificationMethods::AnyICCProfile { profile_data } => profile_data@,
            ColourSpecificationMethods::VendorColourMethod {
                vendor_defined_code,
                vendor_parameters,
            } => vendor_defined_code@ + vendor_parameters@,
            ColourSpecificationMethods::ParameterizedColourspace {
                colour_primaries,
                transfer_characteristics,
                matrix_coefficients,
                video_full_range,
            } => be16_bytes(colour_primaries as int) + be16_bytes(transfer_characteristics as int)
                + be16_bytes(matrix_coefficients as int) + seq![
                if video_full_range {
                    0x80u8
                } else {
                    0u8
                },
            ],
            ColourSpecificationMethods::Reserved { value } => seq![value],
        }
    }

    /// Encodes the METHDAT payload of this method.
    pub fn encoded_methdat(&self) -> (r: Vec<u8>)
        ensures
            r@ == self.spec_methdat(),
    {
        match self {
            ColourSpecificationMethods::EnumeratedColourSpace { code } => code.encoded_methdat(),
            ColourSpecificationMethods::RestrictedICCProfile { profile_data } => {
                let mut out: Vec<u8> = Vec::new();
                append_bytes(&mut out, profile_data);
                proof {
                    assert(out@ =~= self.spec_methdat());
                }
                out
            },
            ColourSpecificationMethods::AnyICCProfile { profile_data } => {
                let mut out: Vec<u8> = Vec::new();
                append_bytes(&mut out, profile_data);
                proof {
                    assert(out@ =~= self.spec_methdat());
                }
                out
            },
            ColourSpecificationMethods::VendorColourMethod {
                vendor_defined_code,
                vendor_parameters,
            } => {
                let mut out: Vec<u8> = Vec::new();
                append_bytes(&mut out, vendor_defined_code);
                append_bytes(&mut out, vendor_parameters);
                proof {
                    assert(out@ =~= self.spec_methdat());
                }
                out
            },
            ColourSpecificationMethods::ParameterizedColourspace {
                colour_primaries,
                transfer_characteristics,
                matrix_coefficients,
                video_full_range,
            } => {
                let mut out: Vec<u8> = Vec::new();
                push_be16(&mut out, *colour_primaries);
                push_be16(&mut out, *transfer_characteristics);
                push_be16(&mut out, *matrix_coefficients);
                out.push(
                    if *video_full_range {
                        0x80
                    } else {
                        0x00
                    },
                );
                proof {
                    assert(out@ =~= self.spec_methdat());
                }
                out
            },
            ColourSpecificationMethods::Reserved { value } => {
                let mut out: Vec<u8> = Vec::new();
                out.push(*value);
                proof {
                    assert(out@ =~= self.spec_methdat());
                }
                out
            },
        }
    }

    /// A human-readable description of the method.
    pub open spec fn spec_description(self) -> Seq<char> {
        match self {
            ColourSpecificationMethods::EnumeratedColourSpace { code } => {
                "Enumerated colourspace: "@ + code.spec_description()
            },
            ColourSpecificationMethods::RestrictedICCProfile { .. } => "Restricted ICC Profile"@,
            ColourSpecificationMethods::AnyICCProfile { .. } => "\"Any\" ICC Profile"@,
            ColourSpecificationMethods::VendorColourMethod { .. } => "Vendor Colour"@,
            ColourSpecificationMethods::ParameterizedColourspace {
                colour_primaries,
                transfer_characteristics,
                matrix_coefficients,
                video_full_range,
            } => {
                "Parameterized colourspace, colour primaries: "@ + spec_decimal(
                    colour_primaries as int,
                ) + ", transfer characteristics: "@ + spec_decimal(transfer_characteristics as int)
                    + ", matrix coefficients: "@ + spec_decimal(matrix_coefficients as int)
                    + ", video full range: "@ + (if video_full_range {
                    "true"@
                } else {
                    "false"@
                })
            },
            ColourSpecificationMethods::Reserved { value } => spec_decimal(value as int),
        }
    }

    /// Renders the method for display.
    pub fn description(&self) -> (r: String)
        ensures
            r@ == self.spec_description(),
    {
        match self {
            ColourSpecificationMethods::EnumeratedColourSpace { code } => {
                let s = String::from_str("Enumerated colourspace: ");
                s.concat(code.description().as_str())
            },
            ColourSpecificationMethods::RestrictedICCProfile { .. } => String::from_str(
                "Restricted ICC Profile",
            ),
            ColourSpecificationMethods::AnyICCProfile { .. } => String::from_str(
                "\"Any\" ICC Profile",
            ),
            ColourSpecificationMethods::VendorColourMethod { .. } => String::from_str(
                "Vendor Colour",
            ),
            ColourSpecificationMethods::ParameterizedColourspace {
                colour_primaries,
                transfer_characteristics,
                matrix_coefficients,
                video_full_range,
            } => {
                let mut s = String::from_str("Parameterized colourspace, colour primaries: ");
                s.append(decimal_string(*colour_primaries as u32).as_str());
                s.append(", transfer characteristics: ");
                s.append(decimal_string(*transfer_characteristics as u32).as_str());
                s.append(", matrix coefficients: ");
                s.append(decimal_string(*matrix_coefficients as u32).as_str());
                s.append(", video full range: ");
                s.append(
                    if *video_full_range {
                        "true"
                    } else {
                        "false"
                    },
                );
                s
            },
            ColourSpecificationMethods::Reserved { value } => decimal_string(*value as u32),
        }
    }
}

/// Appends all bytes of `src` to `out`.
fn append_bytes(out: &mut Vec<u8>, src: &Vec<u8>)
    ensures
        final(out)@ == old(out)@ + src@,
{
    let mut i: usize = 0;
    while i < src.len()
        invariant
            i <= src@.len(),
            out@ == old(out)@ + src@.subrange(0, i as int),
        decreases src@.len() - i,
    {
        out.push(src[i]);
        proof {
            assert(out@ =~= old(out)@ + src@.subrange(0, i + 1));
        }
        i = i + 1;
    }
    proof {
        assert(src@.subrange(0, src@.len() as int) =~= src@);
    }
}

/// The enumerated colourspaces (the EnumCS field), including the extension
/// values defined outside the core coding system.
#[derive(Debug, PartialEq)]
pub enum EnumeratedColourSpaces {
    BiLevel,
    YCbCr1,
    YCbCr2,
    YCbCr3,
    PhotoYCC,
    CMY,
    CMYK,
    YCCK,
    CIELab { rl: u32, ol: u32, ra: u32, oa: u32, rb: u32, ob: u32, il: u32 },
    BiLevel2,
    #[allow(non_camel_case_types)]
    sRGB,
    Greyscale,
    #[allow(non_camel_case_types)]
    sYCC,
    CIEJab { rj: u32, oj: u32, ra: u32, oa: u32, rb: u32, ob: u32 },
    #[allow(non_camel_case_types)]
    esRGB,
    ROMMRGB,
    YPbPr112560,
    YPbPr125050,
    #[allow(non_camel_case_types)]
    esYCC,
    #[allow(non_camel_case_types)]
    scRGB,
    #[allow(non_camel_case_types)]
    scRGBGrayScale,
    Reserved,
}

/// Whether a EnumCS code names a colourspace this reader knows.
pub open spec fn is_known_colourspace_code(code: int) -> bool {
    ||| code == 0
    ||| code == 1
    ||| 3 <= code <= 4
    ||| code == 9
    ||| 11 <= code <= 26
}

impl EnumeratedColourSpaces {
    /// The integer code of this colourspace.
    pub open spec fn spec_code(self) -> int {
        match self {
            EnumeratedColourSpaces::BiLevel => 0,
            EnumeratedColourSpaces::YCbCr1 => 1,
            EnumeratedColourSpaces::YCbCr2 => 3,
            EnumeratedColourSpaces::YCbCr3 => 4,
            EnumeratedColourSpaces::PhotoYCC => 9,
            EnumeratedColourSpaces::CMY => 11,
            EnumeratedColourSpaces::CMYK => 12,
            EnumeratedColourSpaces::YCCK => 13,
            EnumeratedColourSpaces::CIELab { .. } => 14,
            EnumeratedColourSpaces::BiLevel2 => 15,
            EnumeratedColourSpaces::sRGB => 16,
            EnumeratedColourSpaces::Greyscale => 17,
            EnumeratedColourSpaces::sYCC => 18,
            EnumeratedColourSpaces::CIEJab { .. } => 19,
            EnumeratedColourSpaces::esRGB => 20,
            EnumeratedColourSpaces::ROMMRGB => 21,
            EnumeratedColourSpaces::YPbPr112560 => 22,
            EnumeratedColourSpaces::YPbPr125050 => 23,
            EnumeratedColourSpaces::esYCC => 24,
            EnumeratedColourSpaces::scRGB => 25,
            EnumeratedColourSpaces::scRGBGrayScale => 26,
            EnumeratedColourSpaces::Reserved => 0xFFFF_FFFF,
        }
    }

    /// Decodes the EnumCS field and, for the parameterized spaces, the
    /// enumerated parameters that follow it.
    pub fn decode(bytes: &[u8], pos: usize) -> (r: Result<
        (EnumeratedColourSpaces, usize),
        JP2Error,
    >)
        ensures
            match r {
                Ok((cs, p2)) => {
                    &&& pos + 4 <= bytes@.len()
                    &&& cs.spec_code() == crate::bytes::be32(bytes@, pos as int) || (cs
                        is Reserved)
                    &&& (cs matches EnumeratedColourSpaces::CIELab { rl, ol, ra, oa, rb, ob, il }
                        ==> rl == crate::bytes::be32(bytes@, pos + 4) && ol == crate::bytes::be32(
                        bytes@,
                        pos + 8,
                    ) && ra == crate::bytes::be32(bytes@, pos + 12) && oa == crate::bytes::be32(
                        bytes@,
                        pos + 16,
                    ) && rb == crate::bytes::be32(bytes@, pos + 20) && ob == crate::bytes::be32(
                        bytes@,
                        pos + 24,
                    ) && il == crate::bytes::be32(bytes@, pos + 28) && p2 == pos + 32)
                    &&& (cs matches EnumeratedColourSpaces::CIEJab { rj, oj, ra, oa, rb, ob }
                        ==> rj == crate::bytes::be32(bytes@, pos + 4) && oj == crate::bytes::be32(
                        bytes@,
                        pos + 8,
                    ) && ra == crate::bytes::be32(bytes@, pos + 12) && oa == crate::bytes::be32(
                        bytes@,
                        pos + 16,
                    ) && rb == crate::bytes::be32(bytes@, pos + 20) && ob == crate::bytes::be32(
                        bytes@,
                        pos + 24,
                    ) && p2 == pos + 28)
                    &&& (!(cs is CIELab) && !(cs is CIEJab) ==> p2 == pos + 4)
                    &&& (cs is Reserved <==> !is_known_colourspace_code(
                        crate::bytes::be32(bytes@, pos as int),
                    ))
                },
                Err(_) => {
                    ||| pos + 4 > bytes@.len()
                    ||| (crate::bytes::be32(bytes@, pos as int) == 14 && pos + 32 > bytes@.len())
                    ||| (crate::bytes::be32(bytes@, pos as int) == 19 && pos + 28 > bytes@.len())
                },
            },
    {
        let (code, p1) = match read_u32(bytes, pos) {
            Some(v) => v,
            None => {
                return Err(JP2Error::Truncated { offset: pos as u64 });
            },
        };
        match code {
            0 => Ok((EnumeratedColourSpaces::BiLevel, p1)),
            1 => Ok((EnumeratedColourSpaces::YCbCr1, p1)),
            3 => Ok((EnumeratedColourSpaces::YCbCr2, p1)),
            4 => Ok((EnumeratedColourSpaces::YCbCr3, p1)),
            9 => Ok((EnumeratedColourSpaces::PhotoYCC, p1)),
            11 => Ok((EnumeratedColourSpaces::CMY, p1)),
            12 => Ok((EnumeratedColourSpaces::CMYK, p1)),
            13 => Ok((EnumeratedColourSpaces::YCCK, p1)),
            14 => {
                let (rl, p2) = match read_u32(bytes, p1) {
                    Some(v) => v,
                    None => {
                        return Err(JP2Error::Truncated { offset: p1 as u64 });
                    },
                };
                let (ol, p3) = match read_u32(bytes, p2) {
                    Some(v) => v,
                    None => {
                        return Err(JP2Error::Truncated { offset: p2 as u64 });
                    },
                };
                let (ra, p4) = match read_u32(bytes, p3) {
                    Some(v) => v,
                    None => {
                        return Err(JP2Error::Truncated { offset: p3 as u64 });
                    },
                };
                let (oa, p5) = match read_u32(bytes, p4) {
                    Some(v) => v,
                    None => {
                        return Err(JP2Error::Truncated { offset: p4 as u64 });
                    },
                };
                let (rb, p6) = match read_u32(bytes, p5) {
                    Some(v) => v,
                    None => {
                        return Err(JP2Error::Truncated { offset: p5 as u64 });
                    },
                };
                let (ob, p7) = match read_u32(bytes, p6) {
                    Some(v) => v,
                    None => {
                        return Err(JP2Error::Truncated { offset: p6 as u64 });
                    },
                };
                let (il, p8) = match read_u32(bytes, p7) {
                    Some(v) => v,
                    None => {
                        return Err(JP2Error::Truncated { offset: p7 as u64 });
                    },
                };
                Ok((EnumeratedColourSpaces::CIELab { rl, ol, ra, oa, rb, ob, il }, p8))
            },
            15 => Ok((EnumeratedColourSpaces::BiLevel2, p1)),
            16 => Ok((EnumeratedColourSpaces::sRGB, p1)),
            17 => Ok((EnumeratedColourSpaces::Greyscale, p1)),
            18 => Ok((EnumeratedColourSpaces::sYCC, p1)),
            19 => {
                let (rj, p2) = match read_u32(bytes, p1) {
                    Some(v) => v,
                    None => {
                        return Err(JP2Error::Truncated { offset: p1 as u64 });
                    },
                };
                let (oj, p3) = match read_u32(bytes, p2) {
                    Some(v) => v,
                    None => {
                        return Err(JP2Error::Truncated { offset: p2 as u64 });
                    },
                };
                let (ra, p4) = match read_u32(bytes, p3) {
                    Some(v) => v,
                    None => {
                        return Err(JP2Error::Truncated { offset: p3 as u64 });
                    },
                };
                let (oa, p5) = match read_u32(bytes, p4) {
                    Some(v) => v,
                    None => {
                        return Err(JP2Error::Truncated { offset: p4 as u64 });
                    },
                };
                let (rb, p6) = match read_u32(bytes, p5) {
                    Some(v) => v,
                    None => {
                        return Err(JP2Error::Truncated { offset: p5 as u64 });
                    },
                };
                let (ob, p7) = match read_u32(bytes, p6) {
                    Some(v) => v,
                    None => {
                        return Err(JP2Error::Truncated { offset: p6 as u64 });
                    },
                };
                Ok((EnumeratedColourSpaces::CIEJab { rj, oj, ra, oa, rb, ob }, p7))
            },
            20 => Ok((EnumeratedColourSpaces::esRGB, p1)),
            21 => Ok((EnumeratedColourSpaces::ROMMRGB, p1)),
            22 => Ok((EnumeratedColourSpaces::YPbPr112560, p1)),
            23 => Ok((EnumeratedColourSpaces::YPbPr125050, p1)),
            24 => Ok((EnumeratedColourSpaces::esYCC, p1)),
            25 => Ok((EnumeratedColourSpaces::scRGB, p1)),
            26 => Ok((EnumeratedColourSpaces::scRGBGrayScale, p1)),
            _ => Ok((EnumeratedColourSpaces::Reserved, p1)),
        }
    }

    /// The METHDAT payload of this colourspace: its code, followed by the
    /// enumerated parameters where the space has them.
    pub open spec fn spec_methdat(self) -> Seq<u8> {
        match self {
            EnumeratedColourSpaces::CIELab { rl, ol, ra, oa, rb, ob, il } => be32_bytes(14)
                + be32_bytes(rl as int) + be32_bytes(ol as int) + be32_bytes(ra as int)
                + be32_bytes(oa as int) + be32_bytes(rb as int) + be32_bytes(ob as int)
                + be32_bytes(il as int),
            EnumeratedColourSpaces::CIEJab { rj, oj, ra, oa, rb, ob } => be32_bytes(19)
                + be32_bytes(rj as int) + be32_bytes(oj as int) + be32_bytes(ra as int)
                + be32_bytes(oa as int) + be32_bytes(rb as int) + be32_bytes(ob as int),
            _ => be32_bytes(self.spec_code()),
        }
    }

    /// Encodes the METHDAT payload of this colourspace.
    pub fn encoded_methdat(&self) -> (r: Vec<u8>)
        ensures
            r@ == self.spec_methdat(),
    {
        let mut out: Vec<u8> = Vec::new();
        match self {
            EnumeratedColourSpaces::CIELab { rl, ol, ra, oa, rb, ob, il } => {
                push_be32(&mut out, 14);
                push_be32(&mut out, *rl);
                push_be32(&mut out, *ol);
                push_be32(&mut out, *ra);
                push_be32(&mut out, *oa);
                push_be32(&mut out, *rb);
                push_be32(&mut out, *ob);
                push_be32(&mut out, *il);
                proof {
                    assert(out@ =~= self.spec_methdat());
                }
            },
            EnumeratedColourSpaces::CIEJab { rj, oj, ra, oa, rb, ob } => {
                push_be32(&mut out, 19);
                push_be32(&mut out, *rj);
                push_be32(&mut out, *oj);
                push_be32(&mut out, *ra);
                push_be32(&mut out, *oa);
                push_be32(&mut out, *rb);
                push_be32(&mut out, *ob);
                proof {
                    assert(out@ =~= self.spec_methdat());
                }
            },
            EnumeratedColourSpaces::BiLevel => {
                push_be32(&mut out, 0);
                proof {
                    assert(out@ =~= self.spec_methdat());
                }
            },
            EnumeratedColourSpaces::YCbCr1 => {
                push_be32(&mut out, 1);
                proof {
                    assert(out@ =~= self.spec_methdat());
                }
            },
            EnumeratedColourSpaces::YCbCr2 => {
                push_be32(&mut out, 3);
                proof {
                    assert(out@ =~= self.spec_methdat());
                }
            },
            EnumeratedColourSpaces::YCbCr3 => {
                push_be32(&mut out, 4);
                proof {
                    assert(out@ =~= self.spec_methdat());
                }
            },
            EnumeratedColourSpaces::PhotoYCC => {
                push_be32(&mut out, 9);
                proof {
                    assert(out@ =~= self.spec_methdat());
                }
            },
            EnumeratedColourSpaces::CMY => {
                push_be32(&mut out, 11);
                proof {
                    assert(out@ =~= self.spec_methdat());
                }
            },
            EnumeratedColourSpaces::CMYK => {
                push_be32(&mut out, 12);
                proof {
                    assert(out@ =~= self.spec_methdat());
                }
            },
            EnumeratedColourSpaces::YCCK => {
                push_be32(&mut out, 13);
                proof {
                    assert(out@ =~= self.spec_methdat());
                }
            },
            EnumeratedColourSpaces::BiLevel2 => {
                push_be32(&mut out, 15);
                proof {
                    assert(out@ =~= self.spec_methdat());
                }
            },
            EnumeratedColourSpaces::sRGB => {
                push_be32(&mut out, 16);
                proof {
                    assert(out@ =~= self.spec_methdat());
                }
            },
            EnumeratedColourSpaces::Greyscale => {
                push_be32(&mut out, 17);
                proof {
                    assert(out@ =~= self.spec_methdat());
                }
            },
            EnumeratedColourSpaces::sYCC => {
                push_be32(&mut out, 18);
                proof {
                    assert(out@ =~= self.spec_methdat());
                }
            },
            EnumeratedColourSpaces::esRGB => {
                push_be32(&mut out, 20);
                proof {
                    assert(out@ =~= self.spec_methdat());
                }
            },
            EnumeratedColourSpaces::ROMMRGB => {
                push_be32(&mut out, 21);
                proof {
                    assert(out@ =~= self.spec_methdat());
                }
            },
            EnumeratedColourSpaces::YPbPr112560 => {
                push_be32(&mut out, 22);
                proof {
                    assert(out@ =~= self.spec_methdat());
                }
            },
            EnumeratedColourSpaces::YPbPr125050 => {
                push_be32(&mut out, 23);
                proof {
                    assert(out@ =~= self.spec_methdat());
                }
            },
            EnumeratedColourSpaces::esYCC => {
                push_be32(&mut out, 24);
                proof {
                    assert(out@ =~= self.spec_methdat());
                }
            },
            EnumeratedColourSpaces::scRGB => {
                push_be32(&mut out, 25);
                proof {
                    assert(out@ =~= self.spec_methdat());
                }
            },
            EnumeratedColourSpaces::scRGBGrayScale => {
                push_be32(&mut out, 26);
                proof {
                    assert(out@ =~= self.spec_methdat());
                }
            },
            EnumeratedColourSpaces::Reserved => {
                push_be32(&mut out, 0xFFFF_FFFF);
                proof {
                    assert(out@ =~= self.spec_methdat());
                }
            },
        }
        out
    }

    /// A human-readable name of the colourspace.
    pub open spec fn spec_description(self) -> Seq<char> {
        match self {
            EnumeratedColourSpaces::BiLevel => "Bi-level"@,
            EnumeratedColourSpaces::YCbCr1 => "YCbCr(1)"@,
            EnumeratedColourSpaces::YCbCr2 => "YCbCr(2)"@,
            EnumeratedColourSpaces::YCbCr3 => "YCbCr(3)"@,
            EnumeratedColourSpaces::PhotoYCC => "PhotoYCC"@,
            EnumeratedColourSpaces::CMY => "CMY"@,
            EnumeratedColourSpaces::CMYK => "CMYK"@,
            EnumeratedColourSpaces::YCCK => "YCCK"@,
            EnumeratedColourSpaces::CIELab { .. } => "CIELab"@,
            EnumeratedColourSpaces::BiLevel2 => "Bi-level(2)"@,
            EnumeratedColourSpaces::sRGB => "sRGB"@,
            EnumeratedColourSpaces::Greyscale => "greyscale"@,
            EnumeratedColourSpaces::sYCC => "sYCC"@,
            EnumeratedColourSpaces::CIEJab { .. } => "CIEJab"@,
            EnumeratedColourSpaces::esRGB => "e-sRGB"@,
            EnumeratedColourSpaces::ROMMRGB => "ROMM-RGB"@,
            EnumeratedColourSpaces::YPbPr112560 => "YPbPr(1125/60)"@,
            EnumeratedColourSpaces::YPbPr125050 => "YPbPr(1250/50)"@,
            EnumeratedColourSpaces::esYCC => "e-sYCC"@,
            EnumeratedColourSpaces::scRGB => "scRGB"@,
            EnumeratedColourSpaces::scRGBGrayScale => "scRGB gray scale"@,
            EnumeratedColourSpaces::Reserved => "Reserved"@,
        }
    }

    /// Renders the colourspace name for display.
    pub fn description(&self) -> (r: String)
        ensures
            r@ == self.spec_description(),
    {
        match self {
            EnumeratedColourSpaces::BiLevel => String::from_str("Bi-level"),
            EnumeratedColourSpaces::YCbCr1 => String::from_str("YCbCr(1)"),
            EnumeratedColourSpaces::YCbCr2 => String::from_str("YCbCr(2)"),
            EnumeratedColourSpaces::YCbCr3 => String::from_str("YCbCr(3)"),
            EnumeratedColourSpaces::PhotoYCC => String::from_str("PhotoYCC"),
            EnumeratedColourSpaces::CMY => String::from_str("CMY"),
            EnumeratedColourSpaces::CMYK => String::from_str("CMYK"),
            EnumeratedColourSpaces::YCCK => String::from_str("YCCK"),
            EnumeratedColourSpaces::CIELab { .. } => String::from_str("CIELab"),
            EnumeratedColourSpaces::BiLevel2 => String::from_str("Bi-level(2)"),
            EnumeratedColourSpaces::sRGB => String::from_str("sRGB"),
            EnumeratedColourSpaces::Greyscale => String::from_str("greyscale"),
            EnumeratedColourSpaces::sYCC => String::from_str("sYCC"),
            EnumeratedColourSpaces::CIEJab { .. } => String::from_str("CIEJab"),
            EnumeratedColourSpaces::esRGB => String::from_str("e-sRGB"),
            EnumeratedColourSpaces::ROMMRGB => String::from_str("ROMM-RGB"),
            EnumeratedColourSpaces::YPbPr112560 => String::from_str("YPbPr(1125/60)"),
            EnumeratedColourSpaces::YPbPr125050 => String::from_str("YPbPr(1250/50)"),
            EnumeratedColourSpaces::esYCC => String::from_str("e-sYCC"),
            EnumeratedColourSpaces::scRGB => String::from_str("scRGB"),
            EnumeratedColourSpaces::scRGBGrayScale => String::from_str("scRGB gray scale"),
            EnumeratedColourSpaces::Reserved => String::from_str("Reserved"),
        }
    }
}

/// A Colour Specification box: one method by which an application can
/// interpret the colourspace of the decompressed image.
#[derive(Debug)]
pub struct ColourSpecificationBox {
    pub length: u64,
    pub offset: u64,
    pub method: ColourSpecificationMethods,
    pub precedence: u8,
    pub colourspace_approximation: u8,
}

impl ColourSpecificationBox {
    /// The specification method of this box.
    pub fn method(&self) -> (r: &ColourSpecificationMethods)
        ensures
            r == self.method,
    {
        &self.method
    }

    /// The precedence field; zero in conforming core files.
    pub fn precedence(&self) -> (r: i8)
        ensures
            r == self.precedence as i8,
    {
        self.precedence as i8
    }

    /// The colourspace approximation field; zero in conforming core files.
    pub fn colourspace_approximation(&self) -> (r: u8)
        ensures
            r == self.colourspace_approximation,
    {
        self.colourspace_approximation
    }

    /// Parses a Colour Specification box payload of `length` bytes starting
    /// at `pos`: the METH, PREC and APPROX bytes, then the method data.
    pub fn decode(bytes: &[u8], pos: usize, length: u64, offset: u64) -> (r: Result<
        (ColourSpecificationBox, usize),
        JP2Error,
    >)
        requires
            length >= 3,
        ensures
            match r {
                Ok((b, p2)) => {
                    &&& pos + 3 <= bytes@.len()
                    &&& p2 == pos + length
                    &&& b.method.encoded_meth_value() == bytes@[pos as int]
                    &&& b.precedence == bytes@[pos + 1]
                    &&& b.colourspace_approximation == bytes@[pos + 2]
                    &&& b.length == length
                    &&& b.offset == offset
                    &&& (bytes@[pos as int] == 1 ==> b.method is EnumeratedColourSpace)
                    &&& (bytes@[pos as int] == 2 ==> (b.method
                        matches ColourSpecificationMethods::RestrictedICCProfile { profile_data }
                        && profile_data@ == bytes@.subrange(pos + 3, pos + 3 + (length - 3))))
                    &&& (bytes@[pos as int] == 3 ==> (b.method
                        matches ColourSpecificationMethods::AnyICCProfile { profile_data }
                        && profile_data@ == bytes@.subrange(pos + 3, pos + 3 + (length - 3))))
                    &&& (bytes@[pos as int] == 4 ==> (b.method
                        matches ColourSpecificationMethods::VendorColourMethod {
                        vendor_defined_code,
                        ..
                    } && vendor_defined_code@ == bytes@.subrange(pos + 3, pos + 19)))
                    &&& (bytes@[pos as int] == 5 ==> (b.method
                        matches ColourSpecificationMethods::ParameterizedColourspace {
                        colour_primaries,
                        transfer_characteristics,
                        matrix_coefficients,
                        video_full_range,
                    } && colour_primaries == crate::bytes::be16(bytes@, pos + 3)
                        && transfer_characteristics == crate::bytes::be16(bytes@, pos + 5)
                        && matrix_coefficients == crate::bytes::be16(bytes@, pos + 7)
                        && video_full_range == (bytes@[pos + 9] & 0x80 == 0x80)))
                    &&& (!(1 <= bytes@[pos as int] <= 5) ==> b.method == (
                    ColourSpecificationMethods::Reserved { value: bytes@[pos as int] }))
                },
                Err(_) => {
                    ||| pos + 3 > bytes@.len()
                    ||| length - 3 > usize::MAX
                    ||| pos + length > usize::MAX
                    ||| (bytes@[pos as int] == 1 && (pos + 7 > bytes@.len() || (
                    crate::bytes::be32(bytes@, pos + 3) == 14 && pos + 35 > bytes@.len()) || (
                    crate::bytes::be32(bytes@, pos + 3) == 19 && pos + 31 > bytes@.len())))
                    ||| (2 <= bytes@[pos as int] <= 3 && pos + length > bytes@.len())
                    ||| (bytes@[pos as int] == 4 && (pos + 19 > bytes@.len() || (length - 3 >= 16
                        && pos + length > bytes@.len())))
                    ||| (bytes@[pos as int] == 5 && pos + 10 > bytes@.len())
                },
            },
    {
        let (meth, p1) = match read_u8(bytes, pos) {
            Some(v) => v,
            None => {
                return Err(JP2Error::Truncated { offset: pos as u64 });
            },
        };
        let (prec, p2) = match read_u8(bytes, p1) {
            Some(v) => v,
            None => {
                return Err(JP2Error::Truncated { offset: p1 as u64 });
            },
        };
        let (approx, p3) = match read_u8(bytes, p2) {
            Some(v) => v,
            None => {
                return Err(JP2Error::Truncated { offset: p2 as u64 });
            },
        };
        let rest: usize = if length >= 3 && length - 3 <= usize::MAX as u64 {
            (length - 3) as usize
        } else {
            return Err(JP2Error::BoxMalformed { box_type: crate::jp2::BOX_TYPE_COLOUR_SPECIFICATION, offset });
        };
        let method: ColourSpecificationMethods = match meth {
            1 => {
                let (code, _p4) = match EnumeratedColourSpaces::decode(bytes, p3) {
                    Ok(v) => v,
                    Err(e) => {
                        return Err(e);
                    },
                };
                ColourSpecificationMethods::EnumeratedColourSpace { code }
            },
            2 => {
                let (profile_data, _p4) = match read_bytes(bytes, p3, rest) {
                    Some(v) => v,
                    None => {
                        return Err(JP2Error::Truncated { offset: p3 as u64 });
                    },
                };
                ColourSpecificationMethods::RestrictedICCProfile { profile_data }
            },
            3 => {
                let (profile_data, _p4) = match read_bytes(bytes, p3, rest) {
                    Some(v) => v,
                    None => {
                        return Err(JP2Error::Truncated { offset: p3 as u64 });
                    },
                };
                ColourSpecificationMethods::AnyICCProfile { profile_data }
            },
            4 => {
                let (vendor_defined_code, p4) = match read_bytes(bytes, p3, 16) {
                    Some(v) => v,
                    None => {
                        return Err(JP2Error::Truncated { offset: p3 as u64 });
                    },
                };
                let params: usize = if rest >= 16 {
                    rest - 16
                } else {
                    0
                };
                let (vendor_parameters, _p5) = match read_bytes(bytes, p4, params) {
                    Some(v) => v,
                    None => {
                        return Err(JP2Error::Truncated { offset: p4 as u64 });
                    },
                };
                ColourSpecificationMethods::VendorColourMethod {
                    vendor_defined_code,
                    vendor_parameters,
                }
            },
            5 => {
                let (colprims, p4) = match read_u16(bytes, p3) {
                    Some(v) => v,
                    None => {
                        return Err(JP2Error::Truncated { offset: p3 as u64 });
                    },
                };
                let (transfc, p5) = match read_u16(bytes, p4) {
                    Some(v) => v,
                    None => {
                        return Err(JP2Error::Truncated { offset: p4 as u64 });
                    },
                };
                let (matcoeffs, p6) = match read_u16(bytes, p5) {
                    Some(v) => v,
                    None => {
                        return Err(JP2Error::Truncated { offset: p5 as u64 });
                    },
                };
                let (flags, _p7) = match read_u8(bytes, p6) {
                    Some(v) => v,
                    None => {
                        return Err(JP2Error::Truncated { offset: p6 as u64 });
                    },
                };
                ColourSpecificationMethods::ParameterizedColourspace {
                    colour_primaries: colprims,
                    transfer_characteristics: transfc,
                    matrix_coefficients: matcoeffs,
                    video_full_range: flags & 0x80 == 0x80,
                }
            },
            other => ColourSpecificationMethods::Reserved { value: other },
        };
        let end = if pos <= usize::MAX - 3 && pos + 3 <= usize::MAX - rest {
            pos + 3 + rest
        } else {
            return Err(JP2Error::BoxMalformed { box_type: crate::jp2::BOX_TYPE_COLOUR_SPECIFICATION, offset });
        };
        Ok((
            ColourSpecificationBox {
                length,
                offset,
                method,
                precedence: prec,
                colourspace_approximation: approx,
            },
            end,
        ))
    }
}

impl ColourSpecificationMethods {
    /// The METH value of this method, as a specification-level view.
    pub open spec fn encoded_meth_value(self) -> u8 {
        match self {
            ColourSpecificationMethods::EnumeratedColourSpace { .. } => 1u8,
            ColourSpecificationMethods::RestrictedICCProfile { .. } => 2u8,
            ColourSpecificationMethods::AnyICCProfile { .. } => 3u8,
            ColourSpecificationMethods::VendorColourMethod { .. } => 4u8,
            ColourSpecificationMethods::ParameterizedColourspace { .. } => 5u8,
            ColourSpecificationMethods::Reserved { value } => value,
        }
    }
}

} // verus!

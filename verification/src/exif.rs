//! Lightweight EXIF/TIFF IFD parser.
//!
//! Parses raw EXIF bytes (TIFF-encoded IFD structure) into a structured
//! [`ExifData`] value holding camera metadata, exposure settings, GPS
//! coordinates and orientation.
//!
//! Both JPEG-style EXIF (with the `Exif\0\0` prefix) and raw TIFF bytes
//! (PNG, AVIF, HEIC) are accepted.
//!
//! Every value is kept exactly as the file stores it: rationals stay
//! numerator/denominator pairs, so GPS coordinates and altitude are held as
//! the rationals that the TIFF data encodes.
use vstd::prelude::*;
use vstd::arithmetic::div_mod::lemma_fundamental_div_mod_converse;
use vstd::utf8::*;

use crate::text::{
    ascii_chars, decimal_i32, decimal_u32, lemma_ascii_is_utf8, spec_decimal_i32, spec_decimal_u32,
    string_from_utf8,
};

verus! {

// =========================================================================
// Public types
// =========================================================================

/// Unsigned rational number (two u32 values).
#[derive(Debug, Clone, Copy, PartialEq, Eq, Structural)]
pub struct Rational {
    /// Numerator.
    pub numerator: u32,
    /// Denominator.
    pub denominator: u32,
}

impl Rational {
    /// Create a new rational number.
    pub fn new(numerator: u32, denominator: u32) -> (r: Self)
        ensures
            r.numerator == numerator,
            r.denominator == denominator,
    {
        Self { numerator, denominator }
    }

    /// The text `numerator/denominator`, both in decimal.
    pub open spec fn spec_text(self) -> Seq<char> {
        spec_decimal_u32(self.numerator) + seq!['/'] + spec_decimal_u32(self.denominator)
    }

    /// Formats the rational as `numerator/denominator`, e.g. `1/500`.
    pub fn to_text(&self) -> (s: String)
        ensures
            s@ == self.spec_text(),
    {
        let mut s = decimal_u32(self.numerator);
        s.append("/");
        let d = decimal_u32(self.denominator);
        s.append(d.as_str());
        proof {
            reveal_strlit("/");
        }
        s
    }
}

/// Signed rational number (two i32 values).
#[derive(Debug, Clone, Copy, PartialEq, Eq, Structural)]
pub struct SRational {
    /// Numerator.
    pub numerator: i32,
    /// Denominator.
    pub denominator: i32,
}

impl SRational {
    /// Create a new signed rational number.
    pub fn new(numerator: i32, denominator: i32) -> (r: Self)
        ensures
            r.numerator == numerator,
            r.denominator == denominator,
    {
        Self { numerator, denominator }
    }

    /// The text `numerator/denominator`, both in signed decimal.
    pub open spec fn spec_text(self) -> Seq<char> {
        spec_decimal_i32(self.numerator) + seq!['/'] + spec_decimal_i32(self.denominator)
    }

    /// Formats the rational as `numerator/denominator`, e.g. `-2/3`.
    pub fn to_text(&self) -> (s: String)
        ensures
            s@ == self.spec_text(),
    {
        let mut s = decimal_i32(self.numerator);
        s.append("/");
        let d = decimal_i32(self.denominator);
        s.append(d.as_str());
        proof {
            reveal_strlit("/");
        }
        s
    }
}

/// GPS coordinate as stored in the file: degrees, minutes and seconds as
/// rationals, with the hemisphere reference.
#[derive(Debug, Clone, Copy)]
pub struct GpsCoordinate {
    /// Degrees component.
    pub degrees: Rational,
    /// Minutes component.
    pub minutes: Rational,
    /// Seconds component.
    pub seconds: Rational,
    /// Hemisphere reference: `'N'`/`'S'` for latitude, `'E'`/`'W'` for longitude.
    pub reference: char,
}

/// GPS altitude as stored in the file: a magnitude in meters and whether it
/// lies below sea level (altitude reference byte equal to 1).
#[derive(Debug, Clone, Copy)]
pub struct GpsAltitude {
    /// Altitude magnitude in meters.
    pub meters: Rational,
    /// True when the altitude is below sea level.
    pub below_sea_level: bool,
}

/// Parsed EXIF metadata from an image.
///
/// Fields are `None` when the corresponding EXIF tag is absent from the data.
#[derive(Debug, Clone)]
pub struct ExifData {
    /// Camera manufacturer (tag 0x010F).
    pub make: Option<String>,
    /// Camera model (tag 0x0110).
    pub model: Option<String>,
    /// Software used to create the image (tag 0x0131).
    pub software: Option<String>,
    /// Date/time the file was last modified (tag 0x0132).
    pub date_time: Option<String>,
    /// Date/time when the photo was originally taken (tag 0x9003).
    pub date_time_original: Option<String>,
    /// Exposure time in seconds (tag 0x829A).
    pub exposure_time: Option<Rational>,
    /// F-number / aperture (tag 0x829D).
    pub f_number: Option<Rational>,
    /// ISO speed rating (tag 0x8827).
    pub iso: Option<u32>,
    /// Focal length in mm (tag 0x920A).
    pub focal_length: Option<Rational>,
    /// 35mm-equivalent focal length (tag 0xA405).
    pub focal_length_35mm: Option<u16>,
    /// Lens model (tag 0xA434).
    pub lens_model: Option<String>,
    /// EXIF orientation value (tag 0x0112).
    pub orientation: Option<u16>,
    /// GPS latitude.
    pub gps_latitude: Option<GpsCoordinate>,
    /// GPS longitude.
    pub gps_longitude: Option<GpsCoordinate>,
    /// GPS altitude (tags 0x0005 and 0x0006).
    pub gps_altitude: Option<GpsAltitude>,
    /// Pixel width from EXIF IFD (tag 0xA002).
    pub width: Option<u32>,
    /// Pixel height from EXIF IFD (tag 0xA003).
    pub height: Option<u32>,
    /// Color space (tag 0xA001).
    pub color_space: Option<u16>,
    /// Flash status bitfield (tag 0x9209).
    pub flash: Option<u16>,
    /// White balance mode (tag 0xA403).
    pub white_balance: Option<u16>,
    /// Metering mode (tag 0x9207).
    pub metering_mode: Option<u16>,
    /// Exposure program (tag 0x8822).
    pub exposure_program: Option<u16>,
    /// Exposure compensation in EV (tag 0x9204).
    pub exposure_compensation: Option<SRational>,
}

/// Mathematical view of [`ExifData`]: text fields as character sequences.
#[verifier::ext_equal]
pub struct ExifView {
    pub make: Option<Seq<char>>,
    pub model: Option<Seq<char>>,
    pub software: Option<Seq<char>>,
    pub date_time: Option<Seq<char>>,
    pub date_time_original: Option<Seq<char>>,
    pub exposure_time: Option<Rational>,
    pub f_number: Option<Rational>,
    pub iso: Option<u32>,
    pub focal_length: Option<Rational>,
    pub focal_length_35mm: Option<u16>,
    pub lens_model: Option<Seq<char>>,
    pub orientation: Option<u16>,
    pub gps_latitude: Option<GpsCoordinate>,
    pub gps_longitude: Option<GpsCoordinate>,
    pub gps_altitude: Option<GpsAltitude>,
    pub width: Option<u32>,
    pub height: Option<u32>,
    pub color_space: Option<u16>,
    pub flash: Option<u16>,
    pub white_balance: Option<u16>,
    pub metering_mode: Option<u16>,
    pub exposure_program: Option<u16>,
    pub exposure_compensation: Option<SRational>,
}

/// The characters of an optional string.
pub open spec fn opt_chars(s: Option<String>) -> Option<Seq<char>> {
    match s {
        Some(t) => Some(t@),
        None => None,
    }
}

impl View for ExifData {
    type V = ExifView;

    open spec fn view(&self) -> ExifView {
        ExifView {
            make: opt_chars(self.make),
            model: opt_chars(self.model),
            software: opt_chars(self.software),
            date_time: opt_chars(self.date_time),
            date_time_original: opt_chars(self.date_time_original),
            exposure_time: self.exposure_time,
            f_number: self.f_number,
            iso: self.iso,
            focal_length: self.focal_length,
            focal_length_35mm: self.focal_length_35mm,
            lens_model: opt_chars(self.lens_model),
            orientation: self.orientation,
            gps_latitude: self.gps_latitude,
            gps_longitude: self.gps_longitude,
            gps_altitude: self.gps_altitude,
            width: self.width,
            height: self.height,
            color_space: self.color_space,
            flash: self.flash,
            white_balance: self.white_balance,
            metering_mode: self.metering_mode,
            exposure_program: self.exposure_program,
            exposure_compensation: self.exposure_compensation,
        }
    }
}

/// The view in which every field is absent.
pub open spec fn empty_exif() -> ExifView {
    ExifView {
        make: None,
        model: None,
        software: None,
        date_time: None,
        date_time_original: None,
        exposure_time: None,
        f_number: None,
        iso: None,
        focal_length: None,
        focal_length_35mm: None,
        lens_model: None,
        orientation: None,
        gps_latitude: None,
        gps_longitude: None,
        gps_altitude: None,
        width: None,
        height: None,
        color_space: None,
        flash: None,
        white_balance: None,
        metering_mode: None,
        exposure_program: None,
        exposure_compensation: None,
    }
}

impl Default for ExifData {
    fn default() -> (r: Self)
        ensures
            r@ == empty_exif(),
    {
        ExifData {
            make: None,
            model: None,
            software: None,
            date_time: None,
            date_time_original: None,
            exposure_time: None,
            f_number: None,
            iso: None,
            focal_length: None,
            focal_length_35mm: None,
            lens_model: None,
            orientation: None,
            gps_latitude: None,
            gps_longitude: None,
            gps_altitude: None,
            width: None,
            height: None,
            color_space: None,
            flash: None,
            white_balance: None,
            metering_mode: None,
            exposure_program: None,
            exposure_compensation: None,
        }
    }
}

/// Errors that can occur during EXIF parsing.
#[derive(Debug, Clone, Copy, PartialEq, Eq, Structural)]
pub enum ExifError {
    /// Data is too short to contain a valid TIFF header.
    TooShort,
    /// Invalid byte order marker (expected `II` or `MM`).
    InvalidByteOrder,
    /// TIFF magic number is not 42 (0x002A).
    InvalidTiffMagic,
    /// An IFD offset points outside the data bounds.
    OffsetOutOfBounds,
    /// An IFD entry references data outside the buffer.
    ValueOutOfBounds,
    /// IFD entry count is unreasonably large (possible corruption).
    TooManyEntries,
}

/// The human-readable description of each error.
pub open spec fn spec_error_message(e: ExifError) -> Seq<char> {
    match e {
        ExifError::TooShort => "data too short for TIFF header"@,
        ExifError::InvalidByteOrder => "invalid byte order marker"@,
        ExifError::InvalidTiffMagic => "invalid TIFF magic number (expected 42)"@,
        ExifError::OffsetOutOfBounds => "IFD offset out of bounds"@,
        ExifError::ValueOutOfBounds => "IFD value offset out of bounds"@,
        ExifError::TooManyEntries => "IFD entry count unreasonably large"@,
    }
}

impl ExifError {
    /// Human-readable description of the error.
    pub fn message(&self) -> (s: &'static str)
        ensures
            s@ == spec_error_message(*self),
    {
        match self {
            ExifError::TooShort => "data too short for TIFF header",
            ExifError::InvalidByteOrder => "invalid byte order marker",
            ExifError::InvalidTiffMagic => "invalid TIFF magic number (expected 42)",
            ExifError::OffsetOutOfBounds => "IFD offset out of bounds",
            ExifError::ValueOutOfBounds => "IFD value offset out of bounds",
            ExifError::TooManyEntries => "IFD entry count unreasonably large",
        }
    }
}

// =========================================================================
// TIFF type IDs and tags
// =========================================================================

pub const TYPE_BYTE: u16 = 1;
pub const TYPE_ASCII: u16 = 2;
pub const TYPE_SHORT: u16 = 3;
pub const TYPE_LONG: u16 = 4;
pub const TYPE_RATIONAL: u16 = 5;
pub const TYPE_UNDEFINED: u16 = 7;
pub const TYPE_SLONG: u16 = 9;
pub const TYPE_SRATIONAL: u16 = 10;

pub const TAG_MAKE: u16 = 0x010F;
pub const TAG_MODEL: u16 = 0x0110;
pub const TAG_ORIENTATION: u16 = 0x0112;
pub const TAG_SOFTWARE: u16 = 0x0131;
pub const TAG_DATE_TIME: u16 = 0x0132;
pub const TAG_EXIF_IFD_POINTER: u16 = 0x8769;
pub const TAG_GPS_IFD_POINTER: u16 = 0x8825;

pub const TAG_EXPOSURE_TIME: u16 = 0x829A;
pub const TAG_F_NUMBER: u16 = 0x829D;
pub const TAG_EXPOSURE_PROGRAM: u16 = 0x8822;
pub const TAG_ISO_SPEED: u16 = 0x8827;
pub const TAG_DATE_TIME_ORIGINAL: u16 = 0x9003;
pub const TAG_EXPOSURE_BIAS: u16 = 0x9204;
pub const TAG_METERING_MODE: u16 = 0x9207;
pub const TAG_FLASH: u16 = 0x9209;
pub const TAG_FOCAL_LENGTH: u16 = 0x920A;
pub const TAG_COLOR_SPACE: u16 = 0xA001;
pub const TAG_PIXEL_X_DIMENSION: u16 = 0xA002;
pub const TAG_PIXEL_Y_DIMENSION: u16 = 0xA003;
pub const TAG_WHITE_BALANCE: u16 = 0xA403;
pub const TAG_FOCAL_LENGTH_35MM: u16 = 0xA405;
pub const TAG_LENS_MODEL: u16 = 0xA434;

pub const TAG_GPS_LATITUDE_REF: u16 = 0x0001;
pub const TAG_GPS_LATITUDE: u16 = 0x0002;
pub const TAG_GPS_LONGITUDE_REF: u16 = 0x0003;
pub const TAG_GPS_LONGITUDE: u16 = 0x0004;
pub const TAG_GPS_ALTITUDE_REF: u16 = 0x0005;
pub const TAG_GPS_ALTITUDE: u16 = 0x0006;

/// Maximum number of IFD entries parsed per directory.
pub const MAX_IFD_ENTRIES: u16 = 1000;

/// Size of one element of each TIFF type.
pub open spec fn spec_type_size(type_id: u16) -> Option<u32> {
    if type_id == TYPE_BYTE || type_id == TYPE_ASCII || type_id == TYPE_UNDEFINED {
        Some(1)
    } else if type_id == TYPE_SHORT {
        Some(2)
    } else if type_id == TYPE_LONG || type_id == TYPE_SLONG {
        Some(4)
    } else if type_id == TYPE_RATIONAL || type_id == TYPE_SRATIONAL {
        Some(8)
    } else {
        None
    }
}

/// Size of one element for each TIFF type.
pub fn type_size(type_id: u16) -> (r: Option<u32>)
    ensures
        r == spec_type_size(type_id),
{
    if type_id == TYPE_BYTE || type_id == TYPE_ASCII || type_id == TYPE_UNDEFINED {
        Some(1)
    } else if type_id == TYPE_SHORT {
        Some(2)
    } else if type_id == TYPE_LONG || type_id == TYPE_SLONG {
        Some(4)
    } else if type_id == TYPE_RATIONAL || type_id == TYPE_SRATIONAL {
        Some(8)
    } else {
        None
    }
}

// =========================================================================
// Byte-order decoding
// =========================================================================

/// The 16-bit value of two bytes in the given byte order.
pub open spec fn u16_of(b0: u8, b1: u8, little_endian: bool) -> u16 {
    if little_endian {
        (b0 + 256 * b1) as u16
    } else {
        (256 * b0 + b1) as u16
    }
}

/// The 32-bit value of four bytes in the given byte order.
pub open spec fn u32_of(b0: u8, b1: u8, b2: u8, b3: u8, little_endian: bool) -> u32 {
    if little_endian {
        (b0 + 256 * b1 + 65536 * b2 + 16777216 * b3) as u32
    } else {
        (16777216 * b0 + 65536 * b1 + 256 * b2 + b3) as u32
    }
}

/// Two's-complement reading of a 32-bit word.
pub open spec fn i32_of_bits(v: u32) -> i32 {
    if v < 0x8000_0000 {
        v as i32
    } else {
        (v - 0x1_0000_0000) as i32
    }
}

/// The 16-bit value at `off`, if two bytes are available there.
pub open spec fn spec_u16_at(data: Seq<u8>, off: int, little_endian: bool) -> Option<u16> {
    if 0 <= off && off + 2 <= data.len() {
        Some(u16_of(data[off], data[off + 1], little_endian))
    } else {
        None
    }
}

/// The unsigned 32-bit value at `off`, if four bytes are available there.
pub open spec fn spec_u32_at(data: Seq<u8>, off: int, little_endian: bool) -> Option<u32> {
    if 0 <= off && off + 4 <= data.len() {
        Some(u32_of(data[off], data[off + 1], data[off + 2], data[off + 3], little_endian))
    } else {
        None
    }
}

/// The signed 32-bit value at `off`, if four bytes are available there.
pub open spec fn spec_i32_at(data: Seq<u8>, off: int, little_endian: bool) -> Option<i32> {
    match spec_u32_at(data, off, little_endian) {
        Some(v) => Some(i32_of_bits(v)),
        None => None,
    }
}

/// The encoding of a 16-bit value in the given byte order.
pub open spec fn u16_bytes(v: u16, little_endian: bool) -> Seq<u8> {
    if little_endian {
        seq![(v % 256) as u8, (v / 256) as u8]
    } else {
        seq![(v / 256) as u8, (v % 256) as u8]
    }
}

/// The encoding of a 32-bit value in the given byte order.
pub open spec fn u32_bytes(v: u32, little_endian: bool) -> Seq<u8> {
    let b0 = (v % 256) as u8;
    let b1 = ((v / 256) % 256) as u8;
    let b2 = ((v / 65536) % 256) as u8;
    let b3 = (v / 16777216) as u8;
    if little_endian {
        seq![b0, b1, b2, b3]
    } else {
        seq![b3, b2, b1, b0]
    }
}

/// The two's-complement 32-bit word of a signed value.
pub open spec fn bits_of_i32(v: i32) -> u32 {
    if v >= 0 {
        v as u32
    } else {
        (v + 0x1_0000_0000) as u32
    }
}

/// Reading back the encoding of a 16-bit value yields that value, in
/// either byte order.
pub proof fn law_u16_roundtrip(v: u16, little_endian: bool)
    ensures
        spec_u16_at(u16_bytes(v, little_endian), 0, little_endian) == Some(v),
{
}

/// Reading back the encoding of an unsigned 32-bit value yields that value,
/// in either byte order.
pub proof fn law_u32_roundtrip(v: u32, little_endian: bool)
    ensures
        spec_u32_at(u32_bytes(v, little_endian), 0, little_endian) == Some(v),
{
}

/// Reading back the encoding of a signed 32-bit value yields that value,
/// in either byte order.
pub proof fn law_i32_roundtrip(v: i32, little_endian: bool)
    ensures
        spec_i32_at(u32_bytes(bits_of_i32(v), little_endian), 0, little_endian) == Some(v),
{
    law_u32_roundtrip(bits_of_i32(v), little_endian);
}

// =========================================================================
// Byte-order reader
// =========================================================================

/// Reads values from a byte slice with configurable endianness.
#[derive(Clone, Copy)]
pub struct Reader<'a> {
    /// The bytes read.
    pub data: &'a [u8],
    /// Whether multi-byte values are little-endian.
    pub little_endian: bool,
}

impl<'a> Reader<'a> {
    pub fn new(data: &'a [u8], little_endian: bool) -> (r: Self)
        ensures
            r.data@ == data@,
            r.little_endian == little_endian,
    {
        Self { data, little_endian }
    }

    pub fn u16_at(&self, offset: usize) -> (r: Option<u16>)
        ensures
            r == spec_u16_at(self.data@, offset as int, self.little_endian),
    {
        if offset > self.data.len() || self.data.len() - offset < 2 {
            return None;
        }
        let b0 = self.data[offset];
        let b1 = self.data[offset + 1];
        if self.little_endian {
            Some(b0 as u16 + (b1 as u16) * 256)
        } else {
            Some((b0 as u16) * 256 + b1 as u16)
        }
    }

    pub fn u32_at(&self, offset: usize) -> (r: Option<u32>)
        ensures
            r == spec_u32_at(self.data@, offset as int, self.little_endian),
    {
        if offset > self.data.len() || self.data.len() - offset < 4 {
            return None;
        }
        let b0 = self.data[offset] as u32;
        let b1 = self.data[offset + 1] as u32;
        let b2 = self.data[offset + 2] as u32;
        let b3 = self.data[offset + 3] as u32;
        if self.little_endian {
            Some(b0 + b1 * 256 + b2 * 65536 + b3 * 16777216)
        } else {
            Some(b0 * 16777216 + b1 * 65536 + b2 * 256 + b3)
        }
    }

    pub fn i32_at(&self, offset: usize) -> (r: Option<i32>)
        ensures
            r == spec_i32_at(self.data@, offset as int, self.little_endian),
    {
        match self.u32_at(offset) {
            Some(v) => {
                if v < 0x8000_0000 {
                    Some(v as i32)
                } else {
                    let m = v - 0x8000_0000;
                    Some(m as i32 - 0x7fff_ffff - 1)
                }
            },
            None => None,
        }
    }

    pub fn len(&self) -> (n: usize)
        ensures
            n == self.data@.len(),
    {
        self.data.len()
    }
}

// =========================================================================
// IFD entry
// =========================================================================

/// A single IFD entry (12 bytes).
#[derive(Clone, Copy)]
pub struct IfdEntry {
    pub tag: u16,
    pub type_id: u16,
    pub count: u32,
    /// Raw 4-byte value/offset field.
    pub value_offset: u32,
}

/// The IFD entry stored at `off`, if twelve bytes are available there.
pub open spec fn spec_entry_at(data: Seq<u8>, off: int, little_endian: bool) -> Option<IfdEntry> {
    if 0 <= off && off + 12 <= data.len() {
        Some(
            IfdEntry {
                tag: spec_u16_at(data, off, little_endian).unwrap(),
                type_id: spec_u16_at(data, off + 2, little_endian).unwrap(),
                count: spec_u32_at(data, off + 4, little_endian).unwrap(),
                value_offset: spec_u32_at(data, off + 8, little_endian).unwrap(),
            },
        )
    } else {
        None
    }
}

/// Total byte size of an entry's value data, if it fits in 32 bits.
pub open spec fn spec_value_size(e: IfdEntry) -> Option<u32> {
    match spec_type_size(e.type_id) {
        Some(s) => if s * e.count <= u32::MAX {
            Some((s * e.count) as u32)
        } else {
            None
        },
        None => None,
    }
}

/// Where an entry's value bytes live: inline at bytes 8..12 of the entry
/// when they fit in four bytes, at the stored offset otherwise.
pub open spec fn spec_data_offset(e: IfdEntry, entry_offset: int) -> Option<int> {
    match spec_value_size(e) {
        Some(size) => if size <= 4 {
            Some(entry_offset + 8)
        } else {
            Some(e.value_offset as int)
        },
        None => None,
    }
}

impl IfdEntry {
    /// Parse an IFD entry at the given offset.
    pub fn parse(reader: &Reader<'_>, offset: usize) -> (r: Option<Self>)
        ensures
            r == spec_entry_at(reader.data@, offset as int, reader.little_endian),
    {
        if offset > reader.len() || reader.len() - offset < 12 {
            return None;
        }
        let tag = reader.u16_at(offset)?;
        let type_id = reader.u16_at(offset + 2)?;
        let count = reader.u32_at(offset + 4)?;
        let value_offset = reader.u32_at(offset + 8)?;
        Some(Self { tag, type_id, count, value_offset })
    }

    /// Total byte size of the value data.
    pub fn value_size(&self) -> (r: Option<u32>)
        ensures
            r == spec_value_size(*self),
    {
        match type_size(self.type_id) {
            Some(s) => s.checked_mul(self.count),
            None => None,
        }
    }

    /// Returns the offset into the TIFF data where the value bytes live.
    pub fn data_offset(&self, entry_offset: usize) -> (r: Option<usize>)
        requires
            entry_offset + 8 <= usize::MAX,
        ensures
            match r {
                Some(o) => spec_data_offset(*self, entry_offset as int) == Some(o as int),
                None => spec_data_offset(*self, entry_offset as int) is None,
            },
    {
        let size = self.value_size()?;
        if size <= 4 {
            Some(entry_offset + 8)
        } else {
            Some(self.value_offset as usize)
        }
    }
}

// =========================================================================
// Value extraction helpers
// =========================================================================

/// A SHORT value of an entry.
pub open spec fn spec_read_short(data: Seq<u8>, le: bool, e: IfdEntry, eo: int) -> Option<u16> {
    if e.type_id != TYPE_SHORT || e.count < 1 {
        None
    } else {
        match spec_data_offset(e, eo) {
            Some(off) => spec_u16_at(data, off, le),
            None => None,
        }
    }
}

/// A LONG value, or a SHORT value widened to 32 bits, of an entry.
pub open spec fn spec_read_long_or_short(data: Seq<u8>, le: bool, e: IfdEntry, eo: int) -> Option<
    u32,
> {
    if e.count >= 1 && (e.type_id == TYPE_LONG || e.type_id == TYPE_SHORT) {
        match spec_data_offset(e, eo) {
            Some(off) => if e.type_id == TYPE_LONG {
                spec_u32_at(data, off, le)
            } else {
                match spec_u16_at(data, off, le) {
                    Some(v) => Some(v as u32),
                    None => None,
                }
            },
            None => None,
        }
    } else {
        None
    }
}

/// Position of the first NUL byte in `s`, or its length when it holds none.
pub open spec fn nul_position_from(s: Seq<u8>, i: int) -> int
    decreases s.len() - i,
{
    if i >= s.len() {
        s.len() as int
    } else if s[i] == 0 {
        i
    } else {
        nul_position_from(s, i + 1)
    }
}

/// The bytes of an ASCII entry up to (not including) its first NUL.
pub open spec fn spec_ascii_bytes(data: Seq<u8>, le: bool, e: IfdEntry, eo: int) -> Option<
    Seq<u8>,
> {
    if e.type_id != TYPE_ASCII || e.count == 0 {
        None
    } else {
        match spec_data_offset(e, eo) {
            Some(off) => if off + e.count > data.len() {
                None
            } else {
                let bytes = data.subrange(off, off + e.count);
                Some(bytes.take(nul_position_from(bytes, 0)))
            },
            None => None,
        }
    }
}

/// The text of an ASCII entry, when its bytes are valid UTF-8.
pub open spec fn spec_read_ascii(data: Seq<u8>, le: bool, e: IfdEntry, eo: int) -> Option<
    Seq<char>,
> {
    match spec_ascii_bytes(data, le, e, eo) {
        Some(b) => if valid_utf8(b) {
            Some(decode_utf8(b))
        } else {
            None
        },
        None => None,
    }
}

/// A RATIONAL value of an entry.
pub open spec fn spec_read_rational(data: Seq<u8>, le: bool, e: IfdEntry, eo: int) -> Option<
    Rational,
> {
    if e.type_id != TYPE_RATIONAL || e.count < 1 {
        None
    } else {
        match spec_data_offset(e, eo) {
            Some(off) => match (spec_u32_at(data, off, le), spec_u32_at(data, off + 4, le)) {
                (Some(n), Some(d)) => Some(Rational { numerator: n, denominator: d }),
                _ => None,
            },
            None => None,
        }
    }
}

/// A SRATIONAL value of an entry.
pub open spec fn spec_read_srational(data: Seq<u8>, le: bool, e: IfdEntry, eo: int) -> Option<
    SRational,
> {
    if e.type_id != TYPE_SRATIONAL || e.count < 1 {
        None
    } else {
        match spec_data_offset(e, eo) {
            Some(off) => match (spec_i32_at(data, off, le), spec_i32_at(data, off + 4, le)) {
                (Some(n), Some(d)) => Some(SRational { numerator: n, denominator: d }),
                _ => None,
            },
            None => None,
        }
    }
}

/// The rational stored at `off`.
pub open spec fn rational_at(data: Seq<u8>, off: int, le: bool) -> Option<Rational> {
    match (spec_u32_at(data, off, le), spec_u32_at(data, off + 4, le)) {
        (Some(n), Some(d)) => Some(Rational { numerator: n, denominator: d }),
        _ => None,
    }
}

/// Three RATIONAL values (degrees, minutes, seconds) of an entry.
pub open spec fn spec_read_gps_rationals(data: Seq<u8>, le: bool, e: IfdEntry, eo: int) -> Option<
    (Rational, Rational, Rational),
> {
    if e.type_id != TYPE_RATIONAL || e.count < 3 {
        None
    } else {
        match spec_data_offset(e, eo) {
            Some(off) => match (
                rational_at(data, off, le),
                rational_at(data, off + 8, le),
                rational_at(data, off + 16, le),
            ) {
                (Some(d), Some(m), Some(s)) => Some((d, m, s)),
                _ => None,
            },
            None => None,
        }
    }
}

/// An ASCII letter.
pub open spec fn is_ascii_letter(b: u8) -> bool {
    (65 <= b <= 90) || (97 <= b <= 122)
}

/// The single-letter reference of an ASCII entry.
pub open spec fn spec_read_ascii_char(data: Seq<u8>, le: bool, e: IfdEntry, eo: int) -> Option<
    char,
> {
    if e.type_id != TYPE_ASCII || e.count < 1 {
        None
    } else {
        match spec_data_offset(e, eo) {
            Some(off) => if 0 <= off < data.len() && is_ascii_letter(data[off]) {
                Some(data[off] as char)
            } else {
                None
            },
            None => None,
        }
    }
}

/// A BYTE value of an entry.
pub open spec fn spec_read_byte(data: Seq<u8>, le: bool, e: IfdEntry, eo: int) -> Option<u8> {
    if e.type_id != TYPE_BYTE || e.count < 1 {
        None
    } else {
        match spec_data_offset(e, eo) {
            Some(off) => if 0 <= off < data.len() {
                Some(data[off])
            } else {
                None
            },
            None => None,
        }
    }
}

/// Read a u16 value from an IFD entry (SHORT type, count=1).
pub fn read_short(reader: &Reader<'_>, entry: &IfdEntry, entry_offset: usize) -> (r: Option<u16>)
    requires
        entry_offset + 8 <= usize::MAX,
    ensures
        r == spec_read_short(reader.data@, reader.little_endian, *entry, entry_offset as int),
{
    if entry.type_id != TYPE_SHORT || entry.count < 1 {
        return None;
    }
    let off = entry.data_offset(entry_offset)?;
    reader.u16_at(off)
}

/// Read a u32 value from an IFD entry (LONG or SHORT).
pub fn read_long_or_short(reader: &Reader<'_>, entry: &IfdEntry, entry_offset: usize) -> (r: Option<
    u32,
>)
    requires
        entry_offset + 8 <= usize::MAX,
    ensures
        r == spec_read_long_or_short(
            reader.data@,
            reader.little_endian,
            *entry,
            entry_offset as int,
        ),
{
    if entry.type_id == TYPE_LONG && entry.count >= 1 {
        let off = entry.data_offset(entry_offset)?;
        reader.u32_at(off)
    } else if entry.type_id == TYPE_SHORT && entry.count >= 1 {
        let off = entry.data_offset(entry_offset)?;
        match reader.u16_at(off) {
            Some(v) => Some(v as u32),
            None => None,
        }
    } else {
        None
    }
}

/// Read an ASCII string from an IFD entry, up to its first NUL.
pub fn read_ascii(reader: &Reader<'_>, entry: &IfdEntry, entry_offset: usize) -> (r: Option<String>)
    requires
        entry_offset + 8 <= usize::MAX,
    ensures
        opt_chars(r) == spec_read_ascii(
            reader.data@,
            reader.little_endian,
            *entry,
            entry_offset as int,
        ),
{
    if entry.type_id != TYPE_ASCII || entry.count == 0 {
        return None;
    }
    let off = entry.data_offset(entry_offset)?;
    let count = entry.count as usize;
    let len = reader.len();
    if off > len || len - off < count {
        return None;
    }
    let end = off + count;
    let ghost bytes = reader.data@.subrange(off as int, end as int);
    let mut trimmed: Vec<u8> = Vec::new();
    let mut i = off;
    while i < end
        invariant
            off <= i <= end <= reader.data@.len(),
            bytes == reader.data@.subrange(off as int, end as int),
            trimmed@ == bytes.take(i - off),
            nul_position_from(bytes, i - off) == nul_position_from(bytes, 0),
        ensures
            off <= i <= end,
            trimmed@ == bytes.take(i - off),
            nul_position_from(bytes, 0) == i - off,
        decreases end - i,
    {
        if reader.data[i] == 0 {
            break;
        }
        trimmed.push(reader.data[i]);
        i = i + 1;
        assert(trimmed@ =~= bytes.take(i - off));
    }
    string_from_utf8(trimmed)
}

/// Read a RATIONAL value from an IFD entry.
pub fn read_rational(reader: &Reader<'_>, entry: &IfdEntry, entry_offset: usize) -> (r: Option<
    Rational,
>)
    requires
        entry_offset + 8 <= usize::MAX,
    ensures
        r == spec_read_rational(reader.data@, reader.little_endian, *entry, entry_offset as int),
{
    if entry.type_id != TYPE_RATIONAL || entry.count < 1 {
        return None;
    }
    let off = entry.data_offset(entry_offset)?;
    let num = reader.u32_at(off)?;
    if off > reader.len() - 4 {
        return None;
    }
    let den = reader.u32_at(off + 4)?;
    Some(Rational::new(num, den))
}

/// Read a SRATIONAL value from an IFD entry.
pub fn read_srational(reader: &Reader<'_>, entry: &IfdEntry, entry_offset: usize) -> (r: Option<
    SRational,
>)
    requires
        entry_offset + 8 <= usize::MAX,
    ensures
        r == spec_read_srational(reader.data@, reader.little_endian, *entry, entry_offset as int),
{
    if entry.type_id != TYPE_SRATIONAL || entry.count < 1 {
        return None;
    }
    let off = entry.data_offset(entry_offset)?;
    let num = reader.i32_at(off)?;
    if off > reader.len() - 4 {
        return None;
    }
    let den = reader.i32_at(off + 4)?;
    Some(SRational::new(num, den))
}

/// Read the rational stored at `off`.
fn read_rational_at(reader: &Reader<'_>, off: usize) -> (r: Option<Rational>)
    ensures
        r == rational_at(reader.data@, off as int, reader.little_endian),
{
    let num = reader.u32_at(off)?;
    if off > reader.len() - 4 {
        return None;
    }
    let den = reader.u32_at(off + 4)?;
    Some(Rational::new(num, den))
}

/// Read 3 RATIONAL values for GPS coordinates (degrees, minutes, seconds).
fn read_gps_rationals(reader: &Reader<'_>, entry: &IfdEntry, entry_offset: usize) -> (r: Option<
    (Rational, Rational, Rational),
>)
    requires
        entry_offset + 8 <= usize::MAX,
    ensures
        r == spec_read_gps_rationals(
            reader.data@,
            reader.little_endian,
            *entry,
            entry_offset as int,
        ),
{
    if entry.type_id != TYPE_RATIONAL || entry.count < 3 {
        return None;
    }
    let off = entry.data_offset(entry_offset)?;
    let degrees = read_rational_at(reader, off)?;
    if off > reader.len() - 8 {
        return None;
    }
    let minutes = read_rational_at(reader, off + 8)?;
    let seconds = read_rational_at(reader, off + 16)?;
    Some((degrees, minutes, seconds))
}

/// Read a single-character ASCII reference from an IFD entry.
pub fn read_ascii_char(reader: &Reader<'_>, entry: &IfdEntry, entry_offset: usize) -> (r: Option<char>)
    requires
        entry_offset + 8 <= usize::MAX,
    ensures
        r == spec_read_ascii_char(reader.data@, reader.little_endian, *entry, entry_offset as int),
{
    if entry.type_id != TYPE_ASCII || entry.count < 1 {
        return None;
    }
    let off = entry.data_offset(entry_offset)?;
    if off >= reader.len() {
        return None;
    }
    let b = reader.data[off];
    if (65 <= b && b <= 90) || (97 <= b && b <= 122) {
        Some(b as char)
    } else {
        None
    }
}

/// Read a BYTE value from an IFD entry.
pub fn read_byte(reader: &Reader<'_>, entry: &IfdEntry, entry_offset: usize) -> (r: Option<u8>)
    requires
        entry_offset + 8 <= usize::MAX,
    ensures
        r == spec_read_byte(reader.data@, reader.little_endian, *entry, entry_offset as int),
{
    if entry.type_id != TYPE_BYTE || entry.count < 1 {
        return None;
    }
    let off = entry.data_offset(entry_offset)?;
    if off >= reader.len() {
        return None;
    }
    Some(reader.data[off])
}

// =========================================================================
// IFD walking
// =========================================================================

/// An entry whose value data is stored out of line and ends past the data.
pub open spec fn value_out_of_bounds(e: IfdEntry, len: int) -> bool {
    match spec_value_size(e) {
        Some(size) => {
            let end = e.value_offset + size;
            let clamped = if end > usize::MAX {
                usize::MAX as int
            } else {
                end
            };
            size > 4 && clamped > len
        },
        None => false,
    }
}

/// The entries of an IFD from index `i` on: parsing stops at the first entry
/// that does not fit in the data, and entries whose out-of-line value data
/// lies past the end are skipped.
pub open spec fn ifd_entries_from(
    data: Seq<u8>,
    le: bool,
    ifd_offset: int,
    count: int,
    i: int,
) -> Seq<(IfdEntry, usize)>
    decreases count - i,
{
    if i >= count || i < 0 {
        seq![]
    } else {
        let eo = ifd_offset + 2 + i * 12;
        if eo + 12 > data.len() {
            seq![]
        } else {
            let e = spec_entry_at(data, eo, le).unwrap();
            let rest = ifd_entries_from(data, le, ifd_offset, count, i + 1);
            if value_out_of_bounds(e, data.len() as int) {
                rest
            } else {
                seq![(e, eo as usize)] + rest
            }
        }
    }
}

/// The entries of the IFD at `ifd_offset`, or the error that parsing it
/// reports.
pub open spec fn spec_parse_ifd(data: Seq<u8>, le: bool, ifd_offset: int) -> Result<
    Seq<(IfdEntry, usize)>,
    ExifError,
> {
    if ifd_offset + 2 > data.len() {
        Err(ExifError::OffsetOutOfBounds)
    } else {
        let count = spec_u16_at(data, ifd_offset, le).unwrap();
        if count > MAX_IFD_ENTRIES {
            Err(ExifError::TooManyEntries)
        } else {
            Ok(ifd_entries_from(data, le, ifd_offset, count as int, 0))
        }
    }
}

/// Every entry lies, with its twelve bytes, inside the data.
pub open spec fn entries_in_bounds(data: Seq<u8>, es: Seq<(IfdEntry, usize)>) -> bool {
    forall|k: int| 0 <= k < es.len() ==> #[trigger] es[k].1 + 12 <= data.len()
}

proof fn lemma_entries_in_bounds(data: Seq<u8>, le: bool, ifd_offset: int, count: int, i: int)
    requires
        ifd_offset >= 0,
    ensures
        entries_in_bounds(data, ifd_entries_from(data, le, ifd_offset, count, i)),
    decreases count - i,
{
    if i < count && i >= 0 {
        lemma_entries_in_bounds(data, le, ifd_offset, count, i + 1);
        let eo = ifd_offset + 2 + i * 12;
        if eo + 12 <= data.len() {
            let e = spec_entry_at(data, eo, le).unwrap();
            let rest = ifd_entries_from(data, le, ifd_offset, count, i + 1);
            if !value_out_of_bounds(e, data.len() as int) {
                let all = seq![(e, eo as usize)] + rest;
                assert forall|k: int| 0 <= k < all.len() implies #[trigger] all[k].1 + 12
                    <= data.len() by {
                    if k > 0 {
                        assert(all[k] == rest[k - 1]);
                    }
                }
            }
        }
    }
}

/// Parsed IFD entries with their offsets for value extraction.
pub struct ParsedIfd {
    pub entries: Vec<(IfdEntry, usize)>,
}

/// Parse an IFD at the given offset, returning entries and their offsets.
pub fn parse_ifd(reader: &Reader<'_>, ifd_offset: usize) -> (r: Result<ParsedIfd, ExifError>)
    ensures
        match r {
            Ok(p) => spec_parse_ifd(reader.data@, reader.little_endian, ifd_offset as int) == Ok::<
                Seq<(IfdEntry, usize)>,
                ExifError,
            >(p.entries@),
            Err(e) => spec_parse_ifd(reader.data@, reader.little_endian, ifd_offset as int)
                == Err::<Seq<(IfdEntry, usize)>, ExifError>(e),
        },
        r matches Ok(p) ==> entries_in_bounds(reader.data@, p.entries@),
{
    let len = reader.len();
    if ifd_offset > len || len - ifd_offset < 2 {
        return Err(ExifError::OffsetOutOfBounds);
    }
    let count = match reader.u16_at(ifd_offset) {
        Some(c) => c,
        None => return Err(ExifError::OffsetOutOfBounds),
    };
    if count > MAX_IFD_ENTRIES {
        return Err(ExifError::TooManyEntries);
    }
    let ghost data = reader.data@;
    let ghost le = reader.little_endian;
    let ghost whole = ifd_entries_from(data, le, ifd_offset as int, count as int, 0);
    let room = len - ifd_offset - 2;
    let n = count as usize;
    let mut entries: Vec<(IfdEntry, usize)> = Vec::with_capacity(n);
    let mut i: usize = 0;
    while i < n
        invariant
            i <= n,
            n == count,
            count <= MAX_IFD_ENTRIES,
            len == data.len(),
            data == reader.data@,
            le == reader.little_endian,
            ifd_offset + 2 + room == len,
            whole == ifd_entries_from(data, le, ifd_offset as int, count as int, 0),
            entries@ + ifd_entries_from(data, le, ifd_offset as int, count as int, i as int)
                == whole,
        ensures
            entries@ == whole,
        decreases n - i,
    {
        if i * 12 + 12 > room {
            proof {
                assert(ifd_entries_from(data, le, ifd_offset as int, count as int, i as int)
                    =~= seq![]);
                assert(entries@ =~= entries@ + Seq::<(IfdEntry, usize)>::empty());
            }
            break;
        }
        let entry_offset = ifd_offset + 2 + i * 12;
        let ghost prev = entries@;
        if let Some(entry) = IfdEntry::parse(reader, entry_offset) {
            let skip = match entry.value_size() {
                Some(size) => size > 4 && (entry.value_offset as usize).saturating_add(
                    size as usize,
                ) > len,
                None => false,
            };
            if !skip {
                entries.push((entry, entry_offset));
            }
            proof {
                let rest = ifd_entries_from(data, le, ifd_offset as int, count as int, i + 1);
                if !skip {
                    assert(entries@ + rest =~= prev + (seq![(entry, entry_offset)] + rest));
                }
            }
        }
        i = i + 1;
    }
    proof {
        assert(entries@ =~= whole);
        lemma_entries_in_bounds(data, le, ifd_offset as int, count as int, 0);
    }
    Ok(ParsedIfd { entries })
}

/// The first entry of `es` from index `i` on whose tag is `tag`.
pub open spec fn find_from(es: Seq<(IfdEntry, usize)>, tag: u16, i: int) -> Option<
    (IfdEntry, usize),
>
    decreases es.len() - i,
{
    if i >= es.len() || i < 0 {
        None
    } else if es[i].0.tag == tag {
        Some(es[i])
    } else {
        find_from(es, tag, i + 1)
    }
}

/// Find the first entry with the given tag in a parsed IFD.
pub fn find_entry(ifd: &ParsedIfd, tag: u16) -> (r: Option<(IfdEntry, usize)>)
    ensures
        r == find_from(ifd.entries@, tag, 0),
        r matches Some(p) ==> ifd.entries@.contains(p),
{
    let n = ifd.entries.len();
    let mut i: usize = 0;
    while i < n
        invariant
            i <= n,
            n == ifd.entries@.len(),
            find_from(ifd.entries@, tag, i as int) == find_from(ifd.entries@, tag, 0),
        decreases n - i,
    {
        if ifd.entries[i].0.tag == tag {
            proof {
                assert(ifd.entries@[i as int] == ifd.entries@[i as int]);
            }
            return Some(ifd.entries[i]);
        }
        i = i + 1;
    }
    None
}

// =========================================================================
// Tag dispatch
// =========================================================================

/// The effect of one IFD0 entry on the metadata.
pub open spec fn ifd0_step(v: ExifView, data: Seq<u8>, le: bool, e: IfdEntry, eo: int) -> ExifView {
    if e.tag == TAG_MAKE {
        ExifView { make: spec_read_ascii(data, le, e, eo), ..v }
    } else if e.tag == TAG_MODEL {
        ExifView { model: spec_read_ascii(data, le, e, eo), ..v }
    } else if e.tag == TAG_ORIENTATION {
        ExifView { orientation: spec_read_short(data, le, e, eo), ..v }
    } else if e.tag == TAG_SOFTWARE {
        ExifView { software: spec_read_ascii(data, le, e, eo), ..v }
    } else if e.tag == TAG_DATE_TIME {
        ExifView { date_time: spec_read_ascii(data, le, e, eo), ..v }
    } else {
        v
    }
}

/// The metadata after applying IFD0 entries in order.
pub open spec fn ifd0_fold(v: ExifView, data: Seq<u8>, le: bool, es: Seq<(IfdEntry, usize)>) -> ExifView
    decreases es.len(),
{
    if es.len() == 0 {
        v
    } else {
        ifd0_step(ifd0_fold(v, data, le, es.drop_last()), data, le, es.last().0, es.last().1 as int)
    }
}

/// The effect of one EXIF-IFD entry on the metadata.
pub open spec fn exif_step(v: ExifView, data: Seq<u8>, le: bool, e: IfdEntry, eo: int) -> ExifView {
    if e.tag == TAG_EXPOSURE_TIME {
        ExifView { exposure_time: spec_read_rational(data, le, e, eo), ..v }
    } else if e.tag == TAG_F_NUMBER {
        ExifView { f_number: spec_read_rational(data, le, e, eo), ..v }
    } else if e.tag == TAG_EXPOSURE_PROGRAM {
        ExifView { exposure_program: spec_read_short(data, le, e, eo), ..v }
    } else if e.tag == TAG_ISO_SPEED {
        ExifView { iso: spec_read_long_or_short(data, le, e, eo), ..v }
    } else if e.tag == TAG_DATE_TIME_ORIGINAL {
        ExifView { date_time_original: spec_read_ascii(data, le, e, eo), ..v }
    } else if e.tag == TAG_EXPOSURE_BIAS {
        ExifView { exposure_compensation: spec_read_srational(data, le, e, eo), ..v }
    } else if e.tag == TAG_METERING_MODE {
        ExifView { metering_mode: spec_read_short(data, le, e, eo), ..v }
    } else if e.tag == TAG_FLASH {
        ExifView { flash: spec_read_short(data, le, e, eo), ..v }
    } else if e.tag == TAG_FOCAL_LENGTH {
        ExifView { focal_length: spec_read_rational(data, le, e, eo), ..v }
    } else if e.tag == TAG_COLOR_SPACE {
        ExifView { color_space: spec_read_short(data, le, e, eo), ..v }
    } else if e.tag == TAG_PIXEL_X_DIMENSION {
        ExifView { width: spec_read_long_or_short(data, le, e, eo), ..v }
    } else if e.tag == TAG_PIXEL_Y_DIMENSION {
        ExifView { height: spec_read_long_or_short(data, le, e, eo), ..v }
    } else if e.tag == TAG_WHITE_BALANCE {
        ExifView { white_balance: spec_read_short(data, le, e, eo), ..v }
    } else if e.tag == TAG_FOCAL_LENGTH_35MM {
        ExifView { focal_length_35mm: spec_read_short(data, le, e, eo), ..v }
    } else if e.tag == TAG_LENS_MODEL {
        ExifView { lens_model: spec_read_ascii(data, le, e, eo), ..v }
    } else {
        v
    }
}

/// The metadata after applying EXIF-IFD entries in order.
pub open spec fn exif_fold(v: ExifView, data: Seq<u8>, le: bool, es: Seq<(IfdEntry, usize)>) -> ExifView
    decreases es.len(),
{
    if es.len() == 0 {
        v
    } else {
        exif_step(exif_fold(v, data, le, es.drop_last()), data, le, es.last().0, es.last().1 as int)
    }
}

/// Parse IFD0 tags into ExifData.
fn parse_ifd0_tags(reader: &Reader<'_>, ifd: &ParsedIfd, exif: &mut ExifData)
    requires
        entries_in_bounds(reader.data@, ifd.entries@),
    ensures
        final(exif)@ == ifd0_fold(old(exif)@, reader.data@, reader.little_endian, ifd.entries@),
{
    let ghost start = exif@;
    let ghost data = reader.data@;
    let ghost le = reader.little_endian;
    let len = reader.len();
    let n = ifd.entries.len();
    let mut i: usize = 0;
    while i < n
        invariant
            i <= n,
            n == ifd.entries@.len(),
            len == data.len(),
            data == reader.data@,
            le == reader.little_endian,
            entries_in_bounds(data, ifd.entries@),
            exif@ == ifd0_fold(start, data, le, ifd.entries@.take(i as int)),
        decreases n - i,
    {
        let (entry, offset) = ifd.entries[i];
        assert(ifd.entries@[i as int].1 + 12 <= data.len());
        let ghost prev = exif@;
        if entry.tag == TAG_MAKE {
            exif.make = read_ascii(reader, &entry, offset);
        } else if entry.tag == TAG_MODEL {
            exif.model = read_ascii(reader, &entry, offset);
        } else if entry.tag == TAG_ORIENTATION {
            exif.orientation = read_short(reader, &entry, offset);
        } else if entry.tag == TAG_SOFTWARE {
            exif.software = read_ascii(reader, &entry, offset);
        } else if entry.tag == TAG_DATE_TIME {
            exif.date_time = read_ascii(reader, &entry, offset);
        }
        assert(exif@ == ifd0_step(prev, data, le, entry, offset as int));
        i = i + 1;
        assert(ifd.entries@.take(i as int).drop_last() =~= ifd.entries@.take(i - 1));
    }
    assert(ifd.entries@.take(n as int) =~= ifd.entries@);
}

/// Parse EXIF IFD tags into ExifData.
fn parse_exif_ifd_tags(reader: &Reader<'_>, ifd: &ParsedIfd, exif: &mut ExifData)
    requires
        entries_in_bounds(reader.data@, ifd.entries@),
    ensures
        final(exif)@ == exif_fold(old(exif)@, reader.data@, reader.little_endian, ifd.entries@),
{
    let ghost start = exif@;
    let ghost data = reader.data@;
    let ghost le = reader.little_endian;
    let len = reader.len();
    let n = ifd.entries.len();
    let mut i: usize = 0;
    while i < n
        invariant
            i <= n,
            n == ifd.entries@.len(),
            len == data.len(),
            data == reader.data@,
            le == reader.little_endian,
            entries_in_bounds(data, ifd.entries@),
            exif@ == exif_fold(start, data, le, ifd.entries@.take(i as int)),
        decreases n - i,
    {
        let (entry, offset) = ifd.entries[i];
        assert(ifd.entries@[i as int].1 + 12 <= data.len());
        let ghost prev = exif@;
        let tag = entry.tag;
        if tag == TAG_EXPOSURE_TIME {
            exif.exposure_time = read_rational(reader, &entry, offset);
        } else if tag == TAG_F_NUMBER {
            exif.f_number = read_rational(reader, &entry, offset);
        } else if tag == TAG_EXPOSURE_PROGRAM {
            exif.exposure_program = read_short(reader, &entry, offset);
        } else if tag == TAG_ISO_SPEED {
            exif.iso = read_long_or_short(reader, &entry, offset);
        } else if tag == TAG_DATE_TIME_ORIGINAL {
            exif.date_time_original = read_ascii(reader, &entry, offset);
        } else if tag == TAG_EXPOSURE_BIAS {
            exif.exposure_compensation = read_srational(reader, &entry, offset);
        } else if tag == TAG_METERING_MODE {
            exif.metering_mode = read_short(reader, &entry, offset);
        } else if tag == TAG_FLASH {
            exif.flash = read_short(reader, &entry, offset);
        } else if tag == TAG_FOCAL_LENGTH {
            exif.focal_length = read_rational(reader, &entry, offset);
        } else if tag == TAG_COLOR_SPACE {
            exif.color_space = read_short(reader, &entry, offset);
        } else if tag == TAG_PIXEL_X_DIMENSION {
            exif.width = read_long_or_short(reader, &entry, offset);
        } else if tag == TAG_PIXEL_Y_DIMENSION {
            exif.height = read_long_or_short(reader, &entry, offset);
        } else if tag == TAG_WHITE_BALANCE {
            exif.white_balance = read_short(reader, &entry, offset);
        } else if tag == TAG_FOCAL_LENGTH_35MM {
            exif.focal_length_35mm = read_short(reader, &entry, offset);
        } else if tag == TAG_LENS_MODEL {
            exif.lens_model = read_ascii(reader, &entry, offset);
        }
        assert(exif@ == exif_step(prev, data, le, entry, offset as int));
        i = i + 1;
        assert(ifd.entries@.take(i as int).drop_last() =~= ifd.entries@.take(i - 1));
    }
    assert(ifd.entries@.take(n as int) =~= ifd.entries@);
}

// =========================================================================
// GPS parsing
// =========================================================================

/// The reference letter of an optional entry.
pub open spec fn found_ascii_char(data: Seq<u8>, le: bool, f: Option<(IfdEntry, usize)>) -> Option<
    char,
> {
    match f {
        Some(p) => spec_read_ascii_char(data, le, p.0, p.1 as int),
        None => None,
    }
}

/// The degrees/minutes/seconds of an optional entry.
pub open spec fn found_gps_rationals(
    data: Seq<u8>,
    le: bool,
    f: Option<(IfdEntry, usize)>,
) -> Option<(Rational, Rational, Rational)> {
    match f {
        Some(p) => spec_read_gps_rationals(data, le, p.0, p.1 as int),
        None => None,
    }
}

/// The BYTE value of an optional entry.
pub open spec fn found_byte(data: Seq<u8>, le: bool, f: Option<(IfdEntry, usize)>) -> Option<u8> {
    match f {
        Some(p) => spec_read_byte(data, le, p.0, p.1 as int),
        None => None,
    }
}

/// The RATIONAL value of an optional entry.
pub open spec fn found_rational(data: Seq<u8>, le: bool, f: Option<(IfdEntry, usize)>) -> Option<
    Rational,
> {
    match f {
        Some(p) => spec_read_rational(data, le, p.0, p.1 as int),
        None => None,
    }
}

/// The coordinate made of a reference and degrees/minutes/seconds, when both
/// are present.
pub open spec fn coordinate_of(
    reference: Option<char>,
    dms: Option<(Rational, Rational, Rational)>,
) -> Option<GpsCoordinate> {
    match (reference, dms) {
        (Some(r), Some(t)) => Some(
            GpsCoordinate { degrees: t.0, minutes: t.1, seconds: t.2, reference: r },
        ),
        _ => None,
    }
}

/// The metadata after reading a GPS IFD: latitude and longitude are set when
/// both their reference and their value are present, altitude when its value
/// is present (below sea level when the reference byte is 1).
pub open spec fn gps_apply(v: ExifView, data: Seq<u8>, le: bool, es: Seq<(IfdEntry, usize)>) -> ExifView {
    let lat = coordinate_of(
        found_ascii_char(data, le, find_from(es, TAG_GPS_LATITUDE_REF, 0)),
        found_gps_rationals(data, le, find_from(es, TAG_GPS_LATITUDE, 0)),
    );
    let lon = coordinate_of(
        found_ascii_char(data, le, find_from(es, TAG_GPS_LONGITUDE_REF, 0)),
        found_gps_rationals(data, le, find_from(es, TAG_GPS_LONGITUDE, 0)),
    );
    let alt_ref = found_byte(data, le, find_from(es, TAG_GPS_ALTITUDE_REF, 0));
    let alt = found_rational(data, le, find_from(es, TAG_GPS_ALTITUDE, 0));
    let v1 = if lat is Some {
        ExifView { gps_latitude: lat, ..v }
    } else {
        v
    };
    let v2 = if lon is Some {
        ExifView { gps_longitude: lon, ..v1 }
    } else {
        v1
    };
    match alt {
        Some(a) => ExifView {
            gps_altitude: Some(
                GpsAltitude { meters: a, below_sea_level: alt_ref == Some(1u8) },
            ),
            ..v2
        },
        None => v2,
    }
}

/// Read the optional entry's reference letter.
fn read_found_ascii_char(reader: &Reader<'_>, f: Option<(IfdEntry, usize)>) -> (r: Option<char>)
    requires
        f matches Some(p) ==> p.1 + 12 <= reader.data@.len(),
    ensures
        r == found_ascii_char(reader.data@, reader.little_endian, f),
{
    let len = reader.len();
    match f {
        Some((e, o)) => read_ascii_char(reader, &e, o),
        None => None,
    }
}

/// Read the optional entry's degrees/minutes/seconds.
fn read_found_gps_rationals(reader: &Reader<'_>, f: Option<(IfdEntry, usize)>) -> (r: Option<
    (Rational, Rational, Rational),
>)
    requires
        f matches Some(p) ==> p.1 + 12 <= reader.data@.len(),
    ensures
        r == found_gps_rationals(reader.data@, reader.little_endian, f),
{
    let len = reader.len();
    match f {
        Some((e, o)) => read_gps_rationals(reader, &e, o),
        None => None,
    }
}

/// Parse GPS data from the GPS IFD.
fn parse_gps_ifd(reader: &Reader<'_>, ifd: &ParsedIfd, exif: &mut ExifData)
    requires
        entries_in_bounds(reader.data@, ifd.entries@),
    ensures
        final(exif)@ == gps_apply(old(exif)@, reader.data@, reader.little_endian, ifd.entries@),
{
    let len = reader.len();
    // Latitude
    let lat_ref = read_found_ascii_char(reader, find_entry(ifd, TAG_GPS_LATITUDE_REF));
    let lat_dms = read_found_gps_rationals(reader, find_entry(ifd, TAG_GPS_LATITUDE));
    if let (Some(reference), Some((degrees, minutes, seconds))) = (lat_ref, lat_dms) {
        exif.gps_latitude = Some(GpsCoordinate { degrees, minutes, seconds, reference });
    }
    // Longitude
    let lon_ref = read_found_ascii_char(reader, find_entry(ifd, TAG_GPS_LONGITUDE_REF));
    let lon_dms = read_found_gps_rationals(reader, find_entry(ifd, TAG_GPS_LONGITUDE));
    if let (Some(reference), Some((degrees, minutes, seconds))) = (lon_ref, lon_dms) {
        exif.gps_longitude = Some(GpsCoordinate { degrees, minutes, seconds, reference });
    }
    // Altitude
    let alt_ref = match find_entry(ifd, TAG_GPS_ALTITUDE_REF) {
        Some((e, o)) => read_byte(reader, &e, o),
        None => None,
    };
    let alt_val = match find_entry(ifd, TAG_GPS_ALTITUDE) {
        Some((e, o)) => read_rational(reader, &e, o),
        None => None,
    };
    if let Some(alt) = alt_val {
        let below = match alt_ref {
            Some(b) => b == 1,
            None => false,
        };
        exif.gps_altitude = Some(GpsAltitude { meters: alt, below_sea_level: below });
    }
}

// =========================================================================
// Main parse function
// =========================================================================

/// The JPEG APP1 marker text `Exif\0\0` that may precede the TIFF data.
pub open spec fn exif_prefix() -> Seq<u8> {
    seq![0x45u8, 0x78u8, 0x69u8, 0x66u8, 0u8, 0u8]
}

/// The input with one leading `Exif\0\0` removed, if it starts with one.
pub open spec fn strip_exif_prefix(d: Seq<u8>) -> Seq<u8> {
    if d.len() >= 6 && d.take(6) == exif_prefix() {
        d.skip(6)
    } else {
        d
    }
}

/// The entries of the sub-IFD that the pointer entry with `tag` designates,
/// when that pointer is present, readable, inside the data and leads to an
/// IFD that parses.
pub open spec fn follow_pointer(data: Seq<u8>, le: bool, es0: Seq<(IfdEntry, usize)>, tag: u16) -> Option<
    Seq<(IfdEntry, usize)>,
> {
    match find_from(es0, tag, 0) {
        Some(p) => match spec_read_long_or_short(data, le, p.0, p.1 as int) {
            Some(off) => if off < data.len() {
                match spec_parse_ifd(data, le, off as int) {
                    Ok(es) => Some(es),
                    Err(_) => None,
                }
            } else {
                None
            },
            None => None,
        },
        None => None,
    }
}

/// The metadata read from IFD0 entries and the EXIF and GPS sub-IFDs they
/// point to.
pub open spec fn tiff_view(data: Seq<u8>, le: bool, es0: Seq<(IfdEntry, usize)>) -> ExifView {
    let v0 = ifd0_fold(empty_exif(), data, le, es0);
    let v1 = match follow_pointer(data, le, es0, TAG_EXIF_IFD_POINTER) {
        Some(es) => exif_fold(v0, data, le, es),
        None => v0,
    };
    match follow_pointer(data, le, es0, TAG_GPS_IFD_POINTER) {
        Some(es) => gps_apply(v1, data, le, es),
        None => v1,
    }
}

/// The metadata that TIFF bytes (without the `Exif\0\0` prefix) hold, or the
/// error that parsing them reports.
#[verifier::opaque]
pub open spec fn spec_parse_tiff(data: Seq<u8>) -> Result<ExifView, ExifError> {
    if data.len() < 8 {
        Err(ExifError::TooShort)
    } else if !((data[0] == 0x49 && data[1] == 0x49) || (data[0] == 0x4D && data[1] == 0x4D)) {
        Err(ExifError::InvalidByteOrder)
    } else {
        let le = data[0] == 0x49;
        if u16_of(data[2], data[3], le) != 42 {
            Err(ExifError::InvalidTiffMagic)
        } else {
            let ifd0 = u32_of(data[4], data[5], data[6], data[7], le);
            if ifd0 >= data.len() {
                Err(ExifError::OffsetOutOfBounds)
            } else {
                match spec_parse_ifd(data, le, ifd0 as int) {
                    Err(e) => Err(e),
                    Ok(es0) => Ok(tiff_view(data, le, es0)),
                }
            }
        }
    }
}

/// The metadata that EXIF bytes hold, or the error that parsing them reports.
pub open spec fn spec_parse_exif(input: Seq<u8>) -> Result<ExifView, ExifError> {
    spec_parse_tiff(strip_exif_prefix(input))
}

/// Follows the pointer entry with `tag` in IFD0 to its sub-IFD.
fn follow(reader: &Reader<'_>, ifd0: &ParsedIfd, tag: u16) -> (r: Option<ParsedIfd>)
    requires
        entries_in_bounds(reader.data@, ifd0.entries@),
    ensures
        match r {
            Some(p) => follow_pointer(reader.data@, reader.little_endian, ifd0.entries@, tag)
                == Some(p.entries@) && entries_in_bounds(reader.data@, p.entries@),
            None => follow_pointer(reader.data@, reader.little_endian, ifd0.entries@, tag) is None,
        },
{
    let len = reader.len();
    let (entry, offset) = find_entry(ifd0, tag)?;
    let sub = read_long_or_short(reader, &entry, offset)?;
    let sub = sub as usize;
    if sub >= len {
        return None;
    }
    match parse_ifd(reader, sub) {
        Ok(p) => Some(p),
        Err(_) => None,
    }
}

/// Reads the tags of IFD0 and of the sub-IFDs it points to.
fn read_tags(reader: &Reader<'_>, ifd0: &ParsedIfd) -> (x: ExifData)
    requires
        entries_in_bounds(reader.data@, ifd0.entries@),
    ensures
        x@ == tiff_view(reader.data@, reader.little_endian, ifd0.entries@),
{
    let mut exif = ExifData::default();
    parse_ifd0_tags(reader, ifd0, &mut exif);
    if let Some(exif_ifd) = follow(reader, ifd0, TAG_EXIF_IFD_POINTER) {
        parse_exif_ifd_tags(reader, &exif_ifd, &mut exif);
    }
    if let Some(gps_ifd) = follow(reader, ifd0, TAG_GPS_IFD_POINTER) {
        parse_gps_ifd(reader, &gps_ifd, &mut exif);
    }
    exif
}

/// Parse TIFF bytes (without the `Exif\0\0` prefix).
fn parse_tiff(data: &[u8]) -> (r: Result<ExifData, ExifError>)
    ensures
        match r {
            Ok(x) => spec_parse_tiff(data@) == Ok::<ExifView, ExifError>(x@),
            Err(e) => spec_parse_tiff(data@) == Err::<ExifView, ExifError>(e),
        },
{
    reveal(spec_parse_tiff);
    if data.len() < 8 {
        return Err(ExifError::TooShort);
    }
    let little_endian = if data[0] == 0x49 && data[1] == 0x49 {
        true
    } else if data[0] == 0x4D && data[1] == 0x4D {
        false
    } else {
        return Err(ExifError::InvalidByteOrder);
    };
    let reader = Reader::new(data, little_endian);
    let magic = match reader.u16_at(2) {
        Some(m) => m,
        None => return Err(ExifError::TooShort),
    };
    if magic != 42 {
        return Err(ExifError::InvalidTiffMagic);
    }
    let ifd0_offset = match reader.u32_at(4) {
        Some(o) => o as usize,
        None => return Err(ExifError::TooShort),
    };
    if ifd0_offset >= data.len() {
        return Err(ExifError::OffsetOutOfBounds);
    }
    let ifd0 = parse_ifd(&reader, ifd0_offset)?;
    Ok(read_tags(&reader, &ifd0))
}

/// Parse EXIF data from raw bytes.
///
/// Input is the EXIF payload. For JPEG it may include the `Exif\0\0` prefix
/// (which is stripped). For PNG/AVIF/HEIC, pass the raw TIFF bytes directly.
///
/// Unrecognized or malformed tags are silently skipped.
pub fn parse_exif(input: &[u8]) -> (r: Result<ExifData, ExifError>)
    ensures
        match r {
            Ok(x) => spec_parse_exif(input@) == Ok::<ExifView, ExifError>(x@),
            Err(e) => spec_parse_exif(input@) == Err::<ExifView, ExifError>(e),
        },
{
    let has_prefix = input.len() >= 6 && input[0] == 0x45 && input[1] == 0x78 && input[2] == 0x69
        && input[3] == 0x66 && input[4] == 0 && input[5] == 0;
    proof {
        if input@.len() >= 6 {
            if has_prefix {
                assert(input@.take(6) =~= exif_prefix());
            } else if input@.take(6) == exif_prefix() {
                assert(input@.take(6)[0] == 0x45 && input@.take(6)[1] == 0x78);
                assert(input@.take(6)[2] == 0x69 && input@.take(6)[3] == 0x66);
                assert(input@.take(6)[4] == 0 && input@.take(6)[5] == 0);
            }
        }
    }
    let data: &[u8] = if has_prefix {
        input.split_at(6).1
    } else {
        input
    };
    assert(data@ =~= strip_exif_prefix(input@));
    parse_tiff(data)
}

// =========================================================================
// Laws
// =========================================================================

/// EXIF bytes that carry the JPEG `Exif\0\0` prefix parse exactly as the
/// raw TIFF bytes after it (the prefix is removed once).
pub proof fn law_prefix_is_stripped(tiff: Seq<u8>)
    requires
        !(tiff.len() >= 6 && tiff.take(6) == exif_prefix()),
    ensures
        spec_parse_exif(exif_prefix() + tiff) == spec_parse_exif(tiff),
{
    let d = exif_prefix() + tiff;
    assert(d.take(6) =~= exif_prefix());
    assert(d.skip(6) =~= tiff);
}

proof fn lemma_find_none(es: Seq<(IfdEntry, usize)>, tag: u16, i: int)
    requires
        0 <= i,
        find_from(es, tag, i) is None,
    ensures
        forall|k: int| i <= k < es.len() ==> #[trigger] es[k].0.tag != tag,
    decreases es.len() - i,
{
    if i < es.len() {
        lemma_find_none(es, tag, i + 1);
    }
}

/// No entry of `es` carries `tag`.
pub open spec fn lacks_tag(es: Seq<(IfdEntry, usize)>, tag: u16) -> bool {
    forall|k: int| 0 <= k < es.len() ==> #[trigger] es[k].0.tag != tag
}

proof fn lemma_ifd0_fold_keeps(v: ExifView, data: Seq<u8>, le: bool, es: Seq<(IfdEntry, usize)>)
    ensures
        lacks_tag(es, TAG_MAKE) ==> ifd0_fold(v, data, le, es).make == v.make,
        lacks_tag(es, TAG_MODEL) ==> ifd0_fold(v, data, le, es).model == v.model,
        lacks_tag(es, TAG_ORIENTATION) ==> ifd0_fold(v, data, le, es).orientation
            == v.orientation,
        lacks_tag(es, TAG_SOFTWARE) ==> ifd0_fold(v, data, le, es).software == v.software,
        lacks_tag(es, TAG_DATE_TIME) ==> ifd0_fold(v, data, le, es).date_time == v.date_time,
    decreases es.len(),
{
    if es.len() > 0 {
        let pre = es.drop_last();
        lemma_ifd0_fold_keeps(v, data, le, pre);
        assert forall|t: u16| lacks_tag(es, t) implies lacks_tag(pre, t) by {
            assert forall|k: int| 0 <= k < pre.len() implies #[trigger] pre[k].0.tag != t by {
                assert(pre[k] == es[k]);
            }
        }
        assert(es.last() == es[es.len() - 1]);
    }
}

proof fn lemma_exif_fold_keeps(v: ExifView, data: Seq<u8>, le: bool, es: Seq<(IfdEntry, usize)>)
    ensures
        exif_fold(v, data, le, es).make == v.make,
        exif_fold(v, data, le, es).model == v.model,
        exif_fold(v, data, le, es).orientation == v.orientation,
        exif_fold(v, data, le, es).software == v.software,
        exif_fold(v, data, le, es).date_time == v.date_time,
    decreases es.len(),
{
    if es.len() > 0 {
        lemma_exif_fold_keeps(v, data, le, es.drop_last());
    }
}

/// The camera fields of IFD0 (make, model, orientation, software, date/time)
/// are absent from the parsed metadata whenever IFD0 holds no entry with
/// their tag, whatever the sub-IFDs hold.
pub proof fn law_absent_tags_stay_none(data: Seq<u8>, le: bool, es0: Seq<(IfdEntry, usize)>)
    ensures
        find_from(es0, TAG_MAKE, 0) is None ==> tiff_view(data, le, es0).make is None,
        find_from(es0, TAG_MODEL, 0) is None ==> tiff_view(data, le, es0).model is None,
        find_from(es0, TAG_ORIENTATION, 0) is None ==> tiff_view(data, le, es0).orientation is None,
        find_from(es0, TAG_SOFTWARE, 0) is None ==> tiff_view(data, le, es0).software is None,
        find_from(es0, TAG_DATE_TIME, 0) is None ==> tiff_view(data, le, es0).date_time is None,
{
    let v0 = ifd0_fold(empty_exif(), data, le, es0);
    lemma_ifd0_fold_keeps(empty_exif(), data, le, es0);
    assert forall|t: u16| find_from(es0, t, 0) is None implies lacks_tag(es0, t) by {
        lemma_find_none(es0, t, 0);
    }
    let v1 = match follow_pointer(data, le, es0, TAG_EXIF_IFD_POINTER) {
        Some(es) => exif_fold(v0, data, le, es),
        None => v0,
    };
    if let Some(es) = follow_pointer(data, le, es0, TAG_EXIF_IFD_POINTER) {
        lemma_exif_fold_keeps(v0, data, le, es);
    }
}

/// An IFD0 holding only entries whose tags the parser does not know leaves
/// the metadata unchanged: unrecognized tags are skipped.
pub proof fn law_unknown_ifd0_tags_skipped(
    v: ExifView,
    data: Seq<u8>,
    le: bool,
    es: Seq<(IfdEntry, usize)>,
)
    requires
        lacks_tag(es, TAG_MAKE),
        lacks_tag(es, TAG_MODEL),
        lacks_tag(es, TAG_ORIENTATION),
        lacks_tag(es, TAG_SOFTWARE),
        lacks_tag(es, TAG_DATE_TIME),
    ensures
        ifd0_fold(v, data, le, es) == v,
    decreases es.len(),
{
    if es.len() > 0 {
        let pre = es.drop_last();
        assert forall|t: u16| lacks_tag(es, t) implies lacks_tag(pre, t) by {
            assert forall|k: int| 0 <= k < pre.len() implies #[trigger] pre[k].0.tag != t by {
                assert(pre[k] == es[k]);
            }
        }
        law_unknown_ifd0_tags_skipped(v, data, le, pre);
        assert(es.last() == es[es.len() - 1]);
    }
}

/// The word of four bytes at `o`, in the given byte order.
pub open spec fn word_at(data: Seq<u8>, o: int, le: bool) -> u32 {
    u32_of(data[o], data[o + 1], data[o + 2], data[o + 3], le)
}

/// The rational whose numerator and denominator are the words at `o` and
/// `o + 4`.
pub open spec fn rational_of_bytes(data: Seq<u8>, o: int, le: bool) -> Rational {
    Rational { numerator: word_at(data, o, le), denominator: word_at(data, o + 4, le) }
}

/// Entry `k` is the first of `es` with tag `tag`.
pub open spec fn first_with_tag(es: Seq<(IfdEntry, usize)>, tag: u16, k: int) -> bool {
    &&& 0 <= k < es.len()
    &&& es[k].0.tag == tag
    &&& forall|j: int| 0 <= j < k ==> #[trigger] es[j].0.tag != tag
}

proof fn lemma_find_first_with_tag(es: Seq<(IfdEntry, usize)>, tag: u16, k: int, i: int)
    requires
        first_with_tag(es, tag, k),
        0 <= i <= k,
    ensures
        find_from(es, tag, i) == Some(es[k]),
    decreases k - i,
{
    if i < k {
        assert(es[i].0.tag != tag);
        lemma_find_first_with_tag(es, tag, k, i + 1);
    }
}

/// A reference entry holding one to four ASCII bytes, inside the data, whose
/// first byte is a letter.
pub open spec fn letter_entry(data: Seq<u8>, p: (IfdEntry, usize)) -> bool {
    &&& p.0.type_id == TYPE_ASCII
    &&& 1 <= p.0.count <= 4
    &&& p.1 + 12 <= data.len()
    &&& is_ascii_letter(data[p.1 + 8])
}

/// A RATIONAL entry of at least three values stored inside the data.
pub open spec fn three_rationals_entry(data: Seq<u8>, p: (IfdEntry, usize)) -> bool {
    &&& p.0.type_id == TYPE_RATIONAL
    &&& 3 <= p.0.count
    &&& 8 * p.0.count <= u32::MAX
    &&& p.0.value_offset + 24 <= data.len()
}

/// The coordinate whose reference letter is stored inline in entry `r` and
/// whose degrees, minutes and seconds are the three rationals that entry
/// `d` points to, decoded in the given byte order.
pub open spec fn coordinate_from_entries(
    data: Seq<u8>,
    le: bool,
    r: (IfdEntry, usize),
    d: (IfdEntry, usize),
) -> GpsCoordinate {
    let o = d.0.value_offset as int;
    GpsCoordinate {
        degrees: rational_of_bytes(data, o, le),
        minutes: rational_of_bytes(data, o + 8, le),
        seconds: rational_of_bytes(data, o + 16, le),
        reference: data[r.1 + 8] as char,
    }
}

proof fn lemma_coordinate_from_entries(data: Seq<u8>, le: bool, r: (IfdEntry, usize), d: (IfdEntry, usize))
    requires
        letter_entry(data, r),
        three_rationals_entry(data, d),
    ensures
        coordinate_of(
            found_ascii_char(data, le, Some(r)),
            found_gps_rationals(data, le, Some(d)),
        ) == Some(coordinate_from_entries(data, le, r, d)),
{
    assert(spec_type_size(TYPE_RATIONAL) == Some(8u32));
    assert(spec_type_size(TYPE_ASCII) == Some(1u32));
    assert(spec_data_offset(d.0, d.1 as int) == Some(d.0.value_offset as int));
    assert(spec_data_offset(r.0, r.1 as int) == Some(r.1 + 8));
}

/// The latitude comes from the first GPSLatitudeRef entry (its letter) and
/// the first GPSLatitude entry (its three rationals: degrees, minutes,
/// seconds, decoded in the file's byte order), whatever the other entries,
/// the longitude's among them, hold.
pub proof fn law_gps_latitude_from_its_entries(
    v: ExifView,
    data: Seq<u8>,
    le: bool,
    es: Seq<(IfdEntry, usize)>,
    kr: int,
    k: int,
)
    requires
        first_with_tag(es, TAG_GPS_LATITUDE_REF, kr),
        first_with_tag(es, TAG_GPS_LATITUDE, k),
        letter_entry(data, es[kr]),
        three_rationals_entry(data, es[k]),
    ensures
        gps_apply(v, data, le, es).gps_latitude == Some(
            coordinate_from_entries(data, le, es[kr], es[k]),
        ),
{
    lemma_find_first_with_tag(es, TAG_GPS_LATITUDE_REF, kr, 0);
    lemma_find_first_with_tag(es, TAG_GPS_LATITUDE, k, 0);
    lemma_coordinate_from_entries(data, le, es[kr], es[k]);
}

/// The longitude comes from the first GPSLongitudeRef entry (its letter)
/// and the first GPSLongitude entry (its three rationals: degrees, minutes,
/// seconds, decoded in the file's byte order), whatever the other entries,
/// the latitude's among them, hold.
pub proof fn law_gps_longitude_from_its_entries(
    v: ExifView,
    data: Seq<u8>,
    le: bool,
    es: Seq<(IfdEntry, usize)>,
    kr: int,
    k: int,
)
    requires
        first_with_tag(es, TAG_GPS_LONGITUDE_REF, kr),
        first_with_tag(es, TAG_GPS_LONGITUDE, k),
        letter_entry(data, es[kr]),
        three_rationals_entry(data, es[k]),
    ensures
        gps_apply(v, data, le, es).gps_longitude == Some(
            coordinate_from_entries(data, le, es[kr], es[k]),
        ),
{
    lemma_find_first_with_tag(es, TAG_GPS_LONGITUDE_REF, kr, 0);
    lemma_find_first_with_tag(es, TAG_GPS_LONGITUDE, k, 0);
    lemma_coordinate_from_entries(data, le, es[kr], es[k]);
}

/// The altitude is the rational that the first GPSAltitude entry points to,
/// decoded in the file's byte order; it lies below sea level exactly when
/// the first GPSAltitudeRef entry holds the byte 1, and above it when there
/// is no such entry.
pub proof fn law_gps_altitude_from_its_entries(
    v: ExifView,
    data: Seq<u8>,
    le: bool,
    es: Seq<(IfdEntry, usize)>,
    k: int,
)
    requires
        first_with_tag(es, TAG_GPS_ALTITUDE, k),
        es[k].0.type_id == TYPE_RATIONAL,
        1 <= es[k].0.count,
        8 * es[k].0.count <= u32::MAX,
        es[k].0.value_offset + 8 <= data.len(),
    ensures
        gps_apply(v, data, le, es).gps_altitude matches Some(a) && a.meters == rational_of_bytes(
            data,
            es[k].0.value_offset as int,
            le,
        ),
        forall|kr: int|
            #![trigger first_with_tag(es, TAG_GPS_ALTITUDE_REF, kr)]
            first_with_tag(es, TAG_GPS_ALTITUDE_REF, kr) && es[kr].0.type_id == TYPE_BYTE && 1
                <= es[kr].0.count <= 4 && es[kr].1 + 12 <= data.len() ==> gps_apply(
                v,
                data,
                le,
                es,
            ).gps_altitude->0.below_sea_level == (data[es[kr].1 + 8] == 1),
        lacks_tag(es, TAG_GPS_ALTITUDE_REF) ==> !gps_apply(
            v,
            data,
            le,
            es,
        ).gps_altitude->0.below_sea_level,
{
    lemma_find_first_with_tag(es, TAG_GPS_ALTITUDE, k, 0);
    let e = es[k].0;
    assert(spec_type_size(TYPE_RATIONAL) == Some(8u32));
    assert(spec_data_offset(e, es[k].1 as int) == Some(e.value_offset as int));
    assert forall|kr: int|
        #![trigger first_with_tag(es, TAG_GPS_ALTITUDE_REF, kr)]
        first_with_tag(es, TAG_GPS_ALTITUDE_REF, kr) && es[kr].0.type_id == TYPE_BYTE && 1
            <= es[kr].0.count <= 4 && es[kr].1 + 12 <= data.len() implies gps_apply(
            v,
            data,
            le,
            es,
        ).gps_altitude->0.below_sea_level == (data[es[kr].1 + 8] == 1) by {
        lemma_find_first_with_tag(es, TAG_GPS_ALTITUDE_REF, kr, 0);
        assert(spec_type_size(TYPE_BYTE) == Some(1u32));
        assert(spec_data_offset(es[kr].0, es[kr].1 as int) == Some(es[kr].1 + 8));
    }
    if lacks_tag(es, TAG_GPS_ALTITUDE_REF) && es.len() > 0 {
        lemma_find_tag_none_step(es, TAG_GPS_ALTITUDE_REF, 0);
    }
}

proof fn lemma_find_tag_none_step(es: Seq<(IfdEntry, usize)>, tag: u16, i: int)
    requires
        lacks_tag(es, tag),
        0 <= i < es.len(),
    ensures
        find_from(es, tag, i) is None,
    decreases es.len() - i,
{
    assert(es[i].0.tag != tag);
    if i + 1 < es.len() {
        lemma_find_tag_none_step(es, tag, i + 1);
    } else {
        assert(find_from(es, tag, i + 1) is None);
    }
}

/// In little-endian order the first byte is the least significant, in
/// big-endian order the most significant: the bytes of a 16- or 32-bit value
/// are its base-256 digits, taken from either end.
pub proof fn law_byte_order(b0: u8, b1: u8, b2: u8, b3: u8)
    ensures
        u16_of(b0, b1, true) % 256 == b0,
        u16_of(b0, b1, true) / 256 == b1,
        u16_of(b0, b1, false) % 256 == b1,
        u16_of(b0, b1, false) / 256 == b0,
        u32_of(b0, b1, b2, b3, true) % 256 == b0,
        (u32_of(b0, b1, b2, b3, true) / 256) % 256 == b1,
        (u32_of(b0, b1, b2, b3, true) / 65536) % 256 == b2,
        u32_of(b0, b1, b2, b3, true) / 16777216 == b3,
        u32_of(b0, b1, b2, b3, false) == u32_of(b3, b2, b1, b0, true),
{
    let x = b0 + 256 * (b1 + 256 * (b2 + 256 * b3));
    assert(x == b0 + 256 * b1 + 65536 * b2 + 16777216 * b3);
    lemma_fundamental_div_mod_converse(b0 + 256 * b1, 256, b1 as int, b0 as int);
    lemma_fundamental_div_mod_converse(b1 + 256 * b0, 256, b0 as int, b1 as int);
    lemma_fundamental_div_mod_converse(x, 256, b1 + 256 * (b2 + 256 * b3), b0 as int);
    lemma_fundamental_div_mod_converse(b1 + 256 * (b2 + 256 * b3), 256, b2 + 256 * b3, b1 as int);
    lemma_fundamental_div_mod_converse(x, 65536, b2 + 256 * b3, b0 + 256 * b1);
    lemma_fundamental_div_mod_converse(b2 + 256 * b3, 256, b3 as int, b2 as int);
    lemma_fundamental_div_mod_converse(x, 16777216, b3 as int, b0 + 256 * b1 + 65536 * b2);
}

/// Where an entry's values live: inline (at `eo + 8`) for up to four bytes,
/// at the stored offset beyond.
proof fn lemma_value_place(e: IfdEntry, eo: int, size: u32)
    requires
        spec_type_size(e.type_id) == Some(size),
        size * e.count <= u32::MAX,
    ensures
        size * e.count <= 4 ==> spec_data_offset(e, eo) == Some(eo + 8),
        size * e.count > 4 ==> spec_data_offset(e, eo) == Some(e.value_offset as int),
{
}

/// A SHORT entry holding one or two values stores them inline; its value
/// is the first two of those bytes in the file's byte order.
pub proof fn law_short_from_bytes(data: Seq<u8>, le: bool, e: IfdEntry, eo: int)
    requires
        e.type_id == TYPE_SHORT,
        1 <= e.count <= 2,
        0 <= eo,
        eo + 12 <= data.len(),
    ensures
        spec_read_short(data, le, e, eo) == Some(u16_of(data[eo + 8], data[eo + 9], le)),
        spec_read_long_or_short(data, le, e, eo) == Some(
            u16_of(data[eo + 8], data[eo + 9], le) as u32,
        ),
{
    lemma_value_place(e, eo, 2);
}

/// A LONG entry holding one value stores it inline, in the file's byte
/// order.
pub proof fn law_long_from_bytes(data: Seq<u8>, le: bool, e: IfdEntry, eo: int)
    requires
        e.type_id == TYPE_LONG,
        e.count == 1,
        0 <= eo,
        eo + 12 <= data.len(),
    ensures
        spec_read_long_or_short(data, le, e, eo) == Some(word_at(data, eo + 8, le)),
{
    lemma_value_place(e, eo, 4);
}

/// A RATIONAL entry stores its values at its offset field; the first value
/// is the numerator and denominator words there, in the file's byte order.
pub proof fn law_rational_from_bytes(data: Seq<u8>, le: bool, e: IfdEntry, eo: int)
    requires
        e.type_id == TYPE_RATIONAL,
        1 <= e.count,
        8 * e.count <= u32::MAX,
        e.value_offset + 8 <= data.len(),
    ensures
        spec_read_rational(data, le, e, eo) == Some(
            rational_of_bytes(data, e.value_offset as int, le),
        ),
{
    lemma_value_place(e, eo, 8);
}

/// A SRATIONAL entry stores its values at its offset field; the first value
/// is the two's-complement numerator and denominator words there, in the
/// file's byte order.
pub proof fn law_srational_from_bytes(data: Seq<u8>, le: bool, e: IfdEntry, eo: int)
    requires
        e.type_id == TYPE_SRATIONAL,
        1 <= e.count,
        8 * e.count <= u32::MAX,
        e.value_offset + 8 <= data.len(),
    ensures
        spec_read_srational(data, le, e, eo) == Some(
            SRational {
                numerator: i32_of_bits(word_at(data, e.value_offset as int, le)),
                denominator: i32_of_bits(word_at(data, e.value_offset as int + 4, le)),
            },
        ),
{
    lemma_value_place(e, eo, 8);
}

/// An ASCII entry whose bytes are ASCII characters ended by a NUL reads as
/// those characters; the bytes lie inline for up to four of them and at the
/// offset field beyond.
pub proof fn law_ascii_from_bytes(data: Seq<u8>, le: bool, e: IfdEntry, eo: int, text: Seq<u8>)
    requires
        e.type_id == TYPE_ASCII,
        e.count == text.len() + 1,
        0 <= eo,
        eo + 12 <= data.len(),
        forall|k: int| 0 <= k < text.len() ==> 0 < #[trigger] text[k] < 128,
        ({
            let off = if e.count <= 4 { eo + 8 } else { e.value_offset as int };
            &&& off + e.count <= data.len()
            &&& data.subrange(off, off + text.len()) == text
            &&& data[off + text.len()] == 0
        }),
    ensures
        spec_read_ascii(data, le, e, eo) == Some(ascii_chars(text)),
{
    lemma_value_place(e, eo, 1);
    let off = if e.count <= 4 { eo + 8 } else { e.value_offset as int };
    let bytes = data.subrange(off, off + e.count);
    assert(bytes.take(text.len() as int) =~= text);
    assert(bytes[text.len() as int] == 0);
    lemma_nul_at(bytes, text.len() as int, 0);
    lemma_ascii_is_utf8(text);
}

proof fn lemma_nul_at(s: Seq<u8>, p: int, i: int)
    requires
        0 <= i <= p < s.len(),
        s[p] == 0,
        forall|k: int| 0 <= k < p ==> #[trigger] s[k] != 0,
    ensures
        nul_position_from(s, i) == p,
    decreases p - i,
{
    if i < p {
        lemma_nul_at(s, p, i + 1);
    }
}

/// Entry `k` is the last of `es` with tag `tag`.
pub open spec fn last_with_tag(es: Seq<(IfdEntry, usize)>, tag: u16, k: int) -> bool {
    &&& 0 <= k < es.len()
    &&& es[k].0.tag == tag
    &&& forall|j: int| k < j < es.len() ==> #[trigger] es[j].0.tag != tag
}

proof fn lemma_last_with_tag_prefix(es: Seq<(IfdEntry, usize)>, tag: u16, k: int)
    requires
        last_with_tag(es, tag, k),
        k < es.len() - 1,
    ensures
        last_with_tag(es.drop_last(), tag, k),
        es.last().0.tag != tag,
{
    let pre = es.drop_last();
    assert(es[es.len() - 1].0.tag != tag);
    assert forall|j: int| k < j < pre.len() implies #[trigger] pre[j].0.tag != tag by {
        assert(pre[j] == es[j]);
    }
}

/// Each IFD0 field (make, model, orientation, software, date/time) is read
/// from the last IFD0 entry with its own tag, whatever entries with other
/// tags hold.
pub proof fn law_ifd0_last_entry_wins(v: ExifView, data: Seq<u8>, le: bool, es: Seq<(IfdEntry, usize)>)
    ensures
        forall|k: int| last_with_tag(es, TAG_MAKE, k) ==> ifd0_fold(v, data, le, es).make == spec_read_ascii(
            data,
            le,
            es[k].0,
            es[k].1 as int,
        ),
        forall|k: int| last_with_tag(es, TAG_MODEL, k) ==> ifd0_fold(v, data, le, es).model == spec_read_ascii(
            data,
            le,
            es[k].0,
            es[k].1 as int,
        ),
        forall|k: int| last_with_tag(es, TAG_ORIENTATION, k) ==> ifd0_fold(v, data, le, es).orientation == spec_read_short(
            data,
            le,
            es[k].0,
            es[k].1 as int,
        ),
        forall|k: int| last_with_tag(es, TAG_SOFTWARE, k) ==> ifd0_fold(v, data, le, es).software == spec_read_ascii(
            data,
            le,
            es[k].0,
            es[k].1 as int,
        ),
        forall|k: int| last_with_tag(es, TAG_DATE_TIME, k) ==> ifd0_fold(v, data, le, es).date_time == spec_read_ascii(
            data,
            le,
            es[k].0,
            es[k].1 as int,
        ),
    decreases es.len(),
{
    if es.len() > 0 {
        let pre = es.drop_last();
        law_ifd0_last_entry_wins(v, data, le, pre);
        assert(es.last() == es[es.len() - 1]);
        assert forall|k: int| last_with_tag(es, TAG_MAKE, k) implies ifd0_fold(v, data, le, es).make == spec_read_ascii(
            data,
            le,
            es[k].0,
            es[k].1 as int,
        ) by {
            if k < es.len() - 1 {
                lemma_last_with_tag_prefix(es, TAG_MAKE, k);
            }
        }
        assert forall|k: int| last_with_tag(es, TAG_MODEL, k) implies ifd0_fold(v, data, le, es).model == spec_read_ascii(
            data,
            le,
            es[k].0,
            es[k].1 as int,
        ) by {
            if k < es.len() - 1 {
                lemma_last_with_tag_prefix(es, TAG_MODEL, k);
            }
        }
        assert forall|k: int| last_with_tag(es, TAG_ORIENTATION, k) implies ifd0_fold(v, data, le, es).orientation == spec_read_short(
            data,
            le,
            es[k].0,
            es[k].1 as int,
        ) by {
            if k < es.len() - 1 {
                lemma_last_with_tag_prefix(es, TAG_ORIENTATION, k);
            }
        }
        assert forall|k: int| last_with_tag(es, TAG_SOFTWARE, k) implies ifd0_fold(v, data, le, es).software == spec_read_ascii(
            data,
            le,
            es[k].0,
            es[k].1 as int,
        ) by {
            if k < es.len() - 1 {
                lemma_last_with_tag_prefix(es, TAG_SOFTWARE, k);
            }
        }
        assert forall|k: int| last_with_tag(es, TAG_DATE_TIME, k) implies ifd0_fold(v, data, le, es).date_time == spec_read_ascii(
            data,
            le,
            es[k].0,
            es[k].1 as int,
        ) by {
            if k < es.len() - 1 {
                lemma_last_with_tag_prefix(es, TAG_DATE_TIME, k);
            }
        }
    }
}

/// Each EXIF-IFD field is read from the last EXIF-IFD entry with its own
/// tag (exposure time 0x829A, f-number 0x829D, exposure program 0x8822, ISO
/// 0x8827, original date 0x9003, exposure bias 0x9204, metering 0x9207,
/// flash 0x9209, focal length 0x920A, colour space 0xA001, pixel width
/// 0xA002 and height 0xA003, white balance 0xA403, 35 mm focal length
/// 0xA405, lens model 0xA434), whatever entries with other tags hold.
pub proof fn law_exif_ifd_last_entry_wins(v: ExifView, data: Seq<u8>, le: bool, es: Seq<(IfdEntry, usize)>)
    ensures
        forall|k: int| last_with_tag(es, TAG_EXPOSURE_TIME, k) ==> exif_fold(v, data, le, es).exposure_time == spec_read_rational(
            data,
            le,
            es[k].0,
            es[k].1 as int,
        ),
        forall|k: int| last_with_tag(es, TAG_F_NUMBER, k) ==> exif_fold(v, data, le, es).f_number == spec_read_rational(
            data,
            le,
            es[k].0,
            es[k].1 as int,
        ),
        forall|k: int| last_with_tag(es, TAG_EXPOSURE_PROGRAM, k) ==> exif_fold(v, data, le, es).exposure_program == spec_read_short(
            data,
            le,
            es[k].0,
            es[k].1 as int,
        ),
        forall|k: int| last_with_tag(es, TAG_ISO_SPEED, k) ==> exif_fold(v, data, le, es).iso == spec_read_long_or_short(
            data,
            le,
            es[k].0,
            es[k].1 as int,
        ),
        forall|k: int| last_with_tag(es, TAG_DATE_TIME_ORIGINAL, k) ==> exif_fold(v, data, le, es).date_time_original == spec_read_ascii(
            data,
            le,
            es[k].0,
            es[k].1 as int,
        ),
        forall|k: int| last_with_tag(es, TAG_EXPOSURE_BIAS, k) ==> exif_fold(v, data, le, es).exposure_compensation == spec_read_srational(
            data,
            le,
            es[k].0,
            es[k].1 as int,
        ),
        forall|k: int| last_with_tag(es, TAG_METERING_MODE, k) ==> exif_fold(v, data, le, es).metering_mode == spec_read_short(
            data,
            le,
            es[k].0,
            es[k].1 as int,
        ),
        forall|k: int| last_with_tag(es, TAG_FLASH, k) ==> exif_fold(v, data, le, es).flash == spec_read_short(
            data,
            le,
            es[k].0,
            es[k].1 as int,
        ),
        forall|k: int| last_with_tag(es, TAG_FOCAL_LENGTH, k) ==> exif_fold(v, data, le, es).focal_length == spec_read_rational(
            data,
            le,
            es[k].0,
            es[k].1 as int,
        ),
        forall|k: int| last_with_tag(es, TAG_COLOR_SPACE, k) ==> exif_fold(v, data, le, es).color_space == spec_read_short(
            data,
            le,
            es[k].0,
            es[k].1 as int,
        ),
        forall|k: int| last_with_tag(es, TAG_PIXEL_X_DIMENSION, k) ==> exif_fold(v, data, le, es).width == spec_read_long_or_short(
            data,
            le,
            es[k].0,
            es[k].1 as int,
        ),
        forall|k: int| last_with_tag(es, TAG_PIXEL_Y_DIMENSION, k) ==> exif_fold(v, data, le, es).height == spec_read_long_or_short(
            data,
            le,
            es[k].0,
            es[k].1 as int,
        ),
        forall|k: int| last_with_tag(es, TAG_WHITE_BALANCE, k) ==> exif_fold(v, data, le, es).white_balance == spec_read_short(
            data,
            le,
            es[k].0,
            es[k].1 as int,
        ),
        forall|k: int| last_with_tag(es, TAG_FOCAL_LENGTH_35MM, k) ==> exif_fold(v, data, le, es).focal_length_35mm == spec_read_short(
            data,
            le,
            es[k].0,
            es[k].1 as int,
        ),
        forall|k: int| last_with_tag(es, TAG_LENS_MODEL, k) ==> exif_fold(v, data, le, es).lens_model == spec_read_ascii(
            data,
            le,
            es[k].0,
            es[k].1 as int,
        ),
    decreases es.len(),
{
    if es.len() > 0 {
        let pre = es.drop_last();
        law_exif_ifd_last_entry_wins(v, data, le, pre);
        assert(es.last() == es[es.len() - 1]);
        assert forall|k: int| last_with_tag(es, TAG_EXPOSURE_TIME, k) implies exif_fold(v, data, le, es).exposure_time == spec_read_rational(
            data,
            le,
            es[k].0,
            es[k].1 as int,
        ) by {
            if k < es.len() - 1 {
                lemma_last_with_tag_prefix(es, TAG_EXPOSURE_TIME, k);
            }
        }
        assert forall|k: int| last_with_tag(es, TAG_F_NUMBER, k) implies exif_fold(v, data, le, es).f_number == spec_read_rational(
            data,
            le,
            es[k].0,
            es[k].1 as int,
        ) by {
            if k < es.len() - 1 {
                lemma_last_with_tag_prefix(es, TAG_F_NUMBER, k);
            }
        }
        assert forall|k: int| last_with_tag(es, TAG_EXPOSURE_PROGRAM, k) implies exif_fold(v, data, le, es).exposure_program == spec_read_short(
            data,
            le,
            es[k].0,
            es[k].1 as int,
        ) by {
            if k < es.len() - 1 {
                lemma_last_with_tag_prefix(es, TAG_EXPOSURE_PROGRAM, k);
            }
        }
        assert forall|k: int| last_with_tag(es, TAG_ISO_SPEED, k) implies exif_fold(v, data, le, es).iso == spec_read_long_or_short(
            data,
            le,
            es[k].0,
            es[k].1 as int,
        ) by {
            if k < es.len() - 1 {
                lemma_last_with_tag_prefix(es, TAG_ISO_SPEED, k);
            }
        }
        assert forall|k: int| last_with_tag(es, TAG_DATE_TIME_ORIGINAL, k) implies exif_fold(v, data, le, es).date_time_original == spec_read_ascii(
            data,
            le,
            es[k].0,
            es[k].1 as int,
        ) by {
            if k < es.len() - 1 {
                lemma_last_with_tag_prefix(es, TAG_DATE_TIME_ORIGINAL, k);
            }
        }
        assert forall|k: int| last_with_tag(es, TAG_EXPOSURE_BIAS, k) implies exif_fold(v, data, le, es).exposure_compensation == spec_read_srational(
            data,
            le,
            es[k].0,
            es[k].1 as int,
        ) by {
            if k < es.len() - 1 {
                lemma_last_with_tag_prefix(es, TAG_EXPOSURE_BIAS, k);
            }
        }
        assert forall|k: int| last_with_tag(es, TAG_METERING_MODE, k) implies exif_fold(v, data, le, es).metering_mode == spec_read_short(
            data,
            le,
            es[k].0,
            es[k].1 as int,
        ) by {
            if k < es.len() - 1 {
                lemma_last_with_tag_prefix(es, TAG_METERING_MODE, k);
            }
        }
        assert forall|k: int| last_with_tag(es, TAG_FLASH, k) implies exif_fold(v, data, le, es).flash == spec_read_short(
            data,
            le,
            es[k].0,
            es[k].1 as int,
        ) by {
            if k < es.len() - 1 {
                lemma_last_with_tag_prefix(es, TAG_FLASH, k);
            }
        }
        assert forall|k: int| last_with_tag(es, TAG_FOCAL_LENGTH, k) implies exif_fold(v, data, le, es).focal_length == spec_read_rational(
            data,
            le,
            es[k].0,
            es[k].1 as int,
        ) by {
            if k < es.len() - 1 {
                lemma_last_with_tag_prefix(es, TAG_FOCAL_LENGTH, k);
            }
        }
        assert forall|k: int| last_with_tag(es, TAG_COLOR_SPACE, k) implies exif_fold(v, data, le, es).color_space == spec_read_short(
            data,
            le,
            es[k].0,
            es[k].1 as int,
        ) by {
            if k < es.len() - 1 {
                lemma_last_with_tag_prefix(es, TAG_COLOR_SPACE, k);
            }
        }
        assert forall|k: int| last_with_tag(es, TAG_PIXEL_X_DIMENSION, k) implies exif_fold(v, data, le, es).width == spec_read_long_or_short(
            data,
            le,
            es[k].0,
            es[k].1 as int,
        ) by {
            if k < es.len() - 1 {
                lemma_last_with_tag_prefix(es, TAG_PIXEL_X_DIMENSION, k);
            }
        }
        assert forall|k: int| last_with_tag(es, TAG_PIXEL_Y_DIMENSION, k) implies exif_fold(v, data, le, es).height == spec_read_long_or_short(
            data,
            le,
            es[k].0,
            es[k].1 as int,
        ) by {
            if k < es.len() - 1 {
                lemma_last_with_tag_prefix(es, TAG_PIXEL_Y_DIMENSION, k);
            }
        }
        assert forall|k: int| last_with_tag(es, TAG_WHITE_BALANCE, k) implies exif_fold(v, data, le, es).white_balance == spec_read_short(
            data,
            le,
            es[k].0,
            es[k].1 as int,
        ) by {
            if k < es.len() - 1 {
                lemma_last_with_tag_prefix(es, TAG_WHITE_BALANCE, k);
            }
        }
        assert forall|k: int| last_with_tag(es, TAG_FOCAL_LENGTH_35MM, k) implies exif_fold(v, data, le, es).focal_length_35mm == spec_read_short(
            data,
            le,
            es[k].0,
            es[k].1 as int,
        ) by {
            if k < es.len() - 1 {
                lemma_last_with_tag_prefix(es, TAG_FOCAL_LENGTH_35MM, k);
            }
        }
        assert forall|k: int| last_with_tag(es, TAG_LENS_MODEL, k) implies exif_fold(v, data, le, es).lens_model == spec_read_ascii(
            data,
            le,
            es[k].0,
            es[k].1 as int,
        ) by {
            if k < es.len() - 1 {
                lemma_last_with_tag_prefix(es, TAG_LENS_MODEL, k);
            }
        }
    }
}

/// The tag and type numbers are those of the TIFF and EXIF standards.
pub proof fn law_standard_numbers()
    ensures
        TYPE_BYTE == 1 && TYPE_ASCII == 2 && TYPE_SHORT == 3 && TYPE_LONG == 4,
        TYPE_RATIONAL == 5 && TYPE_UNDEFINED == 7 && TYPE_SLONG == 9 && TYPE_SRATIONAL == 10,
        TAG_MAKE == 0x010F && TAG_MODEL == 0x0110 && TAG_ORIENTATION == 0x0112,
        TAG_SOFTWARE == 0x0131 && TAG_DATE_TIME == 0x0132,
        TAG_EXIF_IFD_POINTER == 0x8769 && TAG_GPS_IFD_POINTER == 0x8825,
        TAG_EXPOSURE_TIME == 0x829A && TAG_F_NUMBER == 0x829D && TAG_EXPOSURE_PROGRAM == 0x8822,
        TAG_ISO_SPEED == 0x8827 && TAG_DATE_TIME_ORIGINAL == 0x9003 && TAG_EXPOSURE_BIAS == 0x9204,
        TAG_METERING_MODE == 0x9207 && TAG_FLASH == 0x9209 && TAG_FOCAL_LENGTH == 0x920A,
        TAG_COLOR_SPACE == 0xA001 && TAG_PIXEL_X_DIMENSION == 0xA002 && TAG_PIXEL_Y_DIMENSION
            == 0xA003,
        TAG_WHITE_BALANCE == 0xA403 && TAG_FOCAL_LENGTH_35MM == 0xA405 && TAG_LENS_MODEL == 0xA434,
        TAG_GPS_LATITUDE_REF == 0x0001 && TAG_GPS_LATITUDE == 0x0002,
        TAG_GPS_LONGITUDE_REF == 0x0003 && TAG_GPS_LONGITUDE == 0x0004,
        TAG_GPS_ALTITUDE_REF == 0x0005 && TAG_GPS_ALTITUDE == 0x0006,
{
}

/// Parsing succeeds only on data that starts with `II` (little-endian) or
/// `MM` (big-endian) and the magic number 42 in that byte order; the
/// metadata is then read from the IFD at the offset stored in bytes 4..8,
/// everything decoded in the byte order that the header names.
pub proof fn law_header_sets_byte_order(data: Seq<u8>)
    ensures
        spec_parse_tiff(data) matches Ok(v) ==> {
            let le = data[0] == 0x49;
            &&& data.len() >= 8
            &&& (data[0] == 0x49 && data[1] == 0x49) || (data[0] == 0x4D && data[1] == 0x4D)
            &&& u16_of(data[2], data[3], le) == 42
            &&& word_at(data, 4, le) < data.len()
            &&& spec_parse_ifd(data, le, word_at(data, 4, le) as int) matches Ok(es0)
                && v == tiff_view(data, le, es0)
        },
{
    reveal(spec_parse_tiff);
}

/// The entry record of twelve bytes at `eo`: tag, type, count and value
/// field, in the given byte order.
pub open spec fn record_at(data: Seq<u8>, eo: int, le: bool) -> IfdEntry {
    IfdEntry {
        tag: u16_of(data[eo], data[eo + 1], le),
        type_id: u16_of(data[eo + 2], data[eo + 3], le),
        count: word_at(data, eo + 4, le),
        value_offset: word_at(data, eo + 8, le),
    }
}

/// Where record `i` of the IFD at `off` starts.
pub open spec fn record_slot(off: int, i: int) -> int {
    off + 2 + 12 * i
}

/// Every entry is the twelve-byte record at `off + 2 + 12 i` for some `i`
/// from `start` below `count`, and the entries come in the order of their
/// records.
pub open spec fn entries_are_records(
    data: Seq<u8>,
    le: bool,
    off: int,
    count: int,
    start: int,
    es: Seq<(IfdEntry, usize)>,
) -> bool {
    &&& forall|k: int|
        0 <= k < es.len() ==> #[trigger] es[k].1 >= 0 && exists|i: int|
            start <= i < count && es[k].1 == #[trigger] record_slot(off, i) && es[k].1 + 12 <= data.len()
                && es[k].0 == record_at(data, es[k].1 as int, le)
    &&& forall|k1: int, k2: int| 0 <= k1 < k2 < es.len() ==> es[k1].1 < es[k2].1
}

/// The entries from record `i` on, each with where it sits, before the
/// records of the entries after it.
#[verifier::spinoff_prover]
proof fn lemma_entries_ordered(data: Seq<u8>, le: bool, off: int, count: int, i: int)
    requires
        0 <= off,
        0 <= i,
        data.len() <= usize::MAX,
    ensures
        forall|k: int|
            0 <= k < ifd_entries_from(data, le, off, count, i).len() ==> #[trigger] ifd_entries_from(
                data,
                le,
                off,
                count,
                i,
            )[k].1 >= record_slot(off, i),
        forall|k1: int, k2: int|
            0 <= k1 < k2 < ifd_entries_from(data, le, off, count, i).len() ==> ifd_entries_from(
                data,
                le,
                off,
                count,
                i,
            )[k1].1 < ifd_entries_from(data, le, off, count, i)[k2].1,
    decreases count - i,
{
    let es = ifd_entries_from(data, le, off, count, i);
    if i < count {
        let eo = off + 2 + i * 12;
        if eo + 12 <= data.len() {
            lemma_entries_ordered(data, le, off, count, i + 1);
            let rest = ifd_entries_from(data, le, off, count, i + 1);
            let e = spec_entry_at(data, eo, le).unwrap();
            assert(record_slot(off, i + 1) == eo + 12);
            if !value_out_of_bounds(e, data.len() as int) {
                assert(es == seq![(e, eo as usize)] + rest);
                assert forall|k: int| 0 <= k < es.len() implies #[trigger] es[k].1 >= record_slot(off, i) by {
                    if k > 0 {
                        assert(es[k] == rest[k - 1]);
                    }
                }
                assert forall|k1: int, k2: int| 0 <= k1 < k2 < es.len() implies es[k1].1 < es[k2].1 by {
                    assert(es[k2] == rest[k2 - 1]);
                    assert(rest[k2 - 1].1 >= eo + 12);
                    if k1 > 0 {
                        assert(es[k1] == rest[k1 - 1]);
                    }
                }
            } else {
                assert(es == rest);
            }
        }
    }
}

/// Each entry from record `i` on is the record at some slot from `i` on.
#[verifier::spinoff_prover]
proof fn lemma_entries_are_records(data: Seq<u8>, le: bool, off: int, count: int, i: int)
    requires
        0 <= off,
        0 <= i,
        data.len() <= usize::MAX,
    ensures
        forall|k: int|
            0 <= k < ifd_entries_from(data, le, off, count, i).len() ==> #[trigger] ifd_entries_from(
                data,
                le,
                off,
                count,
                i,
            )[k].1 >= 0 && exists|j: int|
                i <= j < count && ifd_entries_from(data, le, off, count, i)[k].1
                    == #[trigger] record_slot(off, j) && ifd_entries_from(data, le, off, count, i)[k].1
                    + 12 <= data.len() && ifd_entries_from(data, le, off, count, i)[k].0 == record_at(
                    data,
                    ifd_entries_from(data, le, off, count, i)[k].1 as int,
                    le,
                ),
    decreases count - i,
{
    let es = ifd_entries_from(data, le, off, count, i);
    if i < count {
        let eo = off + 2 + i * 12;
        if eo + 12 <= data.len() {
            lemma_entries_are_records(data, le, off, count, i + 1);
            let rest = ifd_entries_from(data, le, off, count, i + 1);
            let e = spec_entry_at(data, eo, le).unwrap();
            assert(e == record_at(data, eo, le));
            if !value_out_of_bounds(e, data.len() as int) {
                assert(es == seq![(e, eo as usize)] + rest);
                assert forall|k: int| #![trigger es[k]] 0 <= k < es.len() implies es[k].1 >= 0 && exists|j: int|
                    i <= j < count && es[k].1 == #[trigger] record_slot(off, j) && es[k].1 + 12
                        <= data.len() && es[k].0 == record_at(data, es[k].1 as int, le) by {
                    if k == 0 {
                        assert(es[0].1 == record_slot(off, i));
                    } else {
                        assert(es[k] == rest[k - 1]);
                        assert(rest[k - 1].1 >= 0);
                        let j = choose|j: int|
                            i + 1 <= j < count && rest[k - 1].1 == #[trigger] record_slot(off, j)
                                && rest[k - 1].1 + 12 <= data.len() && rest[k - 1].0 == record_at(
                                data,
                                rest[k - 1].1 as int,
                                le,
                            );
                        assert(es[k].1 == record_slot(off, j));
                    }
                }
            } else {
                assert(es == rest);
                assert forall|k: int| #![trigger es[k]] 0 <= k < es.len() implies es[k].1 >= 0 && exists|j: int|
                    i <= j < count && es[k].1 == #[trigger] record_slot(off, j) && es[k].1 + 12
                        <= data.len() && es[k].0 == record_at(data, es[k].1 as int, le) by {
                    assert(rest[k].1 >= 0);
                    let j = choose|j: int|
                        i + 1 <= j < count && rest[k].1 == #[trigger] record_slot(off, j) && rest[k].1
                            + 12 <= data.len() && rest[k].0 == record_at(data, rest[k].1 as int, le);
                    assert(es[k].1 == record_slot(off, j));
                }
            }
        } else {
            assert(es.len() == 0);
        }
    } else {
        assert(es.len() == 0);
    }
}

/// An IFD is a 16-bit entry count (at most 1000) followed by twelve-byte
/// records: every parsed entry is the record at `off + 2 + 12 i` for some
/// `i` below the count, decoded in the file's byte order, and the entries
/// come in the order of their records.
pub proof fn law_ifd_entries_are_records(data: Seq<u8>, le: bool, off: int)
    requires
        0 <= off,
        data.len() <= usize::MAX,
    ensures
        off + 2 > data.len() ==> spec_parse_ifd(data, le, off) == Err::<
            Seq<(IfdEntry, usize)>,
            ExifError,
        >(ExifError::OffsetOutOfBounds),
        off + 2 <= data.len() && u16_of(data[off], data[off + 1], le) > 1000 ==> spec_parse_ifd(
            data,
            le,
            off,
        ) == Err::<Seq<(IfdEntry, usize)>, ExifError>(ExifError::TooManyEntries),
        spec_parse_ifd(data, le, off) matches Ok(es) ==> entries_are_records(
            data,
            le,
            off,
            u16_of(data[off], data[off + 1], le) as int,
            0,
            es,
        ),
{
    if off + 2 <= data.len() {
        lemma_entries_are_records(data, le, off, u16_of(data[off], data[off + 1], le) as int, 0);
        lemma_entries_ordered(data, le, off, u16_of(data[off], data[off + 1], le) as int, 0);
    }
}

} // verus!

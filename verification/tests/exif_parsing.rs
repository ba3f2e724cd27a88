use zenfilters::exif::{
    find_entry, parse_exif, parse_ifd, read_ascii, type_size, Reader, ExifData, ExifError, GpsAltitude, GpsCoordinate, Rational, SRational,
    TAG_COLOR_SPACE, TAG_DATE_TIME, TAG_DATE_TIME_ORIGINAL, TAG_EXIF_IFD_POINTER,
    TAG_EXPOSURE_BIAS, TAG_EXPOSURE_PROGRAM, TAG_EXPOSURE_TIME, TAG_FLASH, TAG_FOCAL_LENGTH,
    TAG_FOCAL_LENGTH_35MM, TAG_F_NUMBER, TAG_GPS_ALTITUDE, TAG_GPS_ALTITUDE_REF,
    TAG_GPS_IFD_POINTER, TAG_GPS_LATITUDE, TAG_GPS_LATITUDE_REF, TAG_GPS_LONGITUDE,
    TAG_GPS_LONGITUDE_REF, TAG_ISO_SPEED, TAG_LENS_MODEL, TAG_MAKE, TAG_METERING_MODE,
    TAG_MODEL, TAG_ORIENTATION, TAG_PIXEL_X_DIMENSION, TAG_PIXEL_Y_DIMENSION, TAG_SOFTWARE,
    TAG_WHITE_BALANCE, TYPE_ASCII, TYPE_BYTE, TYPE_LONG, TYPE_RATIONAL, TYPE_SHORT,
    TYPE_SRATIONAL,
};

// ---------------------------------------------------------------------
// Fixtures: build minimal TIFF structures
// ---------------------------------------------------------------------

type Entry<'a> = (u16, u16, u32, &'a [u8]);

fn elem_size(type_id: u16) -> u32 {
    match type_id {
        1 | 2 | 7 => 1,
        3 => 2,
        4 | 9 => 4,
        5 | 10 => 8,
        _ => 1,
    }
}

fn push_u16(buf: &mut Vec<u8>, val: u16, little_endian: bool) {
    if little_endian {
        buf.extend_from_slice(&val.to_le_bytes());
    } else {
        buf.extend_from_slice(&val.to_be_bytes());
    }
}

fn push_u32(buf: &mut Vec<u8>, val: u32, little_endian: bool) {
    if little_endian {
        buf.extend_from_slice(&val.to_le_bytes());
    } else {
        buf.extend_from_slice(&val.to_be_bytes());
    }
}

fn push_i32(buf: &mut Vec<u8>, val: i32, little_endian: bool) {
    if little_endian {
        buf.extend_from_slice(&val.to_le_bytes());
    } else {
        buf.extend_from_slice(&val.to_be_bytes());
    }
}

#[allow(clippy::too_many_arguments)]
fn write_ifd_entry(
    buf: &mut Vec<u8>,
    tag: u16,
    type_id: u16,
    count: u32,
    value_data: &[u8],
    little_endian: bool,
    data_area_offset: &mut usize,
    pending_data: &mut Vec<(usize, Vec<u8>)>,
) {
    push_u16(buf, tag, little_endian);
    push_u16(buf, type_id, little_endian);
    push_u32(buf, count, little_endian);
    let total_size = elem_size(type_id) * count;
    if total_size <= 4 {
        let mut inline = [0u8; 4];
        let copy_len = value_data.len().min(4);
        inline[..copy_len].copy_from_slice(&value_data[..copy_len]);
        buf.extend_from_slice(&inline);
    } else {
        push_u32(buf, *data_area_offset as u32, little_endian);
        pending_data.push((*data_area_offset, value_data.to_vec()));
        *data_area_offset += value_data.len();
    }
}

fn header(buf: &mut Vec<u8>, little_endian: bool, ifd0_offset: u32) {
    if little_endian {
        buf.extend_from_slice(b"II");
    } else {
        buf.extend_from_slice(b"MM");
    }
    push_u16(buf, 42, little_endian);
    push_u32(buf, ifd0_offset, little_endian);
}

fn append_pending(buf: &mut Vec<u8>, pending: &[(usize, Vec<u8>)]) {
    for (offset, data) in pending {
        while buf.len() < *offset {
            buf.push(0);
        }
        buf.extend_from_slice(data);
    }
}

/// A TIFF with IFD0 entries only.
fn build_tiff(le: bool, entries: &[Entry]) -> Vec<u8> {
    let ifd_offset = 8usize;
    let mut data_offset = ifd_offset + 2 + entries.len() * 12 + 4;
    let mut buf = Vec::new();
    let mut pending = Vec::new();
    header(&mut buf, le, ifd_offset as u32);
    push_u16(&mut buf, entries.len() as u16, le);
    for &(tag, t, c, v) in entries {
        write_ifd_entry(&mut buf, tag, t, c, v, le, &mut data_offset, &mut pending);
    }
    push_u32(&mut buf, 0, le);
    append_pending(&mut buf, &pending);
    buf
}

/// A TIFF with IFD0 pointing to an EXIF sub-IFD.
fn build_tiff_with_exif_ifd(le: bool, ifd0: &[Entry], exif: &[Entry]) -> Vec<u8> {
    let ifd0_offset = 8usize;
    let ifd0_count = ifd0.len() + 1;
    let exif_start = ifd0_offset + 2 + ifd0_count * 12 + 4;
    let mut data_offset = exif_start + 2 + exif.len() * 12 + 4;
    let mut buf = Vec::new();
    let mut pending = Vec::new();
    header(&mut buf, le, ifd0_offset as u32);
    push_u16(&mut buf, ifd0_count as u16, le);
    for &(tag, t, c, v) in ifd0 {
        write_ifd_entry(&mut buf, tag, t, c, v, le, &mut data_offset, &mut pending);
    }
    push_u16(&mut buf, TAG_EXIF_IFD_POINTER, le);
    push_u16(&mut buf, TYPE_LONG, le);
    push_u32(&mut buf, 1, le);
    push_u32(&mut buf, exif_start as u32, le);
    push_u32(&mut buf, 0, le);
    push_u16(&mut buf, exif.len() as u16, le);
    for &(tag, t, c, v) in exif {
        write_ifd_entry(&mut buf, tag, t, c, v, le, &mut data_offset, &mut pending);
    }
    push_u32(&mut buf, 0, le);
    append_pending(&mut buf, &pending);
    buf
}

/// A TIFF with IFD0, an EXIF IFD and a GPS IFD.
fn build_tiff_with_gps(le: bool, ifd0: &[Entry], exif: &[Entry], gps: &[Entry]) -> Vec<u8> {
    let ifd0_offset = 8usize;
    let ifd0_count = ifd0.len() + 2;
    let exif_start = ifd0_offset + 2 + ifd0_count * 12 + 4;
    let gps_start = exif_start + 2 + exif.len() * 12 + 4;
    let mut data_offset = gps_start + 2 + gps.len() * 12 + 4;
    let mut buf = Vec::new();
    let mut pending = Vec::new();
    header(&mut buf, le, ifd0_offset as u32);
    push_u16(&mut buf, ifd0_count as u16, le);
    for &(tag, t, c, v) in ifd0 {
        write_ifd_entry(&mut buf, tag, t, c, v, le, &mut data_offset, &mut pending);
    }
    push_u16(&mut buf, TAG_EXIF_IFD_POINTER, le);
    push_u16(&mut buf, TYPE_LONG, le);
    push_u32(&mut buf, 1, le);
    push_u32(&mut buf, exif_start as u32, le);
    push_u16(&mut buf, TAG_GPS_IFD_POINTER, le);
    push_u16(&mut buf, TYPE_LONG, le);
    push_u32(&mut buf, 1, le);
    push_u32(&mut buf, gps_start as u32, le);
    push_u32(&mut buf, 0, le);
    push_u16(&mut buf, exif.len() as u16, le);
    for &(tag, t, c, v) in exif {
        write_ifd_entry(&mut buf, tag, t, c, v, le, &mut data_offset, &mut pending);
    }
    push_u32(&mut buf, 0, le);
    push_u16(&mut buf, gps.len() as u16, le);
    for &(tag, t, c, v) in gps {
        write_ifd_entry(&mut buf, tag, t, c, v, le, &mut data_offset, &mut pending);
    }
    push_u32(&mut buf, 0, le);
    append_pending(&mut buf, &pending);
    buf
}

fn make_rational_bytes(num: u32, den: u32, le: bool) -> Vec<u8> {
    let mut v = Vec::new();
    push_u32(&mut v, num, le);
    push_u32(&mut v, den, le);
    v
}

fn make_srational_bytes(num: i32, den: i32, le: bool) -> Vec<u8> {
    let mut v = Vec::new();
    push_i32(&mut v, num, le);
    push_i32(&mut v, den, le);
    v
}

fn make_gps_dms_bytes(
    deg_n: u32,
    deg_d: u32,
    min_n: u32,
    min_d: u32,
    sec_n: u32,
    sec_d: u32,
    le: bool,
) -> Vec<u8> {
    let mut v = Vec::new();
    for x in [deg_n, deg_d, min_n, min_d, sec_n, sec_d] {
        push_u32(&mut v, x, le);
    }
    v
}

fn make_short_bytes(val: u16, le: bool) -> Vec<u8> {
    if le {
        val.to_le_bytes().to_vec()
    } else {
        val.to_be_bytes().to_vec()
    }
}

/// The value of a rational, 0.0 when the denominator is zero.
fn to_f64(r: Rational) -> f64 {
    if r.denominator == 0 {
        0.0
    } else {
        r.numerator as f64 / r.denominator as f64
    }
}

/// Decimal degrees of a coordinate, negative in the south and west.
fn to_decimal(c: &GpsCoordinate) -> f64 {
    let d = to_f64(c.degrees) + to_f64(c.minutes) / 60.0 + to_f64(c.seconds) / 3600.0;
    if c.reference == 'S' || c.reference == 'W' {
        -d
    } else {
        d
    }
}

/// Altitude in meters, negative below sea level.
fn altitude_meters(a: &GpsAltitude) -> f64 {
    let m = to_f64(a.meters);
    if a.below_sea_level {
        -m
    } else {
        m
    }
}

// ---------------------------------------------------------------------
// Byte order
// ---------------------------------------------------------------------

#[test]
fn byte_order_little_endian() {
    let le = true;
    let tiff = build_tiff(le, &[(TAG_ORIENTATION, TYPE_SHORT, 1, &make_short_bytes(6, le))]);
    let exif = parse_exif(&tiff).unwrap();
    assert_eq!(exif.orientation, Some(6));
}

#[test]
fn byte_order_big_endian() {
    let le = false;
    let tiff = build_tiff(le, &[(TAG_ORIENTATION, TYPE_SHORT, 1, &make_short_bytes(3, le))]);
    let exif = parse_exif(&tiff).unwrap();
    assert_eq!(exif.orientation, Some(3));
}

// ---------------------------------------------------------------------
// IFD entry types
// ---------------------------------------------------------------------

#[test]
fn ifd_type_ascii() {
    let le = true;
    let tiff = build_tiff(le, &[(TAG_MAKE, TYPE_ASCII, 6, b"Nikon\0")]);
    let exif = parse_exif(&tiff).unwrap();
    assert_eq!(exif.make.as_deref(), Some("Nikon"));
}

#[test]
fn ifd_type_short() {
    let le = true;
    let tiff = build_tiff(le, &[(TAG_ORIENTATION, TYPE_SHORT, 1, &make_short_bytes(8, le))]);
    let exif = parse_exif(&tiff).unwrap();
    assert_eq!(exif.orientation, Some(8));
}

#[test]
fn ifd_type_rational() {
    let le = true;
    let rat_bytes = make_rational_bytes(1, 500, le);
    let tiff =
        build_tiff_with_exif_ifd(le, &[], &[(TAG_EXPOSURE_TIME, TYPE_RATIONAL, 1, &rat_bytes)]);
    let exif = parse_exif(&tiff).unwrap();
    let et = exif.exposure_time.unwrap();
    assert_eq!(et.numerator, 1);
    assert_eq!(et.denominator, 500);
}

#[test]
fn ifd_type_srational() {
    let le = true;
    let srat_bytes = make_srational_bytes(-1, 3, le);
    let tiff =
        build_tiff_with_exif_ifd(le, &[], &[(TAG_EXPOSURE_BIAS, TYPE_SRATIONAL, 1, &srat_bytes)]);
    let exif = parse_exif(&tiff).unwrap();
    let ec = exif.exposure_compensation.unwrap();
    assert_eq!(ec.numerator, -1);
    assert_eq!(ec.denominator, 3);
}

// ---------------------------------------------------------------------
// Camera metadata
// ---------------------------------------------------------------------

#[test]
fn camera_metadata() {
    let le = true;
    let tiff = build_tiff_with_exif_ifd(
        le,
        &[
            (TAG_MAKE, TYPE_ASCII, 6, b"Canon\0"),
            (TAG_MODEL, TYPE_ASCII, 14, b"EOS R5 Mark I\0"),
            (TAG_SOFTWARE, TYPE_ASCII, 11, b"Lightroom\0\0"),
            (TAG_DATE_TIME, TYPE_ASCII, 20, b"2025:06:15 14:30:00\0"),
        ],
        &[
            (TAG_DATE_TIME_ORIGINAL, TYPE_ASCII, 20, b"2025:06:15 14:25:00\0"),
            (TAG_LENS_MODEL, TYPE_ASCII, 15, b"RF 50mm f/1.2L\0"),
        ],
    );
    let exif = parse_exif(&tiff).unwrap();
    assert_eq!(exif.make.as_deref(), Some("Canon"));
    assert_eq!(exif.model.as_deref(), Some("EOS R5 Mark I"));
    assert_eq!(exif.software.as_deref(), Some("Lightroom"));
    assert_eq!(exif.date_time.as_deref(), Some("2025:06:15 14:30:00"));
    assert_eq!(exif.date_time_original.as_deref(), Some("2025:06:15 14:25:00"));
    assert_eq!(exif.lens_model.as_deref(), Some("RF 50mm f/1.2L"));
}

// ---------------------------------------------------------------------
// GPS
// ---------------------------------------------------------------------

#[test]
fn gps_parsing() {
    let le = true;
    let lat_bytes = make_gps_dms_bytes(40, 1, 26, 1, 46302, 1000, le);
    let lon_bytes = make_gps_dms_bytes(79, 1, 58, 1, 561, 10, le);
    let alt_bytes = make_rational_bytes(300, 1, le);
    let tiff = build_tiff_with_gps(
        le,
        &[],
        &[],
        &[
            (TAG_GPS_LATITUDE_REF, TYPE_ASCII, 2, b"N\0"),
            (TAG_GPS_LATITUDE, TYPE_RATIONAL, 3, &lat_bytes),
            (TAG_GPS_LONGITUDE_REF, TYPE_ASCII, 2, b"W\0"),
            (TAG_GPS_LONGITUDE, TYPE_RATIONAL, 3, &lon_bytes),
            (TAG_GPS_ALTITUDE_REF, TYPE_BYTE, 1, &[0]),
            (TAG_GPS_ALTITUDE, TYPE_RATIONAL, 1, &alt_bytes),
        ],
    );
    let exif = parse_exif(&tiff).unwrap();

    let lat = exif.gps_latitude.as_ref().unwrap();
    assert_eq!(lat.reference, 'N');
    assert!((to_f64(lat.degrees) - 40.0).abs() < 0.001);
    assert!((to_f64(lat.minutes) - 26.0).abs() < 0.001);
    assert!((to_f64(lat.seconds) - 46.302).abs() < 0.001);
    let lat_dec = to_decimal(lat);
    assert!((lat_dec - 40.446195).abs() < 0.0001);

    let lon = exif.gps_longitude.as_ref().unwrap();
    assert_eq!(lon.reference, 'W');
    assert!(to_decimal(lon) < 0.0);

    let alt = exif.gps_altitude.unwrap();
    assert!((altitude_meters(&alt) - 300.0).abs() < 0.001);
}

#[test]
fn gps_below_sea_level() {
    let le = true;
    let alt_bytes = make_rational_bytes(15, 1, le);
    let tiff = build_tiff_with_gps(
        le,
        &[],
        &[],
        &[
            (TAG_GPS_ALTITUDE_REF, TYPE_BYTE, 1, &[1]),
            (TAG_GPS_ALTITUDE, TYPE_RATIONAL, 1, &alt_bytes),
        ],
    );
    let exif = parse_exif(&tiff).unwrap();
    assert_eq!(exif.gps_altitude.map(|a| altitude_meters(&a)), Some(-15.0));
}

// ---------------------------------------------------------------------
// Orientation, exposure, sub-IFDs
// ---------------------------------------------------------------------

#[test]
fn orientation_all_values() {
    for orient in 1u16..=8 {
        let le = true;
        let tiff =
            build_tiff(le, &[(TAG_ORIENTATION, TYPE_SHORT, 1, &make_short_bytes(orient, le))]);
        let exif = parse_exif(&tiff).unwrap();
        assert_eq!(exif.orientation, Some(orient), "orientation {orient}");
    }
}

#[test]
fn exposure_roundtrip() {
    let le = true;
    let exp_bytes = make_rational_bytes(1, 250, le);
    let fnum_bytes = make_rational_bytes(28, 10, le);
    let focal_bytes = make_rational_bytes(50, 1, le);
    let iso_bytes = make_short_bytes(800, le);
    let focal35_bytes = make_short_bytes(75, le);
    let tiff = build_tiff_with_exif_ifd(
        le,
        &[],
        &[
            (TAG_EXPOSURE_TIME, TYPE_RATIONAL, 1, &exp_bytes),
            (TAG_F_NUMBER, TYPE_RATIONAL, 1, &fnum_bytes),
            (TAG_ISO_SPEED, TYPE_SHORT, 1, &iso_bytes),
            (TAG_FOCAL_LENGTH, TYPE_RATIONAL, 1, &focal_bytes),
            (TAG_FOCAL_LENGTH_35MM, TYPE_SHORT, 1, &focal35_bytes),
        ],
    );
    let exif = parse_exif(&tiff).unwrap();
    let et = exif.exposure_time.unwrap();
    assert_eq!(et.numerator, 1);
    assert_eq!(et.denominator, 250);
    assert!((to_f64(et) - 0.004).abs() < 0.0001);
    let fn_ = exif.f_number.unwrap();
    assert!((to_f64(fn_) - 2.8).abs() < 0.001);
    assert_eq!(exif.iso, Some(800));
    let fl = exif.focal_length.unwrap();
    assert!((to_f64(fl) - 50.0).abs() < 0.001);
    assert_eq!(exif.focal_length_35mm, Some(75));
}

#[test]
fn sub_ifd_navigation() {
    let le = true;
    let exp_bytes = make_rational_bytes(1, 1000, le);
    let lat_bytes = make_gps_dms_bytes(48, 1, 51, 1, 24, 1, le);
    let tiff = build_tiff_with_gps(
        le,
        &[
            (TAG_MAKE, TYPE_ASCII, 5, b"Sony\0"),
            (TAG_ORIENTATION, TYPE_SHORT, 1, &make_short_bytes(1, le)),
        ],
        &[(TAG_EXPOSURE_TIME, TYPE_RATIONAL, 1, &exp_bytes)],
        &[
            (TAG_GPS_LATITUDE_REF, TYPE_ASCII, 2, b"N\0"),
            (TAG_GPS_LATITUDE, TYPE_RATIONAL, 3, &lat_bytes),
        ],
    );
    let exif = parse_exif(&tiff).unwrap();
    assert_eq!(exif.make.as_deref(), Some("Sony"));
    assert_eq!(exif.orientation, Some(1));
    let et = exif.exposure_time.unwrap();
    assert_eq!(et.numerator, 1);
    assert_eq!(et.denominator, 1000);
    let lat = exif.gps_latitude.as_ref().unwrap();
    assert_eq!(lat.reference, 'N');
    assert!((to_f64(lat.degrees) - 48.0).abs() < 0.001);
}

// ---------------------------------------------------------------------
// Rational text
// ---------------------------------------------------------------------

#[test]
fn rational_display() {
    assert_eq!(Rational::new(1, 500).to_text(), "1/500");
    assert_eq!(SRational::new(-2, 3).to_text(), "-2/3");
}

// ---------------------------------------------------------------------
// Errors
// ---------------------------------------------------------------------

#[test]
fn error_empty_data() {
    assert!(matches!(parse_exif(&[]), Err(ExifError::TooShort)));
}

#[test]
fn error_too_short() {
    assert!(matches!(parse_exif(&[0x49, 0x49, 0x2A]), Err(ExifError::TooShort)));
}

#[test]
fn error_invalid_byte_order() {
    let data = [b'X', b'X', 0x00, 0x2A, 0x00, 0x00, 0x00, 0x08];
    assert!(matches!(parse_exif(&data), Err(ExifError::InvalidByteOrder)));
}

#[test]
fn error_invalid_tiff_magic() {
    let data = [b'I', b'I', 0x63, 0x00, 0x08, 0x00, 0x00, 0x00];
    assert!(matches!(parse_exif(&data), Err(ExifError::InvalidTiffMagic)));
}

#[test]
fn error_ifd_offset_out_of_bounds() {
    let data = [b'I', b'I', 0x2A, 0x00, 0xFF, 0xFF, 0x00, 0x00];
    assert!(matches!(parse_exif(&data), Err(ExifError::OffsetOutOfBounds)));
}

#[test]
fn truncated_ifd_entries_handled_gracefully() {
    let le = true;
    let mut buf = Vec::new();
    buf.extend_from_slice(b"II");
    push_u16(&mut buf, 42, le);
    push_u32(&mut buf, 8, le);
    push_u16(&mut buf, 5, le);
    push_u16(&mut buf, TAG_ORIENTATION, le);
    push_u16(&mut buf, TYPE_SHORT, le);
    push_u32(&mut buf, 1, le);
    let mut inline = [0u8; 4];
    inline[0] = 3;
    buf.extend_from_slice(&inline);
    let exif = parse_exif(&buf).unwrap();
    assert_eq!(exif.orientation, Some(3));
}

#[test]
fn value_offset_out_of_bounds_skipped() {
    let le = true;
    let mut buf = Vec::new();
    buf.extend_from_slice(b"II");
    push_u16(&mut buf, 42, le);
    push_u32(&mut buf, 8, le);
    push_u16(&mut buf, 2, le);
    push_u16(&mut buf, TAG_MAKE, le);
    push_u16(&mut buf, TYPE_ASCII, le);
    push_u32(&mut buf, 8, le);
    push_u32(&mut buf, 0xFFFF, le);
    push_u16(&mut buf, TAG_ORIENTATION, le);
    push_u16(&mut buf, TYPE_SHORT, le);
    push_u32(&mut buf, 1, le);
    let mut inline = [0u8; 4];
    inline[0] = 6;
    buf.extend_from_slice(&inline);
    push_u32(&mut buf, 0, le);
    let exif = parse_exif(&buf).unwrap();
    assert!(exif.make.is_none());
    assert_eq!(exif.orientation, Some(6));
}

// ---------------------------------------------------------------------
// Additional fields, prefixes
// ---------------------------------------------------------------------

#[test]
fn additional_exif_fields() {
    let le = true;
    let tiff = build_tiff_with_exif_ifd(
        le,
        &[],
        &[
            (TAG_COLOR_SPACE, TYPE_SHORT, 1, &make_short_bytes(1, le)),
            (TAG_FLASH, TYPE_SHORT, 1, &make_short_bytes(0x0F, le)),
            (TAG_WHITE_BALANCE, TYPE_SHORT, 1, &make_short_bytes(0, le)),
            (TAG_METERING_MODE, TYPE_SHORT, 1, &make_short_bytes(5, le)),
            (TAG_EXPOSURE_PROGRAM, TYPE_SHORT, 1, &make_short_bytes(2, le)),
            (TAG_PIXEL_X_DIMENSION, TYPE_LONG, 1, &4000u32.to_le_bytes()),
            (TAG_PIXEL_Y_DIMENSION, TYPE_LONG, 1, &3000u32.to_le_bytes()),
        ],
    );
    let exif = parse_exif(&tiff).unwrap();
    assert_eq!(exif.color_space, Some(1));
    assert_eq!(exif.flash, Some(0x0F));
    assert_eq!(exif.white_balance, Some(0));
    assert_eq!(exif.metering_mode, Some(5));
    assert_eq!(exif.exposure_program, Some(2));
    assert_eq!(exif.width, Some(4000));
    assert_eq!(exif.height, Some(3000));
}

#[test]
fn jpeg_style_exif_with_prefix() {
    let le = true;
    let tiff = build_tiff(le, &[(TAG_ORIENTATION, TYPE_SHORT, 1, &make_short_bytes(3, le))]);
    let mut with_prefix = b"Exif\0\0".to_vec();
    with_prefix.extend_from_slice(&tiff);
    let exif = parse_exif(&with_prefix).unwrap();
    assert_eq!(exif.orientation, Some(3));
}

#[test]
fn raw_tiff_without_prefix() {
    let le = false;
    let tiff = build_tiff(le, &[(TAG_MAKE, TYPE_ASCII, 5, b"Sony\0")]);
    let exif = parse_exif(&tiff).unwrap();
    assert_eq!(exif.make.as_deref(), Some("Sony"));
}

#[test]
fn big_endian_full_roundtrip() {
    let le = false;
    let exp_bytes = make_rational_bytes(1, 125, le);
    let fnum_bytes = make_rational_bytes(56, 10, le);
    let tiff = build_tiff_with_exif_ifd(
        le,
        &[
            (TAG_MAKE, TYPE_ASCII, 8, b"Olympus\0"),
            (TAG_MODEL, TYPE_ASCII, 8, b"E-M1 II\0"),
            (TAG_ORIENTATION, TYPE_SHORT, 1, &make_short_bytes(1, le)),
        ],
        &[
            (TAG_EXPOSURE_TIME, TYPE_RATIONAL, 1, &exp_bytes),
            (TAG_F_NUMBER, TYPE_RATIONAL, 1, &fnum_bytes),
            (TAG_ISO_SPEED, TYPE_SHORT, 1, &make_short_bytes(400, le)),
            (TAG_COLOR_SPACE, TYPE_SHORT, 1, &make_short_bytes(1, le)),
        ],
    );
    let exif = parse_exif(&tiff).unwrap();
    assert_eq!(exif.make.as_deref(), Some("Olympus"));
    assert_eq!(exif.model.as_deref(), Some("E-M1 II"));
    assert_eq!(exif.orientation, Some(1));
    let et = exif.exposure_time.unwrap();
    assert_eq!(et.numerator, 1);
    assert_eq!(et.denominator, 125);
    let fn_ = exif.f_number.unwrap();
    assert!((to_f64(fn_) - 5.6).abs() < 0.001);
    assert_eq!(exif.iso, Some(400));
    assert_eq!(exif.color_space, Some(1));
}

#[test]
fn minimal_valid_tiff() {
    let le = true;
    let tiff = build_tiff(le, &[]);
    let exif = parse_exif(&tiff).unwrap();
    assert!(exif.make.is_none());
    assert!(exif.orientation.is_none());
    assert!(exif.gps_latitude.is_none());
}

#[test]
fn exif_data_default_is_all_none() {
    let exif = ExifData::default();
    assert!(exif.make.is_none());
    assert!(exif.model.is_none());
    assert!(exif.orientation.is_none());
    assert!(exif.iso.is_none());
    assert!(exif.gps_latitude.is_none());
    assert!(exif.gps_longitude.is_none());
    assert!(exif.gps_altitude.is_none());
}

// ---------------------------------------------------------------------
// Further cases
// ---------------------------------------------------------------------

#[test]
fn error_messages() {
    assert_eq!(ExifError::TooShort.message(), "data too short for TIFF header");
    assert_eq!(ExifError::InvalidByteOrder.message(), "invalid byte order marker");
    assert_eq!(
        ExifError::InvalidTiffMagic.message(),
        "invalid TIFF magic number (expected 42)"
    );
    assert_eq!(ExifError::OffsetOutOfBounds.message(), "IFD offset out of bounds");
    assert_eq!(ExifError::ValueOutOfBounds.message(), "IFD value offset out of bounds");
    assert_eq!(ExifError::TooManyEntries.message(), "IFD entry count unreasonably large");
}

#[test]
fn rational_texts_at_the_extremes() {
    assert_eq!(Rational::new(0, 1).to_text(), "0/1");
    assert_eq!(Rational::new(u32::MAX, 10).to_text(), "4294967295/10");
    assert_eq!(SRational::new(i32::MIN, -1).to_text(), "-2147483648/-1");
    assert_eq!(SRational::new(0, i32::MAX).to_text(), "0/2147483647");
}

#[test]
fn invalid_utf8_text_is_dropped() {
    let le = true;
    let tiff = build_tiff(
        le,
        &[
            (TAG_MAKE, TYPE_ASCII, 5, b"Ca\xffn\0"),
            (TAG_MODEL, TYPE_ASCII, 5, b"R5 2\0"),
        ],
    );
    let exif = parse_exif(&tiff).unwrap();
    assert!(exif.make.is_none());
    assert_eq!(exif.model.as_deref(), Some("R5 2"));
}

#[test]
fn text_stops_at_first_nul() {
    let le = false;
    let tiff = build_tiff(le, &[(TAG_SOFTWARE, TYPE_ASCII, 8, b"v1\0junk\0")]);
    let exif = parse_exif(&tiff).unwrap();
    assert_eq!(exif.software.as_deref(), Some("v1"));
}

#[test]
fn unknown_tags_do_not_change_the_result() {
    let le = true;
    let plain = build_tiff(le, &[(TAG_ORIENTATION, TYPE_SHORT, 1, &make_short_bytes(6, le))]);
    let with_unknown = build_tiff(
        le,
        &[
            (0x0001, TYPE_SHORT, 1, &make_short_bytes(9, le)),
            (TAG_ORIENTATION, TYPE_SHORT, 1, &make_short_bytes(6, le)),
            (0xC000, TYPE_LONG, 1, &[1, 2, 3, 4]),
        ],
    );
    let a = parse_exif(&plain).unwrap();
    let b = parse_exif(&with_unknown).unwrap();
    assert_eq!(a.orientation, Some(6));
    assert_eq!(b.orientation, Some(6));
    assert!(b.make.is_none() && b.iso.is_none());
}

#[test]
fn prefix_and_bare_tiff_agree() {
    for le in [true, false] {
        let tiff = build_tiff(
            le,
            &[
                (TAG_MAKE, TYPE_ASCII, 6, b"Leica\0"),
                (TAG_ORIENTATION, TYPE_SHORT, 1, &make_short_bytes(8, le)),
            ],
        );
        let mut prefixed = b"Exif\0\0".to_vec();
        prefixed.extend_from_slice(&tiff);
        let a = parse_exif(&tiff).unwrap();
        let b = parse_exif(&prefixed).unwrap();
        assert_eq!(a.make, b.make);
        assert_eq!(a.orientation, b.orientation);
        assert_eq!(b.orientation, Some(8));
    }
}

#[test]
fn prefix_alone_is_too_short() {
    assert_eq!(parse_exif(b"Exif\0\0").err(), Some(ExifError::TooShort));
    assert_eq!(parse_exif(b"Exif\0\0II*\0").err(), Some(ExifError::TooShort));
}

#[test]
fn type_sizes() {
    for t in [1u16, 2, 7] {
        assert_eq!(type_size(t), Some(1));
    }
    assert_eq!(type_size(3), Some(2));
    assert_eq!(type_size(4), Some(4));
    assert_eq!(type_size(9), Some(4));
    assert_eq!(type_size(5), Some(8));
    assert_eq!(type_size(10), Some(8));
    for t in [0u16, 6, 8, 11, 0xFFFF] {
        assert_eq!(type_size(t), None);
    }
}

#[test]
fn ifd_entries_and_ascii() {
    for le in [true, false] {
        let tiff = build_tiff(
            le,
            &[
                (TAG_SOFTWARE, TYPE_ASCII, 11, b"Lightroom\0\0"),
                (TAG_ORIENTATION, TYPE_SHORT, 1, &make_short_bytes(3, le)),
            ],
        );
        let reader = Reader::new(&tiff, le);
        assert_eq!(reader.u16_at(2), Some(42));
        let ifd = parse_ifd(&reader, 8).ok().unwrap();
        assert_eq!(ifd.entries.len(), 2);
        assert_eq!(ifd.entries[0].1, 10);
        assert_eq!(ifd.entries[1].1, 22);
        let (entry, off) = find_entry(&ifd, TAG_SOFTWARE).unwrap();
        assert_eq!(read_ascii(&reader, &entry, off).as_deref(), Some("Lightroom"));
        let (entry, off) = find_entry(&ifd, TAG_ORIENTATION).unwrap();
        assert_eq!(read_ascii(&reader, &entry, off), None);
        assert!(matches!(parse_ifd(&reader, tiff.len() - 1), Err(ExifError::OffsetOutOfBounds)));
    }
}

use zenfilters::cube_lut::{
    check_lut_size, classify_line, is_space_char, number_text, parse_usize_text, trim_chars, CubeFile,
    CubeLine, CubeParseError,
};

fn text(v: &[char]) -> String {
    v.iter().collect()
}

fn value(v: &[char]) -> f32 {
    text(v).parse::<f32>().unwrap()
}

fn chars(s: &str) -> Vec<char> {
    s.chars().collect()
}

const IDENTITY_ROWS: &str = "\
0.0 0.0 0.0
0.0 0.0 1.0
0.0 1.0 0.0
0.0 1.0 1.0
1.0 0.0 0.0
1.0 0.0 1.0
1.0 1.0 0.0
1.0 1.0 1.0
";

#[test]
fn parse_minimal_cube() {
    let cube_text = "\
# Comment line
TITLE \"Test LUT\"
LUT_3D_SIZE 2

0.0 0.0 0.0
0.0 0.0 1.0
0.0 1.0 0.0
0.0 1.0 1.0
1.0 0.0 0.0
1.0 0.0 1.0
1.0 1.0 0.0
1.0 1.0 1.0
";
    let lut = CubeFile::parse(cube_text).ok().unwrap();
    assert_eq!(lut.size, 2);
    assert_eq!(text(&lut.title), "Test LUT");
    assert_eq!(lut.rows.len(), 8);
}

#[test]
fn parse_with_domain() {
    let cube_text = "\
LUT_3D_SIZE 2
DOMAIN_MIN 0.0 0.0 0.0
DOMAIN_MAX 1.0 1.0 1.0

0.0 0.0 0.0
0.0 0.0 1.0
0.0 1.0 0.0
0.0 1.0 1.0
1.0 0.0 0.0
1.0 0.0 1.0
1.0 1.0 0.0
1.0 1.0 1.0
";
    let lut = CubeFile::parse(cube_text).ok().unwrap();
    let min = lut.domain_min.unwrap();
    let max = lut.domain_max.unwrap();
    assert_eq!([value(&min.r), value(&min.g), value(&min.b)], [0.0; 3]);
    assert_eq!([value(&max.r), value(&max.g), value(&max.b)], [1.0; 3]);
}

#[test]
fn parse_error_missing_size() {
    let cube_text = "0.0 0.0 0.0\n0.0 0.0 1.0\n";
    assert!(matches!(
        CubeFile::parse(cube_text),
        Err(CubeParseError::MissingSize)
    ));
}

#[test]
fn parse_error_insufficient_data() {
    let cube_text = "LUT_3D_SIZE 2\n0.0 0.0 0.0\n";
    assert!(matches!(
        CubeFile::parse(cube_text),
        Err(CubeParseError::InsufficientData { .. })
    ));
}

#[test]
fn insufficient_data_counts() {
    let cube_text = "LUT_3D_SIZE 2\n0.0 0.0 0.0\n";
    assert!(matches!(
        CubeFile::parse(cube_text),
        Err(CubeParseError::InsufficientData { expected: 8, found: 1 })
    ));
}

#[test]
fn invalid_size_is_reported() {
    let cube_text = format!("LUT_3D_SIZE 1\n{IDENTITY_ROWS}");
    assert!(matches!(
        CubeFile::parse(&cube_text),
        Err(CubeParseError::InvalidSize(1))
    ));
    let cube_text = format!("LUT_3D_SIZE 257\n{IDENTITY_ROWS}");
    assert!(matches!(
        CubeFile::parse(&cube_text),
        Err(CubeParseError::InvalidSize(257))
    ));
}

#[test]
fn bad_data_line_gives_its_number() {
    let cube_text = "LUT_3D_SIZE 2\n\n0.0 0.0 0.0\n0.0 0.0\n";
    assert!(matches!(
        CubeFile::parse(cube_text),
        Err(CubeParseError::BadDataLine(4))
    ));
    let cube_text = "LUT_3D_SIZE 2\n?weird 1 2\n";
    assert!(matches!(
        CubeFile::parse(cube_text),
        Err(CubeParseError::BadDataLine(2))
    ));
}

#[test]
fn unknown_keywords_are_skipped() {
    // Lines that start with a letter are taken for keywords, Unicode
    // letters included.
    let cube_text = format!("LUT_3D_SIZE 2\nLUT_1D_SIZE 4\nFOO bar\nÉtalonnage 1\n{IDENTITY_ROWS}");
    let lut = CubeFile::parse(&cube_text).ok().unwrap();
    assert_eq!(lut.rows.len(), 8);
}

#[test]
fn extra_rows_are_dropped() {
    let cube_text = format!("LUT_3D_SIZE 2\n{IDENTITY_ROWS}0.5 0.5 0.5\n");
    let lut = CubeFile::parse(&cube_text).ok().unwrap();
    assert_eq!(lut.rows.len(), 8);
    let last = &lut.rows[7];
    assert_eq!([value(&last.r), value(&last.g), value(&last.b)], [1.0; 3]);
}

#[test]
fn last_size_declaration_wins() {
    let cube_text = format!("LUT_3D_SIZE 3\nLUT_3D_SIZE x\nLUT_3D_SIZE +2\n{IDENTITY_ROWS}");
    let lut = CubeFile::parse(&cube_text).ok().unwrap();
    assert_eq!(lut.size, 2);
}

#[test]
fn windows_line_endings_and_indentation() {
    let cube_text = "  TITLE  \"\"Quoted\"\"  \r\nLUT_3D_SIZE 2\r\n".to_string()
        + &IDENTITY_ROWS.replace('\n', "\r\n").replace("0.0 ", "\t0.0   ");
    let lut = CubeFile::parse(&cube_text).ok().unwrap();
    assert_eq!(text(&lut.title), "Quoted");
    assert_eq!(lut.rows.len(), 8);
    assert_eq!(text(&lut.rows[0].r), "0.0");
}

#[test]
fn rows_keep_their_order_and_extra_words() {
    let cube_text = "LUT_3D_SIZE 2\n\
1 2 3 trailing\n4 5 6\n7 8 9\n10 11 12\n13 14 15\n16 17 18\n19 20 21\n-2.5e1 +.5 INF\n";
    let lut = CubeFile::parse(cube_text).ok().unwrap();
    assert_eq!(text(&lut.rows[0].r), "1");
    assert_eq!(text(&lut.rows[0].b), "3");
    assert_eq!(text(&lut.rows[6].g), "20");
    assert_eq!(value(&lut.rows[7].r), -25.0);
    assert_eq!(value(&lut.rows[7].g), 0.5);
    assert_eq!(value(&lut.rows[7].b), f32::INFINITY);
}

#[test]
fn every_parsed_number_is_readable() {
    let cube_text = format!("LUT_3D_SIZE 2\nDOMAIN_MIN -1 -1e0 nan\n{IDENTITY_ROWS}");
    let lut = CubeFile::parse(&cube_text).ok().unwrap();
    assert_eq!(lut.rows.len(), lut.size * lut.size * lut.size);
    for row in &lut.rows {
        for t in [&row.r, &row.g, &row.b] {
            assert!(text(t).parse::<f32>().is_ok());
        }
    }
    let min = lut.domain_min.unwrap();
    assert_eq!(value(&min.r), -1.0);
    assert!(value(&min.b).is_nan());
}

#[test]
fn number_texts() {
    for good in ["0", "1.", ".5", "-2.5e-3", "+7E+2", "inf", "-Infinity", "NaN", "12e5"] {
        assert!(number_text(&chars(good)), "{good}");
        assert!(good.parse::<f32>().is_ok(), "{good}");
    }
    for bad in ["", "+", ".", "e5", "1e", "1e+", "1.2.3", "0x10", "infin", "1 2", "--1"] {
        assert!(!number_text(&chars(bad)), "{bad}");
        assert!(bad.parse::<f32>().is_err(), "{bad}");
    }
}

#[test]
fn usize_texts() {
    assert_eq!(parse_usize_text(&chars("17")), Some(17));
    assert_eq!(parse_usize_text(&chars("+8")), Some(8));
    assert_eq!(parse_usize_text(&chars("007")), Some(7));
    assert_eq!(parse_usize_text(&chars("")), None);
    assert_eq!(parse_usize_text(&chars("+")), None);
    assert_eq!(parse_usize_text(&chars("-1")), None);
    assert_eq!(parse_usize_text(&chars("1x")), None);
    assert_eq!(parse_usize_text(&chars("99999999999999999999999")), None);
    let max = usize::MAX.to_string();
    assert_eq!(parse_usize_text(&chars(&max)), Some(usize::MAX));
}

#[test]
fn line_kinds() {
    assert!(matches!(classify_line(&chars("   "), false), CubeLine::Skip));
    assert!(matches!(classify_line(&chars("# 1 2 3"), false), CubeLine::Skip));
    assert!(matches!(classify_line(&chars("LUT_3D_SIZE 33"), true), CubeLine::Size(33)));
    assert!(matches!(classify_line(&chars("DOMAIN_MAX 1 1"), true), CubeLine::Skip));
    assert!(matches!(classify_line(&chars("KEYWORD 1 2"), true), CubeLine::Skip));
    assert!(matches!(classify_line(&chars("KEYWORD 1 2"), false), CubeLine::Bad));
    assert!(matches!(classify_line(&chars("0 0.5 1"), false), CubeLine::Row(_)));
}

#[test]
fn size_checks() {
    assert_eq!(check_lut_size(None, 10), Err(CubeParseError::MissingSize));
    assert_eq!(check_lut_size(Some(0), 10), Err(CubeParseError::InvalidSize(0)));
    assert_eq!(
        check_lut_size(Some(3), 26),
        Err(CubeParseError::InsufficientData { expected: 27, found: 26 })
    );
    assert_eq!(check_lut_size(Some(3), 30), Ok(27));
    assert_eq!(check_lut_size(Some(256), 16777216), Ok(16777216));
}

#[test]
fn error_texts() {
    assert_eq!(CubeParseError::MissingSize.to_text(), "no LUT_3D_SIZE found in .cube file");
    assert_eq!(CubeParseError::InvalidSize(300).to_text(), "invalid LUT_3D_SIZE 300 (must be 2–256)");
    assert_eq!(
        CubeParseError::InsufficientData { expected: 8, found: 0 }.to_text(),
        "expected 8 data rows, found 0"
    );
    assert_eq!(CubeParseError::BadDataLine(12).to_text(), "bad data at line 12");
}

#[test]
fn space_chars_match_std() {
    for c in (0u32..0x11_0000).filter_map(char::from_u32) {
        assert_eq!(is_space_char(c), c.is_whitespace(), "{:x}", c as u32);
    }
}

#[test]
fn trimming_matches_std() {
    for s in ["", "  ", " a ", "\u{3000}x y\u{85}", "\t\r\n", "\u{a0}\"q\"\u{2029}"] {
        let t: String = trim_chars(&chars(s), false).iter().collect();
        assert_eq!(t, s.trim());
        let q: String = trim_chars(&chars(s), true).iter().collect();
        assert_eq!(q, s.trim_matches('"'));
    }
}

fn words(alphabet: &[char], max_len: usize) -> Vec<String> {
    let mut all = vec![String::new()];
    let mut layer = vec![String::new()];
    for _ in 0..max_len {
        let mut next = Vec::new();
        for w in &layer {
            for &c in alphabet {
                let mut v = w.clone();
                v.push(c);
                next.push(v);
            }
        }
        all.extend(next.iter().cloned());
        layer = next;
    }
    all
}

#[test]
fn number_texts_match_std_exhaustively() {
    let alphabet = ['0', '7', '.', 'e', 'E', '+', '-', 'i', 'N', 'f', 'a', ' '];
    for w in words(&alphabet, 5) {
        assert_eq!(number_text(&chars(&w)), w.parse::<f32>().is_ok(), "{w:?}");
    }
    for w in ["infinity", "INFINITY", "-iNfInItY", "infinitx", "nan1", "1e10000", "+.e1"] {
        assert_eq!(number_text(&chars(w)), w.parse::<f32>().is_ok(), "{w:?}");
    }
}

#[test]
fn usize_texts_match_std_exhaustively() {
    let alphabet = ['0', '4', '9', '+', '-', ' '];
    for w in words(&alphabet, 5) {
        assert_eq!(parse_usize_text(&chars(&w)), w.parse::<usize>().ok(), "{w:?}");
    }
    let max = usize::MAX.to_string();
    let over = format!("{max}0");
    let just_over = (usize::MAX as u128 + 1).to_string();
    for w in [max.as_str(), over.as_str(), just_over.as_str()] {
        assert_eq!(parse_usize_text(&chars(w)), w.parse::<usize>().ok(), "{w:?}");
    }
}

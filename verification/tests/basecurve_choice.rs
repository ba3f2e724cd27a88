use zenfilters::basecurve::{contains, find_preset, match_preset, same_text, PresetMatch};

const CAMERAS: [(&str, &str); 14] = [
    ("NIKON CORPORATION", "NIKON D750"),
    ("NIKON CORPORATION", "NIKON D5100"),
    ("NIKON CORPORATION", "NIKON D7000"),
    ("NIKON CORPORATION", "NIKON D7200"),
    ("NIKON CORPORATION", "NIKON D7500"),
    ("SONY", "DSC-RX100M2"),
    ("Canon", "Canon EOS 6D"),
    ("Canon", "Canon EOS 5D Mark II"),
    ("FUJIFILM", "X100S"),
    ("FUJIFILM", "X100T"),
    ("PENTAX", "PENTAX K-5"),
    ("NIKON CORPORATION", "NIKON D90"),
    ("NIKON", "NIKON D800"),
    ("OLYMPUS CORPORATION", "E-M10MarkII"),
];

const MAKERS: [&str; 10] = [
    "Canon", "NIKON", "SONY", "PENTAX", "OLYMPUS", "Panasonic", "Leica", "FUJIFILM", "SAMSUNG",
    "RICOH",
];

fn find(maker: &str, model: &str) -> PresetMatch {
    find_preset(maker, model, &CAMERAS.to_vec(), &MAKERS.to_vec())
}

fn chars(s: &str) -> Vec<char> {
    s.chars().collect()
}

#[test]
fn find_exact_camera() {
    assert_eq!(find("NIKON CORPORATION", "NIKON D750"), PresetMatch::Camera(0));
}

#[test]
fn find_maker_fallback() {
    assert_eq!(find("Canon", "Canon EOS R5"), PresetMatch::Maker(0));
}

#[test]
fn find_neutral_fallback() {
    assert_eq!(find("UNKNOWN MAKER", "Mystery Camera"), PresetMatch::Neutral);
}

#[test]
fn matching_ignores_case() {
    assert_eq!(find("nikon corporation", "nikon d750"), PresetMatch::Camera(0));
    assert_eq!(find("canon", "canon eos 6d"), PresetMatch::Camera(6));
    assert_eq!(find("leica camera ag", "M11"), PresetMatch::Maker(6));
}

#[test]
fn maker_is_a_prefix_and_model_a_substring() {
    // "NIKON" prefixes "NIKON CORPORATION", and the model occurs in a longer name.
    assert_eq!(find("NIKON CORPORATION", "NIKON D800E"), PresetMatch::Camera(12));
    // An exact camera match wins over an earlier entry whose model occurs in
    // the model ("NIKON D750" occurs in "NIKON D7500").
    assert_eq!(find("NIKON CORPORATION", "NIKON D7500"), PresetMatch::Camera(4));
    assert_eq!(find("nikon corporation", "Nikon D7500"), PresetMatch::Camera(4));
    // Without an exact match, the first entry whose model occurs wins.
    assert_eq!(find("NIKON CORPORATION", "NIKON D7500 II"), PresetMatch::Camera(0));
    // The maker must start the EXIF maker, not merely occur in it.
    assert_eq!(find("THE SONY", "DSC-RX100M2"), PresetMatch::Neutral);
}

#[test]
fn empty_model_entries_fit_any_model() {
    let cameras = vec![("ACME", ""), ("ACME", "X")];
    assert_eq!(find_preset("Acme Inc", "anything", &cameras, &vec![]), PresetMatch::Camera(0));
    assert_eq!(find_preset("Other", "X", &cameras, &vec![]), PresetMatch::Neutral);
}

#[test]
fn full_unicode_upper_case() {
    // "ß" upper-cases to "SS".
    let cameras = vec![("STRASSE", "")];
    assert_eq!(find_preset("straße", "1", &cameras, &vec![]), PresetMatch::Camera(0));
}

#[test]
fn matching_on_upper_case_keys() {
    let cams = vec![(chars("AB"), chars("Z"))];
    let makers = vec![chars("A")];
    assert_eq!(match_preset(&chars("ABC"), &chars("XYZ"), &cams, &makers), PresetMatch::Camera(0));
    assert_eq!(match_preset(&chars("ABC"), &chars("XY"), &cams, &makers), PresetMatch::Maker(0));
    assert_eq!(match_preset(&chars("abc"), &chars("XYZ"), &cams, &makers), PresetMatch::Neutral);
    let cams = vec![(chars("AB"), chars("Z")), (chars("A"), chars("XYZ"))];
    assert_eq!(match_preset(&chars("ABC"), &chars("XYZ"), &cams, &makers), PresetMatch::Camera(1));
}

#[test]
fn substring_search() {
    assert!(contains(&chars("hello"), &chars("")));
    assert!(contains(&chars("hello"), &chars("llo")));
    assert!(contains(&chars("hello"), &chars("hello")));
    assert!(!contains(&chars("hello"), &chars("hello!")));
    assert!(!contains(&chars("hello"), &chars("lol")));
    assert!(contains(&chars(""), &chars("")));
}

#[test]
fn same_texts() {
    assert!(same_text(&chars("ab"), &chars("ab")));
    assert!(same_text(&chars(""), &chars("")));
    assert!(!same_text(&chars("ab"), &chars("abc")));
    assert!(!same_text(&chars("ab"), &chars("aB")));
}

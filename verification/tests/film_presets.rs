use zenfilters::film_preset::FilmPreset;

#[test]
fn preset_from_id_roundtrip() {
    for preset in FilmPreset::all() {
        let id = preset.id();
        let back = FilmPreset::from_id(id).unwrap();
        assert_eq!(back, preset);
    }
}

#[test]
fn catalogue_has_every_preset_once() {
    let all = FilmPreset::all();
    assert_eq!(all.len(), 22);
    for (i, a) in all.iter().enumerate() {
        for b in &all[i + 1..] {
            assert_ne!(a, b);
            assert_ne!(a.id(), b.id());
        }
    }
    assert_eq!(all[0], FilmPreset::BleachBypass);
    assert_eq!(all[21], FilmPreset::CoolChrome);
}

#[test]
fn names_and_ids() {
    assert_eq!(FilmPreset::TealOrange.name(), "Teal & Orange");
    assert_eq!(FilmPreset::TealOrange.id(), "teal_orange");
    assert_eq!(FilmPreset::Tungsten500T.name(), "500T Tungsten");
    assert_eq!(FilmPreset::Tungsten500T.id(), "tungsten_500t");
    assert_eq!(FilmPreset::ClassicNeg.name(), "Classic Negative");
}

#[test]
fn unknown_id_is_none() {
    assert_eq!(FilmPreset::from_id(""), None);
    assert_eq!(FilmPreset::from_id("Portra"), None);
    assert_eq!(FilmPreset::from_id("portra "), None);
    assert_eq!(FilmPreset::from_id("portra"), Some(FilmPreset::Portra));
}

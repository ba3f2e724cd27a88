//! Film look presets: names and machine identifiers.
use vstd::prelude::*;
use vstd::utf8::*;

verus! {

/// Available film look presets.
#[derive(Clone, Copy, Debug, PartialEq, Eq, Structural)]
pub enum FilmPreset {
    /// Bleach bypass: high contrast, desaturated, gritty.
    BleachBypass,
    /// Cross-processed: shifted color channels, saturated, punchy.
    CrossProcess,
    /// Teal and orange: cinematic complementary color grade.
    TealOrange,
    /// Faded film: lifted blacks, low contrast, muted colors.
    FadedFilm,
    /// Golden hour: warm light, soft contrast, glowing highlights.
    GoldenHour,
    /// Noir: high contrast, heavy desaturation, deep blacks.
    Noir,
    /// Technicolor: vivid, two-strip Technicolor-inspired rendering.
    Technicolor,
    /// Matte: lifted blacks, reduced highlights, editorial look.
    Matte,
    /// Portra-inspired: warm skin tones, soft contrast, muted greens.
    Portra,
    /// Gold-inspired: warm, saturated consumer film.
    KodakGold,
    /// Ektar-inspired: ultra-saturated, punchy, fine-grain colors.
    Ektar,
    /// Superia-inspired: cool-toned consumer film, slight green cast.
    Superia,
    /// Pro 400H-inspired: clean, slightly cool, beautiful skin tones.
    Pro400H,
    /// Velvia-inspired: hyper-saturated, vivid greens and blues.
    Velvia,
    /// Provia-inspired: neutral, accurate slide film.
    Provia,
    /// Kodachrome-inspired: deep reds, vivid yellows, rich blacks.
    Kodachrome,
    /// Ektachrome-inspired: clean, slightly warm modern slide film.
    Ektachrome,
    /// 2383 print-inspired: warm shadows, soft shoulder rolloff.
    Print2383,
    /// 500T-inspired: tungsten-balanced cinema negative.
    Tungsten500T,
    /// Classic Chrome-inspired: muted, desaturated, documentary feel.
    ClassicChrome,
    /// Classic Negative-inspired: high contrast, warm highlights, cool shadows.
    ClassicNeg,
    /// Cool chrome: slight blue-green cast, punchy contrast.
    CoolChrome,
}

/// The preset at position `i` of the catalogue.
pub open spec fn preset_at(i: int) -> FilmPreset {
    if i == 0 {
        FilmPreset::BleachBypass
    } else if i == 1 {
        FilmPreset::CrossProcess
    } else if i == 2 {
        FilmPreset::TealOrange
    } else if i == 3 {
        FilmPreset::FadedFilm
    } else if i == 4 {
        FilmPreset::GoldenHour
    } else if i == 5 {
        FilmPreset::Noir
    } else if i == 6 {
        FilmPreset::Technicolor
    } else if i == 7 {
        FilmPreset::Matte
    } else if i == 8 {
        FilmPreset::Portra
    } else if i == 9 {
        FilmPreset::KodakGold
    } else if i == 10 {
        FilmPreset::Ektar
    } else if i == 11 {
        FilmPreset::Superia
    } else if i == 12 {
        FilmPreset::Pro400H
    } else if i == 13 {
        FilmPreset::Velvia
    } else if i == 14 {
        FilmPreset::Provia
    } else if i == 15 {
        FilmPreset::Kodachrome
    } else if i == 16 {
        FilmPreset::Ektachrome
    } else if i == 17 {
        FilmPreset::Print2383
    } else if i == 18 {
        FilmPreset::Tungsten500T
    } else if i == 19 {
        FilmPreset::ClassicChrome
    } else if i == 20 {
        FilmPreset::ClassicNeg
    } else {
        FilmPreset::CoolChrome
    }
}

/// Every preset, in catalogue order.
pub open spec fn all_presets() -> Seq<FilmPreset> {
    Seq::new(22, |i: int| preset_at(i))
}

/// Human-readable name of each preset.
pub open spec fn spec_name(p: FilmPreset) -> Seq<char> {
    match p {
        FilmPreset::BleachBypass => "Bleach Bypass"@,
        FilmPreset::CrossProcess => "Cross Process"@,
        FilmPreset::TealOrange => "Teal & Orange"@,
        FilmPreset::FadedFilm => "Faded Film"@,
        FilmPreset::GoldenHour => "Golden Hour"@,
        FilmPreset::Noir => "Noir"@,
        FilmPreset::Technicolor => "Technicolor"@,
        FilmPreset::Matte => "Matte"@,
        FilmPreset::Portra => "Portra"@,
        FilmPreset::KodakGold => "Kodak Gold"@,
        FilmPreset::Ektar => "Ektar"@,
        FilmPreset::Superia => "Superia"@,
        FilmPreset::Pro400H => "Pro 400H"@,
        FilmPreset::Velvia => "Velvia"@,
        FilmPreset::Provia => "Provia"@,
        FilmPreset::Kodachrome => "Kodachrome"@,
        FilmPreset::Ektachrome => "Ektachrome"@,
        FilmPreset::Print2383 => "Print 2383"@,
        FilmPreset::Tungsten500T => "500T Tungsten"@,
        FilmPreset::ClassicChrome => "Classic Chrome"@,
        FilmPreset::ClassicNeg => "Classic Negative"@,
        FilmPreset::CoolChrome => "Cool Chrome"@,
    }
}

/// Machine identifier of each preset.
pub open spec fn spec_id(p: FilmPreset) -> Seq<char> {
    match p {
        FilmPreset::BleachBypass => "bleach_bypass"@,
        FilmPreset::CrossProcess => "cross_process"@,
        FilmPreset::TealOrange => "teal_orange"@,
        FilmPreset::FadedFilm => "faded_film"@,
        FilmPreset::GoldenHour => "golden_hour"@,
        FilmPreset::Noir => "noir"@,
        FilmPreset::Technicolor => "technicolor"@,
        FilmPreset::Matte => "matte"@,
        FilmPreset::Portra => "portra"@,
        FilmPreset::KodakGold => "kodak_gold"@,
        FilmPreset::Ektar => "ektar"@,
        FilmPreset::Superia => "superia"@,
        FilmPreset::Pro400H => "pro_400h"@,
        FilmPreset::Velvia => "velvia"@,
        FilmPreset::Provia => "provia"@,
        FilmPreset::Kodachrome => "kodachrome"@,
        FilmPreset::Ektachrome => "ektachrome"@,
        FilmPreset::Print2383 => "print_2383"@,
        FilmPreset::Tungsten500T => "tungsten_500t"@,
        FilmPreset::ClassicChrome => "classic_chrome"@,
        FilmPreset::ClassicNeg => "classic_neg"@,
        FilmPreset::CoolChrome => "cool_chrome"@,
    }
}

/// The first preset of `ps`, from index `i` on, whose identifier is `id`.
pub open spec fn find_id_from(ps: Seq<FilmPreset>, id: Seq<char>, i: int) -> Option<FilmPreset>
    decreases ps.len() - i,
{
    if i < 0 || i >= ps.len() {
        None
    } else if spec_id(ps[i]) == id {
        Some(ps[i])
    } else {
        find_id_from(ps, id, i + 1)
    }
}

/// The preset, in catalogue order, whose identifier is `id`.
pub open spec fn spec_from_id(id: Seq<char>) -> Option<FilmPreset> {
    find_id_from(all_presets(), id, 0)
}

/// Whether two strings hold the same characters.
fn str_eq(a: &str, b: &str) -> (r: bool)
    ensures
        r == (a@ == b@),
{
    let x = a.as_bytes();
    let y = b.as_bytes();
    proof {
        encode_utf8_decode_utf8(a@);
        encode_utf8_decode_utf8(b@);
    }
    if x.len() != y.len() {
        proof {
            if a@ == b@ {
                assert(x@ == y@);
            }
        }
        return false;
    }
    let n = x.len();
    let mut i: usize = 0;
    while i < n
        invariant
            i <= n,
            n == x@.len(),
            n == y@.len(),
            x@ == encode_utf8(a@),
            y@ == encode_utf8(b@),
            forall|k: int| 0 <= k < i ==> x@[k] == y@[k],
        decreases n - i,
    {
        if x[i] != y[i] {
            proof {
                if a@ == b@ {
                    assert(x@ == y@);
                    assert(x@[i as int] == y@[i as int]);
                }
            }
            return false;
        }
        i = i + 1;
    }
    assert(x@ =~= y@);
    true
}

impl FilmPreset {
    /// All available presets, in catalogue order.
    pub fn all() -> (v: Vec<FilmPreset>)
        ensures
            v@ == all_presets(),
    {
        let v = vec![
            FilmPreset::BleachBypass,
            FilmPreset::CrossProcess,
            FilmPreset::TealOrange,
            FilmPreset::FadedFilm,
            FilmPreset::GoldenHour,
            FilmPreset::Noir,
            FilmPreset::Technicolor,
            FilmPreset::Matte,
            FilmPreset::Portra,
            FilmPreset::KodakGold,
            FilmPreset::Ektar,
            FilmPreset::Superia,
            FilmPreset::Pro400H,
            FilmPreset::Velvia,
            FilmPreset::Provia,
            FilmPreset::Kodachrome,
            FilmPreset::Ektachrome,
            FilmPreset::Print2383,
            FilmPreset::Tungsten500T,
            FilmPreset::ClassicChrome,
            FilmPreset::ClassicNeg,
            FilmPreset::CoolChrome,
        ];
        assert(v@ =~= all_presets());
        v
    }

    /// Human-readable name.
    pub fn name(self) -> (s: &'static str)
        ensures
            s@ == spec_name(self),
    {
        match self {
            FilmPreset::BleachBypass => "Bleach Bypass",
            FilmPreset::CrossProcess => "Cross Process",
            FilmPreset::TealOrange => "Teal & Orange",
            FilmPreset::FadedFilm => "Faded Film",
            FilmPreset::GoldenHour => "Golden Hour",
            FilmPreset::Noir => "Noir",
            FilmPreset::Technicolor => "Technicolor",
            FilmPreset::Matte => "Matte",
            FilmPreset::Portra => "Portra",
            FilmPreset::KodakGold => "Kodak Gold",
            FilmPreset::Ektar => "Ektar",
            FilmPreset::Superia => "Superia",
            FilmPreset::Pro400H => "Pro 400H",
            FilmPreset::Velvia => "Velvia",
            FilmPreset::Provia => "Provia",
            FilmPreset::Kodachrome => "Kodachrome",
            FilmPreset::Ektachrome => "Ektachrome",
            FilmPreset::Print2383 => "Print 2383",
            FilmPreset::Tungsten500T => "500T Tungsten",
            FilmPreset::ClassicChrome => "Classic Chrome",
            FilmPreset::ClassicNeg => "Classic Negative",
            FilmPreset::CoolChrome => "Cool Chrome",
        }
    }

    /// Machine identifier.
    pub fn id(self) -> (s: &'static str)
        ensures
            s@ == spec_id(self),
    {
        match self {
            FilmPreset::BleachBypass => "bleach_bypass",
            FilmPreset::CrossProcess => "cross_process",
            FilmPreset::TealOrange => "teal_orange",
            FilmPreset::FadedFilm => "faded_film",
            FilmPreset::GoldenHour => "golden_hour",
            FilmPreset::Noir => "noir",
            FilmPreset::Technicolor => "technicolor",
            FilmPreset::Matte => "matte",
            FilmPreset::Portra => "portra",
            FilmPreset::KodakGold => "kodak_gold",
            FilmPreset::Ektar => "ektar",
            FilmPreset::Superia => "superia",
            FilmPreset::Pro400H => "pro_400h",
            FilmPreset::Velvia => "velvia",
            FilmPreset::Provia => "provia",
            FilmPreset::Kodachrome => "kodachrome",
            FilmPreset::Ektachrome => "ektachrome",
            FilmPreset::Print2383 => "print_2383",
            FilmPreset::Tungsten500T => "tungsten_500t",
            FilmPreset::ClassicChrome => "classic_chrome",
            FilmPreset::ClassicNeg => "classic_neg",
            FilmPreset::CoolChrome => "cool_chrome",
        }
    }

    /// Look up a preset by its machine identifier.
    pub fn from_id(id: &str) -> (r: Option<Self>)
        ensures
            r == spec_from_id(id@),
    {
        let all = FilmPreset::all();
        let n = all.len();
        let mut i: usize = 0;
        while i < n
            invariant
                i <= n,
                n == all@.len(),
                all@ == all_presets(),
                find_id_from(all@, id@, i as int) == spec_from_id(id@),
            decreases n - i,
        {
            let p = all[i];
            if str_eq(p.id(), id) {
                return Some(p);
            }
            i = i + 1;
        }
        None
    }
}

/// The first preset from index `i` on whose identifier is `id` has that
/// identifier and comes from the list.
proof fn lemma_find_id_sound(ps: Seq<FilmPreset>, id: Seq<char>, i: int)
    requires
        0 <= i,
    ensures
        find_id_from(ps, id, i) matches Some(p) ==> spec_id(p) == id && ps.contains(p),
    decreases ps.len() - i,
{
    if i < ps.len() {
        lemma_find_id_sound(ps, id, i + 1);
    }
}

/// Looking up a preset by an identifier gives a preset with that identifier.
pub proof fn law_from_id_sound(id: Seq<char>)
    ensures
        spec_from_id(id) matches Some(p) ==> spec_id(p) == id,
{
    lemma_find_id_sound(all_presets(), id, 0);
}

proof fn lemma_find_first(ps: Seq<FilmPreset>, id: Seq<char>, i: int, k: int)
    requires
        0 <= k <= i < ps.len(),
        spec_id(ps[i]) == id,
        forall|j: int| k <= j < i ==> spec_id(#[trigger] ps[j]) != id,
    ensures
        find_id_from(ps, id, k) == Some(ps[i]),
    decreases i - k,
{
    if k < i {
        lemma_find_first(ps, id, i, k + 1);
    }
}

/// Every preset is found again from its identifier.
pub proof fn law_id_roundtrip(p: FilmPreset)
    ensures
        spec_from_id(spec_id(p)) == Some(p),
{
    reveal_strlit("bleach_bypass");
    reveal_strlit("cross_process");
    reveal_strlit("teal_orange");
    reveal_strlit("faded_film");
    reveal_strlit("golden_hour");
    reveal_strlit("noir");
    reveal_strlit("technicolor");
    reveal_strlit("matte");
    reveal_strlit("portra");
    reveal_strlit("kodak_gold");
    reveal_strlit("ektar");
    reveal_strlit("superia");
    reveal_strlit("pro_400h");
    reveal_strlit("velvia");
    reveal_strlit("provia");
    reveal_strlit("kodachrome");
    reveal_strlit("ektachrome");
    reveal_strlit("print_2383");
    reveal_strlit("tungsten_500t");
    reveal_strlit("classic_chrome");
    reveal_strlit("classic_neg");
    reveal_strlit("cool_chrome");
    match p {
        FilmPreset::BleachBypass => {
            assert(preset_at(0) == p);
            lemma_find_first(all_presets(), spec_id(p), 0, 0);
        },
        FilmPreset::CrossProcess => {
            assert(spec_id(preset_at(0))[0] != spec_id(p)[0]);
            assert(preset_at(1) == p);
            lemma_find_first(all_presets(), spec_id(p), 1, 0);
        },
        FilmPreset::TealOrange => {
            assert(spec_id(preset_at(0)).len() != spec_id(p).len());
            assert(spec_id(preset_at(1)).len() != spec_id(p).len());
            assert(preset_at(2) == p);
            lemma_find_first(all_presets(), spec_id(p), 2, 0);
        },
        FilmPreset::FadedFilm => {
            assert(spec_id(preset_at(0)).len() != spec_id(p).len());
            assert(spec_id(preset_at(1)).len() != spec_id(p).len());
            assert(spec_id(preset_at(2)).len() != spec_id(p).len());
            assert(preset_at(3) == p);
            lemma_find_first(all_presets(), spec_id(p), 3, 0);
        },
        FilmPreset::GoldenHour => {
            assert(spec_id(preset_at(0)).len() != spec_id(p).len());
            assert(spec_id(preset_at(1)).len() != spec_id(p).len());
            assert(spec_id(preset_at(2))[0] != spec_id(p)[0]);
            assert(spec_id(preset_at(3)).len() != spec_id(p).len());
            assert(preset_at(4) == p);
            lemma_find_first(all_presets(), spec_id(p), 4, 0);
        },
        FilmPreset::Noir => {
            assert(spec_id(preset_at(0)).len() != spec_id(p).len());
            assert(spec_id(preset_at(1)).len() != spec_id(p).len());
            assert(spec_id(preset_at(2)).len() != spec_id(p).len());
            assert(spec_id(preset_at(3)).len() != spec_id(p).len());
            assert(spec_id(preset_at(4)).len() != spec_id(p).len());
            assert(preset_at(5) == p);
            lemma_find_first(all_presets(), spec_id(p), 5, 0);
        },
        FilmPreset::Technicolor => {
            assert(spec_id(preset_at(0)).len() != spec_id(p).len());
            assert(spec_id(preset_at(1)).len() != spec_id(p).len());
            assert(spec_id(preset_at(2))[2] != spec_id(p)[2]);
            assert(spec_id(preset_at(3)).len() != spec_id(p).len());
            assert(spec_id(preset_at(4))[0] != spec_id(p)[0]);
            assert(spec_id(preset_at(5)).len() != spec_id(p).len());
            assert(preset_at(6) == p);
            lemma_find_first(all_presets(), spec_id(p), 6, 0);
        },
        FilmPreset::Matte => {
            assert(spec_id(preset_at(0)).len() != spec_id(p).len());
            assert(spec_id(preset_at(1)).len() != spec_id(p).len());
            assert(spec_id(preset_at(2)).len() != spec_id(p).len());
            assert(spec_id(preset_at(3)).len() != spec_id(p).len());
            assert(spec_id(preset_at(4)).len() != spec_id(p).len());
            assert(spec_id(preset_at(5)).len() != spec_id(p).len());
            assert(spec_id(preset_at(6)).len() != spec_id(p).len());
            assert(preset_at(7) == p);
            lemma_find_first(all_presets(), spec_id(p), 7, 0);
        },
        FilmPreset::Portra => {
            assert(spec_id(preset_at(0)).len() != spec_id(p).len());
            assert(spec_id(preset_at(1)).len() != spec_id(p).len());
            assert(spec_id(preset_at(2)).len() != spec_id(p).len());
            assert(spec_id(preset_at(3)).len() != spec_id(p).len());
            assert(spec_id(preset_at(4)).len() != spec_id(p).len());
            assert(spec_id(preset_at(5)).len() != spec_id(p).len());
            assert(spec_id(preset_at(6)).len() != spec_id(p).len());
            assert(spec_id(preset_at(7)).len() != spec_id(p).len());
            assert(preset_at(8) == p);
            lemma_find_first(all_presets(), spec_id(p), 8, 0);
        },
        FilmPreset::KodakGold => {
            assert(spec_id(preset_at(0)).len() != spec_id(p).len());
            assert(spec_id(preset_at(1)).len() != spec_id(p).len());
            assert(spec_id(preset_at(2)).len() != spec_id(p).len());
            assert(spec_id(preset_at(3))[0] != spec_id(p)[0]);
            assert(spec_id(preset_at(4)).len() != spec_id(p).len());
            assert(spec_id(preset_at(5)).len() != spec_id(p).len());
            assert(spec_id(preset_at(6)).len() != spec_id(p).len());
            assert(spec_id(preset_at(7)).len() != spec_id(p).len());
            assert(spec_id(preset_at(8)).len() != spec_id(p).len());
            assert(preset_at(9) == p);
            lemma_find_first(all_presets(), spec_id(p), 9, 0);
        },
        FilmPreset::Ektar => {
            assert(spec_id(preset_at(0)).len() != spec_id(p).len());
            assert(spec_id(preset_at(1)).len() != spec_id(p).len());
            assert(spec_id(preset_at(2)).len() != spec_id(p).len());
            assert(spec_id(preset_at(3)).len() != spec_id(p).len());
            assert(spec_id(preset_at(4)).len() != spec_id(p).len());
            assert(spec_id(preset_at(5)).len() != spec_id(p).len());
            assert(spec_id(preset_at(6)).len() != spec_id(p).len());
            assert(spec_id(preset_at(7))[0] != spec_id(p)[0]);
            assert(spec_id(preset_at(8)).len() != spec_id(p).len());
            assert(spec_id(preset_at(9)).len() != spec_id(p).len());
            assert(preset_at(10) == p);
            lemma_find_first(all_presets(), spec_id(p), 10, 0);
        },
        FilmPreset::Superia => {
            assert(spec_id(preset_at(0)).len() != spec_id(p).len());
            assert(spec_id(preset_at(1)).len() != spec_id(p).len());
            assert(spec_id(preset_at(2)).len() != spec_id(p).len());
            assert(spec_id(preset_at(3)).len() != spec_id(p).len());
            assert(spec_id(preset_at(4)).len() != spec_id(p).len());
            assert(spec_id(preset_at(5)).len() != spec_id(p).len());
            assert(spec_id(preset_at(6)).len() != spec_id(p).len());
            assert(spec_id(preset_at(7)).len() != spec_id(p).len());
            assert(spec_id(preset_at(8)).len() != spec_id(p).len());
            assert(spec_id(preset_at(9)).len() != spec_id(p).len());
            assert(spec_id(preset_at(10)).len() != spec_id(p).len());
            assert(preset_at(11) == p);
            lemma_find_first(all_presets(), spec_id(p), 11, 0);
        },
        FilmPreset::Pro400H => {
            assert(spec_id(preset_at(0)).len() != spec_id(p).len());
            assert(spec_id(preset_at(1)).len() != spec_id(p).len());
            assert(spec_id(preset_at(2)).len() != spec_id(p).len());
            assert(spec_id(preset_at(3)).len() != spec_id(p).len());
            assert(spec_id(preset_at(4)).len() != spec_id(p).len());
            assert(spec_id(preset_at(5)).len() != spec_id(p).len());
            assert(spec_id(preset_at(6)).len() != spec_id(p).len());
            assert(spec_id(preset_at(7)).len() != spec_id(p).len());
            assert(spec_id(preset_at(8)).len() != spec_id(p).len());
            assert(spec_id(preset_at(9)).len() != spec_id(p).len());
            assert(spec_id(preset_at(10)).len() != spec_id(p).len());
            assert(spec_id(preset_at(11)).len() != spec_id(p).len());
            assert(preset_at(12) == p);
            lemma_find_first(all_presets(), spec_id(p), 12, 0);
        },
        FilmPreset::Velvia => {
            assert(spec_id(preset_at(0)).len() != spec_id(p).len());
            assert(spec_id(preset_at(1)).len() != spec_id(p).len());
            assert(spec_id(preset_at(2)).len() != spec_id(p).len());
            assert(spec_id(preset_at(3)).len() != spec_id(p).len());
            assert(spec_id(preset_at(4)).len() != spec_id(p).len());
            assert(spec_id(preset_at(5)).len() != spec_id(p).len());
            assert(spec_id(preset_at(6)).len() != spec_id(p).len());
            assert(spec_id(preset_at(7)).len() != spec_id(p).len());
            assert(spec_id(preset_at(8))[0] != spec_id(p)[0]);
            assert(spec_id(preset_at(9)).len() != spec_id(p).len());
            assert(spec_id(preset_at(10)).len() != spec_id(p).len());
            assert(spec_id(preset_at(11)).len() != spec_id(p).len());
            assert(spec_id(preset_at(12)).len() != spec_id(p).len());
            assert(preset_at(13) == p);
            lemma_find_first(all_presets(), spec_id(p), 13, 0);
        },
        FilmPreset::Provia => {
            assert(spec_id(preset_at(0)).len() != spec_id(p).len());
            assert(spec_id(preset_at(1)).len() != spec_id(p).len());
            assert(spec_id(preset_at(2)).len() != spec_id(p).len());
            assert(spec_id(preset_at(3)).len() != spec_id(p).len());
            assert(spec_id(preset_at(4)).len() != spec_id(p).len());
            assert(spec_id(preset_at(5)).len() != spec_id(p).len());
            assert(spec_id(preset_at(6)).len() != spec_id(p).len());
            assert(spec_id(preset_at(7)).len() != spec_id(p).len());
            assert(spec_id(preset_at(8))[1] != spec_id(p)[1]);
            assert(spec_id(preset_at(9)).len() != spec_id(p).len());
            assert(spec_id(preset_at(10)).len() != spec_id(p).len());
            assert(spec_id(preset_at(11)).len() != spec_id(p).len());
            assert(spec_id(preset_at(12)).len() != spec_id(p).len());
            assert(spec_id(preset_at(13))[0] != spec_id(p)[0]);
            assert(preset_at(14) == p);
            lemma_find_first(all_presets(), spec_id(p), 14, 0);
        },
        FilmPreset::Kodachrome => {
            assert(spec_id(preset_at(0)).len() != spec_id(p).len());
            assert(spec_id(preset_at(1)).len() != spec_id(p).len());
            assert(spec_id(preset_at(2)).len() != spec_id(p).len());
            assert(spec_id(preset_at(3))[0] != spec_id(p)[0]);
            assert(spec_id(preset_at(4)).len() != spec_id(p).len());
            assert(spec_id(preset_at(5)).len() != spec_id(p).len());
            assert(spec_id(preset_at(6)).len() != spec_id(p).len());
            assert(spec_id(preset_at(7)).len() != spec_id(p).len());
            assert(spec_id(preset_at(8)).len() != spec_id(p).len());
            assert(spec_id(preset_at(9))[4] != spec_id(p)[4]);
            assert(spec_id(preset_at(10)).len() != spec_id(p).len());
            assert(spec_id(preset_at(11)).len() != spec_id(p).len());
            assert(spec_id(preset_at(12)).len() != spec_id(p).len());
            assert(spec_id(preset_at(13)).len() != spec_id(p).len());
            assert(spec_id(preset_at(14)).len() != spec_id(p).len());
            assert(preset_at(15) == p);
            lemma_find_first(all_presets(), spec_id(p), 15, 0);
        },
        FilmPreset::Ektachrome => {
            assert(spec_id(preset_at(0)).len() != spec_id(p).len());
            assert(spec_id(preset_at(1)).len() != spec_id(p).len());
            assert(spec_id(preset_at(2)).len() != spec_id(p).len());
            assert(spec_id(preset_at(3))[0] != spec_id(p)[0]);
            assert(spec_id(preset_at(4)).len() != spec_id(p).len());
            assert(spec_id(preset_at(5)).len() != spec_id(p).len());
            assert(spec_id(preset_at(6)).len() != spec_id(p).len());
            assert(spec_id(preset_at(7)).len() != spec_id(p).len());
            assert(spec_id(preset_at(8)).len() != spec_id(p).len());
            assert(spec_id(preset_at(9))[0] != spec_id(p)[0]);
            assert(spec_id(preset_at(10)).len() != spec_id(p).len());
            assert(spec_id(preset_at(11)).len() != spec_id(p).len());
            assert(spec_id(preset_at(12)).len() != spec_id(p).len());
            assert(spec_id(preset_at(13)).len() != spec_id(p).len());
            assert(spec_id(preset_at(14)).len() != spec_id(p).len());
            assert(spec_id(preset_at(15))[0] != spec_id(p)[0]);
            assert(preset_at(16) == p);
            lemma_find_first(all_presets(), spec_id(p), 16, 0);
        },
        FilmPreset::Print2383 => {
            assert(spec_id(preset_at(0)).len() != spec_id(p).len());
            assert(spec_id(preset_at(1)).len() != spec_id(p).len());
            assert(spec_id(preset_at(2)).len() != spec_id(p).len());
            assert(spec_id(preset_at(3))[0] != spec_id(p)[0]);
            assert(spec_id(preset_at(4)).len() != spec_id(p).len());
            assert(spec_id(preset_at(5)).len() != spec_id(p).len());
            assert(spec_id(preset_at(6)).len() != spec_id(p).len());
            assert(spec_id(preset_at(7)).len() != spec_id(p).len());
            assert(spec_id(preset_at(8)).len() != spec_id(p).len());
            assert(spec_id(preset_at(9))[0] != spec_id(p)[0]);
            assert(spec_id(preset_at(10)).len() != spec_id(p).len());
            assert(spec_id(preset_at(11)).len() != spec_id(p).len());
            assert(spec_id(preset_at(12)).len() != spec_id(p).len());
            assert(spec_id(preset_at(13)).len() != spec_id(p).len());
            assert(spec_id(preset_at(14)).len() != spec_id(p).len());
            assert(spec_id(preset_at(15))[0] != spec_id(p)[0]);
            assert(spec_id(preset_at(16))[0] != spec_id(p)[0]);
            assert(preset_at(17) == p);
            lemma_find_first(all_presets(), spec_id(p), 17, 0);
        },
        FilmPreset::Tungsten500T => {
            assert(spec_id(preset_at(0))[0] != spec_id(p)[0]);
            assert(spec_id(preset_at(1))[0] != spec_id(p)[0]);
            assert(spec_id(preset_at(2)).len() != spec_id(p).len());
            assert(spec_id(preset_at(3)).len() != spec_id(p).len());
            assert(spec_id(preset_at(4)).len() != spec_id(p).len());
            assert(spec_id(preset_at(5)).len() != spec_id(p).len());
            assert(spec_id(preset_at(6)).len() != spec_id(p).len());
            assert(spec_id(preset_at(7)).len() != spec_id(p).len());
            assert(spec_id(preset_at(8)).len() != spec_id(p).len());
            assert(spec_id(preset_at(9)).len() != spec_id(p).len());
            assert(spec_id(preset_at(10)).len() != spec_id(p).len());
            assert(spec_id(preset_at(11)).len() != spec_id(p).len());
            assert(spec_id(preset_at(12)).len() != spec_id(p).len());
            assert(spec_id(preset_at(13)).len() != spec_id(p).len());
            assert(spec_id(preset_at(14)).len() != spec_id(p).len());
            assert(spec_id(preset_at(15)).len() != spec_id(p).len());
            assert(spec_id(preset_at(16)).len() != spec_id(p).len());
            assert(spec_id(preset_at(17)).len() != spec_id(p).len());
            assert(preset_at(18) == p);
            lemma_find_first(all_presets(), spec_id(p), 18, 0);
        },
        FilmPreset::ClassicChrome => {
            assert(spec_id(preset_at(0)).len() != spec_id(p).len());
            assert(spec_id(preset_at(1)).len() != spec_id(p).len());
            assert(spec_id(preset_at(2)).len() != spec_id(p).len());
            assert(spec_id(preset_at(3)).len() != spec_id(p).len());
            assert(spec_id(preset_at(4)).len() != spec_id(p).len());
            assert(spec_id(preset_at(5)).len() != spec_id(p).len());
            assert(spec_id(preset_at(6)).len() != spec_id(p).len());
            assert(spec_id(preset_at(7)).len() != spec_id(p).len());
            assert(spec_id(preset_at(8)).len() != spec_id(p).len());
            assert(spec_id(preset_at(9)).len() != spec_id(p).len());
            assert(spec_id(preset_at(10)).len() != spec_id(p).len());
            assert(spec_id(preset_at(11)).len() != spec_id(p).len());
            assert(spec_id(preset_at(12)).len() != spec_id(p).len());
            assert(spec_id(preset_at(13)).len() != spec_id(p).len());
            assert(spec_id(preset_at(14)).len() != spec_id(p).len());
            assert(spec_id(preset_at(15)).len() != spec_id(p).len());
            assert(spec_id(preset_at(16)).len() != spec_id(p).len());
            assert(spec_id(preset_at(17)).len() != spec_id(p).len());
            assert(spec_id(preset_at(18)).len() != spec_id(p).len());
            assert(preset_at(19) == p);
            lemma_find_first(all_presets(), spec_id(p), 19, 0);
        },
        FilmPreset::ClassicNeg => {
            assert(spec_id(preset_at(0)).len() != spec_id(p).len());
            assert(spec_id(preset_at(1)).len() != spec_id(p).len());
            assert(spec_id(preset_at(2))[0] != spec_id(p)[0]);
            assert(spec_id(preset_at(3)).len() != spec_id(p).len());
            assert(spec_id(preset_at(4))[0] != spec_id(p)[0]);
            assert(spec_id(preset_at(5)).len() != spec_id(p).len());
            assert(spec_id(preset_at(6))[0] != spec_id(p)[0]);
            assert(spec_id(preset_at(7)).len() != spec_id(p).len());
            assert(spec_id(preset_at(8)).len() != spec_id(p).len());
            assert(spec_id(preset_at(9)).len() != spec_id(p).len());
            assert(spec_id(preset_at(10)).len() != spec_id(p).len());
            assert(spec_id(preset_at(11)).len() != spec_id(p).len());
            assert(spec_id(preset_at(12)).len() != spec_id(p).len());
            assert(spec_id(preset_at(13)).len() != spec_id(p).len());
            assert(spec_id(preset_at(14)).len() != spec_id(p).len());
            assert(spec_id(preset_at(15)).len() != spec_id(p).len());
            assert(spec_id(preset_at(16)).len() != spec_id(p).len());
            assert(spec_id(preset_at(17)).len() != spec_id(p).len());
            assert(spec_id(preset_at(18)).len() != spec_id(p).len());
            assert(spec_id(preset_at(19)).len() != spec_id(p).len());
            assert(preset_at(20) == p);
            lemma_find_first(all_presets(), spec_id(p), 20, 0);
        },
        FilmPreset::CoolChrome => {
            assert(spec_id(preset_at(0)).len() != spec_id(p).len());
            assert(spec_id(preset_at(1)).len() != spec_id(p).len());
            assert(spec_id(preset_at(2))[0] != spec_id(p)[0]);
            assert(spec_id(preset_at(3)).len() != spec_id(p).len());
            assert(spec_id(preset_at(4))[0] != spec_id(p)[0]);
            assert(spec_id(preset_at(5)).len() != spec_id(p).len());
            assert(spec_id(preset_at(6))[0] != spec_id(p)[0]);
            assert(spec_id(preset_at(7)).len() != spec_id(p).len());
            assert(spec_id(preset_at(8)).len() != spec_id(p).len());
            assert(spec_id(preset_at(9)).len() != spec_id(p).len());
            assert(spec_id(preset_at(10)).len() != spec_id(p).len());
            assert(spec_id(preset_at(11)).len() != spec_id(p).len());
            assert(spec_id(preset_at(12)).len() != spec_id(p).len());
            assert(spec_id(preset_at(13)).len() != spec_id(p).len());
            assert(spec_id(preset_at(14)).len() != spec_id(p).len());
            assert(spec_id(preset_at(15)).len() != spec_id(p).len());
            assert(spec_id(preset_at(16)).len() != spec_id(p).len());
            assert(spec_id(preset_at(17)).len() != spec_id(p).len());
            assert(spec_id(preset_at(18)).len() != spec_id(p).len());
            assert(spec_id(preset_at(19)).len() != spec_id(p).len());
            assert(spec_id(preset_at(20))[1] != spec_id(p)[1]);
            assert(preset_at(21) == p);
            lemma_find_first(all_presets(), spec_id(p), 21, 0);
        },
    }
}

/// The length, second character and last character of each name: enough to
/// tell the names apart.
spec fn name_signature(p: FilmPreset) -> (nat, char, char) {
    match p {
        FilmPreset::BleachBypass => (13, 'l', 's'),
        FilmPreset::CrossProcess => (13, 'r', 's'),
        FilmPreset::TealOrange => (13, 'e', 'e'),
        FilmPreset::FadedFilm => (10, 'a', 'm'),
        FilmPreset::GoldenHour => (11, 'o', 'r'),
        FilmPreset::Noir => (4, 'o', 'r'),
        FilmPreset::Technicolor => (11, 'e', 'r'),
        FilmPreset::Matte => (5, 'a', 'e'),
        FilmPreset::Portra => (6, 'o', 'a'),
        FilmPreset::KodakGold => (10, 'o', 'd'),
        FilmPreset::Ektar => (5, 'k', 'r'),
        FilmPreset::Superia => (7, 'u', 'a'),
        FilmPreset::Pro400H => (8, 'r', 'H'),
        FilmPreset::Velvia => (6, 'e', 'a'),
        FilmPreset::Provia => (6, 'r', 'a'),
        FilmPreset::Kodachrome => (10, 'o', 'e'),
        FilmPreset::Ektachrome => (10, 'k', 'e'),
        FilmPreset::Print2383 => (10, 'r', '3'),
        FilmPreset::Tungsten500T => (13, '0', 'n'),
        FilmPreset::ClassicChrome => (14, 'l', 'e'),
        FilmPreset::ClassicNeg => (16, 'l', 'e'),
        FilmPreset::CoolChrome => (11, 'o', 'e'),
    }
}

proof fn lemma_name_signature(p: FilmPreset)
    ensures
        spec_name(p).len() == name_signature(p).0,
        spec_name(p)[1] == name_signature(p).1,
        spec_name(p)[spec_name(p).len() - 1] == name_signature(p).2,
{
    reveal_strlit("Bleach Bypass");
    reveal_strlit("Cross Process");
    reveal_strlit("Teal & Orange");
    reveal_strlit("Faded Film");
    reveal_strlit("Golden Hour");
    reveal_strlit("Noir");
    reveal_strlit("Technicolor");
    reveal_strlit("Matte");
    reveal_strlit("Portra");
    reveal_strlit("Kodak Gold");
    reveal_strlit("Ektar");
    reveal_strlit("Superia");
    reveal_strlit("Pro 400H");
    reveal_strlit("Velvia");
    reveal_strlit("Provia");
    reveal_strlit("Kodachrome");
    reveal_strlit("Ektachrome");
    reveal_strlit("Print 2383");
    reveal_strlit("500T Tungsten");
    reveal_strlit("Classic Chrome");
    reveal_strlit("Classic Negative");
    reveal_strlit("Cool Chrome");
}

/// Every preset has a non-empty name, and different presets have different
/// names.
pub proof fn law_names_distinct(p: FilmPreset, q: FilmPreset)
    ensures
        spec_name(p).len() > 0,
        spec_name(p) == spec_name(q) ==> p == q,
{
    lemma_name_signature(p);
    lemma_name_signature(q);
}

} // verus!

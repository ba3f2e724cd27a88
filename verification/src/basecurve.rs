//! Choice of a camera tone curve from the EXIF maker and model.
//!
//! Curves are listed per camera (a maker prefix and a model) and per maker
//! (a maker prefix). An exact camera match wins: the first camera entry
//! whose maker prefixes the maker and whose model is the model. Then comes
//! the first camera entry whose model occurs in the model, then the first
//! maker entry; with none of these, the neutral curve is used. Matching
//! ignores case by comparing upper-case forms.
use vstd::prelude::*;

use crate::text::{chars_of, has_prefix, starts_with};

verus! {

/// What `str::to_uppercase` returns for a text (Unicode upper-case mapping).
pub uninterp spec fn uppercase(s: Seq<char>) -> Seq<char>;

/// The upper-case form of `s`.
///
/// Calls `str::to_uppercase`; the contract claims only that the result is a
/// function of the text, named `uppercase`.
#[verifier::external_body]
fn to_upper(s: &str) -> (r: String)
    ensures
        r@ == uppercase(s@),
{
    s.to_uppercase()
}

/// `p` occurs in `s` as a run of consecutive characters.
pub open spec fn contains_text(s: Seq<char>, p: Seq<char>) -> bool {
    exists|i: int| 0 <= i && i + p.len() <= s.len() && #[trigger] s.subrange(i, i + p.len()) == p
}

/// Whether `s[i..i + p.len()]` is `p`.
fn matches_at(s: &Vec<char>, p: &Vec<char>, i: usize) -> (r: bool)
    requires
        i + p.len() <= s.len(),
    ensures
        r == (s@.subrange(i as int, i + p.len()) == p@),
{
    let mut k: usize = 0;
    while k < p.len()
        invariant
            k <= p.len(),
            i + p.len() <= s.len(),
            forall|j: int| 0 <= j < k ==> s@[i + j] == p@[j],
        decreases p.len() - k,
    {
        if s[i + k] != p[k] {
            assert(s@.subrange(i as int, i + p.len())[k as int] != p@[k as int]);
            return false;
        }
        k += 1;
    }
    assert(s@.subrange(i as int, i + p.len()) =~= p@);
    true
}

/// Whether `a` and `b` are the same text.
pub fn same_text(a: &Vec<char>, b: &Vec<char>) -> (r: bool)
    ensures
        r == (a@ == b@),
{
    if a.len() != b.len() {
        return false;
    }
    let r = matches_at(a, b, 0);
    assert(a@.subrange(0, b@.len() as int) =~= a@);
    r
}

/// Whether `p` occurs in `s`.
pub fn contains(s: &Vec<char>, p: &Vec<char>) -> (r: bool)
    ensures
        r == contains_text(s@, p@),
{
    if p.len() > s.len() {
        return false;
    }
    let last = s.len() - p.len();
    let mut i: usize = 0;
    while i < last
        invariant
            last + p.len() == s.len(),
            i <= last,
            forall|k: int| 0 <= k < i ==> #[trigger] s@.subrange(k, k + p.len()) != p@,
        decreases last - i,
    {
        if matches_at(s, p, i) {
            return true;
        }
        i += 1;
    }
    matches_at(s, p, last)
}

/// The curve that a camera gets: an index into the camera list, an index
/// into the maker list, or the neutral curve.
#[derive(Clone, Copy, Debug, PartialEq, Eq, Structural)]
pub enum PresetMatch {
    Camera(usize),
    Maker(usize),
    Neutral,
}

/// The camera entry `key` (maker, model, both upper-case) fits a camera
/// whose upper-case maker and model are `maker_u` and `model_u`.
pub open spec fn camera_fits(maker_u: Seq<char>, model_u: Seq<char>, key: (Seq<char>, Seq<char>)) -> bool {
    has_prefix(maker_u, key.0) && contains_text(model_u, key.1)
}

/// The camera entry `key` is this very camera: its maker prefixes
/// `maker_u` and its model is `model_u`.
pub open spec fn camera_is(maker_u: Seq<char>, model_u: Seq<char>, key: (Seq<char>, Seq<char>)) -> bool {
    has_prefix(maker_u, key.0) && model_u == key.1
}

/// Whether `key` matches: exactly (`exact`), or by a model substring.
pub open spec fn camera_matches(
    maker_u: Seq<char>,
    model_u: Seq<char>,
    key: (Seq<char>, Seq<char>),
    exact: bool,
) -> bool {
    if exact {
        camera_is(maker_u, model_u, key)
    } else {
        camera_fits(maker_u, model_u, key)
    }
}

/// The first camera entry at or after `i` that matches (exactly, or by a
/// model substring), or the number of entries.
pub open spec fn first_camera(
    maker_u: Seq<char>,
    model_u: Seq<char>,
    cameras: Seq<(Seq<char>, Seq<char>)>,
    exact: bool,
    i: int,
) -> int
    decreases cameras.len() - i,
{
    if i < 0 || i >= cameras.len() {
        cameras.len() as int
    } else if camera_matches(maker_u, model_u, cameras[i], exact) {
        i
    } else {
        first_camera(maker_u, model_u, cameras, exact, i + 1)
    }
}

/// The first maker entry at or after `i` that prefixes `maker_u`, or the
/// number of entries.
pub open spec fn first_maker(maker_u: Seq<char>, makers: Seq<Seq<char>>, i: int) -> int
    decreases makers.len() - i,
{
    if i < 0 || i >= makers.len() {
        makers.len() as int
    } else if has_prefix(maker_u, makers[i]) {
        i
    } else {
        first_maker(maker_u, makers, i + 1)
    }
}

/// The curve for a camera, all texts already upper-case.
pub open spec fn spec_match_preset(
    maker_u: Seq<char>,
    model_u: Seq<char>,
    cameras: Seq<(Seq<char>, Seq<char>)>,
    makers: Seq<Seq<char>>,
) -> PresetMatch {
    let e = first_camera(maker_u, model_u, cameras, true, 0);
    let c = first_camera(maker_u, model_u, cameras, false, 0);
    let m = first_maker(maker_u, makers, 0);
    if e < cameras.len() {
        PresetMatch::Camera(e as usize)
    } else if c < cameras.len() {
        PresetMatch::Camera(c as usize)
    } else if m < makers.len() {
        PresetMatch::Maker(m as usize)
    } else {
        PresetMatch::Neutral
    }
}

/// The views of a list of upper-case camera keys.
pub open spec fn key_pairs(v: Seq<(Vec<char>, Vec<char>)>) -> Seq<(Seq<char>, Seq<char>)> {
    v.map_values(|k: (Vec<char>, Vec<char>)| (k.0@, k.1@))
}

/// The views of a list of upper-case maker keys.
pub open spec fn key_texts(v: Seq<Vec<char>>) -> Seq<Seq<char>> {
    v.map_values(|k: Vec<char>| k@)
}

/// Picks the curve for a camera whose maker and model, and the keys of the
/// lists, are already upper-case: the first camera entry whose maker
/// prefixes the maker and whose model is the model, else the first whose
/// model occurs in the model, else the first maker entry that prefixes the
/// maker, else the neutral curve.
pub fn match_preset(
    maker_u: &Vec<char>,
    model_u: &Vec<char>,
    cameras: &Vec<(Vec<char>, Vec<char>)>,
    makers: &Vec<Vec<char>>,
) -> (r: PresetMatch)
    ensures
        r == spec_match_preset(maker_u@, model_u@, key_pairs(cameras@), key_texts(makers@)),
{
    let ghost cams = key_pairs(cameras@);
    let ghost mks = key_texts(makers@);
    assert(cams.len() == cameras@.len());
    let mut i: usize = 0;
    while i < cameras.len()
        invariant
            i <= cameras.len(),
            cams == key_pairs(cameras@),
            cams.len() == cameras.len(),
            first_camera(maker_u@, model_u@, cams, true, 0) == first_camera(
                maker_u@,
                model_u@,
                cams,
                true,
                i as int,
            ),
        decreases cameras.len() - i,
    {
        let key = &cameras[i];
        assert(cams[i as int] == (key.0@, key.1@));
        if starts_with(maker_u, &key.0) && same_text(model_u, &key.1) {
            return PresetMatch::Camera(i);
        }
        i += 1;
    }
    let mut i: usize = 0;
    while i < cameras.len()
        invariant
            i <= cameras.len(),
            cams == key_pairs(cameras@),
            cams.len() == cameras.len(),
            first_camera(maker_u@, model_u@, cams, true, 0) == cams.len(),
            first_camera(maker_u@, model_u@, cams, false, 0) == first_camera(
                maker_u@,
                model_u@,
                cams,
                false,
                i as int,
            ),
        decreases cameras.len() - i,
    {
        let key = &cameras[i];
        assert(cams[i as int] == (key.0@, key.1@));
        if starts_with(maker_u, &key.0) && contains(model_u, &key.1) {
            return PresetMatch::Camera(i);
        }
        i += 1;
    }
    let mut j: usize = 0;
    while j < makers.len()
        invariant
            j <= makers.len(),
            mks == key_texts(makers@),
            mks.len() == makers@.len(),
            cams == key_pairs(cameras@),
            first_camera(maker_u@, model_u@, cams, true, 0) == cams.len(),
            first_camera(maker_u@, model_u@, cams, false, 0) == cams.len(),
            cams.len() == cameras.len(),
            first_maker(maker_u@, mks, 0) == first_maker(maker_u@, mks, j as int),
        decreases makers.len() - j,
    {
        assert(mks[j as int] == makers@[j as int]@);
        if starts_with(maker_u, &makers[j]) {
            return PresetMatch::Maker(j);
        }
        j += 1;
    }
    PresetMatch::Neutral
}

/// The upper-case forms of camera keys.
pub open spec fn upper_pairs(v: Seq<(&str, &str)>) -> Seq<(Seq<char>, Seq<char>)> {
    v.map_values(|k: (&str, &str)| (uppercase(k.0@), uppercase(k.1@)))
}

/// The upper-case forms of maker keys.
pub open spec fn upper_texts(v: Seq<&str>) -> Seq<Seq<char>> {
    v.map_values(|k: &str| uppercase(k@))
}

/// Picks the curve for a camera from its EXIF maker and model, ignoring
/// case: an exact camera match first (maker prefix, same model), else the
/// first camera entry whose model occurs in the model, else the first maker
/// entry that prefixes the maker, else the neutral curve.
pub fn find_preset(maker: &str, model: &str, cameras: &Vec<(&str, &str)>, makers: &Vec<&str>) -> (r:
    PresetMatch)
    ensures
        r == spec_match_preset(
            uppercase(maker@),
            uppercase(model@),
            upper_pairs(cameras@),
            upper_texts(makers@),
        ),
{
    let maker_s = to_upper(maker);
    let maker_u = chars_of(maker_s.as_str());
    let model_s = to_upper(model);
    let model_u = chars_of(model_s.as_str());
    let mut cams: Vec<(Vec<char>, Vec<char>)> = Vec::new();
    let mut i: usize = 0;
    while i < cameras.len()
        invariant
            i <= cameras.len(),
            key_pairs(cams@) == upper_pairs(cameras@).take(i as int),
        decreases cameras.len() - i,
    {
        let mk: &str = cameras[i].0;
        let md: &str = cameras[i].1;
        let a = to_upper(mk);
        let b = to_upper(md);
        let ka = chars_of(a.as_str());
        let kb = chars_of(b.as_str());
        let ghost before = cams@;
        cams.push((ka, kb));
        assert(upper_pairs(cameras@)[i as int] == (uppercase(mk@), uppercase(md@)));
        assert(key_pairs(cams@) =~= key_pairs(before).push((ka@, kb@)));
        assert(upper_pairs(cameras@).take(i + 1) =~= upper_pairs(cameras@).take(i as int).push(
            upper_pairs(cameras@)[i as int],
        ));
        i += 1;
    }
    let mut mks: Vec<Vec<char>> = Vec::new();
    let mut j: usize = 0;
    while j < makers.len()
        invariant
            j <= makers.len(),
            key_texts(mks@) == upper_texts(makers@).take(j as int),
        decreases makers.len() - j,
    {
        let mk: &str = makers[j];
        let a = to_upper(mk);
        let ka = chars_of(a.as_str());
        let ghost before = mks@;
        mks.push(ka);
        assert(upper_texts(makers@)[j as int] == uppercase(mk@));
        assert(key_texts(mks@) =~= key_texts(before).push(ka@));
        assert(upper_texts(makers@).take(j + 1) =~= upper_texts(makers@).take(j as int).push(
            upper_texts(makers@)[j as int],
        ));
        j += 1;
    }
    assert(key_pairs(cams@) =~= upper_pairs(cameras@));
    assert(key_texts(mks@) =~= upper_texts(makers@));
    match_preset(&maker_u, &model_u, &cams, &mks)
}

proof fn lemma_first_camera(
    maker_u: Seq<char>,
    model_u: Seq<char>,
    cameras: Seq<(Seq<char>, Seq<char>)>,
    exact: bool,
    i: int,
)
    requires
        0 <= i <= cameras.len(),
    ensures
        i <= first_camera(maker_u, model_u, cameras, exact, i) <= cameras.len(),
        first_camera(maker_u, model_u, cameras, exact, i) < cameras.len() ==> camera_matches(
            maker_u,
            model_u,
            cameras[first_camera(maker_u, model_u, cameras, exact, i)],
            exact,
        ),
        forall|k: int|
            i <= k < first_camera(maker_u, model_u, cameras, exact, i) ==> !camera_matches(
                maker_u,
                model_u,
                #[trigger] cameras[k],
                exact,
            ),
    decreases cameras.len() - i,
{
    if i < cameras.len() && !camera_matches(maker_u, model_u, cameras[i], exact) {
        lemma_first_camera(maker_u, model_u, cameras, exact, i + 1);
    }
}

proof fn lemma_first_maker(maker_u: Seq<char>, makers: Seq<Seq<char>>, i: int)
    requires
        0 <= i <= makers.len(),
    ensures
        i <= first_maker(maker_u, makers, i) <= makers.len(),
        first_maker(maker_u, makers, i) < makers.len() ==> has_prefix(
            maker_u,
            makers[first_maker(maker_u, makers, i)],
        ),
        forall|k: int| i <= k < first_maker(maker_u, makers, i) ==> !has_prefix(maker_u, #[trigger] makers[k]),
    decreases makers.len() - i,
{
    if i < makers.len() && !has_prefix(maker_u, makers[i]) {
        lemma_first_maker(maker_u, makers, i + 1);
    }
}

/// An exact camera match takes priority: the chosen curve is the first
/// camera entry whose maker prefixes the maker and whose model is the model;
/// failing any, the first camera entry whose model occurs in the model;
/// failing any, the first maker entry that prefixes the maker; failing any,
/// the neutral one.
pub proof fn law_exact_camera_first(
    maker_u: Seq<char>,
    model_u: Seq<char>,
    cameras: Seq<(Seq<char>, Seq<char>)>,
    makers: Seq<Seq<char>>,
)
    requires
        cameras.len() <= usize::MAX,
        makers.len() <= usize::MAX,
    ensures
        (exists|k: int| 0 <= k < cameras.len() && camera_is(maker_u, model_u, #[trigger] cameras[k]))
            ==> (spec_match_preset(maker_u, model_u, cameras, makers) matches PresetMatch::Camera(i)
            && i < cameras.len() && camera_is(maker_u, model_u, cameras[i as int]) && forall|k: int|
            0 <= k < i ==> !camera_is(maker_u, model_u, #[trigger] cameras[k])),
        match spec_match_preset(maker_u, model_u, cameras, makers) {
            PresetMatch::Camera(i) => {
                &&& i < cameras.len()
                &&& camera_fits(maker_u, model_u, cameras[i as int])
                &&& (forall|k: int| 0 <= k < cameras.len() ==> !camera_is(maker_u, model_u, #[trigger] cameras[k]))
                    ==> forall|k: int| 0 <= k < i ==> !camera_fits(maker_u, model_u, #[trigger] cameras[k])
            },
            PresetMatch::Maker(j) => {
                &&& j < makers.len()
                &&& has_prefix(maker_u, makers[j as int])
                &&& forall|k: int| 0 <= k < j ==> !has_prefix(maker_u, #[trigger] makers[k])
                &&& forall|k: int| 0 <= k < cameras.len() ==> !camera_fits(maker_u, model_u, #[trigger] cameras[k])
            },
            PresetMatch::Neutral => {
                &&& forall|k: int| 0 <= k < cameras.len() ==> !camera_fits(maker_u, model_u, #[trigger] cameras[k])
                &&& forall|k: int| 0 <= k < makers.len() ==> !has_prefix(maker_u, #[trigger] makers[k])
            },
        },
{
    lemma_first_camera(maker_u, model_u, cameras, true, 0);
    lemma_first_camera(maker_u, model_u, cameras, false, 0);
    lemma_first_maker(maker_u, makers, 0);
    let e = first_camera(maker_u, model_u, cameras, true, 0);
    if e < cameras.len() {
        lemma_exact_fits(maker_u, model_u, cameras[e]);
    }
    if exists|k: int| 0 <= k < cameras.len() && camera_is(maker_u, model_u, #[trigger] cameras[k]) {
        let k0 = choose|k: int| 0 <= k < cameras.len() && camera_is(maker_u, model_u, #[trigger] cameras[k]);
        assert(camera_matches(maker_u, model_u, cameras[k0], true));
    }
    if (forall|k: int| 0 <= k < cameras.len() ==> !camera_is(maker_u, model_u, #[trigger] cameras[k])) {
        if e < cameras.len() {
            assert(camera_matches(maker_u, model_u, cameras[e], true));
        }
    }
    assert forall|k: int| 0 <= k < first_camera(maker_u, model_u, cameras, false, 0) implies
        !camera_fits(maker_u, model_u, #[trigger] cameras[k]) by {
        assert(!camera_matches(maker_u, model_u, cameras[k], false));
    }
    assert forall|k: int| 0 <= k < e implies !camera_is(maker_u, model_u, #[trigger] cameras[k]) by {
        assert(!camera_matches(maker_u, model_u, cameras[k], true));
    }
}

/// A camera that is an entry also fits it.
proof fn lemma_exact_fits(maker_u: Seq<char>, model_u: Seq<char>, key: (Seq<char>, Seq<char>))
    ensures
        camera_is(maker_u, model_u, key) ==> camera_fits(maker_u, model_u, key),
{
    if camera_is(maker_u, model_u, key) {
        assert(model_u.subrange(0, 0 + key.1.len() as int) =~= key.1);
    }
}

/// A camera entry with an empty model fits every model of its maker.
pub proof fn law_empty_model_fits_any(maker_u: Seq<char>, model_u: Seq<char>, maker_key: Seq<char>)
    ensures
        camera_fits(maker_u, model_u, (maker_key, Seq::empty())) <==> has_prefix(maker_u, maker_key),
{
    let e = Seq::<char>::empty();
    assert(model_u.subrange(0, 0 + e.len() as int) =~= e);
}

} // verus!

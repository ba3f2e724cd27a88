//! The text grammar of Adobe `.cube` 3D LUT files.
use vstd::prelude::*;

use crate::text::{
    ascii_chars, chars_of, decimal_bytes, decimal_usize, digits_value, has_prefix, is_digit,
    law_decimal_roundtrip, starts_with,
};

verus! {

/// Errors from parsing .cube files.
#[derive(Clone, Debug, PartialEq, Eq, Structural)]
pub enum CubeParseError {
    /// No LUT_3D_SIZE found.
    MissingSize,
    /// LUT size is outside valid range (2–256).
    InvalidSize(usize),
    /// Not enough data rows for the declared size.
    InsufficientData { expected: usize, found: usize },
    /// A data line couldn't be parsed as three numbers (1-based line number).
    BadDataLine(usize),
}

/// The decimal text of a count.
pub open spec fn count_text(n: usize) -> Seq<char> {
    ascii_chars(decimal_bytes(n as nat))
}

/// The human-readable description of each error.
pub open spec fn spec_cube_error_text(e: CubeParseError) -> Seq<char> {
    match e {
        CubeParseError::MissingSize => "no LUT_3D_SIZE found in .cube file"@,
        CubeParseError::InvalidSize(s) => "invalid LUT_3D_SIZE "@ + count_text(s) + " (must be 2–256)"@,
        CubeParseError::InsufficientData { expected, found } => "expected "@ + count_text(expected)
            + " data rows, found "@ + count_text(found),
        CubeParseError::BadDataLine(n) => "bad data at line "@ + count_text(n),
    }
}

impl CubeParseError {
    /// Human-readable description of the error, e.g.
    /// `expected 8 data rows, found 1`.
    pub fn to_text(&self) -> (s: String)
        ensures
            s@ == spec_cube_error_text(*self),
    {
        match self {
            CubeParseError::MissingSize => String::from_str("no LUT_3D_SIZE found in .cube file"),
            CubeParseError::InvalidSize(v) => {
                let mut s = String::from_str("invalid LUT_3D_SIZE ");
                let d = decimal_usize(*v);
                s.append(d.as_str());
                s.append(" (must be 2–256)");
                s
            },
            CubeParseError::InsufficientData { expected, found } => {
                let mut s = String::from_str("expected ");
                let d = decimal_usize(*expected);
                s.append(d.as_str());
                s.append(" data rows, found ");
                let f = decimal_usize(*found);
                s.append(f.as_str());
                s
            },
            CubeParseError::BadDataLine(n) => {
                let mut s = String::from_str("bad data at line ");
                let d = decimal_usize(*n);
                s.append(d.as_str());
                s
            },
        }
    }
}

/// Smallest and largest accepted grid size per axis.
pub const MIN_LUT_SIZE: usize = 2;
pub const MAX_LUT_SIZE: usize = 256;

/// The number of data rows that a declared grid size calls for, or the
/// error for the declaration and the rows found.
pub open spec fn spec_check_lut_size(size: Option<usize>, rows: usize) -> Result<usize, CubeParseError> {
    match size {
        None => Err(CubeParseError::MissingSize),
        Some(s) => if s < MIN_LUT_SIZE || s > MAX_LUT_SIZE {
            Err(CubeParseError::InvalidSize(s))
        } else if rows < s * s * s {
            Err(CubeParseError::InsufficientData { expected: (s * s * s) as usize, found: rows })
        } else {
            Ok((s * s * s) as usize)
        },
    }
}

/// Checks the declared `LUT_3D_SIZE` against the number of data rows read:
/// the size must be present and within 2–256, and at least `size³` rows must
/// be present. Returns the number of rows the LUT keeps (`size³`).
pub fn check_lut_size(size: Option<usize>, rows: usize) -> (r: Result<usize, CubeParseError>)
    ensures
        r == spec_check_lut_size(size, rows),
{
    let s = match size {
        Some(s) => s,
        None => return Err(CubeParseError::MissingSize),
    };
    if s < MIN_LUT_SIZE || s > MAX_LUT_SIZE {
        return Err(CubeParseError::InvalidSize(s));
    }
    assert(s * s <= 65536) by (nonlinear_arith)
        requires
            s <= 256,
    ;
    assert(s * s * s <= 16777216) by (nonlinear_arith)
        requires
            s <= 256,
            s * s <= 65536,
    ;
    let expected = s * s * s;
    if rows < expected {
        return Err(CubeParseError::InsufficientData { expected, found: rows });
    }
    Ok(expected)
}

/// Unicode `White_Space` characters, the ones `char::is_whitespace` and
/// `str::trim` recognise.
pub open spec fn is_space(c: char) -> bool {
    ||| '\u{9}' <= c <= '\u{d}'
    ||| c == ' '
    ||| c == '\u{85}'
    ||| c == '\u{a0}'
    ||| c == '\u{1680}'
    ||| '\u{2000}' <= c <= '\u{200a}'
    ||| c == '\u{2028}'
    ||| c == '\u{2029}'
    ||| c == '\u{202f}'
    ||| c == '\u{205f}'
    ||| c == '\u{3000}'
}

/// Whether `c` is a Unicode white-space character.
pub fn is_space_char(c: char) -> (r: bool)
    ensures
        r == is_space(c),
{
    ('\u{9}' <= c && c <= '\u{d}') || c == ' ' || c == '\u{85}' || c == '\u{a0}' || c == '\u{1680}'
        || ('\u{2000}' <= c && c <= '\u{200a}') || c == '\u{2028}' || c == '\u{2029}'
        || c == '\u{202f}' || c == '\u{205f}' || c == '\u{3000}'
}


/// Characters that a trim strips: white space, or double quotes.
pub open spec fn stripped(c: char, quotes: bool) -> bool {
    if quotes {
        c == '"'
    } else {
        is_space(c)
    }
}

/// The first position at or after `i` whose character is not stripped.
pub open spec fn skip_fwd(s: Seq<char>, i: int, quotes: bool) -> int
    decreases s.len() - i,
{
    if 0 <= i < s.len() && stripped(s[i], quotes) {
        skip_fwd(s, i + 1, quotes)
    } else {
        i
    }
}

/// The end of `s[lo..hi]` once the stripped characters at its end are removed.
pub open spec fn skip_back(s: Seq<char>, lo: int, hi: int, quotes: bool) -> int
    decreases hi - lo,
{
    if lo < hi && 0 < hi <= s.len() && stripped(s[hi - 1], quotes) {
        skip_back(s, lo, hi - 1, quotes)
    } else {
        hi
    }
}

/// `s` without its leading and trailing stripped characters (`str::trim`
/// for white space, `str::trim_matches('"')` for quotes).
pub open spec fn trim_by(s: Seq<char>, quotes: bool) -> Seq<char> {
    let a = skip_fwd(s, 0, quotes);
    s.subrange(a, skip_back(s, a, s.len() as int, quotes))
}

/// `s` without leading and trailing white space.
pub open spec fn trim(s: Seq<char>) -> Seq<char> {
    trim_by(s, false)
}

/// The end of the run of non-space characters that starts at `i`.
pub open spec fn word_end(s: Seq<char>, i: int) -> int
    decreases s.len() - i,
{
    if 0 <= i < s.len() && !is_space(s[i]) {
        word_end(s, i + 1)
    } else {
        i
    }
}

pub proof fn lemma_word_end(s: Seq<char>, i: int)
    requires
        0 <= i <= s.len(),
    ensures
        i <= word_end(s, i) <= s.len(),
        i < s.len() && !is_space(s[i]) ==> word_end(s, i) > i,
    decreases s.len() - i,
{
    if i < s.len() && !is_space(s[i]) {
        lemma_word_end(s, i + 1);
    }
}

/// The white-space separated words of `s` from position `i` on
/// (`str::split_whitespace`).
pub open spec fn tokens_from(s: Seq<char>, i: int) -> Seq<Seq<char>>
    decreases s.len() - i,
{
    if i < 0 || i >= s.len() {
        Seq::empty()
    } else if is_space(s[i]) {
        tokens_from(s, i + 1)
    } else {
        proof {
            lemma_word_end(s, i);
        }
        let b = word_end(s, i);
        seq![s.subrange(i, b)] + tokens_from(s, b)
    }
}

/// An ASCII decimal digit.
pub open spec fn is_digit_char(c: char) -> bool {
    '0' <= c <= '9'
}

/// The end of the run of digits that starts at `i`.
pub open spec fn digits_end(s: Seq<char>, i: int) -> int
    decreases s.len() - i,
{
    if 0 <= i < s.len() && is_digit_char(s[i]) {
        digits_end(s, i + 1)
    } else {
        i
    }
}

/// `c` is the lower-case letter `w`, in either case, or `w` itself.
pub open spec fn same_letter(c: char, w: char) -> bool {
    c == w || ('a' <= w <= 'z' && c as u32 + 32 == w as u32)
}

/// `u` spells the lower-case word `w`, ignoring ASCII case.
pub open spec fn spells(u: Seq<char>, w: Seq<char>) -> bool {
    u.len() == w.len() && forall|k: int| 0 <= k < u.len() ==> same_letter(#[trigger] u[k], w[k])
}

/// `Exp ::= 'e' Sign? Digit+`, ignoring case.
pub open spec fn is_exponent(e: Seq<char>) -> bool {
    let j: int = if e.len() >= 2 && (e[1] == '+' || e[1] == '-') { 2 } else { 1 };
    &&& e.len() >= 2
    &&& same_letter(e[0], 'e')
    &&& j < e.len()
    &&& digits_end(e, j) == e.len()
}

/// `Number ::= ( Digit+ | Digit+ '.' Digit* | Digit* '.' Digit+ ) Exp?`
pub open spec fn is_decimal(u: Seq<char>) -> bool {
    let d1 = digits_end(u, 0);
    let has_dot = d1 < u.len() && u[d1] == '.';
    let m = if has_dot { digits_end(u, d1 + 1) } else { d1 };
    let digits = if has_dot { m - 1 } else { m };
    &&& digits > 0
    &&& (m == u.len() || is_exponent(u.skip(m)))
}

/// The texts that `f32::from_str` accepts, as its documentation gives them:
/// `Sign? ( 'inf' | 'infinity' | 'nan' | Number )`, ignoring case.
pub open spec fn is_number_text(t: Seq<char>) -> bool {
    let i: int = if t.len() > 0 && (t[0] == '+' || t[0] == '-') { 1 } else { 0 };
    let u = t.skip(i);
    ||| spells(u, seq!['i', 'n', 'f'])
    ||| spells(u, seq!['i', 'n', 'f', 'i', 'n', 'i', 't', 'y'])
    ||| spells(u, seq!['n', 'a', 'n'])
    ||| is_decimal(u)
}

/// The value of a string of ASCII digits.
pub open spec fn digit_chars_value(d: Seq<char>) -> int
    decreases d.len(),
{
    if d.len() == 0 {
        0
    } else {
        digit_chars_value(d.drop_last()) * 10 + (d.last() as int - '0' as int)
    }
}

/// What `usize::from_str` gives for `t`: an optional `+` and decimal digits
/// whose value fits in `usize`.
pub open spec fn parse_usize(t: Seq<char>) -> Option<usize> {
    let d = if t.len() > 0 && t[0] == '+' { t.drop_first() } else { t };
    if d.len() == 0 || digits_end(d, 0) != d.len() || digit_chars_value(d) > usize::MAX {
        None
    } else {
        Some(digit_chars_value(d) as usize)
    }
}

/// The first three words of `s`, when each of them is a number.
pub open spec fn three_numbers(s: Seq<char>) -> Option<(Seq<char>, Seq<char>, Seq<char>)> {
    let ts = tokens_from(s, 0);
    if ts.len() >= 3 && is_number_text(ts[0]) && is_number_text(ts[1]) && is_number_text(ts[2]) {
        Some((ts[0], ts[1], ts[2]))
    } else {
        None
    }
}


pub open spec fn kw_title() -> Seq<char> {
    seq!['T', 'I', 'T', 'L', 'E']
}

pub open spec fn kw_size_3d() -> Seq<char> {
    seq!['L', 'U', 'T', '_', '3', 'D', '_', 'S', 'I', 'Z', 'E']
}

pub open spec fn kw_size_1d() -> Seq<char> {
    seq!['L', 'U', 'T', '_', '1', 'D', '_', 'S', 'I', 'Z', 'E']
}

pub open spec fn kw_domain_min() -> Seq<char> {
    seq!['D', 'O', 'M', 'A', 'I', 'N', '_', 'M', 'I', 'N']
}

pub open spec fn kw_domain_max() -> Seq<char> {
    seq!['D', 'O', 'M', 'A', 'I', 'N', '_', 'M', 'A', 'X']
}

/// What one line of a `.cube` file says.
pub enum LineView {
    /// Blank line, comment, `LUT_1D_SIZE`, an unreadable keyword argument,
    /// or an unknown keyword.
    Skip,
    Title(Seq<char>),
    Size(usize),
    DomainMin((Seq<char>, Seq<char>, Seq<char>)),
    DomainMax((Seq<char>, Seq<char>, Seq<char>)),
    Row((Seq<char>, Seq<char>, Seq<char>)),
    /// Neither a keyword, nor three numbers.
    Bad,
}

/// The meaning of the line `raw`, given whether the first character of the
/// trimmed line is alphabetic.
pub open spec fn spec_classify(raw: Seq<char>, starts_alphabetic: bool) -> LineView {
    let l = trim(raw);
    if l.len() == 0 || l[0] == '#' {
        LineView::Skip
    } else if has_prefix(l, kw_title()) {
        LineView::Title(trim_by(trim(l.skip(5)), true))
    } else if has_prefix(l, kw_size_3d()) {
        match parse_usize(trim(l.skip(11))) {
            Some(v) => LineView::Size(v),
            None => LineView::Skip,
        }
    } else if has_prefix(l, kw_size_1d()) {
        LineView::Skip
    } else if has_prefix(l, kw_domain_min()) {
        match three_numbers(l.skip(10)) {
            Some(t) => LineView::DomainMin(t),
            None => LineView::Skip,
        }
    } else if has_prefix(l, kw_domain_max()) {
        match three_numbers(l.skip(10)) {
            Some(t) => LineView::DomainMax(t),
            None => LineView::Skip,
        }
    } else {
        match three_numbers(l) {
            Some(t) => LineView::Row(t),
            None => if starts_alphabetic {
                LineView::Skip
            } else {
                LineView::Bad
            },
        }
    }
}

/// What the lines read so far have declared.
pub struct ScanView {
    pub size: Option<usize>,
    pub title: Seq<char>,
    pub domain_min: Option<(Seq<char>, Seq<char>, Seq<char>)>,
    pub domain_max: Option<(Seq<char>, Seq<char>, Seq<char>)>,
    pub rows: Seq<(Seq<char>, Seq<char>, Seq<char>)>,
}

/// Nothing declared yet.
pub open spec fn scan_start() -> ScanView {
    ScanView { size: None, title: Seq::empty(), domain_min: None, domain_max: None, rows: Seq::empty() }
}

/// The declarations after one more line; `None` for a bad line.
pub open spec fn spec_apply_line(st: ScanView, line: LineView) -> Option<ScanView> {
    match line {
        LineView::Skip => Some(st),
        LineView::Title(t) => Some(ScanView { title: t, ..st }),
        LineView::Size(v) => Some(ScanView { size: Some(v), ..st }),
        LineView::DomainMin(t) => Some(ScanView { domain_min: Some(t), ..st }),
        LineView::DomainMax(t) => Some(ScanView { domain_max: Some(t), ..st }),
        LineView::Row(t) => Some(ScanView { rows: st.rows.push(t), ..st }),
        LineView::Bad => None,
    }
}

/// The end of the line that starts at `i`: the next `'\n'`, or the end of text.
pub open spec fn line_end(s: Seq<char>, i: int) -> int
    decreases s.len() - i,
{
    if 0 <= i < s.len() && s[i] != '\n' {
        line_end(s, i + 1)
    } else {
        i
    }
}

pub proof fn lemma_line_end(s: Seq<char>, i: int)
    requires
        0 <= i <= s.len(),
    ensures
        i <= line_end(s, i) <= s.len(),
        line_end(s, i) < s.len() ==> s[line_end(s, i)] == '\n',
    decreases s.len() - i,
{
    if i < s.len() && s[i] != '\n' {
        lemma_line_end(s, i + 1);
    }
}

/// Reads the lines of `s` from position `i` on, the line before `i` being
/// line `n` (counted from 1), with `st` declared so far: the declarations at
/// the end of the text, or the number of the first bad line.
pub open spec fn scan_from(st: ScanView, s: Seq<char>, i: int, n: int) -> Result<ScanView, int>
    decreases s.len() - i,
{
    if i < 0 || i >= s.len() {
        Ok(st)
    } else {
        let e = line_end(s, i);
        let raw = s.subrange(i, e);
        let l = trim(raw);
        let alpha = l.len() > 0 && char_is_alphabetic(l[0]);
        match spec_apply_line(st, spec_classify(raw, alpha)) {
            None => Err(n + 1),
            Some(next) => if e >= s.len() {
                Ok(next)
            } else {
                proof {
                    lemma_line_end(s, i);
                }
                scan_from(next, s, e + 1, n + 1)
            },
        }
    }
}

/// What `char::is_alphabetic` returns for `c` (the Unicode `Alphabetic`
/// property).
pub uninterp spec fn char_is_alphabetic(c: char) -> bool;

/// Whether `c` has the Unicode `Alphabetic` property.
///
/// Calls `char::is_alphabetic`; the contract claims only that the answer is
/// a function of the character, named `char_is_alphabetic`.
#[verifier::external_body]
fn is_alphabetic(c: char) -> (r: bool)
    ensures
        r == char_is_alphabetic(c),
{
    c.is_alphabetic()
}

/// The parsed content of a `.cube` file: the grid size, the title, the
/// domain bounds when declared, and exactly `size³` data rows, each row the
/// text of its three numbers.
pub struct CubeView {
    pub size: usize,
    pub title: Seq<char>,
    pub domain_min: Option<(Seq<char>, Seq<char>, Seq<char>)>,
    pub domain_max: Option<(Seq<char>, Seq<char>, Seq<char>)>,
    pub rows: Seq<(Seq<char>, Seq<char>, Seq<char>)>,
}

/// The result of parsing `text` as a `.cube` file.
pub open spec fn spec_parse_cube(text: Seq<char>) -> Result<CubeView, CubeParseError> {
    match scan_from(scan_start(), text, 0, 0) {
        Err(k) => Err(CubeParseError::BadDataLine(k as usize)),
        Ok(st) => match spec_check_lut_size(st.size, st.rows.len() as usize) {
            Err(e) => Err(e),
            Ok(n) => Ok(
                CubeView {
                    size: st.size->0,
                    title: st.title,
                    domain_min: st.domain_min,
                    domain_max: st.domain_max,
                    rows: st.rows.take(n as int),
                },
            ),
        },
    }
}

/// Copies `s[a..b]`.
fn copy_range(s: &Vec<char>, a: usize, b: usize) -> (r: Vec<char>)
    requires
        a <= b <= s.len(),
    ensures
        r@ == s@.subrange(a as int, b as int),
{
    let mut r: Vec<char> = Vec::new();
    let mut k = a;
    while k < b
        invariant
            a <= k <= b <= s.len(),
            r@ == s@.subrange(a as int, k as int),
        decreases b - k,
    {
        r.push(s[k]);
        k += 1;
    }
    r
}

fn is_stripped(c: char, quotes: bool) -> (r: bool)
    ensures
        r == stripped(c, quotes),
{
    if quotes {
        c == '"'
    } else {
        is_space_char(c)
    }
}

fn skip_fwd_from(s: &Vec<char>, i: usize, quotes: bool) -> (r: usize)
    requires
        i <= s.len(),
    ensures
        r == skip_fwd(s@, i as int, quotes),
        i <= r <= s.len(),
{
    let mut j = i;
    while j < s.len() && is_stripped(s[j], quotes)
        invariant
            i <= j <= s.len(),
            skip_fwd(s@, i as int, quotes) == skip_fwd(s@, j as int, quotes),
        decreases s.len() - j,
    {
        j += 1;
    }
    j
}

fn skip_back_from(s: &Vec<char>, lo: usize, hi: usize, quotes: bool) -> (r: usize)
    requires
        lo <= hi <= s.len(),
    ensures
        r == skip_back(s@, lo as int, hi as int, quotes),
        lo <= r <= hi,
{
    let mut j = hi;
    while j > lo && is_stripped(s[j - 1], quotes)
        invariant
            lo <= j <= hi <= s.len(),
            skip_back(s@, lo as int, hi as int, quotes) == skip_back(s@, lo as int, j as int, quotes),
        decreases j,
    {
        j -= 1;
    }
    j
}

/// `s` without its leading and trailing white space (`quotes` false) or
/// double quotes (`quotes` true).
pub fn trim_chars(s: &Vec<char>, quotes: bool) -> (r: Vec<char>)
    ensures
        r@ == trim_by(s@, quotes),
{
    let a = skip_fwd_from(s, 0, quotes);
    let b = skip_back_from(s, a, s.len(), quotes);
    copy_range(s, a, b)
}


fn line_end_from(s: &Vec<char>, i: usize) -> (r: usize)
    requires
        i <= s.len(),
    ensures
        r == line_end(s@, i as int),
        i <= r <= s.len(),
{
    let mut j = i;
    while j < s.len() && s[j] != '\n'
        invariant
            i <= j <= s.len(),
            line_end(s@, i as int) == line_end(s@, j as int),
        decreases s.len() - j,
    {
        j += 1;
    }
    j
}

fn word_end_from(s: &Vec<char>, i: usize) -> (r: usize)
    requires
        i <= s.len(),
    ensures
        r == word_end(s@, i as int),
        i <= r <= s.len(),
{
    let mut j = i;
    while j < s.len() && !is_space_char(s[j])
        invariant
            i <= j <= s.len(),
            word_end(s@, i as int) == word_end(s@, j as int),
        decreases s.len() - j,
    {
        j += 1;
    }
    j
}

/// The bounds of the first word of `s` at or after `i`.
fn next_token(s: &Vec<char>, i: usize) -> (r: Option<(usize, usize)>)
    requires
        i <= s.len(),
    ensures
        r is None ==> tokens_from(s@, i as int) =~= Seq::<Seq<char>>::empty(),
        r matches Some((a, b)) ==> {
            &&& i <= a < b <= s.len()
            &&& tokens_from(s@, i as int) == seq![s@.subrange(a as int, b as int)] + tokens_from(
                s@,
                b as int,
            )
        },
{
    let mut a = i;
    while a < s.len() && is_space_char(s[a])
        invariant
            i <= a <= s.len(),
            tokens_from(s@, i as int) == tokens_from(s@, a as int),
        decreases s.len() - a,
    {
        a += 1;
    }
    if a == s.len() {
        None
    } else {
        let b = word_end_from(s, a);
        proof {
            lemma_word_end(s@, a as int);
        }
        Some((a, b))
    }
}

fn digits_end_from(s: &Vec<char>, i: usize) -> (r: usize)
    requires
        i <= s.len(),
    ensures
        r == digits_end(s@, i as int),
        i <= r <= s.len(),
{
    let mut j = i;
    while j < s.len() && '0' <= s[j] && s[j] <= '9'
        invariant
            i <= j <= s.len(),
            digits_end(s@, i as int) == digits_end(s@, j as int),
        decreases s.len() - j,
    {
        j += 1;
    }
    j
}

fn same_letter_char(c: char, w: char) -> (r: bool)
    ensures
        r == same_letter(c, w),
{
    c == w || ('a' <= w && w <= 'z' && (c as u32) == (w as u32) - 32)
}

/// Whether `u` spells the lower-case word `w`, ignoring ASCII case.
fn spells_word(u: &Vec<char>, w: &Vec<char>) -> (r: bool)
    ensures
        r == spells(u@, w@),
{
    if u.len() != w.len() {
        return false;
    }
    let mut k: usize = 0;
    while k < u.len()
        invariant
            k <= u.len() == w.len(),
            forall|j: int| 0 <= j < k ==> same_letter(#[trigger] u@[j], w@[j]),
        decreases u.len() - k,
    {
        if !same_letter_char(u[k], w[k]) {
            return false;
        }
        k += 1;
    }
    true
}

fn exponent_text(e: &Vec<char>) -> (r: bool)
    ensures
        r == is_exponent(e@),
{
    if e.len() < 2 || !same_letter_char(e[0], 'e') {
        return false;
    }
    let j: usize = if e[1] == '+' || e[1] == '-' { 2 } else { 1 };
    if j >= e.len() {
        return false;
    }
    digits_end_from(e, j) == e.len()
}

fn decimal_text(u: &Vec<char>) -> (r: bool)
    ensures
        r == is_decimal(u@),
{
    let d1 = digits_end_from(u, 0);
    let has_dot = d1 < u.len() && u[d1] == '.';
    let m = if has_dot { digits_end_from(u, d1 + 1) } else { d1 };
    let digits = if has_dot { m - 1 } else { m };
    if digits == 0 {
        return false;
    }
    if m == u.len() {
        return true;
    }
    let e = copy_range(u, m, u.len());
    exponent_text(&e)
}

/// Whether `t` is a number as `f32::from_str` reads one.
pub fn number_text(t: &Vec<char>) -> (r: bool)
    ensures
        r == is_number_text(t@),
{
    let i: usize = if t.len() > 0 && (t[0] == '+' || t[0] == '-') { 1 } else { 0 };
    let u = copy_range(t, i, t.len());
    let inf: Vec<char> = vec!['i', 'n', 'f'];
    let infinity: Vec<char> = vec!['i', 'n', 'f', 'i', 'n', 'i', 't', 'y'];
    let nan: Vec<char> = vec!['n', 'a', 'n'];
    proof {
        assert(inf@ == seq!['i', 'n', 'f']);
        assert(infinity@ == seq!['i', 'n', 'f', 'i', 'n', 'i', 't', 'y']);
        assert(nan@ == seq!['n', 'a', 'n']);
    }
    spells_word(&u, &inf) || spells_word(&u, &infinity) || spells_word(&u, &nan) || decimal_text(&u)
}

pub proof fn lemma_digits_end_all(s: Seq<char>, i: int)
    requires
        0 <= i <= s.len(),
        digits_end(s, i) == s.len(),
    ensures
        forall|j: int| i <= j < s.len() ==> is_digit_char(#[trigger] s[j]),
    decreases s.len() - i,
{
    if i < s.len() {
        lemma_digits_end_all(s, i + 1);
    }
}

/// A string of digits is worth at least as much as any of its prefixes.
pub proof fn lemma_value_prefix(d: Seq<char>, k: int)
    requires
        0 <= k <= d.len(),
        forall|j: int| 0 <= j < d.len() ==> is_digit_char(#[trigger] d[j]),
    ensures
        0 <= digit_chars_value(d.take(k)) <= digit_chars_value(d),
    decreases d.len(),
{
    if d.len() > 0 {
        let p = d.drop_last();
        assert forall|j: int| 0 <= j < p.len() implies is_digit_char(#[trigger] p[j]) by {
            assert(p[j] == d[j]);
        }
        if k < d.len() {
            lemma_value_prefix(p, k);
            assert(p.take(k) =~= d.take(k));
        } else {
            lemma_value_prefix(p, p.len() as int);
            assert(p.take(p.len() as int) =~= p);
            assert(d.take(k) =~= d);
        }
        assert(is_digit_char(d.last()));
    } else {
        assert(d.take(k) =~= d);
    }
}

/// The `usize` that `t` spells, as `usize::from_str` reads it.
pub fn parse_usize_text(t: &Vec<char>) -> (r: Option<usize>)
    ensures
        r == parse_usize(t@),
{
    let d = if t.len() > 0 && t[0] == '+' { copy_range(t, 1, t.len()) } else { copy_range(t, 0, t.len()) };
    assert(d@ == (if t@.len() > 0 && t@[0] == '+' { t@.drop_first() } else { t@ }));
    if d.len() == 0 {
        return None;
    }
    if digits_end_from(&d, 0) != d.len() {
        return None;
    }
    proof {
        lemma_digits_end_all(d@, 0);
    }
    let mut v: usize = 0;
    let mut k: usize = 0;
    while k < d.len()
        invariant
            k <= d.len(),
            forall|j: int| 0 <= j < d.len() ==> is_digit_char(#[trigger] d@[j]),
            v == digit_chars_value(d@.take(k as int)),
            d@.len() > 0,
            digits_end(d@, 0) == d@.len(),
            d@ == (if t@.len() > 0 && t@[0] == '+' { t@.drop_first() } else { t@ }),
        decreases d.len() - k,
    {
        assert(is_digit_char(d@[k as int]));
        let dig: usize = ((d[k] as u32) - ('0' as u32)) as usize;
        assert(d@.take(k as int + 1).drop_last() =~= d@.take(k as int));
        assert(digit_chars_value(d@.take(k as int + 1)) == v * 10 + dig);
        if v > (usize::MAX - dig) / 10 {
            assert(v * 10 + dig > usize::MAX) by (nonlinear_arith)
                requires
                    v > (usize::MAX - dig) / 10,
                    dig <= 9,
            ;
            proof {
                lemma_value_prefix(d@, k as int + 1);
            }
            return None;
        }
        assert(v * 10 + dig <= usize::MAX) by (nonlinear_arith)
            requires
                v <= (usize::MAX - dig) / 10,
                dig <= 9,
        ;
        v = v * 10 + dig;
        k += 1;
    }
    assert(d@.take(d.len() as int) =~= d@);
    Some(v)
}

/// The texts of three numbers: a data row, or a domain bound.
pub struct NumberTriple {
    pub r: Vec<char>,
    pub g: Vec<char>,
    pub b: Vec<char>,
}

impl View for NumberTriple {
    type V = (Seq<char>, Seq<char>, Seq<char>);

    open spec fn view(&self) -> (Seq<char>, Seq<char>, Seq<char>) {
        (self.r@, self.g@, self.b@)
    }
}

/// The view of an optional triple.
pub open spec fn opt_triple(o: Option<NumberTriple>) -> Option<(Seq<char>, Seq<char>, Seq<char>)> {
    match o {
        Some(t) => Some(t@),
        None => None,
    }
}

/// The first three words of `s`, when each of them is a number.
pub fn read_three_numbers(s: &Vec<char>) -> (r: Option<NumberTriple>)
    ensures
        opt_triple(r) == three_numbers(s@),
{
    let (a1, b1) = match next_token(s, 0) {
        Some(p) => p,
        None => return None,
    };
    let (a2, b2) = match next_token(s, b1) {
        Some(p) => p,
        None => return None,
    };
    let (a3, b3) = match next_token(s, b2) {
        Some(p) => p,
        None => return None,
    };
    let ghost ts = tokens_from(s@, 0);
    assert(ts[0] == s@.subrange(a1 as int, b1 as int));
    assert(ts[1] == s@.subrange(a2 as int, b2 as int));
    assert(ts[2] == s@.subrange(a3 as int, b3 as int));
    let r = copy_range(s, a1, b1);
    if !number_text(&r) {
        return None;
    }
    let g = copy_range(s, a2, b2);
    if !number_text(&g) {
        return None;
    }
    let b = copy_range(s, a3, b3);
    if !number_text(&b) {
        return None;
    }
    Some(NumberTriple { r, g, b })
}

/// Blank lines and lines whose first non-space character is `#` are
/// skipped, whatever else they hold.
pub proof fn law_comments_and_blank_lines_skip(raw: Seq<char>, starts_alphabetic: bool)
    requires
        trim(raw).len() == 0 || trim(raw)[0] == '#',
    ensures
        spec_classify(raw, starts_alphabetic) == LineView::Skip,
{
}

/// What one line of a `.cube` file says.
pub enum CubeLine {
    /// Blank line, comment, `LUT_1D_SIZE`, an unreadable keyword argument,
    /// or an unknown keyword.
    Skip,
    Title(Vec<char>),
    Size(usize),
    DomainMin(NumberTriple),
    DomainMax(NumberTriple),
    Row(NumberTriple),
    /// Neither a keyword, nor three numbers.
    Bad,
}

impl View for CubeLine {
    type V = LineView;

    open spec fn view(&self) -> LineView {
        match self {
            CubeLine::Skip => LineView::Skip,
            CubeLine::Title(t) => LineView::Title(t@),
            CubeLine::Size(v) => LineView::Size(*v),
            CubeLine::DomainMin(t) => LineView::DomainMin(t@),
            CubeLine::DomainMax(t) => LineView::DomainMax(t@),
            CubeLine::Row(t) => LineView::Row(t@),
            CubeLine::Bad => LineView::Bad,
        }
    }
}

/// Reads one line of a `.cube` file. `starts_alphabetic` tells whether the
/// first character of the trimmed line is alphabetic; it decides between an
/// unknown keyword, which is skipped, and a bad data line.
pub fn classify_line(raw: &Vec<char>, starts_alphabetic: bool) -> (c: CubeLine)
    ensures
        c@ == spec_classify(raw@, starts_alphabetic),
{
    let l = trim_chars(raw, false);
    if l.len() == 0 || l[0] == '#' {
        return CubeLine::Skip;
    }
    let title: Vec<char> = vec!['T', 'I', 'T', 'L', 'E'];
    let size_3d: Vec<char> = vec!['L', 'U', 'T', '_', '3', 'D', '_', 'S', 'I', 'Z', 'E'];
    let size_1d: Vec<char> = vec!['L', 'U', 'T', '_', '1', 'D', '_', 'S', 'I', 'Z', 'E'];
    let domain_min: Vec<char> = vec!['D', 'O', 'M', 'A', 'I', 'N', '_', 'M', 'I', 'N'];
    let domain_max: Vec<char> = vec!['D', 'O', 'M', 'A', 'I', 'N', '_', 'M', 'A', 'X'];
    proof {
        assert(title@ == kw_title());
        assert(size_3d@ == kw_size_3d());
        assert(size_1d@ == kw_size_1d());
        assert(domain_min@ == kw_domain_min());
        assert(domain_max@ == kw_domain_max());
    }
    if starts_with(&l, &title) {
        let rest = copy_range(&l, 5, l.len());
        let unspaced = trim_chars(&rest, false);
        return CubeLine::Title(trim_chars(&unspaced, true));
    }
    if starts_with(&l, &size_3d) {
        let rest = copy_range(&l, 11, l.len());
        let arg = trim_chars(&rest, false);
        return match parse_usize_text(&arg) {
            Some(v) => CubeLine::Size(v),
            None => CubeLine::Skip,
        };
    }
    if starts_with(&l, &size_1d) {
        return CubeLine::Skip;
    }
    if starts_with(&l, &domain_min) {
        let rest = copy_range(&l, 10, l.len());
        return match read_three_numbers(&rest) {
            Some(t) => CubeLine::DomainMin(t),
            None => CubeLine::Skip,
        };
    }
    if starts_with(&l, &domain_max) {
        let rest = copy_range(&l, 10, l.len());
        return match read_three_numbers(&rest) {
            Some(t) => CubeLine::DomainMax(t),
            None => CubeLine::Skip,
        };
    }
    match read_three_numbers(&l) {
        Some(t) => CubeLine::Row(t),
        None => if starts_alphabetic {
            CubeLine::Skip
        } else {
            CubeLine::Bad
        },
    }
}

/// The views of a sequence of triples.
pub open spec fn triples_view(v: Seq<NumberTriple>) -> Seq<(Seq<char>, Seq<char>, Seq<char>)> {
    v.map_values(|t: NumberTriple| t@)
}

/// What the lines read so far have declared.
struct CubeScan {
    size: Option<usize>,
    title: Vec<char>,
    domain_min: Option<NumberTriple>,
    domain_max: Option<NumberTriple>,
    rows: Vec<NumberTriple>,
}

impl View for CubeScan {
    type V = ScanView;

    closed spec fn view(&self) -> ScanView {
        ScanView {
            size: self.size,
            title: self.title@,
            domain_min: opt_triple(self.domain_min),
            domain_max: opt_triple(self.domain_max),
            rows: triples_view(self.rows@),
        }
    }
}

impl CubeScan {
    /// Takes in one more line; false, with nothing changed, for a bad line.
    fn take_line(&mut self, line: CubeLine) -> (ok: bool)
        ensures
            ok == spec_apply_line(old(self)@, line@) is Some,
            ok ==> final(self)@ == spec_apply_line(old(self)@, line@)->0,
            final(self).rows.len() <= old(self).rows.len() + 1,
    {
        match line {
            CubeLine::Skip => true,
            CubeLine::Title(t) => {
                self.title = t;
                true
            },
            CubeLine::Size(v) => {
                self.size = Some(v);
                true
            },
            CubeLine::DomainMin(t) => {
                self.domain_min = Some(t);
                true
            },
            CubeLine::DomainMax(t) => {
                self.domain_max = Some(t);
                true
            },
            CubeLine::Row(t) => {
                let ghost tv = t@;
                self.rows.push(t);
                assert(triples_view(self.rows@) =~= triples_view(old(self).rows@).push(tv));
                true
            },
            CubeLine::Bad => false,
        }
    }
}

/// The content of a `.cube` file: the grid size per axis, the title, the
/// domain bounds where declared (the defaults are 0 and 1), and the
/// `size³` data rows in `[r][g][b]` order, each as the text of its three
/// numbers.
pub struct CubeFile {
    pub size: usize,
    pub title: Vec<char>,
    pub domain_min: Option<NumberTriple>,
    pub domain_max: Option<NumberTriple>,
    pub rows: Vec<NumberTriple>,
}

impl View for CubeFile {
    type V = CubeView;

    open spec fn view(&self) -> CubeView {
        CubeView {
            size: self.size,
            title: self.title@,
            domain_min: opt_triple(self.domain_min),
            domain_max: opt_triple(self.domain_max),
            rows: triples_view(self.rows@),
        }
    }
}

/// The view of a parse result.
pub open spec fn cube_result(r: Result<CubeFile, CubeParseError>) -> Result<CubeView, CubeParseError> {
    match r {
        Ok(f) => Ok(f@),
        Err(e) => Err(e),
    }
}

impl CubeFile {
    /// Parses the text of a `.cube` file.
    ///
    /// `TITLE "name"`, `LUT_3D_SIZE N` (required, 2–256), `DOMAIN_MIN r g b`
    /// and `DOMAIN_MAX r g b` are read; `LUT_1D_SIZE`, blank lines, `#`
    /// comments and other words are skipped; every other line must begin
    /// with three numbers, and is a data row. At least `N³` rows must be
    /// present; those past `N³` are dropped.
    pub fn parse(text: &str) -> (r: Result<CubeFile, CubeParseError>)
        ensures
            cube_result(r) == spec_parse_cube(text@),
    {
        let s = chars_of(text);
        let mut st = CubeScan {
            size: None,
            title: Vec::new(),
            domain_min: None,
            domain_max: None,
            rows: Vec::new(),
        };
        assert(st@.title =~= Seq::<char>::empty());
        assert(st@.rows =~= Seq::<(Seq<char>, Seq<char>, Seq<char>)>::empty());
        let mut i: usize = 0;
        let mut n: usize = 0;
        while i < s.len()
            invariant
                i <= s.len(),
                n <= i,
                st.rows.len() <= n,
                scan_from(st@, s@, i as int, n as int) == scan_from(scan_start(), text@, 0, 0),
            decreases s.len() - i,
        {
            let e = line_end_from(&s, i);
            let raw = copy_range(&s, i, e);
            let l = trim_chars(&raw, false);
            let alpha = if l.len() > 0 {
                is_alphabetic(l[0])
            } else {
                false
            };
            let line = classify_line(&raw, alpha);
            if !st.take_line(line) {
                return Err(CubeParseError::BadDataLine(n + 1));
            }
            n += 1;
            if e >= s.len() {
                i = s.len();
            } else {
                i = e + 1;
            }
        }
        let count = match check_lut_size(st.size, st.rows.len()) {
            Ok(count) => count,
            Err(e) => return Err(e),
        };
        let size = match st.size {
            Some(v) => v,
            None => return Err(CubeParseError::MissingSize),
        };
        let ghost before = st.rows@;
        st.rows.truncate(count);
        assert(triples_view(st.rows@) =~= triples_view(before).take(count as int));
        Ok(CubeFile {
            size,
            title: st.title,
            domain_min: st.domain_min,
            domain_max: st.domain_max,
            rows: st.rows,
        })
    }
}


/// Every triple is the text of three numbers.
pub open spec fn all_numbers(rows: Seq<(Seq<char>, Seq<char>, Seq<char>)>) -> bool {
    forall|k: int|
        0 <= k < rows.len() ==> {
            &&& is_number_text(#[trigger] rows[k].0)
            &&& is_number_text(rows[k].1)
            &&& is_number_text(rows[k].2)
        }
}

proof fn lemma_scan_keeps_numbers(st: ScanView, s: Seq<char>, i: int, n: int)
    requires
        all_numbers(st.rows),
        st.domain_min matches Some(t) ==> all_numbers(seq![t]),
        st.domain_max matches Some(t) ==> all_numbers(seq![t]),
    ensures
        scan_from(st, s, i, n) matches Ok(fin) ==> {
            &&& all_numbers(fin.rows)
            &&& fin.domain_min matches Some(t) ==> all_numbers(seq![t])
            &&& fin.domain_max matches Some(t) ==> all_numbers(seq![t])
        },
    decreases s.len() - i,
{
    if 0 <= i < s.len() {
        lemma_line_end(s, i);
        let e = line_end(s, i);
        let raw = s.subrange(i, e);
        let l = trim(raw);
        let alpha = l.len() > 0 && char_is_alphabetic(l[0]);
        let line = spec_classify(raw, alpha);
        if let Some(next) = spec_apply_line(st, line) {
            match line {
                LineView::Row(t) => {
                    assert(next.rows == st.rows.push(t));
                    assert(all_numbers(seq![t]));
                    assert forall|k: int| 0 <= k < next.rows.len() implies {
                        &&& is_number_text(#[trigger] next.rows[k].0)
                        &&& is_number_text(next.rows[k].1)
                        &&& is_number_text(next.rows[k].2)
                    } by {
                        if k < st.rows.len() {
                            assert(next.rows[k] == st.rows[k]);
                            assert(is_number_text(st.rows[k].0));
                        } else {
                            assert(next.rows[k] == seq![t][0]);
                            assert(is_number_text(seq![t][0].0));
                        }
                    }
                },
                LineView::DomainMin(t) => {
                    assert(all_numbers(seq![t]));
                },
                LineView::DomainMax(t) => {
                    assert(all_numbers(seq![t]));
                },
                _ => {},
            }
            if e < s.len() {
                lemma_scan_keeps_numbers(next, s, e + 1, n + 1);
            }
        }
    }
}

/// A parsed `.cube` file has a grid size between 2 and 256 and exactly
/// `size³` data rows, and every number of its rows and domain bounds is
/// text that `f32::from_str` accepts.
pub proof fn law_parsed_cube_shape(text: Seq<char>)
    ensures
        spec_parse_cube(text) matches Ok(v) ==> {
            &&& MIN_LUT_SIZE <= v.size <= MAX_LUT_SIZE
            &&& v.rows.len() == v.size * v.size * v.size
            &&& all_numbers(v.rows)
            &&& v.domain_min matches Some(t) ==> all_numbers(seq![t])
            &&& v.domain_max matches Some(t) ==> all_numbers(seq![t])
        },
{
    let st0 = scan_start();
    assert(all_numbers(st0.rows));
    lemma_scan_keeps_numbers(st0, text, 0, 0);
    if let Ok(v) = spec_parse_cube(text) {
        let st = scan_from(st0, text, 0, 0)->Ok_0;
        let s = st.size->0;
        assert(s * s <= 65536) by (nonlinear_arith)
            requires
                s <= 256,
        ;
        assert(s * s * s <= 16777216) by (nonlinear_arith)
            requires
                s <= 256,
                s * s <= 65536,
        ;
        assert forall|k: int| 0 <= k < v.rows.len() implies {
            &&& is_number_text(#[trigger] v.rows[k].0)
            &&& is_number_text(v.rows[k].1)
            &&& is_number_text(v.rows[k].2)
        } by {
            assert(v.rows[k] == st.rows[k]);
            assert(is_number_text(st.rows[k].0));
        }
    }
}

/// The outcome of parsing, by what the lines declared: the first bad line
/// is reported; otherwise a missing `LUT_3D_SIZE`, a size outside 2–256, or
/// fewer than `size³` rows is reported, in that order; otherwise the file
/// has the declared size, title and domain bounds, and its first `size³`
/// rows in file order.
pub proof fn law_cube_outcome(text: Seq<char>)
    ensures
        scan_from(scan_start(), text, 0, 0) matches Err(k) ==> spec_parse_cube(text) == Err::<
            CubeView,
            CubeParseError,
        >(CubeParseError::BadDataLine(k as usize)),
        scan_from(scan_start(), text, 0, 0) matches Ok(st) ==> {
            let found = st.rows.len() as usize;
            let s = st.size->0;
            &&& st.size is None ==> spec_parse_cube(text) == Err::<CubeView, CubeParseError>(
                CubeParseError::MissingSize,
            )
            &&& st.size is Some && (s < MIN_LUT_SIZE || s > MAX_LUT_SIZE) ==> spec_parse_cube(text)
                == Err::<CubeView, CubeParseError>(CubeParseError::InvalidSize(s))
            &&& st.size is Some && MIN_LUT_SIZE <= s <= MAX_LUT_SIZE && found < s * s * s
                ==> spec_parse_cube(text) == Err::<CubeView, CubeParseError>(
                CubeParseError::InsufficientData { expected: (s * s * s) as usize, found },
            )
            &&& st.size is Some && MIN_LUT_SIZE <= s <= MAX_LUT_SIZE && found >= s * s * s
                ==> spec_parse_cube(text) == Ok::<CubeView, CubeParseError>(
                CubeView {
                    size: s,
                    title: st.title,
                    domain_min: st.domain_min,
                    domain_max: st.domain_max,
                    rows: st.rows.take(s * s * s),
                },
            )
        },
{
    if let Ok(st) = scan_from(scan_start(), text, 0, 0) {
        if let Some(s) = st.size {
            if MIN_LUT_SIZE <= s <= MAX_LUT_SIZE {
                assert(s * s <= 65536) by (nonlinear_arith)
                    requires
                        s <= 256,
                ;
                assert(s * s * s <= 16777216) by (nonlinear_arith)
                    requires
                        s <= 256,
                        s * s <= 65536,
                ;
            }
        }
    }
}

proof fn lemma_line_end_push(s: Seq<char>, i: int)
    requires
        0 <= i <= s.len(),
    ensures
        line_end(s.push('\n'), i) == line_end(s, i),
    decreases s.len() - i,
{
    let t = s.push('\n');
    assert(t[s.len() as int] == '\n');
    if i < s.len() {
        assert(t[i] == s[i]);
        if s[i] != '\n' {
            lemma_line_end_push(s, i + 1);
        }
    }
}

proof fn lemma_scan_push_newline(st: ScanView, s: Seq<char>, i: int, n: int)
    requires
        0 <= i <= s.len(),
    ensures
        scan_from(st, s.push('\n'), i, n) == scan_from(st, s, i, n),
    decreases s.len() - i,
{
    let t = s.push('\n');
    lemma_line_end_push(s, i);
    lemma_line_end(s, i);
    let e = line_end(s, i);
    let raw = s.subrange(i, e);
    let alpha = trim(raw).len() > 0 && char_is_alphabetic(trim(raw)[0]);
    if i < s.len() {
        assert(t.subrange(i, e) =~= raw);
        match spec_apply_line(st, spec_classify(raw, alpha)) {
            None => {},
            Some(next) => {
                if e < s.len() {
                    lemma_scan_push_newline(next, s, e + 1, n + 1);
                } else {
                    assert(scan_from(next, t, e + 1, n + 1) == Ok::<ScanView, int>(next));
                }
            },
        }
    } else {
        assert(line_end(t, i) == i);
        assert(t.subrange(i, i) =~= Seq::<char>::empty());
        assert(trim(Seq::<char>::empty()) =~= Seq::<char>::empty());
        assert(spec_classify(t.subrange(i, i), false) == LineView::Skip);
        assert(scan_from(st, t, i + 1, n + 1) == Ok::<ScanView, int>(st));
    }
}

/// A last line without a newline is read like any other: a text parses
/// exactly as the same text followed by a newline does.
pub proof fn law_final_newline_changes_nothing(text: Seq<char>)
    ensures
        spec_parse_cube(text.push('\n')) == spec_parse_cube(text),
{
    lemma_scan_push_newline(scan_start(), text, 0, 0);
}

/// A word: non-empty, with no white space.
pub open spec fn is_word(a: Seq<char>) -> bool {
    a.len() > 0 && forall|k: int| 0 <= k < a.len() ==> !is_space(#[trigger] a[k])
}

/// Three words separated by single spaces.
pub open spec fn spaced3(a: Seq<char>, b: Seq<char>, c: Seq<char>) -> Seq<char> {
    a + seq![' '] + b + seq![' '] + c
}

proof fn lemma_word_end_at(s: Seq<char>, i: int, a: Seq<char>, m: int)
    requires
        0 <= i,
        i + a.len() <= s.len(),
        forall|k: int| 0 <= k < a.len() ==> s[i + k] == #[trigger] a[k],
        is_word(a),
        i + a.len() == s.len() || is_space(s[i + a.len()]),
        0 <= m <= a.len(),
    ensures
        word_end(s, i + m) == i + a.len(),
    decreases a.len() - m,
{
    if m < a.len() {
        assert(s[i + m] == a[m]);
        lemma_word_end_at(s, i, a, m + 1);
    }
}

/// The words of `s` from `i` on are `a`, `b`, `c` when `s[i..]` is these
/// three words separated by single spaces.
proof fn lemma_tokens_three(s: Seq<char>, i: int, a: Seq<char>, b: Seq<char>, c: Seq<char>)
    requires
        0 <= i <= s.len(),
        s.subrange(i, s.len() as int) == spaced3(a, b, c),
        is_word(a),
        is_word(b),
        is_word(c),
    ensures
        tokens_from(s, i) == seq![a, b, c],
{
    let u = spaced3(a, b, c);
    let pb = i + a.len() + 1;
    let pc = pb + b.len() + 1;
    assert(u.len() == a.len() + b.len() + c.len() + 2);
    assert forall|k: int| 0 <= k < u.len() implies s[i + k] == #[trigger] u[k] by {
        assert(s.subrange(i, s.len() as int)[k] == s[i + k]);
    }
    assert forall|k: int| 0 <= k < a.len() implies s[i + k] == #[trigger] a[k] by {
        assert(u[k] == a[k]);
    }
    assert forall|k: int| 0 <= k < b.len() implies s[pb + k] == #[trigger] b[k] by {
        assert(u[a.len() + 1 + k] == b[k]);
        assert(s[i + (a.len() + 1 + k)] == u[a.len() + 1 + k]);
    }
    assert forall|k: int| 0 <= k < c.len() implies s[pc + k] == #[trigger] c[k] by {
        assert(u[a.len() + b.len() + 2 + k] == c[k]);
        assert(s[i + (a.len() + b.len() + 2 + k)] == u[a.len() + b.len() + 2 + k]);
    }
    assert(s[i + a.len()] == u[a.len() as int]);
    assert(s[pb + b.len()] == u[(a.len() + 1 + b.len()) as int]);
    assert(is_space(s[i + a.len()]));
    assert(is_space(s[pb + b.len()]));
    assert(!is_space(s[i]) && !is_space(s[pb]) && !is_space(s[pc])) by {
        assert(s[i + 0] == a[0]);
        assert(s[pb + 0] == b[0]);
        assert(s[pc + 0] == c[0]);
    }
    lemma_word_end_at(s, i, a, 0);
    lemma_word_end_at(s, pb, b, 0);
    lemma_word_end_at(s, pc, c, 0);
    assert(s.subrange(i, i + a.len()) =~= a);
    assert(s.subrange(pb, pb + b.len()) =~= b);
    assert(s.subrange(pc, pc + c.len()) =~= c);
    assert(tokens_from(s, pc + c.len()) =~= Seq::<Seq<char>>::empty());
    assert(tokens_from(s, pc) == seq![c] + tokens_from(s, pc + c.len()));
    assert(tokens_from(s, pb + b.len()) == tokens_from(s, pc));
    assert(tokens_from(s, pb) == seq![b] + tokens_from(s, pb + b.len()));
    assert(tokens_from(s, i + a.len()) == tokens_from(s, pb));
    assert(tokens_from(s, i) == seq![a] + tokens_from(s, i + a.len()));
    assert(tokens_from(s, i) =~= seq![a, b, c]);
}

/// A number text starts with a sign, a digit, a point, or the first letter
/// of `inf` or `nan`: never with `#` or the first letter of a keyword.
proof fn lemma_number_start(a: Seq<char>)
    requires
        is_number_text(a),
    ensures
        a.len() > 0,
        a[0] != '#' && a[0] != 'T' && a[0] != 'L' && a[0] != 'D',
{
    if !(a.len() > 0 && (a[0] == '+' || a[0] == '-')) {
        let u = a.skip(0);
        assert(u =~= a);
        if spells(u, seq!['i', 'n', 'f']) {
            assert(same_letter(u[0], 'i'));
        } else if spells(u, seq!['i', 'n', 'f', 'i', 'n', 'i', 't', 'y']) {
            assert(same_letter(u[0], 'i'));
        } else if spells(u, seq!['n', 'a', 'n']) {
            assert(same_letter(u[0], 'n'));
        } else {
            assert(is_decimal(u));
        }
    }
}

/// A line is itself once trimmed when it starts and ends with characters
/// other than white space.
proof fn lemma_trim_unspaced(l: Seq<char>)
    requires
        l.len() > 0,
        !is_space(l[0]),
        !is_space(l[l.len() - 1]),
    ensures
        trim(l) == l,
{
    assert(skip_fwd(l, 0, false) == 0);
    assert(skip_back(l, 0, l.len() as int, false) == l.len());
    assert(l.subrange(0, l.len() as int) =~= l);
}

/// The line that a ten-letter keyword starting with `D` and three words
/// separated by single spaces make: it is its own trim, it carries the
/// keyword and no other, and its words after the keyword are the three.
proof fn lemma_domain_line(kw: Seq<char>, a: Seq<char>, b: Seq<char>, c: Seq<char>)
    requires
        kw.len() == 10,
        kw[0] == 'D',
        is_word(a),
        is_word(b),
        is_word(c),
    ensures
        trim(kw + seq![' '] + spaced3(a, b, c)) == kw + seq![' '] + spaced3(a, b, c),
        tokens_from((kw + seq![' '] + spaced3(a, b, c)).skip(10), 0) == seq![a, b, c],
        !has_prefix(kw + seq![' '] + spaced3(a, b, c), kw_title()),
        !has_prefix(kw + seq![' '] + spaced3(a, b, c), kw_size_3d()),
        !has_prefix(kw + seq![' '] + spaced3(a, b, c), kw_size_1d()),
        (kw + seq![' '] + spaced3(a, b, c)).take(10) == kw,
{
    let u = spaced3(a, b, c);
    let l = kw + seq![' '] + u;
    assert(u.len() == a.len() + b.len() + c.len() + 2);
    assert(l[0] == 'D');
    assert(l[l.len() - 1] == u[u.len() - 1]);
    assert(u[u.len() - 1] == c[c.len() - 1]);
    lemma_trim_unspaced(l);
    assert(l.take(10) =~= kw);
    assert(l.take(5)[0] == 'D');
    assert(l.take(11)[0] == 'D');
    let t = l.skip(10);
    assert(t[0] == ' ');
    assert(t.subrange(1, t.len() as int) =~= u);
    lemma_tokens_three(t, 1, a, b, c);
    assert(tokens_from(t, 0) == tokens_from(t, 1));
}

/// A `DOMAIN_MAX` line gives the upper domain bound `(r, g, b)` with the
/// three numbers in the order they are written.
pub proof fn law_domain_max_in_written_order(
    r: Seq<char>,
    g: Seq<char>,
    b: Seq<char>,
    starts_alphabetic: bool,
)
    requires
        is_word(r) && is_number_text(r),
        is_word(g) && is_number_text(g),
        is_word(b) && is_number_text(b),
    ensures
        spec_classify(kw_domain_max() + seq![' '] + spaced3(r, g, b), starts_alphabetic)
            == LineView::DomainMax((r, g, b)),
{
    let l = kw_domain_max() + seq![' '] + spaced3(r, g, b);
    lemma_domain_line(kw_domain_max(), r, g, b);
    assert(l.take(10)[8] != kw_domain_min()[8]);
    assert(has_prefix(l, kw_domain_max()));
}

/// A `DOMAIN_MIN` line gives the lower domain bound `(r, g, b)` with the
/// three numbers in the order they are written.
pub proof fn law_domain_min_in_written_order(
    r: Seq<char>,
    g: Seq<char>,
    b: Seq<char>,
    starts_alphabetic: bool,
)
    requires
        is_word(r) && is_number_text(r),
        is_word(g) && is_number_text(g),
        is_word(b) && is_number_text(b),
    ensures
        spec_classify(kw_domain_min() + seq![' '] + spaced3(r, g, b), starts_alphabetic)
            == LineView::DomainMin((r, g, b)),
{
    let l = kw_domain_min() + seq![' '] + spaced3(r, g, b);
    lemma_domain_line(kw_domain_min(), r, g, b);
    assert(has_prefix(l, kw_domain_min()));
}

/// A line of three numbers separated by spaces is a data row `(r, g, b)`
/// with the numbers in the order they are written.
pub proof fn law_row_in_written_order(
    r: Seq<char>,
    g: Seq<char>,
    b: Seq<char>,
    starts_alphabetic: bool,
)
    requires
        is_word(r) && is_number_text(r),
        is_word(g) && is_number_text(g),
        is_word(b) && is_number_text(b),
    ensures
        spec_classify(spaced3(r, g, b), starts_alphabetic) == LineView::Row((r, g, b)),
{
    let l = spaced3(r, g, b);
    lemma_number_start(r);
    assert(l.len() == r.len() + g.len() + b.len() + 2);
    assert(l[0] == r[0]);
    assert(l[l.len() - 1] == b[b.len() - 1]);
    lemma_trim_unspaced(l);
    assert(l.len() >= 5 ==> l.take(5)[0] == r[0]);
    assert(l.len() >= 10 ==> l.take(10)[0] == r[0]);
    assert(l.len() >= 11 ==> l.take(11)[0] == r[0]);
    assert(l.subrange(0, l.len() as int) =~= l);
    lemma_tokens_three(l, 0, r, g, b);
}

/// The grid sizes that a file may declare run from 2 to 256.
pub proof fn law_size_limits()
    ensures
        MIN_LUT_SIZE == 2,
        MAX_LUT_SIZE == 256,
{
}

/// The keywords are spelled as the `.cube` format has them.
pub proof fn law_keyword_spelling()
    ensures
        kw_title() == "TITLE"@,
        kw_size_3d() == "LUT_3D_SIZE"@,
        kw_size_1d() == "LUT_1D_SIZE"@,
        kw_domain_min() == "DOMAIN_MIN"@,
        kw_domain_max() == "DOMAIN_MAX"@,
{
    reveal_strlit("TITLE");
    reveal_strlit("LUT_3D_SIZE");
    reveal_strlit("LUT_1D_SIZE");
    reveal_strlit("DOMAIN_MIN");
    reveal_strlit("DOMAIN_MAX");
    assert(kw_title() =~= "TITLE"@);
    assert(kw_size_3d() =~= "LUT_3D_SIZE"@);
    assert(kw_size_1d() =~= "LUT_1D_SIZE"@);
    assert(kw_domain_min() =~= "DOMAIN_MIN"@);
    assert(kw_domain_max() =~= "DOMAIN_MAX"@);
}

/// A `TITLE "name"` line gives the title `name`, without its quotes.
pub proof fn law_title_without_quotes(name: Seq<char>, starts_alphabetic: bool)
    requires
        name.len() > 0,
        forall|k: int| 0 <= k < name.len() ==> #[trigger] name[k] != '"',
        !is_space(name[0]),
        !is_space(name[name.len() - 1]),
    ensures
        spec_classify(kw_title() + seq![' ', '"'] + name + seq!['"'], starts_alphabetic)
            == LineView::Title(name),
{
    let l = kw_title() + seq![' ', '"'] + name + seq!['"'];
    assert(l[0] == 'T');
    assert(l[l.len() - 1] == '"');
    lemma_trim_unspaced(l);
    assert(l.take(5) =~= kw_title());
    let r = l.skip(5);
    assert(r =~= seq![' ', '"'] + name + seq!['"']);
    assert(skip_fwd(r, 1, false) == 1);
    assert(skip_fwd(r, 0, false) == 1);
    assert(r[r.len() - 1] == '"');
    assert(skip_back(r, 1, r.len() as int, false) == r.len());
    let q = trim(r);
    assert(q =~= seq!['"'] + name + seq!['"']);
    assert(q[1] == name[0]);
    assert(skip_fwd(q, 1, true) == 1);
    assert(skip_fwd(q, 0, true) == 1);
    assert(q[q.len() - 2] == name[name.len() - 1]);
    assert(skip_back(q, 1, q.len() - 1, true) == q.len() - 1);
    assert(skip_back(q, 1, q.len() as int, true) == q.len() - 1);
    assert(trim_by(q, true) =~= name);
}

proof fn lemma_digit_chars_value(b: Seq<u8>)
    requires
        forall|k: int| 0 <= k < b.len() ==> is_digit(#[trigger] b[k]),
    ensures
        digit_chars_value(ascii_chars(b)) == digits_value(b),
        forall|k: int| 0 <= k < b.len() ==> is_digit_char(#[trigger] ascii_chars(b)[k]),
    decreases b.len(),
{
    if b.len() > 0 {
        let p = b.drop_last();
        assert forall|k: int| 0 <= k < p.len() implies is_digit(#[trigger] p[k]) by {
            assert(p[k] == b[k]);
        }
        lemma_digit_chars_value(p);
        assert(ascii_chars(b).drop_last() =~= ascii_chars(p));
        assert(is_digit(b[b.len() - 1]));
    }
    assert forall|k: int| 0 <= k < b.len() implies is_digit_char(#[trigger] ascii_chars(b)[k]) by {
        assert(is_digit(b[k]));
    }
}

proof fn lemma_digits_end_full(d: Seq<char>, i: int)
    requires
        0 <= i <= d.len(),
        forall|k: int| 0 <= k < d.len() ==> is_digit_char(#[trigger] d[k]),
    ensures
        digits_end(d, i) == d.len(),
    decreases d.len() - i,
{
    if i < d.len() {
        assert(is_digit_char(d[i]));
        lemma_digits_end_full(d, i + 1);
    }
}

/// A `LUT_3D_SIZE n` line, with `n` written in decimal, declares the grid
/// size `n`.
pub proof fn law_size_declaration(n: usize, starts_alphabetic: bool)
    ensures
        spec_classify(kw_size_3d() + seq![' '] + ascii_chars(decimal_bytes(n as nat)), starts_alphabetic)
            == LineView::Size(n),
{
    let b = decimal_bytes(n as nat);
    let d = ascii_chars(b);
    law_decimal_roundtrip(n as nat);
    lemma_digit_chars_value(b);
    lemma_digits_end_full(d, 0);
    let l = kw_size_3d() + seq![' '] + d;
    assert(l[0] == 'L');
    assert(l[l.len() - 1] == d[d.len() - 1]);
    assert(is_digit_char(d[d.len() - 1]));
    lemma_trim_unspaced(l);
    assert(l.take(5)[0] == 'L');
    assert(l.take(11) =~= kw_size_3d());
    let r = l.skip(11);
    assert(r =~= seq![' '] + d);
    assert(is_digit_char(d[0]));
    assert(skip_fwd(r, 1, false) == 1);
    assert(skip_fwd(r, 0, false) == 1);
    assert(r[r.len() - 1] == d[d.len() - 1]);
    assert(skip_back(r, 1, r.len() as int, false) == r.len());
    assert(trim(r) =~= d);
    assert(d[0] != '+');
    assert(parse_usize(d) == Some(n));
}

proof fn lemma_line_end_shift(p: Seq<char>, b: Seq<char>, j: int)
    requires
        0 <= j <= b.len(),
    ensures
        line_end(p + b, p.len() + j) == p.len() + line_end(b, j),
    decreases b.len() - j,
{
    let s = p + b;
    if j < b.len() {
        assert(s[p.len() + j] == b[j]);
        if b[j] != '\n' {
            lemma_line_end_shift(p, b, j + 1);
        }
    }
}

proof fn lemma_scan_shift(st: ScanView, p: Seq<char>, b: Seq<char>, j: int, n: int)
    requires
        0 <= j <= b.len(),
    ensures
        scan_from(st, p + b, p.len() + j, n) == scan_from(st, b, j, n),
    decreases b.len() - j,
{
    let s = p + b;
    if j < b.len() {
        lemma_line_end_shift(p, b, j);
        lemma_line_end(b, j);
        let e = line_end(b, j);
        assert(s.subrange(p.len() + j, p.len() + e) =~= b.subrange(j, e));
        let raw = b.subrange(j, e);
        let alpha = trim(raw).len() > 0 && char_is_alphabetic(trim(raw)[0]);
        if let Some(next) = spec_apply_line(st, spec_classify(raw, alpha)) {
            if e < b.len() {
                lemma_scan_shift(next, p, b, e + 1, n + 1);
            }
        }
    }
}

proof fn lemma_line_end_first(a: Seq<char>, b: Seq<char>, i: int)
    requires
        0 <= i <= a.len(),
        forall|k: int| 0 <= k < a.len() ==> #[trigger] a[k] != '\n',
    ensures
        line_end(a + seq!['\n'] + b, i) == a.len(),
    decreases a.len() - i,
{
    let s = a + seq!['\n'] + b;
    if i < a.len() {
        assert(s[i] == a[i]);
        lemma_line_end_first(a, b, i + 1);
    } else {
        assert(s[i] == '\n');
    }
}

/// Lines are read one at a time, in order, and numbered from 1: the first
/// line (the text before the first newline) is taken in first, and what
/// follows is read as if it were a text of its own, numbered from the next
/// line on.
pub proof fn law_lines_in_order(st: ScanView, a: Seq<char>, b: Seq<char>, n: int)
    requires
        forall|k: int| 0 <= k < a.len() ==> #[trigger] a[k] != '\n',
    ensures
        scan_from(st, a + seq!['\n'] + b, 0, n) == match spec_apply_line(
            st,
            spec_classify(a, trim(a).len() > 0 && char_is_alphabetic(trim(a)[0])),
        ) {
            None => Err(n + 1),
            Some(next) => scan_from(next, b, 0, n + 1),
        },
{
    let p = a + seq!['\n'];
    let s = p + b;
    assert(s =~= a + seq!['\n'] + b);
    lemma_line_end_first(a, b, 0);
    assert(s.subrange(0, a.len() as int) =~= a);
    let alpha = trim(a).len() > 0 && char_is_alphabetic(trim(a)[0]);
    if let Some(next) = spec_apply_line(st, spec_classify(a, alpha)) {
        lemma_scan_shift(next, p, b, 0, n + 1);
        if b.len() == 0 {
            assert(scan_from(next, s, a.len() + 1int, n + 1) == Ok::<ScanView, int>(next));
        }
    }
}

/// What each kind of line does to the declarations: a data row is added
/// after the rows read so far, a title, a size or a domain bound replaces
/// the one declared before, a skipped line changes nothing, and a bad line
/// stops the reading.
pub proof fn law_line_effects(st: ScanView, t: (Seq<char>, Seq<char>, Seq<char>), title: Seq<char>, size: usize)
    ensures
        spec_apply_line(st, LineView::Row(t)) matches Some(x) && x.rows.len() == st.rows.len() + 1
            && x.rows[st.rows.len() as int] == t && x.rows.take(st.rows.len() as int) == st.rows
            && x.size == st.size && x.title == st.title && x.domain_min == st.domain_min
            && x.domain_max == st.domain_max,
        spec_apply_line(st, LineView::Title(title)) == Some(ScanView { title, ..st }),
        spec_apply_line(st, LineView::Size(size)) == Some(ScanView { size: Some(size), ..st }),
        spec_apply_line(st, LineView::DomainMin(t)) == Some(ScanView { domain_min: Some(t), ..st }),
        spec_apply_line(st, LineView::DomainMax(t)) == Some(ScanView { domain_max: Some(t), ..st }),
        spec_apply_line(st, LineView::Skip) == Some(st),
        spec_apply_line(st, LineView::Bad) is None,
{
    assert(st.rows.push(t).take(st.rows.len() as int) =~= st.rows);
}

} // verus!

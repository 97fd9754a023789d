//! Annotation comments of the form `//~`, `//~^`, `//~|`: their grammar, the
//! severity keywords they may carry, and their resolution to the source line
//! each one describes.

use crate::text::{
    caret_end, chars_to_string, colon_end, copy_range, dec_int, digit_char_test, digit_end,
    digits_val, is_digit, lemma_caret_end, lemma_digit_end, lemma_line_end,
    lemma_lines_len_bound, lemma_rev_end, lemma_trim_sub, lemma_ws_end, line_end, parse_usize,
    push_all, push_i32_dec, rev_end, scan_caret_end, scan_colon_end, scan_digit_end,
    scan_line_end, scan_rev_end, scan_rws_begin, scan_word_end, scan_ws_end, spec_lines,
    split_lines, str_to_char_vec, trim_sub, word_end, ws_end,
};
use crate::ConvertError;
use vstd::prelude::*;

verus! {

// ---------------------------------------------------------------------------
// Severity keywords.

/// The kinds of compiler message an annotation can announce.
#[derive(Clone, Copy, Debug, PartialEq, Eq, Structural)]
pub enum RustcErrorKind {
    Help,
    Error,
    Note,
    Suggestion,
    Warning,
}

/// `a` equals the upper-case ASCII letter `k`, ignoring case.
pub open spec fn eq_ci(a: char, k: char) -> bool {
    a == k || a as u32 == k as u32 + 32
}

pub open spec fn is_kw_help(p: Seq<char>) -> bool {
    p.len() == 4 && eq_ci(p[0], 'H') && eq_ci(p[1], 'E') && eq_ci(p[2], 'L') && eq_ci(p[3], 'P')
}

pub open spec fn is_kw_error(p: Seq<char>) -> bool {
    p.len() == 5 && eq_ci(p[0], 'E') && eq_ci(p[1], 'R') && eq_ci(p[2], 'R') && eq_ci(p[3], 'O')
        && eq_ci(p[4], 'R')
}

pub open spec fn is_kw_note(p: Seq<char>) -> bool {
    p.len() == 4 && eq_ci(p[0], 'N') && eq_ci(p[1], 'O') && eq_ci(p[2], 'T') && eq_ci(p[3], 'E')
}

pub open spec fn is_kw_suggestion(p: Seq<char>) -> bool {
    p.len() == 10 && eq_ci(p[0], 'S') && eq_ci(p[1], 'U') && eq_ci(p[2], 'G') && eq_ci(p[3], 'G')
        && eq_ci(p[4], 'E') && eq_ci(p[5], 'S') && eq_ci(p[6], 'T') && eq_ci(p[7], 'I') && eq_ci(
        p[8],
        'O',
    ) && eq_ci(p[9], 'N')
}

pub open spec fn is_kw_warn(p: Seq<char>) -> bool {
    p.len() == 4 && eq_ci(p[0], 'W') && eq_ci(p[1], 'A') && eq_ci(p[2], 'R') && eq_ci(p[3], 'N')
}

pub open spec fn is_kw_warning(p: Seq<char>) -> bool {
    p.len() == 7 && eq_ci(p[0], 'W') && eq_ci(p[1], 'A') && eq_ci(p[2], 'R') && eq_ci(p[3], 'N')
        && eq_ci(p[4], 'I') && eq_ci(p[5], 'N') && eq_ci(p[6], 'G')
}

/// The severity named by a word: the part before the first `':'`, compared
/// case-insensitively against the keyword vocabulary.  `None` when the word
/// names no severity, in which case it belongs to the message.
pub open spec fn spec_kind_of_word(w: Seq<char>) -> Option<RustcErrorKind> {
    let p = w.take(colon_end(w, 0));
    if is_kw_help(p) {
        Some(RustcErrorKind::Help)
    } else if is_kw_error(p) {
        Some(RustcErrorKind::Error)
    } else if is_kw_note(p) {
        Some(RustcErrorKind::Note)
    } else if is_kw_suggestion(p) {
        Some(RustcErrorKind::Suggestion)
    } else if is_kw_warn(p) || is_kw_warning(p) {
        Some(RustcErrorKind::Warning)
    } else {
        None
    }
}

/// Case-insensitive comparison of one character against an upper-case letter.
fn ci(c: char, up: char) -> (r: bool)
    ensures
        r == eq_ci(c, up),
{
    c == up || (c as u32) == (up as u32) + 32
}

/// The severity named by the word `v[a..b]`.
pub(crate) fn kind_in_range(v: &Vec<char>, a: usize, b: usize) -> (k: Option<RustcErrorKind>)
    requires
        a <= b <= v.len(),
    ensures
        k == spec_kind_of_word(v@.subrange(a as int, b as int)),
{
    let w = copy_range(v, a, b);
    let c = scan_colon_end(&w, 0);
    let ghost p = v@.subrange(a as int, b as int).take(colon_end(v@.subrange(a as int, b as int), 0));
    proof {
        assert(p =~= w@.take(c as int));
    }
    if c == 4 && ci(w[0], 'H') && ci(w[1], 'E') && ci(w[2], 'L') && ci(w[3], 'P') {
        Some(RustcErrorKind::Help)
    } else if c == 5 && ci(w[0], 'E') && ci(w[1], 'R') && ci(w[2], 'R') && ci(w[3], 'O') && ci(
        w[4],
        'R',
    ) {
        Some(RustcErrorKind::Error)
    } else if c == 4 && ci(w[0], 'N') && ci(w[1], 'O') && ci(w[2], 'T') && ci(w[3], 'E') {
        Some(RustcErrorKind::Note)
    } else if c == 10 && ci(w[0], 'S') && ci(w[1], 'U') && ci(w[2], 'G') && ci(w[3], 'G') && ci(
        w[4],
        'E',
    ) && ci(w[5], 'S') && ci(w[6], 'T') && ci(w[7], 'I') && ci(w[8], 'O') && ci(w[9], 'N') {
        Some(RustcErrorKind::Suggestion)
    } else if (c == 4 && ci(w[0], 'W') && ci(w[1], 'A') && ci(w[2], 'R') && ci(w[3], 'N')) || (c
        == 7 && ci(w[0], 'W') && ci(w[1], 'A') && ci(w[2], 'R') && ci(w[3], 'N') && ci(w[4], 'I')
        && ci(w[5], 'N') && ci(w[6], 'G')) {
        Some(RustcErrorKind::Warning)
    } else {
        None
    }
}

impl RustcErrorKind {
    /// The severity a whole word names, as `spec_kind_of_word` says.
    pub fn from_word(s: &str) -> (k: Option<RustcErrorKind>)
        ensures
            k == spec_kind_of_word(s@),
    {
        let v = str_to_char_vec(s);
        proof {
            assert(v@.subrange(0, v@.len() as int) =~= v@);
        }
        kind_in_range(&v, 0, v.len())
    }

    /// The words this severity prints as in human-readable output.
    pub open spec fn spec_display(self) -> Seq<char> {
        match self {
            RustcErrorKind::Help => seq!['h', 'e', 'l', 'p', ' ', 'm', 'e', 's', 's', 'a', 'g', 'e'],
            RustcErrorKind::Error => seq!['e', 'r', 'r', 'o', 'r'],
            RustcErrorKind::Note => seq!['n', 'o', 't', 'e'],
            RustcErrorKind::Suggestion => seq![
                's',
                'u',
                'g',
                'g',
                'e',
                's',
                't',
                'i',
                'o',
                'n',
            ],
            RustcErrorKind::Warning => seq!['w', 'a', 'r', 'n', 'i', 'n', 'g'],
        }
    }

    /// Renders this severity for human-readable output.
    pub fn display_string(&self) -> (s: String)
        ensures
            s@ == self.spec_display(),
    {
        let mut v: Vec<char> = Vec::new();
        match self {
            RustcErrorKind::Help => {
                v.push('h');
                v.push('e');
                v.push('l');
                v.push('p');
                v.push(' ');
                v.push('m');
                v.push('e');
                v.push('s');
                v.push('s');
                v.push('a');
                v.push('g');
                v.push('e');
            },
            RustcErrorKind::Error => {
                v.push('e');
                v.push('r');
                v.push('r');
                v.push('o');
                v.push('r');
            },
            RustcErrorKind::Note => {
                v.push('n');
                v.push('o');
                v.push('t');
                v.push('e');
            },
            RustcErrorKind::Suggestion => {
                v.push('s');
                v.push('u');
                v.push('g');
                v.push('g');
                v.push('e');
                v.push('s');
                v.push('t');
                v.push('i');
                v.push('o');
                v.push('n');
            },
            RustcErrorKind::Warning => {
                v.push('w');
                v.push('a');
                v.push('r');
                v.push('n');
                v.push('i');
                v.push('n');
                v.push('g');
            },
        }
        proof {
            assert(v@ =~= self.spec_display());
        }
        chars_to_string(&v)
    }
}

impl core::str::FromStr for RustcErrorKind {
    type Err = ();

    fn from_str(s: &str) -> Result<RustcErrorKind, ()> {
        match RustcErrorKind::from_word(s) {
            Some(k) => Ok(k),
            None => Err(()),
        }
    }
}

// ---------------------------------------------------------------------------
// Resolved annotations.

/// The mathematical content of a resolved annotation.
pub struct ErrorView {
    /// 1-based line the annotation describes (a chained annotation inherits
    /// the target resolved by the nearest preceding non-chained one).
    pub line_num: int,
    /// Signed distance from the target to the annotation's own comment line:
    /// `0` on its own line, negative when the comment sits below its target.
    pub relative_line_num: int,
    pub kind: Option<RustcErrorKind>,
    pub msg: Seq<char>,
    pub error_code: Option<Seq<char>>,
}

/// One resolved annotation, in file order.
#[derive(Debug)]
pub struct Error {
    /// 1-based line the annotation describes.
    pub line_num: usize,
    /// Signed distance from the target line to the comment line: `0` when the
    /// annotation sits on the line it describes, negative when the comment is
    /// below its target.
    pub relative_line_num: i32,
    /// The severity announced by the keyword, when one was recognised.
    pub kind: Option<RustcErrorKind>,
    /// The message text after the keyword (or the whole payload).
    pub msg: String,
    /// The diagnostic code recovered from a compiler transcript, if any.
    pub error_code: Option<String>,
}

impl View for Error {
    type V = ErrorView;

    open spec fn view(&self) -> ErrorView {
        ErrorView {
            line_num: self.line_num as int,
            relative_line_num: self.relative_line_num as int,
            kind: self.kind,
            msg: self.msg@,
            error_code: match self.error_code {
                Some(c) => Some(c@),
                None => None,
            },
        }
    }
}

impl DeepView for Error {
    type V = ErrorView;

    open spec fn deep_view(&self) -> ErrorView {
        self.view()
    }
}

// ---------------------------------------------------------------------------
// Rendering a resolved annotation as a DejaGnu directive.

/// The DejaGnu tag for a severity; an annotation without one is reported as an
/// error, the common case.
pub open spec fn spec_severity_tag(kind: Option<RustcErrorKind>) -> Seq<char> {
    match kind {
        Some(RustcErrorKind::Help) => seq!['h', 'e', 'l', 'p'],
        Some(RustcErrorKind::Error) => seq!['d', 'g', '-', 'e', 'r', 'r', 'o', 'r'],
        Some(RustcErrorKind::Note) => seq!['d', 'g', '-', 'n', 'o', 't', 'e'],
        Some(RustcErrorKind::Suggestion) => seq!['s', 'u', 'g', 'g', 'e', 's', 't', 'i', 'o', 'n'],
        Some(RustcErrorKind::Warning) => seq!['d', 'g', '-', 'w', 'a', 'r', 'n', 'i', 'n', 'g'],
        None => seq!['d', 'g', '-', 'e', 'r', 'r', 'o', 'r'],
    }
}

/// The code between the first quotes: `.E0412.` for a recovered code, empty
/// otherwise.
pub open spec fn spec_code_field(code: Option<Seq<char>>) -> Seq<char> {
    match code {
        None => Seq::empty(),
        Some(c) => if c.len() == 0 {
            Seq::empty()
        } else {
            seq!['.'] + c + seq!['.']
        },
    }
}

/// The trailing offset marker: empty on the target line itself, else the
/// signed distance followed by one space.
pub open spec fn spec_offset_field(rel: int) -> Seq<char> {
    if rel == 0 {
        Seq::empty()
    } else {
        seq!['.'] + dec_int(rel) + seq![' ']
    }
}

/// The opening of every directive: `// { `.
pub open spec fn dir_head() -> Seq<char> {
    seq!['/', '/', ' ', '{', ' ']
}

/// The fixed middle of every directive: `" "" { target *-*-* } `.
pub open spec fn dir_frame() -> Seq<char> {
    seq![
        '"',
        ' ',
        '"',
        '"',
        ' ',
        '{',
        ' ',
        't',
        'a',
        'r',
        'g',
        'e',
        't',
        ' ',
        '*',
        '-',
        '*',
        '-',
        '*',
        ' ',
        '}',
        ' ',
    ]
}

/// The full rendered directive for a resolved annotation.
pub open spec fn spec_directive(
    kind: Option<RustcErrorKind>,
    code: Option<Seq<char>>,
    rel: int,
) -> Seq<char> {
    dir_head() + spec_severity_tag(kind) + seq![' ', '"'] + spec_code_field(code) + dir_frame()
        + spec_offset_field(rel) + seq!['}']
}

/// Appends the fixed middle of a directive to `out`.
fn push_dir_frame(out: &mut Vec<char>)
    ensures
        final(out)@ == old(out)@ + dir_frame(),
{
    out.push('"');
    out.push(' ');
    out.push('"');
    out.push('"');
    out.push(' ');
    out.push('{');
    out.push(' ');
    out.push('t');
    out.push('a');
    out.push('r');
    out.push('g');
    out.push('e');
    out.push('t');
    out.push(' ');
    out.push('*');
    out.push('-');
    out.push('*');
    out.push('-');
    out.push('*');
    out.push(' ');
    out.push('}');
    out.push(' ');
    proof {
        assert(out@ =~= old(out)@ + dir_frame());
    }
}

/// Appends the DejaGnu severity tag to `out`.
fn push_severity_tag(out: &mut Vec<char>, kind: Option<RustcErrorKind>)
    ensures
        final(out)@ == old(out)@ + spec_severity_tag(kind),
{
    match kind {
        Some(RustcErrorKind::Help) => {
            out.push('h');
            out.push('e');
            out.push('l');
            out.push('p');
        },
        Some(RustcErrorKind::Error) | None => {
            out.push('d');
            out.push('g');
            out.push('-');
            out.push('e');
            out.push('r');
            out.push('r');
            out.push('o');
            out.push('r');
        },
        Some(RustcErrorKind::Note) => {
            out.push('d');
            out.push('g');
            out.push('-');
            out.push('n');
            out.push('o');
            out.push('t');
            out.push('e');
        },
        Some(RustcErrorKind::Suggestion) => {
            out.push('s');
            out.push('u');
            out.push('g');
            out.push('g');
            out.push('e');
            out.push('s');
            out.push('t');
            out.push('i');
            out.push('o');
            out.push('n');
        },
        Some(RustcErrorKind::Warning) => {
            out.push('d');
            out.push('g');
            out.push('-');
            out.push('w');
            out.push('a');
            out.push('r');
            out.push('n');
            out.push('i');
            out.push('n');
            out.push('g');
        },
    }
    proof {
        assert(out@ =~= old(out)@ + spec_severity_tag(kind));
    }
}

/// Appends the rendered directive to `out`.
#[verifier::rlimit(30)]
pub(crate) fn push_directive(
    out: &mut Vec<char>,
    kind: Option<RustcErrorKind>,
    code: &Option<String>,
    rel: i32,
)
    ensures
        final(out)@ == old(out)@ + spec_directive(
            kind,
            match *code {
                Some(c) => Some(c@),
                None => None,
            },
            rel as int,
        ),
{
    let ghost spec_code: Option<Seq<char>> = match code {
        Some(c) => Some(c@),
        None => None,
    };
    out.push('/');
    out.push('/');
    out.push(' ');
    out.push('{');
    out.push(' ');
    push_severity_tag(out, kind);
    out.push(' ');
    out.push('"');
    let ghost c1 = out@;
    proof {
        assert(c1 =~= old(out)@ + dir_head() + spec_severity_tag(kind) + seq![' ', '"']);
    }
    match code {
        Some(c) => {
            if !c.as_str().is_empty() {
                out.push('.');
                let cv = str_to_char_vec(c.as_str());
                push_all(out, &cv);
                out.push('.');
            }
        },
        None => {},
    }
    let ghost c2 = out@;
    proof {
        assert(c2 =~= c1 + spec_code_field(spec_code));
    }
    push_dir_frame(out);
    if rel != 0 {
        out.push('.');
        push_i32_dec(out, rel);
        out.push(' ');
    }
    out.push('}');
    proof {
        assert(out@ =~= c2 + dir_frame() + spec_offset_field(rel as int) + seq!['}']);
        assert(out@ =~= old(out)@ + spec_directive(kind, spec_code, rel as int));
    }
}

impl Error {
    /// Renders this annotation as the DejaGnu directive that announces it.
    pub fn dejagnu_string(&self) -> (s: String)
        ensures
            s@ == spec_directive(self@.kind, self@.error_code, self@.relative_line_num),
    {
        let mut v: Vec<char> = Vec::new();
        push_directive(&mut v, self.kind, &self.error_code, self.relative_line_num);
        chars_to_string(&v)
    }
}

// ---------------------------------------------------------------------------
// The annotation sigil: `//~`, optionally with a `[revision-list]` prefix,
// followed by `|` or a run of `^`.

/// An annotation comment starts at `i`: `//` then either `~` directly or a
/// non-empty bracketed revision list and then `~`.
pub open spec fn sigil_match_at(s: Seq<char>, i: int) -> bool {
    &&& 0 <= i
    &&& i + 3 <= s.len()
    &&& s[i] == '/'
    &&& s[i + 1] == '/'
    &&& (s[i + 2] == '~' || sigil_bracket_ok(s, i))
}

pub open spec fn sigil_bracket_ok(s: Seq<char>, i: int) -> bool {
    &&& s[i + 2] == '['
    &&& rev_end(s, i + 3) > i + 3
    &&& rev_end(s, i + 3) + 1 < s.len()
    &&& s[rev_end(s, i + 3)] == ']'
    &&& s[rev_end(s, i + 3) + 1] == '~'
}

/// Position of the `~` of a sigil matching at `i`.
pub open spec fn tilde_pos(s: Seq<char>, i: int) -> int {
    if s[i + 2] == '~' {
        i + 2
    } else {
        rev_end(s, i + 3) + 1
    }
}

/// The sigil is the chained form `//~|`.
pub open spec fn sigil_is_follow(s: Seq<char>, i: int) -> bool {
    let t = tilde_pos(s, i);
    t + 1 < s.len() && s[t + 1] == '|'
}

/// Number of `^` characters after the `~`.
pub open spec fn sigil_adjusts(s: Seq<char>, i: int) -> int {
    let t = tilde_pos(s, i);
    caret_end(s, t + 1) - (t + 1)
}

/// First position after the whole sigil token; the payload starts here.
pub open spec fn sigil_end(s: Seq<char>, i: int) -> int {
    let t = tilde_pos(s, i);
    if sigil_is_follow(s, i) {
        t + 2
    } else {
        caret_end(s, t + 1)
    }
}

/// Start of the first annotation sigil in the line, `-1` if there is none.
pub open spec fn find_sigil(s: Seq<char>, i: int) -> int
    decreases s.len() - i,
{
    if i + 3 > s.len() {
        -1
    } else if sigil_match_at(s, i) {
        i
    } else {
        find_sigil(s, i + 1)
    }
}

pub proof fn lemma_sigil_bounds(s: Seq<char>, i: int)
    requires
        sigil_match_at(s, i),
    ensures
        i + 2 <= tilde_pos(s, i) < s.len(),
        s[tilde_pos(s, i)] == '~',
        tilde_pos(s, i) + 1 <= sigil_end(s, i) <= s.len(),
        0 <= sigil_adjusts(s, i),
        sigil_adjusts(s, i) <= s.len(),
        !sigil_is_follow(s, i) ==> sigil_end(s, i) == tilde_pos(s, i) + 1 + sigil_adjusts(s, i),
{
    let t = tilde_pos(s, i);
    if s[i + 2] != '~' {
        lemma_rev_end(s, i + 3);
    }
    lemma_caret_end(s, t + 1);
}

pub proof fn lemma_find_sigil(s: Seq<char>, i: int)
    requires
        0 <= i,
    ensures
        find_sigil(s, i) == -1 || (i <= find_sigil(s, i) && sigil_match_at(s, find_sigil(s, i))),
    decreases s.len() - i,
{
    if i + 3 <= s.len() && !sigil_match_at(s, i) {
        lemma_find_sigil(s, i + 1);
    }
}

/// Whether an annotation sigil starts at `i`.
pub(crate) fn sigil_at(v: &Vec<char>, i: usize) -> (r: bool)
    requires
        i <= v.len(),
    ensures
        r == sigil_match_at(v@, i as int),
{
    if v.len() < 3 || i > v.len() - 3 {
        return false;
    }
    if !(v[i] == '/' && v[i + 1] == '/') {
        return false;
    }
    if v[i + 2] == '~' {
        return true;
    }
    if v[i + 2] != '[' {
        return false;
    }
    let e = scan_rev_end(v, i + 3);
    e > i + 3 && e < v.len() - 1 && v[e] == ']' && v[e + 1] == '~'
}

/// The first annotation sigil of the line, if any.
pub(crate) fn find_sigil_exec(v: &Vec<char>) -> (r: Option<usize>)
    ensures
        match r {
            Some(p) => find_sigil(v@, 0) == p as int,
            None => find_sigil(v@, 0) == -1,
        },
{
    let mut i: usize = 0;
    while v.len() >= 3 && i <= v.len() - 3
        invariant
            i <= v.len(),
            find_sigil(v@, 0) == find_sigil(v@, i as int),
        decreases v.len() - i,
    {
        if sigil_at(v, i) {
            return Some(i);
        }
        i += 1;
    }
    None
}

// ---------------------------------------------------------------------------
// Parsing one line into an annotation.

/// Where, relative to its own comment line, an annotation points.
pub enum WhichLine {
    /// Zero carets: the annotation describes its own line.
    ThisLine,
    /// A `//~|` chain: the annotation inherits the recorded target line.
    FollowPrevious(usize),
    /// `n` carets: the annotation describes the line `n` above.
    AdjustBackward(usize),
}

/// What one line contributes to the resolution pass.
pub enum LineOutcome {
    /// The line carries no annotation sigil.
    NoAnn,
    /// The line carries a malformed annotation; the whole conversion fails.
    Fatal { err: ConvertError },
    /// A resolved annotation; `follow` tells whether it was chained.
    Ann { follow: bool, ann: ErrorView },
}

pub open spec fn opt_anchor(o: Option<usize>) -> Option<int> {
    match o {
        Some(a) => Some(a as int),
        None => None,
    }
}

/// What the line with 0-based index `idx` contributes, given the anchor: the
/// target line resolved by the most recent non-chained annotation, which a
/// chained annotation inherits.
pub open spec fn spec_line_outcome(anchor: Option<int>, idx: int, s: Seq<char>) -> LineOutcome {
    let p = find_sigil(s, 0);
    if p < 0 {
        LineOutcome::NoAnn
    } else {
        let e = sigil_end(s, p);
        let w0 = ws_end(s, e);
        if w0 == s.len() {
            LineOutcome::Fatal { err: ConvertError::EmptyAnnotation { line: (idx + 1) as usize } }
        } else {
            let w1 = word_end(s, w0);
            let kind = spec_kind_of_word(s.subrange(w0, w1));
            let msg = if kind is Some {
                trim_sub(s, w1)
            } else {
                trim_sub(s, e)
            };
            if sigil_is_follow(s, p) {
                match anchor {
                    None => LineOutcome::Fatal {
                        err: ConvertError::ChainWithoutAnchor { line: (idx + 1) as usize },
                    },
                    Some(a) => LineOutcome::Ann {
                        follow: true,
                        ann: ErrorView {
                            line_num: a,
                            relative_line_num: a - (idx + 1),
                            kind,
                            msg,
                            error_code: None,
                        },
                    },
                }
            } else {
                let adj = sigil_adjusts(s, p);
                if adj > idx + 1 {
                    LineOutcome::Fatal {
                        err: ConvertError::CaretsPastFileStart { line: (idx + 1) as usize },
                    }
                } else {
                    LineOutcome::Ann {
                        follow: false,
                        ann: ErrorView {
                            line_num: idx + 1 - adj,
                            relative_line_num: -adj,
                            kind,
                            msg,
                            error_code: None,
                        },
                    }
                }
            }
        }
    }
}

/// Parses the annotation on one source line, resolving it against the current
/// anchor.  `line_num` is 1-based; the anchor is the target line resolved by
/// the most recent non-chained annotation.
pub(crate) fn parse_expected(
    last_nonfollow_error: Option<usize>,
    line_num: usize,
    line: &Vec<char>,
) -> (r: Result<Option<(WhichLine, Error)>, ConvertError>)
    requires
        1 <= line_num <= 0x7fff_ffff,
        line@.len() <= 0x7fff_ffff,
        match last_nonfollow_error {
            Some(a) => a < line_num,
            None => true,
        },
    ensures
        match spec_line_outcome(opt_anchor(last_nonfollow_error), line_num - 1, line@) {
            LineOutcome::NoAnn => r matches Ok(None),
            LineOutcome::Fatal { err } => r matches Err(e2) && e2 == err,
            LineOutcome::Ann { follow, ann } => match r {
                Ok(Some((w, e))) => e@ == ann && (follow <==> w matches WhichLine::FollowPrevious(
                    _,
                )),
                _ => false,
            },
        },
{
    let p = match find_sigil_exec(line) {
        Some(p) => p,
        None => {
            return Ok(None);
        },
    };
    proof {
        lemma_find_sigil(line@, 0);
        lemma_sigil_bounds(line@, p as int);
    }
    let t: usize = if line[p + 2] == '~' {
        p + 2
    } else {
        scan_rev_end(line, p + 3) + 1
    };
    proof {
        assert(t as int == tilde_pos(line@, p as int));
    }
    let follow: bool = t + 1 < line.len() && line[t + 1] == '|';
    let e: usize = if follow {
        t + 2
    } else {
        scan_caret_end(line, t + 1)
    };
    proof {
        assert(e as int == sigil_end(line@, p as int));
    }
    let w0 = scan_ws_end(line, e);
    if w0 == line.len() {
        return Err(ConvertError::EmptyAnnotation { line: line_num });
    }
    let w1 = scan_word_end(line, w0);
    let kind = kind_in_range(line, w0, w1);
    let msg_from: usize = if kind.is_some() {
        w1
    } else {
        e
    };
    let a = scan_ws_end(line, msg_from);
    let msg_vec: Vec<char> = if a == line.len() {
        Vec::new()
    } else {
        proof {
            lemma_trim_sub(line@, msg_from as int);
        }
        let b2 = scan_rws_begin(line, line.len());
        copy_range(line, a, b2)
    };
    proof {
        assert(msg_vec@ =~= trim_sub(line@, msg_from as int));
    }
    let msg = chars_to_string(&msg_vec);
    if follow {
        match last_nonfollow_error {
            None => Err(ConvertError::ChainWithoutAnchor { line: line_num }),
            Some(anchor) => {
                let rel: i32 = (anchor as i32) - (line_num as i32);
                let err = Error {
                    line_num: anchor,
                    relative_line_num: rel,
                    kind,
                    msg,
                    error_code: None,
                };
                proof {
                    assert(err@.msg =~= trim_sub(line@, msg_from as int));
                }
                Ok(Some((WhichLine::FollowPrevious(anchor), err)))
            },
        }
    } else {
        let adjusts: usize = e - (t + 1);
        if adjusts > line_num {
            return Err(ConvertError::CaretsPastFileStart { line: line_num });
        }
        let target: usize = line_num - adjusts;
        let rel: i32 = -(adjusts as i32);
        let which = if adjusts > 0 {
            WhichLine::AdjustBackward(adjusts)
        } else {
            WhichLine::ThisLine
        };
        let err = Error { line_num: target, relative_line_num: rel, kind, msg, error_code: None };
        proof {
            assert(err@.msg =~= trim_sub(line@, msg_from as int));
        }
        Ok(Some((which, err)))
    }
}

// ---------------------------------------------------------------------------
// Records read from a compiler transcript: a line `error[Edddd]: detail`
// followed, after whitespace, by `--> path:line:col`, from which the line
// number is recovered as the number between the last two colons.

/// The mathematical content of one transcript record.
pub struct RecordView {
    pub error_code: Seq<char>,
    pub error_message_detail: Seq<char>,
    pub line_number: int,
}

/// One diagnostic recovered from the transcript.
#[derive(Debug)]
pub struct StderrResult {
    /// The code inside `error[...]`: `E` and four digits.
    pub error_code: String,
    /// The message after `]: `, up to the end of that line.
    pub error_message_detail: String,
    /// The line number named by the `-->` locator.
    pub line_number: usize,
}

impl View for StderrResult {
    type V = RecordView;

    open spec fn view(&self) -> RecordView {
        RecordView {
            error_code: self.error_code@,
            error_message_detail: self.error_message_detail@,
            line_number: self.line_number as int,
        }
    }
}

impl DeepView for StderrResult {
    type V = RecordView;

    open spec fn deep_view(&self) -> RecordView {
        self.view()
    }
}

/// A well-formed code: `E` followed by exactly four digits.
pub open spec fn spec_is_error_code(s: Seq<char>) -> bool {
    s.len() == 5 && s[0] == 'E' && is_digit(s[1]) && is_digit(s[2]) && is_digit(s[3]) && is_digit(
        s[4],
    )
}

/// Whether a string is a well-formed diagnostic code.
pub(crate) fn is_error_code(s: &str) -> (r: bool)
    ensures
        r == spec_is_error_code(s@),
{
    let v = str_to_char_vec(s);
    v.len() == 5 && v[0] == 'E' && digit_char_test(v[1]) && digit_char_test(v[2])
        && digit_char_test(v[3]) && digit_char_test(v[4])
}

/// A `:` at `p` followed by at least one digit and another `:`.
pub open spec fn colon_num_at(s: Seq<char>, p: int) -> bool {
    &&& 0 <= p < s.len()
    &&& s[p] == ':'
    &&& digit_end(s, p + 1) > p + 1
    &&& digit_end(s, p + 1) < s.len()
    &&& s[digit_end(s, p + 1)] == ':'
}

/// The largest `p` in `(lo, j]` where `colon_num_at` holds, `-1` if none.
/// The locator line is read from its right.  In the usual `path:line:col`
/// shape the column has no colon after it, so the rightmost colon-number is
/// the line; in a `path:line:col:` shape, where a colon does follow the
/// column, the column itself is read instead — the annotation then matches
/// only through its message.
pub open spec fn last_colon_num(s: Seq<char>, lo: int, j: int) -> int
    decreases j - lo,
{
    if j <= lo {
        -1
    } else if colon_num_at(s, j) {
        j
    } else {
        last_colon_num(s, lo, j - 1)
    }
}

pub proof fn lemma_last_colon_num(s: Seq<char>, lo: int, j: int)
    ensures
        last_colon_num(s, lo, j) == -1 || (lo < last_colon_num(s, lo, j) <= j && colon_num_at(
            s,
            last_colon_num(s, lo, j),
        )),
    decreases j - lo,
{
    if j > lo && !colon_num_at(s, j) {
        lemma_last_colon_num(s, lo, j - 1);
    }
}

/// Position of the `'\n'` that ends the detail of a record starting at `i`.
pub open spec fn rec_nl(s: Seq<char>, i: int) -> int {
    line_end(s, i + 14)
}

/// Position of the `-->` after the whitespace that follows the detail line.
pub open spec fn rec_w(s: Seq<char>, i: int) -> int {
    ws_end(s, rec_nl(s, i) + 1)
}

/// The colon opening the line-number field of the locator.
pub open spec fn rec_p(s: Seq<char>, i: int) -> int {
    last_colon_num(s, rec_w(s, i) + 3, line_end(s, rec_w(s, i) + 3) - 1)
}

/// A transcript record starts at `i`.
pub open spec fn stderr_match_at(s: Seq<char>, i: int) -> bool {
    &&& 0 <= i
    &&& i + 14 <= s.len()
    &&& s[i] == 'e'
    &&& s[i + 1] == 'r'
    &&& s[i + 2] == 'r'
    &&& s[i + 3] == 'o'
    &&& s[i + 4] == 'r'
    &&& s[i + 5] == '['
    &&& s[i + 6] == 'E'
    &&& is_digit(s[i + 7])
    &&& is_digit(s[i + 8])
    &&& is_digit(s[i + 9])
    &&& is_digit(s[i + 10])
    &&& s[i + 11] == ']'
    &&& s[i + 12] == ':'
    &&& s[i + 13] == ' '
    &&& rec_nl(s, i) > i + 14
    &&& rec_nl(s, i) < s.len()
    &&& rec_w(s, i) > rec_nl(s, i) + 1
    &&& rec_w(s, i) + 3 <= s.len()
    &&& s[rec_w(s, i)] == '-'
    &&& s[rec_w(s, i) + 1] == '-'
    &&& s[rec_w(s, i) + 2] == '>'
    &&& rec_p(s, i) >= 0
}

/// The code of the record starting at `i`.
pub open spec fn rec_code_at(s: Seq<char>, i: int) -> Seq<char> {
    s.subrange(i + 6, i + 11)
}

/// The detail of the record starting at `i`.
pub open spec fn rec_detail_at(s: Seq<char>, i: int) -> Seq<char> {
    s.subrange(i + 14, rec_nl(s, i))
}

/// The line number of the record starting at `i`.
pub open spec fn rec_line_at(s: Seq<char>, i: int) -> nat {
    digits_val(s.subrange(rec_p(s, i) + 1, digit_end(s, rec_p(s, i) + 1)))
}

/// First position after the record starting at `i`: past the colon that
/// closes the line-number field.
pub open spec fn rec_end_at(s: Seq<char>, i: int) -> int {
    digit_end(s, rec_p(s, i) + 1) + 1
}

pub proof fn lemma_rec_bounds(s: Seq<char>, i: int)
    requires
        stderr_match_at(s, i),
    ensures
        i + 14 <= rec_nl(s, i) < s.len(),
        rec_w(s, i) + 3 < rec_p(s, i),
        colon_num_at(s, rec_p(s, i)),
        rec_p(s, i) + 1 < digit_end(s, rec_p(s, i) + 1) < s.len(),
        i < rec_end_at(s, i) <= s.len(),
        forall|j: int| rec_p(s, i) + 1 <= j < digit_end(s, rec_p(s, i) + 1) ==> is_digit(s[j]),
{
    lemma_line_end(s, i + 14);
    lemma_ws_end(s, rec_nl(s, i) + 1);
    let lp = rec_w(s, i) + 3;
    lemma_line_end(s, lp);
    lemma_last_colon_num(s, lp, line_end(s, lp) - 1);
    lemma_digit_end(s, rec_p(s, i) + 1);
}

/// The records of a transcript, scanning from position `i`: at each match the
/// record is taken (unless its line number overflows a `usize`, in which case
/// it is dropped) and the scan resumes after it; otherwise the scan moves one
/// character forward.
pub open spec fn spec_records_from(s: Seq<char>, i: int) -> Seq<RecordView>
    decreases s.len() - i,
{
    if !(0 <= i < s.len()) {
        Seq::empty()
    } else if stderr_match_at(s, i) {
        let e = rec_end_at(s, i);
        let next = if i < e && e <= s.len() {
            e
        } else {
            i + 1
        };
        let rest = spec_records_from(s, next);
        if rec_line_at(s, i) <= usize::MAX as nat {
            seq![
                RecordView {
                    error_code: rec_code_at(s, i),
                    error_message_detail: rec_detail_at(s, i),
                    line_number: rec_line_at(s, i) as int,
                },
            ] + rest
        } else {
            rest
        }
    } else {
        spec_records_from(s, i + 1)
    }
}

fn colon_num_exec(v: &Vec<char>, p: usize) -> (r: bool)
    requires
        p < v.len(),
    ensures
        r == colon_num_at(v@, p as int),
{
    if v[p] != ':' {
        return false;
    }
    let d = scan_digit_end(v, p + 1);
    d > p + 1 && d < v.len() && v[d] == ':'
}

fn scan_last_colon_num(v: &Vec<char>, lo: usize, start: usize) -> (r: Option<usize>)
    requires
        start < v.len(),
    ensures
        match r {
            Some(p) => last_colon_num(v@, lo as int, start as int) == p as int && p < v.len(),
            None => last_colon_num(v@, lo as int, start as int) == -1,
        },
{
    let mut j: usize = start;
    loop
        invariant
            j <= start < v.len(),
            last_colon_num(v@, lo as int, start as int) == last_colon_num(v@, lo as int, j as int),
        decreases j,
    {
        if j <= lo {
            return None;
        }
        if colon_num_exec(v, j) {
            return Some(j);
        }
        j -= 1;
    }
}

/// Checks for a transcript record at `i`; on a match, hands back the newline
/// ending the detail, the colon opening the line number, and the record's end.
fn stderr_rec_at(v: &Vec<char>, i: usize) -> (r: Option<(usize, usize, usize)>)
    requires
        i < v.len(),
    ensures
        match r {
            Some((nl, p, e)) => {
                &&& stderr_match_at(v@, i as int)
                &&& nl as int == rec_nl(v@, i as int)
                &&& p as int == rec_p(v@, i as int)
                &&& e as int == rec_end_at(v@, i as int)
                &&& i < e <= v.len()
            },
            None => !stderr_match_at(v@, i as int),
        },
{
    if v.len() - i < 14 {
        return None;
    }
    if !(v[i] == 'e' && v[i + 1] == 'r' && v[i + 2] == 'r' && v[i + 3] == 'o' && v[i + 4] == 'r'
        && v[i + 5] == '[' && v[i + 6] == 'E') {
        return None;
    }
    if !(digit_char_test(v[i + 7]) && digit_char_test(v[i + 8]) && digit_char_test(v[i + 9])
        && digit_char_test(v[i + 10])) {
        return None;
    }
    if !(v[i + 11] == ']' && v[i + 12] == ':' && v[i + 13] == ' ') {
        return None;
    }
    let nl = scan_line_end(v, i + 14);
    if nl == i + 14 || nl == v.len() {
        return None;
    }
    let w = scan_ws_end(v, nl + 1);
    if w == nl + 1 || v.len() - w < 3 {
        return None;
    }
    if !(v[w] == '-' && v[w + 1] == '-' && v[w + 2] == '>') {
        return None;
    }
    let le = scan_line_end(v, w + 3);
    let p = match scan_last_colon_num(v, w + 3, le - 1) {
        Some(p) => p,
        None => {
            return None;
        },
    };
    proof {
        lemma_last_colon_num(v@, w as int + 3, le as int - 1);
    }
    let d = scan_digit_end(v, p + 1);
    proof {
        assert(stderr_match_at(v@, i as int));
        lemma_rec_bounds(v@, i as int);
    }
    Some((nl, p, d + 1))
}

/// Reads every diagnostic record out of a compiler transcript.
pub(crate) fn parse_error_code(stderr_content: &Vec<char>) -> (r: Vec<StderrResult>)
    ensures
        r.deep_view() == spec_records_from(stderr_content@, 0),
{
    let v = stderr_content;
    let mut r: Vec<StderrResult> = Vec::new();
    let mut i: usize = 0;
    proof {
        assert(r.deep_view() + spec_records_from(v@, 0) =~~= spec_records_from(v@, 0));
    }
    while i < v.len()
        invariant
            i <= v.len(),
            spec_records_from(v@, 0) == r.deep_view() + spec_records_from(v@, i as int),
        decreases v.len() - i,
    {
        match stderr_rec_at(v, i) {
            None => {
                i += 1;
            },
            Some((nl, p, e)) => {
                proof {
                    lemma_rec_bounds(v@, i as int);
                }
                let code_v = copy_range(v, i + 6, i + 11);
                let code = chars_to_string(&code_v);
                let detail_v = copy_range(v, i + 14, nl);
                let detail = chars_to_string(&detail_v);
                let d = scan_digit_end(v, p + 1);
                // The captured code always has the `Edddd` shape, so this
                // check never fires; it mirrors the grammar's own demand.
                if is_error_code(code.as_str()) {
                    match parse_usize(v, p + 1, d) {
                        Some(n) => {
                            let ghost old_r = r.deep_view();
                            r.push(
                                StderrResult {
                                    error_code: code,
                                    error_message_detail: detail,
                                    line_number: n,
                                },
                            );
                            proof {
                                assert(r.deep_view() =~~= old_r + seq![
                                    RecordView {
                                        error_code: rec_code_at(v@, i as int),
                                        error_message_detail: rec_detail_at(v@, i as int),
                                        line_number: rec_line_at(v@, i as int) as int,
                                    },
                                ]);
                                assert(spec_records_from(v@, 0) =~~= r.deep_view()
                                    + spec_records_from(v@, e as int));
                            }
                        },
                        None => {
                            // A line number too large for `usize`: the record
                            // is dropped, as any malformed record is.
                        },
                    }
                }
                i = e;
            },
        }
    }
    r
}

// ---------------------------------------------------------------------------
// Cross-referencing: recovering codes for resolved annotations.

/// A record speaks about an annotation when it names the same line or carries
/// the same message text.
pub open spec fn rec_matches(r: RecordView, a: ErrorView) -> bool {
    r.line_number == a.line_num || r.error_message_detail == a.msg
}

/// The code of the first record that matches the annotation, if any.
pub open spec fn spec_first_code(recs: Seq<RecordView>, a: ErrorView) -> Option<Seq<char>>
    decreases recs.len(),
{
    if recs.len() == 0 {
        None
    } else if rec_matches(recs[0], a) {
        Some(recs[0].error_code)
    } else {
        spec_first_code(recs.drop_first(), a)
    }
}

/// Every annotation, with its code filled in from the first matching record.
pub open spec fn spec_enrich(anns: Seq<ErrorView>, recs: Seq<RecordView>) -> Seq<ErrorView> {
    anns.map_values(
        |a: ErrorView|
            ErrorView {
                line_num: a.line_num,
                relative_line_num: a.relative_line_num,
                kind: a.kind,
                msg: a.msg,
                error_code: spec_first_code(recs, a),
            },
    )
}

fn find_code(records: &Vec<StderrResult>, err: &Error) -> (r: Option<String>)
    ensures
        match r {
            Some(c) => spec_first_code(records.deep_view(), err@) == Some(c@),
            None => spec_first_code(records.deep_view(), err@) is None,
        },
{
    let mut j: usize = 0;
    proof {
        assert(records.deep_view().skip(0) =~~= records.deep_view());
    }
    while j < records.len()
        invariant
            j <= records.len(),
            spec_first_code(records.deep_view(), err@) == spec_first_code(
                records.deep_view().skip(j as int),
                err@,
            ),
        decreases records.len() - j,
    {
        proof {
            assert(records.deep_view().skip(j as int).drop_first() =~~= records.deep_view().skip(
                j as int + 1,
            ));
            assert(records.deep_view().skip(j as int)[0] == records@[j as int]@);
        }
        let rec = &records[j];
        if rec.line_number == err.line_num || rec.error_message_detail == err.msg {
            return Some(rec.error_code.clone());
        }
        j += 1;
    }
    proof {
        assert(records.deep_view().skip(records.len() as int) =~~= Seq::<RecordView>::empty());
    }
    None
}

// ---------------------------------------------------------------------------
// Loading every annotation of a file.

/// The annotations of the file, resolved in order from line `i` onward with
/// `anchor` the target line resolved by the most recent non-chained
/// annotation, or the condition that makes the file unconvertible.
pub open spec fn spec_resolve_from(
    lines: Seq<Seq<char>>,
    i: int,
    anchor: Option<int>,
) -> Result<Seq<ErrorView>, ConvertError>
    decreases lines.len() - i,
{
    if !(0 <= i < lines.len()) {
        Ok(Seq::empty())
    } else {
        match spec_line_outcome(anchor, i, lines[i]) {
            LineOutcome::NoAnn => spec_resolve_from(lines, i + 1, anchor),
            LineOutcome::Fatal { err } => Err(err),
            LineOutcome::Ann { follow, ann } => {
                let anchor2 = if follow {
                    anchor
                } else {
                    Some(ann.line_num)
                };
                match spec_resolve_from(lines, i + 1, anchor2) {
                    Err(e) => Err(e),
                    Ok(rest) => Ok(seq![ann] + rest),
                }
            },
        }
    }
}

pub open spec fn opt_str_view(o: Option<&str>) -> Option<Seq<char>> {
    match o {
        Some(s) => Some(s@),
        None => None,
    }
}

/// What `load_error` returns: the file's annotations in order, enriched from
/// the transcript when one is supplied, or the first fatal condition.
pub open spec fn spec_load_error(text: Seq<char>, stderr: Option<Seq<char>>) -> Result<
    Seq<ErrorView>,
    ConvertError,
> {
    match spec_resolve_from(spec_lines(text), 0, None) {
        Err(e) => Err(e),
        Ok(anns) => match stderr {
            None => Ok(anns),
            Some(st) => Ok(spec_enrich(anns, spec_records_from(st, 0))),
        },
    }
}

/// Loads every annotation of a source file, in file order, resolving each to
/// the line it describes; when a transcript is supplied, fills in each
/// annotation's code from the first record that names its line or repeats its
/// message.  Fails with the first malformed annotation, and then yields no
/// output at all.
pub fn load_error(text_file: &str, stderr_file: Option<&str>) -> (r: Result<
    Vec<Error>,
    ConvertError,
>)
    requires
        text_file@.len() <= 0x7fff_ffff,
    ensures
        match r {
            Ok(v) => spec_load_error(text_file@, opt_str_view(stderr_file)) == Ok::<
                Seq<ErrorView>,
                ConvertError,
            >(v.deep_view()),
            Err(e) => spec_load_error(text_file@, opt_str_view(stderr_file)) == Err::<
                Seq<ErrorView>,
                ConvertError,
            >(e),
        },
{
    let chars = str_to_char_vec(text_file);
    let lines = split_lines(&chars);
    proof {
        lemma_lines_len_bound(text_file@);
    }
    let ghost ll = spec_lines(text_file@);
    let mut errors: Vec<Error> = Vec::new();
    let mut last: Option<usize> = None;
    let mut i: usize = 0;
    proof {
        match spec_resolve_from(ll, 0, opt_anchor(last)) {
            Ok(rest) => {
                assert(errors.deep_view() + rest =~~= rest);
            },
            Err(_) => {},
        }
    }
    while i < lines.len()
        invariant
            i <= lines.len(),
            lines.deep_view() == ll,
            ll == spec_lines(text_file@),
            text_file@.len() <= 0x7fff_ffff,
            lines@.len() <= 0x7fff_ffff,
            match last {
                Some(a) => a < i + 1,
                None => true,
            },
            match spec_resolve_from(ll, i as int, opt_anchor(last)) {
                Ok(rest) => spec_resolve_from(ll, 0, None) == Ok::<Seq<ErrorView>, ConvertError>(
                    errors.deep_view() + rest,
                ),
                Err(e) => spec_resolve_from(ll, 0, None) == Err::<Seq<ErrorView>, ConvertError>(e),
            },
        decreases lines.len() - i,
    {
        proof {
            lemma_lines_len_bound(text_file@);
            assert(lines@[i as int].deep_view() =~= lines@[i as int]@);
            assert(lines@[i as int]@ == ll[i as int]);
        }
        let line = &lines[i];
        match parse_expected(last, i + 1, line) {
            Err(e) => {
                return Err(e);
            },
            Ok(None) => {
                i += 1;
            },
            Ok(Some((which, err))) => {
                let ghost old_errors = errors.deep_view();
                let ghost outcome = spec_line_outcome(opt_anchor(last), i as int, ll[i as int]);
                let target = err.line_num;
                errors.push(err);
                proof {
                    assert(errors.deep_view() =~~= old_errors + seq![err@]);
                }
                match which {
                    WhichLine::FollowPrevious(_) => {},
                    _ => {
                        last = Some(target);
                    },
                }
                proof {
                    if let LineOutcome::Ann { follow, ann } = outcome {
                        if !follow {
                            lemma_find_sigil(ll[i as int], 0);
                            lemma_sigil_bounds(ll[i as int], find_sigil(ll[i as int], 0));
                            assert(ann.line_num <= i + 1);
                        }
                        match spec_resolve_from(ll, i as int + 1, opt_anchor(last)) {
                            Ok(rest) => {
                                assert(old_errors + (seq![ann] + rest) =~~= errors.deep_view()
                                    + rest);
                            },
                            Err(_) => {},
                        }
                    }
                }
                i += 1;
            },
        }
    }
    proof {
        assert(spec_resolve_from(ll, lines@.len() as int, opt_anchor(last)) == Ok::<
            Seq<ErrorView>,
            ConvertError,
        >(Seq::empty()));
        assert(errors.deep_view() + Seq::<ErrorView>::empty() =~~= errors.deep_view());
    }
    let st = match stderr_file {
        None => {
            return Ok(errors);
        },
        Some(st) => st,
    };
    let sv = str_to_char_vec(st);
    let records = parse_error_code(&sv);
    let ghost recs = spec_records_from(st@, 0);
    let mut out: Vec<Error> = Vec::new();
    let mut k: usize = 0;
    while k < errors.len()
        invariant
            k <= errors.len(),
            records.deep_view() == recs,
            out.deep_view().len() == k as int,
            forall|m: int| 0 <= m < k ==> out.deep_view()[m] == spec_enrich(
                errors.deep_view(),
                recs,
            )[m],
        decreases errors.len() - k,
    {
        let e = &errors[k];
        let code = find_code(&records, e);
        let enriched = Error {
            line_num: e.line_num,
            relative_line_num: e.relative_line_num,
            kind: e.kind,
            msg: e.msg.clone(),
            error_code: code,
        };
        proof {
            assert(enriched@.msg =~= e@.msg);
        }
        let ghost old_outv = out@;
        let ghost old_dv = out.deep_view();
        out.push(enriched);
        proof {
            assert(errors.deep_view()[k as int] == errors@[k as int]@);
            assert(enriched@ == spec_enrich(errors.deep_view(), recs)[k as int]);
            assert forall|m: int| 0 <= m < k + 1 implies out.deep_view()[m] == spec_enrich(
                errors.deep_view(),
                recs,
            )[m] by {
                if m < k {
                    assert(out@[m] == old_outv[m]);
                    assert(out.deep_view()[m] == old_dv[m]);
                } else {
                    assert(out@[m] == enriched);
                    assert(out.deep_view()[m] == enriched@);
                }
            }
        }
        k += 1;
    }
    proof {
        assert(out.deep_view() =~~= spec_enrich(errors.deep_view(), recs));
    }
    Ok(out)
}

} // verus!

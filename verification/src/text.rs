//! Characters, whitespace runs, the line structure of a file, and the decimal
//! rendering and reading of line numbers.  Everything here speaks about
//! `Seq<char>`, the mathematical view of the strings the engine rewrites.

use vstd::prelude::*;
use vstd::std_specs::iter::IteratorSpec;

verus! {

broadcast use vstd::string::group_string_axioms;

// ---------------------------------------------------------------------------
// Character classes.

/// ASCII whitespace: the whitespace the annotation grammar recognises.
pub open spec fn is_space(c: char) -> bool {
    c == ' ' || c == '\t' || c == '\n' || c == '\r' || c == '\x0c'
}

/// ASCII decimal digit.
pub open spec fn is_digit(c: char) -> bool {
    '0' as u32 <= c as u32 && c as u32 <= '9' as u32
}

/// A character allowed inside the `[revision-list]` prefix of an annotation:
/// an ASCII word character, `-` or `,`.
pub open spec fn is_rev_char(c: char) -> bool {
    ||| 'a' as u32 <= c as u32 && c as u32 <= 'z' as u32
    ||| 'A' as u32 <= c as u32 && c as u32 <= 'Z' as u32
    ||| is_digit(c)
    ||| c == '_' || c == '-' || c == ','
}

pub(crate) fn space_char(c: char) -> (r: bool)
    ensures
        r == is_space(c),
{
    c == ' ' || c == '\t' || c == '\n' || c == '\r' || c == '\x0c'
}

pub(crate) fn digit_char_test(c: char) -> (r: bool)
    ensures
        r == is_digit(c),
{
    let u: u32 = c as u32;
    48 <= u && u <= 57
}

pub(crate) fn rev_char_test(c: char) -> (r: bool)
    ensures
        r == is_rev_char(c),
{
    let u: u32 = c as u32;
    (97 <= u && u <= 122) || (65 <= u && u <= 90) || (48 <= u && u <= 57) || c == '_' || c == '-'
        || c == ','
}

// ---------------------------------------------------------------------------
// Forward scans: the first position at or after `i` where a run of characters
// of some class ends.  Each returns `i` itself when `i` is out of range.

/// End of the whitespace run starting at `i`.
pub open spec fn ws_end(s: Seq<char>, i: int) -> int
    decreases s.len() - i,
{
    if !(0 <= i < s.len()) {
        i
    } else if !is_space(s[i]) {
        i
    } else {
        ws_end(s, i + 1)
    }
}

/// End of the non-whitespace run starting at `i`: where the word ends.
pub open spec fn word_end(s: Seq<char>, i: int) -> int
    decreases s.len() - i,
{
    if !(0 <= i < s.len()) {
        i
    } else if is_space(s[i]) {
        i
    } else {
        word_end(s, i + 1)
    }
}

/// End of the run of `^` characters starting at `i`.
pub open spec fn caret_end(s: Seq<char>, i: int) -> int
    decreases s.len() - i,
{
    if !(0 <= i < s.len()) {
        i
    } else if s[i] != '^' {
        i
    } else {
        caret_end(s, i + 1)
    }
}

/// End of the run of decimal digits starting at `i`.
pub open spec fn digit_end(s: Seq<char>, i: int) -> int
    decreases s.len() - i,
{
    if !(0 <= i < s.len()) {
        i
    } else if !is_digit(s[i]) {
        i
    } else {
        digit_end(s, i + 1)
    }
}

/// End of the run of revision-list characters starting at `i`.
pub open spec fn rev_end(s: Seq<char>, i: int) -> int
    decreases s.len() - i,
{
    if !(0 <= i < s.len()) {
        i
    } else if !is_rev_char(s[i]) {
        i
    } else {
        rev_end(s, i + 1)
    }
}

/// Position of the first `'\n'` at or after `i` (the length if there is none).
pub open spec fn line_end(s: Seq<char>, i: int) -> int
    decreases s.len() - i,
{
    if !(0 <= i < s.len()) {
        i
    } else if s[i] == '\n' {
        i
    } else {
        line_end(s, i + 1)
    }
}

/// Position of the first `':'` at or after `i` (the length if there is none).
pub open spec fn colon_end(s: Seq<char>, i: int) -> int
    decreases s.len() - i,
{
    if !(0 <= i < s.len()) {
        i
    } else if s[i] == ':' {
        i
    } else {
        colon_end(s, i + 1)
    }
}

/// Position of the first `']'` at or after `i` (the length if there is none).
pub open spec fn rbracket_end(s: Seq<char>, i: int) -> int
    decreases s.len() - i,
{
    if !(0 <= i < s.len()) {
        i
    } else if s[i] == ']' {
        i
    } else {
        rbracket_end(s, i + 1)
    }
}

/// A forward scan never moves backward, whatever its starting point.
pub proof fn lemma_ws_end_ge(s: Seq<char>, i: int)
    ensures
        ws_end(s, i) >= i,
    decreases s.len() - i,
{
    if 0 <= i < s.len() && is_space(s[i]) {
        lemma_ws_end_ge(s, i + 1);
    }
}

pub proof fn lemma_rbracket_end_ge(s: Seq<char>, i: int)
    ensures
        rbracket_end(s, i) >= i,
    decreases s.len() - i,
{
    if 0 <= i < s.len() && s[i] != ']' {
        lemma_rbracket_end_ge(s, i + 1);
    }
}

pub proof fn lemma_ws_end(s: Seq<char>, i: int)
    requires
        0 <= i <= s.len(),
    ensures
        i <= ws_end(s, i) <= s.len(),
        forall|j: int| i <= j < ws_end(s, i) ==> is_space(s[j]),
        ws_end(s, i) < s.len() ==> !is_space(s[ws_end(s, i)]),
    decreases s.len() - i,
{
    if i < s.len() && is_space(s[i]) {
        lemma_ws_end(s, i + 1);
    }
}

pub proof fn lemma_word_end(s: Seq<char>, i: int)
    requires
        0 <= i <= s.len(),
    ensures
        i <= word_end(s, i) <= s.len(),
        forall|j: int| i <= j < word_end(s, i) ==> !is_space(s[j]),
        word_end(s, i) < s.len() ==> is_space(s[word_end(s, i)]),
    decreases s.len() - i,
{
    if i < s.len() && !is_space(s[i]) {
        lemma_word_end(s, i + 1);
    }
}

pub proof fn lemma_caret_end(s: Seq<char>, i: int)
    requires
        0 <= i <= s.len(),
    ensures
        i <= caret_end(s, i) <= s.len(),
        forall|j: int| i <= j < caret_end(s, i) ==> s[j] == '^',
        caret_end(s, i) < s.len() ==> s[caret_end(s, i)] != '^',
    decreases s.len() - i,
{
    if i < s.len() && s[i] == '^' {
        lemma_caret_end(s, i + 1);
    }
}

pub proof fn lemma_digit_end(s: Seq<char>, i: int)
    requires
        0 <= i <= s.len(),
    ensures
        i <= digit_end(s, i) <= s.len(),
        forall|j: int| i <= j < digit_end(s, i) ==> is_digit(s[j]),
        digit_end(s, i) < s.len() ==> !is_digit(s[digit_end(s, i)]),
    decreases s.len() - i,
{
    if i < s.len() && is_digit(s[i]) {
        lemma_digit_end(s, i + 1);
    }
}

pub proof fn lemma_rev_end(s: Seq<char>, i: int)
    requires
        0 <= i <= s.len(),
    ensures
        i <= rev_end(s, i) <= s.len(),
        forall|j: int| i <= j < rev_end(s, i) ==> is_rev_char(s[j]),
        rev_end(s, i) < s.len() ==> !is_rev_char(s[rev_end(s, i)]),
    decreases s.len() - i,
{
    if i < s.len() && is_rev_char(s[i]) {
        lemma_rev_end(s, i + 1);
    }
}

pub proof fn lemma_line_end(s: Seq<char>, i: int)
    requires
        0 <= i <= s.len(),
    ensures
        i <= line_end(s, i) <= s.len(),
        forall|j: int| i <= j < line_end(s, i) ==> s[j] != '\n',
        line_end(s, i) < s.len() ==> s[line_end(s, i)] == '\n',
    decreases s.len() - i,
{
    if i < s.len() && s[i] != '\n' {
        lemma_line_end(s, i + 1);
    }
}

/// A position that sees only non-newlines up to a newline (or the end) is
/// exactly where `line_end` stops.
pub proof fn lemma_line_end_unique(s: Seq<char>, i: int, m: int)
    requires
        0 <= i <= m <= s.len(),
        forall|j: int| i <= j < m ==> s[j] != '\n',
        m < s.len() ==> s[m] == '\n',
    ensures
        line_end(s, i) == m,
    decreases m - i,
{
    if i < m {
        lemma_line_end_unique(s, i + 1, m);
    }
}

// ---------------------------------------------------------------------------
// Executable scanners, one per class.

pub(crate) fn scan_ws_end(v: &Vec<char>, i: usize) -> (r: usize)
    requires
        i <= v.len(),
    ensures
        r as int == ws_end(v@, i as int),
        i <= r <= v.len(),
{
    let mut j: usize = i;
    while j < v.len() && space_char(v[j])
        invariant
            i <= j <= v.len(),
            ws_end(v@, i as int) == ws_end(v@, j as int),
        decreases v.len() - j,
    {
        j += 1;
    }
    j
}

pub(crate) fn scan_word_end(v: &Vec<char>, i: usize) -> (r: usize)
    requires
        i <= v.len(),
    ensures
        r as int == word_end(v@, i as int),
        i <= r <= v.len(),
{
    let mut j: usize = i;
    while j < v.len() && !space_char(v[j])
        invariant
            i <= j <= v.len(),
            word_end(v@, i as int) == word_end(v@, j as int),
        decreases v.len() - j,
    {
        j += 1;
    }
    j
}

pub(crate) fn scan_caret_end(v: &Vec<char>, i: usize) -> (r: usize)
    requires
        i <= v.len(),
    ensures
        r as int == caret_end(v@, i as int),
        i <= r <= v.len(),
{
    let mut j: usize = i;
    while j < v.len() && v[j] == '^'
        invariant
            i <= j <= v.len(),
            caret_end(v@, i as int) == caret_end(v@, j as int),
        decreases v.len() - j,
    {
        j += 1;
    }
    j
}

pub(crate) fn scan_digit_end(v: &Vec<char>, i: usize) -> (r: usize)
    requires
        i <= v.len(),
    ensures
        r as int == digit_end(v@, i as int),
        i <= r <= v.len(),
{
    let mut j: usize = i;
    while j < v.len() && digit_char_test(v[j])
        invariant
            i <= j <= v.len(),
            digit_end(v@, i as int) == digit_end(v@, j as int),
        decreases v.len() - j,
    {
        j += 1;
    }
    j
}

pub(crate) fn scan_rev_end(v: &Vec<char>, i: usize) -> (r: usize)
    requires
        i <= v.len(),
    ensures
        r as int == rev_end(v@, i as int),
        i <= r <= v.len(),
{
    let mut j: usize = i;
    while j < v.len() && rev_char_test(v[j])
        invariant
            i <= j <= v.len(),
            rev_end(v@, i as int) == rev_end(v@, j as int),
        decreases v.len() - j,
    {
        j += 1;
    }
    j
}

pub(crate) fn scan_line_end(v: &Vec<char>, i: usize) -> (r: usize)
    requires
        i <= v.len(),
    ensures
        r as int == line_end(v@, i as int),
        i <= r <= v.len(),
{
    let mut j: usize = i;
    while j < v.len() && v[j] != '\n'
        invariant
            i <= j <= v.len(),
            line_end(v@, i as int) == line_end(v@, j as int),
        decreases v.len() - j,
    {
        j += 1;
    }
    j
}

pub(crate) fn scan_colon_end(v: &Vec<char>, i: usize) -> (r: usize)
    requires
        i <= v.len(),
    ensures
        r as int == colon_end(v@, i as int),
        i <= r <= v.len(),
{
    let mut j: usize = i;
    while j < v.len() && v[j] != ':'
        invariant
            i <= j <= v.len(),
            colon_end(v@, i as int) == colon_end(v@, j as int),
        decreases v.len() - j,
    {
        j += 1;
    }
    j
}

pub(crate) fn scan_rbracket_end(v: &Vec<char>, i: usize) -> (r: usize)
    requires
        i <= v.len(),
    ensures
        r as int == rbracket_end(v@, i as int),
        i <= r <= v.len(),
{
    let mut j: usize = i;
    while j < v.len() && v[j] != ']'
        invariant
            i <= j <= v.len(),
            rbracket_end(v@, i as int) == rbracket_end(v@, j as int),
        decreases v.len() - j,
    {
        j += 1;
    }
    j
}

// ---------------------------------------------------------------------------
// Backward whitespace scan and trimming.

/// The smallest position `r <= j` such that everything in `[r, j)` is
/// whitespace and the character before `r`, if any, is not.
pub open spec fn rws_begin(s: Seq<char>, j: int) -> int
    decreases j,
{
    if j <= 0 {
        0
    } else if !(j <= s.len()) {
        j
    } else if !is_space(s[j - 1]) {
        j
    } else {
        rws_begin(s, j - 1)
    }
}

pub proof fn lemma_rws_begin(s: Seq<char>, j: int)
    requires
        0 <= j <= s.len(),
    ensures
        0 <= rws_begin(s, j) <= j,
        forall|k: int| rws_begin(s, j) <= k < j ==> is_space(s[k]),
        rws_begin(s, j) > 0 ==> !is_space(s[rws_begin(s, j) - 1]),
    decreases j,
{
    if j > 0 && is_space(s[j - 1]) {
        lemma_rws_begin(s, j - 1);
    }
}

pub(crate) fn scan_rws_begin(v: &Vec<char>, j: usize) -> (r: usize)
    requires
        j <= v.len(),
    ensures
        r as int == rws_begin(v@, j as int),
        r <= j,
{
    let mut k: usize = j;
    while k > 0 && space_char(v[k - 1])
        invariant
            k <= j <= v.len(),
            rws_begin(v@, j as int) == rws_begin(v@, k as int),
        decreases k,
    {
        k -= 1;
    }
    k
}

/// The suffix of `s` from `from`, with leading and trailing whitespace
/// removed: what `str::trim` leaves of that suffix.
pub open spec fn trim_sub(s: Seq<char>, from: int) -> Seq<char> {
    let a = ws_end(s, from);
    if a == s.len() {
        Seq::empty()
    } else {
        s.subrange(a, rws_begin(s, s.len() as int))
    }
}

/// When the suffix holds a non-space, the trimmed range is well formed.
pub proof fn lemma_trim_sub(s: Seq<char>, from: int)
    requires
        0 <= from <= s.len(),
    ensures
        ws_end(s, from) < s.len() ==> ws_end(s, from) < rws_begin(s, s.len() as int) <= s.len(),
{
    lemma_ws_end(s, from);
    lemma_rws_begin(s, s.len() as int);
    let a = ws_end(s, from);
    if a < s.len() {
        if rws_begin(s, s.len() as int) <= a {
            assert(is_space(s[a]));
        }
    }
}

/// Appends all of `src` to `out`.
pub(crate) fn push_all(out: &mut Vec<char>, src: &Vec<char>)
    ensures
        final(out)@ == old(out)@ + src@,
{
    let mut k: usize = 0;
    while k < src.len()
        invariant
            k <= src.len(),
            out@ == old(out)@ + src@.take(k as int),
        decreases src.len() - k,
    {
        out.push(src[k]);
        proof {
            assert(out@ =~= old(out)@ + src@.take(k as int + 1));
        }
        k += 1;
    }
    proof {
        assert(out@ =~= old(out)@ + src@);
    }
}

/// Copies `v[a..b]` into a fresh vector.
pub(crate) fn copy_range(v: &Vec<char>, a: usize, b: usize) -> (r: Vec<char>)
    requires
        a <= b <= v.len(),
    ensures
        r@ == v@.subrange(a as int, b as int),
{
    let mut r: Vec<char> = Vec::new();
    let mut k: usize = a;
    while k < b
        invariant
            a <= k <= b <= v.len(),
            r@ == v@.subrange(a as int, k as int),
        decreases b - k,
    {
        r.push(v[k]);
        assert(r@ =~= v@.subrange(a as int, k as int + 1));
        k += 1;
    }
    r
}

// ---------------------------------------------------------------------------
// Line structure.

/// A chunk that ended at a `'\n'` loses one trailing `'\r'`, so that files
/// with CRLF endings read the same as files with LF endings.
pub open spec fn chomp_cr(t: Seq<char>) -> Seq<char> {
    if t.len() > 0 && t.last() == '\r' {
        t.drop_last()
    } else {
        t
    }
}

/// The lines of a text, as `str::lines` yields them: split at each `'\n'`,
/// each piece before a `'\n'` losing one trailing `'\r'`; a final piece
/// without a `'\n'` is a line only if it is non-empty.
pub open spec fn spec_lines(s: Seq<char>) -> Seq<Seq<char>>
    decreases s.len(),
{
    if s.len() == 0 {
        Seq::empty()
    } else {
        let e = line_end(s, 0);
        if !(0 <= e < s.len()) {
            seq![s]
        } else {
            seq![chomp_cr(s.take(e))] + spec_lines(s.skip(e + 1))
        }
    }
}

/// Whether a piece of text is free of `'\n'`.
pub open spec fn no_newline(t: Seq<char>) -> bool {
    forall|j: int| 0 <= j < t.len() ==> t[j] != '\n'
}

/// No line produced by `spec_lines` contains a newline.
pub proof fn lemma_lines_no_newline(s: Seq<char>)
    ensures
        forall|k: int| 0 <= k < spec_lines(s).len() ==> no_newline(#[trigger] spec_lines(s)[k]),
    decreases s.len(),
{
    if s.len() > 0 {
        let e = line_end(s, 0);
        lemma_line_end(s, 0);
        if !(0 <= e < s.len()) {
            assert(no_newline(s));
        } else {
            let head = chomp_cr(s.take(e));
            assert(no_newline(head));
            lemma_lines_no_newline(s.skip(e + 1));
            assert forall|k: int| 0 <= k < spec_lines(s).len() implies no_newline(
                #[trigger] spec_lines(s)[k],
            ) by {
                if k > 0 {
                    assert(spec_lines(s)[k] == spec_lines(s.skip(e + 1))[k - 1]);
                }
            }
        }
    }
}

/// A text has no more lines than characters, and no line is longer than the
/// text.
pub proof fn lemma_lines_len_bound(s: Seq<char>)
    ensures
        spec_lines(s).len() <= s.len(),
        forall|k: int| 0 <= k < spec_lines(s).len() ==> (#[trigger] spec_lines(s)[k]).len()
            <= s.len(),
    decreases s.len(),
{
    if s.len() > 0 {
        let e = line_end(s, 0);
        lemma_line_end(s, 0);
        if 0 <= e < s.len() {
            lemma_lines_len_bound(s.skip(e + 1));
            assert forall|k: int| 0 <= k < spec_lines(s).len() implies (#[trigger] spec_lines(
                s,
            )[k]).len() <= s.len() by {
                if k > 0 {
                    assert(spec_lines(s)[k] == spec_lines(s.skip(e + 1))[k - 1]);
                }
            }
        }
    }
}

/// Splits a text into its lines.
pub(crate) fn split_lines(v: &Vec<char>) -> (r: Vec<Vec<char>>)
    ensures
        r.deep_view() == spec_lines(v@),
{
    let mut r: Vec<Vec<char>> = Vec::new();
    let mut cur: Vec<char> = Vec::new();
    let mut ls: usize = 0;
    let mut pos: usize = 0;
    proof {
        assert(cur@ =~= v@.subrange(0, 0));
        assert(v@.skip(0) =~= v@);
        assert(r.deep_view() + spec_lines(v@) =~~= spec_lines(v@));
    }
    while pos < v.len()
        invariant
            ls <= pos <= v.len(),
            cur@ == v@.subrange(ls as int, pos as int),
            forall|k: int| ls <= k < pos ==> v@[k] != '\n',
            spec_lines(v@) == r.deep_view() + spec_lines(v@.skip(ls as int)),
        decreases v.len() - pos,
    {
        let c = v[pos];
        if c == '\n' {
            proof {
                let u = v@.skip(ls as int);
                assert forall|j: int| 0 <= j < pos - ls implies u[j] != '\n' by {
                    assert(u[j] == v@[ls + j]);
                }
                assert(u[pos - ls] == '\n');
                lemma_line_end_unique(u, 0, pos - ls);
                assert(u.take(pos - ls) =~= v@.subrange(ls as int, pos as int));
                assert(u.skip(pos - ls + 1) =~= v@.skip(pos as int + 1));
            }
            if cur.len() > 0 && cur[cur.len() - 1] == '\r' {
                cur.pop();
                proof {
                    assert(cur@ =~= chomp_cr(v@.subrange(ls as int, pos as int)));
                }
            }
            proof {
                assert(cur@ == chomp_cr(v@.subrange(ls as int, pos as int)));
            }
            let ghost old_r = r.deep_view();
            r.push(cur);
            proof {
                assert(r.deep_view() =~~= old_r + seq![chomp_cr(v@.subrange(ls as int, pos as int))]);
                assert(spec_lines(v@) =~~= r.deep_view() + spec_lines(v@.skip(pos as int + 1)));
            }
            cur = Vec::new();
            ls = pos + 1;
            pos = pos + 1;
            proof {
                assert(cur@ =~= v@.subrange(ls as int, pos as int));
            }
        } else {
            cur.push(c);
            pos = pos + 1;
            proof {
                assert(cur@ =~= v@.subrange(ls as int, pos as int));
            }
        }
    }
    if ls < v.len() {
        proof {
            let u = v@.skip(ls as int);
            assert forall|j: int| 0 <= j < u.len() implies u[j] != '\n' by {
                assert(u[j] == v@[ls + j]);
            }
            lemma_line_end_unique(u, 0, u.len() as int);
            assert(cur@ =~= u);
        }
        let ghost old_r = r.deep_view();
        r.push(cur);
        proof {
            assert(r.deep_view() =~~= old_r + seq![v@.skip(ls as int)]);
            assert(spec_lines(v@.skip(ls as int)) == seq![v@.skip(ls as int)]);
            assert(r.deep_view() =~~= spec_lines(v@));
        }
    } else {
        proof {
            assert(v@.skip(ls as int) =~= Seq::<char>::empty());
            assert(r.deep_view() =~~= spec_lines(v@));
        }
    }
    r
}

// ---------------------------------------------------------------------------
// Decimal rendering and reading.

/// The decimal digit character for `d` in `0..10`.
pub open spec fn digit_char(d: int) -> char {
    ((48 + d) as u32) as char
}

/// The decimal digits of `n`, most significant first.
pub open spec fn dec_digits(n: nat) -> Seq<char>
    decreases n,
{
    if n < 10 {
        seq![digit_char(n as int)]
    } else {
        dec_digits(n / 10) + seq![digit_char((n % 10) as int)]
    }
}

/// The decimal rendering of a signed value, as `format!` writes it.
pub open spec fn dec_int(v: int) -> Seq<char> {
    if v < 0 {
        seq!['-'] + dec_digits((-v) as nat)
    } else {
        dec_digits(v as nat)
    }
}

/// Appends the decimal digits of `m` to `out`.
pub(crate) fn push_u64_dec(out: &mut Vec<char>, m: u64)
    ensures
        final(out)@ == old(out)@ + dec_digits(m as nat),
    decreases m,
{
    if m < 10 {
        let d: u8 = (m as u8) + 48;
        out.push(d as char);
        proof {
            assert(final(out)@ =~= old(out)@ + dec_digits(m as nat));
        }
    } else {
        push_u64_dec(out, m / 10);
        let d: u8 = ((m % 10) as u8) + 48;
        out.push(d as char);
        proof {
            assert(final(out)@ =~= old(out)@ + dec_digits(m as nat));
        }
    }
}

/// Appends the decimal rendering of `v`, sign included, to `out`.
pub(crate) fn push_i32_dec(out: &mut Vec<char>, v: i32)
    ensures
        final(out)@ == old(out)@ + dec_int(v as int),
{
    if v < 0 {
        out.push('-');
        let m: u64 = (-(v as i64)) as u64;
        push_u64_dec(out, m);
        proof {
            assert(final(out)@ =~= old(out)@ + dec_int(v as int));
        }
    } else {
        push_u64_dec(out, v as u64);
    }
}

/// The value of a digit character (0 for anything else).
pub open spec fn digit_val(c: char) -> nat {
    if is_digit(c) {
        (c as u32 - 48) as nat
    } else {
        0
    }
}

/// The number written by a sequence of digit characters.
pub open spec fn digits_val(s: Seq<char>) -> nat
    decreases s.len(),
{
    if s.len() == 0 {
        0
    } else {
        10 * digits_val(s.drop_last()) + digit_val(s.last())
    }
}

/// A prefix of a digit string never writes a larger number.
pub proof fn lemma_digits_val_prefix(s: Seq<char>, k: int)
    requires
        0 <= k <= s.len(),
    ensures
        digits_val(s.take(k)) <= digits_val(s),
    decreases s.len() - k,
{
    if k < s.len() {
        lemma_digits_val_prefix(s.drop_last(), k);
        assert(s.drop_last().take(k) =~= s.take(k));
    } else {
        assert(s.take(k) =~= s);
    }
}

/// Reads the number written by the digits `v[a..b]`; `None` when it does not
/// fit in a `usize`.
pub(crate) fn parse_usize(v: &Vec<char>, a: usize, b: usize) -> (r: Option<usize>)
    requires
        a <= b <= v.len(),
        forall|j: int| a <= j < b ==> is_digit(v@[j]),
    ensures
        match r {
            Some(n) => digits_val(v@.subrange(a as int, b as int)) == n,
            None => digits_val(v@.subrange(a as int, b as int)) > usize::MAX,
        },
{
    let mut acc: usize = 0;
    let mut k: usize = a;
    while k < b
        invariant
            a <= k <= b <= v.len(),
            forall|j: int| a <= j < b ==> is_digit(v@[j]),
            acc == digits_val(v@.subrange(a as int, k as int)),
        decreases b - k,
    {
        proof {
            let pre = v@.subrange(a as int, k as int);
            let pre1 = v@.subrange(a as int, k as int + 1);
            assert(pre1.drop_last() =~= pre);
            assert(pre1.last() == v@[k as int]);
            assert(pre1 =~= v@.subrange(a as int, b as int).take(k as int + 1 - a));
            lemma_digits_val_prefix(v@.subrange(a as int, b as int), k as int + 1 - a);
            vstd::arithmetic::div_mod::lemma_fundamental_div_mod(usize::MAX as int, 10);
        }
        let u: u32 = v[k] as u32;
        let d: usize = (u - 48) as usize;
        if acc > usize::MAX / 10 {
            return None;
        }
        acc = acc * 10;
        if d > usize::MAX - acc {
            return None;
        }
        acc = acc + d;
        k += 1;
    }
    proof {
        assert(v@.subrange(a as int, b as int) =~= v@.subrange(a as int, k as int));
    }
    Some(acc)
}

// ---------------------------------------------------------------------------
// Conversions between strings and character vectors.

/// The characters of a string slice, in order.
pub(crate) fn str_to_char_vec(s: &str) -> (v: Vec<char>)
    ensures
        v@ == s@,
{
    let mut it = s.chars();
    let mut v: Vec<char> = Vec::new();
    loop
        invariant
            it.decrease() is Some,
            v@ + it.remaining() == s@,
        ensures
            v@ == s@,
        decreases it.decrease()->0,
    {
        match it.next() {
            Some(c) => {
                v.push(c);
                proof {
                    assert(v@ + it.remaining() =~= s@);
                }
            },
            None => {
                proof {
                    assert(v@ =~= s@);
                }
                break ;
            },
        }
    }
    v
}

/// Relies on `String`'s `FromIterator` over `char`: collecting an iterator of
/// characters yields the string of exactly those characters, in order.
#[verifier::external_body]
pub(crate) fn chars_to_string(v: &Vec<char>) -> (s: String)
    ensures
        s@ == v@,
{
    v.iter().collect()
}

} // verus!

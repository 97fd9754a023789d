//! Header directives: `//@` comment lines at the top of a test file.  Only
//! the `edition` key is rewritten; every other header passes through
//! untouched.

use crate::text::{
    chars_to_string, copy_range, push_all, rbracket_end, scan_rbracket_end, scan_rws_begin,
    scan_ws_end, spec_lines, split_lines, str_to_char_vec, trim_sub, ws_end,
};
use crate::ConvertError;
use vstd::prelude::*;

verus! {

/// The mathematical content of a recognised header line.
pub struct HeaderView {
    pub line_number: int,
    pub directive: Seq<char>,
    pub dejagnu_header: Seq<char>,
}

/// One recognised header directive with its rendered replacement.
#[derive(Debug)]
pub struct HeaderLine {
    /// 1-based number of the line the directive stands on.
    pub line_number: usize,
    /// The key of the directive, after the comment and the optional revision
    /// specifier.
    pub directive: String,
    /// The DejaGnu-formatted replacement for the whole line.
    pub dejagnu_header: String,
}

impl View for HeaderLine {
    type V = HeaderView;

    open spec fn view(&self) -> HeaderView {
        HeaderView {
            line_number: self.line_number as int,
            directive: self.directive@,
            dejagnu_header: self.dejagnu_header@,
        }
    }
}

impl DeepView for HeaderLine {
    type V = HeaderView;

    open spec fn deep_view(&self) -> HeaderView {
        self.view()
    }
}

// ---------------------------------------------------------------------------
// Recognising one header line.

/// The line opens, after any leading whitespace, with the header comment
/// marker `//@`.
pub open spec fn spec_is_header(s: Seq<char>) -> bool {
    let a = ws_end(s, 0);
    a + 3 <= s.len() && s[a] == '/' && s[a + 1] == '/' && s[a + 2] == '@'
}

/// After `//@` and whitespace the directive opens with `[`: a revision
/// specifier.
pub open spec fn spec_has_open_bracket(t: Seq<char>) -> bool {
    let u = ws_end(t, 3);
    u < t.len() && t[u] == '['
}

/// The revision specifier's closing `]` exists.
pub open spec fn spec_bracket_closed(t: Seq<char>) -> bool {
    rbracket_end(t, ws_end(t, 3) + 1) < t.len()
}

/// Start of the directive proper in a trimmed header line: after `//@`,
/// whitespace, and any closed revision specifier.
pub open spec fn spec_directive_pos(t: Seq<char>) -> int {
    let u = ws_end(t, 3);
    if spec_has_open_bracket(t) {
        ws_end(t, rbracket_end(t, u + 1) + 1)
    } else {
        u
    }
}

/// The directive at `d` is `<name>:`; its value is everything after the colon.
pub open spec fn spec_name_value(t: Seq<char>, d: int, n: Seq<char>) -> bool {
    &&& d + n.len() + 1 <= t.len()
    &&& t.subrange(d, d + n.len()) == n
    &&& t[d + n.len()] == ':'
}

/// The one directive key that is rewritten.
pub open spec fn edition_name() -> Seq<char> {
    seq!['e', 'd', 'i', 't', 'i', 'o', 'n']
}

/// The fixed opening of the rendered header:
/// `// { dg-additional-options "-frust-edition=`.
pub open spec fn edition_head() -> Seq<char> {
    seq![
        '/',
        '/',
        ' ',
        '{',
        ' ',
        'd',
        'g',
        '-',
        'a',
        'd',
        'd',
        'i',
        't',
        'i',
        'o',
        'n',
        'a',
        'l',
        '-',
        'o',
        'p',
        't',
        'i',
        'o',
        'n',
        's',
        ' ',
        '"',
        '-',
        'f',
        'r',
        'u',
        's',
        't',
        '-',
        'e',
        'd',
        'i',
        't',
        'i',
        'o',
        'n',
        '=',
    ]
}

/// The rendered replacement line for an `edition:` directive.
pub open spec fn spec_dejagnu_edition(value: Seq<char>) -> Seq<char> {
    edition_head() + value + seq!['"', ' ', '}']
}

/// What one line contributes to the header pass.
pub enum HeaderOutcome {
    /// Not a header, or a header whose key is not rewritten.
    NoHeader,
    /// A revision specifier without its closing bracket: the conversion fails.
    Fatal { err: ConvertError },
    /// A recognised `edition` directive.
    Header { h: HeaderView },
}

/// What the trimmed line `t`, standing at 0-based index `idx`, contributes.
pub open spec fn spec_header_outcome_trimmed(idx: int, t: Seq<char>) -> HeaderOutcome {
    if !(t.len() >= 3 && t[0] == '/' && t[1] == '/' && t[2] == '@') {
        HeaderOutcome::NoHeader
    } else if spec_has_open_bracket(t) && !spec_bracket_closed(t) {
        HeaderOutcome::Fatal {
            err: ConvertError::UnclosedRevisionBracket { line: (idx + 1) as usize },
        }
    } else {
        let d = spec_directive_pos(t);
        if spec_name_value(t, d, edition_name()) {
            HeaderOutcome::Header {
                h: HeaderView {
                    line_number: idx + 1,
                    directive: edition_name(),
                    dejagnu_header: spec_dejagnu_edition(t.skip(d + edition_name().len() + 1)),
                },
            }
        } else {
            HeaderOutcome::NoHeader
        }
    }
}

/// What the raw line `s` at 0-based index `idx` contributes: the line is
/// trimmed first.
pub open spec fn spec_header_outcome(idx: int, s: Seq<char>) -> HeaderOutcome {
    spec_header_outcome_trimmed(idx, trim_sub(s, 0))
}

/// Whether the line is a header-directive comment.
pub fn is_header_line(line: &str) -> (r: bool)
    ensures
        r == spec_is_header(line@),
{
    let v = str_to_char_vec(line);
    is_header_chars(&v)
}

/// `is_header_line`, for a line already split into characters.
pub(crate) fn is_header_chars(v: &Vec<char>) -> (r: bool)
    ensures
        r == spec_is_header(v@),
{
    let a = scan_ws_end(v, 0);
    a < v.len() && v.len() - a >= 3 && v[a] == '/' && v[a + 1] == '/' && v[a + 2] == '@'
}

/// The key `edition`, as characters.
fn edition_name_vec() -> (v: Vec<char>)
    ensures
        v@ == edition_name(),
{
    let mut v: Vec<char> = Vec::new();
    v.push('e');
    v.push('d');
    v.push('i');
    v.push('t');
    v.push('i');
    v.push('o');
    v.push('n');
    proof {
        assert(v@ =~= edition_name());
    }
    v
}

/// Finds the directive proper in a trimmed header comment: `Ok(None)` when
/// the line is no comment, `Err(())` when a revision specifier never closes,
/// else the position where the directive starts.
fn line_directive(t: &Vec<char>) -> (r: Result<Option<usize>, ()>)
    ensures
        match r {
            Ok(None) => !(t@.len() >= 3 && t@[0] == '/' && t@[1] == '/' && t@[2] == '@'),
            Ok(Some(d)) => {
                &&& t@.len() >= 3 && t@[0] == '/' && t@[1] == '/' && t@[2] == '@'
                &&& spec_has_open_bracket(t@) ==> spec_bracket_closed(t@)
                &&& d as int == spec_directive_pos(t@)
                &&& d <= t@.len()
            },
            Err(_) => {
                &&& t@.len() >= 3 && t@[0] == '/' && t@[1] == '/' && t@[2] == '@'
                &&& spec_has_open_bracket(t@)
                &&& !spec_bracket_closed(t@)
            },
        },
{
    if !(t.len() >= 3 && t[0] == '/' && t[1] == '/' && t[2] == '@') {
        return Ok(None);
    }
    let u = scan_ws_end(t, 3);
    if u < t.len() && t[u] == '[' {
        let rb = scan_rbracket_end(t, u + 1);
        if rb == t.len() {
            return Err(());
        }
        Ok(Some(scan_ws_end(t, rb + 1)))
    } else {
        Ok(Some(u))
    }
}

/// Recognises `<name>:` at `d` and yields the position after the colon.
fn parse_name_value_directive(t: &Vec<char>, d: usize, name: &Vec<char>) -> (r: Option<usize>)
    requires
        d <= t.len(),
    ensures
        match r {
            Some(vs) => spec_name_value(t@, d as int, name@) && vs as int == d + name@.len() + 1,
            None => !spec_name_value(t@, d as int, name@),
        },
{
    let tl: usize = t.len();
    let nl: usize = name.len();
    if tl - d <= nl {
        return None;
    }
    let mut k: usize = 0;
    while k < nl
        invariant
            k <= nl,
            d + nl < tl,
            tl == t@.len(),
            nl == name@.len(),
            forall|j: int| 0 <= j < k ==> t@[d + j] == name@[j],
        decreases nl - k,
    {
        if t[d + k] != name[k] {
            proof {
                if spec_name_value(t@, d as int, name@) {
                    assert(t@.subrange(d as int, d + name@.len())[k as int] == name@[k as int]);
                }
            }
            return None;
        }
        k += 1;
    }
    if t[d + name.len()] != ':' {
        return None;
    }
    proof {
        assert(t@.subrange(d as int, d + name@.len()) =~= name@);
    }
    Some(d + name.len() + 1)
}

/// Recognises an `edition:` directive and yields the start of its value.
fn parse_edition(t: &Vec<char>, d: usize) -> (r: Option<usize>)
    requires
        d <= t.len(),
    ensures
        match r {
            Some(vs) => spec_name_value(t@, d as int, edition_name()) && vs as int == d
                + edition_name().len() + 1 && vs <= t@.len(),
            None => !spec_name_value(t@, d as int, edition_name()),
        },
{
    let name = edition_name_vec();
    parse_name_value_directive(t, d, &name)
}

/// Renders the replacement line for an edition value.
#[verifier::rlimit(50)]
fn to_dejagnu_edition(value: &Vec<char>) -> (r: Vec<char>)
    ensures
        r@ == spec_dejagnu_edition(value@),
{
    let mut r: Vec<char> = Vec::new();
    r.push('/');
    r.push('/');
    r.push(' ');
    r.push('{');
    r.push(' ');
    r.push('d');
    r.push('g');
    r.push('-');
    r.push('a');
    r.push('d');
    r.push('d');
    r.push('i');
    r.push('t');
    r.push('i');
    r.push('o');
    r.push('n');
    r.push('a');
    r.push('l');
    r.push('-');
    r.push('o');
    r.push('p');
    r.push('t');
    r.push('i');
    r.push('o');
    r.push('n');
    r.push('s');
    r.push(' ');
    r.push('"');
    r.push('-');
    r.push('f');
    r.push('r');
    r.push('u');
    r.push('s');
    r.push('t');
    r.push('-');
    r.push('e');
    r.push('d');
    r.push('i');
    r.push('t');
    r.push('i');
    r.push('o');
    r.push('n');
    r.push('=');
    proof {
        assert(r@ =~= edition_head());
    }
    push_all(&mut r, value);
    r.push('"');
    r.push(' ');
    r.push('}');
    proof {
        assert(r@ =~= spec_dejagnu_edition(value@));
    }
    r
}

/// Recognises a header directive on a trimmed line and renders it.
/// `line_number` is the line's 0-based index.
fn add_additional_options(t: &Vec<char>, line_number: usize) -> (r: Result<
    Option<HeaderLine>,
    ConvertError,
>)
    requires
        line_number < 0x7fff_ffff,
    ensures
        match spec_header_outcome_trimmed(line_number as int, t@) {
            HeaderOutcome::NoHeader => r matches Ok(None),
            HeaderOutcome::Fatal { err } => r matches Err(e2) && e2 == err,
            HeaderOutcome::Header { h } => r matches Ok(Some(hl)) && hl@ == h,
        },
{
    let d = match line_directive(t) {
        Ok(None) => {
            return Ok(None);
        },
        Err(_) => {
            return Err(ConvertError::UnclosedRevisionBracket { line: line_number + 1 });
        },
        Ok(Some(d)) => d,
    };
    let vs = match parse_edition(t, d) {
        None => {
            return Ok(None);
        },
        Some(vs) => vs,
    };
    let value = copy_range(t, vs, t.len());
    let rendered = to_dejagnu_edition(&value);
    let hl = HeaderLine {
        line_number: line_number + 1,
        directive: chars_to_string(&edition_name_vec()),
        dejagnu_header: chars_to_string(&rendered),
    };
    proof {
        assert(value@ =~= t@.skip(d + edition_name().len() + 1));
        assert(hl@.dejagnu_header =~= spec_dejagnu_edition(t@.skip(d + edition_name().len() + 1)));
    }
    Ok(Some(hl))
}

// ---------------------------------------------------------------------------
// The header pass over a whole file.

/// The recognised headers of the file from line `i` onward, or the first
/// malformed revision specifier.
pub open spec fn spec_headers_from(lines: Seq<Seq<char>>, i: int) -> Result<
    Seq<HeaderView>,
    ConvertError,
>
    decreases lines.len() - i,
{
    if !(0 <= i < lines.len()) {
        Ok(Seq::empty())
    } else {
        match spec_header_outcome(i, lines[i]) {
            HeaderOutcome::NoHeader => spec_headers_from(lines, i + 1),
            HeaderOutcome::Fatal { err } => Err(err),
            HeaderOutcome::Header { h } => match spec_headers_from(lines, i + 1) {
                Err(e) => Err(e),
                Ok(rest) => Ok(seq![h] + rest),
            },
        }
    }
}

/// Collects the recognised `edition` headers of a file, in line order, each
/// with its rendered replacement.  Fails on a revision specifier that never
/// closes.
pub fn parse_additional_options(code: &str) -> (r: Result<Vec<HeaderLine>, ConvertError>)
    requires
        code@.len() <= 0x7fff_ffff,
    ensures
        match r {
            Ok(v) => spec_headers_from(spec_lines(code@), 0) == Ok::<Seq<HeaderView>, ConvertError>(
                v.deep_view(),
            ),
            Err(e) => spec_headers_from(spec_lines(code@), 0) == Err::<
                Seq<HeaderView>,
                ConvertError,
            >(e),
        },
{
    let chars = str_to_char_vec(code);
    let lines = split_lines(&chars);
    proof {
        crate::text::lemma_lines_len_bound(code@);
    }
    let ghost ll = spec_lines(code@);
    let mut headers: Vec<HeaderLine> = Vec::new();
    let mut i: usize = 0;
    proof {
        match spec_headers_from(ll, 0) {
            Ok(rest) => {
                assert(headers.deep_view() + rest =~~= rest);
            },
            Err(_) => {},
        }
    }
    while i < lines.len()
        invariant
            i <= lines.len(),
            lines.deep_view() == ll,
            ll == spec_lines(code@),
            lines@.len() <= 0x7fff_ffff,
            match spec_headers_from(ll, i as int) {
                Ok(rest) => spec_headers_from(ll, 0) == Ok::<Seq<HeaderView>, ConvertError>(
                    headers.deep_view() + rest,
                ),
                Err(e) => spec_headers_from(ll, 0) == Err::<Seq<HeaderView>, ConvertError>(e),
            },
        decreases lines.len() - i,
    {
        proof {
            assert(lines@[i as int].deep_view() =~= lines@[i as int]@);
            assert(lines@[i as int]@ == ll[i as int]);
        }
        let line = &lines[i];
        let a = scan_ws_end(line, 0);
        let t: Vec<char> = if a == line.len() {
            Vec::new()
        } else {
            proof {
                crate::text::lemma_trim_sub(line@, 0);
            }
            let b = scan_rws_begin(line, line.len());
            copy_range(line, a, b)
        };
        proof {
            assert(t@ =~= trim_sub(ll[i as int], 0));
        }
        match add_additional_options(&t, i) {
            Err(e) => {
                return Err(e);
            },
            Ok(None) => {
                i += 1;
            },
            Ok(Some(hl)) => {
                let ghost old_headers = headers.deep_view();
                headers.push(hl);
                proof {
                    assert(headers.deep_view() =~~= old_headers + seq![hl@]);
                    if let HeaderOutcome::Header { h } = spec_header_outcome(
                        i as int,
                        ll[i as int],
                    ) {
                        match spec_headers_from(ll, i as int + 1) {
                            Ok(rest) => {
                                assert(old_headers + (seq![h] + rest) =~~= headers.deep_view()
                                    + rest);
                            },
                            Err(_) => {},
                        }
                    }
                }
                i += 1;
            },
        }
    }
    proof {
        assert(spec_headers_from(ll, lines@.len() as int) == Ok::<Seq<HeaderView>, ConvertError>(
            Seq::empty(),
        ));
        assert(headers.deep_view() + Seq::<HeaderView>::empty() =~~= headers.deep_view());
    }
    Ok(headers)
}

} // verus!

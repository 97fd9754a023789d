//! The rewriter: emits the file again, one output line per input line, with
//! each annotation comment replaced by its DejaGnu directive and each
//! recognised header replaced by its rendered form.

use crate::errors::{
    find_sigil, find_sigil_exec, load_error, opt_str_view, push_directive, rec_code_at,
    spec_directive, spec_enrich, spec_first_code, spec_line_outcome, spec_load_error,
    spec_records_from, spec_resolve_from, Error, ErrorView, LineOutcome, RecordView,
};
use crate::header::{
    is_header_chars, parse_additional_options, spec_headers_from, spec_is_header, HeaderLine,
    HeaderOutcome, HeaderView,
};
use crate::text::{
    chars_to_string, copy_range, dec_digits, dec_int, digit_char, is_digit, lemma_line_end_unique,
    lemma_lines_len_bound, lemma_lines_no_newline, no_newline, push_all, spec_lines,
    split_lines, str_to_char_vec,
};
use crate::ConvertError;
use vstd::prelude::*;

verus! {

// ---------------------------------------------------------------------------
// Which rendered piece lands on a given output line.

/// The rendered replacement of the first header standing on line `n`.
pub open spec fn first_header_at(hs: Seq<HeaderView>, n: int) -> Option<Seq<char>>
    decreases hs.len(),
{
    if hs.len() == 0 {
        None
    } else if hs[0].line_number == n {
        Some(hs[0].dejagnu_header)
    } else {
        first_header_at(hs.drop_first(), n)
    }
}

/// The first annotation whose own comment line is `n`.  An annotation's
/// comment line is its target plus the distance the offset records.
pub open spec fn first_ann_at(anns: Seq<ErrorView>, n: int) -> Option<ErrorView>
    decreases anns.len(),
{
    if anns.len() == 0 {
        None
    } else if anns[0].line_num - anns[0].relative_line_num == n {
        Some(anns[0])
    } else {
        first_ann_at(anns.drop_first(), n)
    }
}

/// What stands before the annotation sigil on a line (the whole line when no
/// sigil is found).
pub open spec fn sigil_prefix(line: Seq<char>) -> Seq<char> {
    let p = find_sigil(line, 0);
    if p >= 0 {
        line.take(p)
    } else {
        line
    }
}

/// One output line: a recognised header is replaced whole; an annotation
/// whose comment sits below its target replaces its line whole; an annotation
/// on its own target line keeps the code before the sigil and the directive
/// follows it; anything else passes through unchanged.
pub open spec fn spec_rewrite_line(
    line: Seq<char>,
    n: int,
    hs: Seq<HeaderView>,
    anns: Seq<ErrorView>,
) -> Seq<char> {
    if spec_is_header(line) {
        match first_header_at(hs, n) {
            Some(h) => h,
            None => line,
        }
    } else {
        match first_ann_at(anns, n) {
            Some(a) => if a.relative_line_num != 0 {
                spec_directive(a.kind, a.error_code, a.relative_line_num)
            } else {
                sigil_prefix(line) + spec_directive(a.kind, a.error_code, a.relative_line_num)
            },
            None => line,
        }
    }
}

/// The rewritten text from line `i` on: each line rendered and terminated
/// with a newline.
pub open spec fn spec_render_from(
    lines: Seq<Seq<char>>,
    hs: Seq<HeaderView>,
    anns: Seq<ErrorView>,
    i: int,
) -> Seq<char>
    decreases lines.len() - i,
{
    if !(0 <= i < lines.len()) {
        Seq::empty()
    } else {
        spec_rewrite_line(lines[i], i + 1, hs, anns) + seq!['\n'] + spec_render_from(
            lines,
            hs,
            anns,
            i + 1,
        )
    }
}

/// What `transform_code` returns: the whole file rewritten, or the first
/// fatal condition (malformed annotations are reported before malformed
/// headers, in line order each).
pub open spec fn spec_transform(code: Seq<char>, stderr: Option<Seq<char>>) -> Result<
    Seq<char>,
    ConvertError,
> {
    match spec_load_error(code, stderr) {
        Err(e) => Err(e),
        Ok(anns) => match spec_headers_from(spec_lines(code), 0) {
            Err(e) => Err(e),
            Ok(hs) => Ok(spec_render_from(spec_lines(code), hs, anns, 0)),
        },
    }
}

// ---------------------------------------------------------------------------
// Locating the pieces at run time.

fn find_header_idx(headers: &Vec<HeaderLine>, n: usize) -> (r: Option<usize>)
    ensures
        match r {
            Some(j) => j < headers.len() && first_header_at(headers.deep_view(), n as int) == Some(
                headers@[j as int]@.dejagnu_header,
            ),
            None => first_header_at(headers.deep_view(), n as int) is None,
        },
{
    let ghost hs = headers.deep_view();
    let mut j: usize = 0;
    proof {
        assert(hs.skip(0) =~~= hs);
    }
    while j < headers.len()
        invariant
            j <= headers.len(),
            hs == headers.deep_view(),
            first_header_at(hs, n as int) == first_header_at(hs.skip(j as int), n as int),
        decreases headers.len() - j,
    {
        proof {
            assert(hs.skip(j as int)[0] == headers@[j as int]@);
            assert(hs.skip(j as int).drop_first() =~~= hs.skip(j as int + 1));
        }
        if headers[j].line_number == n {
            return Some(j);
        }
        j += 1;
    }
    proof {
        assert(hs.skip(headers@.len() as int) =~~= Seq::<HeaderView>::empty());
    }
    None
}

fn find_ann_idx(errors: &Vec<Error>, n: usize) -> (r: Option<usize>)
    requires
        forall|k: int| 0 <= k < errors@.len() ==> (#[trigger] errors@[k]).line_num <= 0x7fff_ffff,
        n <= 0x7fff_ffff,
    ensures
        match r {
            Some(j) => j < errors.len() && first_ann_at(errors.deep_view(), n as int) == Some(
                errors@[j as int]@,
            ),
            None => first_ann_at(errors.deep_view(), n as int) is None,
        },
{
    let ghost anns = errors.deep_view();
    let mut j: usize = 0;
    proof {
        assert(anns.skip(0) =~~= anns);
    }
    while j < errors.len()
        invariant
            j <= errors.len(),
            anns == errors.deep_view(),
            forall|k: int| 0 <= k < errors@.len() ==> (#[trigger] errors@[k]).line_num
                <= 0x7fff_ffff,
            n <= 0x7fff_ffff,
            first_ann_at(anns, n as int) == first_ann_at(anns.skip(j as int), n as int),
        decreases errors.len() - j,
    {
        proof {
            assert(anns.skip(j as int)[0] == errors@[j as int]@);
            assert(anns.skip(j as int).drop_first() =~~= anns.skip(j as int + 1));
        }
        let e = &errors[j];
        if (e.line_num as i64) - (e.relative_line_num as i64) == n as i64 {
            return Some(j);
        }
        j += 1;
    }
    proof {
        assert(anns.skip(errors@.len() as int) =~~= Seq::<ErrorView>::empty());
    }
    None
}

// ---------------------------------------------------------------------------
// Line-count preservation: every rendered piece is newline-free, so the
// output has exactly one line per input line.

proof fn lemma_no_nl_concat(a: Seq<char>, b: Seq<char>)
    requires
        no_newline(a),
        no_newline(b),
    ensures
        no_newline(a + b),
{
    assert forall|j: int| 0 <= j < (a + b).len() implies (a + b)[j] != '\n' by {
        if j < a.len() {
            assert((a + b)[j] == a[j]);
        } else {
            assert((a + b)[j] == b[j - a.len()]);
        }
    }
}

proof fn lemma_dec_digits_no_nl(n: nat)
    ensures
        no_newline(dec_digits(n)),
    decreases n,
{
    if n >= 10 {
        lemma_dec_digits_no_nl(n / 10);
        lemma_no_nl_concat(dec_digits(n / 10), seq![digit_char((n % 10) as int)]);
    }
}

proof fn lemma_dec_int_no_nl(v: int)
    ensures
        no_newline(dec_int(v)),
{
    if v < 0 {
        lemma_dec_digits_no_nl((-v) as nat);
        lemma_no_nl_concat(seq!['-'], dec_digits((-v) as nat));
    } else {
        lemma_dec_digits_no_nl(v as nat);
    }
}

proof fn lemma_directive_no_nl(kind: Option<crate::errors::RustcErrorKind>, code: Option<Seq<char>>, rel: int)
    requires
        match code {
            Some(c) => no_newline(c),
            None => true,
        },
    ensures
        no_newline(spec_directive(kind, code, rel)),
{
    assert(no_newline(crate::errors::dir_head()));
    assert(no_newline(crate::errors::spec_severity_tag(kind)));
    assert(no_newline(crate::errors::dir_frame()));
    let code_field = crate::errors::spec_code_field(code);
    match code {
        Some(c) => {
            if c.len() > 0 {
                lemma_no_nl_concat(seq!['.'], c);
                lemma_no_nl_concat(seq!['.'] + c, seq!['.']);
                assert(code_field =~= (seq!['.'] + c) + seq!['.']);
            }
        },
        None => {},
    }
    assert(no_newline(code_field));
    let offset = crate::errors::spec_offset_field(rel);
    if rel != 0 {
        lemma_dec_int_no_nl(rel);
        lemma_no_nl_concat(seq!['.'], dec_int(rel));
        lemma_no_nl_concat(seq!['.'] + dec_int(rel), seq![' ']);
        assert(offset =~= (seq!['.'] + dec_int(rel)) + seq![' ']);
    }
    assert(no_newline(offset));
    let s1 = crate::errors::dir_head() + crate::errors::spec_severity_tag(kind);
    lemma_no_nl_concat(crate::errors::dir_head(), crate::errors::spec_severity_tag(kind));
    let s2 = s1 + seq![' ', '"'];
    lemma_no_nl_concat(s1, seq![' ', '"']);
    let s3 = s2 + code_field;
    lemma_no_nl_concat(s2, code_field);
    let s4 = s3 + crate::errors::dir_frame();
    lemma_no_nl_concat(s3, crate::errors::dir_frame());
    let s5 = s4 + offset;
    lemma_no_nl_concat(s4, offset);
    lemma_no_nl_concat(s5, seq!['}']);
    assert(spec_directive(kind, code, rel) =~= s5 + seq!['}']);
}

/// A found header's rendering is one of the list's renderings.
proof fn lemma_first_header_member(hs: Seq<HeaderView>, n: int)
    ensures
        match first_header_at(hs, n) {
            Some(h) => exists|k: int| 0 <= k < hs.len() && h == (#[trigger] hs[k]).dejagnu_header,
            None => true,
        },
    decreases hs.len(),
{
    if hs.len() > 0 && hs[0].line_number != n {
        lemma_first_header_member(hs.drop_first(), n);
        if let Some(h) = first_header_at(hs.drop_first(), n) {
            let k0 = choose|k: int|
                0 <= k < hs.drop_first().len() && h == (#[trigger] hs.drop_first()[k]).dejagnu_header;
            assert(hs[k0 + 1] == hs.drop_first()[k0]);
        }
    }
}

/// A found annotation is one of the list's annotations.
proof fn lemma_first_ann_member(anns: Seq<ErrorView>, n: int)
    ensures
        match first_ann_at(anns, n) {
            Some(a) => exists|k: int| 0 <= k < anns.len() && a == #[trigger] anns[k],
            None => true,
        },
    decreases anns.len(),
{
    if anns.len() > 0 && anns[0].line_num - anns[0].relative_line_num != n {
        lemma_first_ann_member(anns.drop_first(), n);
        if let Some(a) = first_ann_at(anns.drop_first(), n) {
            let k0 = choose|k: int| 0 <= k < anns.drop_first().len() && a == #[trigger] anns.drop_first()[k];
            assert(anns[k0 + 1] == anns.drop_first()[k0]);
        }
    }
}

/// A found code is one of the records' codes.
proof fn lemma_first_code_member(recs: Seq<RecordView>, a: ErrorView)
    ensures
        match spec_first_code(recs, a) {
            Some(c) => exists|k: int| 0 <= k < recs.len() && c == (#[trigger] recs[k]).error_code,
            None => true,
        },
    decreases recs.len(),
{
    if recs.len() > 0 && !crate::errors::rec_matches(recs[0], a) {
        lemma_first_code_member(recs.drop_first(), a);
        if let Some(c) = spec_first_code(recs.drop_first(), a) {
            let k0 = choose|k: int|
                0 <= k < recs.drop_first().len() && c == (#[trigger] recs.drop_first()[k]).error_code;
            assert(recs[k0 + 1] == recs.drop_first()[k0]);
        }
    }
}

/// Every code a transcript scan yields is `E` plus digits: newline-free.
proof fn lemma_records_codes_no_nl(s: Seq<char>, i: int)
    ensures
        forall|k: int| 0 <= k < spec_records_from(s, i).len() ==> no_newline(
            (#[trigger] spec_records_from(s, i)[k]).error_code,
        ),
    decreases s.len() - i,
{
    if 0 <= i < s.len() {
        if crate::errors::stderr_match_at(s, i) {
            let e = crate::errors::rec_end_at(s, i);
            let next = if i < e && e <= s.len() {
                e
            } else {
                i + 1
            };
            lemma_records_codes_no_nl(s, next);
            assert(no_newline(rec_code_at(s, i))) by {
                assert forall|j: int| 0 <= j < rec_code_at(s, i).len() implies rec_code_at(s, i)[j]
                    != '\n' by {
                    assert(rec_code_at(s, i)[j] == s[i + 6 + j]);
                    if j > 0 {
                        assert(is_digit(s[i + 6 + j]));
                    }
                }
            }
            if crate::errors::rec_line_at(s, i) <= usize::MAX as nat {
                assert forall|k: int| 0 <= k < spec_records_from(s, i).len() implies no_newline(
                    (#[trigger] spec_records_from(s, i)[k]).error_code,
                ) by {
                    if k > 0 {
                        assert(spec_records_from(s, i)[k] == spec_records_from(s, next)[k - 1]);
                    }
                }
            } else {
                assert(spec_records_from(s, i) == spec_records_from(s, next));
            }
        } else {
            lemma_records_codes_no_nl(s, i + 1);
            assert(spec_records_from(s, i) == spec_records_from(s, i + 1));
        }
    }
}

/// Resolution itself never fills in a code.
proof fn lemma_resolve_no_code(lines: Seq<Seq<char>>, i: int, anchor: Option<int>)
    ensures
        match spec_resolve_from(lines, i, anchor) {
            Ok(anns) => forall|k: int| 0 <= k < anns.len() ==> (#[trigger] anns[k]).error_code
                is None,
            Err(_) => true,
        },
    decreases lines.len() - i,
{
    if 0 <= i < lines.len() {
        match spec_line_outcome(anchor, i, lines[i]) {
            LineOutcome::NoAnn => {
                lemma_resolve_no_code(lines, i + 1, anchor);
            },
            LineOutcome::Fatal { .. } => {},
            LineOutcome::Ann { follow, ann } => {
                let anchor2 = if follow {
                    anchor
                } else {
                    Some(ann.line_num)
                };
                lemma_resolve_no_code(lines, i + 1, anchor2);
            },
        }
    }
}

/// Every resolved target stays within the file's line count.
proof fn lemma_resolve_line_bounds(lines: Seq<Seq<char>>, i: int, anchor: Option<int>)
    requires
        match anchor {
            Some(a) => 0 <= a <= lines.len(),
            None => true,
        },
        0 <= i,
    ensures
        match spec_resolve_from(lines, i, anchor) {
            Ok(anns) => forall|k: int| 0 <= k < anns.len() ==> 0 <= (#[trigger] anns[k]).line_num
                <= lines.len(),
            Err(_) => true,
        },
    decreases lines.len() - i,
{
    if 0 <= i < lines.len() {
        match spec_line_outcome(anchor, i, lines[i]) {
            LineOutcome::NoAnn => {
                lemma_resolve_line_bounds(lines, i + 1, anchor);
            },
            LineOutcome::Fatal { .. } => {},
            LineOutcome::Ann { follow, ann } => {
                assert(0 <= ann.line_num <= lines.len()) by {
                    crate::errors::lemma_find_sigil(lines[i], 0);
                    crate::errors::lemma_sigil_bounds(lines[i], find_sigil(lines[i], 0));
                }
                let anchor2 = if follow {
                    anchor
                } else {
                    Some(ann.line_num)
                };
                lemma_resolve_line_bounds(lines, i + 1, anchor2);
                if let Ok(rest) = spec_resolve_from(lines, i + 1, anchor2) {
                    let whole = seq![ann] + rest;
                    assert forall|k: int| 0 <= k < whole.len() implies 0 <= (
                    #[trigger] whole[k]).line_num <= lines.len() by {
                        if k > 0 {
                            assert(whole[k] == rest[k - 1]);
                        }
                    }
                }
            },
        }
    }
}

/// One rendered line and its newline contribute exactly one line to the
/// output.
proof fn lemma_lines_count_cons(x: Seq<char>, rest: Seq<char>)
    requires
        no_newline(x),
    ensures
        spec_lines(x + seq!['\n'] + rest).len() == 1 + spec_lines(rest).len(),
{
    let s = x + seq!['\n'] + rest;
    assert forall|j: int| 0 <= j < x.len() implies s[j] != '\n' by {
        assert(s[j] == x[j]);
    }
    assert(s[x.len() as int] == '\n');
    lemma_line_end_unique(s, 0, x.len() as int);
    assert(s.skip(x.len() as int + 1) =~= rest);
}

/// The hypotheses under which every rendered line is newline-free.
pub open spec fn render_inputs_clean(
    lines: Seq<Seq<char>>,
    hs: Seq<HeaderView>,
    anns: Seq<ErrorView>,
) -> bool {
    &&& forall|k: int| 0 <= k < lines.len() ==> no_newline(#[trigger] lines[k])
    &&& forall|k: int| 0 <= k < hs.len() ==> no_newline((#[trigger] hs[k]).dejagnu_header)
    &&& forall|k: int|
        0 <= k < anns.len() ==> match (#[trigger] anns[k]).error_code {
            Some(c) => no_newline(c),
            None => true,
        }
}

proof fn lemma_rewrite_line_no_nl(
    line: Seq<char>,
    n: int,
    hs: Seq<HeaderView>,
    anns: Seq<ErrorView>,
)
    requires
        no_newline(line),
        forall|k: int| 0 <= k < hs.len() ==> no_newline((#[trigger] hs[k]).dejagnu_header),
        forall|k: int|
            0 <= k < anns.len() ==> match (#[trigger] anns[k]).error_code {
                Some(c) => no_newline(c),
                None => true,
            },
    ensures
        no_newline(spec_rewrite_line(line, n, hs, anns)),
{
    if spec_is_header(line) {
        lemma_first_header_member(hs, n);
    } else {
        lemma_first_ann_member(anns, n);
        match first_ann_at(anns, n) {
            Some(a) => {
                let k0 = choose|k: int| 0 <= k < anns.len() && a == #[trigger] anns[k];
                lemma_directive_no_nl(a.kind, a.error_code, a.relative_line_num);
                if a.relative_line_num == 0 {
                    assert(no_newline(sigil_prefix(line))) by {
                        crate::errors::lemma_find_sigil(line, 0);
                        let p = find_sigil(line, 0);
                        if p >= 0 {
                            assert forall|j: int| 0 <= j < line.take(p).len() implies line.take(
                                p,
                            )[j] != '\n' by {
                                assert(line.take(p)[j] == line[j]);
                            }
                        }
                    }
                    lemma_no_nl_concat(
                        sigil_prefix(line),
                        spec_directive(a.kind, a.error_code, a.relative_line_num),
                    );
                }
            },
            None => {},
        }
    }
}

/// Line-count preservation: the rewritten text has exactly one line per input
/// line, counting from line `i`.
proof fn lemma_render_line_count(
    lines: Seq<Seq<char>>,
    hs: Seq<HeaderView>,
    anns: Seq<ErrorView>,
    i: int,
)
    requires
        render_inputs_clean(lines, hs, anns),
        0 <= i <= lines.len(),
    ensures
        spec_lines(spec_render_from(lines, hs, anns, i)).len() == lines.len() - i,
    decreases lines.len() - i,
{
    if i < lines.len() {
        let x = spec_rewrite_line(lines[i], i + 1, hs, anns);
        lemma_rewrite_line_no_nl(lines[i], i + 1, hs, anns);
        lemma_render_line_count(lines, hs, anns, i + 1);
        lemma_lines_count_cons(x, spec_render_from(lines, hs, anns, i + 1));
    }
}

// ---------------------------------------------------------------------------
// The rewriter itself.

/// Rewrites a whole annotated source text into DejaGnu form: resolves every
/// annotation (enriching codes from the transcript when one is given),
/// collects the recognised headers, and re-emits the text line by line, each
/// line uniformly newline-terminated.  Fails, producing no output at all, on
/// the first malformed annotation or header; the output, when there is one,
/// has exactly as many lines as the input.
pub fn transform_code(code: &str, stderr_file: Option<&str>) -> (r: Result<String, ConvertError>)
    requires
        code@.len() <= 0x7fff_ffff,
    ensures
        match r {
            Ok(s) => spec_transform(code@, opt_str_view(stderr_file)) == Ok::<
                Seq<char>,
                ConvertError,
            >(s@),
            Err(e) => spec_transform(code@, opt_str_view(stderr_file)) == Err::<
                Seq<char>,
                ConvertError,
            >(e),
        },
        r matches Ok(s) ==> spec_lines(s@).len() == spec_lines(code@).len(),
{
    let errors = match load_error(code, stderr_file) {
        Ok(v) => v,
        Err(e) => {
            return Err(e);
        },
    };
    let headers = match parse_additional_options(code) {
        Ok(v) => v,
        Err(e) => {
            return Err(e);
        },
    };
    let chars = str_to_char_vec(code);
    let lines = split_lines(&chars);
    let ghost ll = spec_lines(code@);
    let ghost anns = errors.deep_view();
    let ghost hs = headers.deep_view();
    proof {
        lemma_lines_len_bound(code@);
        lemma_lines_no_newline(code@);
        lemma_resolve_line_bounds(ll, 0, None);
        lemma_resolve_no_code(ll, 0, None);
        match opt_str_view(stderr_file) {
            Some(st) => {
                lemma_records_codes_no_nl(st, 0);
                let base = spec_resolve_from(ll, 0, None)->Ok_0;
                let recs = spec_records_from(st, 0);
                assert forall|k: int| 0 <= k < anns.len() implies 0 <= (
                #[trigger] anns[k]).line_num <= ll.len() && match anns[k].error_code {
                    Some(c) => no_newline(c),
                    None => true,
                } by {
                    assert(anns[k] == spec_enrich(base, recs)[k]);
                    assert(anns[k].line_num == base[k].line_num);
                    lemma_first_code_member(recs, base[k]);
                }
            },
            None => {},
        }
        assert(render_inputs_clean(ll, hs, anns)) by {
            lemma_headers_clean(code@);
        }
        assert forall|k: int| 0 <= k < errors@.len() implies (#[trigger] errors@[k]).line_num
            <= 0x7fff_ffff by {
            assert(anns[k] == errors@[k]@);
            assert(0 <= anns[k].line_num <= ll.len());
        }
    }
    let mut out: Vec<char> = Vec::new();
    let mut i: usize = 0;
    proof {
        assert(out@ + spec_render_from(ll, hs, anns, 0) =~= spec_render_from(ll, hs, anns, 0));
    }
    while i < lines.len()
        invariant
            i <= lines.len(),
            lines.deep_view() == ll,
            ll == spec_lines(code@),
            lines@.len() <= 0x7fff_ffff,
            errors.deep_view() == anns,
            headers.deep_view() == hs,
            forall|k: int| 0 <= k < errors@.len() ==> (#[trigger] errors@[k]).line_num
                <= 0x7fff_ffff,
            spec_render_from(ll, hs, anns, 0) == out@ + spec_render_from(ll, hs, anns, i as int),
        decreases lines.len() - i,
    {
        proof {
            assert(lines@[i as int].deep_view() =~= lines@[i as int]@);
            assert(lines@[i as int]@ == ll[i as int]);
        }
        let line = &lines[i];
        let ghost pre_out = out@;
        if is_header_chars(line) {
            match find_header_idx(&headers, i + 1) {
                Some(j) => {
                    let h = &headers[j];
                    let hv = str_to_char_vec(h.dejagnu_header.as_str());
                    push_all(&mut out, &hv);
                },
                None => {
                    push_all(&mut out, line);
                },
            }
        } else {
            match find_ann_idx(&errors, i + 1) {
                Some(j) => {
                    let e = &errors[j];
                    if e.relative_line_num != 0 {
                        push_directive(&mut out, e.kind, &e.error_code, e.relative_line_num);
                    } else {
                        match find_sigil_exec(line) {
                            Some(p) => {
                                proof {
                                    crate::errors::lemma_find_sigil(line@, 0);
                                }
                                let pre = copy_range(line, 0, p);
                                push_all(&mut out, &pre);
                                proof {
                                    assert(pre@ =~= sigil_prefix(ll[i as int]));
                                }
                            },
                            None => {
                                push_all(&mut out, line);
                            },
                        }
                        push_directive(&mut out, e.kind, &e.error_code, e.relative_line_num);
                    }
                },
                None => {
                    push_all(&mut out, line);
                },
            }
        }
        out.push('\n');
        proof {
            assert(out@ =~= pre_out + spec_rewrite_line(ll[i as int], i as int + 1, hs, anns)
                + seq!['\n']);
            assert(spec_render_from(ll, hs, anns, 0) =~= out@ + spec_render_from(
                ll,
                hs,
                anns,
                i as int + 1,
            ));
        }
        i += 1;
    }
    proof {
        assert(spec_render_from(ll, hs, anns, lines@.len() as int) =~= Seq::<char>::empty());
        assert(out@ =~= spec_render_from(ll, hs, anns, 0));
        lemma_render_line_count(ll, hs, anns, 0);
    }
    Ok(chars_to_string(&out))
}

/// The rendered replacement of every recognised header is newline-free: it is
/// built from fixed newline-free text and a piece of one source line.
proof fn lemma_headers_clean(code: Seq<char>)
    ensures
        match spec_headers_from(spec_lines(code), 0) {
            Ok(hs) => forall|k: int| 0 <= k < hs.len() ==> no_newline(
                (#[trigger] hs[k]).dejagnu_header,
            ),
            Err(_) => true,
        },
{
    lemma_lines_no_newline(code);
    lemma_headers_clean_from(spec_lines(code), 0);
}

proof fn lemma_headers_clean_from(lines: Seq<Seq<char>>, i: int)
    requires
        forall|k: int| 0 <= k < lines.len() ==> no_newline(#[trigger] lines[k]),
    ensures
        match spec_headers_from(lines, i) {
            Ok(hs) => forall|k: int| 0 <= k < hs.len() ==> no_newline(
                (#[trigger] hs[k]).dejagnu_header,
            ),
            Err(_) => true,
        },
    decreases lines.len() - i,
{
    if 0 <= i < lines.len() {
        match crate::header::spec_header_outcome(i, lines[i]) {
            HeaderOutcome::NoHeader => {
                lemma_headers_clean_from(lines, i + 1);
            },
            HeaderOutcome::Fatal { .. } => {},
            HeaderOutcome::Header { h } => {
                lemma_headers_clean_from(lines, i + 1);
                assert(no_newline(h.dejagnu_header)) by {
                    let t = crate::text::trim_sub(lines[i], 0);
                    assert(no_newline(t)) by {
                        crate::text::lemma_ws_end(lines[i], 0);
                        crate::text::lemma_rws_begin(lines[i], lines[i].len() as int);
                        crate::text::lemma_trim_sub(lines[i], 0);
                        assert forall|j: int| 0 <= j < t.len() implies t[j] != '\n' by {
                            assert(t[j] == lines[i][crate::text::ws_end(lines[i], 0) + j]);
                        }
                    }
                    let d = crate::header::spec_directive_pos(t);
                    assert(d >= 0) by {
                        crate::text::lemma_ws_end_ge(t, 3);
                        crate::text::lemma_rbracket_end_ge(t, crate::text::ws_end(t, 3) + 1);
                        crate::text::lemma_ws_end_ge(
                            t,
                            crate::text::rbracket_end(t, crate::text::ws_end(t, 3) + 1) + 1,
                        );
                    }
                    let v = t.skip(d + crate::header::edition_name().len() + 1);
                    assert(no_newline(v)) by {
                        assert forall|j: int| 0 <= j < v.len() implies v[j] != '\n' by {
                            assert(v[j] == t[d + crate::header::edition_name().len() + 1 + j]);
                        }
                    }
                    assert(no_newline(crate::header::edition_head()));
                    lemma_no_nl_concat(crate::header::edition_head(), v);
                    lemma_no_nl_concat(crate::header::edition_head() + v, seq!['"', ' ', '}']);
                    assert(h.dejagnu_header =~= (crate::header::edition_head() + v) + seq![
                        '"',
                        ' ',
                        '}',
                    ]);
                }
            },
        }
    }
}

} // verus!

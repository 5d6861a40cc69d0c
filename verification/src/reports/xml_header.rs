//! Skip only recognized inert report declarations; never resolve a DTD or entity.

use vstd::prelude::*;
use super::ReportFormat;

verus! {

/// Why an XML prolog was refused.
#[derive(Debug, Clone, Copy, PartialEq, Eq, Structural)]
pub enum HeaderError {
    /// DOCTYPE tokens must be separated by whitespace.
    TokenWhitespace,
    /// A DOCTYPE token runs to the end of the declaration.
    Incomplete,
    /// DOCTYPE identifiers must be preceded by whitespace.
    IdentifierWhitespace,
    /// A DOCTYPE identifier is missing.
    MissingIdentifier,
    /// A DOCTYPE identifier is not quoted.
    Unquoted,
    /// A DOCTYPE identifier is not closed.
    UnclosedIdentifier,
    /// An internal DTD subset or extra declaration follows the identifiers.
    InternalSubset,
    /// The DOCTYPE is not one this report format is known to emit.
    Unrecognized,
    /// A processing instruction or comment in the prolog is not closed.
    UnclosedProlog,
    /// The DOCTYPE has no closing `>`.
    UnclosedDoctype,
    /// The DOCTYPE exceeds 1 KiB.
    TooLong,
}

/// XML whitespace in a DOCTYPE: space, tab, CR, LF.
pub open spec fn is_space(b: u8) -> bool {
    b == 32 || b == 9 || b == 13 || b == 10
}

/// The first position at or after `pos` that is not whitespace.
pub open spec fn space_end(s: Seq<u8>, pos: int) -> int
    decreases s.len() - pos,
{
    if 0 <= pos < s.len() && is_space(s[pos]) {
        space_end(s, pos + 1)
    } else {
        pos
    }
}

/// The first position at or after `pos` holding `b`.
pub open spec fn find_byte(s: Seq<u8>, pos: int, b: u8) -> Option<int>
    decreases s.len() - pos,
{
    if pos < 0 || pos >= s.len() {
        None
    } else if s[pos] == b {
        Some(pos)
    } else {
        find_byte(s, pos + 1, b)
    }
}

/// The first position at or after `pos` that ends a DOCTYPE word.
pub open spec fn find_delim(s: Seq<u8>, pos: int) -> Option<int>
    decreases s.len() - pos,
{
    if pos < 0 || pos >= s.len() {
        None
    } else if is_space(s[pos]) || s[pos] == 62 {
        Some(pos)
    } else {
        find_delim(s, pos + 1)
    }
}

/// The first position at or after `pos` where `pat` occurs.
pub open spec fn find_seq(s: Seq<u8>, pos: int, pat: Seq<u8>) -> Option<int>
    decreases s.len() - pos,
{
    if pos < 0 || pos >= s.len() || pos + pat.len() > s.len() {
        None
    } else if s.subrange(pos, pos + pat.len()) == pat {
        Some(pos)
    } else {
        find_seq(s, pos + 1, pat)
    }
}

/// A whitespace-preceded word: its start and end.
pub open spec fn spec_word(s: Seq<u8>, pos: int) -> Result<(int, int), HeaderError> {
    let start = space_end(s, pos);
    if start == pos {
        Err(HeaderError::TokenWhitespace)
    } else {
        match find_delim(s, start) {
            None => Err(HeaderError::Incomplete),
            Some(end) => Ok((start, end)),
        }
    }
}

/// A whitespace-preceded quoted identifier: its content's start and end, and
/// the position after the closing quote.
pub open spec fn spec_quoted(s: Seq<u8>, pos: int) -> Result<(int, int, int), HeaderError> {
    let start = space_end(s, pos);
    if start == pos {
        Err(HeaderError::IdentifierWhitespace)
    } else if start >= s.len() {
        Err(HeaderError::MissingIdentifier)
    } else if s[start] != 39 && s[start] != 34 {
        Err(HeaderError::Unquoted)
    } else {
        match find_byte(s, start + 1, s[start]) {
            None => Err(HeaderError::UnclosedIdentifier),
            Some(end) => Ok((start + 1, end, end + 1)),
        }
    }
}


/// The bytes of `<!DOCTYPE`.
pub open spec fn doctype() -> Seq<u8> {
    seq![60u8, 33, 68, 79, 67, 84, 89, 80, 69]
}

/// The bytes of `<!DOCTYPE`.
fn doctype_bytes() -> (res: Vec<u8>)
    ensures
        res@ == doctype(),
{
    vec![60u8, 33, 68, 79, 67, 84, 89, 80, 69]
}

/// The bytes of `<?`.
pub open spec fn pi_open() -> Seq<u8> {
    seq![60u8, 63]
}

/// The bytes of `<?`.
fn pi_open_bytes() -> (res: Vec<u8>)
    ensures
        res@ == pi_open(),
{
    vec![60u8, 63]
}

/// The bytes of `?>`.
pub open spec fn pi_close() -> Seq<u8> {
    seq![63u8, 62]
}

/// The bytes of `?>`.
fn pi_close_bytes() -> (res: Vec<u8>)
    ensures
        res@ == pi_close(),
{
    vec![63u8, 62]
}

/// The bytes of `<!--`.
pub open spec fn comment_open() -> Seq<u8> {
    seq![60u8, 33, 45, 45]
}

/// The bytes of `<!--`.
fn comment_open_bytes() -> (res: Vec<u8>)
    ensures
        res@ == comment_open(),
{
    vec![60u8, 33, 45, 45]
}

/// The bytes of `-->`.
pub open spec fn comment_close() -> Seq<u8> {
    seq![45u8, 45, 62]
}

/// The bytes of `-->`.
fn comment_close_bytes() -> (res: Vec<u8>)
    ensures
        res@ == comment_close(),
{
    vec![45u8, 45, 62]
}

/// The bytes of `PUBLIC`.
pub open spec fn kw_public() -> Seq<u8> {
    seq![80u8, 85, 66, 76, 73, 67]
}

/// The bytes of `PUBLIC`.
fn kw_public_bytes() -> (res: Vec<u8>)
    ensures
        res@ == kw_public(),
{
    vec![80u8, 85, 66, 76, 73, 67]
}

/// The bytes of `SYSTEM`.
pub open spec fn kw_system() -> Seq<u8> {
    seq![83u8, 89, 83, 84, 69, 77]
}

/// The bytes of `SYSTEM`.
fn kw_system_bytes() -> (res: Vec<u8>)
    ensures
        res@ == kw_system(),
{
    vec![83u8, 89, 83, 84, 69, 77]
}

/// The bytes of `report`.
pub open spec fn report() -> Seq<u8> {
    seq![114u8, 101, 112, 111, 114, 116]
}

/// The bytes of `report`.
fn report_bytes() -> (res: Vec<u8>)
    ensures
        res@ == report(),
{
    vec![114u8, 101, 112, 111, 114, 116]
}

/// The bytes of `coverage`.
pub open spec fn coverage() -> Seq<u8> {
    seq![99u8, 111, 118, 101, 114, 97, 103, 101]
}

/// The bytes of `coverage`.
fn coverage_bytes() -> (res: Vec<u8>)
    ensures
        res@ == coverage(),
{
    vec![99u8, 111, 118, 101, 114, 97, 103, 101]
}

/// The bytes of `-//JACOCO//DTD Report 1.1//EN`.
pub open spec fn jacoco_id() -> Seq<u8> {
    seq![45u8, 47, 47, 74, 65, 67, 79, 67, 79, 47, 47, 68, 84, 68, 32, 82, 101, 112, 111, 114, 116, 32, 49, 46, 49, 47, 47, 69, 78]
}

/// The bytes of `-//JACOCO//DTD Report 1.1//EN`.
fn jacoco_id_bytes() -> (res: Vec<u8>)
    ensures
        res@ == jacoco_id(),
{
    vec![45u8, 47, 47, 74, 65, 67, 79, 67, 79, 47, 47, 68, 84, 68, 32, 82, 101, 112, 111, 114, 116, 32, 49, 46, 49, 47, 47, 69, 78]
}

/// The bytes of `report.dtd`.
pub open spec fn report_dtd() -> Seq<u8> {
    seq![114u8, 101, 112, 111, 114, 116, 46, 100, 116, 100]
}

/// The bytes of `report.dtd`.
fn report_dtd_bytes() -> (res: Vec<u8>)
    ensures
        res@ == report_dtd(),
{
    vec![114u8, 101, 112, 111, 114, 116, 46, 100, 116, 100]
}

/// The bytes of `http://cobertura.sourceforge.net/xml/coverage-04.dtd`.
pub open spec fn cobertura_http() -> Seq<u8> {
    seq![104u8, 116, 116, 112, 58, 47, 47, 99, 111, 98, 101, 114, 116, 117, 114, 97, 46, 115, 111, 117, 114, 99, 101, 102, 111, 114, 103, 101, 46, 110, 101, 116, 47, 120, 109, 108, 47, 99, 111, 118, 101, 114, 97, 103, 101, 45, 48, 52, 46, 100, 116, 100]
}

/// The bytes of `http://cobertura.sourceforge.net/xml/coverage-04.dtd`.
fn cobertura_http_bytes() -> (res: Vec<u8>)
    ensures
        res@ == cobertura_http(),
{
    vec![104u8, 116, 116, 112, 58, 47, 47, 99, 111, 98, 101, 114, 116, 117, 114, 97, 46, 115, 111, 117, 114, 99, 101, 102, 111, 114, 103, 101, 46, 110, 101, 116, 47, 120, 109, 108, 47, 99, 111, 118, 101, 114, 97, 103, 101, 45, 48, 52, 46, 100, 116, 100]
}

/// The bytes of `https://cobertura.sourceforge.net/xml/coverage-04.dtd`.
pub open spec fn cobertura_https() -> Seq<u8> {
    seq![104u8, 116, 116, 112, 115, 58, 47, 47, 99, 111, 98, 101, 114, 116, 117, 114, 97, 46, 115, 111, 117, 114, 99, 101, 102, 111, 114, 103, 101, 46, 110, 101, 116, 47, 120, 109, 108, 47, 99, 111, 118, 101, 114, 97, 103, 101, 45, 48, 52, 46, 100, 116, 100]
}

/// The bytes of `https://cobertura.sourceforge.net/xml/coverage-04.dtd`.
fn cobertura_https_bytes() -> (res: Vec<u8>)
    ensures
        res@ == cobertura_https(),
{
    vec![104u8, 116, 116, 112, 115, 58, 47, 47, 99, 111, 98, 101, 114, 116, 117, 114, 97, 46, 115, 111, 117, 114, 99, 101, 102, 111, 114, 103, 101, 46, 110, 101, 116, 47, 120, 109, 108, 47, 99, 111, 118, 101, 114, 97, 103, 101, 45, 48, 52, 46, 100, 116, 100]
}

/// The bytes of `https://raw.githubusercontent.com/cobertura/web/master/htdocs/xml/coverage-04.dtd`.
pub open spec fn cobertura_raw() -> Seq<u8> {
    seq![104u8, 116, 116, 112, 115, 58, 47, 47, 114, 97, 119, 46, 103, 105, 116, 104, 117, 98, 117, 115, 101, 114, 99, 111, 110, 116, 101, 110, 116, 46, 99, 111, 109, 47, 99, 111, 98, 101, 114, 116, 117, 114, 97, 47, 119, 101, 98, 47, 109, 97, 115, 116, 101, 114, 47, 104, 116, 100, 111, 99, 115, 47, 120, 109, 108, 47, 99, 111, 118, 101, 114, 97, 103, 101, 45, 48, 52, 46, 100, 116, 100]
}

/// The bytes of `https://raw.githubusercontent.com/cobertura/web/master/htdocs/xml/coverage-04.dtd`.
fn cobertura_raw_bytes() -> (res: Vec<u8>)
    ensures
        res@ == cobertura_raw(),
{
    vec![104u8, 116, 116, 112, 115, 58, 47, 47, 114, 97, 119, 46, 103, 105, 116, 104, 117, 98, 117, 115, 101, 114, 99, 111, 110, 116, 101, 110, 116, 46, 99, 111, 109, 47, 99, 111, 98, 101, 114, 116, 117, 114, 97, 47, 119, 101, 98, 47, 109, 97, 115, 116, 101, 114, 47, 104, 116, 100, 111, 99, 115, 47, 120, 109, 108, 47, 99, 111, 118, 101, 114, 97, 103, 101, 45, 48, 52, 46, 100, 116, 100]
}

} // verus!

verus! {

/// `pat` occurs in `s` at `pos`.
pub open spec fn starts_at(s: Seq<u8>, pos: int, pat: Seq<u8>) -> bool {
    0 <= pos && pos + pat.len() <= s.len() && s.subrange(pos, pos + pat.len()) == pat
}

fn matches_at(s: &[u8], pos: usize, pat: &[u8]) -> (res: bool)
    ensures
        res == starts_at(s@, pos as int, pat@),
{
    if pos > s.len() || pat.len() > s.len() - pos {
        return false;
    }
    let n = s.len();
    let mut i: usize = 0;
    while i < pat.len()
        invariant
            n == s@.len(),
            pos + pat@.len() <= s@.len(),
            0 <= i <= pat@.len(),
            forall|j: int| 0 <= j < i ==> s@[pos + j] == pat@[j],
        decreases pat@.len() - i,
    {
        assert(pos + i < s@.len());
        if s[pos + i] != pat[i] {
            assert(s@.subrange(pos as int, pos + pat@.len())[i as int] != pat@[i as int]);
            return false;
        }
        i = i + 1;
    }
    assert(s@.subrange(pos as int, pos + pat@.len()) =~= pat@);
    true
}

/// The first non-whitespace position at or after `pos`.
fn space(s: &[u8], pos: usize) -> (res: usize)
    requires
        pos <= s@.len(),
    ensures
        res == space_end(s@, pos as int),
        pos <= res <= s@.len(),
{
    let mut i = pos;
    while i < s.len() && (s[i] == 32 || s[i] == 9 || s[i] == 13 || s[i] == 10)
        invariant
            pos <= i <= s@.len(),
            space_end(s@, pos as int) == space_end(s@, i as int),
        decreases s@.len() - i,
    {
        i = i + 1;
    }
    i
}

fn find_byte_exec(s: &[u8], pos: usize, b: u8) -> (res: Option<usize>)
    ensures
        res matches Some(i) ==> find_byte(s@, pos as int, b) == Some(i as int) && pos <= i < s@.len(),
        res is None ==> find_byte(s@, pos as int, b) is None,
{
    let mut i = pos;
    while i < s.len()
        invariant
            pos <= i,
            find_byte(s@, pos as int, b) == find_byte(s@, i as int, b),
        decreases s@.len() - i,
    {
        if s[i] == b {
            return Some(i);
        }
        i = i + 1;
    }
    None
}

fn find_delim_exec(s: &[u8], pos: usize) -> (res: Option<usize>)
    ensures
        res matches Some(i) ==> find_delim(s@, pos as int) == Some(i as int) && pos <= i < s@.len(),
        res is None ==> find_delim(s@, pos as int) is None,
{
    let mut i = pos;
    while i < s.len()
        invariant
            pos <= i,
            find_delim(s@, pos as int) == find_delim(s@, i as int),
        decreases s@.len() - i,
    {
        if s[i] == 32 || s[i] == 9 || s[i] == 13 || s[i] == 10 || s[i] == 62 {
            return Some(i);
        }
        i = i + 1;
    }
    None
}

fn find_seq_exec(s: &[u8], pos: usize, pat: &[u8]) -> (res: Option<usize>)
    ensures
        res matches Some(i) ==> find_seq(s@, pos as int, pat@) == Some(i as int) && pos <= i
            && i + pat@.len() <= s@.len(),
        res is None ==> find_seq(s@, pos as int, pat@) is None,
{
    let mut i = pos;
    while i < s.len() && pat.len() <= s.len() - i
        invariant
            pos <= i,
            find_seq(s@, pos as int, pat@) == find_seq(s@, i as int, pat@),
        decreases s@.len() - i,
    {
        if matches_at(s, i, pat) {
            return Some(i);
        }
        i = i + 1;
    }
    None
}

/// Read a whitespace-preceded DOCTYPE word; returns its start and end.
fn word(s: &[u8], pos: usize) -> (res: Result<(usize, usize), HeaderError>)
    requires
        pos <= s@.len(),
    ensures
        res matches Ok((a, b)) ==> spec_word(s@, pos as int) == Ok::<(int, int), HeaderError>(
            (a as int, b as int),
        ),
        res matches Err(e) ==> spec_word(s@, pos as int) == Err::<(int, int), HeaderError>(e),
        res matches Ok((a, b)) ==> pos < a <= b < s@.len(),
{
    let start = space(s, pos);
    if start == pos {
        return Err(HeaderError::TokenWhitespace);
    }
    match find_delim_exec(s, start) {
        None => Err(HeaderError::Incomplete),
        Some(end) => {
            assert(find_delim(s@, start as int) == Some(end as int));
            assert(space_end(s@, pos as int) == start as int);
            assert(spec_word(s@, pos as int) == Ok::<(int, int), HeaderError>((start as int, end as int)));
            Ok((start, end))
        },
    }
}

/// Read a whitespace-preceded quoted identifier; returns its content's start and
/// end and the position after the closing quote.
fn quoted(s: &[u8], pos: usize) -> (res: Result<(usize, usize, usize), HeaderError>)
    requires
        pos <= s@.len(),
    ensures
        res matches Ok((a, b, c)) ==> spec_quoted(s@, pos as int) == Ok::<
            (int, int, int),
            HeaderError,
        >((a as int, b as int, c as int)),
        res matches Err(e) ==> spec_quoted(s@, pos as int) == Err::<(int, int, int), HeaderError>(
            e,
        ),
        res matches Ok((a, b, c)) ==> pos < a <= b && c == b + 1 && c <= s@.len(),
{
    let start = space(s, pos);
    if start == pos {
        return Err(HeaderError::IdentifierWhitespace);
    }
    if start >= s.len() {
        return Err(HeaderError::MissingIdentifier);
    }
    let quote = s[start];
    if quote != 39 && quote != 34 {
        return Err(HeaderError::Unquoted);
    }
    match find_byte_exec(s, start + 1, quote) {
        None => Err(HeaderError::UnclosedIdentifier),
        Some(end) => Ok((start + 1, end, end + 1)),
    }
}

} // verus!

verus! {

/// The DOCTYPE identifies a declaration that this format's producer emits.
pub open spec fn allowed(
    format: ReportFormat,
    root: Seq<u8>,
    kind: Seq<u8>,
    public_id: Option<Seq<u8>>,
    system_id: Seq<u8>,
) -> bool {
    match format {
        ReportFormat::Jacoco => root == report() && kind == kw_public() && public_id == Some(
            jacoco_id(),
        ) && system_id == report_dtd(),
        ReportFormat::Cobertura => root == coverage() && kind == kw_system() && (system_id
            == cobertura_http() || system_id == cobertura_https() || system_id
            == cobertura_raw()),
        _ => false,
    }
}

/// Whether the declaration `d` (starting with `<!DOCTYPE`, ending with `>`) is a
/// recognized external DOCTYPE for `format`, or why it is not.
pub open spec fn spec_recognized(format: ReportFormat, d: Seq<u8>) -> Result<(), HeaderError> {
    match spec_word(d, 9) {
        Err(e) => Err(e),
        Ok((r0, r1)) => match spec_word(d, r1) {
            Err(e) => Err(e),
            Ok((k0, k1)) => match spec_quoted(d, k1) {
                Err(e) => Err(e),
                Ok((f0, f1, p1)) => {
                    let kind = d.subrange(k0, k1);
                    let is_public = kind == kw_public();
                    let second = if is_public {
                        spec_quoted(d, p1)
                    } else {
                        Ok((f0, f1, p1))
                    };
                    match second {
                        Err(e) => Err(e),
                        Ok((s0, s1, p2)) => if d.subrange(space_end(d, p2), d.len() as int)
                            != seq![62u8] {
                            Err(HeaderError::InternalSubset)
                        } else if allowed(
                            format,
                            d.subrange(r0, r1),
                            kind,
                            if is_public {
                                Some(d.subrange(f0, f1))
                            } else {
                                None
                            },
                            d.subrange(s0, s1),
                        ) {
                            Ok(())
                        } else {
                            Err(HeaderError::Unrecognized)
                        },
                    }
                },
            },
        },
    }
}

fn range_is(d: &[u8], a: usize, b: usize, lit: &[u8]) -> (res: bool)
    requires
        a <= b <= d@.len(),
    ensures
        res == (d@.subrange(a as int, b as int) == lit@),
{
    if b - a != lit.len() {
        assert(d@.subrange(a as int, b as int).len() != lit@.len());
        return false;
    }
    matches_at(d, a, lit)
}

/// Check that `d` is a recognized, inert DOCTYPE for `format`.
fn recognized(format: ReportFormat, d: &[u8]) -> (res: Result<(), HeaderError>)
    requires
        d@.len() >= 9,
    ensures
        res == spec_recognized(format, d@),
{
    let (r0, r1) = match word(d, 9) {
        Ok(v) => v,
        Err(e) => return Err(e),
    };
    assert(spec_word(d@, 9) == Ok::<(int, int), HeaderError>((r0 as int, r1 as int)));
    let (k0, k1) = match word(d, r1) {
        Ok(v) => v,
        Err(e) => {
            assert(spec_word(d@, r1 as int) == Err::<(int, int), HeaderError>(e));
            return Err(e);
        },
    };
    assert(spec_word(d@, r1 as int) == Ok::<(int, int), HeaderError>((k0 as int, k1 as int)));
    let (f0, f1, p1) = match quoted(d, k1) {
        Ok(v) => v,
        Err(e) => return Err(e),
    };
    let is_public = range_is(d, k0, k1, &kw_public_bytes());
    let (s0, s1, p2) = if is_public {
        match quoted(d, p1) {
            Ok(v) => v,
            Err(e) => {
                assert(spec_quoted(d@, p1 as int) == Err::<(int, int, int), HeaderError>(e));
                return Err(e);
            },
        }
    } else {
        (f0, f1, p1)
    };
    let rest = space(d, p2);
    if !(d.len() - rest == 1 && d[rest] == 62) {
        assert(d@.subrange(rest as int, d@.len() as int) != seq![62u8]) by {
            let sub = d@.subrange(rest as int, d@.len() as int);
            if sub == seq![62u8] {
                assert(sub.len() == 1);
                assert(sub[0] == d@[rest as int]);
            }
        }
        return Err(HeaderError::InternalSubset);
    }
    assert(d@.subrange(rest as int, d@.len() as int) =~= seq![62u8]);
    let ok = match format {
        ReportFormat::Jacoco => range_is(d, r0, r1, &report_bytes()) && is_public && range_is(
            d,
            f0,
            f1,
            &jacoco_id_bytes(),
        ) && range_is(d, s0, s1, &report_dtd_bytes()),
        ReportFormat::Cobertura => range_is(d, r0, r1, &coverage_bytes()) && range_is(
            d,
            k0,
            k1,
            &kw_system_bytes(),
        ) && (range_is(d, s0, s1, &cobertura_http_bytes()) || range_is(
            d,
            s0,
            s1,
            &cobertura_https_bytes(),
        ) || range_is(d, s0, s1, &cobertura_raw_bytes())),
        _ => false,
    };
    if ok {
        Ok(())
    } else {
        Err(HeaderError::Unrecognized)
    }
}

} // verus!

verus! {

/// Length of a leading UTF-8 byte-order mark.
pub open spec fn bom_len(t: Seq<u8>) -> int {
    if t.len() >= 3 && t[0] == 0xEFu8 && t[1] == 0xBBu8 && t[2] == 0xBFu8 {
        3
    } else {
        0
    }
}

/// `t` with every byte in `[a, b)` other than CR and LF replaced by a space.
pub open spec fn blank_range(t: Seq<u8>, a: int, b: int) -> Seq<u8> {
    Seq::new(t.len(), |i: int| if a <= i < b && t[i] != 13 && t[i] != 10 { 32u8 } else { t[i] })
}

pub proof fn lemma_space_end(s: Seq<u8>, pos: int)
    requires
        0 <= pos <= s.len(),
    ensures
        pos <= space_end(s, pos) <= s.len(),
    decreases s.len() - pos,
{
    if pos < s.len() && is_space(s[pos]) {
        lemma_space_end(s, pos + 1);
    }
}

pub proof fn lemma_find_seq(s: Seq<u8>, pos: int, pat: Seq<u8>)
    ensures
        find_seq(s, pos, pat) matches Some(i) ==> pos <= i && i + pat.len() <= s.len(),
    decreases s.len() - pos,
{
    if !(pos < 0 || pos >= s.len() || pos + pat.len() > s.len()) && s.subrange(pos, pos + pat.len())
        != pat {
        lemma_find_seq(s, pos + 1, pat);
    }
}

pub proof fn lemma_find_byte(s: Seq<u8>, pos: int, b: u8)
    ensures
        find_byte(s, pos, b) matches Some(i) ==> pos <= i < s.len() && s[i] == b && forall|j: int|
            pos <= j < i ==> s[j] != b,
    decreases s.len() - pos,
{
    if !(pos < 0 || pos >= s.len()) && s[pos] != b {
        lemma_find_byte(s, pos + 1, b);
    }
}

/// The prolog from `pos` on: skip processing instructions and comments, then
/// blank a recognized DOCTYPE; the text is otherwise unchanged.
pub open spec fn prolog(format: ReportFormat, t: Seq<u8>, pos: int) -> Result<Seq<u8>, HeaderError>
    decreases t.len() - pos,
{
    if pos < 0 || pos > t.len() {
        Ok(t)
    } else {
        let p = space_end(t, pos);
        if starts_at(t, p, pi_open()) {
            match find_seq(t, p, pi_close()) {
                None => Err(HeaderError::UnclosedProlog),
                Some(o) => {
                    proof {
                        lemma_space_end(t, pos);
                        lemma_find_seq(t, p, pi_close());
                    }
                    prolog(format, t, o + 2)
                },
            }
        } else if starts_at(t, p, comment_open()) {
            match find_seq(t, p, comment_close()) {
                None => Err(HeaderError::UnclosedProlog),
                Some(o) => {
                    proof {
                        lemma_space_end(t, pos);
                        lemma_find_seq(t, p, comment_close());
                    }
                    prolog(format, t, o + 3)
                },
            }
        } else if starts_at(t, p, doctype()) {
            match find_byte(t, p, 62) {
                None => Err(HeaderError::UnclosedDoctype),
                Some(g) => if g + 1 - p > 1024 {
                    Err(HeaderError::TooLong)
                } else {
                    match spec_recognized(format, t.subrange(p, g + 1)) {
                        Err(e) => Err(e),
                        Ok(_) => Ok(blank_range(t, p, g + 1)),
                    }
                },
            }
        } else {
            Ok(t)
        }
    }
}

/// The report text with a recognized DOCTYPE blanked out (line structure and
/// length kept), after a byte-order mark, processing instructions and comments.
pub open spec fn spec_normalize(format: ReportFormat, t: Seq<u8>) -> Result<Seq<u8>, HeaderError> {
    prolog(format, t, bom_len(t))
}

fn blanked(t: &[u8], a: usize, b: usize) -> (res: Vec<u8>)
    ensures
        res@ == blank_range(t@, a as int, b as int),
{
    let mut v: Vec<u8> = Vec::new();
    let mut i: usize = 0;
    while i < t.len()
        invariant
            0 <= i <= t@.len(),
            v@.len() == i,
            forall|j: int| 0 <= j < i ==> v@[j] == blank_range(t@, a as int, b as int)[j],
        decreases t@.len() - i,
    {
        let byte = t[i];
        if a <= i && i < b && byte != 13 && byte != 10 {
            v.push(32);
        } else {
            v.push(byte);
        }
        i = i + 1;
    }
    assert(v@ =~= blank_range(t@, a as int, b as int));
    v
}

fn copied(t: &[u8]) -> (res: Vec<u8>)
    ensures
        res@ == t@,
{
    let mut v: Vec<u8> = Vec::new();
    let mut i: usize = 0;
    while i < t.len()
        invariant
            0 <= i <= t@.len(),
            v@ == t@.subrange(0, i as int),
        decreases t@.len() - i,
    {
        v.push(t[i]);
        i = i + 1;
        assert(v@ =~= t@.subrange(0, i as int));
    }
    assert(t@.subrange(0, t@.len() as int) =~= t@);
    v
}

/// Skip recognized inert prolog declarations: the text with a recognized DOCTYPE
/// blanked, or the text itself when there is none.
pub fn normalize(format: ReportFormat, text: &[u8]) -> (res: Result<Vec<u8>, HeaderError>)
    ensures
        res matches Ok(v) ==> spec_normalize(format, text@) == Ok::<Seq<u8>, HeaderError>(v@),
        res matches Err(e) ==> spec_normalize(format, text@) == Err::<Seq<u8>, HeaderError>(e),
{
    let mut pos: usize = if text.len() >= 3 && text[0] == 0xEF && text[1] == 0xBB && text[2]
        == 0xBF {
        3
    } else {
        0
    };
    let pi_open_lit = pi_open_bytes();
    let pi_close_lit = pi_close_bytes();
    let comment_open_lit = comment_open_bytes();
    let comment_close_lit = comment_close_bytes();
    let doctype_lit = doctype_bytes();
    let n = text.len();
    loop
        invariant
            n == text@.len(),
            pos <= text@.len(),
            pi_open_lit@ == pi_open(),
            pi_close_lit@ == pi_close(),
            comment_open_lit@ == comment_open(),
            comment_close_lit@ == comment_close(),
            doctype_lit@ == doctype(),
            spec_normalize(format, text@) == prolog(format, text@, pos as int),
        decreases text@.len() - pos,
    {
        let p = space(text, pos);
        if matches_at(text, p, &pi_open_lit) {
            match find_seq_exec(text, p, &pi_close_lit) {
                None => return Err(HeaderError::UnclosedProlog),
                Some(o) => {
                    pos = o + 2;
                },
            }
        } else if matches_at(text, p, &comment_open_lit) {
            match find_seq_exec(text, p, &comment_close_lit) {
                None => return Err(HeaderError::UnclosedProlog),
                Some(o) => {
                    pos = o + 3;
                },
            }
        } else if matches_at(text, p, &doctype_lit) {
            match find_byte_exec(text, p, 62) {
                None => return Err(HeaderError::UnclosedDoctype),
                Some(g) => {
                    if g + 1 - p > 1024 {
                        return Err(HeaderError::TooLong);
                    }
                    proof {
                        lemma_find_byte(text@, p as int, 62);
                        assert(text@.subrange(p as int, p + 9) == doctype());
                        assert forall|j: int| p <= j < p + 9 implies text@[j] != 62 by {
                            assert(text@[j] == text@.subrange(p as int, p + 9)[j - p]);
                        }
                    }
                    let declaration = slice_range(text, p, g + 1);
                    match recognized(format, &declaration) {
                        Err(e) => return Err(e),
                        Ok(()) => return Ok(blanked(text, p, g + 1)),
                    }
                },
            }
        } else {
            return Ok(copied(text));
        }
    }
}

fn slice_range(t: &[u8], a: usize, b: usize) -> (res: Vec<u8>)
    requires
        a <= b <= t@.len(),
    ensures
        res@ == t@.subrange(a as int, b as int),
{
    let mut v: Vec<u8> = Vec::new();
    let mut i = a;
    while i < b
        invariant
            a <= i <= b,
            b <= t@.len(),
            v@ == t@.subrange(a as int, i as int),
        decreases b - i,
    {
        v.push(t[i]);
        i = i + 1;
        assert(v@ =~= t@.subrange(a as int, i as int));
    }
    v
}

} // verus!

verus! {

/// `b` is `t` with some bytes other than CR and LF replaced by spaces: the same
/// length and the same line breaks.
pub open spec fn same_layout(t: Seq<u8>, b: Seq<u8>) -> bool {
    &&& b.len() == t.len()
    &&& forall|i: int| 0 <= i < t.len() ==> (#[trigger] b[i] == t[i] || (b[i] == 32 && t[i] != 10 && t[i] != 13))
}

/// Reading the prolog from any position keeps the layout of the text.
pub proof fn prolog_keeps_layout(format: ReportFormat, t: Seq<u8>, pos: int)
    ensures
        prolog(format, t, pos) matches Ok(b) ==> same_layout(t, b),
    decreases t.len() - pos,
{
    if pos < 0 || pos > t.len() {
    } else {
        let p = space_end(t, pos);
        lemma_space_end(t, pos);
        if starts_at(t, p, pi_open()) {
            lemma_find_seq(t, p, pi_close());
            if let Some(o) = find_seq(t, p, pi_close()) {
                prolog_keeps_layout(format, t, o + 2);
            }
        } else if starts_at(t, p, comment_open()) {
            lemma_find_seq(t, p, comment_close());
            if let Some(o) = find_seq(t, p, comment_close()) {
                prolog_keeps_layout(format, t, o + 3);
            }
        }
    }
}

/// Normalizing a report header never moves a byte or a line: a recognized
/// DOCTYPE is blanked with spaces, and every CR and LF stays where it was.
pub proof fn normalize_keeps_layout(format: ReportFormat, t: Seq<u8>)
    ensures
        spec_normalize(format, t) matches Ok(b) ==> same_layout(t, b),
{
    prolog_keeps_layout(format, t, bom_len(t));
}

} // verus!

//! Explicit declaration bindings: a marker annotation or comment on a test, and
//! the `name: value` fields it declares. Presence is not a claim of provenance.

use vstd::prelude::*;
use crate::text::{blank, has_prefix, lines, spec_is_whitespace, trim, views};
use crate::reports::lcov::text_less;

verus! {

/// ASCII white space, as `u8::is_ascii_whitespace` tests it.
pub open spec fn ascii_space(c: char) -> bool {
    c == ' ' || c == '\t' || c == '\n' || c == '\x0C' || c == '\r'
}

/// An ASCII letter.
pub open spec fn ascii_letter(c: char) -> bool {
    ('a' <= c && c <= 'z') || ('A' <= c && c <= 'Z')
}

/// A character of a field name: an ASCII letter or digit, `_`, `-` or `.`.
pub open spec fn name_char(c: char) -> bool {
    ascii_letter(c) || ('0' <= c && c <= '9') || c == '_' || c == '-' || c == '.'
}

/// A character that ends an unquoted value.
pub open spec fn value_stop(c: char) -> bool {
    ascii_space(c) || c == ',' || c == ';' || c == ')' || c == '}' || c == '/'
}

/// A quote character.
pub open spec fn is_quote(c: char) -> bool {
    c == '\'' || c == '"'
}

/// The end of the field name that starts at `i`.
pub open spec fn name_run(s: Seq<char>, i: int) -> int
    decreases s.len() - i,
{
    if 0 <= i < s.len() && name_char(s[i]) {
        name_run(s, i + 1)
    } else {
        i
    }
}

/// The end of the ASCII white space that starts at `i`.
pub open spec fn space_run(s: Seq<char>, i: int) -> int
    decreases s.len() - i,
{
    if 0 <= i < s.len() && ascii_space(s[i]) {
        space_run(s, i + 1)
    } else {
        i
    }
}

/// The end of the unquoted value that starts at `i`.
pub open spec fn value_run(s: Seq<char>, i: int) -> int
    decreases s.len() - i,
{
    if 0 <= i < s.len() && !value_stop(s[i]) {
        value_run(s, i + 1)
    } else {
        i
    }
}

/// The position of the quote `q` that closes a string from `off` on, skipping
/// each character after a backslash; -1 when the string is not closed.
pub open spec fn quote_end(s: Seq<char>, q: char, off: int) -> int
    decreases s.len() + 1 - off,
{
    if off < 0 || off >= s.len() {
        -1
    } else if s[off] == '\\' {
        quote_end(s, q, off + 2)
    } else if s[off] == q {
        off
    } else {
        quote_end(s, q, off + 1)
    }
}

/// The trimmed text of the string quoted at `start`, and the position after it
/// (the end of `s` when it is not closed, with no text).
pub open spec fn quoted(s: Seq<char>, start: int) -> (Seq<char>, int) {
    let e = quote_end(s, s[start], start + 1);
    if e < 0 {
        (seq![], s.len() as int)
    } else {
        (trim(s.subrange(start + 1, e)), e + 1)
    }
}

/// Runs stay within `s` and do not go back.
pub proof fn lemma_runs(s: Seq<char>, i: int)
    requires
        0 <= i <= s.len(),
    ensures
        i <= name_run(s, i) <= s.len(),
        i <= space_run(s, i) <= s.len(),
        i <= value_run(s, i) <= s.len(),
    decreases s.len() - i,
{
    if i < s.len() {
        lemma_runs(s, i + 1);
    }
}

/// A closing quote lies ahead, within `s`, and is the quote.
pub proof fn lemma_quote_end(s: Seq<char>, q: char, off: int)
    requires
        0 <= off,
    ensures
        quote_end(s, q, off) == -1 || (off <= quote_end(s, q, off) < s.len() && s[quote_end(s, q, off)] == q),
    decreases s.len() + 1 - off,
{
    if off < s.len() {
        if s[off] == '\\' {
            lemma_quote_end(s, q, off + 2);
        } else if s[off] != q {
            lemma_quote_end(s, q, off + 1);
        }
    }
}

/// The `name: value` or `name = value` assignments of `s` from `pos` on, outside
/// quoted strings, in order.
pub open spec fn assignments(s: Seq<char>, pos: int) -> Seq<(Seq<char>, Seq<char>)>
    decreases s.len() - pos,
{
    if pos < 0 || pos >= s.len() {
        seq![]
    } else if is_quote(s[pos]) {
        let next = quoted(s, pos).1;
        proof {
            lemma_quote_end(s, s[pos], pos + 1);
        }
        assignments(s, next)
    } else if !(ascii_letter(s[pos]) || s[pos] == '_') {
        assignments(s, pos + 1)
    } else {
        proof {
            lemma_runs(s, pos + 1);
            assert(name_run(s, pos) == name_run(s, pos + 1));
            lemma_runs(s, name_run(s, pos));
        }
        let name_end = name_run(s, pos);
        let sep = space_run(s, name_end);
        if sep >= s.len() || !(s[sep] == ':' || s[sep] == '=') {
            assignments(s, sep)
        } else {
            proof {
                lemma_runs(s, sep + 1);
            }
            let start = space_run(s, sep + 1);
            let key = s.subrange(pos, name_end);
            if start >= s.len() {
                seq![]
            } else if is_quote(s[start]) {
                proof {
                    lemma_quote_end(s, s[start], start + 1);
                }
                seq![(key, quoted(s, start).0)] + assignments(s, quoted(s, start).1)
            } else {
                proof {
                    lemma_runs(s, start);
                }
                seq![(key, s.subrange(start, value_run(s, start)))] + assignments(s, value_run(s, start))
            }
        }
    }
}

/// `fields` with the assignment of `v` to `k`: a repeated name keeps an empty
/// value, since repeated fields are ambiguous evidence. Names stay ascending.
pub open spec fn put_field(fields: Seq<(Seq<char>, Seq<char>)>, k: Seq<char>, v: Seq<char>) -> Seq<(Seq<char>, Seq<char>)>
    decreases fields.len(),
{
    if fields.len() == 0 {
        seq![(k, v)]
    } else if fields[0].0 == k {
        seq![(k, seq![])] + fields.drop_first()
    } else if text_less(fields[0].0, k) {
        seq![fields[0]] + put_field(fields.drop_first(), k, v)
    } else {
        seq![(k, v)] + fields
    }
}

/// The assignments `asg` put into `fields` in order.
pub open spec fn collect_fields(
    fields: Seq<(Seq<char>, Seq<char>)>,
    asg: Seq<(Seq<char>, Seq<char>)>,
) -> Seq<(Seq<char>, Seq<char>)>
    decreases asg.len(),
{
    if asg.len() == 0 {
        fields
    } else {
        collect_fields(put_field(fields, asg[0].0, asg[0].1), asg.drop_first())
    }
}

/// The declared fields of `text`, by ascending name.
pub open spec fn fields_of(text: Seq<char>) -> Seq<(Seq<char>, Seq<char>)> {
    collect_fields(seq![], assignments(text, 0))
}

/// The plain values of a list of name/value pairs.
pub open spec fn pairs_view(v: Seq<(String, String)>) -> Seq<(Seq<char>, Seq<char>)> {
    v.map_values(|p: (String, String)| (p.0@, p.1@))
}

} // verus!

verus! {

fn ascii_space_exec(c: char) -> (res: bool)
    ensures
        res == ascii_space(c),
{
    c == ' ' || c == '\t' || c == '\n' || c == '\x0C' || c == '\r'
}

fn ascii_letter_exec(c: char) -> (res: bool)
    ensures
        res == ascii_letter(c),
{
    ('a' <= c && c <= 'z') || ('A' <= c && c <= 'Z')
}

fn name_char_exec(c: char) -> (res: bool)
    ensures
        res == name_char(c),
{
    ascii_letter_exec(c) || ('0' <= c && c <= '9') || c == '_' || c == '-' || c == '.'
}

fn value_stop_exec(c: char) -> (res: bool)
    ensures
        res == value_stop(c),
{
    ascii_space_exec(c) || c == ',' || c == ';' || c == ')' || c == '}' || c == '/'
}

/// The end of the ASCII white space of `s` that starts at `i`.
fn space_run_exec(s: &[char], i: usize) -> (res: usize)
    requires
        i <= s@.len(),
    ensures
        res == space_run(s@, i as int),
{
    let mut k = i;
    while k < s.len() && ascii_space_exec(s[k])
        invariant
            i <= k <= s@.len(),
            space_run(s@, i as int) == space_run(s@, k as int),
        decreases s@.len() - k,
    {
        k = k + 1;
    }
    k
}

/// The trimmed text of the string quoted at `start`, and the position after it.
fn quoted_exec(s: &[char], start: usize) -> (res: (Vec<char>, usize))
    requires
        start < s@.len(),
    ensures
        res.0@ == quoted(s@, start as int).0,
        res.1 as int == quoted(s@, start as int).1,
{
    let q = s[start];
    let n = s.len();
    let mut off = start + 1;
    while off < n
        invariant
            n == s@.len(),
            start < off <= n,
            q == s@[start as int],
            quote_end(s@, q, start + 1) == quote_end(s@, q, off as int),
        decreases n - off,
    {
        if s[off] == '\\' {
            assert(quote_end(s@, q, off as int) == quote_end(s@, q, off + 2));
            if off + 1 < n {
                off = off + 2;
            } else {
                assert(quote_end(s@, q, off + 2) == -1);
                assert(quote_end(s@, q, n as int) == -1);
                off = n;
            }
        } else if s[off] == q {
            let inner = crate::text::copy_range(s, start + 1, off);
            let t = crate::text::trimmed(&inner);
            return (t, off + 1);
        } else {
            off = off + 1;
        }
    }
    (Vec::new(), n)
}

/// Putting after a prefix of smaller names puts into the rest.
proof fn lemma_put_after(s: Seq<(Seq<char>, Seq<char>)>, k: Seq<char>, v: Seq<char>, i: int)
    requires
        0 <= i <= s.len(),
        forall|j: int| 0 <= j < i ==> text_less(#[trigger] s[j].0, k),
    ensures
        put_field(s, k, v) == s.take(i) + put_field(s.skip(i), k, v),
    decreases i,
{
    if i == 0 {
        assert(s.take(0) =~= seq![]);
        assert(s.skip(0) =~= s);
    } else {
        crate::reports::lcov::text_less_irreflexive(k);
        let t = s.drop_first();
        assert forall|j: int| 0 <= j < i - 1 implies text_less(#[trigger] t[j].0, k) by {
            assert(t[j] == s[j + 1]);
        }
        lemma_put_after(t, k, v, i - 1);
        assert(t.skip(i - 1) =~= s.skip(i));
        assert(seq![s[0]] + t.take(i - 1) =~= s.take(i));
    }
}

/// Put the assignment of `val` to `k` into the ascending list `v`.
fn put_field_exec(v: &mut Vec<(String, String)>, k: &Vec<char>, val: &Vec<char>)
    ensures
        pairs_view(final(v)@) == put_field(pairs_view(old(v)@), k@, val@),
{
    let ghost s = pairs_view(v@);
    let mut i: usize = 0;
    while i < v.len() && crate::reports::lcov::text_lt(&crate::text::chars_of(v[i].0.as_str()), k)
        invariant
            0 <= i <= v@.len(),
            s == pairs_view(v@),
            v@ == old(v)@,
            forall|j: int| 0 <= j < i ==> text_less(#[trigger] s[j].0, k@),
        decreases v@.len() - i,
    {
        i = i + 1;
    }
    proof {
        lemma_put_after(s, k@, val@, i as int);
    }
    let key = crate::text::string_of(k.as_slice());
    if i < v.len() && crate::text::chars_equal(&crate::text::chars_of(v[i].0.as_str()), k) {
        assert(s.skip(i as int)[0] == s[i as int]);
        v.set(i, (key, String::new()));
        assert(pairs_view(v@) =~= s.take(i as int) + (seq![(k@, Seq::<char>::empty())] + s.skip(
            i as int,
        ).drop_first()));
    } else {
        if i < v.len() {
            assert(s.skip(i as int)[0] == s[i as int]);
        } else {
            assert(s.skip(i as int) =~= seq![]);
        }
        v.insert(i, (key, crate::text::string_of(val.as_slice())));
        assert(pairs_view(v@) =~= s.take(i as int) + (seq![(k@, val@)] + s.skip(i as int)));
    }
}

/// The `name: value` and `name = value` fields of `text` outside quoted strings,
/// by ascending name; a repeated name keeps an empty value.
pub fn fields(text: &str) -> (res: Vec<(String, String)>)
    ensures
        pairs_view(res@) == fields_of(text@),
{
    let s = crate::text::chars_of(text);
    let n = s.len();
    let mut out: Vec<(String, String)> = Vec::new();
    let mut off: usize = 0;
    assert(pairs_view(out@) =~= seq![]);
    while off < n
        invariant
            n == s@.len(),
            s@ == text@,
            off <= n,
            fields_of(text@) == collect_fields(pairs_view(out@), assignments(s@, off as int)),
        decreases n - off,
    {
        let c = s[off];
        if c == '\'' || c == '"' {
            let (_, next) = quoted_exec(&s, off);
            proof {
                lemma_quote_end(s@, c, off + 1);
            }
            off = next;
            continue;
        }
        if !(ascii_letter_exec(c) || c == '_') {
            off = off + 1;
            continue;
        }
        let start = off;
        let mut e = off;
        while e < n && name_char_exec(s[e])
            invariant
                start <= e <= n,
                n == s@.len(),
                name_run(s@, start as int) == name_run(s@, e as int),
            decreases n - e,
        {
            e = e + 1;
        }
        proof {
            lemma_runs(s@, start + 1);
            assert(name_run(s@, start as int) == name_run(s@, start + 1));
        }
        let sep = space_run_exec(&s, e);
        proof {
            lemma_runs(s@, e as int);
        }
        if sep >= n || !(s[sep] == ':' || s[sep] == '=') {
            off = sep;
            continue;
        }
        let vstart = space_run_exec(&s, sep + 1);
        proof {
            lemma_runs(s@, sep + 1);
        }
        if vstart == n {
            assert(assignments(s@, off as int) =~= seq![]);
            assert(assignments(s@, n as int) =~= seq![]);
            off = n;
            continue;
        }
        let key = crate::text::copy_range(&s, start, e);
        let ghost rest_before = assignments(s@, off as int);
        let (value, next) = if s[vstart] == '\'' || s[vstart] == '"' {
            proof {
                lemma_quote_end(s@, s@[vstart as int], vstart + 1);
            }
            quoted_exec(&s, vstart)
        } else {
            let mut f = vstart;
            while f < n && !value_stop_exec(s[f])
                invariant
                    vstart <= f <= n,
                    n == s@.len(),
                    value_run(s@, vstart as int) == value_run(s@, f as int),
                decreases n - f,
            {
                f = f + 1;
            }
            proof {
                lemma_runs(s@, vstart as int);
            }
            (crate::text::copy_range(&s, vstart, f), f)
        };
        assert(rest_before == seq![(key@, value@)] + assignments(s@, next as int));
        assert((seq![(key@, value@)] + assignments(s@, next as int)).drop_first() =~= assignments(
            s@,
            next as int,
        ));
        put_field_exec(&mut out, &key, &value);
        off = next;
    }
    assert(assignments(s@, off as int) =~= seq![]);
    out
}

} // verus!

verus! {

/// How a test declares a marker: its binding kind (`annotation`, `comment` or
/// `git_trailer`), the marker's name, and the fields the declaration must fill.
#[derive(Debug, Clone)]
pub struct Marker {
    pub kind: String,
    pub name: String,
    pub fields: Vec<String>,
}

/// Why a declaration could not be read.
#[derive(Debug, Clone, Copy, PartialEq, Eq, Structural)]
pub enum MarkerError {
    /// The source file is not UTF-8.
    NotUtf8,
    /// A trailer cannot tell which commit introduced an entity: Git provenance must bind it.
    TrailerNeedsProvenance,
    /// A binding kind other than annotation, comment or Git trailer.
    UnsupportedBinding,
}

/// The text of the first annotation named `name`.
pub open spec fn annotation_of(anns: Seq<(String, String)>, name: Seq<char>) -> Option<Seq<char>>
    decreases anns.len(),
{
    if anns.len() == 0 {
        None
    } else if anns[0].0@ == name {
        Some(anns[0].1@)
    } else {
        annotation_of(anns.drop_first(), name)
    }
}

/// The lines `a..b` (0-based, `b` excluded) of `ls` are blank.
pub open spec fn blank_between(ls: Seq<Seq<char>>, a: int, b: int) -> bool {
    forall|i: int| a <= i < b ==> blank(#[trigger] ls[i])
}

/// The texts of the comments that end before line `start` and run up to line
/// `end` with nothing but blank lines between, scanning the first `k` comments
/// from the last; nearest to the entity last.
pub open spec fn comment_parts(
    comments: Seq<crate::syntax::Comment>,
    ls: Seq<Seq<char>>,
    start: int,
    k: int,
    end: int,
) -> Seq<Seq<char>>
    decreases k,
{
    if k <= 0 {
        seq![]
    } else {
        let c = comments[k - 1];
        if !(c.range.end_line < start) {
            comment_parts(comments, ls, start, k - 1, end)
        } else if !blank_between(ls, c.range.end_line as int, end - 1) {
            seq![]
        } else {
            comment_parts(comments, ls, start, k - 1, c.range.start_line as int).push(c.text@)
        }
    }
}

/// The comments that the scan of `comment_parts` visits lie above the line it
/// has reached, within the source.
pub open spec fn walk_fits(
    comments: Seq<crate::syntax::Comment>,
    line_count: int,
    ls: Seq<Seq<char>>,
    start: int,
    k: int,
    end: int,
) -> bool
    decreases k,
{
    if k <= 0 {
        true
    } else {
        let c = comments[k - 1];
        if !(c.range.end_line < start) {
            walk_fits(comments, line_count, ls, start, k - 1, end)
        } else {
            &&& 1 <= end
            &&& c.range.end_line <= end - 1 <= line_count
            &&& blank_between(ls, c.range.end_line as int, end - 1) ==> walk_fits(
                comments,
                line_count,
                ls,
                start,
                k - 1,
                c.range.start_line as int,
            )
        }
    }
}

/// `s` without its leading white space, `/`, `*` and `#`.
pub open spec fn strip_lead(s: Seq<char>) -> Seq<char>
    decreases s.len(),
{
    if s.len() > 0 && (spec_is_whitespace(s[0]) || s[0] == '/' || s[0] == '*' || s[0] == '#') {
        strip_lead(s.drop_first())
    } else {
        s
    }
}

/// A comment line that starts with the marker `name` as a word.
pub open spec fn marker_line(line: Seq<char>, name: Seq<char>) -> bool {
    let t = strip_lead(line);
    &&& has_prefix(t, name)
    &&& (t.len() == name.len() || spec_is_whitespace(t[name.len() as int]) || t[name.len() as int] == ':'
        || t[name.len() as int] == '(')
}

/// The comment declaration of an entity starting at line `start`: the comments
/// above it joined by line breaks, when a line of them starts with the marker.
pub open spec fn comment_declaration(
    comments: Seq<crate::syntax::Comment>,
    ls: Seq<Seq<char>>,
    start: int,
    name: Seq<char>,
) -> Option<Seq<char>> {
    let content = crate::reports::xml_report::join(
        comment_parts(comments, ls, start, comments.len() as int, start),
        "\n"@,
    );
    if exists|i: int| 0 <= i < lines(content).len() && marker_line(#[trigger] lines(content)[i], name) {
        Some(content)
    } else {
        None
    }
}

/// What the marker of `entity` declares in a source of `bytes` whose syntax is `view`.
pub open spec fn source_declaration(
    marker: Marker,
    entity: crate::syntax::Entity,
    view: crate::syntax::Structure,
    bytes: Seq<u8>,
) -> Result<Option<Seq<char>>, MarkerError> {
    if marker.kind@ == "annotation"@ {
        Ok(annotation_of(entity.annotations@, marker.name@))
    } else if marker.kind@ == "comment"@ {
        if !vstd::utf8::valid_utf8(bytes) {
            Err(MarkerError::NotUtf8)
        } else {
            Ok(
                comment_declaration(
                    view.comments@,
                    lines(vstd::utf8::decode_utf8(bytes)),
                    entity.range.start_line as int,
                    marker.name@,
                ),
            )
        }
    } else if marker.kind@ == "git_trailer"@ {
        Err(MarkerError::TrailerNeedsProvenance)
    } else {
        Err(MarkerError::UnsupportedBinding)
    }
}

/// The source of `bytes` gives the comment scan of `entity` the lines it reads.
pub open spec fn comments_fit(entity: crate::syntax::Entity, view: crate::syntax::Structure, bytes: Seq<u8>) -> bool {
    let ls = lines(vstd::utf8::decode_utf8(bytes));
    let start = entity.range.start_line as int;
    walk_fits(view.comments@, ls.len() as int, ls, start, view.comments@.len() as int, start)
}

} // verus!

verus! {

/// The text of the first annotation of `anns` named `name`.
fn annotation_exec(anns: &Vec<(String, String)>, name: &String) -> (res: Option<String>)
    ensures
        match annotation_of(anns@, name@) {
            Some(t) => res matches Some(r) && r@ == t,
            None => res is None,
        },
{
    let ghost all = anns@;
    let n = crate::text::chars_of(name.as_str());
    let mut i: usize = 0;
    assert(all.skip(0) =~= all);
    while i < anns.len()
        invariant
            0 <= i <= anns@.len(),
            all == anns@,
            n@ == name@,
            annotation_of(all, name@) == annotation_of(all.skip(i as int), name@),
        decreases anns@.len() - i,
    {
        assert(all.skip(i as int).drop_first() =~= all.skip(i + 1));
        assert(all.skip(i as int)[0] == anns@[i as int]);
        if crate::text::chars_equal(&crate::text::chars_of(anns[i].0.as_str()), &n) {
            return Some(anns[i].1.clone());
        }
        i = i + 1;
    }
    assert(all.skip(i as int) =~= seq![]);
    None
}

/// Whether lines `a..b` of `ls` are blank.
fn blank_between_exec(ls: &Vec<Vec<char>>, a: usize, b: usize) -> (res: bool)
    requires
        a <= b <= ls@.len(),
    ensures
        res == blank_between(views(ls@), a as int, b as int),
{
    let mut i = a;
    while i < b
        invariant
            a <= i <= b,
            b <= ls@.len(),
            forall|q: int| a <= q < i ==> blank(#[trigger] views(ls@)[q]),
        decreases b - i,
    {
        assert(views(ls@)[i as int] == ls@[i as int]@);
        if !crate::text::is_blank(ls[i].as_slice()) {
            return false;
        }
        i = i + 1;
    }
    true
}

/// `s` without its leading white space, `/`, `*` and `#`.
fn strip_lead_exec(s: &[char]) -> (res: Vec<char>)
    ensures
        res@ == strip_lead(s@),
{
    let n = s.len();
    let mut i: usize = 0;
    assert(s@.subrange(0, n as int) =~= s@);
    while i < n && (crate::text::is_whitespace(s[i]) || s[i] == '/' || s[i] == '*' || s[i] == '#')
        invariant
            0 <= i <= n,
            n == s@.len(),
            strip_lead(s@) == strip_lead(s@.subrange(i as int, n as int)),
        decreases n - i,
    {
        assert(s@.subrange(i as int, n as int).drop_first() =~= s@.subrange(i + 1, n as int));
        i = i + 1;
    }
    crate::text::copy_range(s, i, n)
}

/// Whether a comment line starts with the marker `name` as a word.
fn marker_line_exec(line: &[char], name: &String) -> (res: bool)
    ensures
        res == marker_line(line@, name@),
{
    let t = strip_lead_exec(line);
    if !crate::text::starts_with_text(&t, name.as_str()) {
        return false;
    }
    let k = crate::text::chars_of(name.as_str()).len();
    k == t.len() || crate::text::is_whitespace(t[k]) || t[k] == ':' || t[k] == '('
}

/// The comment declaration of an entity starting at line `start`.
fn comment_exec(comments: &Vec<crate::syntax::Comment>, ls: &Vec<Vec<char>>, start: usize, name: &String) -> (res: Option<String>)
    requires
        walk_fits(comments@, ls@.len() as int, views(ls@), start as int, comments@.len() as int, start as int),
    ensures
        match comment_declaration(comments@, views(ls@), start as int, name@) {
            Some(t) => res matches Some(r) && r@ == t,
            None => res is None,
        },
{
    let ghost vl = views(ls@);
    let ghost total = comment_parts(comments@, vl, start as int, comments@.len() as int, start as int);
    let mut parts: Vec<Vec<char>> = Vec::new();
    let mut k: usize = comments.len();
    let mut end: usize = start;
    assert(views(parts@) =~= seq![]);
    while k > 0
        invariant
            k <= comments@.len(),
            vl == views(ls@),
            total == comment_parts(comments@, vl, start as int, comments@.len() as int, start as int),
            total == comment_parts(comments@, vl, start as int, k as int, end as int) + views(parts@),
            walk_fits(comments@, ls@.len() as int, vl, start as int, k as int, end as int),
        decreases k,
    {
        let c = &comments[k - 1];
        if !(c.range.end_line < start) {
            k = k - 1;
            continue;
        }
        if !blank_between_exec(ls, c.range.end_line, end - 1) {
            assert(comment_parts(comments@, vl, start as int, k as int, end as int) =~= seq![]);
            assert(total =~= views(parts@));
            k = 0;
            assert(comment_parts(comments@, vl, start as int, 0, end as int) =~= seq![]);
            assert(total =~= comment_parts(comments@, vl, start as int, k as int, end as int) + views(parts@));
            continue;
        }
        let text = crate::text::chars_of(c.text.as_str());
        let ghost before = views(parts@);
        parts.insert(0, text);
        assert(views(parts@) =~= seq![c.text@] + before);
        assert(comment_parts(comments@, vl, start as int, k - 1, c.range.start_line as int).push(c.text@)
            + before =~= comment_parts(comments@, vl, start as int, k - 1, c.range.start_line as int)
            + views(parts@));
        end = c.range.start_line;
        k = k - 1;
    }
    assert(total =~= views(parts@));
    let content = join_lines(&parts);
    let cl = crate::text::split_lines(&content);
    let mut i: usize = 0;
    while i < cl.len()
        invariant
            0 <= i <= cl@.len(),
            views(cl@) == lines(content@),
            content@ == crate::reports::xml_report::join(
                comment_parts(comments@, views(ls@), start as int, comments@.len() as int, start as int),
                "\n"@,
            ),
            forall|q: int| 0 <= q < i ==> !marker_line(#[trigger] lines(content@)[q], name@),
        decreases cl@.len() - i,
    {
        assert(views(cl@)[i as int] == cl@[i as int]@);
        if marker_line_exec(cl[i].as_slice(), name) {
            assert(marker_line(lines(content@)[i as int], name@));
            return Some(crate::text::string_of(&content));
        }
        i = i + 1;
    }
    None
}

/// `parts` joined by line breaks.
fn join_lines(parts: &Vec<Vec<char>>) -> (res: Vec<char>)
    ensures
        res@ == crate::reports::xml_report::join(views(parts@), "\n"@),
{
    proof {
        reveal_strlit("\n");
    }
    let ghost all = views(parts@);
    let mut out: Vec<char> = Vec::new();
    let mut i: usize = 0;
    assert(all.take(0) =~= seq![]);
    while i < parts.len()
        invariant
            0 <= i <= parts@.len(),
            all == views(parts@),
            "\n"@ == seq!['\n'],
            out@ == crate::reports::xml_report::join(all.take(i as int), "\n"@),
        decreases parts@.len() - i,
    {
        let ghost done = all.take(i as int);
        assert(all.take(i + 1).drop_last() =~= done);
        assert(all.take(i + 1).last() == parts@[i as int]@);
        if i > 0 {
            out.push('\n');
        }
        crate::text::extend_chars(&mut out, parts[i].as_slice());
        proof {
            if i == 0 {
                assert(out@ =~= parts@[0]@);
            } else {
                assert(out@ =~= crate::reports::xml_report::join(done, "\n"@) + "\n"@ + parts@[i as int]@);
            }
        }
        i = i + 1;
    }
    assert(all.take(i as int) =~= all);
    out
}

/// What the marker of `entity` declares in a source of `bytes` whose syntax is
/// `view`: an annotation's text, or the comments just above the entity when one
/// of their lines starts with the marker's name.
pub fn from_source(
    marker: &Marker,
    entity: &crate::syntax::Entity,
    view: &crate::syntax::Structure,
    bytes: &[u8],
) -> (res: Result<Option<String>, MarkerError>)
    requires
        marker.kind@ == "comment"@ && vstd::utf8::valid_utf8(bytes@) ==> comments_fit(*entity, *view, bytes@),
    ensures
        match source_declaration(*marker, *entity, *view, bytes@) {
            Ok(Some(t)) => res matches Ok(Some(r)) && r@ == t,
            Ok(None) => res matches Ok(None),
            Err(e) => res is Err && res->Err_0 == e,
        },
{
    let kind = crate::text::chars_of(marker.kind.as_str());
    if crate::text::text_is(&kind, "annotation") {
        return Ok(annotation_exec(&entity.annotations, &marker.name));
    }
    if crate::text::text_is(&kind, "comment") {
        let source = match crate::text::text_of_bytes(bytes) {
            None => return Err(MarkerError::NotUtf8),
            Some(s) => s,
        };
        proof {
            vstd::utf8::encode_utf8_decode_utf8(source@);
        }
        let chars = crate::text::chars_of(source);
        let ls = crate::text::split_lines(&chars);
        return Ok(comment_exec(&view.comments, &ls, entity.range.start_line, &marker.name));
    }
    if crate::text::text_is(&kind, "git_trailer") {
        return Err(MarkerError::TrailerNeedsProvenance);
    }
    Err(MarkerError::UnsupportedBinding)
}

/// The bytes of the first snapshot file at `path`.
pub open spec fn file_bytes(files: Seq<(String, crate::provenance::File)>, path: Seq<char>) -> Option<Seq<u8>>
    decreases files.len(),
{
    if files.len() == 0 {
        None
    } else if files[0].0@ == path {
        Some(files[0].1.bytes@)
    } else {
        file_bytes(files.drop_first(), path)
    }
}

/// The snapshot file at `path`.
pub(crate) fn file_at_path<'a>(files: &'a Vec<(String, crate::provenance::File)>, path: &str) -> (res: Option<&'a crate::provenance::File>)
    ensures
        match file_bytes(files@, path@) {
            Some(b) => res matches Some(f) && f.bytes@ == b,
            None => res is None,
        },
{
    let ghost all = files@;
    let p = crate::text::chars_of(path);
    let mut i: usize = 0;
    assert(all.skip(0) =~= all);
    while i < files.len()
        invariant
            0 <= i <= files@.len(),
            all == files@,
            p@ == path@,
            file_bytes(all, path@) == file_bytes(all.skip(i as int), path@),
        decreases files@.len() - i,
    {
        assert(all.skip(i as int).drop_first() =~= all.skip(i + 1));
        assert(all.skip(i as int)[0] == files@[i as int]);
        if crate::text::chars_equal(&crate::text::chars_of(files[i].0.as_str()), &p) {
            return Some(&files[i].1);
        }
        i = i + 1;
    }
    assert(all.skip(i as int) =~= seq![]);
    None
}

/// What the marker of `entity` declares in the snapshot file at `path`.
pub fn declaration(
    marker: &Marker,
    entity: &crate::syntax::Entity,
    view: &crate::syntax::Structure,
    path: &str,
    snapshot: &crate::rules::Snapshot,
) -> (res: Result<Option<String>, MarkerError>)
    requires
        file_bytes(snapshot.files@, path@) is Some,
        marker.kind@ == "comment"@ && vstd::utf8::valid_utf8(file_bytes(snapshot.files@, path@)->0)
            ==> comments_fit(*entity, *view, file_bytes(snapshot.files@, path@)->0),
    ensures
        match source_declaration(*marker, *entity, *view, file_bytes(snapshot.files@, path@)->0) {
            Ok(Some(t)) => res matches Ok(Some(r)) && r@ == t,
            Ok(None) => res matches Ok(None),
            Err(e) => res is Err && res->Err_0 == e,
        },
{
    let file = match file_at_path(&snapshot.files, path) {
        Some(f) => f,
        None => return Err(MarkerError::NotUtf8),
    };
    from_source(marker, entity, view, file.bytes.as_slice())
}

} // verus!

verus! {

/// Each field name comes strictly before the next.
pub open spec fn names_ascending(f: Seq<(Seq<char>, Seq<char>)>) -> bool {
    forall|i: int, j: int| 0 <= i < j < f.len() ==> text_less(#[trigger] f[i].0, #[trigger] f[j].0)
}

/// Some field of `f` is named `n`.
pub open spec fn has_name(f: Seq<(Seq<char>, Seq<char>)>, n: Seq<char>) -> bool {
    exists|i: int| 0 <= i < f.len() && #[trigger] f[i].0 == n
}

/// Putting a field keeps the names ascending and adds exactly its name.
proof fn lemma_put_field(s: Seq<(Seq<char>, Seq<char>)>, k: Seq<char>, v: Seq<char>)
    requires
        names_ascending(s),
    ensures
        names_ascending(put_field(s, k, v)),
        forall|n: Seq<char>| #[trigger] has_name(put_field(s, k, v), n) <==> (has_name(s, n) || n == k),
    decreases s.len(),
{
    let u = put_field(s, k, v);
    if s.len() == 0 {
        assert(u =~= seq![(k, v)]);
        assert forall|n: Seq<char>| has_name(u, n) <==> (has_name(s, n) || n == k) by {
            if n == k {
                assert(u[0].0 == k);
            }
        }
    } else if s[0].0 == k {
        assert(u =~= seq![(k, Seq::<char>::empty())] + s.drop_first());
        assert forall|i: int| 0 <= i < u.len() implies #[trigger] u[i].0 == s[i].0 by {
            if i > 0 {
                assert(u[i] == s[i]);
            }
        }
        assert forall|n: Seq<char>| has_name(u, n) <==> (has_name(s, n) || n == k) by {
            if has_name(u, n) {
                let i = choose|i: int| 0 <= i < u.len() && #[trigger] u[i].0 == n;
                assert(s[i].0 == n);
            }
            if has_name(s, n) {
                let i = choose|i: int| 0 <= i < s.len() && #[trigger] s[i].0 == n;
                assert(u[i].0 == n);
            }
            if n == k {
                assert(u[0].0 == n);
            }
        }
    } else if text_less(s[0].0, k) {
        let t = s.drop_first();
        assert forall|i: int, j: int| 0 <= i < j < t.len() implies text_less(#[trigger] t[i].0, #[trigger] t[j].0) by {
            assert(t[i] == s[i + 1] && t[j] == s[j + 1]);
        }
        lemma_put_field(t, k, v);
        let r = put_field(t, k, v);
        assert(u == seq![s[0]] + r);
        assert forall|m: int| 0 <= m < r.len() implies text_less(s[0].0, #[trigger] r[m].0) by {
            assert(has_name(r, r[m].0));
            if r[m].0 != k {
                assert(has_name(t, r[m].0));
                let q = choose|q: int| 0 <= q < t.len() && #[trigger] t[q].0 == r[m].0;
                assert(s[q + 1].0 == r[m].0);
                assert(text_less(s[0].0, s[q + 1].0));
            }
        }
        assert forall|i: int, j: int| 0 <= i < j < u.len() implies text_less(#[trigger] u[i].0, #[trigger] u[j].0) by {
            if i == 0 {
                assert(u[j] == r[j - 1]);
            } else {
                assert(u[i] == r[i - 1] && u[j] == r[j - 1]);
            }
        }
        assert forall|n: Seq<char>| has_name(u, n) <==> (has_name(s, n) || n == k) by {
            if has_name(u, n) {
                let i = choose|i: int| 0 <= i < u.len() && #[trigger] u[i].0 == n;
                if i == 0 {
                    assert(s[0].0 == n);
                } else {
                    assert(r[i - 1].0 == n);
                    assert(has_name(r, n));
                    if has_name(t, n) {
                        let q = choose|q: int| 0 <= q < t.len() && #[trigger] t[q].0 == n;
                        assert(s[q + 1].0 == n);
                    }
                }
            }
            if has_name(s, n) {
                let i = choose|i: int| 0 <= i < s.len() && #[trigger] s[i].0 == n;
                if i == 0 {
                    assert(u[0].0 == n);
                } else {
                    assert(t[i - 1].0 == n);
                    assert(has_name(t, n));
                    assert(has_name(r, n));
                    let q = choose|q: int| 0 <= q < r.len() && #[trigger] r[q].0 == n;
                    assert(u[q + 1].0 == n);
                }
            }
            if n == k {
                assert(has_name(r, k));
                let q = choose|q: int| 0 <= q < r.len() && #[trigger] r[q].0 == k;
                assert(u[q + 1].0 == k);
            }
        }
    } else {
        assert(u == seq![(k, v)] + s);
        crate::reports::lcov::text_less_total(k, s[0].0);
        assert(text_less(k, s[0].0));
        assert forall|i: int, j: int| 0 <= i < j < u.len() implies text_less(#[trigger] u[i].0, #[trigger] u[j].0) by {
            if i == 0 {
                assert(u[j] == s[j - 1]);
                if j - 1 > 0 {
                    assert(text_less(s[0].0, s[j - 1].0));
                    crate::reports::lcov::text_less_transitive(k, s[0].0, s[j - 1].0);
                }
            } else {
                assert(u[i] == s[i - 1] && u[j] == s[j - 1]);
            }
        }
        assert forall|n: Seq<char>| has_name(u, n) <==> (has_name(s, n) || n == k) by {
            if has_name(u, n) {
                let i = choose|i: int| 0 <= i < u.len() && #[trigger] u[i].0 == n;
                if i > 0 {
                    assert(s[i - 1].0 == n);
                }
            }
            if has_name(s, n) {
                let i = choose|i: int| 0 <= i < s.len() && #[trigger] s[i].0 == n;
                assert(u[i + 1].0 == n);
            }
            if n == k {
                assert(u[0].0 == k);
            }
        }
    }
}

/// Collecting assignments keeps the names ascending.
proof fn lemma_collect_ascending(fields: Seq<(Seq<char>, Seq<char>)>, asg: Seq<(Seq<char>, Seq<char>)>)
    requires
        names_ascending(fields),
    ensures
        names_ascending(collect_fields(fields, asg)),
    decreases asg.len(),
{
    if asg.len() > 0 {
        lemma_put_field(fields, asg[0].0, asg[0].1);
        lemma_collect_ascending(put_field(fields, asg[0].0, asg[0].1), asg.drop_first());
    }
}

/// The declared fields of a text come by strictly ascending name, each name once.
pub proof fn field_names_ascending(text: Seq<char>)
    ensures
        names_ascending(fields_of(text)),
{
    lemma_collect_ascending(seq![], assignments(text, 0));
}

} // verus!

//! SARIF location tables and file URIs, resolved without file system or network
//! access. URL parsing and joining are the `url` crate's; what the profile accepts
//! of their results is decided here.

use vstd::prelude::*;
use crate::json::{member, Json};
use crate::text::{spec_is_whitespace, has_prefix};
use super::json_text::{array_text, text_bytes};
use super::diagnostics::{location_view, opt_view, LocationModel};
use super::lcov::{text_less, text_less_asymmetric, text_less_irreflexive, text_less_total, text_lt};
use super::IssueLocation;
use crate::json::as_u64;
use super::sarif::{
    array_of, optional_text, step, table_entry, table_index, SarifError, MAX_DEPTH,
};
use vstd::utf8::{decode_utf8, encode_utf8, valid_utf8};

verus! {

/// Base of relative URIs: a file URL that no real path starts with.
pub const RELATIVE_ROOT: &'static str = "file:///__qualitygate_relative__/";

/// Path prefix of URIs resolved against the relative base.
pub const RELATIVE_PREFIX: &'static str = "/__qualitygate_relative__/";

/// Longest accepted URI, in bytes.
pub const MAX_URI_BYTES: usize = 16384;

/// The parts of a parsed URL that location resolution reads.
#[derive(Debug)]
pub struct UrlParts {
    pub serialization: String,
    pub scheme: String,
    pub host: Option<String>,
    pub has_query: bool,
    pub has_fragment: bool,
    pub path: String,
}

/// The same parts as plain text.
#[verifier::ext_equal]
pub struct UrlView {
    pub serialization: Seq<char>,
    pub scheme: Seq<char>,
    pub host: Option<Seq<char>>,
    pub has_query: bool,
    pub has_fragment: bool,
    pub path: Seq<char>,
}

impl View for UrlParts {
    type V = UrlView;

    open spec fn view(&self) -> UrlView {
        UrlView {
            serialization: self.serialization@,
            scheme: self.scheme@,
            host: match self.host {
                Some(h) => Some(h@),
                None => None,
            },
            has_query: self.has_query,
            has_fragment: self.has_fragment,
            path: self.path@,
        }
    }
}

/// The view of an optional URL.
pub open spec fn url_view(u: Option<UrlParts>) -> Option<UrlView> {
    match u {
        Some(p) => Some(p@),
        None => None,
    }
}

/// What `url::Url::parse` gives for `input`.
pub uninterp spec fn spec_url_parse(input: Seq<char>) -> Option<UrlView>;

/// What `url::Url::join` gives for `input` against the URL serialized as `base`.
pub uninterp spec fn spec_url_join(base: Seq<char>, input: Seq<char>) -> Option<UrlView>;

/// `url::Url::parse(input)`, its parts read out; `None` when parsing fails.
#[verifier::external_body]
fn url_parse(input: &str) -> (res: Option<UrlParts>)
    ensures
        url_view(res) == spec_url_parse(input@),
{
    let url = url::Url::parse(input).ok()?;
    Some(UrlParts {
        serialization: url.as_str().to_string(),
        scheme: url.scheme().to_string(),
        host: url.host_str().map(|h| h.to_string()),
        has_query: url.query().is_some(),
        has_fragment: url.fragment().is_some(),
        path: url.path().to_string(),
    })
}

/// `url::Url::join(&base, input)`, where `base` is the serialization of a parsed
/// URL (re-read with `Url::parse`, which gives the same URL back); `None` when
/// joining fails.
#[verifier::external_body]
fn url_join(base: &str, input: &str) -> (res: Option<UrlParts>)
    ensures
        url_view(res) == spec_url_join(base@, input@),
{
    let url = url::Url::parse(base).ok()?.join(input).ok()?;
    Some(UrlParts {
        serialization: url.as_str().to_string(),
        scheme: url.scheme().to_string(),
        host: url.host_str().map(|h| h.to_string()),
        has_query: url.query().is_some(),
        has_fragment: url.fragment().is_some(),
        path: url.path().to_string(),
    })
}

/// An ASCII hexadecimal digit byte.
pub open spec fn is_hex_byte(b: u8) -> bool {
    (48 <= b && b <= 57) || (65 <= b && b <= 70) || (97 <= b && b <= 102)
}

/// The value of a hexadecimal digit byte.
pub open spec fn hex_value(b: u8) -> int {
    if b <= 57 {
        b - 48
    } else if b <= 70 {
        b - 55
    } else {
        b - 87
    }
}

/// Percent-decoding: each `%` followed by two hexadecimal digits becomes the byte
/// they spell; every other byte stays.
pub open spec fn percent_decode(bytes: Seq<u8>) -> Seq<u8>
    decreases bytes.len(),
{
    if bytes.len() == 0 {
        seq![]
    } else if bytes[0] == 37 && bytes.len() >= 3 && is_hex_byte(bytes[1]) && is_hex_byte(
        bytes[2],
    ) {
        seq![(hex_value(bytes[1]) * 16 + hex_value(bytes[2])) as u8] + percent_decode(
            bytes.skip(3),
        )
    } else {
        seq![bytes[0]] + percent_decode(bytes.skip(1))
    }
}

/// `percent_encoding::percent_decode_str(s).decode_utf8()`: the text whose UTF-8
/// encoding is the percent-decoded bytes of `s`, or `None` when they are not UTF-8.
#[verifier::external_body]
fn percent_decode_text(s: &str) -> (res: Option<String>)
    ensures
        res is Some <==> valid_utf8(percent_decode(encode_utf8(s@))),
        res matches Some(t) ==> encode_utf8(t@) == percent_decode(encode_utf8(s@)),
{
    percent_encoding::percent_decode_str(s).decode_utf8().ok().map(|t| t.into_owned())
}

/// `url::Url::to_file_path` on the URL serialized as `url`, then the path as
/// UTF-8 text. The answer depends on the platform's path conventions, so
/// nothing is stated of it.
#[verifier::external_body]
fn platform_file_path(url: &str) -> Option<String> {
    let path = url::Url::parse(url).ok()?.to_file_path().ok()?;
    path.to_str().map(|p| p.to_string())
}

} // verus!

verus! {

/// A resolved URI and whether it is relative to the source root.
pub struct ResolvedView {
    pub url: UrlView,
    pub relative: bool,
}

/// A resolved URI, as computed.
pub struct Resolved {
    pub url: UrlParts,
    pub relative: bool,
}

/// The view of a resolved URI.
pub open spec fn resolved_view(r: Resolved) -> ResolvedView {
    ResolvedView { url: r.url@, relative: r.relative }
}

/// An ASCII control character.
pub open spec fn is_control(c: char) -> bool {
    (c as u32) < 0x20 || c == '\u{7f}'
}

/// An ASCII hexadecimal digit.
pub open spec fn is_hex(c: char) -> bool {
    ('0' <= c && c <= '9') || ('A' <= c && c <= 'F') || ('a' <= c && c <= 'f')
}

/// A `%` at `i` that is not followed by two hexadecimal digits.
pub open spec fn bad_escape(uri: Seq<char>, i: int) -> bool {
    uri[i] == '%' && !(i + 2 < uri.len() && is_hex(uri[i + 1]) && is_hex(uri[i + 2]))
}

/// Why the text of a URI is refused, if it is: too long, a broken percent escape,
/// surrounding white space, a backslash or a control character.
pub open spec fn uri_text_error(uri: Seq<char>) -> Option<SarifError> {
    if text_bytes(uri) > MAX_URI_BYTES {
        Some(SarifError::UriTooLong)
    } else if exists|i: int| 0 <= i < uri.len() && #[trigger] bad_escape(uri, i) {
        Some(SarifError::InvalidPercentEscape)
    } else if uri.len() > 0 && (spec_is_whitespace(uri[0]) || spec_is_whitespace(uri.last()))
        || uri.contains('\\') || exists|i: int| 0 <= i < uri.len() && is_control(#[trigger] uri[i]) {
        Some(SarifError::NonPortableUri)
    } else {
        None
    }
}

/// A local file URL: scheme `file`, no host but `localhost`, no query, no fragment.
pub open spec fn local_file(url: UrlView) -> bool {
    &&& url.scheme == "file"@
    &&& (url.host matches Some(h) ==> h == "localhost"@)
    &&& !url.has_query
    &&& !url.has_fragment
}

/// `uri` resolved against `base`.
pub open spec fn own_resolved(base: ResolvedView, uri: Seq<char>) -> Result<ResolvedView, SarifError> {
    match spec_url_join(base.url.serialization, uri) {
        None => Err(SarifError::InvalidUrl),
        Some(url) => if text_bytes(url.serialization) > MAX_URI_BYTES {
            Err(SarifError::UriTooLong)
        } else if !local_file(url) {
            Err(SarifError::NotLocalFile)
        } else {
            let relative = base.relative && spec_url_parse(uri) is None;
            if relative && !has_prefix(url.serialization, RELATIVE_ROOT@) {
                Err(SarifError::EscapesRoot)
            } else {
                Ok(ResolvedView { url, relative })
            }
        },
    }
}

/// A location's own URI and the one its artifact index refers to, reconciled.
pub open spec fn combine(own: Option<ResolvedView>, referenced: Option<ResolvedView>) -> Result<
    ResolvedView,
    SarifError,
> {
    match (own, referenced) {
        (Some(o), Some(r)) => if o.url.serialization != r.url.serialization || o.relative
            != r.relative {
            Err(SarifError::IndexContradictsUri)
        } else {
            Ok(o)
        },
        (Some(o), None) => Ok(o),
        (None, Some(r)) => Ok(r),
        (None, None) => Err(SarifError::NoUri),
    }
}

/// The location of artifact `i` of the run.
pub open spec fn artifact_location(run: Json, i: usize) -> Result<Json, SarifError> {
    match table_entry(run, "artifacts"@, i) {
        Err(e) => Err(e),
        Ok(a) => match member(a, "location"@) {
            None => Err(SarifError::MissingArtifactLocation),
            Some(l) => Ok(l),
        },
    }
}

/// The location that URI base `id` of the run stands for.
pub open spec fn base_location(run: Json, id: Seq<char>) -> Result<Json, SarifError> {
    match member(run, "originalUriBaseIds"@) {
        None => Err(SarifError::MissingBaseTable),
        Some(bases) => if !(bases is Object) {
            Err(SarifError::InvalidType)
        } else {
            match member(bases, id) {
                None => Err(SarifError::UnresolvedBase),
                Some(b) => Ok(b),
            }
        },
    }
}

/// Attach the budget left to a resolution outcome.
pub open spec fn with_budget(r: Result<ResolvedView, SarifError>, budget: int) -> Result<
    (ResolvedView, int),
    SarifError,
> {
    match r {
        Err(e) => Err(e),
        Ok(v) => Ok((v, budget)),
    }
}

/// Resolve an artifact location at reference depth `depth` with `budget` units of
/// work left: its artifact index and its own URI (against its base), which must
/// agree. The result carries the budget left.
pub open spec fn resolve_uri(run: Json, loc: Json, depth: int, budget: int) -> Result<
    (ResolvedView, int),
    SarifError,
>
    decreases MAX_DEPTH + 1 - depth,
{
    match step(depth, budget) {
        Err(e) => Err(e),
        Ok(b0) => if !(loc is Object) {
            Err(SarifError::InvalidType)
        } else {
            let referenced: Result<(Option<ResolvedView>, int), SarifError> = match table_index(
                loc,
                "index"@,
            ) {
                Err(e) => Err(e),
                Ok(None) => Ok((None, b0)),
                Ok(Some(i)) => match artifact_location(run, i) {
                    Err(e) => Err(e),
                    Ok(inner) => match resolve_uri(run, inner, depth + 1, b0) {
                        Err(e) => Err(e),
                        Ok((v, b1)) => Ok((Some(v), b1)),
                    },
                },
            };
            match referenced {
                Err(e) => Err(e),
                Ok((r, b1)) => match optional_text(loc, "uri"@) {
                    Err(e) => Err(e),
                    Ok(None) => with_budget(combine(None, r), b1),
                    Ok(Some(uri)) => match uri_text_error(uri) {
                        Some(e) => Err(e),
                        None => match optional_text(loc, "uriBaseId"@) {
                            Err(e) => Err(e),
                            Ok(None) => match spec_url_parse(RELATIVE_ROOT@) {
                                None => Err(SarifError::InvalidUrl),
                                Some(root) => match own_resolved(
                                    ResolvedView { url: root, relative: true },
                                    uri,
                                ) {
                                    Err(e) => Err(e),
                                    Ok(own) => with_budget(combine(Some(own), r), b1),
                                },
                            },
                            Ok(Some(id)) => match base_location(run, id) {
                                Err(e) => Err(e),
                                Ok(base_loc) => match resolve_uri(run, base_loc, depth + 1, b1) {
                                    Err(e) => Err(e),
                                    Ok((base, b2)) => match own_resolved(base, uri) {
                                        Err(e) => Err(e),
                                        Ok(own) => with_budget(combine(Some(own), r), b2),
                                    },
                                },
                            },
                        },
                    },
                },
            }
        },
    }
}

/// A decoded path that holds a backslash, NUL, CR or LF.
pub open spec fn unsafe_decoded(p: Seq<char>) -> bool {
    p.contains('\\') || p.contains('\0') || p.contains('\r') || p.contains('\n')
}

/// The platform's answer for each file URL: its local path, or none.
pub type NativePaths = spec_fn(Seq<char>) -> Option<Seq<char>>;

/// The source path of a resolved URI whose path decodes to `decoded`: below the
/// relative root for relative URIs, the platform's path otherwise.
pub open spec fn source_path(r: ResolvedView, decoded: Seq<char>, native: NativePaths) -> Result<
    Seq<char>,
    SarifError,
> {
    if r.relative {
        if has_prefix(decoded, RELATIVE_PREFIX@) {
            Ok(decoded.skip(RELATIVE_PREFIX@.len() as int))
        } else {
            Err(SarifError::InvalidRelativePath)
        }
    } else {
        match native(r.url.serialization) {
            None => Err(SarifError::InvalidFilePath),
            Some(p) => Ok(p),
        }
    }
}

/// The source file that an artifact location names, and the budget left.
pub open spec fn file_path(run: Json, loc: Json, budget: int, native: NativePaths) -> Result<
    (Seq<char>, int),
    SarifError,
> {
    match resolve_uri(run, loc, 0, budget) {
        Err(e) => Err(e),
        Ok((r, b)) => {
            let bytes = percent_decode(encode_utf8(r.url.path));
            if !valid_utf8(bytes) {
                Err(SarifError::InvalidUtf8Path)
            } else if unsafe_decoded(decode_utf8(bytes)) {
                Err(SarifError::UnsafePath)
            } else {
                match source_path(r, decode_utf8(bytes), native) {
                    Err(e) => Err(e),
                    Ok(p) => if p.len() == 0 || p.contains('\0') || p.contains('\r')
                        || p.contains('\n') {
                        Err(SarifError::NoSourcePath)
                    } else {
                        Ok((p, b))
                    },
                }
            }
        },
    }
}

/// The symbol of a logical location at depth `depth`: its own name and the one
/// its index refers to, which must agree.
pub open spec fn logical_symbol(run: Json, v: Json, depth: int, budget: int) -> Result<
    (Option<Seq<char>>, int),
    SarifError,
>
    decreases MAX_DEPTH + 1 - depth,
{
    match step(depth, budget) {
        Err(e) => Err(e),
        Ok(b0) => if !(v is Object) {
            Err(SarifError::InvalidType)
        } else {
            match optional_text(v, "fullyQualifiedName"@) {
                Err(e) => Err(e),
                Ok(own) => match table_index(v, "index"@) {
                    Err(e) => Err(e),
                    Ok(None) => Ok((own, b0)),
                    Ok(Some(i)) => match table_entry(run, "logicalLocations"@, i) {
                        Err(e) => Err(e),
                        Ok(entry) => match logical_symbol(run, entry, depth + 1, b0) {
                            Err(e) => Err(e),
                            Ok((referenced, b1)) => if own is Some && referenced is Some && own
                                != referenced {
                                Err(SarifError::LogicalContradiction)
                            } else if own is Some {
                                Ok((own, b1))
                            } else {
                                Ok((referenced, b1))
                            },
                        },
                    },
                },
            }
        },
    }
}

} // verus!

verus! {

fn is_hex_exec(c: char) -> (res: bool)
    ensures
        res == is_hex(c),
{
    ('0' <= c && c <= '9') || ('A' <= c && c <= 'F') || ('a' <= c && c <= 'f')
}

fn has_bad_escape(c: &Vec<char>) -> (res: bool)
    ensures
        res == exists|i: int| 0 <= i < c@.len() && #[trigger] bad_escape(c@, i),
{
    let n = c.len();
    let mut i: usize = 0;
    while i < n
        invariant
            0 <= i <= n,
            n == c@.len(),
            forall|j: int| 0 <= j < i ==> !#[trigger] bad_escape(c@, j),
        decreases n - i,
    {
        if c[i] == '%' && !(n - i > 2 && is_hex_exec(c[i + 1]) && is_hex_exec(c[i + 2])) {
            assert(bad_escape(c@, i as int));
            return true;
        }
        i = i + 1;
    }
    false
}

fn has_control(c: &Vec<char>) -> (res: bool)
    ensures
        res == exists|i: int| 0 <= i < c@.len() && is_control(#[trigger] c@[i]),
{
    let n = c.len();
    let mut i: usize = 0;
    while i < n
        invariant
            0 <= i <= n,
            n == c@.len(),
            forall|j: int| 0 <= j < i ==> !is_control(#[trigger] c@[j]),
        decreases n - i,
    {
        let ch = c[i];
        if (ch as u32) < 0x20 || ch == '\u{7f}' {
            assert(is_control(c@[i as int]));
            return true;
        }
        i = i + 1;
    }
    false
}

/// Why the text of `uri` is refused, if it is.
pub fn uri_text_check(uri: &str) -> (res: Option<SarifError>)
    ensures
        res == uri_text_error(uri@),
{
    if super::json_text::text_bytes_exec(uri) > MAX_URI_BYTES as u128 {
        return Some(SarifError::UriTooLong);
    }
    let c = crate::text::chars_of(uri);
    if has_bad_escape(&c) {
        return Some(SarifError::InvalidPercentEscape);
    }
    let n = c.len();
    if n > 0 && (crate::text::is_whitespace(c[0]) || crate::text::is_whitespace(c[n - 1]))
        || crate::text::contains_char(&c, '\\') || has_control(&c) {
        return Some(SarifError::NonPortableUri);
    }
    None
}

fn copy_text(s: &str) -> (res: String)
    ensures
        res@ == s@,
{
    let c = crate::text::chars_of(s);
    crate::text::string_of(c.as_slice())
}

fn local_file_exec(url: &UrlParts) -> (res: bool)
    ensures
        res == local_file(url@),
{
    let scheme = crate::text::chars_of(url.scheme.as_str());
    if !crate::text::text_is(&scheme, "file") {
        return false;
    }
    match &url.host {
        Some(h) => {
            let hc = crate::text::chars_of(h.as_str());
            if !crate::text::text_is(&hc, "localhost") {
                return false;
            }
        },
        None => {},
    }
    !url.has_query && !url.has_fragment
}

fn own_resolved_exec(base: &Resolved, uri: &str) -> (res: Result<Resolved, SarifError>)
    ensures
        match own_resolved(resolved_view(*base), uri@) {
            Ok(v) => res matches Ok(r) && resolved_view(r) == v,
            Err(e) => res == Err::<Resolved, SarifError>(e),
        },
{
    let url = match url_join(base.url.serialization.as_str(), uri) {
        None => return Err(SarifError::InvalidUrl),
        Some(u) => u,
    };
    if super::json_text::text_bytes_exec(url.serialization.as_str()) > MAX_URI_BYTES as u128 {
        return Err(SarifError::UriTooLong);
    }
    if !local_file_exec(&url) {
        return Err(SarifError::NotLocalFile);
    }
    let relative = base.relative && url_parse(uri).is_none();
    let sc = crate::text::chars_of(url.serialization.as_str());
    if relative && !crate::text::starts_with_text(&sc, RELATIVE_ROOT) {
        return Err(SarifError::EscapesRoot);
    }
    Ok(Resolved { url, relative })
}

fn combine_exec(own: Option<Resolved>, referenced: Option<Resolved>) -> (res: Result<Resolved, SarifError>)
    ensures
        match combine(
            match own { Some(o) => Some(resolved_view(o)), None => None },
            match referenced { Some(r) => Some(resolved_view(r)), None => None },
        ) {
            Ok(v) => res matches Ok(r) && resolved_view(r) == v,
            Err(e) => res == Err::<Resolved, SarifError>(e),
        },
{
    match (own, referenced) {
        (Some(o), Some(r)) => {
            let a = crate::text::chars_of(o.url.serialization.as_str());
            let b = crate::text::chars_of(r.url.serialization.as_str());
            if !crate::text::chars_equal(&a, &b) || o.relative != r.relative {
                Err(SarifError::IndexContradictsUri)
            } else {
                Ok(o)
            }
        },
        (Some(o), None) => Ok(o),
        (None, Some(r)) => Ok(r),
        (None, None) => Err(SarifError::NoUri),
    }
}

fn artifact_location_exec<'a>(run: &'a Json, i: usize) -> (res: Result<&'a Json, SarifError>)
    ensures
        match artifact_location(*run, i) {
            Ok(l) => res matches Ok(x) && *x == l,
            Err(e) => res == Err::<&Json, SarifError>(e),
        },
{
    let a = super::sarif::entry_at(run, "artifacts", i)?;
    match crate::json::get(a, "location") {
        None => Err(SarifError::MissingArtifactLocation),
        Some(l) => Ok(l),
    }
}

fn base_location_exec<'a>(run: &'a Json, id: &str) -> (res: Result<&'a Json, SarifError>)
    ensures
        match base_location(*run, id@) {
            Ok(l) => res matches Ok(x) && *x == l,
            Err(e) => res == Err::<&Json, SarifError>(e),
        },
{
    match crate::json::get(run, "originalUriBaseIds") {
        None => Err(SarifError::MissingBaseTable),
        Some(bases) => match bases {
            Json::Object(_) => match crate::json::get(bases, id) {
                None => Err(SarifError::UnresolvedBase),
                Some(b) => Ok(b),
            },
            _ => Err(SarifError::InvalidType),
        },
    }
}

/// Resolve an artifact location at reference depth `depth`, spending the work budget.
pub fn resolve(run: &Json, loc: &Json, depth: usize, budget: &mut usize) -> (res: Result<Resolved, SarifError>)
    requires
        depth <= MAX_DEPTH + 1,
    ensures
        match resolve_uri(*run, *loc, depth as int, *old(budget) as int) {
            Ok((v, b)) => res matches Ok(r) && resolved_view(r) == v && *final(budget) == b,
            Err(e) => res == Err::<Resolved, SarifError>(e),
        },
    decreases MAX_DEPTH + 1 - depth,
{
    let ghost b_in = *budget as int;
    super::sarif::step_exec(depth, budget)?;
    match loc {
        Json::Object(_) => {},
        _ => return Err(SarifError::InvalidType),
    }
    let referenced: Option<Resolved> = match super::sarif::index_at(loc, "index")? {
        None => None,
        Some(i) => {
            let inner = artifact_location_exec(run, i)?;
            let r = resolve(run, inner, depth + 1, budget)?;
            Some(r)
        },
    };
    let uri = match super::sarif::optional_text_at(loc, "uri")? {
        None => {
            return combine_exec(None, referenced);
        },
        Some(u) => u,
    };
    if let Some(e) = uri_text_check(uri.as_str()) {
        return Err(e);
    }
    let base = match super::sarif::optional_text_at(loc, "uriBaseId")? {
        None => match url_parse(RELATIVE_ROOT) {
            None => return Err(SarifError::InvalidUrl),
            Some(root) => Resolved { url: root, relative: true },
        },
        Some(id) => {
            let base_loc = base_location_exec(run, id.as_str())?;
            resolve(run, base_loc, depth + 1, budget)?
        },
    };
    let own = own_resolved_exec(&base, uri.as_str())?;
    combine_exec(Some(own), referenced)
}

} // verus!

verus! {

/// Platform answers already obtained, by file URL.
pub type PathCache = Vec<(String, Option<String>)>;

/// `native` gives every answer that the cache holds.
pub open spec fn agrees(native: NativePaths, cache: Seq<(String, Option<String>)>) -> bool {
    forall|i: int| 0 <= i < cache.len() ==> native((#[trigger] cache[i]).0@) == opt_view(cache[i].1)
}

/// No file URL occurs twice in the cache.
pub open spec fn distinct_keys(cache: Seq<(String, Option<String>)>) -> bool {
    forall|i: int, j: int| 0 <= i < j < cache.len() ==> (#[trigger] cache[i]).0@ != (#[trigger] cache[j]).0@
}

/// `new` keeps every entry of `old`, in place.
pub open spec fn extends(new: Seq<(String, Option<String>)>, old: Seq<(String, Option<String>)>) -> bool {
    old.len() <= new.len() && forall|i: int| 0 <= i < old.len() ==> #[trigger] new[i] == old[i]
}

fn copy_opt(s: &Option<String>) -> (res: Option<String>)
    ensures
        opt_view(res) == opt_view(*s),
{
    match s {
        Some(t) => Some(copy_text(t.as_str())),
        None => None,
    }
}

/// The platform's path for file URL `url`, asked once per URL and remembered.
fn native_path(cache: &mut PathCache, url: &str) -> (res: Option<String>)
    requires
        distinct_keys(old(cache)@),
    ensures
        distinct_keys(final(cache)@),
        extends(final(cache)@, old(cache)@),
        forall|native: NativePaths| #[trigger] agrees(native, final(cache)@) ==> native(url@) == opt_view(res),
{
    let key = crate::text::chars_of(url);
    let mut i: usize = 0;
    while i < cache.len()
        invariant
            0 <= i <= cache@.len(),
            cache@ == old(cache)@,
            distinct_keys(cache@),
            key@ == url@,
            forall|j: int| 0 <= j < i ==> (#[trigger] cache@[j]).0@ != url@,
        decreases cache@.len() - i,
    {
        let k = crate::text::chars_of(cache[i].0.as_str());
        if crate::text::chars_equal(&k, &key) {
            let r = copy_opt(&cache[i].1);
            proof {
                assert forall|native: NativePaths| #[trigger] agrees(native, cache@) implies native(url@) == opt_view(r) by {
                    assert(native(cache@[i as int].0@) == opt_view(cache@[i as int].1));
                }
            }
            return r;
        }
        i = i + 1;
    }
    let r = platform_file_path(url);
    let ghost before = cache@;
    cache.push((copy_text(url), copy_opt(&r)));
    proof {
        let last = (cache@.len() - 1) as int;
        assert(cache@[last].0@ == url@);
        assert forall|native: NativePaths| #[trigger] agrees(native, cache@) implies native(url@) == opt_view(r) by {
            assert(native(cache@[last].0@) == opt_view(cache@[last].1));
        }
        assert forall|a: int, b: int| 0 <= a < b < cache@.len() implies (#[trigger] cache@[a]).0@ != (#[trigger] cache@[b]).0@ by {
            if b < last {
                assert(before[a] == cache@[a] && before[b] == cache@[b]);
            } else {
                assert(before[a] == cache@[a]);
            }
        }
    }
    r
}

/// The source file that artifact location `loc` names.
pub fn file(run: &Json, loc: &Json, budget: &mut usize, cache: &mut PathCache) -> (res: Result<String, SarifError>)
    requires
        distinct_keys(old(cache)@),
    ensures
        distinct_keys(final(cache)@),
        extends(final(cache)@, old(cache)@),
        forall|native: NativePaths| #[trigger] agrees(native, final(cache)@) ==> match file_path(
            *run,
            *loc,
            *old(budget) as int,
            native,
        ) {
            Ok((p, b)) => res matches Ok(s) && s@ == p && *final(budget) == b,
            Err(e) => res == Err::<String, SarifError>(e),
        },
{
    let r = resolve(run, loc, 0, budget)?;
    let decoded = match percent_decode_text(r.url.path.as_str()) {
        None => return Err(SarifError::InvalidUtf8Path),
        Some(t) => t,
    };
    proof {
        vstd::utf8::encode_utf8_decode_utf8(decoded@);
    }
    let dc = crate::text::chars_of(decoded.as_str());
    if crate::text::contains_char(&dc, '\\') || crate::text::contains_char(&dc, '\0')
        || crate::text::contains_char(&dc, '\r') || crate::text::contains_char(&dc, '\n') {
        return Err(SarifError::UnsafePath);
    }
    let path: Vec<char> = if r.relative {
        let prefix = crate::text::chars_of(RELATIVE_PREFIX);
        if !crate::text::starts_with_text(&dc, RELATIVE_PREFIX) {
            return Err(SarifError::InvalidRelativePath);
        }
        let rest = crate::text::copy_range(&dc, prefix.len(), dc.len());
        assert(rest@ =~= dc@.skip(RELATIVE_PREFIX@.len() as int));
        rest
    } else {
        match native_path(cache, r.url.serialization.as_str()) {
            None => return Err(SarifError::InvalidFilePath),
            Some(p) => crate::text::chars_of(p.as_str()),
        }
    };
    if path.len() == 0 || crate::text::contains_char(&path, '\0') || crate::text::contains_char(
        &path,
        '\r',
    ) || crate::text::contains_char(&path, '\n') {
        return Err(SarifError::NoSourcePath);
    }
    Ok(crate::text::string_of(path.as_slice()))
}

/// The symbol of logical location `v` at depth `depth`, spending the work budget.
pub fn logical(run: &Json, v: &Json, depth: usize, budget: &mut usize) -> (res: Result<Option<String>, SarifError>)
    requires
        depth <= MAX_DEPTH + 1,
    ensures
        match logical_symbol(*run, *v, depth as int, *old(budget) as int) {
            Ok((s, b)) => res matches Ok(x) && opt_view(x) == s && *final(budget) == b,
            Err(e) => res == Err::<Option<String>, SarifError>(e),
        },
    decreases MAX_DEPTH + 1 - depth,
{
    super::sarif::step_exec(depth, budget)?;
    match v {
        Json::Object(_) => {},
        _ => return Err(SarifError::InvalidType),
    }
    let own = match super::sarif::optional_text_at(v, "fullyQualifiedName")? {
        None => None,
        Some(s) => Some(copy_text(s.as_str())),
    };
    let i = match super::sarif::index_at(v, "index")? {
        None => return Ok(own),
        Some(i) => i,
    };
    let entry = super::sarif::entry_at(run, "logicalLocations", i)?;
    let referenced = logical(run, entry, depth + 1, budget)?;
    match (&own, &referenced) {
        (Some(a), Some(b)) => {
            let ac = crate::text::chars_of(a.as_str());
            let bc = crate::text::chars_of(b.as_str());
            if !crate::text::chars_equal(&ac, &bc) {
                return Err(SarifError::LogicalContradiction);
            }
        },
        _ => {},
    }
    if own.is_some() {
        Ok(own)
    } else {
        Ok(referenced)
    }
}

} // verus!

verus! {

/// `x` added to the ascending list `s`, unless it is there already.
pub open spec fn insert_sorted(s: Seq<Seq<char>>, x: Seq<char>) -> Seq<Seq<char>>
    decreases s.len(),
{
    if s.len() == 0 {
        seq![x]
    } else if s[0] == x {
        s
    } else if text_less(x, s[0]) {
        seq![x] + s
    } else {
        seq![s[0]] + insert_sorted(s.drop_first(), x)
    }
}

/// The symbols of the logical locations `values`, added to the ascending list
/// `acc`, and the budget left.
pub open spec fn symbols_from(run: Json, values: Seq<Json>, acc: Seq<Seq<char>>, budget: int) -> Result<
    (Seq<Seq<char>>, int),
    SarifError,
>
    decreases values.len(),
{
    if values.len() == 0 {
        Ok((acc, budget))
    } else {
        match logical_symbol(run, values[0], 0, budget) {
            Err(e) => Err(e),
            Ok((None, b)) => symbols_from(run, values.drop_first(), acc, b),
            Ok((Some(s), b)) => symbols_from(run, values.drop_first(), insert_sorted(acc, s), b),
        }
    }
}

/// The symbol of a location: none, the only one, or all of them as a JSON array.
pub open spec fn symbol_text(symbols: Seq<Seq<char>>) -> Option<Seq<char>> {
    if symbols.len() == 0 {
        None
    } else if symbols.len() == 1 {
        Some(symbols[0])
    } else {
        Some(array_text(symbols))
    }
}

/// A region coordinate that is present but not a positive integer that fits `usize`.
pub open spec fn bad_coordinate(region: Json, name: Seq<char>) -> bool {
    match member(region, name) {
        None => false,
        Some(v) => match as_u64(v) {
            None => true,
            Some(n) => n == 0 || n > usize::MAX,
        },
    }
}

/// A region coordinate, if present.
pub open spec fn coordinate(region: Json, name: Seq<char>) -> Option<usize> {
    match member(region, name) {
        None => None,
        Some(v) => match as_u64(v) {
            Some(n) => Some(n as usize),
            None => None,
        },
    }
}

/// The start and end lines of a physical location's region.
pub open spec fn region_lines(physical: Json) -> Result<(Option<usize>, Option<usize>), SarifError> {
    match member(physical, "region"@) {
        None => Ok((None, None)),
        Some(r) => if !(r is Object) {
            Err(SarifError::InvalidType)
        } else if bad_coordinate(r, "startLine"@) || bad_coordinate(r, "endLine"@)
            || bad_coordinate(r, "startColumn"@) || bad_coordinate(r, "endColumn"@) {
            Err(SarifError::InvalidRegion)
        } else {
            let line = coordinate(r, "startLine"@);
            let end = coordinate(r, "endLine"@);
            if end is Some && (line is None || end->Some_0 < line->Some_0) {
                Err(SarifError::RegionEndsBeforeStart)
            } else {
                Ok((line, end))
            }
        },
    }
}

/// A location needs a source file or a symbol.
pub open spec fn place(
    file: Option<Seq<char>>,
    line: Option<usize>,
    end: Option<usize>,
    symbol: Option<Seq<char>>,
    budget: int,
) -> Result<(LocationModel, int), SarifError> {
    if file is None && symbol is None {
        Err(SarifError::NoLocation)
    } else {
        Ok((LocationModel { file, line, end_line: end, symbol }, budget))
    }
}

/// One location of a result: its logical symbols, and its physical file and region.
pub open spec fn one_location(run: Json, loc: Json, budget: int, native: NativePaths) -> Result<
    (LocationModel, int),
    SarifError,
> {
    if !(loc is Object) {
        Err(SarifError::InvalidType)
    } else {
        match array_of(loc, "logicalLocations"@) {
            Err(e) => Err(e),
            Ok(values) => match symbols_from(run, values, seq![], budget) {
                Err(e) => Err(e),
                Ok((symbols, b1)) => match member(loc, "physicalLocation"@) {
                    None => place(None, None, None, symbol_text(symbols), b1),
                    Some(p) => if !(p is Object) {
                        Err(SarifError::InvalidType)
                    } else if member(p, "address"@) is Some {
                        Err(SarifError::BinaryAddress)
                    } else {
                        let located: Result<(Option<Seq<char>>, int), SarifError> = match member(
                            p,
                            "artifactLocation"@,
                        ) {
                            None => Ok((None, b1)),
                            Some(a) => match file_path(run, a, b1, native) {
                                Err(e) => Err(e),
                                Ok((f, b2)) => Ok((Some(f), b2)),
                            },
                        };
                        match located {
                            Err(e) => Err(e),
                            Ok((path, b2)) => match region_lines(p) {
                                Err(e) => Err(e),
                                Ok((line, end)) => place(path, line, end, symbol_text(symbols), b2),
                            },
                        }
                    },
                },
            },
        }
    }
}

/// The locations `items`, each added to `acc` unless an equal one is there.
pub open spec fn locations_from(
    run: Json,
    items: Seq<Json>,
    acc: Seq<LocationModel>,
    budget: int,
    native: NativePaths,
) -> Result<(Seq<LocationModel>, int), SarifError>
    decreases items.len(),
{
    if items.len() == 0 {
        Ok((acc, budget))
    } else {
        match one_location(run, items[0], budget, native) {
            Err(e) => Err(e),
            Ok((l, b)) => locations_from(
                run,
                items.drop_first(),
                if acc.contains(l) {
                    acc
                } else {
                    acc.push(l)
                },
                b,
                native,
            ),
        }
    }
}

/// The distinct locations of a result, at most 256 of them, and the budget left.
pub open spec fn locations_outcome(run: Json, issue: Json, budget: int, native: NativePaths) -> Result<
    (Seq<LocationModel>, int),
    SarifError,
> {
    match array_of(issue, "locations"@) {
        Err(e) => Err(e),
        Ok(items) => if items.len() > 256 {
            Err(SarifError::TooManyLocations)
        } else {
            locations_from(run, items, seq![], budget, native)
        },
    }
}

/// The plain values of computed locations.
pub open spec fn location_models(v: Seq<IssueLocation>) -> Seq<LocationModel> {
    v.map_values(|l: IssueLocation| location_view(l))
}

/// The texts of a list of strings.
pub open spec fn string_views(v: Seq<String>) -> Seq<Seq<char>> {
    v.map_values(|s: String| s@)
}

/// Inserting after a prefix of smaller items inserts into the rest.
proof fn lemma_insert_after(s: Seq<Seq<char>>, x: Seq<char>, i: int)
    requires
        0 <= i <= s.len(),
        forall|j: int| 0 <= j < i ==> text_less(#[trigger] s[j], x),
    ensures
        insert_sorted(s, x) == s.take(i) + insert_sorted(s.skip(i), x),
    decreases i,
{
    if i == 0 {
        assert(s.take(0) + s.skip(0) =~= s);
        assert(s.take(0) =~= seq![]);
        assert(s.skip(0) =~= s);
    } else {
        text_less_irreflexive(x);
        text_less_asymmetric(s[0], x);
        let t = s.drop_first();
        assert forall|j: int| 0 <= j < i - 1 implies text_less(#[trigger] t[j], x) by {
            assert(t[j] == s[j + 1]);
        }
        lemma_insert_after(t, x, i - 1);
        assert(t.skip(i - 1) =~= s.skip(i));
        assert(seq![s[0]] + t.take(i - 1) =~= s.take(i));
    }
}

fn less_at(v: &Vec<String>, i: usize, xc: &Vec<char>) -> (res: bool)
    requires
        i < v@.len(),
    ensures
        res == text_less(v@[i as int]@, xc@),
{
    let c = crate::text::chars_of(v[i].as_str());
    text_lt(&c, xc)
}

/// Add `x` to the ascending list `v` unless it is there already.
pub fn insert_symbol(v: &mut Vec<String>, x: String)
    ensures
        string_views(final(v)@) == insert_sorted(string_views(old(v)@), x@),
{
    let ghost s = string_views(v@);
    let xc = crate::text::chars_of(x.as_str());
    let mut i: usize = 0;
    while i < v.len() && less_at(v, i, &xc)
        invariant
            0 <= i <= v@.len(),
            s == string_views(v@),
            v@ == old(v)@,
            xc@ == x@,
            forall|j: int| 0 <= j < i ==> text_less(#[trigger] s[j], x@),
        decreases v@.len() - i,
    {
        i = i + 1;
    }
    proof {
        lemma_insert_after(s, x@, i as int);
    }
    if i < v.len() {
        let c = crate::text::chars_of(v[i].as_str());
        if crate::text::chars_equal(&c, &xc) {
            assert(s.skip(i as int)[0] == x@);
            assert(s.take(i as int) + s.skip(i as int) =~= s);
            return;
        }
        proof {
            text_less_total(x@, s[i as int]);
        }
        v.insert(i, x);
        assert(string_views(v@) =~= s.take(i as int) + (seq![x@] + s.skip(i as int)));
    } else {
        v.push(x);
        assert(s.skip(i as int) =~= seq![]);
        assert(s.take(i as int) =~= s);
        assert(string_views(v@) =~= s.take(i as int) + seq![x@]);
    }
}

/// Agreement with a cache carries over to every earlier state of it.
pub proof fn lemma_agrees_earlier(
    native: NativePaths,
    new: Seq<(String, Option<String>)>,
    old: Seq<(String, Option<String>)>,
)
    requires
        extends(new, old),
        agrees(native, new),
    ensures
        agrees(native, old),
{
    assert forall|i: int| 0 <= i < old.len() implies native((#[trigger] old[i]).0@) == opt_view(
        old[i].1,
    ) by {
        assert(new[i] == old[i]);
        assert(native(new[i].0@) == opt_view(new[i].1));
    }
}

/// The sorted symbols of logical locations `values`.
fn symbols(run: &Json, values: &Vec<Json>, budget: &mut usize) -> (res: Result<Vec<String>, SarifError>)
    ensures
        match symbols_from(*run, values@, seq![], *old(budget) as int) {
            Ok((s, b)) => res matches Ok(v) && string_views(v@) == s && *final(budget) == b,
            Err(e) => res == Err::<Vec<String>, SarifError>(e),
        },
{
    let ghost b0 = *budget as int;
    let mut acc: Vec<String> = Vec::new();
    let mut i: usize = 0;
    assert(values@.skip(0) =~= values@);
    assert(string_views(acc@) =~= seq![]);
    while i < values.len()
        invariant
            0 <= i <= values@.len(),
            b0 == *old(budget) as int,
            symbols_from(*run, values@, seq![], b0) == symbols_from(
                *run,
                values@.skip(i as int),
                string_views(acc@),
                *budget as int,
            ),
        decreases values@.len() - i,
    {
        assert(values@.skip(i as int).drop_first() =~= values@.skip(i + 1));
        assert(values@.skip(i as int)[0] == values@[i as int]);
        let ghost b_before = *budget as int;
        let r = match logical(run, &values[i], 0, budget) {
            Ok(r) => r,
            Err(e) => {
                assert(logical_symbol(*run, values@[i as int], 0, b_before) == Err::<(Option<Seq<char>>, int), SarifError>(e));
                return Err(e);
            },
        };
        if let Some(s) = r {
            insert_symbol(&mut acc, s);
        }
        i = i + 1;
    }
    assert(values@.skip(i as int) =~= seq![]);
    Ok(acc)
}

fn coordinate_ok(region: &Json, name: &str) -> (res: bool)
    ensures
        res == !bad_coordinate(*region, name@),
{
    match crate::json::get(region, name) {
        None => true,
        Some(v) => match v {
            Json::Number(n) => match n.unsigned {
                None => false,
                Some(k) => k != 0 && k <= usize::MAX as u64,
            },
            _ => false,
        },
    }
}

fn coordinate_exec(region: &Json, name: &str) -> (res: Option<usize>)
    requires
        !bad_coordinate(*region, name@),
    ensures
        res == coordinate(*region, name@),
{
    match crate::json::get(region, name) {
        None => None,
        Some(v) => match v {
            Json::Number(n) => match n.unsigned {
                Some(k) => Some(k as usize),
                None => None,
            },
            _ => None,
        },
    }
}

fn region_exec(physical: &Json) -> (res: Result<(Option<usize>, Option<usize>), SarifError>)
    ensures
        res == region_lines(*physical),
{
    let r = match crate::json::get(physical, "region") {
        None => return Ok((None, None)),
        Some(r) => r,
    };
    match r {
        Json::Object(_) => {},
        _ => return Err(SarifError::InvalidType),
    }
    if !coordinate_ok(r, "startLine") || !coordinate_ok(r, "endLine") || !coordinate_ok(
        r,
        "startColumn",
    ) || !coordinate_ok(r, "endColumn") {
        return Err(SarifError::InvalidRegion);
    }
    let line = coordinate_exec(r, "startLine");
    let end = coordinate_exec(r, "endLine");
    match (line, end) {
        (None, Some(_)) => Err(SarifError::RegionEndsBeforeStart),
        (Some(a), Some(b)) => if b < a {
            Err(SarifError::RegionEndsBeforeStart)
        } else {
            Ok((line, end))
        },
        _ => Ok((line, end)),
    }
}

fn symbol_of(symbols: Vec<String>) -> (res: Option<String>)
    ensures
        opt_view(res) == symbol_text(string_views(symbols@)),
{
    if symbols.len() == 0 {
        None
    } else if symbols.len() == 1 {
        Some(copy_text(symbols[0].as_str()))
    } else {
        Some(super::json_text::array_text_exec(&symbols))
    }
}

/// One location of a result.
fn location(run: &Json, loc: &Json, budget: &mut usize, cache: &mut PathCache) -> (res: Result<IssueLocation, SarifError>)
    requires
        distinct_keys(old(cache)@),
    ensures
        distinct_keys(final(cache)@),
        extends(final(cache)@, old(cache)@),
        forall|native: NativePaths| #[trigger] agrees(native, final(cache)@) ==> match one_location(
            *run,
            *loc,
            *old(budget) as int,
            native,
        ) {
            Ok((l, b)) => res matches Ok(x) && location_view(x) == l && *final(budget) == b,
            Err(e) => res == Err::<IssueLocation, SarifError>(e),
        },
{
    match loc {
        Json::Object(_) => {},
        _ => return Err(SarifError::InvalidType),
    }
    let empty: Vec<Json> = Vec::new();
    let values = super::sarif::array_at(loc, "logicalLocations", &empty)?;
    let found = symbols(run, values, budget)?;
    let symbol = symbol_of(found);
    let p = match crate::json::get(loc, "physicalLocation") {
        None => {
            if symbol.is_none() {
                return Err(SarifError::NoLocation);
            }
            return Ok(IssueLocation { file: None, line: None, end_line: None, symbol });
        },
        Some(p) => p,
    };
    match p {
        Json::Object(_) => {},
        _ => return Err(SarifError::InvalidType),
    }
    if crate::json::get(p, "address").is_some() {
        return Err(SarifError::BinaryAddress);
    }
    let path = match crate::json::get(p, "artifactLocation") {
        None => None,
        Some(a) => Some(file(run, a, budget, cache)?),
    };
    let (line, end_line) = region_exec(p)?;
    if path.is_none() && symbol.is_none() {
        return Err(SarifError::NoLocation);
    }
    Ok(IssueLocation { file: path, line, end_line, symbol })
}

fn same_location(a: &IssueLocation, b: &IssueLocation) -> (res: bool)
    ensures
        res == (location_view(*a) == location_view(*b)),
{
    super::same_text(&a.file, &b.file) && a.line == b.line && a.end_line == b.end_line
        && super::same_text(&a.symbol, &b.symbol)
}

fn holds_location(v: &Vec<IssueLocation>, l: &IssueLocation) -> (res: bool)
    ensures
        res == location_models(v@).contains(location_view(*l)),
{
    let mut i: usize = 0;
    while i < v.len()
        invariant
            0 <= i <= v@.len(),
            forall|j: int| 0 <= j < i ==> location_models(v@)[j] != location_view(*l),
        decreases v@.len() - i,
    {
        if same_location(&v[i], l) {
            assert(location_models(v@)[i as int] == location_view(*l));
            return true;
        }
        i = i + 1;
    }
    false
}

/// The distinct locations of a SARIF result.
pub fn locations(run: &Json, issue: &Json, budget: &mut usize, cache: &mut PathCache) -> (res: Result<Vec<IssueLocation>, SarifError>)
    requires
        distinct_keys(old(cache)@),
    ensures
        distinct_keys(final(cache)@),
        extends(final(cache)@, old(cache)@),
        forall|native: NativePaths| #[trigger] agrees(native, final(cache)@) ==> match locations_outcome(
            *run,
            *issue,
            *old(budget) as int,
            native,
        ) {
            Ok((ls, b)) => res matches Ok(v) && location_models(v@) == ls && *final(budget) == b,
            Err(e) => res == Err::<Vec<IssueLocation>, SarifError>(e),
        },
{
    let ghost b0 = *budget as int;
    let ghost c0 = cache@;
    let empty: Vec<Json> = Vec::new();
    let items = super::sarif::array_at(issue, "locations", &empty)?;
    if items.len() > 256 {
        return Err(SarifError::TooManyLocations);
    }
    let mut acc: Vec<IssueLocation> = Vec::new();
    let mut i: usize = 0;
    assert(items@.skip(0) =~= items@);
    assert(location_models(acc@) =~= seq![]);
    while i < items.len()
        invariant
            0 <= i <= items@.len(),
            items@.len() <= 256,
            array_of(*issue, "locations"@) == Ok::<Seq<Json>, SarifError>(items@),
            distinct_keys(cache@),
            extends(cache@, c0),
            c0 == old(cache)@,
            b0 == *old(budget) as int,
            forall|native: NativePaths| #[trigger] agrees(native, cache@) ==> locations_from(
                *run,
                items@,
                seq![],
                b0,
                native,
            ) == locations_from(
                *run,
                items@.skip(i as int),
                location_models(acc@),
                *budget as int,
                native,
            ),
        decreases items@.len() - i,
    {
        assert(items@.skip(i as int).drop_first() =~= items@.skip(i + 1));
        assert(items@.skip(i as int)[0] == items@[i as int]);
        let ghost before = cache@;
        let ghost b_before = *budget as int;
        let ghost acc_before = location_models(acc@);
        let l = match location(run, &items[i], budget, cache) {
            Ok(l) => l,
            Err(e) => {
                proof {
                    assert forall|native: NativePaths| #[trigger] agrees(native, cache@) implies locations_outcome(*run, *issue, b0, native) == Err::<(Seq<LocationModel>, int), SarifError>(e) by {
                        lemma_agrees_earlier(native, cache@, before);
                    }
                    assert forall|a: int| 0 <= a < c0.len() implies #[trigger] cache@[a] == c0[a] by {
                        assert(before[a] == c0[a]);
                    }
                }
                return Err(e);
            },
        };
        if !holds_location(&acc, &l) {
            acc.push(l);
            assert(location_models(acc@) =~= acc_before.push(location_view(l)));
        }
        proof {
            assert forall|native: NativePaths| #[trigger] agrees(native, cache@) implies locations_from(
                *run,
                items@,
                seq![],
                b0,
                native,
            ) == locations_from(
                *run,
                items@.skip(i + 1),
                location_models(acc@),
                *budget as int,
                native,
            ) by {
                lemma_agrees_earlier(native, cache@, before);
            }
            assert forall|a: int| 0 <= a < c0.len() implies #[trigger] cache@[a] == c0[a] by {
                assert(before[a] == c0[a]);
            }
        }
        i = i + 1;
    }
    assert(items@.skip(i as int) =~= seq![]);
    Ok(acc)
}

} // verus!

verus! {

/// The answer that the cache holds for `url` (none when it holds none).
pub open spec fn cache_lookup(cache: Seq<(String, Option<String>)>, url: Seq<char>) -> Option<Seq<char>>
    decreases cache.len(),
{
    if cache.len() == 0 {
        None
    } else if cache[0].0@ == url {
        opt_view(cache[0].1)
    } else {
        cache_lookup(cache.drop_first(), url)
    }
}

/// The platform answers that a cache records.
pub open spec fn cache_native(cache: Seq<(String, Option<String>)>) -> NativePaths {
    |url: Seq<char>| cache_lookup(cache, url)
}

/// A cache without repeated URLs agrees with the answers it records.
pub proof fn lemma_cache_native_agrees(cache: Seq<(String, Option<String>)>)
    requires
        distinct_keys(cache),
    ensures
        agrees(cache_native(cache), cache),
    decreases cache.len(),
{
    if cache.len() > 0 {
        let rest = cache.drop_first();
        assert forall|i: int, j: int| 0 <= i < j < rest.len() implies (#[trigger] rest[i]).0@ != (#[trigger] rest[j]).0@ by {
            assert(rest[i] == cache[i + 1] && rest[j] == cache[j + 1]);
        }
        lemma_cache_native_agrees(rest);
        assert forall|i: int| 0 <= i < cache.len() implies cache_native(cache)((#[trigger] cache[i]).0@) == opt_view(cache[i].1) by {
            if i > 0 {
                assert(cache[i] == rest[i - 1]);
                assert(cache[0].0@ != cache[i].0@);
                assert(cache_native(rest)(rest[i - 1].0@) == opt_view(rest[i - 1].1));
            }
        }
    }
}

} // verus!

//! Core Metadata headers of an installed Python distribution, read from the
//! METADATA file itself rather than from an installer's JSON transport.

use vstd::prelude::*;
use crate::text::{first_index, lines, trim, views};

verus! {

/// The Core Metadata of an installed distribution.
#[derive(Debug, Clone)]
pub struct Metadata {
    pub name: String,
    pub version: String,
    pub requires_dist: Vec<String>,
    pub requires_python: Option<String>,
    pub provides_extra: Vec<String>,
}

/// Why a METADATA file was refused.
#[derive(Debug, Clone, Copy, PartialEq, Eq, Structural)]
pub enum MetadataError {
    /// The file is not UTF-8.
    NotUtf8,
    /// A continuation line before any header.
    ContinuationWithoutHeader,
    /// A header line without a colon.
    MalformedHeader,
    /// A single-valued header occurs more than once.
    DuplicateHeader,
    /// No `Metadata-Version` header.
    MissingMetadataVersion,
    /// A Core Metadata version other than 1.2 or 2.1 to 2.5.
    UnsupportedVersion,
    /// No `Name` header.
    MissingName,
    /// No `Version` header.
    MissingVersion,
}

/// The lowercase ASCII letters in order.
pub open spec fn lowercase_letters() -> Seq<char> {
    seq!['a', 'b', 'c', 'd', 'e', 'f', 'g', 'h', 'i', 'j', 'k', 'l', 'm', 'n', 'o', 'p', 'q', 'r', 's', 't', 'u', 'v', 'w', 'x', 'y', 'z']
}

/// A character with ASCII letters lowercased.
pub open spec fn ascii_lower(c: char) -> char {
    if 'A' <= c && c <= 'Z' {
        lowercase_letters()[(c as u32) - ('A' as u32)]
    } else {
        c
    }
}

/// `str::to_ascii_lowercase`.
pub open spec fn lower_text(s: Seq<char>) -> Seq<char> {
    s.map_values(|c: char| ascii_lower(c))
}

/// The header block of the lines `ls` read after the headers `acc`: it ends at
/// the first empty line; a line that starts with a space or tab continues the
/// previous header's value.
pub open spec fn header_scan(ls: Seq<Seq<char>>, acc: Seq<(Seq<char>, Seq<char>)>) -> Result<Seq<(Seq<char>, Seq<char>)>, MetadataError>
    decreases ls.len(),
{
    if ls.len() == 0 {
        Ok(acc)
    } else {
        let line = ls[0];
        if line.len() == 0 {
            Ok(acc)
        } else if line[0] == ' ' || line[0] == '\t' {
            if acc.len() == 0 {
                Err(MetadataError::ContinuationWithoutHeader)
            } else {
                let last = acc.last();
                header_scan(ls.drop_first(), acc.update(acc.len() - 1, (last.0, last.1 + seq![' '] + trim(line))))
            }
        } else {
            match first_index(line, ':') {
                None => Err(MetadataError::MalformedHeader),
                Some(k) => header_scan(
                    ls.drop_first(),
                    acc.push((lower_text(line.take(k)), trim(line.skip(k + 1)))),
                ),
            }
        }
    }
}

/// The values of the headers named `name`, in order.
pub open spec fn values_named(hs: Seq<(Seq<char>, Seq<char>)>, name: Seq<char>) -> Seq<Seq<char>>
    decreases hs.len(),
{
    if hs.len() == 0 {
        seq![]
    } else if hs.last().0 == name {
        values_named(hs.drop_last(), name).push(hs.last().1)
    } else {
        values_named(hs.drop_last(), name)
    }
}

/// The value of the single-valued header `name`, if present.
pub open spec fn single_value(hs: Seq<(Seq<char>, Seq<char>)>, name: Seq<char>) -> Result<Option<Seq<char>>, MetadataError> {
    let vs = values_named(hs, name);
    if vs.len() > 1 {
        Err(MetadataError::DuplicateHeader)
    } else if vs.len() == 0 {
        Ok(None)
    } else {
        Ok(Some(vs[0]))
    }
}

/// A supported Core Metadata version.
pub open spec fn supported_version(v: Seq<char>) -> bool {
    v == "1.2"@ || v == "2.1"@ || v == "2.2"@ || v == "2.3"@ || v == "2.4"@ || v == "2.5"@
}

/// Core Metadata as plain values: name, version, required distributions,
/// required Python and provided extras.
pub struct MetadataView {
    pub name: Seq<char>,
    pub version: Seq<char>,
    pub requires_dist: Seq<Seq<char>>,
    pub requires_python: Option<Seq<char>>,
    pub provides_extra: Seq<Seq<char>>,
}

/// The plain values of Core Metadata.
pub open spec fn metadata_view(m: Metadata) -> MetadataView {
    MetadataView {
        name: m.name@,
        version: m.version@,
        requires_dist: crate::reports::sarif_locations::string_views(m.requires_dist@),
        requires_python: match m.requires_python {
            Some(p) => Some(p@),
            None => None,
        },
        provides_extra: crate::reports::sarif_locations::string_views(m.provides_extra@),
    }
}

/// What the METADATA file `bytes` declares.
pub open spec fn metadata_outcome(bytes: Seq<u8>) -> Result<MetadataView, MetadataError> {
    if !vstd::utf8::valid_utf8(bytes) {
        Err(MetadataError::NotUtf8)
    } else {
        match header_scan(lines(vstd::utf8::decode_utf8(bytes)), seq![]) {
            Err(e) => Err(e),
            Ok(hs) => match single_value(hs, "metadata-version"@) {
                Err(e) => Err(e),
                Ok(None) => Err(MetadataError::MissingMetadataVersion),
                Ok(Some(v)) => if !supported_version(v) {
                    Err(MetadataError::UnsupportedVersion)
                } else {
                    match single_value(hs, "name"@) {
                        Err(e) => Err(e),
                        Ok(None) => Err(MetadataError::MissingName),
                        Ok(Some(name)) => match single_value(hs, "version"@) {
                            Err(e) => Err(e),
                            Ok(None) => Err(MetadataError::MissingVersion),
                            Ok(Some(version)) => match single_value(hs, "requires-python"@) {
                                Err(e) => Err(e),
                                Ok(python) => Ok(
                                    MetadataView {
                                        name,
                                        version,
                                        requires_dist: values_named(hs, "requires-dist"@),
                                        requires_python: python,
                                        provides_extra: values_named(hs, "provides-extra"@),
                                    },
                                ),
                            },
                        },
                    }
                },
            },
        }
    }
}

/// The header names and values of a list of pairs.
pub open spec fn header_views(v: Seq<(Vec<char>, Vec<char>)>) -> Seq<(Seq<char>, Seq<char>)> {
    v.map_values(|p: (Vec<char>, Vec<char>)| (p.0@, p.1@))
}

/// `s` with ASCII letters lowercased.
fn lower_exec(s: &[char]) -> (res: Vec<char>)
    ensures
        res@ == lower_text(s@),
{
    let table: [char; 26] = ['a', 'b', 'c', 'd', 'e', 'f', 'g', 'h', 'i', 'j', 'k', 'l', 'm', 'n', 'o', 'p', 'q', 'r', 's', 't', 'u', 'v', 'w', 'x', 'y', 'z'];
    assert(table@ =~= lowercase_letters());
    let mut out: Vec<char> = Vec::new();
    let mut i: usize = 0;
    while i < s.len()
        invariant
            0 <= i <= s@.len(),
            table@ == lowercase_letters(),
            out@ == lower_text(s@.take(i as int)),
        decreases s@.len() - i,
    {
        let c = s[i];
        let l = if 'A' <= c && c <= 'Z' {
            table[((c as u32) - ('A' as u32)) as usize]
        } else {
            c
        };
        out.push(l);
        assert(out@ =~= lower_text(s@.take(i + 1)));
        i = i + 1;
    }
    assert(s@.take(i as int) =~= s@);
    out
}

/// The values of the headers named `name`.
fn values_exec(hs: &Vec<(Vec<char>, Vec<char>)>, name: &str) -> (res: Vec<String>)
    ensures
        crate::reports::sarif_locations::string_views(res@) == values_named(header_views(hs@), name@),
{
    let ghost all = header_views(hs@);
    let mut out: Vec<String> = Vec::new();
    let mut i: usize = 0;
    assert(all.take(0) =~= seq![]);
    while i < hs.len()
        invariant
            0 <= i <= hs@.len(),
            all == header_views(hs@),
            crate::reports::sarif_locations::string_views(out@) == values_named(all.take(i as int), name@),
        decreases hs@.len() - i,
    {
        assert(all.take(i + 1).drop_last() =~= all.take(i as int));
        assert(all.take(i + 1).last() == (hs@[i as int].0@, hs@[i as int].1@));
        if crate::text::text_is(hs[i].0.as_slice(), name) {
            let ghost before = crate::reports::sarif_locations::string_views(out@);
            out.push(crate::text::string_of(hs[i].1.as_slice()));
            assert(crate::reports::sarif_locations::string_views(out@) =~= before.push(hs@[i as int].1@));
        }
        i = i + 1;
    }
    assert(all.take(i as int) =~= all);
    out
}

/// The value of the single-valued header `name`, if present.
fn single_exec(hs: &Vec<(Vec<char>, Vec<char>)>, name: &str) -> (res: Result<Option<String>, MetadataError>)
    ensures
        match single_value(header_views(hs@), name@) {
            Ok(Some(v)) => res matches Ok(Some(r)) && r@ == v,
            Ok(None) => res matches Ok(None),
            Err(e) => res is Err && res->Err_0 == e,
        },
{
    let mut vs = values_exec(hs, name);
    if vs.len() > 1 {
        return Err(MetadataError::DuplicateHeader);
    }
    if vs.len() == 0 {
        return Ok(None);
    }
    let ghost v0 = vs@[0]@;
    assert(crate::reports::sarif_locations::string_views(vs@)[0] == v0);
    Ok(vs.pop())
}

/// Read the headers of an installed distribution's METADATA file `bytes`: its
/// supported Core Metadata version, single name, version and Python
/// requirement, and every required distribution and provided extra in order.
pub fn parse(bytes: &[u8]) -> (res: Result<Metadata, MetadataError>)
    ensures
        match metadata_outcome(bytes@) {
            Ok(m) => res matches Ok(r) && metadata_view(r) == m,
            Err(e) => res is Err && res->Err_0 == e,
        },
{
    let text = match crate::text::text_of_bytes(bytes) {
        None => return Err(MetadataError::NotUtf8),
        Some(t) => t,
    };
    proof {
        vstd::utf8::encode_utf8_decode_utf8(text@);
    }
    let chars = crate::text::chars_of(text);
    let ls = crate::text::split_lines(&chars);
    let ghost all = views(ls@);
    let mut hs: Vec<(Vec<char>, Vec<char>)> = Vec::new();
    let mut i: usize = 0;
    assert(all.skip(0) =~= all);
    assert(header_views(hs@) =~= seq![]);
    while i < ls.len()
        invariant
            0 <= i <= ls@.len(),
            all == views(ls@),
            all == lines(text@),
            vstd::utf8::valid_utf8(bytes@),
            vstd::utf8::decode_utf8(bytes@) == text@,
            header_scan(all, seq![]) == header_scan(all.skip(i as int), header_views(hs@)),
        decreases ls@.len() - i,
    {
        assert(all.skip(i as int)[0] == ls@[i as int]@);
        assert(all.skip(i as int).drop_first() =~= all.skip(i + 1));
        let line = &ls[i];
        if line.len() == 0 {
            assert(header_scan(all.skip(i as int), header_views(hs@)) == Ok::<Seq<(Seq<char>, Seq<char>)>, MetadataError>(header_views(hs@)));
            assert(all.skip(ls.len() as int) =~= seq![]);
            i = ls.len();
            continue;
        }
        if line[0] == ' ' || line[0] == '\t' {
            if hs.len() == 0 {
                return Err(MetadataError::ContinuationWithoutHeader);
            }
            let ghost before = header_views(hs@);
            let ghost old_hs = hs@;
            let t = crate::text::trimmed(line.as_slice());
            let last = hs.len() - 1;
            let (name, mut value) = hs.remove(last);
            assert(hs@ =~= old_hs.drop_last());
            assert(name@ == before.last().0 && value@ == before.last().1);
            value.push(' ');
            crate::text::extend_chars(&mut value, &t);
            let ghost nv = (name@, value@);
            assert(nv.1 =~= before.last().1 + seq![' '] + trim(line@));
            assert(nv.0 == before.last().0);
            hs.push((name, value));
            assert(header_views(hs@) =~= header_views(old_hs.drop_last()).push(nv));
            assert(header_views(old_hs.drop_last()) =~= before.drop_last());
            assert(header_views(hs@) =~= before.update(
                before.len() - 1,
                (before.last().0, before.last().1 + seq![' '] + trim(line@)),
            ));
        } else {
            match crate::text::find_char(line.as_slice(), 0, ':') {
                None => {
                    assert(line@.subrange(0, line@.len() as int) =~= line@);
                    return Err(MetadataError::MalformedHeader);
                },
                Some(k) => {
                    assert(line@.subrange(0, line@.len() as int) =~= line@);
                    let head = crate::text::copy_range(line.as_slice(), 0, k);
                    let name = lower_exec(&head);
                    let rest = crate::text::copy_range(line.as_slice(), k + 1, line.len());
                    let value = crate::text::trimmed(&rest);
                    assert(head@ =~= line@.take(k as int));
                    assert(rest@ =~= line@.skip(k + 1));
                    let ghost before = header_views(hs@);
                    hs.push((name, value));
                    assert(header_views(hs@) =~= before.push((lower_text(line@.take(k as int)), trim(line@.skip(k + 1)))));
                },
            }
        }
        i = i + 1;
    }
    assert(all.skip(i as int) =~= seq![]);
    let version = match single_exec(&hs, "metadata-version") {
        Err(e) => return Err(e),
        Ok(None) => return Err(MetadataError::MissingMetadataVersion),
        Ok(Some(v)) => v,
    };
    let vc = crate::text::chars_of(version.as_str());
    if !(crate::text::text_is(&vc, "1.2") || crate::text::text_is(&vc, "2.1") || crate::text::text_is(&vc, "2.2")
        || crate::text::text_is(&vc, "2.3") || crate::text::text_is(&vc, "2.4") || crate::text::text_is(&vc, "2.5")) {
        return Err(MetadataError::UnsupportedVersion);
    }
    let name = match single_exec(&hs, "name") {
        Err(e) => return Err(e),
        Ok(None) => return Err(MetadataError::MissingName),
        Ok(Some(v)) => v,
    };
    let dist_version = match single_exec(&hs, "version") {
        Err(e) => return Err(e),
        Ok(None) => return Err(MetadataError::MissingVersion),
        Ok(Some(v)) => v,
    };
    let requires_dist = values_exec(&hs, "requires-dist");
    let requires_python = match single_exec(&hs, "requires-python") {
        Err(e) => return Err(e),
        Ok(p) => p,
    };
    let provides_extra = values_exec(&hs, "provides-extra");
    Ok(Metadata { name, version: dist_version, requires_dist, requires_python, provides_extra })
}

} // verus!

verus! {

/// The version check accepts exactly the Core Metadata versions 1.2, 2.1,
/// 2.2, 2.3, 2.4 and 2.5: a file is refused as an unsupported version only
/// when its one `Metadata-Version` value is none of them, and a file that is
/// read has one of them.
pub proof fn metadata_versions_accepted(bytes: Seq<u8>)
    ensures
        metadata_outcome(bytes) == Err::<MetadataView, MetadataError>(MetadataError::UnsupportedVersion) ==> {
            &&& vstd::utf8::valid_utf8(bytes)
            &&& header_scan(lines(vstd::utf8::decode_utf8(bytes)), seq![]) matches Ok(hs)
            &&& single_value(hs, "metadata-version"@) matches Ok(Some(v))
            &&& v != "1.2"@ && v != "2.1"@ && v != "2.2"@ && v != "2.3"@ && v != "2.4"@ && v != "2.5"@
        },
        metadata_outcome(bytes) is Ok ==> {
            &&& header_scan(lines(vstd::utf8::decode_utf8(bytes)), seq![]) matches Ok(hs)
            &&& single_value(hs, "metadata-version"@) matches Ok(Some(v))
            &&& (v == "1.2"@ || v == "2.1"@ || v == "2.2"@ || v == "2.3"@ || v == "2.4"@ || v == "2.5"@)
        },
{
    lemma_header_scan_errors(lines(vstd::utf8::decode_utf8(bytes)), seq![]);
}

/// Reading headers refuses only continuation lines without a header and lines
/// without a colon.
proof fn lemma_header_scan_errors(ls: Seq<Seq<char>>, acc: Seq<(Seq<char>, Seq<char>)>)
    ensures
        header_scan(ls, acc) matches Err(e) ==> (e == MetadataError::ContinuationWithoutHeader || e
            == MetadataError::MalformedHeader),
    decreases ls.len(),
{
    if ls.len() > 0 {
        let line = ls[0];
        if line.len() > 0 {
            if line[0] == ' ' || line[0] == '\t' {
                if acc.len() > 0 {
                    let last = acc.last();
                    lemma_header_scan_errors(ls.drop_first(), acc.update(acc.len() - 1, (last.0, last.1 + seq![' '] + trim(line))));
                }
            } else {
                match first_index(line, ':') {
                    None => {},
                    Some(k) => lemma_header_scan_errors(ls.drop_first(), acc.push((lower_text(line.take(k)), trim(line.skip(k + 1))))),
                }
            }
        }
    }
}

} // verus!

//! Analyzer identity, complete archive class inventories and japicmp reports.
//! Archives are read by the `zip` crate; what their entries may be is decided here.

use vstd::prelude::*;
use crate::text::{first_index, has_prefix, lines, trim};
use crate::digest::{digest, digest_text};
use crate::reports::lcov::text_less;
use crate::reports::sarif_locations::insert_sorted;
use crate::xml::{attribute, child_of, has_tag, root_element, within, XmlKind, XmlNode};

verus! {

/// Largest accepted archive, in bytes (32 MiB).
pub const MAX_ARCHIVE_BYTES: usize = 33554432;

/// Most entries an accepted archive may hold.
pub const MAX_ENTRIES: usize = 50000;

/// Largest total uncompressed size of an archive's entries (256 MiB).
pub const MAX_EXPANDED_BYTES: u64 = 268435456;

/// Largest accepted analyzer version metadata, in bytes.
pub const MAX_METADATA_BYTES: u64 = 16384;

/// Where japicmp keeps its Maven version metadata.
pub const METADATA_NAME: &'static str = "META-INF/maven/com.github.siom79.japicmp/japicmp/pom.properties";

/// Why an archive or a compatibility report was refused.
#[derive(Debug, Clone, Copy, PartialEq, Eq, Structural)]
pub enum CompatibilityError {
    /// The archive exceeds 32 MiB.
    ArchiveTooLarge,
    /// The bytes are not a readable ZIP archive.
    InvalidArchive,
    /// The archive has more than 50000 entries.
    TooManyEntries,
    /// The analyzer archive does not have the trusted digest.
    DigestMismatch,
    /// The analyzer archive has no japicmp version metadata.
    MissingVersionMetadata,
    /// The version metadata exceeds 16 KiB.
    VersionMetadataTooLarge,
    /// The version metadata cannot be read as UTF-8 text.
    UnreadableMetadata,
    /// A metadata line is not `key=value`.
    UnsupportedMetadata,
    /// A metadata key occurs twice.
    DuplicateField,
    /// The metadata does not describe japicmp 0.26.2.
    WrongAnalyzer,
    /// An archive entry cannot be read.
    UnreadableEntry,
    /// The entry sizes overflow.
    SizeOverflow,
    /// The entries expand beyond 256 MiB.
    ExpandedTooLarge,
    /// An entry name escapes the archive or holds a backslash.
    UnsafeEntry,
    /// A multi-release archive.
    MultiRelease,
    /// A JPMS module descriptor.
    ModuleDescriptor,
    /// A class name that is empty, under `META-INF/` or repeated.
    AmbiguousClasses,
    /// The report exceeds the report size budget.
    ReportTooLarge,
    /// The report is not UTF-8.
    NotUtf8,
    /// The report is not well-formed XML.
    InvalidXml,
    /// A required attribute is missing.
    MissingAttribute,
    /// A boolean attribute is neither `true` nor `false`.
    InvalidBoolean,
    /// The report is filtered, incomplete or bound to other archives.
    FilteredReport,
    /// The report does not have exactly one class inventory.
    ClassInventory,
    /// An inventory entry that is not a class.
    UnknownClassEntry,
    /// A class that is unnamed or listed twice.
    DuplicateClass,
    /// A class summary that contradicts its members.
    Contradiction,
    /// A compatibility change without a kind.
    EmptyChange,
    /// A method or constructor without its parameter inventory.
    MissingParameters,
    /// The classes compared are not the archive's complete, nonempty inventory.
    IncompleteInventory,
}

/// One archive entry as the central directory describes it.
#[derive(Debug)]
pub struct ZipEntry {
    pub name: String,
    pub size: u64,
    pub enclosed: bool,
    pub readable: bool,
}

/// The same entry as plain values.
pub struct ZipEntryView {
    pub name: Seq<char>,
    pub size: u64,
    pub enclosed: bool,
    pub readable: bool,
}

/// The plain values of an entry.
pub open spec fn entry_view(e: ZipEntry) -> ZipEntryView {
    ZipEntryView { name: e.name@, size: e.size, enclosed: e.enclosed, readable: e.readable }
}

/// The plain values of an archive's entries.
pub open spec fn entries_view(v: Option<Vec<ZipEntry>>) -> Option<Seq<ZipEntryView>> {
    match v {
        Some(es) => Some(es@.map_values(|e: ZipEntry| entry_view(e))),
        None => None,
    }
}

/// The entries that `zip` reads from the archive `bytes`.
pub uninterp spec fn spec_zip_entries(bytes: Seq<u8>) -> Option<Seq<ZipEntryView>>;

/// What `zip` gives for member `name` of archive `bytes`: its declared size and
/// at most `cap` bytes of its content (none when reading fails).
pub uninterp spec fn spec_zip_member(bytes: Seq<u8>, name: Seq<char>, cap: u64) -> Option<(u64, Option<Seq<u8>>)>;

/// `zip::ZipArchive::new` on `bytes`, then each entry by index: its name, size,
/// whether `enclosed_name` accepts it, and whether it could be opened. `None` when
/// the archive cannot be opened.
#[verifier::external_body]
fn zip_entries(bytes: &[u8]) -> (res: Option<Vec<ZipEntry>>)
    ensures
        entries_view(res) == spec_zip_entries(bytes@),
{
    let mut archive = zip::ZipArchive::new(std::io::Cursor::new(bytes)).ok()?;
    let count = archive.len();
    Some((0..count).map(|i| match archive.by_index(i) {
        Ok(f) => ZipEntry { name: f.name().to_string(), size: f.size(), enclosed: f.enclosed_name().is_some(), readable: true },
        Err(_) => ZipEntry { name: String::new(), size: 0, enclosed: false, readable: false },
    }).collect())
}

/// `zip::ZipArchive::by_name(name)` on archive `bytes`: the member's declared size
/// and its first `cap` bytes (`None` inside when reading fails); `None` when the
/// archive or the member cannot be opened.
#[verifier::external_body]
fn zip_member(bytes: &[u8], name: &str, cap: u64) -> (res: Option<(u64, Option<Vec<u8>>)>)
    ensures
        match res {
            None => spec_zip_member(bytes@, name@, cap) is None,
            Some((size, content)) => spec_zip_member(bytes@, name@, cap) == Some((size, match content {
                Some(c) => Some(c@),
                None => None,
            })),
        },
{
    let mut archive = zip::ZipArchive::new(std::io::Cursor::new(bytes)).ok()?;
    let file = archive.by_name(name).ok()?;
    let size = file.size();
    let mut content = Vec::new();
    let read = std::io::Read::read_to_end(&mut std::io::Read::take(file, cap), &mut content).ok();
    Some((size, read.map(|_| content)))
}

/// Why the archive `bytes` cannot be inventoried at all, if it cannot.
pub open spec fn archive_error(bytes: Seq<u8>) -> Option<CompatibilityError> {
    if bytes.len() > MAX_ARCHIVE_BYTES {
        Some(CompatibilityError::ArchiveTooLarge)
    } else {
        match spec_zip_entries(bytes) {
            None => Some(CompatibilityError::InvalidArchive),
            Some(es) => if es.len() > MAX_ENTRIES {
                Some(CompatibilityError::TooManyEntries)
            } else {
                None
            },
        }
    }
}

/// The entries of an archive that passes the size and count limits.
fn archive(bytes: &[u8]) -> (res: Result<Vec<ZipEntry>, CompatibilityError>)
    ensures
        match archive_error(bytes@) {
            Some(e) => res == Err::<Vec<ZipEntry>, CompatibilityError>(e),
            None => res matches Ok(es) && spec_zip_entries(bytes@) == Some(
                es@.map_values(|e: ZipEntry| entry_view(e)),
            ),
        },
{
    if bytes.len() > MAX_ARCHIVE_BYTES {
        return Err(CompatibilityError::ArchiveTooLarge);
    }
    match zip_entries(bytes) {
        None => Err(CompatibilityError::InvalidArchive),
        Some(es) => if es.len() > MAX_ENTRIES {
            Err(CompatibilityError::TooManyEntries)
        } else {
            Ok(es)
        },
    }
}

/// The `key=value` fields of metadata lines, after `acc`: blank lines and `#`
/// comments are skipped, keys and values trimmed, and a repeated key refused.
pub open spec fn read_fields(ls: Seq<Seq<char>>, acc: Seq<(Seq<char>, Seq<char>)>) -> Result<
    Seq<(Seq<char>, Seq<char>)>,
    CompatibilityError,
>
    decreases ls.len(),
{
    if ls.len() == 0 {
        Ok(acc)
    } else {
        let line = trim(ls[0]);
        if line.len() == 0 || line[0] == '#' {
            read_fields(ls.drop_first(), acc)
        } else {
            match first_index(line, '=') {
                None => Err(CompatibilityError::UnsupportedMetadata),
                Some(k) => {
                    let key = trim(line.take(k));
                    let value = trim(line.skip(k + 1));
                    if exists|j: int| 0 <= j < acc.len() && (#[trigger] acc[j]).0 == key {
                        Err(CompatibilityError::DuplicateField)
                    } else {
                        read_fields(ls.drop_first(), acc.push((key, value)))
                    }
                },
            }
        }
    }
}

/// The value of field `key`.
pub open spec fn field(fields: Seq<(Seq<char>, Seq<char>)>, key: Seq<char>) -> Option<Seq<char>>
    decreases fields.len(),
{
    if fields.len() == 0 {
        None
    } else if fields[0].0 == key {
        Some(fields[0].1)
    } else {
        field(fields.drop_first(), key)
    }
}

/// The analyzer version that archive `bytes` proves, if its digest is `expected`.
pub open spec fn analyzer_outcome(bytes: Seq<u8>, expected: Seq<char>) -> Result<Seq<char>, CompatibilityError> {
    if digest_text(bytes) != expected {
        Err(CompatibilityError::DigestMismatch)
    } else {
        match archive_error(bytes) {
            Some(e) => Err(e),
            None => match spec_zip_member(bytes, METADATA_NAME@, (MAX_METADATA_BYTES + 1) as u64) {
                None => Err(CompatibilityError::MissingVersionMetadata),
                Some((size, content)) => if size > MAX_METADATA_BYTES {
                    Err(CompatibilityError::VersionMetadataTooLarge)
                } else {
                    match content {
                        None => Err(CompatibilityError::UnreadableMetadata),
                        Some(c) => if !vstd::utf8::valid_utf8(c) {
                            Err(CompatibilityError::UnreadableMetadata)
                        } else if c.len() > MAX_METADATA_BYTES {
                            Err(CompatibilityError::VersionMetadataTooLarge)
                        } else {
                            match read_fields(lines(vstd::utf8::decode_utf8(c)), seq![]) {
                                Err(e) => Err(e),
                                Ok(fields) => if field(fields, "groupId"@) == Some(
                                    "com.github.siom79.japicmp"@,
                                ) && field(fields, "artifactId"@) == Some("japicmp"@) && field(
                                    fields,
                                    "version"@,
                                ) == Some("0.26.2"@) {
                                    Ok("0.26.2"@)
                                } else {
                                    Err(CompatibilityError::WrongAnalyzer)
                                },
                            }
                        },
                    }
                },
            },
        }
    }
}

} // verus!

verus! {

/// The plain values of computed fields.
pub open spec fn fields_view(v: Seq<(Vec<char>, Vec<char>)>) -> Seq<(Seq<char>, Seq<char>)> {
    v.map_values(|f: (Vec<char>, Vec<char>)| (f.0@, f.1@))
}

fn field_exec<'a>(fields: &'a Vec<(Vec<char>, Vec<char>)>, key: &str) -> (res: Option<&'a Vec<char>>)
    ensures
        match field(fields_view(fields@), key@) {
            Some(v) => res matches Some(x) && x@ == v,
            None => res is None,
        },
{
    let k = crate::text::chars_of(key);
    let ghost all = fields_view(fields@);
    let mut i: usize = 0;
    assert(all.skip(0) =~= all);
    while i < fields.len()
        invariant
            0 <= i <= fields@.len(),
            all == fields_view(fields@),
            k@ == key@,
            field(all, key@) == field(all.skip(i as int), key@),
        decreases fields@.len() - i,
    {
        assert(all.skip(i as int).drop_first() =~= all.skip(i + 1));
        assert(all.skip(i as int)[0] == all[i as int]);
        if crate::text::chars_equal(&fields[i].0, &k) {
            return Some(&fields[i].1);
        }
        i = i + 1;
    }
    None
}

#[verifier::loop_isolation(false)]
fn read_fields_exec(ls: &Vec<Vec<char>>) -> (res: Result<Vec<(Vec<char>, Vec<char>)>, CompatibilityError>)
    ensures
        match read_fields(crate::text::views(ls@), seq![]) {
            Ok(f) => res matches Ok(v) && fields_view(v@) == f,
            Err(e) => res == Err::<Vec<(Vec<char>, Vec<char>)>, CompatibilityError>(e),
        },
{
    let ghost all = crate::text::views(ls@);
    let mut fields: Vec<(Vec<char>, Vec<char>)> = Vec::new();
    let mut i: usize = 0;
    assert(all.skip(0) =~= all);
    assert(fields_view(fields@) =~= seq![]);
    while i < ls.len()
        invariant
            0 <= i <= ls@.len(),
            all == crate::text::views(ls@),
            read_fields(all, seq![]) == read_fields(all.skip(i as int), fields_view(fields@)),
        decreases ls@.len() - i,
    {
        assert(all.skip(i as int).drop_first() =~= all.skip(i + 1));
        assert(all.skip(i as int)[0] == ls@[i as int]@);
        let line = crate::text::trimmed(ls[i].as_slice());
        if line.len() == 0 || line[0] == '#' {
            i = i + 1;
            continue;
        }
        let n = line.len();
        let k = match crate::text::find_char(line.as_slice(), 0, '=') {
            None => {
                assert(line@.subrange(0, n as int) =~= line@);
                return Err(CompatibilityError::UnsupportedMetadata);
            },
            Some(k) => k,
        };
        assert(line@.subrange(0, n as int) =~= line@);
        let key = crate::text::trimmed(crate::text::copy_range(line.as_slice(), 0, k).as_slice());
        let value = crate::text::trimmed(crate::text::copy_range(line.as_slice(), k + 1, n).as_slice());
        assert(line@.subrange(0, k as int) =~= line@.take(k as int));
        assert(line@.subrange(k + 1, n as int) =~= line@.skip(k + 1));
        let ghost fv = fields_view(fields@);
        let mut j: usize = 0;
        while j < fields.len()
            invariant
                0 <= j <= fields@.len(),
                fv == fields_view(fields@),
                forall|m: int| 0 <= m < j ==> (#[trigger] fv[m]).0 != key@,
            decreases fields@.len() - j,
        {
            if crate::text::chars_equal(&fields[j].0, &key) {
                assert(fv[j as int].0 == key@);
                return Err(CompatibilityError::DuplicateField);
            }
            j = j + 1;
        }
        fields.push((key, value));
        assert(fields_view(fields@) =~= fv.push((key@, value@)));
        i = i + 1;
    }
    assert(all.skip(i as int) =~= seq![]);
    Ok(fields)
}

/// The japicmp version that the analyzer archive `bytes` proves, once its digest
/// is the trusted `expected_digest`.
pub fn analyzer_version(bytes: &[u8], expected_digest: &str) -> (res: Result<String, CompatibilityError>)
    ensures
        match analyzer_outcome(bytes@, expected_digest@) {
            Ok(v) => res matches Ok(s) && s@ == v,
            Err(e) => res == Err::<String, CompatibilityError>(e),
        },
{
    proof {
        reveal_strlit("0.26.2");
    }
    let d = crate::text::chars_of(digest(bytes).as_str());
    let e = crate::text::chars_of(expected_digest);
    if !crate::text::chars_equal(&d, &e) {
        return Err(CompatibilityError::DigestMismatch);
    }
    archive(bytes)?;
    let (size, content) = match zip_member(bytes, METADATA_NAME, MAX_METADATA_BYTES + 1) {
        None => return Err(CompatibilityError::MissingVersionMetadata),
        Some(m) => m,
    };
    if size > MAX_METADATA_BYTES {
        return Err(CompatibilityError::VersionMetadataTooLarge);
    }
    let content = match content {
        None => return Err(CompatibilityError::UnreadableMetadata),
        Some(c) => c,
    };
    let text = match crate::text::text_of_bytes(content.as_slice()) {
        None => return Err(CompatibilityError::UnreadableMetadata),
        Some(t) => t,
    };
    proof {
        vstd::utf8::encode_utf8_decode_utf8(text@);
    }
    if content.len() as u64 > MAX_METADATA_BYTES {
        return Err(CompatibilityError::VersionMetadataTooLarge);
    }
    let chars = crate::text::chars_of(text);
    let ls = crate::text::split_lines(&chars);
    let fields = read_fields_exec(&ls)?;
    let ok = match (field_exec(&fields, "groupId"), field_exec(&fields, "artifactId"), field_exec(
        &fields,
        "version",
    )) {
        (Some(g), Some(a), Some(v)) => crate::text::text_is(g, "com.github.siom79.japicmp")
            && crate::text::text_is(a, "japicmp") && crate::text::text_is(v, "0.26.2"),
        _ => false,
    };
    if !ok {
        return Err(CompatibilityError::WrongAnalyzer);
    }
    Ok(crate::text::string_of(crate::text::chars_of("0.26.2").as_slice()))
}

} // verus!

verus! {

/// `/` written as `.`.
pub open spec fn dotted(s: Seq<char>) -> Seq<char> {
    s.map_values(|c: char| if c == '/' { '.' } else { c })
}

/// `s` ends with `p`.
pub open spec fn has_suffix(s: Seq<char>, p: Seq<char>) -> bool {
    p.len() <= s.len() && s.skip(s.len() - p.len()) == p
}

/// The class names of the archive entries `es`, added to the ascending list `acc`
/// with the uncompressed size `expanded` counted so far.
pub open spec fn classes_from(es: Seq<ZipEntryView>, expanded: int, acc: Seq<Seq<char>>) -> Result<
    Seq<Seq<char>>,
    CompatibilityError,
>
    decreases es.len(),
{
    if es.len() == 0 {
        Ok(acc)
    } else {
        let e = es[0];
        let total = expanded + e.size;
        if !e.readable {
            Err(CompatibilityError::UnreadableEntry)
        } else if total > u64::MAX {
            Err(CompatibilityError::SizeOverflow)
        } else if total > MAX_EXPANDED_BYTES {
            Err(CompatibilityError::ExpandedTooLarge)
        } else if !e.enclosed || e.name.contains('\\') {
            Err(CompatibilityError::UnsafeEntry)
        } else if has_prefix(e.name, "META-INF/versions/"@) {
            Err(CompatibilityError::MultiRelease)
        } else if has_suffix(e.name, ".class"@) {
            let class = e.name.take(e.name.len() - 6);
            if class == "module-info"@ {
                Err(CompatibilityError::ModuleDescriptor)
            } else if has_prefix(class, "META-INF/"@) || class.len() == 0 || acc.contains(
                dotted(class),
            ) {
                Err(CompatibilityError::AmbiguousClasses)
            } else {
                classes_from(es.drop_first(), total, insert_sorted(acc, dotted(class)))
            }
        } else {
            classes_from(es.drop_first(), total, acc)
        }
    }
}

/// The class inventory of archive `bytes`.
pub open spec fn classes_outcome(bytes: Seq<u8>) -> Result<Seq<Seq<char>>, CompatibilityError> {
    match archive_error(bytes) {
        Some(e) => Err(e),
        None => classes_from(spec_zip_entries(bytes)->Some_0, 0, seq![]),
    }
}

pub(crate) fn contains_text(v: &Vec<String>, x: &Vec<char>) -> (res: bool)
    ensures
        res == crate::reports::sarif_locations::string_views(v@).contains(x@),
{
    let ghost s = crate::reports::sarif_locations::string_views(v@);
    let mut i: usize = 0;
    while i < v.len()
        invariant
            0 <= i <= v@.len(),
            s == crate::reports::sarif_locations::string_views(v@),
            forall|j: int| 0 <= j < i ==> s[j] != x@,
        decreases v@.len() - i,
    {
        let c = crate::text::chars_of(v[i].as_str());
        if crate::text::chars_equal(&c, x) {
            assert(s[i as int] == x@);
            return true;
        }
        i = i + 1;
    }
    false
}

fn dotted_exec(s: &Vec<char>) -> (res: Vec<char>)
    ensures
        res@ == dotted(s@),
{
    let mut out: Vec<char> = Vec::new();
    let mut i: usize = 0;
    while i < s.len()
        invariant
            0 <= i <= s@.len(),
            out@ == dotted(s@.take(i as int)),
        decreases s@.len() - i,
    {
        let c = s[i];
        out.push(if c == '/' { '.' } else { c });
        assert(dotted(s@.take(i + 1)) =~= dotted(s@.take(i as int)).push(if c == '/' { '.' } else { c }));
        i = i + 1;
    }
    assert(s@.take(i as int) =~= s@);
    out
}

/// The class names in archive `bytes`, ascending, with `/` written as `.`: the
/// archive must hold no unsafe, multi-release, module or ambiguous entries.
pub fn classes(bytes: &[u8]) -> (res: Result<Vec<String>, CompatibilityError>)
    ensures
        match classes_outcome(bytes@) {
            Ok(names) => res matches Ok(v) && crate::reports::sarif_locations::string_views(v@) == names,
            Err(e) => res == Err::<Vec<String>, CompatibilityError>(e),
        },
{
    proof {
        reveal_strlit("module-info");
        reveal_strlit(".class");
    }
    let entries = archive(bytes)?;
    let ghost es = entries@.map_values(|e: ZipEntry| entry_view(e));
    let mut names: Vec<String> = Vec::new();
    let mut expanded: u64 = 0;
    let mut i: usize = 0;
    assert(es.skip(0) =~= es);
    assert(crate::reports::sarif_locations::string_views(names@) =~= seq![]);
    while i < entries.len()
        invariant
            0 <= i <= entries@.len(),
            es == entries@.map_values(|e: ZipEntry| entry_view(e)),
            classes_outcome(bytes@) == classes_from(es.skip(i as int), expanded as int, crate::reports::sarif_locations::string_views(names@)),
        decreases entries@.len() - i,
    {
        assert(es.skip(i as int).drop_first() =~= es.skip(i + 1));
        assert(es.skip(i as int)[0] == entry_view(entries@[i as int]));
        let e = &entries[i];
        if !e.readable {
            return Err(CompatibilityError::UnreadableEntry);
        }
        if e.size > u64::MAX - expanded {
            return Err(CompatibilityError::SizeOverflow);
        }
        expanded = expanded + e.size;
        if expanded > MAX_EXPANDED_BYTES {
            return Err(CompatibilityError::ExpandedTooLarge);
        }
        let name = crate::text::chars_of(e.name.as_str());
        if !e.enclosed || crate::text::contains_char(&name, '\\') {
            return Err(CompatibilityError::UnsafeEntry);
        }
        if crate::text::starts_with_text(&name, "META-INF/versions/") {
            return Err(CompatibilityError::MultiRelease);
        }
        let n = name.len();
        let is_class = n >= 6 && name[n - 6] == '.' && name[n - 5] == 'c' && name[n - 4] == 'l'
            && name[n - 3] == 'a' && name[n - 2] == 's' && name[n - 1] == 's';
        assert(is_class == has_suffix(name@, ".class"@)) by {
            reveal_strlit(".class");
            assert(".class"@ =~= seq!['.', 'c', 'l', 'a', 's', 's']);
            if n >= 6 {
                assert(name@.skip(n - 6) =~= seq![name@[n - 6], name@[n - 5], name@[n - 4], name@[n - 3], name@[n - 2], name@[n - 1]]);
            }
        }
        if is_class {
            let class = crate::text::copy_range(&name, 0, n - 6);
            assert(class@ =~= name@.take(n - 6));
            if crate::text::text_is(&class, "module-info") {
                return Err(CompatibilityError::ModuleDescriptor);
            }
            let d = dotted_exec(&class);
            if crate::text::starts_with_text(&class, "META-INF/") || class.len() == 0
                || contains_text(&names, &d) {
                return Err(CompatibilityError::AmbiguousClasses);
            }
            crate::reports::sarif_locations::insert_symbol(&mut names, crate::text::string_of(d.as_slice()));
        }
        i = i + 1;
    }
    assert(es.skip(i as int) =~= seq![]);
    Ok(names)
}

} // verus!

verus! {

/// Which compatibility a policy requires.
#[derive(Debug, Clone, Copy, PartialEq, Eq, Structural)]
pub enum CompatibilityLevel {
    Binary,
    Source,
    Both,
}

/// One incompatible change.
#[derive(Debug, Clone)]
pub struct Finding {
    pub symbol: String,
    pub change: String,
    pub binary_compatible: bool,
    pub source_compatible: bool,
}

/// The outcome of comparing two archives.
#[derive(Debug)]
pub struct Comparison {
    pub classes_compared: usize,
    pub binary_compatible: bool,
    pub source_compatible: bool,
    pub findings: Vec<Finding>,
}

/// A finding as plain values.
pub struct FindingView {
    pub symbol: Seq<char>,
    pub change: Seq<char>,
    pub binary: bool,
    pub source: bool,
}

/// The plain values of a finding.
pub open spec fn finding_view(f: Finding) -> FindingView {
    FindingView {
        symbol: f.symbol@,
        change: f.change@,
        binary: f.binary_compatible,
        source: f.source_compatible,
    }
}

/// The plain values of computed findings.
pub open spec fn findings_view(v: Seq<Finding>) -> Seq<FindingView> {
    v.map_values(|f: Finding| finding_view(f))
}

/// A change with these flags breaks the required compatibility.
pub open spec fn incompatible(binary: bool, source: bool, level: CompatibilityLevel) -> bool {
    match level {
        CompatibilityLevel::Binary => !binary,
        CompatibilityLevel::Source => !source,
        CompatibilityLevel::Both => !binary || !source,
    }
}

/// Whether a change with these flags breaks the required compatibility.
pub fn is_incompatible(binary: bool, source: bool, level: CompatibilityLevel) -> (res: bool)
    ensures
        res == incompatible(binary, source, level),
{
    match level {
        CompatibilityLevel::Binary => !binary,
        CompatibilityLevel::Source => !source,
        CompatibilityLevel::Both => !binary || !source,
    }
}

/// A required attribute.
pub open spec fn required(node: XmlNode, name: Seq<char>) -> Result<Seq<char>, CompatibilityError> {
    match attribute(node, name) {
        None => Err(CompatibilityError::MissingAttribute),
        Some(v) => Ok(v),
    }
}

/// A required `true`/`false` attribute.
pub open spec fn boolean(node: XmlNode, name: Seq<char>) -> Result<bool, CompatibilityError> {
    match attribute(node, name) {
        None => Err(CompatibilityError::MissingAttribute),
        Some(v) => if v == "true"@ {
            Ok(true)
        } else if v == "false"@ {
            Ok(false)
        } else {
            Err(CompatibilityError::InvalidBoolean)
        },
    }
}

/// Why the report root is not an unfiltered comparison of `old` and `new`, if
/// it is not.
pub open spec fn header_error(root: XmlNode, old: Seq<char>, new: Seq<char>) -> Option<CompatibilityError> {
    if !has_tag(root, "japicmp"@) {
        Some(CompatibilityError::FilteredReport)
    } else {
        match required(root, "oldJar"@) {
            Err(e) => Some(e),
            Ok(v) => if v != old {
                Some(CompatibilityError::FilteredReport)
            } else {
                match required(root, "newJar"@) {
                    Err(e) => Some(e),
                    Ok(v) => if v != new {
                        Some(CompatibilityError::FilteredReport)
                    } else {
                        settings_error(root)
                    },
                }
            },
        }
    }
}

/// Why the report's settings filter the comparison, if they do.
pub open spec fn settings_error(root: XmlNode) -> Option<CompatibilityError> {
    match required(root, "accessModifier"@) {
        Err(e) => Some(e),
        Ok(v) => if v != "PRIVATE"@ {
            Some(CompatibilityError::FilteredReport)
        } else {
            match required(root, "packagesInclude"@) {
                Err(e) => Some(e),
                Ok(v) => if v != "all"@ {
                    Some(CompatibilityError::FilteredReport)
                } else {
                    match required(root, "packagesExclude"@) {
                        Err(e) => Some(e),
                        Ok(v) => if v != "n.a."@ {
                            Some(CompatibilityError::FilteredReport)
                        } else {
                            match boolean(root, "ignoreMissingClasses"@) {
                                Err(e) => Some(e),
                                Ok(true) => Some(CompatibilityError::FilteredReport),
                                Ok(false) => match required(
                                    root,
                                    "ignoreMissingClassesByRegularExpressions"@,
                                ) {
                                    Err(e) => Some(e),
                                    Ok(v) => if v.len() > 0 {
                                        Some(CompatibilityError::FilteredReport)
                                    } else {
                                        match boolean(root, "onlyModifications"@) {
                                            Err(e) => Some(e),
                                            Ok(true) => Some(CompatibilityError::FilteredReport),
                                            Ok(false) => match boolean(
                                                root,
                                                "onlyBinaryIncompatibleModifications"@,
                                            ) {
                                                Err(e) => Some(e),
                                                Ok(true) => Some(CompatibilityError::FilteredReport),
                                                Ok(false) => None,
                                            },
                                        }
                                    },
                                },
                            }
                        },
                    }
                },
            }
        },
    }
}

/// The children of node `p` among the first `n` nodes that are elements named
/// `tag` (any element when `tag` is empty), in document order.
pub open spec fn children_upto(nodes: Seq<XmlNode>, p: int, tag: Seq<char>, n: int) -> Seq<int>
    decreases n,
{
    if n <= 0 {
        seq![]
    } else {
        let k = n - 1;
        children_upto(nodes, p, tag, k) + if child_of(nodes, k, p) && nodes[k].kind
            == XmlKind::Element && (tag.len() == 0 || nodes[k].name@ == tag) {
            seq![k]
        } else {
            seq![]
        }
    }
}

/// The element children of `p` named `tag` (any, when `tag` is empty).
pub open spec fn children(nodes: Seq<XmlNode>, p: int, tag: Seq<char>) -> Seq<int> {
    children_upto(nodes, p, tag, nodes.len() as int)
}

/// The elements within node `a` (itself first) among the first `n` nodes.
pub open spec fn descendants_upto(nodes: Seq<XmlNode>, a: int, n: int) -> Seq<int>
    decreases n,
{
    if n <= 0 {
        seq![]
    } else {
        let k = n - 1;
        descendants_upto(nodes, a, k) + if k >= a && within(nodes, k, a) && nodes[k].kind
            == XmlKind::Element {
            seq![k]
        } else {
            seq![]
        }
    }
}

/// The elements within node `a`, itself first, in document order.
pub open spec fn descendants(nodes: Seq<XmlNode>, a: int) -> Seq<int> {
    descendants_upto(nodes, a, nodes.len() as int)
}

/// A method, constructor or field element.
pub open spec fn is_member(node: XmlNode) -> bool {
    has_tag(node, "method"@) || has_tag(node, "constructor"@) || has_tag(node, "field"@)
}

/// The nearest member element at or above node `j`.
pub open spec fn nearest_member(nodes: Seq<XmlNode>, j: int) -> Option<int>
    decreases j,
{
    if j < 0 || j >= nodes.len() {
        None
    } else if is_member(nodes[j]) {
        Some(j)
    } else {
        match nodes[j].parent {
            None => None,
            Some(p) => if (p as int) < j {
                nearest_member(nodes, p as int)
            } else {
                None
            },
        }
    }
}

/// The `type` attributes of parameter elements `ps`.
pub open spec fn parameter_types(nodes: Seq<XmlNode>, ps: Seq<int>) -> Result<Seq<Seq<char>>, CompatibilityError>
    decreases ps.len(),
{
    if ps.len() == 0 {
        Ok(seq![])
    } else {
        match parameter_types(nodes, ps.drop_last()) {
            Err(e) => Err(e),
            Ok(ts) => match required(nodes[ps.last()], "type"@) {
                Err(e) => Err(e),
                Ok(t) => Ok(ts.push(t)),
            },
        }
    }
}

/// `parts` joined by commas.
pub open spec fn comma_joined(parts: Seq<Seq<char>>) -> Seq<char>
    decreases parts.len(),
{
    if parts.len() == 0 {
        seq![]
    } else if parts.len() == 1 {
        parts[0]
    } else {
        comma_joined(parts.drop_last()) + seq![','] + parts.last()
    }
}

/// The stable symbol of a change at node `j` of class `class`: the class, or
/// `class#field`, or `class#method(parameter types)`.
pub open spec fn symbol_of(nodes: Seq<XmlNode>, j: int, class: Seq<char>) -> Result<Seq<char>, CompatibilityError> {
    match nearest_member(nodes, j) {
        None => Ok(class),
        Some(m) => match required(nodes[m], "name"@) {
            Err(e) => Err(e),
            Ok(name) => if has_tag(nodes[m], "field"@) {
                Ok(class + seq!['#'] + name)
            } else {
                let ps = children(nodes, m, "parameters"@);
                if ps.len() == 0 {
                    Err(CompatibilityError::MissingParameters)
                } else {
                    match parameter_types(nodes, children(nodes, ps[0], seq![])) {
                        Err(e) => Err(e),
                        Ok(ts) => Ok(class + seq!['#'] + name + seq!['('] + comma_joined(ts) + seq![')']),
                    }
                }
            },
        },
    }
}

/// The findings of the members `ds` of class `class` (summary flags `b` and `s`),
/// after `fs`: every member flag must agree with the summary.
pub open spec fn members_scan(
    nodes: Seq<XmlNode>,
    class: Seq<char>,
    b: bool,
    s: bool,
    level: CompatibilityLevel,
    ds: Seq<int>,
    fs: Seq<FindingView>,
) -> Result<Seq<FindingView>, CompatibilityError>
    decreases ds.len(),
{
    if ds.len() == 0 {
        Ok(fs)
    } else {
        let node = nodes[ds[0]];
        if attribute(node, "binaryCompatible"@) is None && attribute(node, "sourceCompatible"@) is None {
            members_scan(nodes, class, b, s, level, ds.drop_first(), fs)
        } else {
            match boolean(node, "binaryCompatible"@) {
                Err(e) => Err(e),
                Ok(cb) => match boolean(node, "sourceCompatible"@) {
                    Err(e) => Err(e),
                    Ok(cs) => if (b && !cb) || (s && !cs) {
                        Err(CompatibilityError::Contradiction)
                    } else if has_tag(node, "compatibilityChange"@) && incompatible(cb, cs, level) {
                        match required(node, "type"@) {
                            Err(e) => Err(e),
                            Ok(change) => if crate::text::blank(change) {
                                Err(CompatibilityError::EmptyChange)
                            } else {
                                match symbol_of(nodes, ds[0], class) {
                                    Err(e) => Err(e),
                                    Ok(sym) => members_scan(
                                        nodes,
                                        class,
                                        b,
                                        s,
                                        level,
                                        ds.drop_first(),
                                        fs.push(FindingView { symbol: sym, change, binary: cb, source: cs }),
                                    ),
                                }
                            },
                        }
                    } else {
                        members_scan(nodes, class, b, s, level, ds.drop_first(), fs)
                    },
                },
            }
        }
    }
}

/// What has been compared so far: the classes seen, the findings, and whether
/// every class so far is binary and source compatible.
#[verifier::ext_equal]
pub struct CompareState {
    pub seen: Seq<Seq<char>>,
    pub findings: Seq<FindingView>,
    pub binary: bool,
    pub source: bool,
}

/// One class entry `c` added to the comparison.
pub open spec fn class_step(nodes: Seq<XmlNode>, c: int, level: CompatibilityLevel, state: CompareState) -> Result<CompareState, CompatibilityError> {
    let node = nodes[c];
    if !has_tag(node, "class"@) {
        Err(CompatibilityError::UnknownClassEntry)
    } else {
        match required(node, "fullyQualifiedName"@) {
            Err(e) => Err(e),
            Ok(name) => if name.len() == 0 || state.seen.contains(name) {
                Err(CompatibilityError::DuplicateClass)
            } else {
                match boolean(node, "binaryCompatible"@) {
                    Err(e) => Err(e),
                    Ok(b) => match boolean(node, "sourceCompatible"@) {
                        Err(e) => Err(e),
                        Ok(s) => match members_scan(nodes, name, b, s, level, descendants(nodes, c), state.findings) {
                            Err(e) => Err(e),
                            Ok(fs) => Ok(CompareState {
                                seen: state.seen.push(name),
                                findings: if incompatible(b, s, level) && fs.len() == state.findings.len() {
                                    fs.push(FindingView { symbol: name, change: "CLASS_INCOMPATIBLE"@, binary: b, source: s })
                                } else {
                                    fs
                                },
                                binary: state.binary && b,
                                source: state.source && s,
                            }),
                        },
                    },
                }
            },
        }
    }
}

/// The class entries `cs` added to the comparison.
pub open spec fn classes_scan(nodes: Seq<XmlNode>, cs: Seq<int>, level: CompatibilityLevel, state: CompareState) -> Result<CompareState, CompatibilityError>
    decreases cs.len(),
{
    if cs.len() == 0 {
        Ok(state)
    } else {
        match class_step(nodes, cs[0], level, state) {
            Err(e) => Err(e),
            Ok(next) => classes_scan(nodes, cs.drop_first(), level, next),
        }
    }
}

/// Findings ordered by symbol, then by change.
pub open spec fn finding_less(a: FindingView, b: FindingView) -> bool {
    text_less(a.symbol, b.symbol) || (a.symbol == b.symbol && text_less(a.change, b.change))
}

/// `x` placed after every finding of `s` that does not come after it.
pub open spec fn insert_finding(s: Seq<FindingView>, x: FindingView) -> Seq<FindingView>
    decreases s.len(),
{
    if s.len() == 0 {
        seq![x]
    } else if finding_less(x, s[0]) {
        seq![x] + s
    } else {
        seq![s[0]] + insert_finding(s.drop_first(), x)
    }
}

/// The findings stably sorted by symbol and change.
pub open spec fn sorted_findings(fs: Seq<FindingView>) -> Seq<FindingView>
    decreases fs.len(),
{
    if fs.len() == 0 {
        seq![]
    } else {
        insert_finding(sorted_findings(fs.drop_last()), fs.last())
    }
}

/// The findings without a finding equal to the one before it.
pub open spec fn deduplicated(fs: Seq<FindingView>) -> Seq<FindingView>
    decreases fs.len(),
{
    if fs.len() <= 1 {
        fs
    } else if deduplicated(fs.drop_last()).last() == fs.last() {
        deduplicated(fs.drop_last())
    } else {
        deduplicated(fs.drop_last()).push(fs.last())
    }
}

/// A comparison as plain values.
pub struct ComparisonView {
    pub classes_compared: nat,
    pub binary: bool,
    pub source: bool,
    pub findings: Seq<FindingView>,
}

/// What the japicmp report in `text` says, compared between archives `old` and
/// `new` whose class inventory is `expected`.
pub open spec fn report_outcome(
    nodes: Seq<XmlNode>,
    old: Seq<char>,
    new: Seq<char>,
    expected: Set<Seq<char>>,
    level: CompatibilityLevel,
) -> Result<ComparisonView, CompatibilityError> {
    match root_element(nodes) {
        None => Err(CompatibilityError::InvalidXml),
        Some(r) => match header_error(nodes[r], old, new) {
            Some(e) => Err(e),
            None => {
                let inventories = children(nodes, r, "classes"@);
                if inventories.len() != 1 {
                    Err(CompatibilityError::ClassInventory)
                } else {
                    match classes_scan(
                        nodes,
                        children(nodes, inventories[0], seq![]),
                        level,
                        CompareState { seen: seq![], findings: seq![], binary: true, source: true },
                    ) {
                        Err(e) => Err(e),
                        Ok(st) => if st.seen.len() == 0 || st.seen.to_set() != expected {
                            Err(CompatibilityError::IncompleteInventory)
                        } else {
                            Ok(ComparisonView {
                                classes_compared: st.seen.len(),
                                binary: st.binary,
                                source: st.source,
                                findings: deduplicated(sorted_findings(st.findings)),
                            })
                        },
                    }
                }
            },
        },
    }
}

/// What the japicmp report `bytes` says.
pub open spec fn compare_outcome(
    bytes: Seq<u8>,
    old: Seq<char>,
    new: Seq<char>,
    expected: Set<Seq<char>>,
    level: CompatibilityLevel,
) -> Result<ComparisonView, CompatibilityError> {
    if bytes.len() > crate::reports::MAX_REPORT_BYTES {
        Err(CompatibilityError::ReportTooLarge)
    } else if !vstd::utf8::valid_utf8(bytes) {
        Err(CompatibilityError::NotUtf8)
    } else {
        match crate::xml::spec_parse_xml(vstd::utf8::decode_utf8(bytes), u32::MAX) {
            None => Err(CompatibilityError::InvalidXml),
            Some(nodes) => if !crate::xml::well_formed(nodes) {
                Err(CompatibilityError::InvalidXml)
            } else {
                report_outcome(nodes, old, new, expected, level)
            },
        }
    }
}

} // verus!

verus! {

/// The indices of a list of nodes.
pub open spec fn indices(v: Seq<usize>) -> Seq<int> {
    v.map_values(|i: usize| i as int)
}

fn required_exec<'a>(node: &'a XmlNode, name: &str) -> (res: Result<&'a String, CompatibilityError>)
    ensures
        match required(*node, name@) {
            Ok(v) => res matches Ok(x) && x@ == v,
            Err(e) => res == Err::<&String, CompatibilityError>(e),
        },
{
    match crate::xml::attr(node, name) {
        None => Err(CompatibilityError::MissingAttribute),
        Some(v) => Ok(v),
    }
}

fn boolean_exec(node: &XmlNode, name: &str) -> (res: Result<bool, CompatibilityError>)
    ensures
        res == boolean(*node, name@),
{
    let v = crate::text::chars_of(required_exec(node, name)?.as_str());
    if crate::text::text_is(&v, "true") {
        Ok(true)
    } else if crate::text::text_is(&v, "false") {
        Ok(false)
    } else {
        Err(CompatibilityError::InvalidBoolean)
    }
}

fn attr_is(node: &XmlNode, name: &str, expected: &str) -> (res: Result<bool, CompatibilityError>)
    ensures
        match required(*node, name@) {
            Ok(v) => res == Ok::<bool, CompatibilityError>(v == expected@),
            Err(e) => res == Err::<bool, CompatibilityError>(e),
        },
{
    let v = crate::text::chars_of(required_exec(node, name)?.as_str());
    Ok(crate::text::text_is(&v, expected))
}

fn settings_check(root: &XmlNode) -> (res: Option<CompatibilityError>)
    ensures
        res == settings_error(*root),
{
    match attr_is(root, "accessModifier", "PRIVATE") {
        Err(e) => return Some(e),
        Ok(false) => return Some(CompatibilityError::FilteredReport),
        Ok(true) => {},
    }
    match attr_is(root, "packagesInclude", "all") {
        Err(e) => return Some(e),
        Ok(false) => return Some(CompatibilityError::FilteredReport),
        Ok(true) => {},
    }
    match attr_is(root, "packagesExclude", "n.a.") {
        Err(e) => return Some(e),
        Ok(false) => return Some(CompatibilityError::FilteredReport),
        Ok(true) => {},
    }
    match boolean_exec(root, "ignoreMissingClasses") {
        Err(e) => return Some(e),
        Ok(true) => return Some(CompatibilityError::FilteredReport),
        Ok(false) => {},
    }
    match required_exec(root, "ignoreMissingClassesByRegularExpressions") {
        Err(e) => return Some(e),
        Ok(v) => if crate::text::chars_of(v.as_str()).len() > 0 {
            return Some(CompatibilityError::FilteredReport);
        },
    }
    match boolean_exec(root, "onlyModifications") {
        Err(e) => return Some(e),
        Ok(true) => return Some(CompatibilityError::FilteredReport),
        Ok(false) => {},
    }
    match boolean_exec(root, "onlyBinaryIncompatibleModifications") {
        Err(e) => Some(e),
        Ok(true) => Some(CompatibilityError::FilteredReport),
        Ok(false) => None,
    }
}

fn header_check(root: &XmlNode, old: &str, new: &str) -> (res: Option<CompatibilityError>)
    ensures
        res == header_error(*root, old@, new@),
{
    if !crate::xml::is_tag(root, "japicmp") {
        return Some(CompatibilityError::FilteredReport);
    }
    match attr_is(root, "oldJar", old) {
        Err(e) => return Some(e),
        Ok(false) => return Some(CompatibilityError::FilteredReport),
        Ok(true) => {},
    }
    match attr_is(root, "newJar", new) {
        Err(e) => return Some(e),
        Ok(false) => return Some(CompatibilityError::FilteredReport),
        Ok(true) => {},
    }
    settings_check(root)
}

/// The element children of node `p` named `tag` (any element when `tag` is empty).
pub(crate) fn children_exec(nodes: &Vec<XmlNode>, p: usize, tag: &str) -> (res: Vec<usize>)
    ensures
        indices(res@) == children(nodes@, p as int, tag@),
        forall|i: int| 0 <= i < res@.len() ==> res@[i] < nodes@.len(),
{
    let t = crate::text::chars_of(tag);
    let mut out: Vec<usize> = Vec::new();
    let mut k: usize = 0;
    while k < nodes.len()
        invariant
            0 <= k <= nodes@.len(),
            t@ == tag@,
            indices(out@) == children_upto(nodes@, p as int, tag@, k as int),
            forall|i: int| 0 <= i < out@.len() ==> out@[i] < nodes@.len(),
        decreases nodes@.len() - k,
    {
        let node = &nodes[k];
        let name = crate::text::chars_of(node.name.as_str());
        if node.parent == Some(p) && node.kind == XmlKind::Element && (t.len() == 0
            || crate::text::chars_equal(&name, &t)) {
            out.push(k);
        }
        assert(indices(out@) =~= children_upto(nodes@, p as int, tag@, k + 1));
        k = k + 1;
    }
    out
}

/// The elements within node `a`, itself first.
pub(crate) fn descendants_exec(nodes: &Vec<XmlNode>, a: usize) -> (res: Vec<usize>)
    ensures
        indices(res@) == descendants(nodes@, a as int),
        forall|i: int| 0 <= i < res@.len() ==> res@[i] < nodes@.len(),
{
    let mut out: Vec<usize> = Vec::new();
    let mut k: usize = 0;
    while k < nodes.len()
        invariant
            0 <= k <= nodes@.len(),
            indices(out@) == descendants_upto(nodes@, a as int, k as int),
            forall|i: int| 0 <= i < out@.len() ==> out@[i] < nodes@.len(),
        decreases nodes@.len() - k,
    {
        if k >= a && nodes[k].kind == XmlKind::Element && crate::xml::is_within(nodes, k, a) {
            out.push(k);
        }
        assert(indices(out@) =~= descendants_upto(nodes@, a as int, k + 1));
        k = k + 1;
    }
    out
}

fn is_member_exec(node: &XmlNode) -> (res: bool)
    ensures
        res == is_member(*node),
{
    crate::xml::is_tag(node, "method") || crate::xml::is_tag(node, "constructor")
        || crate::xml::is_tag(node, "field")
}

fn nearest_member_exec(nodes: &Vec<XmlNode>, j: usize) -> (res: Option<usize>)
    ensures
        match nearest_member(nodes@, j as int) {
            Some(m) => res matches Some(k) && k as int == m && k < nodes@.len(),
            None => res is None,
        },
{
    let mut k = j;
    loop
        invariant
            nearest_member(nodes@, j as int) == nearest_member(nodes@, k as int),
        decreases k,
    {
        if k >= nodes.len() {
            return None;
        }
        if is_member_exec(&nodes[k]) {
            return Some(k);
        }
        match nodes[k].parent {
            Some(p) => if p < k {
                k = p;
            } else {
                return None;
            },
            None => return None,
        }
    }
}

#[verifier::loop_isolation(false)]
fn symbol_exec(nodes: &Vec<XmlNode>, j: usize, class: &Vec<char>) -> (res: Result<Vec<char>, CompatibilityError>)
    ensures
        match symbol_of(nodes@, j as int, class@) {
            Ok(s) => res matches Ok(v) && v@ == s,
            Err(e) => res == Err::<Vec<char>, CompatibilityError>(e),
        },
{
    let m = match nearest_member_exec(nodes, j) {
        None => return Ok(crate::text::copy_range(class.as_slice(), 0, class.len())),
        Some(m) => m,
    };
    proof {
        assert(class@.subrange(0, class@.len() as int) =~= class@);
    }
    let name = crate::text::chars_of(required_exec(&nodes[m], "name")?.as_str());
    let mut out = crate::text::copy_range(class.as_slice(), 0, class.len());
    out.push('#');
    crate::text::extend_chars(&mut out, name.as_slice());
    if crate::xml::is_tag(&nodes[m], "field") {
        return Ok(out);
    }
    let ps = children_exec(nodes, m, "parameters");
    if ps.len() == 0 {
        return Err(CompatibilityError::MissingParameters);
    }
    let params = children_exec(nodes, ps[0], "");
    proof {
        reveal_strlit("");
        assert(""@.len() == 0);
    }
    let ghost pv = indices(params@);
    out.push('(');
    let ghost head = out@;
    let mut types: Vec<Vec<char>> = Vec::new();
    let mut i: usize = 0;
    assert(pv.take(0) =~= seq![]);
    assert(crate::text::views(types@) =~= seq![]);
    while i < params.len()
        invariant
            0 <= i <= params@.len(),
            pv == indices(params@),
            forall|q: int| 0 <= q < params@.len() ==> params@[q] < nodes@.len(),
            parameter_types(nodes@, pv.take(i as int)) == Ok::<Seq<Seq<char>>, CompatibilityError>(crate::text::views(types@)),
            out@ == head + comma_joined(crate::text::views(types@)),
        decreases params@.len() - i,
    {
        assert(pv.take(i + 1).drop_last() =~= pv.take(i as int));
        assert(pv.take(i + 1).last() == params@[i as int] as int);
        let t = match required_exec(&nodes[params[i]], "type") {
            Err(e) => {
                proof {
                    assert(required(nodes@[params@[i as int] as int], "type"@) == Err::<Seq<char>, CompatibilityError>(e));
                    assert(parameter_types(nodes@, pv.take(i + 1)) == Err::<Seq<Seq<char>>, CompatibilityError>(e));
                    lemma_parameter_types_error(nodes@, pv, i as int + 1);
                    assert(""@ =~= seq![]);
                    assert(indices(ps@)[0] == ps@[0] as int);
                }
                return Err(e);
            },
            Ok(t) => crate::text::chars_of(t.as_str()),
        };
        let ghost before = crate::text::views(types@);
        if i > 0 {
            out.push(',');
        }
        crate::text::extend_chars(&mut out, t.as_slice());
        types.push(t);
        assert(crate::text::views(types@) =~= before.push(t@));
        assert(before.push(t@).drop_last() =~= before);
        if i == 0 {
            assert(before =~= seq![]);
            assert(comma_joined(before.push(t@)) == t@);
        } else {
            assert(comma_joined(before.push(t@)) == comma_joined(before) + seq![','] + t@);
        }
        assert(out@ =~= head + comma_joined(crate::text::views(types@)));
        i = i + 1;
    }
    assert(pv.take(i as int) =~= pv);
    assert(indices(ps@)[0] == ps@[0] as int);
    assert(""@ =~= seq![]);
    out.push(')');
    Ok(out)
}

/// An error in a prefix of the parameters is the error of all of them.
proof fn lemma_parameter_types_error(nodes: Seq<XmlNode>, ps: Seq<int>, k: int)
    requires
        0 <= k <= ps.len(),
    ensures
        parameter_types(nodes, ps.take(k)) is Err ==> parameter_types(nodes, ps) == parameter_types(nodes, ps.take(k)),
    decreases ps.len() - k,
{
    if k < ps.len() {
        lemma_parameter_types_error(nodes, ps, k + 1);
        assert(ps.take(k + 1).drop_last() =~= ps.take(k));
    } else {
        assert(ps.take(k) =~= ps);
    }
}

} // verus!

verus! {

/// The comparison state as computed.
pub open spec fn state_of(seen: Seq<Vec<char>>, findings: Seq<Finding>, binary: bool, source: bool) -> CompareState {
    CompareState { seen: crate::text::views(seen), findings: findings_view(findings), binary, source }
}

fn attribute_present(node: &XmlNode, name: &str) -> (res: bool)
    ensures
        res == (attribute(*node, name@) is Some),
{
    crate::xml::attr(node, name).is_some()
}

/// The findings of the members `ds` of a class, appended to `findings`.
#[verifier::loop_isolation(false)]
fn members_exec(
    nodes: &Vec<XmlNode>,
    class: &Vec<char>,
    b: bool,
    s: bool,
    level: CompatibilityLevel,
    ds: &Vec<usize>,
    findings: &mut Vec<Finding>,
) -> (res: Result<(), CompatibilityError>)
    requires
        forall|i: int| 0 <= i < ds@.len() ==> ds@[i] < nodes@.len(),
    ensures
        match members_scan(nodes@, class@, b, s, level, indices(ds@), findings_view(old(findings)@)) {
            Ok(fs) => res is Ok && findings_view(final(findings)@) == fs,
            Err(e) => res == Err::<(), CompatibilityError>(e),
        },
{
    let ghost all = indices(ds@);
    let mut i: usize = 0;
    assert(all.skip(0) =~= all);
    while i < ds.len()
        invariant
            0 <= i <= ds@.len(),
            all == indices(ds@),
            members_scan(nodes@, class@, b, s, level, all, findings_view(old(findings)@)) == members_scan(
                nodes@,
                class@,
                b,
                s,
                level,
                all.skip(i as int),
                findings_view(findings@),
            ),
        decreases ds@.len() - i,
    {
        assert(all.skip(i as int).drop_first() =~= all.skip(i + 1));
        assert(all.skip(i as int)[0] == ds@[i as int] as int);
        let j = ds[i];
        let node = &nodes[j];
        if !attribute_present(node, "binaryCompatible") && !attribute_present(node, "sourceCompatible") {
            i = i + 1;
            continue;
        }
        let cb = boolean_exec(node, "binaryCompatible")?;
        let cs = boolean_exec(node, "sourceCompatible")?;
        if (b && !cb) || (s && !cs) {
            return Err(CompatibilityError::Contradiction);
        }
        if crate::xml::is_tag(node, "compatibilityChange") && is_incompatible(cb, cs, level) {
            let change = required_exec(node, "type")?;
            let cc = crate::text::chars_of(change.as_str());
            if crate::text::is_blank(&cc) {
                return Err(CompatibilityError::EmptyChange);
            }
            let sym = symbol_exec(nodes, j, class)?;
            let ghost before = findings_view(findings@);
            findings.push(Finding {
                symbol: crate::text::string_of(sym.as_slice()),
                change: crate::text::string_of(cc.as_slice()),
                binary_compatible: cb,
                source_compatible: cs,
            });
            assert(findings_view(findings@) =~= before.push(FindingView { symbol: sym@, change: cc@, binary: cb, source: cs }));
        }
        i = i + 1;
    }
    assert(all.skip(i as int) =~= seq![]);
    Ok(())
}

fn seen_contains(seen: &Vec<Vec<char>>, name: &Vec<char>) -> (res: bool)
    ensures
        res == crate::text::views(seen@).contains(name@),
{
    let ghost v = crate::text::views(seen@);
    let mut i: usize = 0;
    while i < seen.len()
        invariant
            0 <= i <= seen@.len(),
            v == crate::text::views(seen@),
            forall|j: int| 0 <= j < i ==> v[j] != name@,
        decreases seen@.len() - i,
    {
        if crate::text::chars_equal(&seen[i], name) {
            assert(v[i as int] == name@);
            return true;
        }
        i = i + 1;
    }
    false
}

/// One class entry added to the comparison.
fn class_exec(
    nodes: &Vec<XmlNode>,
    c: usize,
    level: CompatibilityLevel,
    seen: &mut Vec<Vec<char>>,
    findings: &mut Vec<Finding>,
    binary: &mut bool,
    source: &mut bool,
) -> (res: Result<(), CompatibilityError>)
    requires
        c < nodes@.len(),
    ensures
        match class_step(nodes@, c as int, level, state_of(old(seen)@, old(findings)@, *old(binary), *old(source))) {
            Ok(st) => res is Ok && state_of(final(seen)@, final(findings)@, *final(binary), *final(source)) == st,
            Err(e) => res == Err::<(), CompatibilityError>(e),
        },
{
    proof {
        reveal_strlit("CLASS_INCOMPATIBLE");
    }
    let node = &nodes[c];
    if !crate::xml::is_tag(node, "class") {
        return Err(CompatibilityError::UnknownClassEntry);
    }
    let name = crate::text::chars_of(required_exec(node, "fullyQualifiedName")?.as_str());
    if name.len() == 0 || seen_contains(seen, &name) {
        return Err(CompatibilityError::DuplicateClass);
    }
    let b = boolean_exec(node, "binaryCompatible")?;
    let s = boolean_exec(node, "sourceCompatible")?;
    let ds = descendants_exec(nodes, c);
    let before = findings.len();
    let ghost fv0 = findings_view(findings@);
    members_exec(nodes, &name, b, s, level, &ds, findings)?;
    if is_incompatible(b, s, level) && findings.len() == before {
        let ghost fv1 = findings_view(findings@);
        findings.push(Finding {
            symbol: crate::text::string_of(name.as_slice()),
            change: crate::text::string_of(crate::text::chars_of("CLASS_INCOMPATIBLE").as_slice()),
            binary_compatible: b,
            source_compatible: s,
        });
        assert(findings_view(findings@) =~= fv1.push(FindingView { symbol: name@, change: "CLASS_INCOMPATIBLE"@, binary: b, source: s }));
    }
    let ghost sv0 = crate::text::views(seen@);
    seen.push(name);
    assert(crate::text::views(seen@) =~= sv0.push(name@));
    *binary = *binary && b;
    *source = *source && s;
    Ok(())
}

} // verus!

verus! {

fn finding_less_exec(a: &Finding, b: &Finding) -> (res: bool)
    ensures
        res == finding_less(finding_view(*a), finding_view(*b)),
{
    let asym = crate::text::chars_of(a.symbol.as_str());
    let bsym = crate::text::chars_of(b.symbol.as_str());
    if crate::reports::lcov::text_lt(&asym, &bsym) {
        return true;
    }
    if !crate::text::chars_equal(&asym, &bsym) {
        return false;
    }
    let ac = crate::text::chars_of(a.change.as_str());
    let bc = crate::text::chars_of(b.change.as_str());
    crate::reports::lcov::text_lt(&ac, &bc)
}

/// Inserting after a prefix that does not come after `x` inserts into the rest.
proof fn lemma_insert_finding_after(s: Seq<FindingView>, x: FindingView, i: int)
    requires
        0 <= i <= s.len(),
        forall|j: int| 0 <= j < i ==> !finding_less(x, #[trigger] s[j]),
    ensures
        insert_finding(s, x) == s.take(i) + insert_finding(s.skip(i), x),
    decreases i,
{
    if i == 0 {
        assert(s.take(0) =~= seq![]);
        assert(s.skip(0) =~= s);
        assert(seq![] + insert_finding(s, x) =~= insert_finding(s, x));
    } else {
        let t = s.drop_first();
        assert forall|j: int| 0 <= j < i - 1 implies !finding_less(x, #[trigger] t[j]) by {
            assert(t[j] == s[j + 1]);
        }
        lemma_insert_finding_after(t, x, i - 1);
        assert(t.skip(i - 1) =~= s.skip(i));
        assert(seq![s[0]] + t.take(i - 1) =~= s.take(i));
        assert(!finding_less(x, s[0]));
    }
}

fn insert_finding_exec(v: &mut Vec<Finding>, x: Finding)
    ensures
        findings_view(final(v)@) == insert_finding(findings_view(old(v)@), finding_view(x)),
{
    let ghost s = findings_view(v@);
    let mut i: usize = 0;
    while i < v.len() && !finding_less_exec(&x, &v[i])
        invariant
            0 <= i <= v@.len(),
            s == findings_view(v@),
            v@ == old(v)@,
            forall|j: int| 0 <= j < i ==> !finding_less(finding_view(x), #[trigger] s[j]),
        decreases v@.len() - i,
    {
        i = i + 1;
    }
    proof {
        lemma_insert_finding_after(s, finding_view(x), i as int);
    }
    let ghost fx = finding_view(x);
    if i < v.len() {
        v.insert(i, x);
        assert(findings_view(v@) =~= s.take(i as int) + (seq![fx] + s.skip(i as int)));
    } else {
        v.push(x);
        assert(s.skip(i as int) =~= seq![]);
        assert(s.take(i as int) =~= s);
        assert(findings_view(v@) =~= s.take(i as int) + seq![fx]);
    }
}

fn same_finding(a: &Finding, b: &Finding) -> (res: bool)
    ensures
        res == (finding_view(*a) == finding_view(*b)),
{
    let asym = crate::text::chars_of(a.symbol.as_str());
    let bsym = crate::text::chars_of(b.symbol.as_str());
    let ac = crate::text::chars_of(a.change.as_str());
    let bc = crate::text::chars_of(b.change.as_str());
    crate::text::chars_equal(&asym, &bsym) && crate::text::chars_equal(&ac, &bc)
        && a.binary_compatible == b.binary_compatible && a.source_compatible == b.source_compatible
}

/// Deduplication keeps a nonempty list nonempty.
proof fn lemma_deduplicated_nonempty(fs: Seq<FindingView>)
    requires
        fs.len() > 0,
    ensures
        deduplicated(fs).len() > 0,
    decreases fs.len(),
{
    if fs.len() > 1 {
        lemma_deduplicated_nonempty(fs.drop_last());
    }
}

/// The findings stably sorted by symbol and change, without repeats.
fn ordered_findings(findings: Vec<Finding>) -> (res: Vec<Finding>)
    ensures
        findings_view(res@) == deduplicated(sorted_findings(findings_view(findings@))),
{
    let ghost all = findings_view(findings@);
    let mut sorted: Vec<Finding> = Vec::new();
    let mut i: usize = 0;
    assert(all.take(0) =~= seq![]);
    assert(findings_view(sorted@) =~= seq![]);
    while i < findings.len()
        invariant
            0 <= i <= findings@.len(),
            all == findings_view(findings@),
            findings_view(sorted@) == sorted_findings(all.take(i as int)),
        decreases findings@.len() - i,
    {
        assert(all.take(i + 1).drop_last() =~= all.take(i as int));
        assert(all.take(i + 1).last() == finding_view(findings@[i as int]));
        let f = Finding {
            symbol: crate::text::string_of(crate::text::chars_of(findings[i].symbol.as_str()).as_slice()),
            change: crate::text::string_of(crate::text::chars_of(findings[i].change.as_str()).as_slice()),
            binary_compatible: findings[i].binary_compatible,
            source_compatible: findings[i].source_compatible,
        };
        insert_finding_exec(&mut sorted, f);
        i = i + 1;
    }
    assert(all.take(i as int) =~= all);
    let ghost ss = findings_view(sorted@);
    let mut out: Vec<Finding> = Vec::new();
    let mut k: usize = 0;
    assert(ss.take(0) =~= seq![]);
    assert(findings_view(out@) =~= seq![]);
    while k < sorted.len()
        invariant
            0 <= k <= sorted@.len(),
            ss == findings_view(sorted@),
            findings_view(out@) == deduplicated(ss.take(k as int)),
        decreases sorted@.len() - k,
    {
        assert(ss.take(k + 1).drop_last() =~= ss.take(k as int));
        assert(ss.take(k + 1).last() == finding_view(sorted@[k as int]));
        let ghost before = findings_view(out@);
        let keep = if out.len() == 0 {
            true
        } else {
            let last = out.len() - 1;
            !same_finding(&out[last], &sorted[k])
        };
        proof {
            if k > 0 {
                lemma_deduplicated_nonempty(ss.take(k as int));
            } else {
                assert(ss.take(1) =~= seq![ss[0]]);
            }
        }
        if keep {
            let f = Finding {
                symbol: crate::text::string_of(crate::text::chars_of(sorted[k].symbol.as_str()).as_slice()),
                change: crate::text::string_of(crate::text::chars_of(sorted[k].change.as_str()).as_slice()),
                binary_compatible: sorted[k].binary_compatible,
                source_compatible: sorted[k].source_compatible,
            };
            out.push(f);
            assert(findings_view(out@) =~= before.push(ss[k as int]));
        }
        k = k + 1;
    }
    assert(ss.take(k as int) =~= ss);
    out
}

} // verus!

verus! {

/// The plain values of a comparison.
pub open spec fn comparison_view(c: Comparison) -> ComparisonView {
    ComparisonView {
        classes_compared: c.classes_compared as nat,
        binary: c.binary_compatible,
        source: c.source_compatible,
        findings: findings_view(c.findings@),
    }
}

fn same_set(a: &Vec<Vec<char>>, b: &Vec<String>) -> (res: bool)
    ensures
        res == (crate::text::views(a@).to_set() == crate::reports::sarif_locations::string_views(b@).to_set()),
{
    let ghost av = crate::text::views(a@);
    let ghost bv = crate::reports::sarif_locations::string_views(b@);
    let mut i: usize = 0;
    while i < a.len()
        invariant
            0 <= i <= a@.len(),
            av == crate::text::views(a@),
            bv == crate::reports::sarif_locations::string_views(b@),
            forall|j: int| 0 <= j < i ==> bv.contains(#[trigger] av[j]),
        decreases a@.len() - i,
    {
        if !contains_text(b, &a[i]) {
            assert(av.to_set().contains(av[i as int]));
            assert(!bv.to_set().contains(av[i as int]));
            return false;
        }
        i = i + 1;
    }
    let mut j: usize = 0;
    while j < b.len()
        invariant
            0 <= j <= b@.len(),
            av == crate::text::views(a@),
            bv == crate::reports::sarif_locations::string_views(b@),
            forall|k: int| 0 <= k < a@.len() ==> bv.contains(#[trigger] av[k]),
            forall|k: int| 0 <= k < j ==> av.contains(#[trigger] bv[k]),
        decreases b@.len() - j,
    {
        let c = crate::text::chars_of(b[j].as_str());
        if !seen_contains(a, &c) {
            assert(bv.to_set().contains(bv[j as int]));
            assert(!av.to_set().contains(bv[j as int]));
            return false;
        }
        j = j + 1;
    }
    assert(av.to_set() =~= bv.to_set()) by {
        assert forall|x: Seq<char>| av.to_set().contains(x) implies bv.to_set().contains(x) by {
            let k = choose|k: int| 0 <= k < av.len() && av[k] == x;
            assert(bv.contains(av[k]));
        }
        assert forall|x: Seq<char>| bv.to_set().contains(x) implies av.to_set().contains(x) by {
            let k = choose|k: int| 0 <= k < bv.len() && bv[k] == x;
            assert(av.contains(bv[k]));
        }
    }
    true
}

/// Compare two archives by the japicmp report `bytes`: the report must be an
/// unfiltered comparison of `old` and `new` covering exactly the classes
/// `expected_classes`; its incompatible changes at `level` are the findings.
#[verifier::loop_isolation(false)]
pub fn parse(
    bytes: &[u8],
    old: &str,
    new: &str,
    expected_classes: &Vec<String>,
    level: CompatibilityLevel,
) -> (res: Result<Comparison, CompatibilityError>)
    ensures
        match compare_outcome(
            bytes@,
            old@,
            new@,
            crate::reports::sarif_locations::string_views(expected_classes@).to_set(),
            level,
        ) {
            Ok(c) => res matches Ok(r) && comparison_view(r) == c,
            Err(e) => res is Err && res->Err_0 == e,
        },
{
    if bytes.len() > crate::reports::MAX_REPORT_BYTES {
        return Err(CompatibilityError::ReportTooLarge);
    }
    let text = match crate::text::text_of_bytes(bytes) {
        None => return Err(CompatibilityError::NotUtf8),
        Some(t) => t,
    };
    proof {
        vstd::utf8::encode_utf8_decode_utf8(text@);
    }
    let nodes = match crate::xml::parse_xml(text, u32::MAX) {
        None => return Err(CompatibilityError::InvalidXml),
        Some(n) => n,
    };
    if !crate::xml::check_well_formed(&nodes) {
        return Err(CompatibilityError::InvalidXml);
    }
    let r = match crate::xml::find_root_element(&nodes) {
        None => return Err(CompatibilityError::InvalidXml),
        Some(r) => r,
    };
    if let Some(e) = header_check(&nodes[r], old, new) {
        return Err(e);
    }
    let inventories = children_exec(&nodes, r, "classes");
    if inventories.len() != 1 {
        return Err(CompatibilityError::ClassInventory);
    }
    let entries = children_exec(&nodes, inventories[0], "");
    proof {
        reveal_strlit("");
        assert(""@ =~= seq![]);
        assert(indices(inventories@)[0] == inventories@[0] as int);
    }
    let ghost es = indices(entries@);
    let ghost start = CompareState { seen: seq![], findings: seq![], binary: true, source: true };
    let mut seen: Vec<Vec<char>> = Vec::new();
    let mut findings: Vec<Finding> = Vec::new();
    let mut binary = true;
    let mut source = true;
    let mut i: usize = 0;
    assert(es.skip(0) =~= es);
    assert(crate::text::views(seen@) =~= seq![]);
    assert(findings_view(findings@) =~= seq![]);
    assert(state_of(seen@, findings@, binary, source) =~= start);
    while i < entries.len()
        invariant
            0 <= i <= entries@.len(),
            es == indices(entries@),
            forall|q: int| 0 <= q < entries@.len() ==> entries@[q] < nodes@.len(),
            classes_scan(nodes@, es, level, start) == classes_scan(
                nodes@,
                es.skip(i as int),
                level,
                state_of(seen@, findings@, binary, source),
            ),
        decreases entries@.len() - i,
    {
        assert(es.skip(i as int).drop_first() =~= es.skip(i + 1));
        assert(es.skip(i as int)[0] == entries@[i as int] as int);
        class_exec(&nodes, entries[i], level, &mut seen, &mut findings, &mut binary, &mut source)?;
        i = i + 1;
    }
    assert(es.skip(i as int) =~= seq![]);
    if seen.len() == 0 || !same_set(&seen, expected_classes) {
        return Err(CompatibilityError::IncompleteInventory);
    }
    let compared = seen.len();
    let ordered = ordered_findings(findings);
    Ok(Comparison {
        classes_compared: compared,
        binary_compatible: binary,
        source_compatible: source,
        findings: ordered,
    })
}

} // verus!

verus! {

/// The member changes of a class only add findings, and add none when the
/// class's own flags meet the level.
proof fn lemma_members_scan_grows(
    nodes: Seq<XmlNode>,
    class: Seq<char>,
    b: bool,
    s: bool,
    level: CompatibilityLevel,
    ds: Seq<int>,
    fs: Seq<FindingView>,
)
    ensures
        members_scan(nodes, class, b, s, level, ds, fs) matches Ok(r) ==> {
            &&& r.len() >= fs.len()
            &&& !incompatible(b, s, level) ==> r == fs
        },
    decreases ds.len(),
{
    if ds.len() > 0 {
        let node = nodes[ds[0]];
        if attribute(node, "binaryCompatible"@) is None && attribute(node, "sourceCompatible"@) is None {
            lemma_members_scan_grows(nodes, class, b, s, level, ds.drop_first(), fs);
        } else {
            match (boolean(node, "binaryCompatible"@), boolean(node, "sourceCompatible"@)) {
                (Ok(cb), Ok(cs)) => {
                    if !((b && !cb) || (s && !cs)) {
                        if has_tag(node, "compatibilityChange"@) && incompatible(cb, cs, level) {
                            match (required(node, "type"@), symbol_of(nodes, ds[0], class)) {
                                (Ok(change), Ok(sym)) => {
                                    lemma_members_scan_grows(
                                        nodes,
                                        class,
                                        b,
                                        s,
                                        level,
                                        ds.drop_first(),
                                        fs.push(FindingView { symbol: sym, change, binary: cb, source: cs }),
                                    );
                                },
                                _ => {},
                            }
                        } else {
                            lemma_members_scan_grows(nodes, class, b, s, level, ds.drop_first(), fs);
                        }
                    }
                },
                _ => {},
            }
        }
    }
}

/// A class entry breaks the required level exactly by its own flags: at
/// `Binary` when it is not binary compatible, at `Source` when it is not
/// source compatible, at `Both` when it is not either; such a class adds at
/// least one finding, whatever its other flag, and a class that meets the
/// level adds none.
pub proof fn class_findings_follow_level(nodes: Seq<XmlNode>, c: int, level: CompatibilityLevel, state: CompareState)
    ensures
        class_step(nodes, c, level, state) matches Ok(next) ==> {
            &&& boolean(nodes[c], "binaryCompatible"@) matches Ok(b)
            &&& boolean(nodes[c], "sourceCompatible"@) matches Ok(s)
            &&& ((level == CompatibilityLevel::Binary && !b) || (level == CompatibilityLevel::Source && !s) || (level
                == CompatibilityLevel::Both && (!b || !s))) ==> next.findings.len() > state.findings.len()
            &&& ((level == CompatibilityLevel::Binary && b) || (level == CompatibilityLevel::Source && s) || (level
                == CompatibilityLevel::Both && b && s)) ==> next.findings == state.findings
        },
{
    let node = nodes[c];
    if class_step(nodes, c, level, state) is Ok {
        let name = required(node, "fullyQualifiedName"@)->Ok_0;
        let b = boolean(node, "binaryCompatible"@)->Ok_0;
        let s = boolean(node, "sourceCompatible"@)->Ok_0;
        lemma_members_scan_grows(nodes, name, b, s, level, descendants(nodes, c), state.findings);
    }
}

} // verus!

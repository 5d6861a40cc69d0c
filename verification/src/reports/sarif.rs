//! The self-contained SARIF 2.1.0 profile: runs, rules, messages and locations are
//! resolved inside the document, without file system or network access.

use vstd::prelude::*;
use crate::json::{as_bool, as_str, as_u64, index, member, Json};
use crate::text::blank;
use super::json_text::{issue_bytes, text_bytes};
use super::diagnostics::{IssueModel, LocationModel, RunModel};
use super::sarif_locations::{agrees, distinct_keys, extends, locations, locations_outcome, NativePaths, PathCache};
use super::{Issue, SarifRun, Data};

verus! {

/// Why a SARIF log was refused.
#[derive(Debug, Clone, Copy, PartialEq, Eq, Structural)]
pub enum SarifError {
    /// The text is not JSON.
    Malformed,
    /// A value has the wrong JSON type.
    InvalidType,
    /// A text member is empty, blank or holds NUL.
    InvalidText,
    /// A required text member is missing.
    MissingText,
    /// The log is not SARIF 2.1.0.
    UnsupportedVersion,
    /// The log carries inline external properties.
    InlineExternalProperties,
    /// The log has no run.
    NoRuns,
    /// An invocation lacks successful execution evidence.
    NoExecutionEvidence,
    /// A notification has an unknown level.
    InvalidNotificationLevel,
    /// The analyzer reported an execution or configuration error.
    AnalyzerError,
    /// A run refers to external property files.
    ExternalProperties,
    /// A run or result is baselined against an unbound baseline.
    Baselined,
    /// A run has no explicit results array.
    MissingResults,
    /// A run has more than 50000 results.
    TooManyResults,
    /// Two rules share an identifier.
    DuplicateRule,
    /// A result has an unknown level.
    InvalidLevel,
    /// A non-failing result carries a violation severity.
    NonFailingSeverity,
    /// A result is still open or under review.
    UnresolvedResult,
    /// A result kind that the profile does not know.
    UnsupportedKind,
    /// A suppression of unknown kind.
    InvalidSuppressionKind,
    /// A suppression of unknown status.
    InvalidSuppressionStatus,
    /// The normalized results exceed 16 MiB.
    ExpandedTooLarge,
    /// A result has no message.
    MissingMessage,
    /// A message identifier that no message string defines.
    UnresolvedMessage,
    /// A message without text.
    NoMessageText,
    /// A message argument that is not a string.
    InvalidArgument,
    /// A message placeholder that is not `{n}`.
    InvalidPlaceholder,
    /// A placeholder without its argument.
    MissingArgument,
    /// A placeholder number that does not fit `usize`.
    PlaceholderTooLarge,
    /// A `}` that is neither escaped nor closes a placeholder.
    UnescapedBrace,
    /// An expanded message exceeds its byte budget.
    MessageTooLong,
    /// A rule reference to an extension.
    ExtensionRule,
    /// Rule identifiers that disagree.
    RuleIdMismatch,
    /// Rule indexes that disagree.
    RuleIndexMismatch,
    /// A rule index outside the rule table.
    RuleIndexOutOfBounds,
    /// A result with no rule identity.
    NoRuleIdentity,
    /// A rule index whose rule has another identifier.
    RuleIndexContradicts,
    /// More than 256 locations on one result.
    TooManyLocations,
    /// A location given as a binary address.
    BinaryAddress,
    /// Region coordinates that are not positive integers.
    InvalidRegion,
    /// A region that ends before it starts.
    RegionEndsBeforeStart,
    /// A location with neither a source file nor a symbol.
    NoLocation,
    /// References nested deeper than 32.
    TooDeep,
    /// The location resolution work budget ran out.
    WorkExhausted,
    /// A table index that is not an unsigned integer.
    InvalidIndex,
    /// A table index outside its table.
    IndexOutOfBounds,
    /// An artifact without a location.
    MissingArtifactLocation,
    /// A URI longer than 16 KiB.
    UriTooLong,
    /// A `%` not followed by two hexadecimal digits.
    InvalidPercentEscape,
    /// A URI with surrounding space, a backslash or a control character.
    NonPortableUri,
    /// A URI base identifier without a base table.
    MissingBaseTable,
    /// A URI base identifier that the base table does not define.
    UnresolvedBase,
    /// A URI that cannot be resolved.
    InvalidUrl,
    /// A URI that is not a local file URI without query or fragment.
    NotLocalFile,
    /// A relative URI that escapes the source root.
    EscapesRoot,
    /// An artifact index that contradicts the URI beside it.
    IndexContradictsUri,
    /// An artifact location with neither a URI nor an index.
    NoUri,
    /// A URI whose decoded path is not UTF-8.
    InvalidUtf8Path,
    /// A URI whose decoded path holds a backslash, NUL, CR or LF.
    UnsafePath,
    /// A file URI that the platform cannot turn into a UTF-8 path.
    InvalidFilePath,
    /// A relative URI whose path is not below the relative root.
    InvalidRelativePath,
    /// A location whose source path is empty or unsafe.
    NoSourcePath,
    /// A logical location index that contradicts its name.
    LogicalContradiction,
}

/// The array member `key` (empty when absent).
pub open spec fn array_of(v: Json, key: Seq<char>) -> Result<Seq<Json>, SarifError> {
    match member(v, key) {
        None => Ok(seq![]),
        Some(Json::Array(items)) => Ok(items@),
        Some(_) => Err(SarifError::InvalidType),
    }
}

/// The optional text member `key`: a string that is not blank and holds no NUL.
pub open spec fn optional_text(v: Json, key: Seq<char>) -> Result<Option<Seq<char>>, SarifError> {
    match member(v, key) {
        None => Ok(None),
        Some(x) => match as_str(x) {
            None => Err(SarifError::InvalidType),
            Some(t) => if blank(t) || t.contains('\0') {
                Err(SarifError::InvalidText)
            } else {
                Ok(Some(t))
            },
        },
    }
}

/// The required text member `key`.
pub open spec fn required_text(v: Json, key: Seq<char>) -> Result<Seq<char>, SarifError> {
    match optional_text(v, key) {
        Err(e) => Err(e),
        Ok(None) => Err(SarifError::MissingText),
        Ok(Some(t)) => Ok(t),
    }
}

/// A JSON number that is an exact signed integer.
pub open spec fn as_signed(v: Json) -> Option<i64> {
    match v {
        Json::Number(n) => n.signed,
        _ => None,
    }
}

/// A table index member: absent or `-1` means none.
pub open spec fn table_index(v: Json, key: Seq<char>) -> Result<Option<usize>, SarifError> {
    match member(v, key) {
        None => Ok(None),
        Some(x) => if as_signed(x) == Some(-1i64) {
            Ok(None)
        } else {
            match as_u64(x) {
                None => Err(SarifError::InvalidIndex),
                Some(n) => if n > usize::MAX {
                    Err(SarifError::InvalidIndex)
                } else {
                    Ok(Some(n as usize))
                },
            }
        },
    }
}

/// Entry `i` of table `table` of the run.
pub open spec fn table_entry(run: Json, table: Seq<char>, i: usize) -> Result<Json, SarifError> {
    match array_of(run, table) {
        Err(e) => Err(e),
        Ok(items) => if i < items.len() {
            Ok(items[i as int])
        } else {
            Err(SarifError::IndexOutOfBounds)
        },
    }
}

/// Most references followed from one location.
pub const MAX_DEPTH: usize = 32;

/// One step of location resolution: the depth limit, then one unit of the work budget.
pub open spec fn step(depth: int, budget: int) -> Result<int, SarifError> {
    if depth > MAX_DEPTH {
        Err(SarifError::TooDeep)
    } else if budget < 1 {
        Err(SarifError::WorkExhausted)
    } else {
        Ok(budget - 1)
    }
}

} // verus!

verus! {

/// The array member `key` of `v`, empty when absent.
pub(crate) fn array_at<'a>(v: &'a Json, key: &str, empty: &'a Vec<Json>) -> (res: Result<&'a Vec<Json>, SarifError>)
    requires
        empty@.len() == 0,
    ensures
        match array_of(*v, key@) {
            Ok(items) => res matches Ok(x) && x@ == items,
            Err(e) => res == Err::<&Vec<Json>, SarifError>(e),
        },
{
    match crate::json::get(v, key) {
        None => Ok(empty),
        Some(Json::Array(items)) => Ok(items),
        Some(_) => Err(SarifError::InvalidType),
    }
}

/// The array member `key` of `v`, if present.
pub(crate) fn array_member<'a>(v: &'a Json, key: &str) -> (res: Result<Option<&'a Vec<Json>>, SarifError>)
    ensures
        match array_of(*v, key@) {
            Ok(items) => res matches Ok(x) && match x {
                Some(a) => a@ == items,
                None => items.len() == 0,
            },
            Err(e) => res == Err::<Option<&Vec<Json>>, SarifError>(e),
        },
{
    match crate::json::get(v, key) {
        None => Ok(None),
        Some(Json::Array(items)) => Ok(Some(items)),
        Some(_) => Err(SarifError::InvalidType),
    }
}

/// The optional text member `key` of `v`.
pub(crate) fn optional_text_at<'a>(v: &'a Json, key: &str) -> (res: Result<Option<&'a String>, SarifError>)
    ensures
        match optional_text(*v, key@) {
            Ok(t) => res matches Ok(x) && t == match x {
                Some(s) => Some(s@),
                None => None,
            },
            Err(e) => res == Err::<Option<&String>, SarifError>(e),
        },
{
    match crate::json::get(v, key) {
        None => Ok(None),
        Some(Json::Str(s)) => {
            let c = crate::text::chars_of(s.as_str());
            if crate::text::is_blank(&c) || crate::text::contains_char(&c, '\0') {
                Err(SarifError::InvalidText)
            } else {
                Ok(Some(s))
            }
        },
        Some(_) => Err(SarifError::InvalidType),
    }
}

/// The required text member `key` of `v`.
pub(crate) fn text_at<'a>(v: &'a Json, key: &str) -> (res: Result<&'a String, SarifError>)
    ensures
        match required_text(*v, key@) {
            Ok(t) => res matches Ok(x) && x@ == t,
            Err(e) => res == Err::<&String, SarifError>(e),
        },
{
    match optional_text_at(v, key)? {
        Some(s) => Ok(s),
        None => Err(SarifError::MissingText),
    }
}

/// The table index member `key` of `v`.
pub(crate) fn index_at(v: &Json, key: &str) -> (res: Result<Option<usize>, SarifError>)
    ensures
        res == table_index(*v, key@),
{
    match crate::json::get(v, key) {
        None => Ok(None),
        Some(x) => match x {
            Json::Number(n) => {
                if n.signed == Some(-1i64) {
                    return Ok(None);
                }
                match n.unsigned {
                    None => Err(SarifError::InvalidIndex),
                    Some(u) => if u > usize::MAX as u64 {
                        Err(SarifError::InvalidIndex)
                    } else {
                        Ok(Some(u as usize))
                    },
                }
            },
            _ => Err(SarifError::InvalidIndex),
        },
    }
}

/// Entry `i` of table `table` of the run.
pub(crate) fn entry_at<'a>(run: &'a Json, table: &str, i: usize) -> (res: Result<&'a Json, SarifError>)
    ensures
        match table_entry(*run, table@, i) {
            Ok(e) => res matches Ok(x) && *x == e,
            Err(e) => res == Err::<&Json, SarifError>(e),
        },
{
    match crate::json::get(run, table) {
        None => Err(SarifError::IndexOutOfBounds),
        Some(Json::Array(items)) => if i < items.len() {
            Ok(&items[i])
        } else {
            Err(SarifError::IndexOutOfBounds)
        },
        Some(_) => Err(SarifError::InvalidType),
    }
}

/// Take one step of location resolution.
pub fn step_exec(depth: usize, budget: &mut usize) -> (res: Result<(), SarifError>)
    ensures
        match step(depth as int, *old(budget) as int) {
            Ok(left) => res is Ok && *final(budget) == left,
            Err(e) => res == Err::<(), SarifError>(e),
        },
{
    if depth > MAX_DEPTH {
        return Err(SarifError::TooDeep);
    }
    if *budget < 1 {
        return Err(SarifError::WorkExhausted);
    }
    *budget = *budget - 1;
    Ok(())
}

} // verus!

verus! {

/// The `tool.driver` object of a run (`null` when missing).
pub open spec fn driver(run: Json) -> Json {
    crate::json::index(crate::json::index(run, "tool"@), "driver"@)
}

/// One of the four notification and result levels.
pub open spec fn known_level(level: Seq<char>) -> bool {
    level == "none"@ || level == "note"@ || level == "warning"@ || level == "error"@
}

/// Why a tool notification refutes the run, if it does: an unknown level, an
/// `error` level (the default is `warning`), or an exception.
pub open spec fn notification_error(n: Json) -> Option<SarifError> {
    if !(n is Object) {
        Some(SarifError::InvalidType)
    } else {
        match optional_text(n, "level"@) {
            Err(e) => Some(e),
            Ok(l) => {
                let level = match l {
                    Some(t) => t,
                    None => "warning"@,
                };
                if !known_level(level) {
                    Some(SarifError::InvalidNotificationLevel)
                } else if level == "error"@ || member(n, "exception"@) is Some {
                    Some(SarifError::AnalyzerError)
                } else {
                    None
                }
            },
        }
    }
}

/// The error of the first refuting notification.
pub open spec fn first_notification_error(ns: Seq<Json>) -> Option<SarifError>
    decreases ns.len(),
{
    if ns.len() == 0 {
        None
    } else {
        match notification_error(ns[0]) {
            Some(e) => Some(e),
            None => first_notification_error(ns.drop_first()),
        }
    }
}

/// Why an invocation refutes the run, if it does: no evidence of successful
/// execution, or a refuting execution or configuration notification.
pub open spec fn invocation_error(inv: Json) -> Option<SarifError> {
    if !(inv is Object) {
        Some(SarifError::InvalidType)
    } else if as_bool(crate::json::index(inv, "executionSuccessful"@)) != Some(true) {
        Some(SarifError::NoExecutionEvidence)
    } else {
        match array_of(inv, "toolExecutionNotifications"@) {
            Err(e) => Some(e),
            Ok(ns) => match first_notification_error(ns) {
                Some(e) => Some(e),
                None => match array_of(inv, "toolConfigurationNotifications"@) {
                    Err(e) => Some(e),
                    Ok(cs) => first_notification_error(cs),
                },
            },
        }
    }
}

/// The error of the first refuting invocation.
pub open spec fn first_invocation_error(invs: Seq<Json>) -> Option<SarifError>
    decreases invs.len(),
{
    if invs.len() == 0 {
        None
    } else {
        match invocation_error(invs[0]) {
            Some(e) => Some(e),
            None => first_invocation_error(invs.drop_first()),
        }
    }
}

/// Why a run is not a complete, fresh, self-contained analysis, if it is not.
pub open spec fn run_evidence_error(run: Json) -> Option<SarifError> {
    match array_of(run, "invocations"@) {
        Err(e) => Some(e),
        Ok(invs) => match first_invocation_error(invs) {
            Some(e) => Some(e),
            None => match member(run, "externalPropertyFileReferences"@) {
                Some(r) if !(r is Object) => Some(SarifError::InvalidType),
                Some(r) if r->Object_0@.len() > 0 => Some(SarifError::ExternalProperties),
                _ => if member(run, "baselineGuid"@) is Some {
                    Some(SarifError::Baselined)
                } else {
                    None
                },
            },
        },
    }
}

fn text_is_str(s: &String, lit: &str) -> (res: bool)
    ensures
        res == (s@ == lit@),
{
    let c = crate::text::chars_of(s.as_str());
    crate::text::text_is(&c, lit)
}

fn notification_check(n: &Json) -> (res: Option<SarifError>)
    ensures
        res == notification_error(*n),
{
    proof {
        reveal_strlit("warning");
        reveal_strlit("none");
        reveal_strlit("note");
        reveal_strlit("error");
    }
    match n {
        Json::Object(_) => {},
        _ => return Some(SarifError::InvalidType),
    }
    let level = match optional_text_at(n, "level") {
        Err(e) => return Some(e),
        Ok(l) => l,
    };
    let (known, error) = match level {
        Some(t) => {
            let k = text_is_str(t, "none") || text_is_str(t, "note") || text_is_str(t, "warning")
                || text_is_str(t, "error");
            (k, text_is_str(t, "error"))
        },
        None => (true, false),
    };
    if !known {
        return Some(SarifError::InvalidNotificationLevel);
    }
    if error || crate::json::get(n, "exception").is_some() {
        return Some(SarifError::AnalyzerError);
    }
    assert("warning"@.len() == 7 && "error"@.len() == 5);
    None
}

fn notifications_check(ns: &Vec<Json>) -> (res: Option<SarifError>)
    ensures
        res == first_notification_error(ns@),
{
    let mut i: usize = 0;
    assert(ns@.skip(0) =~= ns@);
    while i < ns.len()
        invariant
            0 <= i <= ns@.len(),
            first_notification_error(ns@) == first_notification_error(ns@.skip(i as int)),
        decreases ns@.len() - i,
    {
        assert(ns@.skip(i as int).drop_first() =~= ns@.skip(i + 1));
        assert(ns@.skip(i as int)[0] == ns@[i as int]);
        if let Some(e) = notification_check(&ns[i]) {
            return Some(e);
        }
        i = i + 1;
    }
    assert(ns@.skip(i as int) =~= seq![]);
    None
}

fn invocation_check(inv: &Json) -> (res: Option<SarifError>)
    ensures
        res == invocation_error(*inv),
{
    match inv {
        Json::Object(_) => {},
        _ => return Some(SarifError::InvalidType),
    }
    if crate::json::bool_at(inv, "executionSuccessful") != Some(true) {
        return Some(SarifError::NoExecutionEvidence);
    }
    let empty: Vec<Json> = Vec::new();
    match array_at(inv, "toolExecutionNotifications", &empty) {
        Err(e) => return Some(e),
        Ok(ns) => if let Some(e) = notifications_check(ns) {
            return Some(e);
        },
    }
    match array_at(inv, "toolConfigurationNotifications", &empty) {
        Err(e) => Some(e),
        Ok(cs) => notifications_check(cs),
    }
}

/// Why `run` is not a complete, fresh, self-contained analysis, if it is not.
pub fn run_evidence_check(run: &Json) -> (res: Option<SarifError>)
    ensures
        res == run_evidence_error(*run),
{
    let empty: Vec<Json> = Vec::new();
    let invs = match array_at(run, "invocations", &empty) {
        Err(e) => return Some(e),
        Ok(v) => v,
    };
    let mut i: usize = 0;
    assert(invs@.skip(0) =~= invs@);
    while i < invs.len()
        invariant
            0 <= i <= invs@.len(),
            array_of(*run, "invocations"@) == Ok::<Seq<Json>, SarifError>(invs@),
            first_invocation_error(invs@) == first_invocation_error(invs@.skip(i as int)),
        decreases invs@.len() - i,
    {
        assert(invs@.skip(i as int).drop_first() =~= invs@.skip(i + 1));
        assert(invs@.skip(i as int)[0] == invs@[i as int]);
        if let Some(e) = invocation_check(&invs[i]) {
            return Some(e);
        }
        i = i + 1;
    }
    assert(invs@.skip(i as int) =~= seq![]);
    match crate::json::get(run, "externalPropertyFileReferences") {
        Some(r) => match r {
            Json::Object(members) => if members.len() > 0 {
                return Some(SarifError::ExternalProperties);
            },
            _ => return Some(SarifError::InvalidType),
        },
        None => {},
    }
    if crate::json::get(run, "baselineGuid").is_some() {
        Some(SarifError::Baselined)
    } else {
        None
    }
}

} // verus!

verus! {

/// Why the rule table is refused, if it is: a rule that is not an object, has no
/// identifier, or repeats an earlier identifier.
pub open spec fn rule_table_error(rules: Seq<Json>) -> Option<SarifError>
    decreases rules.len(),
{
    if rules.len() == 0 {
        None
    } else {
        match rule_table_error(rules.drop_last()) {
            Some(e) => Some(e),
            None => rule_entry_error(rules.last(), rules.drop_last()),
        }
    }
}

/// Why rule `rule`, after the rules `earlier`, is refused, if it is.
pub open spec fn rule_entry_error(rule: Json, earlier: Seq<Json>) -> Option<SarifError> {
    if !(rule is Object) {
        Some(SarifError::InvalidType)
    } else {
        match required_text(rule, "id"@) {
            Err(e) => Some(e),
            Ok(id) => if exists|j: int| 0 <= j < earlier.len() && #[trigger] required_text(earlier[j], "id"@) == Ok::<Seq<char>, SarifError>(id) {
                Some(SarifError::DuplicateRule)
            } else {
                None
            },
        }
    }
}

/// The first rule whose identifier is `id`.
pub open spec fn rule_by_id(rules: Seq<Json>, id: Seq<char>) -> Option<Json>
    decreases rules.len(),
{
    if rules.len() == 0 {
        None
    } else if required_text(rules[0], "id"@) == Ok::<Seq<char>, SarifError>(id) {
        Some(rules[0])
    } else {
        rule_by_id(rules.drop_first(), id)
    }
}

/// Check the rule table of a driver.
pub fn rule_table_check(rules: &Vec<Json>) -> (res: Option<SarifError>)
    ensures
        res == rule_table_error(rules@),
{
    let mut ids: Vec<Vec<char>> = Vec::new();
    let mut i: usize = 0;
    assert(rules@.take(0) =~= seq![]);
    while i < rules.len()
        invariant
            0 <= i <= rules@.len(),
            ids@.len() == i,
            rule_table_error(rules@.take(i as int)) is None,
            forall|j: int| 0 <= j < i ==> required_text(rules@[j], "id"@) == Ok::<Seq<char>, SarifError>(#[trigger] ids@[j]@),
        decreases rules@.len() - i,
    {
        let ghost pre = rules@.take(i as int);
        assert(rules@.take(i + 1).drop_last() =~= pre);
        assert(rules@.take(i + 1).last() == rules@[i as int]);
        let rule = &rules[i];
        match rule {
            Json::Object(_) => {},
            _ => {
                proof { lemma_rule_table_error_extends(rules@, i as int + 1); }
                return Some(SarifError::InvalidType);
            },
        }
        let id = match text_at(rule, "id") {
            Err(e) => {
                proof { lemma_rule_table_error_extends(rules@, i as int + 1); }
                return Some(e);
            },
            Ok(t) => crate::text::chars_of(t.as_str()),
        };
        let mut j: usize = 0;
        while j < i
            invariant
                0 <= j <= i,
                i < rules@.len(),
                ids@.len() == i,
                pre == rules@.take(i as int),
                forall|k: int| 0 <= k < i ==> required_text(rules@[k], "id"@) == Ok::<Seq<char>, SarifError>(#[trigger] ids@[k]@),
                forall|k: int| 0 <= k < j ==> ids@[k]@ != id@,
                required_text(rules@[i as int], "id"@) == Ok::<Seq<char>, SarifError>(id@),
                rules@[i as int] is Object,
                rule_table_error(pre) is None,
                rules@.take(i + 1).drop_last() == pre,
                rules@.take(i + 1).last() == rules@[i as int],
            decreases i - j,
        {
            if crate::text::chars_equal(&ids[j], &id) {
                assert(pre[j as int] == rules@[j as int]);
                assert(required_text(pre[j as int], "id"@) == Ok::<Seq<char>, SarifError>(id@));
                proof { lemma_rule_table_error_extends(rules@, i as int + 1); }
                return Some(SarifError::DuplicateRule);
            }
            j = j + 1;
        }
        assert forall|k: int| 0 <= k < pre.len() implies #[trigger] required_text(pre[k], "id"@) != Ok::<Seq<char>, SarifError>(id@) by {
            assert(pre[k] == rules@[k]);
            assert(ids@[k]@ != id@);
            assert(required_text(rules@[k], "id"@) == Ok::<Seq<char>, SarifError>(ids@[k]@));
        }
        ids.push(id);
        i = i + 1;
    }
    assert(rules@.take(i as int) =~= rules@);
    None
}

/// An error in a prefix of the rule table is the error of every longer prefix.
proof fn lemma_rule_table_error_extends(rules: Seq<Json>, k: int)
    requires
        0 <= k <= rules.len(),
    ensures
        rule_table_error(rules.take(k)) is Some ==> rule_table_error(rules) == rule_table_error(rules.take(k)),
    decreases rules.len() - k,
{
    if k < rules.len() {
        lemma_rule_table_error_extends(rules, k + 1);
        assert(rules.take(k + 1).drop_last() =~= rules.take(k));
    } else {
        assert(rules.take(k) =~= rules);
    }
}

/// The rule with identifier `id`.
fn rule_by_id_exec<'a>(rules: &'a Vec<Json>, id: &Vec<char>) -> (res: Option<&'a Json>)
    ensures
        match rule_by_id(rules@, id@) {
            Some(r) => res matches Some(x) && *x == r,
            None => res is None,
        },
{
    let mut i: usize = 0;
    assert(rules@.skip(0) =~= rules@);
    while i < rules.len()
        invariant
            0 <= i <= rules@.len(),
            rule_by_id(rules@, id@) == rule_by_id(rules@.skip(i as int), id@),
        decreases rules@.len() - i,
    {
        assert(rules@.skip(i as int).drop_first() =~= rules@.skip(i + 1));
        assert(rules@.skip(i as int)[0] == rules@[i as int]);
        match text_at(&rules[i], "id") {
            Ok(t) => {
                let c = crate::text::chars_of(t.as_str());
                if crate::text::chars_equal(&c, id) {
                    return Some(&rules[i]);
                }
            },
            Err(_) => {},
        }
        i = i + 1;
    }
    None
}

/// The rule identity of a result and its descriptor: the `ruleId`, the `rule`
/// reference and the rule index must agree with each other and with the table.
pub open spec fn rule_of(run: Json, issue: Json) -> Result<(Seq<char>, Option<Json>), SarifError> {
    let reference = member(issue, "rule"@);
    if reference matches Some(r) && !(r is Object) {
        Err(SarifError::InvalidType)
    } else if reference matches Some(r) && member(r, "toolComponent"@) is Some {
        Err(SarifError::ExtensionRule)
    } else {
        match optional_text(issue, "ruleId"@) {
            Err(e) => Err(e),
            Ok(outer_id) => match (match reference {
                None => Ok(None),
                Some(r) => optional_text(r, "id"@),
            }) {
                Err(e) => Err(e),
                Ok(inner_id) => if outer_id is Some && inner_id is Some && outer_id != inner_id {
                    Err(SarifError::RuleIdMismatch)
                } else {
                    match table_index(issue, "ruleIndex"@) {
                        Err(e) => Err(e),
                        Ok(outer_index) => match (match reference {
                            None => Ok(None),
                            Some(r) => table_index(r, "index"@),
                        }) {
                            Err(e) => Err(e),
                            Ok(inner_index) => if outer_index is Some && inner_index is Some
                                && outer_index != inner_index {
                                Err(SarifError::RuleIndexMismatch)
                            } else {
                                rule_from_table(run, outer_id, inner_id, if outer_index is Some {
                                    outer_index
                                } else {
                                    inner_index
                                })
                            },
                        },
                    }
                },
            },
        }
    }
}

/// The rule identity once the references agree: the descriptor at `chosen`, if
/// any, must carry the identity; without one, the table is searched by identity.
pub open spec fn rule_from_table(
    run: Json,
    outer_id: Option<Seq<char>>,
    inner_id: Option<Seq<char>>,
    chosen: Option<usize>,
) -> Result<(Seq<char>, Option<Json>), SarifError> {
    match array_of(driver(run), "rules"@) {
        Err(e) => Err(e),
        Ok(rules) => match (match chosen {
            None => Ok(None),
            Some(i) => if i < rules.len() {
                Ok(Some(rules[i as int]))
            } else {
                Err(SarifError::RuleIndexOutOfBounds)
            },
        }) {
            Err(e) => Err(e),
            Ok(descriptor) => match (match descriptor {
                None => Ok(None),
                Some(d) => match required_text(d, "id"@) {
                    Err(e) => Err(e),
                    Ok(t) => Ok(Some(t)),
                },
            }) {
                Err(e) => Err(e),
                Ok(descriptor_id) => {
                    let id = if outer_id is Some {
                        outer_id
                    } else if inner_id is Some {
                        inner_id
                    } else {
                        descriptor_id
                    };
                    match id {
                        None => Err(SarifError::NoRuleIdentity),
                        Some(id) => if descriptor_id is Some && descriptor_id->Some_0 != id {
                            Err(SarifError::RuleIndexContradicts)
                        } else if descriptor is Some {
                            Ok((id, descriptor))
                        } else {
                            Ok((id, rule_by_id(rules, id)))
                        },
                    }
                },
            },
        },
    }
}

fn same_opt_text(a: Option<&String>, b: Option<&String>) -> (res: bool)
    ensures
        res == ((match a { Some(s) => Some(s@), None => None }) == (match b { Some(s) => Some(s@), None => None })),
{
    match (a, b) {
        (Some(x), Some(y)) => {
            let xc = crate::text::chars_of(x.as_str());
            let yc = crate::text::chars_of(y.as_str());
            crate::text::chars_equal(&xc, &yc)
        },
        (None, None) => true,
        _ => false,
    }
}

/// The rule identity of result `issue` of `run`, and its descriptor.
pub fn rule<'a>(run: &'a Json, issue: &Json) -> (res: Result<(String, Option<&'a Json>), SarifError>)
    ensures
        match rule_of(*run, *issue) {
            Ok((id, d)) => res matches Ok((s, x)) && s@ == id && match d {
                Some(r) => x matches Some(y) && *y == r,
                None => x is None,
            },
            Err(e) => res is Err && res->Err_0 == e,
        },
{
    let reference = crate::json::get(issue, "rule");
    if let Some(r) = reference {
        match r {
            Json::Object(_) => {},
            _ => return Err(SarifError::InvalidType),
        }
        if crate::json::get(r, "toolComponent").is_some() {
            return Err(SarifError::ExtensionRule);
        }
    }
    let outer_id = optional_text_at(issue, "ruleId")?;
    let inner_id = match reference {
        None => None,
        Some(r) => optional_text_at(r, "id")?,
    };
    if outer_id.is_some() && inner_id.is_some() && !same_opt_text(outer_id, inner_id) {
        return Err(SarifError::RuleIdMismatch);
    }
    let outer_index = index_at(issue, "ruleIndex")?;
    let inner_index = match reference {
        None => None,
        Some(r) => index_at(r, "index")?,
    };
    if outer_index.is_some() && inner_index.is_some() && outer_index != inner_index {
        return Err(SarifError::RuleIndexMismatch);
    }
    let chosen = if outer_index.is_some() {
        outer_index
    } else {
        inner_index
    };
    let d = match crate::json::get(run, "tool") {
        Some(t) => crate::json::get(t, "driver"),
        None => None,
    };
    let ghost dj = driver(*run);
    let rules: Option<&'a Vec<Json>> = match d {
        Some(dv) => array_member(dv, "rules")?,
        None => {
            assert(dj == Json::Null);
            None
        },
    };
    let n = match rules {
        Some(v) => v.len(),
        None => 0,
    };
    let descriptor: Option<&'a Json> = match chosen {
        None => None,
        Some(i) => if i < n {
            match rules {
                Some(v) => Some(&v[i]),
                None => None,
            }
        } else {
            return Err(SarifError::RuleIndexOutOfBounds);
        },
    };
    let descriptor_id = match descriptor {
        None => None,
        Some(dr) => Some(text_at(dr, "id")?),
    };
    let id: &String = if let Some(o) = outer_id {
        o
    } else if let Some(n) = inner_id {
        n
    } else if let Some(di) = descriptor_id {
        di
    } else {
        return Err(SarifError::NoRuleIdentity);
    };
    if let Some(di) = descriptor_id {
        if !same_opt_text(Some(di), Some(id)) {
            return Err(SarifError::RuleIndexContradicts);
        }
    }
    let idc = crate::text::chars_of(id.as_str());
    let found = if descriptor.is_some() {
        descriptor
    } else {
        match rules {
            Some(v) => rule_by_id_exec(v, &idc),
            None => None,
        }
    };
    Ok((crate::text::string_of(idc.as_slice()), found))
}

} // verus!

verus! {

/// The message object of a result and its template: its own text, or the text
/// of the message string that its identifier names in the rule or the driver.
pub open spec fn message_template(run: Json, issue: Json, rule: Option<Json>) -> Result<
    (Json, Seq<char>),
    SarifError,
> {
    match member(issue, "message"@) {
        None => Err(SarifError::MissingMessage),
        Some(m) => if !(m is Object) {
            Err(SarifError::InvalidType)
        } else {
            match optional_text(m, "text"@) {
                Err(e) => Err(e),
                Ok(Some(t)) => Ok((m, t)),
                Ok(None) => match required_text(m, "id"@) {
                    Err(e) => Err(e),
                    Ok(id) => {
                        let descriptor = match rule {
                            None => None,
                            Some(r) => match member(r, "messageStrings"@) {
                                None => None,
                                Some(ms) => member(ms, id),
                            },
                        };
                        let global = match member(driver(run), "globalMessageStrings"@) {
                            None => None,
                            Some(g) => member(g, id),
                        };
                        match (if descriptor is Some {
                            descriptor
                        } else {
                            global
                        }) {
                            None => Err(SarifError::UnresolvedMessage),
                            Some(found) => match optional_text(found, "text"@) {
                                Err(e) => Err(e),
                                Ok(None) => Err(SarifError::NoMessageText),
                                Ok(Some(t)) => Ok((m, t)),
                            },
                        }
                    },
                },
            }
        },
    }
}

/// The text of a JSON string (empty for anything else).
pub open spec fn text_of(j: Json) -> Seq<char> {
    match j {
        Json::Str(s) => s@,
        _ => seq![],
    }
}

/// The arguments of a message: every one must be a string.
pub open spec fn arguments_of(m: Json) -> Result<Seq<Seq<char>>, SarifError> {
    match array_of(m, "arguments"@) {
        Err(e) => Err(e),
        Ok(items) => if exists|i: int| 0 <= i < items.len() && !(#[trigger] items[i] is Str) {
            Err(SarifError::InvalidArgument)
        } else {
            Ok(items.map_values(|j: Json| text_of(j)))
        },
    }
}

/// Number of decimal digits at the start of `s`.
pub open spec fn digit_run(s: Seq<char>) -> nat
    decreases s.len(),
{
    if s.len() > 0 && crate::text::is_digit(s[0]) {
        1 + digit_run(s.drop_first())
    } else {
        0
    }
}

/// One step of message expansion at the start of `t`: the output so far with
/// the next piece added, and how many template characters it took. `{{` and
/// `}}` are literal braces, `{n}` is argument `n`, and any other brace is refused.
pub open spec fn expand_step(t: Seq<char>, args: Seq<Seq<char>>, out: Seq<char>) -> Result<
    (Seq<char>, int),
    SarifError,
> {
    let c = t[0];
    if (c == '{' || c == '}') && t.len() > 1 && t[1] == c {
        Ok((out.push(c), 2))
    } else if c == '{' {
        let d = digit_run(t.drop_first()) as int;
        if d == 0 || !(1 + d < t.len() && t[1 + d] == '}') {
            Err(SarifError::InvalidPlaceholder)
        } else {
            match crate::text::parse_uint(t.subrange(1, 1 + d), usize::MAX as nat) {
                None => Err(SarifError::PlaceholderTooLarge),
                Some(n) => if n >= args.len() {
                    Err(SarifError::MissingArgument)
                } else {
                    Ok((out + args[n as int], d + 2))
                },
            }
        }
    } else if c == '}' {
        Err(SarifError::UnescapedBrace)
    } else {
        Ok((out.push(c), 1))
    }
}

/// Expand the rest `t` of a message template after output `out`; the output may
/// not exceed the byte budget after any step.
pub open spec fn expand(t: Seq<char>, args: Seq<Seq<char>>, out: Seq<char>) -> Result<Seq<char>, SarifError>
    decreases t.len(),
{
    if t.len() == 0 {
        Ok(out)
    } else {
        match expand_step(t, args, out) {
            Err(e) => Err(e),
            Ok((o, k)) => if text_bytes(o) > super::MAX_REPORT_BYTES {
                Err(SarifError::MessageTooLong)
            } else if 0 < k <= t.len() {
                expand(t.skip(k), args, o)
            } else {
                Ok(o)
            },
        }
    }
}

/// The expanded message of a result.
pub open spec fn message_outcome(run: Json, issue: Json, rule: Option<Json>) -> Result<Seq<char>, SarifError> {
    match message_template(run, issue, rule) {
        Err(e) => Err(e),
        Ok((m, t)) => match arguments_of(m) {
            Err(e) => Err(e),
            Ok(args) => expand(t, args, seq![]),
        },
    }
}

/// UTF-8 bytes add up over concatenation.
pub proof fn lemma_text_bytes_concat(a: Seq<char>, b: Seq<char>)
    ensures
        text_bytes(a + b) == text_bytes(a) + text_bytes(b),
    decreases b.len(),
{
    if b.len() > 0 {
        lemma_text_bytes_concat(a, b.drop_last());
        assert((a + b).drop_last() =~= a + b.drop_last());
        assert((a + b).last() == b.last());
    } else {
        assert(a + b =~= a);
    }
}

/// The leading digits of `s` counted by a scan that stops at `k`.
proof fn lemma_digit_run(s: Seq<char>, k: int)
    requires
        0 <= k <= s.len(),
        forall|j: int| 0 <= j < k ==> crate::text::is_digit(#[trigger] s[j]),
        k == s.len() || !crate::text::is_digit(s[k]),
    ensures
        digit_run(s) == k,
    decreases k,
{
    if k > 0 {
        let t = s.drop_first();
        assert forall|j: int| 0 <= j < k - 1 implies crate::text::is_digit(#[trigger] t[j]) by {
            assert(t[j] == s[j + 1]);
        }
        if k < s.len() {
            assert(t[k - 1] == s[k]);
        }
        lemma_digit_run(t, k - 1);
    }
}

fn arguments_exec(m: &Json) -> (res: Result<Vec<String>, SarifError>)
    ensures
        match arguments_of(*m) {
            Ok(a) => res matches Ok(v) && super::sarif_locations::string_views(v@) == a,
            Err(e) => res == Err::<Vec<String>, SarifError>(e),
        },
{
    let items = match array_member(m, "arguments")? {
        None => {
            let v: Vec<String> = Vec::new();
            proof {
                let items = array_of(*m, "arguments"@)->Ok_0;
                assert(items.map_values(|j: Json| text_of(j)) =~= seq![]);
                assert(super::sarif_locations::string_views(v@) =~= seq![]);
            }
            return Ok(v);
        },
        Some(items) => items,
    };
    let mut out: Vec<String> = Vec::new();
    let mut i: usize = 0;
    while i < items.len()
        invariant
            0 <= i <= items@.len(),
            array_of(*m, "arguments"@) == Ok::<Seq<Json>, SarifError>(items@),
            forall|j: int| 0 <= j < i ==> #[trigger] items@[j] is Str,
            super::sarif_locations::string_views(out@) =~= items@.take(i as int).map_values(|j: Json| text_of(j)),
        decreases items@.len() - i,
    {
        match &items[i] {
            Json::Str(s) => {
                let ghost before = out@;
                out.push(crate::text::string_of(crate::text::chars_of(s.as_str()).as_slice()));
                assert(items@.take(i + 1).map_values(|j: Json| text_of(j)) =~= items@.take(i as int).map_values(|j: Json| text_of(j)).push(text_of(items@[i as int])));
            },
            _ => {
                assert(!(items@[i as int] is Str));
                return Err(SarifError::InvalidArgument);
            },
        }
        i = i + 1;
    }
    assert(items@.take(i as int) =~= items@);
    Ok(out)
}

/// Expand template `t` with `args`.
fn expand_exec(t: &Vec<char>, args: &Vec<String>) -> (res: Result<String, SarifError>)
    ensures
        match expand(t@, super::sarif_locations::string_views(args@), seq![]) {
            Ok(o) => res matches Ok(s) && s@ == o,
            Err(e) => res == Err::<String, SarifError>(e),
        },
{
    let ghost a = super::sarif_locations::string_views(args@);
    let n = t.len();
    let mut out: Vec<char> = Vec::new();
    let mut bytes: u128 = 0;
    let mut p: usize = 0;
    assert(t@.skip(0) =~= t@);
    while p < n
        invariant
            0 <= p <= n,
            n == t@.len(),
            a == super::sarif_locations::string_views(args@),
            bytes == text_bytes(out@),
            bytes <= super::MAX_REPORT_BYTES,
            expand(t@, a, seq![]) == expand(t@.skip(p as int), a, out@),
        decreases n - p,
    {
        let ghost rest = t@.skip(p as int);
        assert(rest[0] == t@[p as int]);
        let c = t[p];
        let ghost before = out@;
        let k: usize;
        if (c == '{' || c == '}') && n - p > 1 && t[p + 1] == c {
            assert(rest[1] == t@[p + 1]);
            out.push(c);
            bytes = bytes + super::json_text::char_len_exec(c) as u128;
            assert(out@.drop_last() =~= before);
            k = 2;
        } else if c == '{' {
            let mut q: usize = p + 1;
            while q < n && crate::text::is_digit_exec(t[q])
                invariant
                    p + 1 <= q <= n,
                    n == t@.len(),
                    forall|j: int| p + 1 <= j < q ==> crate::text::is_digit(#[trigger] t@[j]),
                decreases n - q,
            {
                q = q + 1;
            }
            proof {
                let s = rest.drop_first();
                assert forall|j: int| 0 <= j < q - p - 1 implies crate::text::is_digit(#[trigger] s[j]) by {
                    assert(s[j] == t@[p + 1 + j]);
                }
                if q < n {
                    assert(s[q - p - 1] == t@[q as int]);
                }
                lemma_digit_run(s, q - p - 1);
            }
            let d = q - p - 1;
            if d == 0 || !(q < n && t[q] == '}') {
                proof {
                    if q < n {
                        assert(rest[1 + d] == t@[q as int]);
                    }
                }
                return Err(SarifError::InvalidPlaceholder);
            }
            assert(rest[1 + d] == t@[q as int]);
            let number = crate::text::copy_range(t, p + 1, q);
            assert(number@ =~= rest.subrange(1, 1 + d as int));
            let index = match crate::text::parse_usize(&number) {
                None => return Err(SarifError::PlaceholderTooLarge),
                Some(x) => x,
            };
            if index >= args.len() {
                return Err(SarifError::MissingArgument);
            }
            let arg = crate::text::chars_of(args[index].as_str());
            crate::text::extend_chars(&mut out, arg.as_slice());
            proof {
                lemma_text_bytes_concat(before, arg@);
            }
            bytes = bytes + super::json_text::text_bytes_exec(args[index].as_str());
            k = d + 2;
        } else if c == '}' {
            return Err(SarifError::UnescapedBrace);
        } else {
            out.push(c);
            bytes = bytes + super::json_text::char_len_exec(c) as u128;
            assert(out@.drop_last() =~= before);
            k = 1;
        }
        if bytes > super::MAX_REPORT_BYTES as u128 {
            return Err(SarifError::MessageTooLong);
        }
        assert(rest.skip(k as int) =~= t@.skip(p + k));
        p = p + k;
    }
    Ok(crate::text::string_of(out.as_slice()))
}

/// The expanded message of result `issue`, whose rule descriptor is `rule`.
pub fn message(run: &Json, issue: &Json, rule: Option<&Json>) -> (res: Result<String, SarifError>)
    ensures
        match message_outcome(*run, *issue, match rule { Some(r) => Some(*r), None => None }) {
            Ok(o) => res matches Ok(s) && s@ == o,
            Err(e) => res == Err::<String, SarifError>(e),
        },
{
    let m = match crate::json::get(issue, "message") {
        None => return Err(SarifError::MissingMessage),
        Some(m) => m,
    };
    match m {
        Json::Object(_) => {},
        _ => return Err(SarifError::InvalidType),
    }
    let template: &String = match optional_text_at(m, "text")? {
        Some(t) => t,
        None => {
            let id = text_at(m, "id")?;
            let descriptor = match rule {
                None => None,
                Some(r) => match crate::json::get(r, "messageStrings") {
                    None => None,
                    Some(ms) => crate::json::get(ms, id.as_str()),
                },
            };
            let d = match crate::json::get(run, "tool") {
                Some(t) => crate::json::get(t, "driver"),
                None => None,
            };
            let global = match d {
                None => None,
                Some(dv) => match crate::json::get(dv, "globalMessageStrings") {
                    None => None,
                    Some(g) => crate::json::get(g, id.as_str()),
                },
            };
            let found = if descriptor.is_some() {
                descriptor
            } else {
                global
            };
            match found {
                None => return Err(SarifError::UnresolvedMessage),
                Some(f) => match optional_text_at(f, "text")? {
                    None => return Err(SarifError::NoMessageText),
                    Some(t) => t,
                },
            }
        },
    };
    let args = arguments_exec(m)?;
    let tc = crate::text::chars_of(template.as_str());
    expand_exec(&tc, &args)
}

} // verus!

verus! {

/// Normalized results may not exceed 16 MiB once serialized.
pub const MAX_EXPANDED_BYTES: usize = 16777216;

/// Location resolution may take at most this many steps in one log.
pub const LOCATION_BUDGET: usize = 200000;

/// Why a suppression is refused, if it is.
pub open spec fn suppression_error(s: Json) -> Option<SarifError> {
    if !(s is Object) {
        Some(SarifError::InvalidType)
    } else {
        match required_text(s, "kind"@) {
            Err(e) => Some(e),
            Ok(k) => if !(k == "inSource"@ || k == "external"@) {
                Some(SarifError::InvalidSuppressionKind)
            } else {
                match optional_text(s, "status"@) {
                    Err(e) => Some(e),
                    Ok(Some(st)) => if !(st == "accepted"@ || st == "underReview"@ || st
                        == "rejected"@) {
                        Some(SarifError::InvalidSuppressionStatus)
                    } else {
                        None
                    },
                    Ok(None) => None,
                }
            },
        }
    }
}

/// The error of the first refused suppression.
pub open spec fn first_suppression_error(ss: Seq<Json>) -> Option<SarifError>
    decreases ss.len(),
{
    if ss.len() == 0 {
        None
    } else {
        match suppression_error(ss[0]) {
            Some(e) => Some(e),
            None => first_suppression_error(ss.drop_first()),
        }
    }
}

/// A result kind that counts as no violation.
pub open spec fn non_violation_kind(kind: Seq<char>) -> bool {
    kind == "pass"@ || kind == "notApplicable"@ || kind == "informational"@
}

/// The normalized diagnostic of a result: its primary location is its first one.
pub open spec fn result_model(
    rule: Seq<char>,
    message: Seq<char>,
    tool: Seq<char>,
    ls: Seq<LocationModel>,
) -> IssueModel {
    IssueModel {
        rule,
        file: if ls.len() > 0 { ls[0].file } else { None },
        line: if ls.len() > 0 { ls[0].line } else { None },
        message,
        symbol: if ls.len() > 0 { ls[0].symbol } else { None },
        tool: Some(tool),
        locations: ls,
    }
}

/// What one result of a run is: whether it is a violation and whether it is
/// suppressed, its normalized diagnostic, the serialized bytes so far and the
/// location budget left.
#[verifier::opaque]
pub open spec fn result_outcome(
    run: Json,
    issue: Json,
    tool: Seq<char>,
    expanded: int,
    budget: int,
    native: NativePaths,
) -> Result<(bool, bool, IssueModel, int, int), SarifError> {
    if !(issue is Object) {
        Err(SarifError::InvalidType)
    } else if member(issue, "baselineState"@) is Some {
        Err(SarifError::Baselined)
    } else {
        match optional_text(issue, "kind"@) {
            Err(e) => Err(e),
            Ok(k) => {
                let kind = match k {
                    Some(t) => t,
                    None => "fail"@,
                };
                match optional_text(issue, "level"@) {
                    Err(e) => Err(e),
                    Ok(level) => if level matches Some(l) && !known_level(l) {
                        Err(SarifError::InvalidLevel)
                    } else if kind != "fail"@ && (level matches Some(l) && l != "none"@) {
                        Err(SarifError::NonFailingSeverity)
                    } else {
                        match rule_of(run, issue) {
                            Err(e) => Err(e),
                            Ok((rule, descriptor)) => match message_outcome(run, issue, descriptor) {
                                Err(e) => Err(e),
                                Ok(message) => match locations_outcome(run, issue, budget, native) {
                                    Err(e) => Err(e),
                                    Ok((ls, b1)) => {
                                        let model = result_model(rule, message, tool, ls);
                                        let total = expanded + issue_bytes(model);
                                        if total > MAX_EXPANDED_BYTES {
                                            Err(SarifError::ExpandedTooLarge)
                                        } else if kind == "fail"@ {
                                            match array_of(issue, "suppressions"@) {
                                                Err(e) => Err(e),
                                                Ok(ss) => match first_suppression_error(ss) {
                                                    Some(e) => Err(e),
                                                    None => Ok((true, ss.len() > 0, model, total, b1)),
                                                },
                                            }
                                        } else if non_violation_kind(kind) {
                                            Ok((false, false, model, total, b1))
                                        } else if kind == "open"@ || kind == "review"@ {
                                            Err(SarifError::UnresolvedResult)
                                        } else {
                                            Err(SarifError::UnsupportedKind)
                                        }
                                    },
                                },
                            },
                        }
                    },
                }
            },
        }
    }
}

/// The tallies of a run so far: its violations, non-violations and suppressed results.
#[verifier::ext_equal]
pub struct Tally {
    pub issues: Seq<IssueModel>,
    pub violations: nat,
    pub non_violations: nat,
    pub suppressed: nat,
}

/// The results `items` of a run added to `tally`, with the serialized bytes and
/// the location budget carried along.
pub open spec fn results_from(
    run: Json,
    tool: Seq<char>,
    items: Seq<Json>,
    tally: Tally,
    expanded: int,
    budget: int,
    native: NativePaths,
) -> Result<(Tally, int, int), SarifError>
    decreases items.len(),
{
    if items.len() == 0 {
        Ok((tally, expanded, budget))
    } else {
        match result_outcome(run, items[0], tool, expanded, budget, native) {
            Err(e) => Err(e),
            Ok((violation, suppressed, model, total, b1)) => results_from(
                run,
                tool,
                items.drop_first(),
                next_tally(tally, violation, suppressed, model),
                total,
                b1,
                native,
            ),
        }
    }
}

/// The tally after one more result.
pub open spec fn next_tally(tally: Tally, violation: bool, suppressed: bool, model: IssueModel) -> Tally {
    if violation {
        Tally {
            issues: tally.issues.push(model),
            violations: tally.violations + 1,
            non_violations: tally.non_violations,
            suppressed: tally.suppressed + if suppressed {
                1nat
            } else {
                0nat
            },
        }
    } else {
        Tally {
            issues: tally.issues,
            violations: tally.violations,
            non_violations: tally.non_violations + 1,
            suppressed: tally.suppressed,
        }
    }
}

/// One result taken off the front of a run's results.
proof fn lemma_results_step(
    run: Json,
    tool: Seq<char>,
    rest: Seq<Json>,
    tally: Tally,
    e: int,
    b: int,
    native: NativePaths,
    violation: bool,
    quiet: bool,
    m: IssueModel,
    t: int,
    b1: int,
)
    requires
        rest.len() > 0,
        result_outcome(run, rest[0], tool, e, b, native) == Ok::<(bool, bool, IssueModel, int, int), SarifError>((violation, quiet, m, t, b1)),
    ensures
        results_from(run, tool, rest, tally, e, b, native) == results_from(
            run,
            tool,
            rest.drop_first(),
            next_tally(tally, violation, quiet, m),
            t,
            b1,
            native,
        ),
{
}

/// What a run declares before its results: the tool's name and version, and the
/// results, once its invocations, result array and rule table are accepted.
pub open spec fn run_header(run: Json) -> Result<(Seq<char>, Option<Seq<char>>, Seq<Json>), SarifError> {
    if !(run is Object) || !(driver(run) is Object) {
        Err(SarifError::InvalidType)
    } else {
        match required_text(driver(run), "name"@) {
            Err(e) => Err(e),
            Ok(tool) => match optional_text(driver(run), "semanticVersion"@) {
                Err(e) => Err(e),
                Ok(semantic) => match optional_text(driver(run), "version"@) {
                    Err(e) => Err(e),
                    Ok(plain) => match run_evidence_error(run) {
                        Some(e) => Err(e),
                        None => match member(run, "results"@) {
                            Some(Json::Array(items)) => if items@.len() > 50000 {
                                Err(SarifError::TooManyResults)
                            } else {
                                match array_of(driver(run), "rules"@) {
                                    Err(e) => Err(e),
                                    Ok(rules) => match rule_table_error(rules) {
                                        Some(e) => Err(e),
                                        None => Ok(
                                            (
                                                tool,
                                                if semantic is Some {
                                                    semantic
                                                } else {
                                                    plain
                                                },
                                                items@,
                                            ),
                                        ),
                                    },
                                }
                            },
                            _ => Err(SarifError::MissingResults),
                        },
                    },
                },
            },
        }
    }
}

/// What one run gives: its summary and its violations, with the serialized bytes
/// and the location budget carried along.
pub open spec fn run_outcome(run: Json, expanded: int, budget: int, native: NativePaths) -> Result<
    (RunModel, Seq<IssueModel>, int, int),
    SarifError,
> {
    match run_header(run) {
        Err(e) => Err(e),
        Ok((tool, version, items)) => match results_from(
            run,
            tool,
            items,
            Tally { issues: seq![], violations: 0, non_violations: 0, suppressed: 0 },
            expanded,
            budget,
            native,
        ) {
            Err(e) => Err(e),
            Ok((t, total, b1)) => Ok(
                (
                    RunModel {
                        tool,
                        version,
                        results: items.len() as usize,
                        violations: t.violations as usize,
                        non_violations: t.non_violations as usize,
                        suppressed_results: t.suppressed as usize,
                    },
                    t.issues,
                    total,
                    b1,
                ),
            ),
        },
    }
}

/// The runs `runs` added to the diagnostics and summaries so far.
pub open spec fn runs_from(
    runs: Seq<Json>,
    issues: Seq<IssueModel>,
    summaries: Seq<RunModel>,
    expanded: int,
    budget: int,
    native: NativePaths,
) -> Result<(Seq<IssueModel>, Seq<RunModel>), SarifError>
    decreases runs.len(),
{
    if runs.len() == 0 {
        Ok((issues, summaries))
    } else {
        match run_outcome(runs[0], expanded, budget, native) {
            Err(e) => Err(e),
            Ok((summary, found, total, b1)) => runs_from(
                runs.drop_first(),
                issues + found,
                summaries.push(summary),
                total,
                b1,
                native,
            ),
        }
    }
}

/// What a SARIF document normalizes to: its violations and run summaries.
pub open spec fn sarif_outcome(doc: Json, native: NativePaths) -> Result<
    (Seq<IssueModel>, Seq<RunModel>),
    SarifError,
> {
    if !(doc is Object) {
        Err(SarifError::InvalidType)
    } else if as_str(crate::json::index(doc, "version"@)) != Some("2.1.0"@) {
        Err(SarifError::UnsupportedVersion)
    } else {
        match array_of(doc, "inlineExternalProperties"@) {
            Err(e) => Err(e),
            Ok(inline) => if inline.len() > 0 {
                Err(SarifError::InlineExternalProperties)
            } else {
                match array_of(doc, "runs"@) {
                    Err(e) => Err(e),
                    Ok(runs) => if runs.len() == 0 {
                        Err(SarifError::NoRuns)
                    } else {
                        runs_from(runs, seq![], seq![], 0, LOCATION_BUDGET as int, native)
                    },
                }
            },
        }
    }
}

} // verus!

verus! {

fn suppression_check(s: &Json) -> (res: Option<SarifError>)
    ensures
        res == suppression_error(*s),
{
    match s {
        Json::Object(_) => {},
        _ => return Some(SarifError::InvalidType),
    }
    let k = match text_at(s, "kind") {
        Err(e) => return Some(e),
        Ok(k) => k,
    };
    if !(text_is_str(k, "inSource") || text_is_str(k, "external")) {
        return Some(SarifError::InvalidSuppressionKind);
    }
    match optional_text_at(s, "status") {
        Err(e) => Some(e),
        Ok(Some(st)) => if !(text_is_str(st, "accepted") || text_is_str(st, "underReview")
            || text_is_str(st, "rejected")) {
            Some(SarifError::InvalidSuppressionStatus)
        } else {
            None
        },
        Ok(None) => None,
    }
}

/// Check the suppressions of a failing result; whether it has any.
fn suppressions_check(issue: &Json) -> (res: Result<bool, SarifError>)
    ensures
        match array_of(*issue, "suppressions"@) {
            Err(e) => res == Err::<bool, SarifError>(e),
            Ok(ss) => match first_suppression_error(ss) {
                Some(e) => res == Err::<bool, SarifError>(e),
                None => res == Ok::<bool, SarifError>(ss.len() > 0),
            },
        },
{
    let ss = match array_member(issue, "suppressions")? {
        None => return Ok(false),
        Some(v) => v,
    };
    let mut i: usize = 0;
    assert(ss@.skip(0) =~= ss@);
    while i < ss.len()
        invariant
            0 <= i <= ss@.len(),
            array_of(*issue, "suppressions"@) == Ok::<Seq<Json>, SarifError>(ss@),
            first_suppression_error(ss@) == first_suppression_error(ss@.skip(i as int)),
        decreases ss@.len() - i,
    {
        assert(ss@.skip(i as int).drop_first() =~= ss@.skip(i + 1));
        assert(ss@.skip(i as int)[0] == ss@[i as int]);
        if let Some(e) = suppression_check(&ss[i]) {
            return Err(e);
        }
        i = i + 1;
    }
    assert(ss@.skip(i as int) =~= seq![]);
    Ok(ss.len() > 0)
}

fn copy_string(s: &String) -> (res: String)
    ensures
        res@ == s@,
{
    crate::text::string_of(crate::text::chars_of(s.as_str()).as_slice())
}

fn copy_opt_string(s: &Option<String>) -> (res: Option<String>)
    ensures
        super::diagnostics::opt_view(res) == super::diagnostics::opt_view(*s),
{
    match s {
        Some(t) => Some(copy_string(t)),
        None => None,
    }
}

/// One result of a run: whether it is a violation, whether it is suppressed, and
/// its normalized diagnostic.
fn result(
    run: &Json,
    issue: &Json,
    tool: &String,
    expanded: &mut usize,
    budget: &mut usize,
    cache: &mut PathCache,
) -> (res: Result<(bool, bool, Issue), SarifError>)
    requires
        distinct_keys(old(cache)@),
        *old(expanded) <= MAX_EXPANDED_BYTES,
    ensures
        distinct_keys(final(cache)@),
        extends(final(cache)@, old(cache)@),
        *final(expanded) <= MAX_EXPANDED_BYTES,
        forall|native: NativePaths| #[trigger] agrees(native, final(cache)@) ==> match result_outcome(
            *run,
            *issue,
            tool@,
            *old(expanded) as int,
            *old(budget) as int,
            native,
        ) {
            Ok((v, s, m, t, b)) => res matches Ok((v2, s2, i)) && v2 == v && s2 == s
                && super::diagnostics::issue_view(i) == m && *final(expanded) == t && *final(budget) == b,
            Err(e) => res is Err && res->Err_0 == e,
        },
{
    proof {
        reveal_strlit("none");
        reveal_strlit("note");
        reveal_strlit("warning");
        reveal_strlit("error");
        reveal(result_outcome);
    }
    match issue {
        Json::Object(_) => {},
        _ => return Err(SarifError::InvalidType),
    }
    if crate::json::get(issue, "baselineState").is_some() {
        return Err(SarifError::Baselined);
    }
    let kind = optional_text_at(issue, "kind")?;
    let level = optional_text_at(issue, "level")?;
    let is_fail = match kind {
        None => true,
        Some(t) => text_is_str(t, "fail"),
    };
    match level {
        Some(l) => {
            if !(text_is_str(l, "none") || text_is_str(l, "note") || text_is_str(l, "warning")
                || text_is_str(l, "error")) {
                return Err(SarifError::InvalidLevel);
            }
            if !is_fail && !text_is_str(l, "none") {
                return Err(SarifError::NonFailingSeverity);
            }
        },
        None => {},
    }
    let (rule_id, descriptor) = rule(run, issue)?;
    let text = message(run, issue, descriptor)?;
    let ls = locations(run, issue, budget, cache)?;
    let (file, line, symbol) = if ls.len() > 0 {
        (copy_opt_string(&ls[0].file), ls[0].line, copy_opt_string(&ls[0].symbol))
    } else {
        (None, None, None)
    };
    let normalized = Issue {
        rule: rule_id,
        file,
        line,
        message: text,
        symbol,
        tool: Some(copy_string(tool)),
        locations: ls,
    };
    let size = match super::json_text::issue_bytes_exec(
        &normalized,
        (MAX_EXPANDED_BYTES - *expanded) as u128,
    ) {
        None => return Err(SarifError::ExpandedTooLarge),
        Some(n) => n as usize,
    };
    *expanded = *expanded + size;
    let k = match kind {
        Some(t) if !is_fail => t,
        _ => {
            let suppressed = suppressions_check(issue)?;
            return Ok((true, suppressed, normalized));
        },
    };
    if text_is_str(k, "pass") || text_is_str(k, "notApplicable") || text_is_str(k, "informational") {
        return Ok((false, false, normalized));
    }
    if text_is_str(k, "open") || text_is_str(k, "review") {
        return Err(SarifError::UnresolvedResult);
    }
    Err(SarifError::UnsupportedKind)
}

} // verus!

verus! {

/// The plain values of computed diagnostics.
pub open spec fn issue_models(v: Seq<Issue>) -> Seq<IssueModel> {
    v.map_values(|i: Issue| super::diagnostics::issue_view(i))
}

/// The plain values of computed run summaries.
pub open spec fn run_models(v: Seq<SarifRun>) -> Seq<RunModel> {
    v.map_values(|r: SarifRun| super::diagnostics::run_view(r))
}

/// The tally of a run as computed so far.
pub open spec fn tally_of(issues: Seq<Issue>, violations: usize, non_violations: usize, suppressed: usize) -> Tally {
    Tally {
        issues: issue_models(issues),
        violations: violations as nat,
        non_violations: non_violations as nat,
        suppressed: suppressed as nat,
    }
}

/// One run: its summary and its violations.
fn run_exec(run: &Json, expanded: &mut usize, budget: &mut usize, cache: &mut PathCache) -> (res: Result<(SarifRun, Vec<Issue>), SarifError>)
    requires
        distinct_keys(old(cache)@),
        *old(expanded) <= MAX_EXPANDED_BYTES,
    ensures
        distinct_keys(final(cache)@),
        extends(final(cache)@, old(cache)@),
        *final(expanded) <= MAX_EXPANDED_BYTES,
        forall|native: NativePaths| #[trigger] agrees(native, final(cache)@) ==> match run_outcome(
            *run,
            *old(expanded) as int,
            *old(budget) as int,
            native,
        ) {
            Ok((summary, found, t, b)) => res matches Ok((r, v)) && super::diagnostics::run_view(r)
                == summary && issue_models(v@) == found && *final(expanded) == t && *final(budget) == b,
            Err(e) => res is Err && res->Err_0 == e,
        },
{
    match run {
        Json::Object(_) => {},
        _ => return Err(SarifError::InvalidType),
    }
    let d = match crate::json::get(run, "tool") {
        Some(t) => crate::json::get(t, "driver"),
        None => None,
    };
    let d = match d {
        Some(dv) => match dv {
            Json::Object(_) => dv,
            _ => return Err(SarifError::InvalidType),
        },
        None => return Err(SarifError::InvalidType),
    };
    assert(*d == driver(*run));
    let tool = text_at(d, "name")?;
    let semantic = optional_text_at(d, "semanticVersion")?;
    let plain = optional_text_at(d, "version")?;
    if let Some(e) = run_evidence_check(run) {
        return Err(e);
    }
    let items = match crate::json::get(run, "results") {
        Some(Json::Array(items)) => items,
        _ => return Err(SarifError::MissingResults),
    };
    if items.len() > 50000 {
        return Err(SarifError::TooManyResults);
    }
    match array_member(d, "rules")? {
        Some(rules) => if let Some(e) = rule_table_check(rules) {
            return Err(e);
        },
        None => {},
    }
    let ghost ver = match semantic {
        Some(v) => Some(v@),
        None => match plain {
            Some(v) => Some(v@),
            None => None,
        },
    };
    assert(run_header(*run) == Ok::<(Seq<char>, Option<Seq<char>>, Seq<Json>), SarifError>((tool@, ver, items@)));
    let ghost e0 = *expanded as int;
    let ghost b0 = *budget as int;
    let ghost c0 = cache@;
    let ghost t0 = Tally { issues: seq![], violations: 0, non_violations: 0, suppressed: 0 };
    let mut issues: Vec<Issue> = Vec::new();
    let mut violations: usize = 0;
    let mut non_violations: usize = 0;
    let mut suppressed: usize = 0;
    let mut i: usize = 0;
    assert(items@.skip(0) =~= items@);
    assert(issue_models(issues@) =~= seq![]);
    assert(tally_of(issues@, 0, 0, 0) =~= t0);
    while i < items.len()
        invariant
            0 <= i <= items@.len(),
            items@.len() <= 50000,
            run_header(*run) == Ok::<(Seq<char>, Option<Seq<char>>, Seq<Json>), SarifError>((tool@, ver, items@)),
            violations <= i,
            non_violations <= i,
            suppressed <= i,
            *expanded <= MAX_EXPANDED_BYTES,
            distinct_keys(cache@),
            extends(cache@, c0),
            c0 == old(cache)@,
            e0 == *old(expanded) as int,
            b0 == *old(budget) as int,
            t0 == (Tally { issues: seq![], violations: 0, non_violations: 0, suppressed: 0 }),
            forall|native: NativePaths| #[trigger] agrees(native, cache@) ==> results_from(
                *run,
                tool@,
                items@,
                t0,
                e0,
                b0,
                native,
            ) == results_from(
                *run,
                tool@,
                items@.skip(i as int),
                tally_of(issues@, violations, non_violations, suppressed),
                *expanded as int,
                *budget as int,
                native,
            ),
        decreases items@.len() - i,
    {
        assert(items@.skip(i as int).drop_first() =~= items@.skip(i + 1));
        assert(items@.skip(i as int)[0] == items@[i as int]);
        let ghost before = cache@;
        let ghost issues_before = issues@;
        let ghost tally_before = tally_of(issues@, violations, non_violations, suppressed);
        let ghost e_before = *expanded as int;
        let ghost b_before = *budget as int;
        let r = result(run, &items[i], tool, expanded, budget, cache);
        let (violation, quiet, normalized) = match r {
            Ok(x) => x,
            Err(e) => {
                proof {
                    assert forall|native: NativePaths| #[trigger] agrees(native, cache@) implies results_from(*run, tool@, items@, t0, e0, b0, native) is Err
                        && results_from(*run, tool@, items@, t0, e0, b0, native)->Err_0 == e by {
                        super::sarif_locations::lemma_agrees_earlier(native, cache@, before);
                    }
                    assert forall|a: int| 0 <= a < c0.len() implies #[trigger] cache@[a] == c0[a] by {
                        assert(before[a] == c0[a]);
                    }
                }
                return Err(e);
            },
        };
        let ghost m = super::diagnostics::issue_view(normalized);
        if violation {
            issues.push(normalized);
            violations = violations + 1;
            if quiet {
                suppressed = suppressed + 1;
            }
            assert(issue_models(issues@) =~= issue_models(issues_before).push(m));
        } else {
            non_violations = non_violations + 1;
        }
        assert(tally_of(issues@, violations, non_violations, suppressed) =~= next_tally(tally_before, violation, quiet, m));
        proof {
            assert forall|native: NativePaths| #[trigger] agrees(native, cache@) implies results_from(
                *run,
                tool@,
                items@,
                t0,
                e0,
                b0,
                native,
            ) == results_from(
                *run,
                tool@,
                items@.skip(i + 1),
                tally_of(issues@, violations, non_violations, suppressed),
                *expanded as int,
                *budget as int,
                native,
            ) by {
                super::sarif_locations::lemma_agrees_earlier(native, cache@, before);
                lemma_results_step(*run, tool@, items@.skip(i as int), tally_before, e_before, b_before, native, violation, quiet, m, *expanded as int, *budget as int);
            }
            assert forall|a: int| 0 <= a < c0.len() implies #[trigger] cache@[a] == c0[a] by {
                assert(before[a] == c0[a]);
            }
        }
        i = i + 1;
    }
    assert(items@.skip(i as int) =~= seq![]);
    let version = match semantic {
        Some(v) => Some(copy_string(v)),
        None => copy_opt_string(&match plain {
            Some(v) => Some(copy_string(v)),
            None => None,
        }),
    };
    let summary = SarifRun {
        tool: copy_string(tool),
        version,
        results: items.len(),
        violations,
        non_violations,
        suppressed_results: suppressed,
    };
    Ok((summary, issues))
}

} // verus!

verus! {

/// A normalized report that holds exactly these violations and run summaries.
pub open spec fn sarif_data(d: Data, issues: Seq<IssueModel>, runs: Seq<RunModel>) -> bool {
    &&& issue_models(d.issues@) == issues
    &&& run_models(d.sarif_runs@) == runs
    &&& d.tests is None
    &&& d.coverage@.len() == 0
    &&& d.coverage_files@.len() == 0
    &&& d.coverage_roots@.len() == 0
    &&& d.coverage_producer is None
    &&& !d.branch_coverage
    &&& d.affected_files is None
}

/// `res` is what the outcome `outcome` describes.
pub open spec fn sarif_matches(
    outcome: Result<(Seq<IssueModel>, Seq<RunModel>), SarifError>,
    res: Result<Data, SarifError>,
) -> bool {
    match outcome {
        Ok((issues, runs)) => res matches Ok(d) && sarif_data(d, issues, runs),
        Err(e) => res matches Err(x) && x == e,
    }
}

/// Normalize a parsed SARIF 2.1.0 document. File URLs that are not relative to
/// the source root become paths as this platform writes them; the result is what
/// the profile gives under those answers.
pub fn sarif_from_json(doc: &Json) -> (res: Result<Data, SarifError>)
    ensures
        exists|native: NativePaths| sarif_matches(#[trigger] sarif_outcome(*doc, native), res),
{
    let mut cache: PathCache = Vec::new();
    let r = normalize(doc, &mut cache);
    proof {
        super::sarif_locations::lemma_cache_native_agrees(cache@);
        let native = super::sarif_locations::cache_native(cache@);
        assert(sarif_matches(sarif_outcome(*doc, native), r));
    }
    r
}

fn normalize(doc: &Json, cache: &mut PathCache) -> (res: Result<Data, SarifError>)
    requires
        old(cache)@.len() == 0,
    ensures
        distinct_keys(final(cache)@),
        forall|native: NativePaths| #[trigger] agrees(native, final(cache)@) ==> sarif_matches(
            sarif_outcome(*doc, native),
            res,
        ),
{
    proof {
        reveal_strlit("2.1.0");
    }
    match doc {
        Json::Object(_) => {},
        _ => return Err(SarifError::InvalidType),
    }
    let version_ok = match crate::json::str_at(doc, "version") {
        Some(v) => text_is_str(v, "2.1.0"),
        None => false,
    };
    if !version_ok {
        return Err(SarifError::UnsupportedVersion);
    }
    match array_member(doc, "inlineExternalProperties")? {
        Some(v) => if v.len() > 0 {
            return Err(SarifError::InlineExternalProperties);
        },
        None => {},
    }
    let runs = match array_member(doc, "runs")? {
        Some(v) => if v.len() == 0 {
            return Err(SarifError::NoRuns);
        } else {
            v
        },
        None => return Err(SarifError::NoRuns),
    };
    let ghost c0 = cache@;
    let mut data = Data::empty();
    let mut expanded: usize = 0;
    let mut budget: usize = LOCATION_BUDGET;
    let mut i: usize = 0;
    assert(runs@.skip(0) =~= runs@);
    assert(issue_models(data.issues@) =~= seq![]);
    assert(run_models(data.sarif_runs@) =~= seq![]);
    while i < runs.len()
        invariant
            0 <= i <= runs@.len(),
            runs@.len() > 0,
            array_of(*doc, "runs"@) == Ok::<Seq<Json>, SarifError>(runs@),
            *doc is Object,
            as_str(crate::json::index(*doc, "version"@)) == Some("2.1.0"@),
            array_of(*doc, "inlineExternalProperties"@) matches Ok(inline) && inline.len() == 0,
            expanded <= MAX_EXPANDED_BYTES,
            distinct_keys(cache@),
            data.tests is None,
            data.coverage@.len() == 0,
            data.coverage_files@.len() == 0,
            data.coverage_roots@.len() == 0,
            data.coverage_producer is None,
            !data.branch_coverage,
            data.affected_files is None,
            forall|native: NativePaths| #[trigger] agrees(native, cache@) ==> runs_from(
                runs@,
                seq![],
                seq![],
                0,
                LOCATION_BUDGET as int,
                native,
            ) == runs_from(
                runs@.skip(i as int),
                issue_models(data.issues@),
                run_models(data.sarif_runs@),
                expanded as int,
                budget as int,
                native,
            ),
        decreases runs@.len() - i,
    {
        assert(runs@.skip(i as int).drop_first() =~= runs@.skip(i + 1));
        assert(runs@.skip(i as int)[0] == runs@[i as int]);
        let ghost before = cache@;
        let ghost e_before = expanded as int;
        let ghost b_before = budget as int;
        let ghost issues_before = issue_models(data.issues@);
        let ghost runs_before = run_models(data.sarif_runs@);
        let (summary, mut found) = match run_exec(&runs[i], &mut expanded, &mut budget, cache) {
            Ok(x) => x,
            Err(e) => {
                proof {
                    assert forall|native: NativePaths| #[trigger] agrees(native, cache@) implies sarif_matches(
                        sarif_outcome(*doc, native),
                        Err::<Data, SarifError>(e),
                    ) by {
                        super::sarif_locations::lemma_agrees_earlier(native, cache@, before);
                    }
                }
                return Err(e);
            },
        };
        let ghost found_models = issue_models(found@);
        data.issues.append(&mut found);
        data.sarif_runs.push(summary);
        assert(issue_models(data.issues@) =~= issues_before + found_models);
        assert(run_models(data.sarif_runs@) =~= runs_before.push(super::diagnostics::run_view(summary)));
        proof {
            assert forall|native: NativePaths| #[trigger] agrees(native, cache@) implies runs_from(
                runs@,
                seq![],
                seq![],
                0,
                LOCATION_BUDGET as int,
                native,
            ) == runs_from(
                runs@.skip(i + 1),
                issue_models(data.issues@),
                run_models(data.sarif_runs@),
                expanded as int,
                budget as int,
                native,
            ) by {
                super::sarif_locations::lemma_agrees_earlier(native, cache@, before);
            }
        }
        i = i + 1;
    }
    assert(runs@.skip(i as int) =~= seq![]);
    Ok(data)
}

/// Normalize SARIF text.
pub fn parse(text: &str) -> (res: Result<Data, SarifError>)
    ensures
        crate::json::spec_parse_json(text@) is None ==> res == Err::<Data, SarifError>(SarifError::Malformed),
        crate::json::spec_parse_json(text@) matches Some(doc) ==> exists|native: NativePaths| sarif_matches(#[trigger] sarif_outcome(doc, native), res),
{
    match crate::json::parse_json(text) {
        None => Err(SarifError::Malformed),
        Some(doc) => sarif_from_json(&doc),
    }
}

} // verus!

verus! {

proof fn results_tally(
    run: Json,
    tool: Seq<char>,
    items: Seq<Json>,
    tally: Tally,
    expanded: int,
    budget: int,
    native: NativePaths,
)
    ensures
        results_from(run, tool, items, tally, expanded, budget, native) matches Ok((t, _, _)) ==> {
            &&& t.violations + t.non_violations == tally.violations + tally.non_violations + items.len()
            &&& (tally.suppressed <= tally.violations ==> t.suppressed <= t.violations)
            &&& (tally.issues.len() == tally.violations ==> t.issues.len() == t.violations)
        },
    decreases items.len(),
{
    if items.len() > 0 {
        if let Ok((violation, suppressed, model, total, b1)) = result_outcome(run, items[0], tool, expanded, budget, native) {
            results_tally(run, tool, items.drop_first(), next_tally(tally, violation, suppressed, model), total, b1, native);
        }
    }
}

/// In every run summary, the violations and the non-violations add up to the
/// results, every suppressed result is still counted as a violation, and each
/// violation is one normalized diagnostic.
pub proof fn run_tallies_add_up(run: Json, expanded: int, budget: int, native: NativePaths)
    ensures
        run_outcome(run, expanded, budget, native) matches Ok((summary, found, _, _)) ==> {
            &&& summary.violations + summary.non_violations == summary.results
            &&& summary.suppressed_results <= summary.violations
            &&& found.len() == summary.violations
        },
{
    if let Ok((tool, version, items)) = run_header(run) {
        let t0 = Tally { issues: seq![], violations: 0, non_violations: 0, suppressed: 0 };
        results_tally(run, tool, items, t0, expanded, budget, native);
    }
}

} // verus!

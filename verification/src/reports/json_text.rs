//! Compact JSON text of normalized records: string quoting, and the size that a
//! diagnostic takes once serialized.

use vstd::prelude::*;
use super::{Issue, IssueLocation};
use super::diagnostics::{issue_view, location_view, opt_view, IssueModel, LocationModel};

verus! {

/// Bytes of `c` in UTF-8.
pub open spec fn char_len(c: char) -> nat {
    if (c as u32) < 0x80 {
        1
    } else if (c as u32) < 0x800 {
        2
    } else if (c as u32) < 0x10000 {
        3
    } else {
        4
    }
}

/// Bytes of `s` in UTF-8.
pub open spec fn text_bytes(s: Seq<char>) -> nat
    decreases s.len(),
{
    if s.len() == 0 {
        0
    } else {
        text_bytes(s.drop_last()) + char_len(s.last())
    }
}

/// Lower-case hexadecimal digit of `d` (below 16).
pub open spec fn hex_digit(d: nat) -> char {
    if d < 10 {
        ((d + 48) as u8) as char
    } else {
        ((d + 87) as u8) as char
    }
}

/// How a JSON string writes `c`: quotes, backslashes and control characters escaped.
pub open spec fn escape(c: char) -> Seq<char> {
    if c == '"' {
        seq!['\\', '"']
    } else if c == '\\' {
        seq!['\\', '\\']
    } else if c == '\u{8}' {
        seq!['\\', 'b']
    } else if c == '\t' {
        seq!['\\', 't']
    } else if c == '\n' {
        seq!['\\', 'n']
    } else if c == '\u{c}' {
        seq!['\\', 'f']
    } else if c == '\r' {
        seq!['\\', 'r']
    } else if (c as u32) < 0x20 {
        seq!['\\', 'u', '0', '0', hex_digit((c as u32 / 16) as nat), hex_digit((c as u32 % 16) as nat)]
    } else {
        seq![c]
    }
}

/// The escaped characters of `s`.
pub open spec fn escaped(s: Seq<char>) -> Seq<char>
    decreases s.len(),
{
    if s.len() == 0 {
        seq![]
    } else {
        escaped(s.drop_last()) + escape(s.last())
    }
}

/// `s` as a JSON string.
pub open spec fn quote(s: Seq<char>) -> Seq<char> {
    seq!['"'] + escaped(s) + seq!['"']
}

/// Bytes that `c` takes inside a JSON string.
pub open spec fn escape_bytes(c: char) -> nat {
    if c == '"' || c == '\\' || c == '\u{8}' || c == '\t' || c == '\n' || c == '\u{c}' || c
        == '\r' {
        2
    } else if (c as u32) < 0x20 {
        6
    } else {
        char_len(c)
    }
}

/// Bytes of the escaped characters of `s`.
pub open spec fn escaped_bytes(s: Seq<char>) -> nat
    decreases s.len(),
{
    if s.len() == 0 {
        0
    } else {
        escaped_bytes(s.drop_last()) + escape_bytes(s.last())
    }
}

/// Bytes of `s` written as a JSON string.
pub open spec fn quoted_bytes(s: Seq<char>) -> nat {
    escaped_bytes(s) + 2
}

/// The comma-separated JSON strings of `items`.
pub open spec fn joined(items: Seq<Seq<char>>) -> Seq<char>
    decreases items.len(),
{
    if items.len() == 0 {
        seq![]
    } else if items.len() == 1 {
        quote(items[0])
    } else {
        joined(items.drop_last()) + seq![','] + quote(items.last())
    }
}

/// `items` as a JSON array of strings.
pub open spec fn array_text(items: Seq<Seq<char>>) -> Seq<char> {
    seq!['['] + joined(items) + seq![']']
}

/// Decimal digits of `n`.
pub open spec fn decimal_len(n: nat) -> nat
    decreases n,
{
    if n < 10 {
        1
    } else {
        1 + decimal_len(n / 10)
    }
}

/// Bytes of an optional string: `null` or the JSON string.
pub open spec fn opt_text_bytes(s: Option<Seq<char>>) -> nat {
    match s {
        None => 4,
        Some(t) => quoted_bytes(t),
    }
}

/// Bytes of an optional count: `null` or its digits.
pub open spec fn opt_count_bytes(n: Option<usize>) -> nat {
    match n {
        None => 4,
        Some(v) => decimal_len(v as nat),
    }
}

/// Bytes of one location: `{"file":..,"line":..,"end_line":..,"symbol":..}`.
pub open spec fn location_bytes(l: LocationModel) -> nat {
    38 + opt_text_bytes(l.file) + opt_count_bytes(l.line) + opt_count_bytes(l.end_line)
        + opt_text_bytes(l.symbol)
}

/// Bytes of the comma-separated locations.
pub open spec fn locations_bytes(ls: Seq<LocationModel>) -> nat
    decreases ls.len(),
{
    if ls.len() == 0 {
        0
    } else if ls.len() == 1 {
        location_bytes(ls[0])
    } else {
        locations_bytes(ls.drop_last()) + 1 + location_bytes(ls.last())
    }
}

/// Bytes of one diagnostic as compact JSON: the fields in declaration order, `tool`
/// only when present and `locations` only when not empty.
pub open spec fn issue_bytes(issue: IssueModel) -> nat {
    46 + quoted_bytes(issue.rule) + opt_text_bytes(issue.file) + opt_count_bytes(issue.line)
        + quoted_bytes(issue.message) + opt_text_bytes(issue.symbol) + match issue.tool {
        None => 0,
        Some(t) => 8 + quoted_bytes(t),
    } + if issue.locations.len() == 0 {
        0
    } else {
        15 + locations_bytes(issue.locations)
    }
}

} // verus!

verus! {

/// Bytes of `c` in UTF-8.
pub fn char_len_exec(c: char) -> (res: usize)
    ensures
        res == char_len(c),
{
    if (c as u32) < 0x80 {
        1
    } else if (c as u32) < 0x800 {
        2
    } else if (c as u32) < 0x10000 {
        3
    } else {
        4
    }
}

/// Bytes of `s` in UTF-8.
pub fn text_bytes_exec(s: &str) -> (res: u128)
    ensures
        res == text_bytes(s@),
        res <= 4 * (usize::MAX as int),
{
    let chars = crate::text::chars_of(s);
    let mut total: u128 = 0;
    let mut i: usize = 0;
    assert(chars@.take(0) =~= seq![]);
    while i < chars.len()
        invariant
            0 <= i <= chars@.len(),
            chars@ == s@,
            total == text_bytes(chars@.take(i as int)),
            total <= 4 * i,
        decreases chars@.len() - i,
    {
        assert(chars@.take(i + 1).drop_last() =~= chars@.take(i as int));
        total = total + char_len_exec(chars[i]) as u128;
        i = i + 1;
    }
    assert(chars@.take(i as int) =~= s@);
    total
}

/// Bytes of `s` written as a JSON string.
pub fn quoted_bytes_exec(s: &str) -> (res: u128)
    ensures
        res == quoted_bytes(s@),
        res <= 6 * (usize::MAX as int) + 2,
{
    let chars = crate::text::chars_of(s);
    let mut total: u128 = 0;
    let mut i: usize = 0;
    assert(chars@.take(0) =~= seq![]);
    while i < chars.len()
        invariant
            0 <= i <= chars@.len(),
            chars@ == s@,
            total == escaped_bytes(chars@.take(i as int)),
            total <= 6 * i,
        decreases chars@.len() - i,
    {
        assert(chars@.take(i + 1).drop_last() =~= chars@.take(i as int));
        let c = chars[i];
        let b: u128 = if c == '"' || c == '\\' || c == '\u{8}' || c == '\t' || c == '\n' || c
            == '\u{c}' || c == '\r' {
            2
        } else if (c as u32) < 0x20 {
            6
        } else {
            char_len_exec(c) as u128
        };
        total = total + b;
        i = i + 1;
    }
    assert(chars@.take(i as int) =~= s@);
    total + 2
}

fn hex_digit_exec(d: u32) -> (res: char)
    requires
        d < 16,
    ensures
        res == hex_digit(d as nat),
{
    if d < 10 {
        ((d + 48) as u8) as char
    } else {
        ((d + 87) as u8) as char
    }
}

/// `s` as a JSON string, escaped as `serde_json` writes it.
pub fn quote_exec(s: &str) -> (res: Vec<char>)
    ensures
        res@ == quote(s@),
{
    let chars = crate::text::chars_of(s);
    let mut out: Vec<char> = Vec::new();
    out.push('"');
    let mut i: usize = 0;
    assert(chars@.take(0) =~= seq![]);
    while i < chars.len()
        invariant
            0 <= i <= chars@.len(),
            chars@ == s@,
            out@ == seq!['"'] + escaped(chars@.take(i as int)),
        decreases chars@.len() - i,
    {
        assert(chars@.take(i + 1).drop_last() =~= chars@.take(i as int));
        let c = chars[i];
        let ghost before = out@;
        if c == '"' {
            out.push('\\');
            out.push('"');
        } else if c == '\\' {
            out.push('\\');
            out.push('\\');
        } else if c == '\u{8}' {
            out.push('\\');
            out.push('b');
        } else if c == '\t' {
            out.push('\\');
            out.push('t');
        } else if c == '\n' {
            out.push('\\');
            out.push('n');
        } else if c == '\u{c}' {
            out.push('\\');
            out.push('f');
        } else if c == '\r' {
            out.push('\\');
            out.push('r');
        } else if (c as u32) < 0x20 {
            out.push('\\');
            out.push('u');
            out.push('0');
            out.push('0');
            out.push(hex_digit_exec(c as u32 / 16));
            out.push(hex_digit_exec(c as u32 % 16));
        } else {
            out.push(c);
        }
        assert(out@ =~= before + escape(c));
        i = i + 1;
    }
    assert(chars@.take(i as int) =~= s@);
    out.push('"');
    out
}

/// `items` as a JSON array of strings.
pub fn array_text_exec(items: &Vec<String>) -> (res: String)
    ensures
        res@ == array_text(items@.map_values(|s: String| s@)),
{
    let ghost all = items@.map_values(|s: String| s@);
    let mut out: Vec<char> = Vec::new();
    out.push('[');
    let mut i: usize = 0;
    assert(all.take(0) =~= seq![]);
    while i < items.len()
        invariant
            0 <= i <= items@.len(),
            all == items@.map_values(|s: String| s@),
            out@ == seq!['['] + joined(all.take(i as int)),
        decreases items@.len() - i,
    {
        assert(all.take(i + 1).drop_last() =~= all.take(i as int));
        let q = quote_exec(items[i].as_str());
        if i > 0 {
            out.push(',');
        }
        let ghost before = out@;
        crate::text::extend_chars(&mut out, q.as_slice());
        i = i + 1;
    }
    assert(all.take(i as int) =~= all);
    out.push(']');
    crate::text::string_of(out.as_slice())
}

/// Ten to the power `k`.
pub open spec fn ten_pow(k: nat) -> nat
    decreases k,
{
    if k == 0 {
        1
    } else {
        10 * ten_pow((k - 1) as nat)
    }
}

/// A number below `10^k` has at most `k` digits.
pub proof fn lemma_decimal_len_bound(n: nat, k: nat)
    requires
        k >= 1,
        n < ten_pow(k),
    ensures
        decimal_len(n) <= k,
    decreases k,
{
    reveal_with_fuel(ten_pow, 2);
    if n >= 10 {
        lemma_decimal_len_bound(n / 10, (k - 1) as nat);
    }
}

/// Decimal digits of `n`.
pub fn decimal_len_exec(n: usize) -> (res: usize)
    ensures
        res == decimal_len(n as nat),
        res <= 20,
{
    proof {
        reveal_with_fuel(ten_pow, 21);
        lemma_decimal_len_bound(n as nat, 20);
    }
    let mut m: usize = n;
    let mut count: usize = 1;
    while m >= 10
        invariant
            count >= 1,
            count + decimal_len(m as nat) == 1 + decimal_len(n as nat),
            decimal_len(n as nat) <= 20,
        decreases m,
    {
        m = m / 10;
        count = count + 1;
    }
    count
}

} // verus!

verus! {

fn opt_text_bytes_exec(s: &Option<String>) -> (res: u128)
    ensures
        res == opt_text_bytes(opt_view(*s)),
        res <= 6 * (usize::MAX as int) + 2,
{
    match s {
        None => 4,
        Some(t) => quoted_bytes_exec(t.as_str()),
    }
}

fn opt_count_bytes_exec(n: Option<usize>) -> (res: u128)
    ensures
        res == opt_count_bytes(n),
        res <= 20,
{
    match n {
        None => 4,
        Some(v) => decimal_len_exec(v) as u128,
    }
}

fn location_bytes_exec(l: &IssueLocation) -> (res: u128)
    ensures
        res == location_bytes(location_view(*l)),
        res <= 12 * (usize::MAX as int) + 100,
{
    38 + opt_text_bytes_exec(&l.file) + opt_count_bytes_exec(l.line) + opt_count_bytes_exec(
        l.end_line,
    ) + opt_text_bytes_exec(&l.symbol)
}

/// Bytes of `issue` as compact JSON, or `None` once they exceed `limit`.
pub fn issue_bytes_exec(issue: &Issue, limit: u128) -> (res: Option<u128>)
    requires
        limit <= usize::MAX,
    ensures
        match res {
            Some(n) => n == issue_bytes(issue_view(*issue)) && n <= limit,
            None => issue_bytes(issue_view(*issue)) > limit,
        },
{
    let ghost v = issue_view(*issue);
    let ghost ls = v.locations;
    let mut total: u128 = 46 + quoted_bytes_exec(issue.rule.as_str()) + opt_text_bytes_exec(
        &issue.file,
    ) + opt_count_bytes_exec(issue.line) + quoted_bytes_exec(issue.message.as_str())
        + opt_text_bytes_exec(&issue.symbol);
    match &issue.tool {
        None => {},
        Some(t) => {
            total = total + 8 + quoted_bytes_exec(t.as_str());
        },
    }
    if total > limit {
        return None;
    }
    if issue.locations.len() == 0 {
        return Some(total);
    }
    let fixed = total;
    assert(fixed + 15 + locations_bytes(ls) == issue_bytes(v));
    total = total + 15;
    let mut i: usize = 0;
    assert(ls.take(0) =~= seq![]);
    while i < issue.locations.len()
        invariant
            0 <= i <= issue.locations@.len(),
            issue.locations@.len() > 0,
            ls == issue.locations@.map_values(|l: IssueLocation| location_view(l)),
            fixed <= limit,
            limit <= usize::MAX,
            fixed + 15 + locations_bytes(ls) == issue_bytes(v),
            v == issue_view(*issue),
            i > 0 ==> total <= limit,
            total == fixed + 15 + locations_bytes(ls.take(i as int)),
        decreases issue.locations@.len() - i,
    {
        assert(ls.take(i + 1).drop_last() =~= ls.take(i as int));
        assert(ls.take(i + 1).last() == ls[i as int]);
        if i > 0 {
            total = total + 1;
        } else {
            assert(ls.take(1).len() == 1);
        }
        total = total + location_bytes_exec(&issue.locations[i]);
        if total > limit {
            proof {
                lemma_locations_bytes_grow(ls, i as int + 1);
            }
            return None;
        }
        i = i + 1;
    }
    assert(ls.take(i as int) =~= ls);
    Some(total)
}

/// The bytes of all locations are at least those of any prefix.
proof fn lemma_locations_bytes_grow(ls: Seq<LocationModel>, k: int)
    requires
        0 <= k <= ls.len(),
    ensures
        locations_bytes(ls.take(k)) <= locations_bytes(ls),
    decreases ls.len() - k,
{
    if k < ls.len() {
        lemma_locations_bytes_grow(ls, k + 1);
        assert(ls.take(k + 1).drop_last() =~= ls.take(k));
    } else {
        assert(ls.take(k) =~= ls);
    }
}

} // verus!

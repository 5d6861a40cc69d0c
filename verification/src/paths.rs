//! Repository paths: `/`-separated, relative, without `.` or `..` parts.

use vstd::prelude::*;
use crate::text::{pieces, views};

verus! {

/// The parts of a path that name something: not empty and not `.`.
pub open spec fn kept_parts(ps: Seq<Seq<char>>) -> Seq<Seq<char>>
    decreases ps.len(),
{
    if ps.len() == 0 {
        seq![]
    } else if ps.last().len() == 0 || ps.last() == "."@ {
        kept_parts(ps.drop_last())
    } else {
        kept_parts(ps.drop_last()).push(ps.last())
    }
}

/// The components of a path, as `std::path::Path::components` names them.
pub open spec fn components(p: Seq<char>) -> Seq<Seq<char>> {
    kept_parts(pieces(p, '/'))
}

/// `parts` joined by `/`.
pub open spec fn joined(parts: Seq<Seq<char>>) -> Seq<char>
    decreases parts.len(),
{
    if parts.len() == 0 {
        seq![]
    } else if parts.len() == 1 {
        parts[0]
    } else {
        joined(parts.drop_last()) + seq!['/'] + parts.last()
    }
}

/// One of `parts` leads to the parent directory.
pub open spec fn climbs(parts: Seq<Seq<char>>) -> bool {
    exists|i: int| 0 <= i < parts.len() && #[trigger] parts[i] == ".."@
}

/// Why a path does not name a file inside the workspace.
#[derive(Debug, Clone, Copy, PartialEq, Eq, Structural)]
pub enum PathError {
    /// An absolute path outside the workspace.
    OutsideWorkspace,
    /// A path that leads to a parent directory.
    Escapes,
}

/// The repository path that `raw` names: a relative path as it stands, an
/// absolute one relative to the absolute `workspace`.
pub open spec fn repository_path(raw: Seq<char>, workspace: Seq<char>) -> Result<Seq<char>, PathError> {
    let parts = components(raw);
    if raw.len() > 0 && raw[0] == '/' {
        let base = components(workspace);
        if workspace.len() == 0 || workspace[0] != '/' || base.len() > parts.len() || parts.take(
            base.len() as int,
        ) != base {
            Err(PathError::OutsideWorkspace)
        } else if climbs(parts.skip(base.len() as int)) {
            Err(PathError::Escapes)
        } else {
            Ok(joined(parts.skip(base.len() as int)))
        }
    } else if climbs(parts) {
        Err(PathError::Escapes)
    } else {
        Ok(joined(parts))
    }
}

/// The components of the characters `p`.
fn components_exec(p: &[char]) -> (res: Vec<Vec<char>>)
    ensures
        views(res@) == components(p@),
{
    let ps = crate::text::split_char(p, '/');
    let ghost all = views(ps@);
    let mut out: Vec<Vec<char>> = Vec::new();
    let mut i: usize = 0;
    assert(all.take(0) =~= seq![]);
    while i < ps.len()
        invariant
            0 <= i <= ps@.len(),
            all == views(ps@),
            all == pieces(p@, '/'),
            views(out@) == kept_parts(all.take(i as int)),
        decreases ps@.len() - i,
    {
        assert(all.take(i + 1).drop_last() =~= all.take(i as int));
        assert(all.take(i + 1).last() == ps@[i as int]@);
        let part = &ps[i];
        if !(part.len() == 0 || crate::text::text_is(part.as_slice(), ".")) {
            let ghost before = views(out@);
            out.push(crate::text::copy_range(part.as_slice(), 0, part.len()));
            assert(part@.subrange(0, part@.len() as int) =~= part@);
            assert(views(out@) =~= before.push(part@));
        }
        i = i + 1;
    }
    assert(all.take(i as int) =~= all);
    out
}

/// Whether one of `parts`, from position `from` on, is `..`.
fn climbs_exec(parts: &Vec<Vec<char>>, from: usize) -> (res: bool)
    requires
        from <= parts@.len(),
    ensures
        res == climbs(views(parts@).skip(from as int)),
{
    let ghost rest = views(parts@).skip(from as int);
    let mut i: usize = from;
    while i < parts.len()
        invariant
            from <= i <= parts@.len(),
            rest == views(parts@).skip(from as int),
            forall|k: int| 0 <= k < i - from ==> rest[k] != ".."@,
        decreases parts@.len() - i,
    {
        assert(rest[i - from] == parts@[i as int]@);
        if crate::text::text_is(parts[i].as_slice(), "..") {
            assert(rest[i - from] == ".."@);
            return true;
        }
        i = i + 1;
    }
    false
}

/// `parts` from position `from` on, joined by `/`.
fn joined_exec(parts: &Vec<Vec<char>>, from: usize) -> (res: Vec<char>)
    requires
        from <= parts@.len(),
    ensures
        res@ == joined(views(parts@).skip(from as int)),
{
    let ghost rest = views(parts@).skip(from as int);
    let mut out: Vec<char> = Vec::new();
    let mut i: usize = from;
    assert(rest.take(0) =~= seq![]);
    while i < parts.len()
        invariant
            from <= i <= parts@.len(),
            rest == views(parts@).skip(from as int),
            out@ == joined(rest.take(i - from)),
        decreases parts@.len() - i,
    {
        let ghost done = rest.take(i - from);
        assert(rest.take(i - from + 1).drop_last() =~= done);
        assert(rest.take(i - from + 1).last() == parts@[i as int]@);
        if i > from {
            out.push('/');
        }
        crate::text::extend_chars(&mut out, parts[i].as_slice());
        proof {
            if i == from {
                assert(out@ =~= parts@[i as int]@);
            } else {
                assert(out@ =~= joined(done) + seq!['/'] + parts@[i as int]@);
                assert(rest.take(i - from + 1).len() > 1);
            }
        }
        i = i + 1;
    }
    assert(rest.take(i - from) =~= rest);
    out
}

/// Whether the first `n` of `a` equal `b`.
fn prefix_parts(a: &Vec<Vec<char>>, b: &Vec<Vec<char>>) -> (res: bool)
    ensures
        res == (b@.len() <= a@.len() && views(a@).take(b@.len() as int) == views(b@)),
{
    if b.len() > a.len() {
        return false;
    }
    let mut i: usize = 0;
    while i < b.len()
        invariant
            b@.len() <= a@.len(),
            0 <= i <= b@.len(),
            forall|k: int| 0 <= k < i ==> views(a@)[k] == views(b@)[k],
        decreases b@.len() - i,
    {
        if !crate::text::chars_equal(a[i].as_slice(), b[i].as_slice()) {
            assert(views(a@).take(b@.len() as int)[i as int] != views(b@)[i as int]);
            return false;
        }
        i = i + 1;
    }
    assert(views(a@).take(b@.len() as int) =~= views(b@));
    true
}

/// The repository path that `raw` names, relative to the absolute `workspace`
/// when `raw` is absolute.
pub fn repository_path_exec(raw: &str, workspace: &str) -> (res: Result<String, PathError>)
    ensures
        match repository_path(raw@, workspace@) {
            Ok(p) => res matches Ok(s) && s@ == p,
            Err(e) => res is Err && res->Err_0 == e,
        },
{
    let r = crate::text::chars_of(raw);
    let parts = components_exec(&r);
    if r.len() > 0 && r[0] == '/' {
        let w = crate::text::chars_of(workspace);
        let base = components_exec(&w);
        if w.len() == 0 || w[0] != '/' || !prefix_parts(&parts, &base) {
            return Err(PathError::OutsideWorkspace);
        }
        if climbs_exec(&parts, base.len()) {
            return Err(PathError::Escapes);
        }
        let j = joined_exec(&parts, base.len());
        Ok(crate::text::string_of(&j))
    } else {
        if climbs_exec(&parts, 0) {
            assert(views(parts@).skip(0) =~= views(parts@));
            return Err(PathError::Escapes);
        }
        assert(views(parts@).skip(0) =~= views(parts@));
        let j = joined_exec(&parts, 0);
        Ok(crate::text::string_of(&j))
    }
}

} // verus!

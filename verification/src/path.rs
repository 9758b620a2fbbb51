//! Paths as text: the last name in a path, the directory that it is in, and joining the two.

use vstd::prelude::*;
use vstd::slice::slice_subrange;
use vstd::string::*;

use crate::text::{chars_of, text_of};

verus! {

/// The path `part` seen from the directory `base`.
pub open spec fn joined(base: Seq<char>, part: Seq<char>) -> Seq<char> {
    if part.len() > 0 && part[0] == '/' {
        part
    } else if base.len() == 0 || base.last() == '/' {
        base + part
    } else {
        base.push('/') + part
    }
}

/// Whether a path ends in a separator or a `.` that does not count. The root does, and so does a
/// `.` that is all there is.
pub open spec fn ends_idle(path: Seq<char>) -> bool {
    path.len() > 1 && (path.last() == '/' || (path.last() == '.' && path[path.len() - 2] == '/'))
}

/// A path without what does not count at its end.
pub open spec fn trimmed(path: Seq<char>) -> Seq<char>
    decreases path.len(),
{
    if ends_idle(path) {
        trimmed(path.drop_last())
    } else {
        path
    }
}

/// The length of the part of `path` that ends with its last separator.
pub open spec fn lead_len(path: Seq<char>) -> nat
    decreases path.len(),
{
    if path.len() == 0 || path.last() == '/' {
        path.len()
    } else {
        lead_len(path.drop_last())
    }
}

/// What comes last in a path: nothing in the root and in the empty path.
pub open spec fn last_part(path: Seq<char>) -> Seq<char> {
    trimmed(path).skip(lead_len(trimmed(path)) as int)
}

/// The directory that a path leads to before what comes last in it.
pub open spec fn parent_of(path: Seq<char>) -> Option<Seq<char>> {
    if last_part(path).len() == 0 {
        None
    } else {
        Some(trimmed(trimmed(path).take(lead_len(trimmed(path)) as int)))
    }
}

/// The name at the end of a path, where what comes last is one.
pub open spec fn file_name_of(path: Seq<char>) -> Option<Seq<char>> {
    let last = last_part(path);
    if last.len() == 0 || last == seq!['.'] || last == seq!['.', '.'] {
        None
    } else {
        Some(last)
    }
}

/// The path `part` seen from the directory `base`.
pub fn join_path(base: &str, part: &str) -> (r: String)
    ensures
        r@ == joined(base@, part@),
{
    let base_chars = chars_of(base);
    let part_chars = chars_of(part);
    if part_chars.len() > 0 && part_chars[0] == '/' {
        return part.to_owned();
    }
    let mut r = base.to_owned();
    if base_chars.len() > 0 && base_chars[base_chars.len() - 1] != '/' {
        r.push('/');
    }
    r.append(part);
    r
}

/// A path without what does not count at its end.
fn trim_path(path: &[char]) -> (r: &[char])
    ensures
        r@ == trimmed(path@),
{
    let mut n: usize = path.len();
    assert(path@.take(n as int) == path@);
    while n > 1 && (path[n - 1] == '/' || (path[n - 1] == '.' && path[n - 2] == '/'))
        invariant
            n <= path@.len(),
            trimmed(path@.take(n as int)) == trimmed(path@),
        decreases n,
    {
        assert(path@.take(n as int).drop_last() == path@.take(n - 1));
        n -= 1;
    }
    slice_subrange(path, 0, n)
}

/// The length of the part of `path` that ends with its last separator.
fn find_lead(path: &[char]) -> (r: usize)
    ensures
        r == lead_len(path@),
        r <= path@.len(),
{
    let mut n: usize = path.len();
    assert(path@.take(n as int) == path@);
    while n > 0 && path[n - 1] != '/'
        invariant
            n <= path@.len(),
            lead_len(path@.take(n as int)) == lead_len(path@),
        decreases n,
    {
        assert(path@.take(n as int).drop_last() == path@.take(n - 1));
        n -= 1;
    }
    n
}

/// The directory that a path leads to before what comes last in it.
pub fn parent(path: &str) -> (r: Option<String>)
    ensures
        match r {
            Some(dir) => parent_of(path@) == Some(dir@),
            None => parent_of(path@) is None,
        },
{
    let chars = chars_of(path);
    let path = trim_path(chars.as_slice());
    let n: usize = find_lead(path);
    if n == path.len() {
        return None;
    }
    let lead = slice_subrange(path, 0, n);
    assert(lead@ == path@.take(n as int));
    Some(text_of(trim_path(lead)))
}

/// The name at the end of a path, where what comes last is one.
pub fn file_name(path: &str) -> (r: Option<String>)
    ensures
        match r {
            Some(name) => file_name_of(path@) == Some(name@),
            None => file_name_of(path@) is None,
        },
{
    let chars = chars_of(path);
    let path = trim_path(chars.as_slice());
    let n: usize = find_lead(path);
    let last = slice_subrange(path, n, path.len());
    assert(last@ == path@.skip(n as int));
    if last.len() == 0 {
        return None;
    }
    if last.len() == 1 && last[0] == '.' {
        assert(last@ == seq!['.']);
        return None;
    }
    if last.len() == 2 && last[0] == '.' && last[1] == '.' {
        assert(last@ == seq!['.', '.']);
        return None;
    }
    Some(text_of(last))
}

/// What is left of a path ends in something that counts.
proof fn lemma_trimmed(path: Seq<char>)
    ensures
        !ends_idle(trimmed(path)),
        trimmed(trimmed(path)) == trimmed(path),
        trimmed(path).len() <= path.len(),
    decreases path.len(),
{
    if ends_idle(path) {
        lemma_trimmed(path.drop_last());
    }
}

/// Nothing behind the last separator is one.
proof fn lemma_lead(path: Seq<char>)
    ensures
        lead_len(path) <= path.len(),
        forall|i: int| lead_len(path) <= i < path.len() ==> path[i] != '/',
    decreases path.len(),
{
    if path.len() > 0 && path.last() != '/' {
        lemma_lead(path.drop_last());
        assert forall|i: int| lead_len(path) <= i < path.len() implies path[i] != '/' by {
            if i < path.len() - 1 {
                assert(path[i] == path.drop_last()[i]);
            }
        }
    }
}

/// The last separator is the one before a part that holds none.
proof fn lemma_lead_concat(lead: Seq<char>, name: Seq<char>)
    requires
        lead.len() > 0 ==> lead.last() == '/',
        forall|i: int| 0 <= i < name.len() ==> name[i] != '/',
    ensures
        lead_len(lead + name) == lead.len(),
    decreases name.len(),
{
    if name.len() > 0 {
        assert((lead + name).last() == name.last());
        assert((lead + name).drop_last() == lead + name.drop_last());
        lemma_lead_concat(lead, name.drop_last());
    } else {
        assert(lead + name == lead);
    }
}

/// A name is not empty, not `.` or `..`, and holds no separator.
pub open spec fn is_name(name: Seq<char>) -> bool {
    name.len() > 0 && name != seq!['.'] && name != seq!['.', '.'] && !name.contains('/')
}

/// What `file_name_of` finds is a name.
pub proof fn law_file_name(path: Seq<char>)
    ensures
        file_name_of(path) is Some ==> is_name(file_name_of(path)->0) && parent_of(path) is Some,
        parent_of(path) is None <==> trimmed(path).len() == 0 || trimmed(path) == seq!['/'],
{
    let t = trimmed(path);
    lemma_trimmed(path);
    lemma_lead(t);
    let last = last_part(path);
    assert forall|i: int| 0 <= i < last.len() implies last[i] != '/' by {
        assert(last[i] == t[lead_len(t) + i]);
    }
    if t.len() > 0 && t.last() == '/' {
        assert(t == seq!['/']);
    }
    if t.len() > 0 && t.last() != '/' {
        lemma_lead(t.drop_last());
    }
}

/// A name behind separated directories is found again, and so is the directory.
pub proof fn law_split(lead: Seq<char>, name: Seq<char>)
    requires
        lead.len() > 0 ==> lead.last() == '/',
        is_name(name),
    ensures
        file_name_of(lead + name) == Some(name),
        parent_of(lead + name) == Some(trimmed(lead)),
{
    let path = lead + name;
    assert forall|i: int| 0 <= i < name.len() implies name[i] != '/' by {
        assert(name.contains(name[i]));
    }
    assert(path.last() == name.last());
    if ends_idle(path) {
        if name.len() == 1 {
            assert(name == seq!['.']);
        } else {
            assert(path[path.len() - 2] == name[name.len() - 2]);
        }
        assert(false);
    }
    lemma_lead_concat(lead, name);
    assert(path.skip(lead.len() as int) == name);
    assert(path.take(lead.len() as int) == lead);
}

/// A name joined to the directory of a path lies in that directory.
pub proof fn law_joined(path: Seq<char>, name: Seq<char>)
    requires
        parent_of(path) is Some,
        is_name(name),
    ensures
        parent_of(joined(parent_of(path)->0, name)) == parent_of(path),
        file_name_of(joined(parent_of(path)->0, name)) == Some(name),
{
    let dir = parent_of(path)->0;
    lemma_trimmed(trimmed(path).take(lead_len(trimmed(path)) as int));
    assert(name.contains(name[0]));
    if dir.len() == 0 || dir.last() == '/' {
        law_split(dir, name);
    } else {
        law_split(dir.push('/'), name);
        assert(ends_idle(dir.push('/')));
        assert(dir.push('/').drop_last() == dir);
    }
}

/// What does not count at the end of a path: separators behind anything, and a `.` behind a
/// separator. Everything else stays.
pub proof fn law_trimmed(path: Seq<char>)
    ensures
        path.len() > 0 ==> trimmed(path.push('/')) == trimmed(path),
        path.len() > 0 ==> trimmed(path + seq!['/', '.']) == trimmed(path),
        trimmed(seq!['/', '.']) == seq!['/'],
        path.len() <= 1 || (path.last() != '/' && (path.last() != '.' || path[path.len() - 2] != '/'))
            ==> trimmed(path) == path,
        parent_of(trimmed(path)) == parent_of(path),
        file_name_of(trimmed(path)) == file_name_of(path),
{
    lemma_trimmed(path);
    let root = seq!['/', '.'];
    assert(root.drop_last() == seq!['/']);
    assert(trimmed(root.drop_last()) == seq!['/']);
    if path.len() > 0 {
        let fed = path.push('/');
        assert(fed.drop_last() == path);
        let dotted = path + seq!['/', '.'];
        assert(dotted.last() == '.');
        assert(dotted[dotted.len() - 2] == '/');
        assert(dotted.drop_last() == fed);
        assert(ends_idle(dotted));
        assert(ends_idle(fed));
        assert(trimmed(dotted) == trimmed(fed));
        assert(trimmed(fed) == trimmed(path));
    }
}

/// A path that ends in `..` has a directory and no name.
pub proof fn law_dots(lead: Seq<char>)
    requires
        lead.len() > 0 ==> lead.last() == '/',
    ensures
        file_name_of(lead + seq!['.', '.']) is None,
        parent_of(lead + seq!['.', '.']) == Some(trimmed(lead)),
        file_name_of(seq!['.']) is None,
        parent_of(seq!['.']) == Some(Seq::<char>::empty()),
{
    let dots = seq!['.', '.'];
    let path = lead + dots;
    assert(path.last() == '.' && path[path.len() - 2] == '.');
    lemma_lead_concat(lead, dots);
    assert(path.skip(lead.len() as int) == dots);
    assert(path.take(lead.len() as int) == lead);
    let dot = seq!['.'];
    lemma_lead_concat(Seq::empty(), dot);
    assert(Seq::<char>::empty() + dot == dot);
    assert(dot.skip(0) == dot);
    assert(dot.take(0) == Seq::<char>::empty());
}

/// A path from the root stays; another comes behind the directory, with one separator between.
pub proof fn law_join(base: Seq<char>, part: Seq<char>)
    ensures
        joined(base, seq!['/'] + part) == seq!['/'] + part,
        part.len() == 0 || part[0] != '/' ==> joined(base.push('/'), part) == base.push('/') + part,
        base.len() > 0 && base.last() != '/' && (part.len() == 0 || part[0] != '/') ==> joined(
            base,
            part,
        ) == base.push('/') + part,
        joined(Seq::empty(), part) == part,
{
    assert((seq!['/'] + part)[0] == '/');
    assert(Seq::<char>::empty() + part == part);
}

/// Whatever stands behind the last separator is the name, unless it is nothing, `.` or `..`; and
/// what stands before it is the directory.
pub proof fn law_name_behind_separator(lead: Seq<char>, name: Seq<char>)
    requires
        lead.len() > 0 ==> lead.last() == '/',
        name.len() > 0,
        name != seq!['.'],
        name != seq!['.', '.'],
        forall|i: int| 0 <= i < name.len() ==> #[trigger] name[i] != '/',
    ensures
        file_name_of(lead + name) == Some(name),
        parent_of(lead + name) == Some(trimmed(lead)),
{
    assert(!name.contains('/'));
    law_split(lead, name);
}

} // verus!

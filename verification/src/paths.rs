//! Unix paths as byte strings.
use crate::text;
use vstd::prelude::*;
use vstd::string::*;

verus! {

pub const SEPARATOR: u8 = 47;

/// Whether a path starts at the root.
pub open spec fn absolute(path: Seq<u8>) -> bool {
    path.len() > 0 && path[0] == SEPARATOR
}

pub fn is_absolute(path: &[u8]) -> (result: bool)
    ensures
        result == absolute(path@),
{
    path.len() > 0 && path[0] == SEPARATOR
}

/// A path with a relative path below it: one separator between the two, and
/// none after an empty base.
pub open spec fn joined(base: Seq<u8>, below: Seq<u8>) -> Seq<u8> {
    if absolute(below) {
        below
    } else if base.len() == 0 || base.last() == SEPARATOR {
        base + below
    } else {
        base.push(SEPARATOR) + below
    }
}

/// Appends a path below a base.
pub fn join(base: &[u8], below: &[u8]) -> (result: Vec<u8>)
    ensures
        result@ == joined(base@, below@),
{
    if is_absolute(below) {
        return vstd::slice::slice_to_vec(below);
    }
    let mut result: Vec<u8> = vstd::slice::slice_to_vec(base);
    if base.len() > 0 && base[base.len() - 1] != SEPARATOR {
        result.push(SEPARATOR);
    }
    result.extend_from_slice(below);
    assert(result@ =~= joined(base@, below@));
    result
}

/// Whether a byte string holds a NUL byte.
pub open spec fn has_nul(value: Seq<u8>) -> bool {
    exists|i: int| 0 <= i < value.len() && #[trigger] value[i] == 0
}

pub fn contains_nul(value: &[u8]) -> (result: bool)
    ensures
        result == has_nul(value@),
{
    let mut index: usize = 0;
    while index < value.len()
        invariant
            index <= value@.len(),
            forall|i: int| 0 <= i < index ==> #[trigger] value@[i] != 0,
        decreases value@.len() - index,
    {
        if value[index] == 0 {
            assert(value@[index as int] == 0);
            return true;
        }
        index = index + 1;
    }
    false
}

/// The components of a path below its start: what stands between separators,
/// without empty parts and without parts that are a single dot.
pub open spec fn components(path: Seq<u8>) -> Seq<Seq<u8>>
    decreases path.len(),
{
    let end = text::first_index(path, SEPARATOR);
    if path.len() == 0 {
        Seq::empty()
    } else if end < 0 || end >= path.len() {
        kept_component(path)
    } else {
        kept_component(path.take(end)) + components(path.skip(end + 1))
    }
}

/// One part of a path, unless it is empty or a single dot.
pub open spec fn kept_component(part: Seq<u8>) -> Seq<Seq<u8>> {
    if part.len() == 0 || part == seq![46u8] {
        Seq::empty()
    } else {
        seq![part]
    }
}

/// Splits a path into its components.
pub fn split_components(path: &[u8]) -> (parts: Vec<Vec<u8>>)
    ensures
        text::byte_views(parts@) == components(path@),
{
    let mut parts: Vec<Vec<u8>> = Vec::new();
    let mut start: usize = 0;
    assert(path@.skip(0) =~= path@);
    assert(text::byte_views(parts@) + components(path@.skip(0)) =~= components(path@));
    while start < path.len()
        invariant
            start <= path@.len(),
            text::byte_views(parts@) + components(path@.skip(start as int)) == components(path@),
        decreases path@.len() - start,
    {
        let rest = vstd::slice::slice_subrange(path, start, path.len());
        assert(rest@ =~= path@.skip(start as int));
        let ghost before = text::byte_views(parts@);
        let length: usize = text::find_byte(rest, SEPARATOR);
        let part = vstd::slice::slice_to_vec(vstd::slice::slice_subrange(rest, 0, length));
        assert(part@ =~= rest@.take(length as int));
        let dot = part.len() == 1 && part[0] == 46;
        proof {
            if dot {
                assert(part@ =~= seq![46u8]);
            }
        }
        if part.len() > 0 && !dot {
            parts.push(part);
        }
        assert(text::byte_views(parts@) =~= before + kept_component(part@));
        if length < rest.len() {
            assert(rest@.skip(length + 1) =~= path@.skip(start + length + 1));
            assert(text::byte_views(parts@) + components(path@.skip(start + length + 1)) =~= before
                + components(rest@));
            start = start + length + 1;
        } else {
            assert(part@ =~= rest@);
            assert(path@.skip(path@.len() as int) =~= Seq::<u8>::empty());
            assert(text::byte_views(parts@) + components(path@.skip(path@.len() as int))
                =~= before + components(rest@));
            start = path.len();
        }
    }
    assert(path@.skip(start as int) =~= Seq::<u8>::empty());
    assert(text::byte_views(parts@) + components(path@.skip(start as int)) =~= text::byte_views(
        parts@,
    ));
    parts
}

/// The last component, unless it leads to a parent.
pub open spec fn final_name(path: Seq<u8>) -> Option<Seq<u8>> {
    let parts = components(path);
    if parts.len() == 0 || parts.last() == seq![46u8, 46u8] {
        None
    } else {
        Some(parts.last())
    }
}

/// The file name of a path.
pub fn file_name(path: &[u8]) -> (result: Option<Vec<u8>>)
    ensures
        match result {
            Some(name) => final_name(path@) == Some(name@),
            None => final_name(path@) is None,
        },
{
    let mut parts = split_components(path);
    let ghost all = components(path@);
    if parts.len() == 0 {
        return None;
    }
    assert(all.last() == parts@.last()@);
    let last = parts.pop().unwrap();
    if last.len() == 2 && last[0] == 46 && last[1] == 46 {
        assert(last@ =~= seq![46u8, 46u8]);
        return None;
    }
    proof {
        if last@ == seq![46u8, 46u8] {
            assert(last@[0] == 46 && last@[1] == 46);
        }
    }
    Some(last)
}

/// Whether two paths name the same place by their components.
pub open spec fn same_place(left: Seq<u8>, right: Seq<u8>) -> bool {
    absolute(left) == absolute(right) && components(left) == components(right)
}

/// Compares absolute paths by their components.
pub fn is_same_place(left: &[u8], right: &[u8]) -> (result: bool)
    ensures
        result == same_place(left@, right@),
{
    if is_absolute(left) != is_absolute(right) {
        return false;
    }
    let a = split_components(left);
    let b = split_components(right);
    let ghost x = components(left@);
    let ghost y = components(right@);
    if a.len() != b.len() {
        assert(x.len() != y.len());
        return false;
    }
    let mut index: usize = 0;
    while index < a.len()
        invariant
            index <= a@.len(),
            a@.len() == b@.len(),
            x == text::byte_views(a@),
            y == text::byte_views(b@),
            x == components(left@),
            y == components(right@),
            forall|i: int| 0 <= i < index ==> x[i] == y[i],
        decreases a@.len() - index,
    {
        assert(x[index as int] == a@[index as int]@ && y[index as int] == b@[index as int]@);
        if !text::same_bytes(a[index].as_slice(), b[index].as_slice()) {
            return false;
        }
        index = index + 1;
    }
    assert(x =~= y);
    true
}

/// A path that starts at the root, without separators and single dots at its
/// end.
pub open spec fn without_tail(path: Seq<u8>) -> Seq<u8>
    decreases path.len(),
{
    if path.len() <= 1 {
        path
    } else if path.last() == SEPARATOR {
        without_tail(path.drop_last())
    } else if path.last() == 46 && path[path.len() - 2] == SEPARATOR {
        without_tail(path.drop_last())
    } else {
        path
    }
}

/// A path up to and with its last separator.
pub open spec fn up_to_separator(path: Seq<u8>) -> Seq<u8>
    decreases path.len(),
{
    if path.len() == 0 || path.last() == SEPARATOR {
        path
    } else {
        up_to_separator(path.drop_last())
    }
}

/// The directory that holds a path which starts at the root.
pub open spec fn parent_of(path: Seq<u8>) -> Option<Seq<u8>> {
    let trimmed = without_tail(path);
    if trimmed.len() <= 1 {
        None
    } else {
        Some(without_tail(up_to_separator(trimmed)))
    }
}

fn trim_tail(path: &[u8]) -> (end: usize)
    ensures
        end <= path@.len(),
        path@.take(end as int) == without_tail(path@),
{
    let mut end: usize = path.len();
    assert(path@.take(end as int) =~= path@);
    while end > 1 && (path[end - 1] == SEPARATOR || (path[end - 1] == 46 && path[end - 2]
        == SEPARATOR))
        invariant
            end <= path@.len(),
            without_tail(path@.take(end as int)) == without_tail(path@),
        decreases end,
    {
        assert(path@.take(end as int).drop_last() =~= path@.take(end - 1));
        end = end - 1;
    }
    end
}

/// The directory that holds an absolute path.
pub fn parent(path: &[u8]) -> (result: Option<Vec<u8>>)
    requires
        absolute(path@),
    ensures
        match result {
            Some(directory) => parent_of(path@) == Some(directory@),
            None => parent_of(path@) is None,
        },
{
    let end: usize = trim_tail(path);
    if end <= 1 {
        return None;
    }
    let ghost trimmed = path@.take(end as int);
    let mut at: usize = end;
    while at > 0 && path[at - 1] != SEPARATOR
        invariant
            at <= end <= path@.len(),
            trimmed == path@.take(end as int),
            up_to_separator(path@.take(at as int)) == up_to_separator(trimmed),
        decreases at,
    {
        assert(path@.take(at as int).drop_last() =~= path@.take(at - 1));
        at = at - 1;
    }
    let above = vstd::slice::slice_subrange(path, 0, at);
    assert(above@ =~= path@.take(at as int));
    let length: usize = trim_tail(above);
    let directory = vstd::slice::slice_to_vec(vstd::slice::slice_subrange(above, 0, length));
    assert(directory@ =~= above@.take(length as int));
    Some(directory)
}

/// Whether a path is a place or lies below it, by components.
pub open spec fn below(path: Seq<u8>, base: Seq<u8>) -> bool {
    &&& absolute(path) == absolute(base)
    &&& components(base).len() <= components(path).len()
    &&& components(path).take(components(base).len() as int) == components(base)
}

/// Checks whether a path is a place or lies below it.
pub fn is_below(path: &[u8], base: &[u8]) -> (result: bool)
    ensures
        result == below(path@, base@),
{
    if is_absolute(path) != is_absolute(base) {
        return false;
    }
    let a = split_components(path);
    let b = split_components(base);
    let ghost x = components(path@);
    let ghost y = components(base@);
    if b.len() > a.len() {
        return false;
    }
    let mut index: usize = 0;
    while index < b.len()
        invariant
            index <= b@.len() <= a@.len(),
            x == text::byte_views(a@),
            y == text::byte_views(b@),
            x == components(path@),
            y == components(base@),
            forall|i: int| 0 <= i < index ==> x[i] == y[i],
        decreases b@.len() - index,
    {
        assert(x[index as int] == a@[index as int]@ && y[index as int] == b@[index as int]@);
        if !text::same_bytes(a[index].as_slice(), b[index].as_slice()) {
            assert(x.take(y.len() as int)[index as int] != y[index as int]);
            return false;
        }
        index = index + 1;
    }
    assert(x.take(y.len() as int) =~= y);
    true
}

/// Whether a path is one plain name.
pub open spec fn single_name(path: Seq<u8>) -> bool {
    &&& !absolute(path)
    &&& !(path.len() >= 2 && path[0] == 46 && path[1] == SEPARATOR)
    &&& components(path).len() == 1
    &&& components(path)[0] != seq![46u8, 46u8]
}

/// Checks whether a path is one plain name.
pub fn is_single_path_component(path: &[u8]) -> (result: bool)
    ensures
        result == single_name(path@),
{
    if is_absolute(path) || (path.len() >= 2 && path[0] == 46 && path[1] == SEPARATOR) {
        return false;
    }
    let parts = split_components(path);
    if parts.len() != 1 {
        return false;
    }
    let ghost all = components(path@);
    assert(all[0] == parts@[0]@);
    let part = parts[0].as_slice();
    if part.len() == 2 && part[0] == 46 && part[1] == 46 {
        assert(part@ =~= seq![46u8, 46u8]);
        false
    } else {
        assert(seq![46u8, 46u8][0] == 46u8 && seq![46u8, 46u8][1] == 46u8);
        true
    }
}

proof fn lemma_components_join(base: Seq<u8>, name: Seq<u8>)
    requires
        !name.contains(47u8),
    ensures
        components(base + seq![47u8] + name) == components(base) + kept_component(name),
    decreases base.len(),
{
    let all = base + seq![47u8] + name;
    text::lemma_first_index(base, 47u8);
    let end = text::first_index(base, 47u8);
    lemma_one_component(name);
    if end < base.len() {
        text::lemma_first_index_is(all, 47u8, end);
        let rest = base.skip(end + 1);
        assert(all.take(end) =~= base.take(end));
        assert(all.skip(end + 1) =~= rest + seq![47u8] + name);
        lemma_components_join(rest, name);
        assert(components(all) =~= kept_component(base.take(end)) + (components(rest)
            + kept_component(name)));
        assert(components(base) == kept_component(base.take(end)) + components(rest));
    } else {
        assert forall|i: int| 0 <= i < base.len() implies all[i] != 47u8 by {
            assert(all[i] == base[i]);
        }
        text::lemma_first_index_is(all, 47u8, base.len() as int);
        assert(all.take(base.len() as int) =~= base);
        assert(all.skip(base.len() as int + 1) =~= name);
        if base.len() == 0 {
            assert(kept_component(base) =~= Seq::<Seq<u8>>::empty());
        }
    }
}

proof fn lemma_one_component(name: Seq<u8>)
    requires
        !name.contains(47u8),
    ensures
        components(name) == kept_component(name),
{
    assert forall|i: int| 0 <= i < name.len() implies name[i] != 47u8 by {
        assert(name.contains(name[i]));
    }
    text::lemma_first_index_is(name, 47u8, name.len() as int);
    if name.len() == 0 {
        assert(kept_component(name) =~= Seq::<Seq<u8>>::empty());
    }
}

proof fn lemma_cut_at_separator(base: Seq<u8>, name: Seq<u8>)
    requires
        !name.contains(47u8),
    ensures
        up_to_separator(base + seq![47u8] + name) == base + seq![47u8],
    decreases name.len(),
{
    let all = base + seq![47u8] + name;
    if name.len() == 0 {
        assert(all =~= base + seq![47u8]);
        assert(all.last() == 47u8);
    } else {
        let shorter = name.drop_last();
        assert(name.contains(name.last()));
        assert(all.last() == name.last());
        assert forall|i: int| 0 <= i < shorter.len() implies shorter[i] != 47u8 by {
            assert(name.contains(name[i]));
        }
        lemma_cut_at_separator(base, shorter);
        assert(all.drop_last() =~= base + seq![47u8] + shorter);
    }
}

/// A name that is joined to a directory lies below it: the directory is its
/// parent, and the name its last part.
pub proof fn joined_paths_come_apart(base: Seq<u8>, name: Seq<u8>)
    requires
        base.len() > 1,
        base[0] == '/' as u8,
        base.last() != '/' as u8,
        base.last() != '.' as u8,
        name.len() > 0,
        !name.contains('/' as u8),
        name.last() != '.' as u8,
    ensures
        joined(base, name) == base + seq!['/' as u8] + name,
        final_name(joined(base, name)) == Some(name),
        parent_of(joined(base, name)) == Some(base),
        below(joined(base, name), base),
        absolute(joined(base, name)),
{
    let all = base + seq![47u8] + name;
    assert(name.contains(name[0]));
    assert(base.push(47u8) + name =~= all);
    lemma_components_join(base, name);
    assert(kept_component(name) == seq![name]);
    let parts = components(all);
    assert(parts.last() == name);
    assert(name != seq![46u8, 46u8]);
    assert(parts.take(components(base).len() as int) =~= components(base));
    assert(name.contains(name.last()));
    assert(all.last() == name.last());
    assert(without_tail(all) == all);
    lemma_cut_at_separator(base, name);
    let cut = base + seq![47u8];
    assert(cut.drop_last() =~= base);
    assert(cut.last() == 47u8);
    assert(without_tail(base) == base);
    assert(without_tail(cut) == without_tail(base));
}

} // verus!

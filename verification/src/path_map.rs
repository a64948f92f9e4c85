//! Values kept in the order of the paths they belong to.
use crate::paths;
use crate::text;
use vstd::prelude::*;

verus! {

/// Whether bytes come before others in dictionary order.
pub open spec fn bytes_before(left: Seq<u8>, right: Seq<u8>) -> bool
    decreases left.len(),
{
    if right.len() == 0 {
        false
    } else if left.len() == 0 {
        true
    } else if left[0] != right[0] {
        left[0] < right[0]
    } else {
        bytes_before(left.skip(1), right.skip(1))
    }
}

pub proof fn lemma_bytes_total(left: Seq<u8>, right: Seq<u8>)
    ensures
        left == right ==> !bytes_before(left, right),
        left != right ==> bytes_before(left, right) != bytes_before(right, left),
    decreases left.len(),
{
    if left.len() > 0 && right.len() > 0 {
        lemma_bytes_total(left.skip(1), right.skip(1));
        if left.skip(1) == right.skip(1) && left[0] == right[0] {
            assert(left =~= seq![left[0]] + left.skip(1));
            assert(right =~= seq![right[0]] + right.skip(1));
        }
    } else if left.len() == 0 && right.len() == 0 {
        assert(left =~= right);
    }
}

pub proof fn lemma_bytes_transitive(a: Seq<u8>, b: Seq<u8>, c: Seq<u8>)
    requires
        bytes_before(a, b),
        bytes_before(b, c),
    ensures
        bytes_before(a, c),
    decreases a.len(),
{
    if a.len() > 0 && a[0] == b[0] && b[0] == c[0] {
        lemma_bytes_transitive(a.skip(1), b.skip(1), c.skip(1));
    }
}

/// Compares bytes in dictionary order.
pub fn is_bytes_before(left: &[u8], right: &[u8]) -> (result: bool)
    ensures
        result == bytes_before(left@, right@),
{
    let mut index: usize = 0;
    assert(left@.skip(0) =~= left@);
    assert(right@.skip(0) =~= right@);
    while index < left.len() && index < right.len() && left[index] == right[index]
        invariant
            index <= left@.len(),
            index <= right@.len(),
            bytes_before(left@, right@) == bytes_before(
                left@.skip(index as int),
                right@.skip(index as int),
            ),
        decreases left@.len() - index,
    {
        assert(left@.skip(index as int).skip(1) =~= left@.skip(index + 1));
        assert(right@.skip(index as int).skip(1) =~= right@.skip(index + 1));
        assert(left@.skip(index as int)[0] == right@.skip(index as int)[0]);
        index = index + 1;
    }
    if index >= right.len() {
        return false;
    }
    if index >= left.len() {
        return true;
    }
    assert(left@.skip(index as int)[0] == left@[index as int]);
    assert(right@.skip(index as int)[0] == right@[index as int]);
    left[index] < right[index]
}

/// A step to the parent directory.
pub open spec fn parent_step() -> Seq<u8> {
    seq![46u8, 46u8]
}

/// Whether a path component comes before another: a step to the parent comes
/// first, names follow in dictionary order.
pub open spec fn component_before(left: Seq<u8>, right: Seq<u8>) -> bool {
    if right == parent_step() {
        false
    } else if left == parent_step() {
        true
    } else {
        bytes_before(left, right)
    }
}

fn is_parent_step(component: &[u8]) -> (result: bool)
    ensures
        result == (component@ == parent_step()),
{
    if component.len() == 2 && component[0] == 46 && component[1] == 46 {
        assert(component@ =~= parent_step());
        true
    } else {
        assert(parent_step()[0] == 46 && parent_step()[1] == 46);
        false
    }
}

/// Whether components come before others, compared one by one.
pub open spec fn components_before(left: Seq<Seq<u8>>, right: Seq<Seq<u8>>) -> bool
    decreases left.len(),
{
    if right.len() == 0 {
        false
    } else if left.len() == 0 {
        true
    } else if left[0] != right[0] {
        component_before(left[0], right[0])
    } else {
        components_before(left.skip(1), right.skip(1))
    }
}

proof fn lemma_components_total(left: Seq<Seq<u8>>, right: Seq<Seq<u8>>)
    ensures
        left == right ==> !components_before(left, right),
        left != right ==> components_before(left, right) != components_before(right, left),
    decreases left.len(),
{
    if left.len() > 0 && right.len() > 0 {
        lemma_bytes_total(left[0], right[0]);
        lemma_components_total(left.skip(1), right.skip(1));
        if left.skip(1) == right.skip(1) && left[0] == right[0] {
            assert(left =~= seq![left[0]] + left.skip(1));
            assert(right =~= seq![right[0]] + right.skip(1));
        }
    } else if left.len() == 0 && right.len() == 0 {
        assert(left =~= right);
    }
}

proof fn lemma_components_transitive(a: Seq<Seq<u8>>, b: Seq<Seq<u8>>, c: Seq<Seq<u8>>)
    requires
        components_before(a, b),
        components_before(b, c),
    ensures
        components_before(a, c),
    decreases a.len(),
{
    if a.len() > 0 {
        if a[0] == b[0] && b[0] == c[0] {
            lemma_components_transitive(a.skip(1), b.skip(1), c.skip(1));
        } else if a[0] != b[0] && b[0] != c[0] {
            lemma_bytes_total(a[0], b[0]);
            lemma_bytes_total(b[0], c[0]);
            if a[0] != parent_step() {
                lemma_bytes_transitive(a[0], b[0], c[0]);
            }
            lemma_bytes_total(a[0], c[0]);
        }
    }
}

/// Whether an absolute path comes before another.
pub open spec fn path_before(left: Seq<u8>, right: Seq<u8>) -> bool {
    components_before(paths::components(left), paths::components(right))
}

/// Compares absolute paths by their components.
pub fn is_path_before(left: &[u8], right: &[u8]) -> (result: bool)
    ensures
        result == path_before(left@, right@),
{
    let a = paths::split_components(left);
    let b = paths::split_components(right);
    let ghost x = text::byte_views(a@);
    let ghost y = text::byte_views(b@);
    let mut index: usize = 0;
    assert(x.skip(0) =~= x);
    assert(y.skip(0) =~= y);
    while index < a.len() && index < b.len() && text::same_bytes(
        a[index].as_slice(),
        b[index].as_slice(),
    )
        invariant
            index <= a@.len(),
            index <= b@.len(),
            x == text::byte_views(a@),
            y == text::byte_views(b@),
            components_before(x, y) == components_before(x.skip(index as int), y.skip(index as int)),
        decreases a@.len() - index,
    {
        assert(x.skip(index as int).skip(1) =~= x.skip(index + 1));
        assert(y.skip(index as int).skip(1) =~= y.skip(index + 1));
        assert(x.skip(index as int)[0] == a@[index as int]@);
        assert(y.skip(index as int)[0] == b@[index as int]@);
        index = index + 1;
    }
    if index >= b.len() {
        return false;
    }
    if index >= a.len() {
        return true;
    }
    assert(x.skip(index as int)[0] == a@[index as int]@);
    assert(y.skip(index as int)[0] == b@[index as int]@);
    let first = a[index].as_slice();
    let second = b[index].as_slice();
    if is_parent_step(second) {
        false
    } else if is_parent_step(first) {
        true
    } else {
        is_bytes_before(first, second)
    }
}

/// Values under absolute paths, in the order of the paths.
#[derive(Debug)]
pub struct PathMap<T> {
    entries: Vec<(Vec<u8>, T)>,
}

/// Paths with their values.
pub open spec fn path_entries<T>(entries: Seq<(Vec<u8>, T)>) -> Seq<(Seq<u8>, T)> {
    entries.map_values(|entry: (Vec<u8>, T)| (entry.0@, entry.1))
}

impl<T> View for PathMap<T> {
    type V = Seq<(Seq<u8>, T)>;

    closed spec fn view(&self) -> Seq<(Seq<u8>, T)> {
        path_entries(self.entries@)
    }
}

/// A value put in its place, unless its path has one already.
pub open spec fn placed<T>(entries: Seq<(Seq<u8>, T)>, path: Seq<u8>, value: T) -> Seq<
    (Seq<u8>, T),
>
    decreases entries.len(),
{
    if entries.len() == 0 {
        seq![(path, value)]
    } else if paths::components(path) == paths::components(entries[0].0) {
        entries
    } else if path_before(path, entries[0].0) {
        seq![(path, value)] + entries
    } else {
        seq![entries[0]] + placed(entries.skip(1), path, value)
    }
}

/// Whether paths stand in strictly rising order.
pub open spec fn in_order<T>(entries: Seq<(Seq<u8>, T)>) -> bool {
    forall|i: int, j: int|
        0 <= i < j < entries.len() ==> path_before(
            (#[trigger] entries[i]).0,
            (#[trigger] entries[j]).0,
        )
}

/// Whether one of some entries stands under a path.
pub open spec fn has_path<T>(entries: Seq<(Seq<u8>, T)>, path: Seq<u8>) -> bool {
    exists|i: int|
        0 <= i < entries.len() && paths::components((#[trigger] entries[i]).0) == paths::components(
            path,
        )
}

/// What an insertion does to entries in order: they stay in order; every
/// entry there was stays; the value is there afterwards if its path was new;
/// and nothing else comes in.
pub proof fn placed_keeps_order<T>(entries: Seq<(Seq<u8>, T)>, path: Seq<u8>, value: T)
    requires
        in_order(entries),
    ensures
        in_order(placed(entries, path, value)),
        has_path(placed(entries, path, value), path),
        has_path(entries, path) ==> placed(entries, path, value) == entries,
        !has_path(entries, path) ==> placed(entries, path, value).len() == entries.len() + 1,
        !has_path(entries, path) ==> placed(entries, path, value).contains((path, value)),
        forall|i: int|
            0 <= i < entries.len() ==> placed(entries, path, value).contains(#[trigger] entries[i]),
        forall|entry: (Seq<u8>, T)| #[trigger]
            placed(entries, path, value).contains(entry) ==> entry == (path, value)
                || entries.contains(entry),
    decreases entries.len(),
{
    let after = placed(entries, path, value);
    if entries.len() == 0 {
        assert(after[0] == (path, value));
    } else {
        let head = entries[0];
        let tail = entries.skip(1);
        lemma_components_total(paths::components(path), paths::components(head.0));
        if paths::components(path) == paths::components(head.0) {
            assert(entries[0] == head);
            assert(after == entries);
        } else if path_before(path, head.0) {
            assert(after[0] == (path, value));
            assert forall|i: int| 0 <= i < entries.len() implies #[trigger] after.contains(
                entries[i],
            ) by {
                assert(after[i + 1] == entries[i]);
            }
            assert forall|i: int| 0 <= i < entries.len() implies path_before(
                path,
                (#[trigger] entries[i]).0,
            ) by {
                if i > 0 {
                    lemma_components_transitive(
                        paths::components(path),
                        paths::components(head.0),
                        paths::components(entries[i].0),
                    );
                }
            }
            assert forall|i: int, j: int| 0 <= i < j < after.len() implies path_before(
                (#[trigger] after[i]).0,
                (#[trigger] after[j]).0,
            ) by {
                if i > 0 {
                    assert(after[i] == entries[i - 1] && after[j] == entries[j - 1]);
                } else {
                    assert(after[j] == entries[j - 1]);
                }
            }
            assert forall|i: int| 0 <= i < entries.len() implies paths::components(
                (#[trigger] entries[i]).0,
            ) != paths::components(path) by {
                lemma_components_total(paths::components(path), paths::components(entries[i].0));
            }
            assert forall|entry: (Seq<u8>, T)| #[trigger] after.contains(entry) implies entry == (
                path,
                value,
            ) || entries.contains(entry) by {
                let at = choose|at: int| 0 <= at < after.len() && after[at] == entry;
                if at > 0 {
                    assert(entries[at - 1] == entry);
                }
            }
        } else {
            assert forall|i: int, j: int| 0 <= i < j < tail.len() implies path_before(
                (#[trigger] tail[i]).0,
                (#[trigger] tail[j]).0,
            ) by {
                assert(tail[i] == entries[i + 1] && tail[j] == entries[j + 1]);
            }
            placed_keeps_order(tail, path, value);
            let inner = placed(tail, path, value);
            assert(after == seq![head] + inner);
            assert forall|k: int| 0 <= k < inner.len() implies path_before(
                head.0,
                (#[trigger] inner[k]).0,
            ) by {
                assert(inner.contains(inner[k]));
                if inner[k] != (path, value) {
                    let at = choose|at: int| 0 <= at < tail.len() && tail[at] == inner[k];
                    assert(tail[at] == entries[at + 1]);
                }
            }
            assert forall|i: int, j: int| 0 <= i < j < after.len() implies path_before(
                (#[trigger] after[i]).0,
                (#[trigger] after[j]).0,
            ) by {
                assert(after[j] == inner[j - 1]);
                if i > 0 {
                    assert(after[i] == inner[i - 1]);
                }
            }
            assert forall|i: int| 0 <= i < entries.len() implies #[trigger] after.contains(
                entries[i],
            ) by {
                if i == 0 {
                    assert(after[0] == head);
                } else {
                    assert(tail[i - 1] == entries[i]);
                    let at = choose|at: int| 0 <= at < inner.len() && inner[at] == entries[i];
                    assert(after[at + 1] == inner[at]);
                }
            }
            assert forall|entry: (Seq<u8>, T)| #[trigger] after.contains(entry) implies entry == (
                path,
                value,
            ) || entries.contains(entry) by {
                let at = choose|at: int| 0 <= at < after.len() && after[at] == entry;
                if at == 0 {
                    assert(entries[0] == entry);
                } else {
                    assert(inner[at - 1] == entry);
                    assert(inner.contains(entry));
                    if entry != (path, value) {
                        let from = choose|from: int| 0 <= from < tail.len() && tail[from] == entry;
                        assert(entries[from + 1] == entry);
                    }
                }
            }
            let found = choose|k: int|
                0 <= k < inner.len() && paths::components((#[trigger] inner[k]).0)
                    == paths::components(path);
            assert(after[found + 1] == inner[found]);
            if has_path(entries, path) {
                let at = choose|at: int|
                    0 <= at < entries.len() && paths::components((#[trigger] entries[at]).0)
                        == paths::components(path);
                assert(at > 0);
                assert(tail[at - 1] == entries[at]);
                assert(inner == tail);
                assert(after =~= entries);
            } else {
                assert forall|k: int| 0 <= k < tail.len() implies paths::components(
                    (#[trigger] tail[k]).0,
                ) != paths::components(path) by {
                    assert(tail[k] == entries[k + 1]);
                }
                let at = choose|at: int| 0 <= at < inner.len() && inner[at] == (path, value);
                assert(after[at + 1] == (path, value));
            }
        }
    }
}

impl<T> PathMap<T> {
    #[verifier::type_invariant]
    spec fn sorted(self) -> bool {
        in_order(self@)
    }

    pub fn new() -> (result: Self)
        ensures
            result@ == Seq::<(Seq<u8>, T)>::empty(),
    {
        let map = PathMap { entries: Vec::new() };
        assert(map@ =~= Seq::<(Seq<u8>, T)>::empty());
        map
    }

    pub fn len(&self) -> (result: usize)
        ensures
            result == self@.len(),
    {
        self.entries.len()
    }

    /// Puts a value in its place, unless its path has one already. Says
    /// whether the path was new.
    pub fn insert_if_absent(&mut self, path: Vec<u8>, value: T) -> (result: bool)
        ensures
            final(self)@ == placed(old(self)@, path@, value),
            in_order(final(self)@),
            result == !has_path(old(self)@, path@),
    {
        proof {
            use_type_invariant(&*self);
            placed_keeps_order(self@, path@, value);
        }
        let ghost all = self@;
        let ghost sought = paths::components(path@);
        let mut index: usize = 0;
        assert(all.skip(0) =~= all);
        assert(placed(all, path@, value) =~= all.take(0) + placed(all.skip(0), path@, value));
        while index < self.entries.len()
            invariant
                index <= self.entries@.len(),
                all == self@,
                in_order(all),
                sought == paths::components(path@),
                placed(all, path@, value) == all.take(index as int) + placed(
                    all.skip(index as int),
                    path@,
                    value,
                ),
                forall|i: int|
                    0 <= i < index ==> paths::components((#[trigger] all[i]).0) != sought,
            ensures
                index <= self.entries@.len(),
                placed(all, path@, value) == all.take(index as int).push((path@, value)) + all.skip(
                    index as int,
                ),
                !has_path(all, path@),
            decreases self.entries@.len() - index,
        {
            let ghost rest = all.skip(index as int);
            assert(rest[0] == all[index as int]);
            assert(all[index as int].0 == self.entries@[index as int].0@);
            proof {
                lemma_components_total(sought, paths::components(all[index as int].0));
            }
            if same_components(path.as_slice(), self.entries[index].0.as_slice()) {
                assert(all.take(index as int) + rest =~= all);
                assert(has_path(all, path@));
                return false;
            }
            if is_path_before(path.as_slice(), self.entries[index].0.as_slice()) {
                assert(all.take(index as int) + (seq![(path@, value)] + rest) =~= all.take(
                    index as int,
                ).push((path@, value)) + rest);
                assert forall|i: int| 0 <= i < all.len() implies paths::components(
                    (#[trigger] all[i]).0,
                ) != sought by {
                    if i > index {
                        lemma_components_transitive(
                            sought,
                            paths::components(all[index as int].0),
                            paths::components(all[i].0),
                        );
                        lemma_components_total(sought, paths::components(all[i].0));
                    }
                }
                break;
            }
            assert(rest.skip(1) =~= all.skip(index + 1));
            assert(all.take(index as int) + (seq![all[index as int]] + placed(
                all.skip(index + 1),
                path@,
                value,
            )) =~= all.take(index + 1) + placed(all.skip(index + 1), path@, value));
            index = index + 1;
            proof {
                if index == all.len() {
                    assert(all.skip(index as int) =~= Seq::<(Seq<u8>, T)>::empty());
                    assert(all.take(index as int) + seq![(path@, value)] =~= all.take(
                        index as int,
                    ).push((path@, value)) + all.skip(index as int));
                }
            }
        }
        let ghost before = self.entries@;
        let mut entries: Vec<(Vec<u8>, T)> = Vec::new();
        std::mem::swap(&mut entries, &mut self.entries);
        entries.insert(index, (path, value));
        assert(path_entries(entries@) =~= all.take(index as int).push((path@, value)) + all.skip(
            index as int,
        ));
        self.entries = entries;
        true
    }

    /// The paths with their values, in order.
    pub fn entries(&self) -> (result: &[(Vec<u8>, T)])
        ensures
            path_entries(result@) == self@,
            in_order(self@),
    {
        proof {
            use_type_invariant(self);
        }
        self.entries.as_slice()
    }

    /// The paths with their values, in order.
    pub fn into_entries(self) -> (result: Vec<(Vec<u8>, T)>)
        ensures
            path_entries(result@) == self@,
            in_order(self@),
    {
        proof {
            use_type_invariant(&self);
        }
        self.entries
    }
}

fn same_components(left: &[u8], right: &[u8]) -> (result: bool)
    ensures
        result == (paths::components(left@) == paths::components(right@)),
{
    proof {
        lemma_components_total(paths::components(left@), paths::components(right@));
    }
    !is_path_before(left, right) && !is_path_before(right, left)
}

/// Names are ordered by the first byte in which they differ, and one that goes
/// on comes behind one that ends.
pub proof fn the_first_difference_orders(
    common: Seq<u8>,
    left: u8,
    left_rest: Seq<u8>,
    right: u8,
    right_rest: Seq<u8>,
)
    requires
        left != right,
    ensures
        bytes_before(common + seq![left] + left_rest, common + seq![right] + right_rest) <==> left
            < right,
        bytes_before(common, common + seq![right] + right_rest),
        !bytes_before(common + seq![left] + left_rest, common),
    decreases common.len(),
{
    let first = common + seq![left] + left_rest;
    let second = common + seq![right] + right_rest;
    if common.len() == 0 {
        assert(first[0] == left && second[0] == right);
    } else {
        let rest = common.skip(1);
        the_first_difference_orders(rest, left, left_rest, right, right_rest);
        assert(first[0] == common[0] && second[0] == common[0]);
        assert(first.skip(1) =~= rest + seq![left] + left_rest);
        assert(second.skip(1) =~= rest + seq![right] + right_rest);
    }
}

} // verus!

//! File-system paths as the bytes of their components.
use crate::order::{number_order, Order};
use vstd::prelude::*;
use vstd::utf8::encode_utf8;

verus! {

/// A path: the prefix and root it starts from, empty for a relative path, and
/// the names below, outermost first.
#[derive(Debug)]
pub struct RawPath {
    pub anchor: Vec<u8>,
    pub names: Vec<Vec<u8>>,
}

/// What a `RawPath` stands for.
#[verifier::ext_equal]
pub struct PathModel {
    pub anchor: Seq<u8>,
    pub names: Seq<Seq<u8>>,
}

/// The contents of a list of byte strings.
pub open spec fn byte_strings(names: Seq<Vec<u8>>) -> Seq<Seq<u8>> {
    names.map_values(|n: Vec<u8>| n@)
}

impl View for RawPath {
    type V = PathModel;

    open spec fn view(&self) -> PathModel {
        PathModel { anchor: self.anchor@, names: byte_strings(self.names@) }
    }
}

/// Whether two byte strings are the same.
pub fn same_bytes(a: &Vec<u8>, b: &Vec<u8>) -> (r: bool)
    ensures
        r == (a@ == b@),
{
    if a.len() != b.len() {
        return false;
    }
    let mut i: usize = 0;
    while i < a.len()
        invariant
            i <= a@.len() == b@.len(),
            forall|k: int| 0 <= k < i ==> a@[k] == b@[k],
        decreases a@.len() - i,
    {
        if a[i] != b[i] {
            return false;
        }
        i = i + 1;
    }
    assert(a@ =~= b@);
    true
}

/// Whether two lists of byte strings are the same.
pub fn same_names(a: &Vec<Vec<u8>>, b: &Vec<Vec<u8>>) -> (r: bool)
    ensures
        r == (byte_strings(a@) == byte_strings(b@)),
{
    let ghost x = byte_strings(a@);
    let ghost y = byte_strings(b@);
    if a.len() != b.len() {
        assert(x.len() != y.len());
        return false;
    }
    let mut i: usize = 0;
    while i < a.len()
        invariant
            i <= a@.len() == b@.len(),
            x == byte_strings(a@),
            y == byte_strings(b@),
            forall|k: int| 0 <= k < i ==> x[k] == y[k],
        decreases a@.len() - i,
    {
        if !same_bytes(&a[i], &b[i]) {
            assert(x[i as int] != y[i as int]);
            return false;
        }
        assert(x[i as int] == a@[i as int]@ && y[i as int] == b@[i as int]@);
        i = i + 1;
    }
    assert(x =~= y);
    true
}

/// The lexicographic order of two byte strings.
pub open spec fn bytes_order(a: Seq<u8>, b: Seq<u8>) -> Order
    decreases a.len(),
{
    if a.len() == 0 && b.len() == 0 {
        Order::Equal
    } else if a.len() == 0 {
        Order::Less
    } else if b.len() == 0 {
        Order::Greater
    } else {
        number_order(a[0] as int, b[0] as int).or(bytes_order(a.drop_first(), b.drop_first()))
    }
}

/// The lexicographic order of two paths, name by name.
pub open spec fn names_order(a: Seq<Seq<u8>>, b: Seq<Seq<u8>>) -> Order
    decreases a.len(),
{
    if a.len() == 0 && b.len() == 0 {
        Order::Equal
    } else if a.len() == 0 {
        Order::Less
    } else if b.len() == 0 {
        Order::Greater
    } else {
        bytes_order(a[0], b[0]).or(names_order(a.drop_first(), b.drop_first()))
    }
}

/// The order of two byte strings.
pub fn compare_bytes(a: &Vec<u8>, b: &Vec<u8>) -> (r: Order)
    ensures
        r == bytes_order(a@, b@),
{
    let mut i: usize = 0;
    assert(a@.skip(0) =~= a@);
    assert(b@.skip(0) =~= b@);
    while i < a.len() && i < b.len()
        invariant
            i <= a@.len(),
            i <= b@.len(),
            bytes_order(a@, b@) == bytes_order(a@.skip(i as int), b@.skip(i as int)),
        decreases a@.len() - i,
    {
        if a[i] < b[i] {
            return Order::Less;
        }
        if a[i] > b[i] {
            return Order::Greater;
        }
        assert(a@.skip(i as int).drop_first() =~= a@.skip(i + 1));
        assert(b@.skip(i as int).drop_first() =~= b@.skip(i + 1));
        i = i + 1;
    }
    if i < b.len() {
        Order::Less
    } else if i < a.len() {
        Order::Greater
    } else {
        Order::Equal
    }
}

/// The order of two paths, name by name.
pub fn compare_names(a: &Vec<Vec<u8>>, b: &Vec<Vec<u8>>) -> (r: Order)
    ensures
        r == names_order(byte_strings(a@), byte_strings(b@)),
{
    let ghost x = byte_strings(a@);
    let ghost y = byte_strings(b@);
    let mut i: usize = 0;
    assert(x.skip(0) =~= x);
    assert(y.skip(0) =~= y);
    while i < a.len() && i < b.len()
        invariant
            x == byte_strings(a@),
            y == byte_strings(b@),
            i <= a@.len(),
            i <= b@.len(),
            names_order(x, y) == names_order(x.skip(i as int), y.skip(i as int)),
        decreases a@.len() - i,
    {
        let here = compare_bytes(&a[i], &b[i]);
        assert(x[i as int] == a@[i as int]@ && y[i as int] == b@[i as int]@);
        if here != Order::Equal {
            return here;
        }
        assert(x.skip(i as int).drop_first() =~= x.skip(i + 1));
        assert(y.skip(i as int).drop_first() =~= y.skip(i + 1));
        i = i + 1;
    }
    if i < b.len() {
        Order::Less
    } else if i < a.len() {
        Order::Greater
    } else {
        Order::Equal
    }
}

proof fn lemma_bytes_order(a: Seq<u8>, b: Seq<u8>)
    ensures
        bytes_order(a, b) == Order::Equal <==> a == b,
        bytes_order(b, a) == bytes_order(a, b).reversed(),
    decreases a.len(),
{
    if a.len() > 0 && b.len() > 0 {
        lemma_bytes_order(a.drop_first(), b.drop_first());
        if a[0] == b[0] && a.drop_first() == b.drop_first() {
            assert(a =~= seq![a[0]] + a.drop_first());
            assert(b =~= seq![b[0]] + b.drop_first());
        }
    } else if a.len() == 0 && b.len() == 0 {
        assert(a =~= b);
    }
}

proof fn lemma_bytes_order_transitive(a: Seq<u8>, b: Seq<u8>, c: Seq<u8>)
    requires
        bytes_order(a, b) == Order::Less,
        bytes_order(b, c) == Order::Less,
    ensures
        bytes_order(a, c) == Order::Less,
    decreases a.len(),
{
    if a.len() > 0 && b.len() > 0 && c.len() > 0 && a[0] == b[0] && b[0] == c[0] {
        lemma_bytes_order_transitive(a.drop_first(), b.drop_first(), c.drop_first());
    }
}

/// Two paths are equal in the order exactly where they are the same, and
/// exchanging them reverses it.
pub proof fn law_names_order(a: Seq<Seq<u8>>, b: Seq<Seq<u8>>)
    ensures
        names_order(a, b) == Order::Equal <==> a == b,
        names_order(b, a) == names_order(a, b).reversed(),
    decreases a.len(),
{
    if a.len() > 0 && b.len() > 0 {
        lemma_bytes_order(a[0], b[0]);
        law_names_order(a.drop_first(), b.drop_first());
        if a[0] == b[0] && a.drop_first() == b.drop_first() {
            assert(a =~= seq![a[0]] + a.drop_first());
            assert(b =~= seq![b[0]] + b.drop_first());
        }
    } else if a.len() == 0 && b.len() == 0 {
        assert(a =~= b);
    }
}

/// The order of paths is transitive.
pub proof fn law_names_order_transitive(a: Seq<Seq<u8>>, b: Seq<Seq<u8>>, c: Seq<Seq<u8>>)
    requires
        names_order(a, b) == Order::Less,
        names_order(b, c) == Order::Less,
    ensures
        names_order(a, c) == Order::Less,
    decreases a.len(),
{
    if a.len() > 0 && b.len() > 0 && c.len() > 0 {
        lemma_bytes_order(a[0], b[0]);
        lemma_bytes_order(b[0], c[0]);
        if a[0] == b[0] && b[0] == c[0] {
            law_names_order_transitive(a.drop_first(), b.drop_first(), c.drop_first());
        } else if a[0] != b[0] && b[0] != c[0] {
            lemma_bytes_order_transitive(a[0], b[0], c[0]);
        }
    }
}

/// A directory comes before everything below it.
pub proof fn law_directory_before_contents(dir: Seq<Seq<u8>>, below: Seq<Seq<u8>>)
    requires
        below.len() > 0,
    ensures
        names_order(dir, dir + below) == Order::Less,
    decreases dir.len(),
{
    if dir.len() > 0 {
        lemma_bytes_order(dir[0], dir[0]);
        law_directory_before_contents(dir.drop_first(), below);
        assert((dir + below).drop_first() =~= dir.drop_first() + below);
    }
}

/// A list of byte strings with the same contents.
pub fn copy_names(names: &Vec<Vec<u8>>) -> (r: Vec<Vec<u8>>)
    ensures
        byte_strings(r@) == byte_strings(names@),
{
    let mut r: Vec<Vec<u8>> = Vec::new();
    let mut i: usize = 0;
    while i < names.len()
        invariant
            r@.len() == i <= names@.len(),
            byte_strings(r@) == byte_strings(names@).take(i as int),
        decreases names@.len() - i,
    {
        let ghost before = r@;
        r.push(names[i].clone());
        assert(r@[i as int]@ =~= names@[i as int]@);
        assert(byte_strings(r@) =~= byte_strings(before).push(names@[i as int]@));
        assert(byte_strings(r@) =~= byte_strings(names@).take(i + 1));
        i = i + 1;
    }
    assert(byte_strings(names@).take(i as int) =~= byte_strings(names@));
    r
}

impl PathModel {
    /// The path without its last name, where it has one.
    pub open spec fn parent(self) -> Option<PathModel> {
        if self.names.len() == 0 {
            None
        } else {
            Some(PathModel { names: self.names.drop_last(), ..self })
        }
    }

    /// The path of `name` in this directory.
    pub open spec fn join(self, name: Seq<u8>) -> PathModel {
        PathModel { names: self.names.push(name), ..self }
    }

    /// Whether the last name of the path is `name`.
    pub open spec fn ends_with_name(self, name: Seq<u8>) -> bool {
        self.names.len() > 0 && self.names.last() == name
    }

    /// The directory `k` levels above this one.
    pub open spec fn ancestor(self, k: int) -> PathModel {
        PathModel { names: self.names.take(self.names.len() - k), ..self }
    }
}

impl RawPath {
    /// The same path.
    pub fn copied(&self) -> (r: RawPath)
        ensures
            r@ == self@,
    {
        let anchor = self.anchor.clone();
        assert(anchor@ =~= self.anchor@);
        RawPath { anchor, names: copy_names(&self.names) }
    }

    /// Removes the last name; false where there is none.
    pub fn pop(&mut self) -> (r: bool)
        ensures
            match old(self)@.parent() {
                Some(parent) => r && final(self)@ == parent,
                None => !r && final(self)@ == old(self)@,
            },
    {
        let ghost before = self.names@;
        let r = self.names.pop().is_some();
        assert(r ==> byte_strings(self.names@) =~= byte_strings(before).drop_last());
        r
    }

    /// The path of `name` in this directory.
    pub fn join(&self, name: &str) -> (r: RawPath)
        ensures
            r@ == self@.join(encode_utf8(name@)),
    {
        let mut r = self.copied();
        let ghost before = r.names@;
        r.names.push(name.as_bytes_vec());
        assert(byte_strings(r.names@) =~= byte_strings(before).push(encode_utf8(name@)));
        r
    }

    /// Whether the last name of the path is `name`.
    pub fn ends_with_name(&self, name: &str) -> (r: bool)
        ensures
            r == self@.ends_with_name(encode_utf8(name@)),
    {
        let n: usize = self.names.len();
        n > 0 && same_bytes(&self.names[n - 1], &name.as_bytes_vec())
    }

    /// Whether two paths have the same components.
    pub fn same(&self, other: &RawPath) -> (r: bool)
        ensures
            r == (self@ == other@),
    {
        same_bytes(&self.anchor, &other.anchor) && same_names(&self.names, &other.names)
    }
}

/// The first byte in which two names differ decides their order, whatever
/// follows.
pub proof fn law_bytes_order_first_difference(a: Seq<u8>, b: Seq<u8>, k: int)
    requires
        0 <= k < a.len(),
        k < b.len(),
        forall|i: int| 0 <= i < k ==> a[i] == b[i],
        a[k] < b[k],
    ensures
        bytes_order(a, b) == Order::Less,
        bytes_order(b, a) == Order::Greater,
    decreases k,
{
    if k > 0 {
        assert(a[0] == b[0]);
        law_bytes_order_first_difference(a.drop_first(), b.drop_first(), k - 1);
    }
}

/// A name comes before all longer ones that it starts.
pub proof fn law_bytes_order_prefix(a: Seq<u8>, more: Seq<u8>)
    requires
        more.len() > 0,
    ensures
        bytes_order(a, a + more) == Order::Less,
        bytes_order(a + more, a) == Order::Greater,
    decreases a.len(),
{
    if a.len() > 0 {
        law_bytes_order_prefix(a.drop_first(), more);
        assert((a + more).drop_first() =~= a.drop_first() + more);
    }
}

/// The first name in which two paths differ decides their order, and in it the
/// first byte that differs, whatever follows.
pub proof fn law_names_order_first_difference(a: Seq<Seq<u8>>, b: Seq<Seq<u8>>, k: int, m: int)
    requires
        0 <= k < a.len(),
        k < b.len(),
        forall|i: int| 0 <= i < k ==> a[i] == b[i],
        0 <= m <= a[k].len(),
        m < b[k].len(),
        forall|i: int| 0 <= i < m ==> a[k][i] == b[k][i],
        m < a[k].len() ==> a[k][m] < b[k][m],
    ensures
        names_order(a, b) == Order::Less,
        names_order(b, a) == Order::Greater,
    decreases k,
{
    if k > 0 {
        assert(a[0] == b[0]);
        lemma_bytes_order(a[0], b[0]);
        law_names_order_first_difference(a.drop_first(), b.drop_first(), k - 1, m);
    } else if m < a[0].len() {
        law_bytes_order_first_difference(a[0], b[0], m);
    } else {
        let more = b[0].skip(m);
        assert(b[0] =~= a[0] + more);
        law_bytes_order_prefix(a[0], more);
    }
}

/// A name that is joined to a directory is the last name of the path, and
/// without it the path is the directory again; a path without names has no
/// directory above it.
pub proof fn law_join_and_parent(dir: PathModel, name: Seq<u8>, other: Seq<u8>)
    ensures
        dir.join(name).anchor == dir.anchor,
        dir.join(name).names == dir.names.push(name),
        dir.join(name).parent() == Some(dir),
        dir.join(name).ends_with_name(other) <==> other == name,
        dir.names.len() == 0 ==> dir.parent() is None && !dir.ends_with_name(other),
        dir.parent() matches Some(above) ==> above.anchor == dir.anchor && above.names
            == dir.names.take(dir.names.len() - 1),
{
    assert(dir.join(name).names.drop_last() =~= dir.names);
    assert(dir.join(name).parent()->0 =~= dir);
}

/// A path stands for its own anchor and names, one for each, in order.
pub proof fn law_path_view(path: RawPath, i: int)
    ensures
        path@.anchor == path.anchor@,
        path@.names.len() == path.names@.len(),
        0 <= i < path.names@.len() ==> path@.names[i] == path.names@[i]@,
{
}

} // verus!

//! File paths as bytes, read the way Unix reads them.

use crate::order;
use crate::order::Order;
use vstd::prelude::*;

verus! {

/// A path. Any bytes may stand in it, so it need not be UTF-8. Two paths are equal
/// where they have the same components.
#[derive(Debug)]
pub struct FilePath {
    bytes: Vec<u8>,
}

impl View for FilePath {
    type V = Seq<u8>;

    closed spec fn view(&self) -> Seq<u8> {
        self.bytes@
    }
}

/// Paths by their bytes.
pub open spec fn path_views(paths: Seq<FilePath>) -> Seq<Seq<u8>> {
    Seq::new(paths.len(), |i: int| paths[i]@)
}

/// An optional path by its bytes.
pub open spec fn opt_path(path: Option<FilePath>) -> Option<Seq<u8>> {
    match path {
        Some(path) => Some(path@),
        None => None,
    }
}

impl PartialEq for FilePath {
    fn eq(&self, other: &FilePath) -> (r: bool) {
        self.same(other)
    }
}

impl vstd::std_specs::cmp::PartialEqSpecImpl for FilePath {
    open spec fn obeys_eq_spec() -> bool {
        true
    }

    open spec fn eq_spec(&self, other: &FilePath) -> bool {
        same_path(self@, other@)
    }
}

impl Eq for FilePath {

}

impl Clone for FilePath {
    fn clone(&self) -> (r: FilePath)
        ensures
            r@ == self@,
    {
        let bytes = self.bytes.clone();
        proof {
            assert(bytes@ =~= self.bytes@);
        }
        FilePath { bytes }
    }
}

/// Whether a path starts at the root.
pub open spec fn is_absolute(path: Seq<u8>) -> bool {
    path.len() > 0 && path[0] == 0x2f
}

/// `tail` below `base`: an absolute tail replaces the base, and a slash is put
/// between the two unless the base is empty or ends in one.
pub open spec fn joined(base: Seq<u8>, tail: Seq<u8>) -> Seq<u8> {
    if is_absolute(tail) {
        tail
    } else if base.len() == 0 || base.last() == 0x2f {
        base + tail
    } else {
        base.push(0x2f) + tail
    }
}

/// How many bytes stand before the first slash.
pub open spec fn name_size(path: Seq<u8>) -> nat
    decreases path.len(),
{
    if path.len() == 0 || path[0] == 0x2f {
        0
    } else {
        1 + name_size(path.drop_first())
    }
}

/// The names that a path holds: the parts between slashes that are neither empty
/// nor a single full stop.
pub open spec fn names(path: Seq<u8>) -> Seq<Seq<u8>>
    decreases path.len(),
{
    let size = name_size(path);
    if path.len() == 0 || size > path.len() {
        Seq::empty()
    } else {
        let here = if size == 0 || (size == 1 && path[0] == 0x2e) {
            Seq::empty()
        } else {
            seq![path.take(size as int)]
        };
        if size == path.len() {
            here
        } else {
            here + names(path.skip(size as int + 1))
        }
    }
}

/// Whether a path begins with a full stop that is a part of its own.
pub open spec fn starts_with_dot(path: Seq<u8>) -> bool {
    path.len() > 0 && path[0] == 0x2e && (path.len() == 1 || path[1] == 0x2f)
}

/// The components of a path: the root or a leading full stop, and its names.
/// Repeated slashes, a slash at the end and other full stops do not count.
pub open spec fn components(path: Seq<u8>) -> Seq<Seq<u8>> {
    (if is_absolute(path) {
        seq![seq![0x2fu8]]
    } else if starts_with_dot(path) {
        seq![seq![0x2eu8]]
    } else {
        Seq::empty()
    }) + names(path)
}

/// How many components a path has.
pub open spec fn component_count(path: Seq<u8>) -> nat {
    components(path).len()
}

/// Whether two paths have the same components.
pub open spec fn same_path(left: Seq<u8>, right: Seq<u8>) -> bool {
    components(left) == components(right)
}

/// A component for comparing: the root comes first, then the full stop, then the
/// two full stops, then the names by their bytes. Each ends in a zero, so that a
/// name stands before its continuations.
pub open spec fn component_codes(component: Seq<u8>) -> Seq<int> {
    if component == seq![0x2fu8] {
        seq![1, 0]
    } else if component == seq![0x2eu8] {
        seq![2, 0]
    } else if component == seq![0x2eu8, 0x2eu8] {
        seq![3, 0]
    } else {
        seq![4] + Seq::new(component.len(), |i: int| component[i] as int + 1) + seq![0]
    }
}

/// Components for comparing, one after the other.
pub open spec fn list_codes(list: Seq<Seq<u8>>) -> Seq<int>
    decreases list.len(),
{
    if list.len() == 0 {
        Seq::empty()
    } else {
        component_codes(list[0]) + list_codes(list.drop_first())
    }
}

/// A path for comparing, component by component.
pub open spec fn path_codes(path: Seq<u8>) -> Seq<int> {
    list_codes(components(path))
}

/// The order of two paths.
pub open spec fn path_order(left: Seq<u8>, right: Seq<u8>) -> Order {
    order::lex_order(path_codes(left), path_codes(right))
}

/// Lists of bytes by their views.
spec fn byte_views(list: Seq<Vec<u8>>) -> Seq<Seq<u8>> {
    Seq::new(list.len(), |i: int| list[i]@)
}

/// Codes as numbers.
spec fn code_views(codes: Seq<u16>) -> Seq<int> {
    Seq::new(codes.len(), |i: int| codes[i] as int)
}

fn same_bytes(left: &Vec<u8>, right: &Vec<u8>) -> (r: bool)
    ensures
        r == (left@ == right@),
{
    if left.len() != right.len() {
        return false;
    }
    let mut i: usize = 0;
    while i < left.len()
        invariant
            i <= left@.len(),
            left@.len() == right@.len(),
            forall|j: int| 0 <= j < i ==> left@[j] == right@[j],
        decreases left@.len() - i,
    {
        if left[i] != right[i] {
            return false;
        }
        i = i + 1;
    }
    proof {
        assert(left@ =~= right@);
    }
    true
}

fn push_codes(out: &mut Vec<u16>, component: &Vec<u8>)
    ensures
        code_views(final(out)@) == code_views(old(out)@) + component_codes(component@),
{
    let ghost before = code_views(out@);
    let single = component.len() == 1;
    let pair = component.len() == 2 && component[0] == 0x2e && component[1] == 0x2e;
    proof {
        assert((component@ == seq![0x2fu8]) == (single && component@[0] == 0x2f)) by {
            if single && component@[0] == 0x2f {
                assert(component@ =~= seq![0x2fu8]);
            }
        }
        assert((component@ == seq![0x2eu8]) == (single && component@[0] == 0x2e)) by {
            if single && component@[0] == 0x2e {
                assert(component@ =~= seq![0x2eu8]);
            }
        }
        assert((component@ == seq![0x2eu8, 0x2eu8]) == pair) by {
            if pair {
                assert(component@ =~= seq![0x2eu8, 0x2eu8]);
            }
        }
    }
    let rank: u16 = if single && component[0] == 0x2f {
        1
    } else if single && component[0] == 0x2e {
        2
    } else if pair {
        3
    } else {
        4
    };
    out.push(rank);
    proof {
        assert(code_views(out@) =~= before.push(rank as int));
    }
    if rank == 4 {
        let ghost start = code_views(out@);
        let ghost all = Seq::new(component@.len(), |i: int| component@[i] as int + 1);
        let mut i: usize = 0;
        proof {
            assert(start + all.take(0) =~= start);
        }
        while i < component.len()
            invariant
                i <= component@.len(),
                all == Seq::new(component@.len(), |i: int| component@[i] as int + 1),
                code_views(out@) == start + all.take(i as int),
            decreases component@.len() - i,
        {
            let ghost sofar = code_views(out@);
            out.push(component[i] as u16 + 1);
            proof {
                assert(code_views(out@) =~= sofar.push(all[i as int]));
                assert(start + all.take(i as int + 1) =~= (start + all.take(i as int)).push(
                    all[i as int],
                ));
            }
            i = i + 1;
        }
        proof {
            assert(all.take(all.len() as int) =~= all);
        }
    }
    let ghost sofar = code_views(out@);
    out.push(0);
    proof {
        assert(code_views(out@) =~= sofar.push(0));
        assert(code_views(out@) =~= before + component_codes(component@));
    }
}

/// What `String::from_utf8_lossy` makes of bytes.
pub uninterp spec fn lossy_text(bytes: Seq<u8>) -> Seq<char>;

/// `String::from_utf8_lossy`. Bytes that are UTF-8 give the text that they
/// encode; what else is put in place of those that are not is left to std.
#[verifier::external_body]
fn decode_lossy(bytes: &[u8]) -> (r: String)
    ensures
        r@ == lossy_text(bytes@),
        forall|words: Seq<char>| #[trigger]
            vstd::utf8::encode_utf8(words) == bytes@ ==> r@ == words,
{
    String::from_utf8_lossy(bytes).into_owned()
}

impl FilePath {
    /// A path of the given bytes.
    pub fn from_bytes(bytes: Vec<u8>) -> (r: FilePath)
        ensures
            r@ == bytes@,
    {
        FilePath { bytes }
    }

    /// A path of the UTF-8 bytes of a text.
    pub fn new(value: &str) -> (r: FilePath)
        ensures
            r@ == vstd::utf8::encode_utf8(value@),
    {
        let mut bytes: Vec<u8> = Vec::new();
        bytes.extend_from_slice(value.as_bytes());
        proof {
            assert(bytes@ =~= vstd::utf8::encode_utf8(value@));
        }
        FilePath { bytes }
    }

    /// The bytes of the path.
    pub fn as_bytes(&self) -> (r: &[u8])
        ensures
            r@ == self@,
    {
        self.bytes.as_slice()
    }

    /// Whether the path is empty.
    pub fn is_empty(&self) -> (r: bool)
        ensures
            r == (self@.len() == 0),
    {
        self.bytes.len() == 0
    }

    /// Whether the path starts at the root.
    pub fn is_absolute(&self) -> (r: bool)
        ensures
            r == is_absolute(self@),
    {
        self.bytes.len() > 0 && self.bytes[0] == 0x2f
    }

    /// `tail` below this path.
    pub fn join(&self, tail: &FilePath) -> (r: FilePath)
        ensures
            r@ == joined(self@, tail@),
    {
        if tail.is_absolute() {
            return tail.clone();
        }
        let mut bytes = self.bytes.clone();
        proof {
            assert(bytes@ =~= self.bytes@);
        }
        if bytes.len() > 0 && bytes[bytes.len() - 1] != 0x2f {
            bytes.push(0x2f);
        }
        bytes.extend_from_slice(tail.bytes.as_slice());
        proof {
            assert(bytes@ =~= joined(self@, tail@));
        }
        FilePath { bytes }
    }

    /// The components of the path.
    fn split(&self) -> (r: Vec<Vec<u8>>)
        ensures
            byte_views(r@) == components(self@),
    {
        let ghost all = self@;
        let mut out: Vec<Vec<u8>> = Vec::new();
        proof {
            assert(byte_views(out@) =~= Seq::empty());
        }
        let dotted = self.bytes.len() > 0 && self.bytes[0] == 0x2e && (self.bytes.len() == 1
            || self.bytes[1] == 0x2f);
        if self.is_absolute() {
            out.push(vec![0x2fu8]);
            proof {
                assert(out@[0]@ =~= seq![0x2fu8]);
                assert(byte_views(out@) =~= seq![seq![0x2fu8]]);
            }
        } else if dotted {
            out.push(vec![0x2eu8]);
            proof {
                assert(out@[0]@ =~= seq![0x2eu8]);
                assert(byte_views(out@) =~= seq![seq![0x2eu8]]);
            }
        }
        let mut at: usize = 0;
        proof {
            assert(all.skip(0) =~= all);
        }
        while at < self.bytes.len()
            invariant
                at <= self.bytes@.len(),
                all == self.bytes@,
                byte_views(out@) + names(all.skip(at as int)) == components(all),
            decreases self.bytes@.len() - at,
        {
            let ghost rest = all.skip(at as int);
            let ghost before = byte_views(out@);
            let mut end: usize = at;
            proof {
                assert(rest.skip(0) =~= rest);
            }
            while end < self.bytes.len() && self.bytes[end] != 0x2f
                invariant
                    at <= end <= self.bytes@.len(),
                    all == self.bytes@,
                    rest == all.skip(at as int),
                    name_size(rest) == (end - at) + name_size(rest.skip(end - at)),
                decreases self.bytes@.len() - end,
            {
                proof {
                    assert(rest.skip(end - at)[0] == all[end as int]);
                    assert(rest.skip(end - at).drop_first() =~= rest.skip(end - at + 1));
                }
                end = end + 1;
            }
            proof {
                if end < all.len() {
                    assert(rest.skip(end - at)[0] == all[end as int]);
                }
                assert(name_size(rest) == end - at);
                assert(rest[0] == all[at as int]);
            }
            let size = end - at;
            let skipped = size == 0 || (size == 1 && self.bytes[at] == 0x2e);
            let ghost here: Seq<Seq<u8>> = if skipped {
                Seq::empty()
            } else {
                seq![rest.take(size as int)]
            };
            if !skipped {
                let mut name: Vec<u8> = Vec::new();
                name.extend_from_slice(vstd::slice::slice_subrange(self.bytes.as_slice(), at, end));
                proof {
                    assert(name@ =~= rest.take(size as int));
                }
                out.push(name);
            }
            proof {
                assert(byte_views(out@) =~= before + here);
            }
            if end == self.bytes.len() {
                proof {
                    assert(all.skip(end as int) =~= Seq::empty());
                    assert(names(all.skip(end as int)) =~= Seq::empty());
                    assert(byte_views(out@) + names(all.skip(end as int)) =~= before + here);
                }
                at = end;
            } else {
                proof {
                    assert(rest.skip(size as int + 1) =~= all.skip(end as int + 1));
                    assert(byte_views(out@) + names(all.skip(end as int + 1)) =~= before + (here
                        + names(all.skip(end as int + 1))));
                }
                at = end + 1;
            }
        }
        proof {
            assert(all.skip(all.len() as int) =~= Seq::empty());
            assert(byte_views(out@) + names(all.skip(all.len() as int)) =~= byte_views(out@));
        }
        out
    }

    /// Whether two paths have the same components.
    pub fn same(&self, other: &FilePath) -> (r: bool)
        ensures
            r == same_path(self@, other@),
    {
        let left = self.split();
        let right = other.split();
        if left.len() != right.len() {
            proof {
                assert(byte_views(left@).len() != byte_views(right@).len());
            }
            return false;
        }
        let mut i: usize = 0;
        while i < left.len()
            invariant
                i <= left@.len(),
                left@.len() == right@.len(),
                byte_views(left@) == components(self@),
                byte_views(right@) == components(other@),
                forall|j: int| 0 <= j < i ==> (#[trigger] left@[j])@ == right@[j]@,
            decreases left@.len() - i,
        {
            if !same_bytes(&left[i], &right[i]) {
                proof {
                    assert(byte_views(left@)[i as int] != byte_views(right@)[i as int]);
                }
                return false;
            }
            i = i + 1;
        }
        proof {
            assert(byte_views(left@) =~= byte_views(right@));
        }
        true
    }

    fn codes(&self) -> (r: Vec<u16>)
        ensures
            code_views(r@) == path_codes(self@),
    {
        let list = self.split();
        let ghost all = byte_views(list@);
        let mut out: Vec<u16> = Vec::new();
        let mut i: usize = 0;
        proof {
            assert(all.skip(0) =~= all);
            assert(code_views(out@) + list_codes(all.skip(0)) =~= list_codes(all));
        }
        while i < list.len()
            invariant
                i <= list@.len(),
                all == byte_views(list@),
                code_views(out@) + list_codes(all.skip(i as int)) == list_codes(all),
            decreases list@.len() - i,
        {
            let ghost before = code_views(out@);
            push_codes(&mut out, &list[i]);
            proof {
                assert(all.skip(i as int)[0] == list@[i as int]@);
                assert(all.skip(i as int).drop_first() =~= all.skip(i as int + 1));
                assert(code_views(out@) + list_codes(all.skip(i as int + 1)) =~= before
                    + list_codes(all.skip(i as int)));
            }
            i = i + 1;
        }
        proof {
            assert(all.skip(all.len() as int) =~= Seq::empty());
            assert(code_views(out@) + list_codes(all.skip(all.len() as int)) =~= code_views(out@));
        }
        out
    }

    /// Compares two paths component by component.
    pub fn order(&self, other: &FilePath) -> (r: Order)
        ensures
            r == path_order(self@, other@),
    {
        let a = self.codes();
        let b = other.codes();
        let ghost left = code_views(a@);
        let ghost right = code_views(b@);
        let mut i: usize = 0;
        proof {
            assert(left.skip(0) =~= left);
            assert(right.skip(0) =~= right);
        }
        while i < a.len() && i < b.len()
            invariant
                i <= a@.len(),
                i <= b@.len(),
                left == code_views(a@),
                right == code_views(b@),
                order::lex_order(left.skip(i as int), right.skip(i as int)) == path_order(
                    self@,
                    other@,
                ),
            decreases a@.len() - i,
        {
            proof {
                assert(left.skip(i as int).drop_first() =~= left.skip(i as int + 1));
                assert(right.skip(i as int).drop_first() =~= right.skip(i as int + 1));
            }
            if a[i] < b[i] {
                return Order::Before;
            }
            if b[i] < a[i] {
                return Order::After;
            }
            i = i + 1;
        }
        if i < b.len() {
            Order::Before
        } else if i < a.len() {
            Order::After
        } else {
            Order::Same
        }
    }

    /// How many components the path has.
    pub fn components(&self) -> (r: u128)
        ensures
            r == component_count(self@),
    {
        let list = self.split();
        proof {
            assert(byte_views(list@).len() == list@.len());
        }
        list.len() as u128
    }

    /// The path as text, for messages.
    pub fn display(&self) -> (r: String)
        ensures
            r@ == lossy_text(self@),
            forall|words: Seq<char>| #[trigger]
                vstd::utf8::encode_utf8(words) == self@ ==> r@ == words,
    {
        decode_lossy(self.bytes.as_slice())
    }
}

/// Joining to a directory whose path is absolute gives an absolute path.
pub proof fn joined_stays_absolute(base: Seq<u8>, tail: Seq<u8>)
    requires
        is_absolute(base),
    ensures
        is_absolute(joined(base, tail)),
{
}

proof fn codes_end_in_zero(component: Seq<u8>)
    ensures
        component_codes(component).len() >= 2,
        component_codes(component).last() == 0,
        forall|i: int|
            0 <= i < component_codes(component).len() - 1 ==> #[trigger] component_codes(
                component,
            )[i] > 0,
{
}

proof fn codes_tell_components_apart(left: Seq<u8>, right: Seq<u8>)
    requires
        component_codes(left) == component_codes(right),
    ensures
        left == right,
{
    let a = component_codes(left);
    let b = component_codes(right);
    assert(a[0] == b[0]);
    if a[0] == 4 {
        assert(a.len() == left.len() + 2 && b.len() == right.len() + 2);
        assert forall|i: int| 0 <= i < left.len() implies left[i] == right[i] by {
            assert(a[i + 1] == left[i] as int + 1);
            assert(b[i + 1] == right[i] as int + 1);
        }
        assert(left =~= right);
    }
}

proof fn codes_tell_lists_apart(left: Seq<Seq<u8>>, right: Seq<Seq<u8>>)
    requires
        list_codes(left) == list_codes(right),
    ensures
        left == right,
    decreases left.len(),
{
    if left.len() == 0 || right.len() == 0 {
        if left.len() > 0 {
            codes_end_in_zero(left[0]);
            assert(list_codes(left).len() >= 2);
            assert(list_codes(right) == Seq::<int>::empty());
        } else if right.len() > 0 {
            codes_end_in_zero(right[0]);
            assert(list_codes(right).len() >= 2);
            assert(list_codes(left) == Seq::<int>::empty());
        } else {
            assert(left =~= right);
        }
    } else {
        let all = list_codes(left);
        let x = component_codes(left[0]);
        let y = component_codes(right[0]);
        codes_end_in_zero(left[0]);
        codes_end_in_zero(right[0]);
        assert(all == y + list_codes(right.drop_first()));
        if x.len() < y.len() {
            assert(all[x.len() - 1] == x[x.len() - 1]);
            assert(all[x.len() - 1] == y[x.len() - 1]);
        }
        if y.len() < x.len() {
            assert(all[y.len() - 1] == y[y.len() - 1]);
            assert(all[y.len() - 1] == x[y.len() - 1]);
        }
        assert(x =~= all.take(x.len() as int));
        assert(y =~= all.take(y.len() as int));
        codes_tell_components_apart(left[0], right[0]);
        assert(list_codes(left.drop_first()) =~= all.skip(x.len() as int));
        assert(list_codes(right.drop_first()) =~= all.skip(y.len() as int));
        codes_tell_lists_apart(left.drop_first(), right.drop_first());
        assert(left =~= seq![left[0]] + left.drop_first());
        assert(right =~= seq![right[0]] + right.drop_first());
    }
}

/// The order of paths tells them apart: exactly those with the same components
/// compare as the same.
pub proof fn order_agrees_with_equality(left: Seq<u8>, right: Seq<u8>)
    ensures
        path_order(left, right) == Order::Same <==> same_path(left, right),
{
    order::lex_order_same(path_codes(left), path_codes(right));
    if path_codes(left) == path_codes(right) {
        codes_tell_lists_apart(components(left), components(right));
    }
}

} // verus!

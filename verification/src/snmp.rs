//! Named values as a collection run hands them over: one list of names and
//! values per query, searched in the order in which the lists were made.

use crate::ast::{ExprResult, Value};
use crate::text::same_bytes;
use vstd::prelude::*;
use vstd::utf8::encode_utf8;

verus! {

/// The values of one query or of one pass, each under its name.
#[derive(Debug)]
pub struct SnmpResult {
    pub items: Vec<(String, ExprResult)>,
    /// The object identifier of the last variable that was taken in.
    pub last_oid: Vec<u32>,
}

/// The names and values of one list, as mathematics.
pub type Names = Seq<(Seq<char>, Value)>;

impl View for SnmpResult {
    type V = Names;

    open spec fn view(&self) -> Names {
        Seq::new(self.items@.len(), |i: int| (self.items@[i].0@, self.items@[i].1@))
    }
}

/// The lists of a collection, as mathematics.
pub open spec fn namespaces(collect: Seq<SnmpResult>) -> Seq<Names> {
    Seq::new(collect.len(), |j: int| collect[j]@)
}

/// A name as the bytes that spell it.
pub open spec fn name_bytes(name: Seq<char>) -> Seq<u8> {
    encode_utf8(name)
}

/// The first place from `i` on whose name is `name`, written in bytes; the
/// length of the list where there is none.
pub open spec fn find_key(items: Names, name: Seq<u8>, i: int) -> int
    decreases items.len() - i,
{
    if 0 <= i < items.len() {
        if name_bytes(items[i].0) == name {
            i
        } else {
            find_key(items, name, i + 1)
        }
    } else {
        items.len() as int
    }
}

/// Whether a list holds a name.
pub open spec fn has_key(items: Names, name: Seq<u8>) -> bool {
    find_key(items, name, 0) < items.len()
}

/// The first list from `j` on that holds `name`; the number of lists where
/// none does.
pub open spec fn find_result(collect: Seq<Names>, name: Seq<u8>, j: int) -> int
    decreases collect.len() - j,
{
    if 0 <= j < collect.len() {
        if has_key(collect[j], name) {
            j
        } else {
            find_result(collect, name, j + 1)
        }
    } else {
        collect.len() as int
    }
}

/// The value that a name stands for: that of its first occurrence in the
/// first list that holds it.
pub open spec fn lookup(collect: Seq<Names>, name: Seq<u8>) -> Option<Value> {
    let j = find_result(collect, name, 0);
    if j < collect.len() {
        Some(collect[j][find_key(collect[j], name, 0)].1)
    } else {
        None
    }
}

/// A list after a value is stored under a name: in the place of the first
/// entry of that name, or at the end where the list does not hold the name.
pub open spec fn inserted(items: Names, key: Seq<char>, value: Value) -> Names {
    let i = find_key(items, name_bytes(key), 0);
    if 0 <= i < items.len() {
        items.update(i, (key, value))
    } else {
        items.push((key, value))
    }
}

pub(crate) proof fn lemma_find_key(items: Names, name: Seq<u8>, i: int)
    requires
        0 <= i <= items.len(),
    ensures
        i <= find_key(items, name, i) <= items.len(),
        find_key(items, name, i) < items.len() ==> name_bytes(items[find_key(items, name, i)].0) == name,
        forall|k: int| i <= k < find_key(items, name, i) ==> name_bytes((#[trigger] items[k]).0) != name,
    decreases items.len() - i,
{
    if i < items.len() && name_bytes(items[i].0) != name {
        lemma_find_key(items, name, i + 1);
    }
}

pub(crate) proof fn lemma_find_result(collect: Seq<Names>, name: Seq<u8>, j: int)
    requires
        0 <= j <= collect.len(),
    ensures
        j <= find_result(collect, name, j) <= collect.len(),
        find_result(collect, name, j) < collect.len() ==> has_key(collect[find_result(collect, name, j)], name),
        forall|k: int| j <= k < find_result(collect, name, j) ==> !has_key(#[trigger] collect[k], name),
    decreases collect.len() - j,
{
    if j < collect.len() && !has_key(collect[j], name) {
        lemma_find_result(collect, name, j + 1);
    }
}

impl SnmpResult {
    pub fn new(items: Vec<(String, ExprResult)>) -> (r: SnmpResult)
        ensures
            r.items == items,
            r.last_oid@ == Seq::<u32>::empty(),
    {
        SnmpResult { items, last_oid: Vec::new() }
    }

    /// Where a name stands in the list, if it does.
    pub fn position(&self, name: &[u8]) -> (r: Option<usize>)
        ensures
            match r {
                Some(i) => i == find_key(self@, name@, 0) && i < self.items@.len(),
                None => !has_key(self@, name@),
            },
    {
        let mut i: usize = 0;
        while i < self.items.len()
            invariant
                i <= self.items.len(),
                find_key(self@, name@, i as int) == find_key(self@, name@, 0),
            decreases self.items.len() - i,
        {
            if same_bytes(self.items[i].0.as_str().as_bytes(), name) {
                return Some(i);
            }
            i = i + 1;
        }
        None
    }

    /// The value under a name, if the list holds the name.
    pub fn get(&self, name: &[u8]) -> (r: Option<&ExprResult>)
        ensures
            match r {
                Some(v) => has_key(self@, name@) && v@ == self@[find_key(self@, name@, 0)].1,
                None => !has_key(self@, name@),
            },
    {
        match self.position(name) {
            Some(i) => Some(&self.items[i].1),
            None => None,
        }
    }
}

/// The value that a name stands for in an ordered list of collections.
pub fn find_value<'a>(collect: &'a Vec<SnmpResult>, name: &[u8]) -> (r: Option<&'a ExprResult>)
    ensures
        match r {
            Some(v) => lookup(namespaces(collect@), name@) == Some(v@),
            None => lookup(namespaces(collect@), name@) is None,
        },
{
    let mut j: usize = 0;
    while j < collect.len()
        invariant
            j <= collect.len(),
            find_result(namespaces(collect@), name@, j as int) == find_result(
                namespaces(collect@),
                name@,
                0,
            ),
        decreases collect.len() - j,
    {
        match collect[j].get(name) {
            Some(v) => {
                return Some(v);
            },
            None => {},
        }
        j = j + 1;
    }
    None
}

impl SnmpResult {
    /// Stores a value under a name, in the place of what the name stood for
    /// before if it stood for anything.
    pub fn insert(&mut self, key: String, value: ExprResult)
        ensures
            final(self)@ == inserted(old(self)@, key@, value@),
            final(self).last_oid == old(self).last_oid,
    {
        match self.position(key.as_str().as_bytes()) {
            Some(i) => {
                self.items.set(i, (key, value));
                assert(self@ =~= inserted(old(self)@, key@, value@));
            },
            None => {
                self.items.push((key, value));
                assert(self@ =~= inserted(old(self)@, key@, value@));
            },
        }
    }
}

/// Where `find_key` looks from `i` on, it finds the same in two lists that
/// agree, name by name, on whether the name is the one looked for.
proof fn lemma_find_key_same(a: Names, b: Names, name: Seq<u8>, i: int)
    requires
        0 <= i <= a.len(),
        a.len() == b.len(),
        forall|k: int| 0 <= k < a.len() ==> (name_bytes(#[trigger] a[k].0) == name) == (name_bytes(
            b[k].0,
        ) == name),
    ensures
        find_key(a, name, i) == find_key(b, name, i),
    decreases a.len() - i,
{
    if i < a.len() && name_bytes(a[i].0) != name {
        lemma_find_key_same(a, b, name, i + 1);
    }
}

/// `find_key` on a list with one more entry at its end.
proof fn lemma_find_key_push(a: Names, entry: (Seq<char>, Value), name: Seq<u8>, i: int)
    requires
        0 <= i <= a.len(),
    ensures
        find_key(a.push(entry), name, i) == if find_key(a, name, i) < a.len() {
            find_key(a, name, i)
        } else if name_bytes(entry.0) == name {
            a.len() as int
        } else {
            (a.len() + 1) as int
        },
    decreases a.len() - i,
{
    let b = a.push(entry);
    if i < a.len() {
        assert(b[i] == a[i]);
        if name_bytes(a[i].0) != name {
            lemma_find_key_push(a, entry, name, i + 1);
        }
    } else {
        assert(b[i] == entry);
        assert(find_key(b, name, i + 1) == b.len());
    }
}

/// What is stored under a name is what the name stands for afterwards, and
/// every other name stands for what it stood for before.
pub proof fn lemma_inserted(items: Names, key: Seq<char>, value: Value, name: Seq<u8>)
    ensures
        has_key(inserted(items, key, value), name_bytes(key)),
        inserted(items, key, value)[find_key(inserted(items, key, value), name_bytes(key), 0)].1
            == value,
        name != name_bytes(key) ==> has_key(inserted(items, key, value), name) == has_key(
            items,
            name,
        ),
        name != name_bytes(key) && has_key(items, name) ==> inserted(items, key, value)[find_key(
            inserted(items, key, value),
            name,
            0,
        )].1 == items[find_key(items, name, 0)].1,
{
    let kb = name_bytes(key);
    let i = find_key(items, kb, 0);
    let after = inserted(items, key, value);
    lemma_find_key(items, kb, 0);
    lemma_find_key(items, name, 0);
    if i < items.len() {
        assert forall|k: int| 0 <= k < items.len() implies (name_bytes(#[trigger] items[k].0)
            == kb) == (name_bytes(after[k].0) == kb) by {}
        lemma_find_key_same(items, after, kb, 0);
        if name != kb {
            assert forall|k: int| 0 <= k < items.len() implies (name_bytes(
                #[trigger] items[k].0,
            ) == name) == (name_bytes(after[k].0) == name) by {}
            lemma_find_key_same(items, after, name, 0);
        }
    } else {
        lemma_find_key_push(items, (key, value), kb, 0);
        lemma_find_key_push(items, (key, value), name, 0);
    }
}

} // verus!

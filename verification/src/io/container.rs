//! The container and its list of named items.

use crate::error::DkError;
use crate::event::reversed;
use crate::io::{DkItem, ItemModel, DK_MAGIC_NUMBER, DK_VERSION};
use crate::wire::{lemma_ser_all_push, models, ser_all, Wire};
use indexmap::IndexMap;
use vstd::prelude::*;

verus! {

/// The map `IndexMap` of the crate `indexmap`: a hash map that keeps its
/// entries in the order in which their keys were first put in. Nothing
/// inside it is seen here; what it holds is named by `entries_of`.
#[verifier::external_type_specification]
#[verifier::external_body]
#[verifier::reject_recursive_types(K)]
#[verifier::reject_recursive_types(V)]
#[verifier::reject_recursive_types(S)]
pub struct ExIndexMap<K, V, S>(IndexMap<K, V, S>);

/// A name and what the item of that name holds.
pub type Entry = (Seq<char>, ItemModel);

/// What a map of named items holds: its entries, in the order of the map,
/// each with the text of its name and what its item holds. The wrappers of
/// the methods of `IndexMap` below say what each method does to it.
pub uninterp spec fn entries_of(m: IndexMap<String, DkItem<'_>>) -> Seq<Entry>;

/// The place of the first entry with the name `name`, if there is one.
pub open spec fn place_of(entries: Seq<Entry>, name: Seq<char>) -> Option<int>
    decreases entries.len(),
{
    if entries.len() == 0 {
        None
    } else if entries.last().0 == name {
        match place_of(entries.drop_last(), name) {
            Some(i) => Some(i),
            None => Some(entries.len() - 1),
        }
    } else {
        place_of(entries.drop_last(), name)
    }
}

/// The entries with the item `item` under the name `name`: in the place
/// of the entry that had the name, or behind all others where none had it.
pub open spec fn put(entries: Seq<Entry>, name: Seq<char>, item: ItemModel) -> Seq<Entry> {
    match place_of(entries, name) {
        Some(i) => entries.update(i, (name, item)),
        None => entries.push((name, item)),
    }
}

/// No two entries have the same name.
pub open spec fn unique_names(entries: Seq<Entry>) -> bool {
    forall|i: int, j: int| 0 <= i < j < entries.len() ==> entries[i].0 != entries[j].0
}

/// The entries that are left when the first `upto` entries of `list` are
/// put into an empty map, one after the other.
pub open spec fn collected(list: Seq<Entry>, upto: int) -> Seq<Entry>
    decreases upto,
{
    if upto <= 0 {
        Seq::empty()
    } else {
        put(collected(list, upto - 1), list[upto - 1].0, list[upto - 1].1)
    }
}

/// `place_of` finds the first entry of a name, and none only where there
/// is none.
pub proof fn lemma_place_of(entries: Seq<Entry>, name: Seq<char>)
    ensures
        match place_of(entries, name) {
            Some(i) => 0 <= i < entries.len() && entries[i].0 == name && forall|j: int|
                0 <= j < i ==> entries[j].0 != name,
            None => forall|j: int| 0 <= j < entries.len() ==> entries[j].0 != name,
        },
    decreases entries.len(),
{
    if entries.len() > 0 {
        let front = entries.drop_last();
        lemma_place_of(front, name);
        assert forall|j: int| 0 <= j < front.len() implies front[j] == entries[j] by {}
        match place_of(entries, name) {
            Some(i) => {
                assert forall|j: int| 0 <= j < i implies entries[j].0 != name by {
                    assert(front[j] == entries[j]);
                }
            },
            None => {
                assert forall|j: int| 0 <= j < entries.len() implies entries[j].0 != name by {
                    if j < front.len() {
                        assert(front[j] == entries[j]);
                    }
                }
            },
        }
    }
}

/// Putting an entry keeps the names apart.
pub proof fn lemma_put_unique(entries: Seq<Entry>, name: Seq<char>, item: ItemModel)
    requires
        unique_names(entries),
    ensures
        unique_names(put(entries, name, item)),
{
    lemma_place_of(entries, name);
}

/// What is collected has no name twice.
pub proof fn lemma_collected_unique(list: Seq<Entry>, upto: int)
    ensures
        unique_names(collected(list, upto)),
    decreases upto,
{
    if upto > 0 {
        lemma_collected_unique(list, upto - 1);
        lemma_put_unique(collected(list, upto - 1), list[upto - 1].0, list[upto - 1].1);
    }
}

/// A list without a name twice is collected as it is.
pub proof fn lemma_collected_as_is(list: Seq<Entry>, upto: int)
    requires
        unique_names(list),
        0 <= upto <= list.len(),
    ensures
        collected(list, upto) == list.take(upto),
    decreases upto,
{
    if upto > 0 {
        lemma_collected_as_is(list, upto - 1);
        lemma_place_of(list.take(upto - 1), list[upto - 1].0);
        assert(list.take(upto - 1).push(list[upto - 1]) =~= list.take(upto));
    } else {
        assert(list.take(0) =~= Seq::<Entry>::empty());
    }
}

/// Makes an empty map.
///
/// Calls `IndexMap::new`, which creates a map without entries.
#[verifier::external_body]
fn map_new<'a>() -> (m: IndexMap<String, DkItem<'a>>)
    ensures
        entries_of(m) == Seq::<Entry>::empty(),
{
    IndexMap::new()
}

/// Returns the number of entries.
///
/// Calls `IndexMap::len`, the number of key-value pairs in the map.
#[verifier::external_body]
fn map_len<'a>(m: &IndexMap<String, DkItem<'a>>) -> (n: usize)
    ensures
        n == entries_of(*m).len(),
{
    m.len()
}

/// Puts an item into the map.
///
/// Calls `IndexMap::insert`. Where the map has an equal key, the key
/// stays in its place, its value becomes the new one and the old value is
/// returned. Where it has none, the pair becomes the last entry and `None`
/// is returned. Names are equal when their texts are.
#[verifier::external_body]
fn map_insert<'a>(
    m: &mut IndexMap<String, DkItem<'a>>,
    name: String,
    item: DkItem<'a>,
) -> (r: Option<DkItem<'a>>)
    ensures
        entries_of(*final(m)) == put(entries_of(*old(m)), name@, item.model()),
        match place_of(entries_of(*old(m)), name@) {
            Some(i) => r matches Some(v) && v.model() == entries_of(*old(m))[i].1,
            None => r is None,
        },
{
    m.insert(name, item)
}

/// Returns the item of a name.
///
/// Calls `IndexMap::get`, which returns the value stored for the key if it
/// is present, else `None`.
#[verifier::external_body]
fn map_get<'a, 'b>(m: &'b IndexMap<String, DkItem<'a>>, name: &str) -> (r: Option<&'b DkItem<'a>>)
    ensures
        match place_of(entries_of(*m), name@) {
            Some(i) => r matches Some(v) && v.model() == entries_of(*m)[i].1,
            None => r is None,
        },
{
    m.get(name)
}

/// Returns the item of a name for writing.
///
/// Calls `IndexMap::get_mut`, which returns the value stored for the key
/// if it is present, else `None`. Only that value can change through it.
#[verifier::external_body]
fn map_get_mut<'a, 'b>(
    m: &'b mut IndexMap<String, DkItem<'a>>,
    name: &str,
) -> (r: Option<&'b mut DkItem<'a>>)
    ensures
        match place_of(entries_of(*old(m)), name@) {
            Some(i) => r matches Some(v) && v.model() == entries_of(*old(m))[i].1
                && entries_of(*final(m)) == entries_of(*old(m)).update(
                i,
                (name@, final(v).model()),
            ),
            None => r is None && entries_of(*final(m)) == entries_of(*old(m)),
        },
{
    m.get_mut(name)
}

/// Returns the entry at an index.
///
/// Calls `IndexMap::get_index`, which returns the key-value pair at the
/// index; valid indices are those below `len`.
#[verifier::external_body]
fn map_get_index<'a, 'b>(
    m: &'b IndexMap<String, DkItem<'a>>,
    index: usize,
) -> (r: Option<(&'b String, &'b DkItem<'a>)>)
    ensures
        match r {
            Some(e) => entries_of(*m).len() > index && entries_of(*m)[index as int] == (
                e.0@,
                e.1.model(),
            ),
            None => entries_of(*m).len() <= index,
        },
{
    m.get_index(index)
}

/// A datakiste file: named items, in the order in which their names were
/// first put in.
#[derive(Debug)]
pub struct Datakiste<'a> {
    magic_number: u64,
    version: (u64, u64, u64),
    pub items: IndexMap<String, DkItem<'a>>,
}

/// The bytes of a container with the entries `entries`: the magic number
/// in 8 bytes, the three numbers of the version in 8 bytes each, and the
/// list of the entries, each with name, tag and value.
pub open spec fn container_bytes(entries: Seq<Entry>) -> Seq<u8> {
    u64::ser(DK_MAGIC_NUMBER) + <(u64, u64, u64)>::ser(DK_VERSION) + <Vec<
        (String, DkItem),
    >>::ser(entries)
}

/// The entries of the container that the bytes `s` hold, or why they hold
/// none.
///
/// Bytes that do not start with the magic number are no container:
/// `InvalidFormat`. A version other than `DK_VERSION` is not read:
/// `UnsupportedVersion`. Then the entries are read in order, and an entry
/// whose name came before takes the place of the earlier one. What is
/// behind the last entry is not looked at.
pub open spec fn read_container(s: Seq<u8>) -> Result<Seq<Entry>, DkError> {
    match u64::parse(s, 0) {
        Err(e) => Err(e),
        Ok(magic) => if magic.0 != DK_MAGIC_NUMBER {
            Err(DkError::InvalidFormat)
        } else {
            match <(u64, u64, u64)>::parse(s, magic.1) {
                Err(e) => Err(e),
                Ok(version) => if version.0 != DK_VERSION {
                    Err(DkError::UnsupportedVersion)
                } else {
                    match <Vec<(String, DkItem)>>::parse(s, version.1) {
                        Err(e) => Err(e),
                        Ok(list) => Ok(collected(list.0, list.0.len() as int)),
                    }
                },
            }
        },
    }
}

impl<'a> Datakiste<'a> {
    /// The entries of the container, in order.
    pub closed spec fn entries(&self) -> Seq<Entry> {
        entries_of(self.items)
    }

    /// The version of the format that the container is written in.
    pub closed spec fn spec_version(&self) -> (u64, u64, u64) {
        self.version
    }

    /// Makes an empty container.
    pub fn new() -> (r: Self)
        ensures
            r.entries() == Seq::<Entry>::empty(),
            r.spec_version() == DK_VERSION,
    {
        Datakiste { magic_number: DK_MAGIC_NUMBER, version: DK_VERSION, items: map_new() }
    }

    /// Returns the version of the format: major, minor, patch.
    pub fn version(&self) -> (v: (u64, u64, u64))
        ensures
            v == self.spec_version(),
    {
        self.version
    }

    /// Makes a container of the items `items`.
    pub fn with_items(items: IndexMap<String, DkItem<'a>>) -> (r: Self)
        ensures
            r.entries() == entries_of(items),
            r.spec_version() == DK_VERSION,
    {
        Datakiste { magic_number: DK_MAGIC_NUMBER, version: DK_VERSION, items }
    }

    /// Returns the number of items.
    pub fn len(&self) -> (n: usize)
        ensures
            n == self.entries().len(),
    {
        map_len(&self.items)
    }

    /// Puts the item `item` under the name `name` into the container. An
    /// item that had the name is replaced, in its place, and returned: the
    /// last writer wins. A new name comes last.
    pub fn insert(&mut self, name: String, item: DkItem<'a>) -> (r: Option<DkItem<'a>>)
        ensures
            final(self).entries() == put(old(self).entries(), name@, item.model()),
            final(self).spec_version() == old(self).spec_version(),
            match place_of(old(self).entries(), name@) {
                Some(i) => r matches Some(v) && v.model() == old(self).entries()[i].1,
                None => r is None,
            },
    {
        map_insert(&mut self.items, name, item)
    }

    /// Returns the item of the name `name`, or `LookupNotFound`.
    pub fn get(&self, name: &str) -> (r: Result<&DkItem<'a>, DkError>)
        ensures
            match place_of(self.entries(), name@) {
                Some(i) => r matches Ok(v) && v.model() == self.entries()[i].1,
                None => r == Err::<&DkItem<'a>, DkError>(DkError::LookupNotFound),
            },
    {
        match map_get(&self.items, name) {
            Some(v) => Ok(v),
            None => Err(DkError::LookupNotFound),
        }
    }

    /// Returns the item of the name `name` for writing, or
    /// `LookupNotFound`.
    pub fn get_mut(&mut self, name: &str) -> (r: Result<&mut DkItem<'a>, DkError>)
        ensures
            final(self).spec_version() == old(self).spec_version(),
            match place_of(old(self).entries(), name@) {
                Some(i) => r matches Ok(v) && v.model() == old(self).entries()[i].1
                    && final(self).entries() == old(self).entries().update(
                    i,
                    (name@, final(v).model()),
                ),
                None => r is Err && r->Err_0 == DkError::LookupNotFound && final(self).entries()
                    == old(self).entries(),
            },
    {
        match map_get_mut(&mut self.items, name) {
            Some(v) => Ok(v),
            None => Err(DkError::LookupNotFound),
        }
    }

    /// Returns name and item at the place `index`, counted from 0 in the
    /// order of the container.
    pub fn get_index(&self, index: usize) -> (r: Option<(&String, &DkItem<'a>)>)
        ensures
            match r {
                Some(e) => self.entries().len() > index && self.entries()[index as int] == (
                    e.0@,
                    e.1.model(),
                ),
                None => self.entries().len() <= index,
            },
    {
        map_get_index(&self.items, index)
    }

    /// Returns the bytes of the container.
    pub fn to_bytes(&self) -> (out: Vec<u8>)
        ensures
            out@ == container_bytes(self.entries()),
    {
        let mut out: Vec<u8> = Vec::new();
        DK_MAGIC_NUMBER.write(&mut out);
        DK_VERSION.write(&mut out);
        let n: usize = self.len();
        (n as u64).write(&mut out);
        let ghost head = u64::ser(DK_MAGIC_NUMBER) + <(u64, u64, u64)>::ser(DK_VERSION)
            + u64::ser(n as u64);
        let ghost es = self.entries();
        assert(out@ =~= head);
        assert(es.take(0) =~= Seq::<Entry>::empty());
        let mut i: usize = 0;
        while i < n
            invariant
                i <= n,
                n == es.len(),
                es == self.entries(),
                out@ == head + ser_all::<(String, DkItem)>(es.take(i as int)),
            decreases n - i,
        {
            match self.get_index(i) {
                Some((name, item)) => {
                    let ghost before = out@;
                    name.write(&mut out);
                    item.write(&mut out);
                    proof {
                        lemma_ser_all_push::<(String, DkItem)>(es.take(i as int), es[i as int]);
                        assert(es.take(i + 1) =~= es.take(i as int).push(es[i as int]));
                        assert(before + String::ser(name@) + DkItem::ser(item.model()) =~= before
                            + <(String, DkItem)>::ser(es[i as int]));
                        assert(head + ser_all::<(String, DkItem)>(es.take(i as int)) + <(
                            String,
                            DkItem,
                        )>::ser(es[i as int]) =~= head + (ser_all::<(String, DkItem)>(
                            es.take(i as int),
                        ) + <(String, DkItem)>::ser(es[i as int])));
                    }
                },
                None => {},
            }
            i += 1;
        }
        proof {
            assert(es.take(n as int) =~= es);
            assert(out@ =~= container_bytes(es));
        }
        out
    }

    /// Reads a container from `bytes`.
    ///
    /// Fails with `InvalidFormat` on bytes that are no container, with
    /// `UnsupportedVersion` on a container of another version, and with
    /// `ConstraintViolation` on a histogram whose axes and counts do not
    /// fit. No list is read that claims more entries than the bytes that
    /// are left can hold.
    pub fn from_bytes(bytes: &[u8]) -> (r: Result<Datakiste<'a>, DkError>)
        ensures
            match r {
                Ok(dk) => read_container(bytes@) == Ok::<Seq<Entry>, DkError>(dk.entries())
                    && unique_names(dk.entries()) && dk.spec_version() == DK_VERSION,
                Err(e) => read_container(bytes@) == Err::<Seq<Entry>, DkError>(e),
            },
    {
        let (magic, at) = match u64::read(bytes, 0) {
            Ok(x) => x,
            Err(e) => {
                return Err(e);
            },
        };
        if magic != DK_MAGIC_NUMBER {
            return Err(DkError::InvalidFormat);
        }
        let (version, at) = match <(u64, u64, u64)>::read(bytes, at) {
            Ok(x) => x,
            Err(e) => {
                return Err(e);
            },
        };
        if version.0 != DK_VERSION.0 || version.1 != DK_VERSION.1 || version.2 != DK_VERSION.2 {
            return Err(DkError::UnsupportedVersion);
        }
        proof {
            <(u64, u64, u64)>::lemma_parse(bytes@, 8);
        }
        let (list, _) = match <Vec<(String, DkItem<'a>)>>::read(bytes, at) {
            Ok(x) => x,
            Err(e) => {
                return Err(e);
            },
        };
        let ghost all = list.model();
        let mut rest = reversed(list);
        let mut dk = Datakiste::new();
        let ghost mut i: int = 0;
        while rest.len() > 0
            invariant
                0 <= i,
                i + rest@.len() == all.len(),
                forall|j: int|
                    0 <= j < rest@.len() ==> (#[trigger] rest@[j]).model() == all[all.len() - 1
                        - j],
                dk.entries() == collected(all, i),
                dk.spec_version() == DK_VERSION,
            decreases rest@.len(),
        {
            let (name, item) = rest.pop().unwrap();
            dk.insert(name, item);
            proof {
                i = i + 1;
            }
        }
        proof {
            lemma_collected_unique(all, all.len() as int);
        }
        Ok(dk)
    }
}

impl<'a> Default for Datakiste<'a> {
    fn default() -> (r: Self)
        ensures
            r.entries() == Seq::<Entry>::empty(),
            r.spec_version() == DK_VERSION,
    {
        Datakiste::new()
    }
}

/// What is written is read back: the bytes of a container are read as
/// its entries, where no name is there twice and every item is storable,
/// whatever stands behind the bytes.
pub proof fn lemma_container_round_trip(entries: Seq<Entry>, after: Seq<u8>)
    requires
        unique_names(entries),
        entries.len() <= u64::MAX,
        forall|i: int|
            0 <= i < entries.len() ==> <(String, DkItem)>::storable(#[trigger] entries[i]),
    ensures
        read_container(container_bytes(entries) + after) == Ok::<Seq<Entry>, DkError>(entries),
{
    let magic = u64::ser(DK_MAGIC_NUMBER);
    let version = <(u64, u64, u64)>::ser(DK_VERSION);
    let list = <Vec<(String, DkItem)>>::ser(entries);
    let s = container_bytes(entries) + after;
    let none = Seq::<u8>::empty();
    u64::lemma_round_trip(DK_MAGIC_NUMBER, none, version + list + after);
    assert(none + magic + (version + list + after) =~= s);
    <(u64, u64, u64)>::lemma_round_trip(DK_VERSION, magic, list + after);
    assert(magic + version + (list + after) =~= s);
    <Vec<(String, DkItem)>>::lemma_round_trip(entries, magic + version, after);
    assert(magic + version + list + after =~= s);
    lemma_collected_as_is(entries, entries.len() as int);
    assert(entries.take(entries.len() as int) =~= entries);
}

/// Bytes that are too few for a magic number, or do not start with it, are
/// rejected as `InvalidFormat`; bytes that start with it and hold another
/// version, as `UnsupportedVersion`.
pub proof fn lemma_rejects(s: Seq<u8>)
    ensures
        s.len() < 8 ==> read_container(s) == Err::<Seq<Entry>, DkError>(DkError::InvalidFormat),
        s.len() >= 8 && u64::parse(s, 0)->Ok_0.0 != DK_MAGIC_NUMBER ==> read_container(s)
            == Err::<Seq<Entry>, DkError>(DkError::InvalidFormat),
        8 <= s.len() < 32 && u64::parse(s, 0)->Ok_0.0 == DK_MAGIC_NUMBER ==> read_container(s)
            == Err::<Seq<Entry>, DkError>(DkError::InvalidFormat),
        s.len() >= 32 && u64::parse(s, 0)->Ok_0.0 == DK_MAGIC_NUMBER && <(
            u64,
            u64,
            u64,
        )>::parse(s, 8)->Ok_0.0 != DK_VERSION ==> read_container(s) == Err::<
            Seq<Entry>,
            DkError,
        >(DkError::UnsupportedVersion),
{
}

} // verus!

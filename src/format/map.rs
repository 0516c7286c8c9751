//! A map from keys to typed values, with its length-framed wire form.
use vstd::prelude::*;
use vstd::bytes::*;
use vstd::slice::slice_subrange;

use std::collections::HashMap;

use fnv::FnvBuildHasher;

use crate::format::error::{Error, ErrorView};
use crate::format::ext::{
    encodable, entry_bytes, lemma_entry_round_trip, parse_entry, read_kv, write_kv,
};
use crate::format::{Key, Value, ValueView};

verus! {

/// `std::hash::BuildHasherDefault`, the hasher factory that fnv's maps use.
#[verifier::external_type_specification]
#[verifier::external_body]
#[verifier::reject_recursive_types(H)]
pub struct ExBuildHasherDefault<H>(std::hash::BuildHasherDefault<H>);

/// `fnv::FnvHasher`, the hasher of the map's table.
#[verifier::external_type_specification]
#[verifier::external_body]
pub struct ExFnvHasher(fnv::FnvHasher);

/// Relies on `HashMap::with_capacity_and_hasher`: the new table is empty.
#[verifier::external_body]
fn table_with_capacity(capacity: usize) -> (r: HashMap<u32, Value, FnvBuildHasher>)
    ensures
        r@.dom() == Set::<u32>::empty(),
{
    HashMap::with_capacity_and_hasher(capacity, FnvBuildHasher::default())
}

/// Relies on `HashMap::insert`: the key now maps to the value, and the value
/// it had, if any, is handed back.
#[verifier::external_body]
fn table_insert(t: &mut HashMap<u32, Value, FnvBuildHasher>, k: u32, v: Value) -> (r: Option<
    Value,
>)
    ensures
        final(t)@ == old(t)@.insert(k, v),
        match r {
            Some(x) => old(t)@.contains_key(k) && x == old(t)@[k],
            None => !old(t)@.contains_key(k),
        },
{
    t.insert(k, v)
}

/// Relies on `HashMap::remove`: the key is gone, and the value it had, if
/// any, is handed back.
#[verifier::external_body]
fn table_remove(t: &mut HashMap<u32, Value, FnvBuildHasher>, k: u32) -> (r: Option<Value>)
    ensures
        final(t)@ == old(t)@.remove(k),
        match r {
            Some(x) => old(t)@.contains_key(k) && x == old(t)@[k],
            None => !old(t)@.contains_key(k),
        },
{
    t.remove(&k)
}

/// Relies on `HashMap::get`: the value of the key, if it has one.
#[verifier::external_body]
fn table_get(t: &HashMap<u32, Value, FnvBuildHasher>, k: u32) -> (r: Option<&Value>)
    ensures
        match r {
            Some(x) => t@.contains_key(k) && *x == t@[k],
            None => !t@.contains_key(k),
        },
{
    t.get(&k)
}

/// Relies on `HashMap::get_mut`: a place that holds the value of the key,
/// if it has one; what the place holds when the borrow ends is the key's
/// value from then on.
#[verifier::external_body]
fn table_get_mut(t: &mut HashMap<u32, Value, FnvBuildHasher>, k: u32) -> (r: Option<&mut Value>)
    ensures
        match r {
            Some(v) => old(t)@.contains_key(k) && *v == old(t)@[k] && final(t)@ == old(t)@.insert(
                k,
                *final(v),
            ),
            None => !old(t)@.contains_key(k) && final(t)@ == old(t)@,
        },
{
    t.get_mut(&k)
}

/// Relies on `HashMap::len`: the number of keys.
#[verifier::external_body]
fn table_len(t: &HashMap<u32, Value, FnvBuildHasher>) -> (r: usize)
    ensures
        r == t@.len(),
{
    t.len()
}

/// Relies on `HashMap::keys`: each key once, in the table's own order.
#[verifier::external_body]
fn table_keys(t: &HashMap<u32, Value, FnvBuildHasher>) -> (r: Vec<u32>)
    ensures
        r@.no_duplicates(),
        r@.to_set() == t@.dom(),
{
    t.keys().copied().collect()
}

/// The map that inserting the entries of `s` into `m`, first to last, gives.
pub open spec fn apply_entries(m: Map<u32, ValueView>, s: Seq<(u32, ValueView)>) -> Map<
    u32,
    ValueView,
>
    decreases s.len(),
{
    if s.len() == 0 {
        m
    } else {
        apply_entries(m, s.drop_last()).insert(s.last().0, s.last().1)
    }
}

/// The entries of `s` on the wire, one after another.
pub open spec fn entries_bytes(s: Seq<(u32, ValueView)>) -> Seq<u8>
    decreases s.len(),
{
    if s.len() == 0 {
        Seq::empty()
    } else {
        entry_bytes(s[0].0, s[0].1) + entries_bytes(s.drop_first())
    }
}

/// A map on the wire, its entries in the order of `s`: the byte length of
/// the entries, little-endian, then the entries.
pub open spec fn map_bytes(s: Seq<(u32, ValueView)>) -> Seq<u8> {
    spec_u32_to_le_bytes(entries_bytes(s).len() as u32) + entries_bytes(s)
}

/// Decodes entries, one after another, until `b` is used up.
pub open spec fn parse_entries(b: Seq<u8>) -> Result<Seq<(u32, ValueView)>, ErrorView>
    decreases b.len(),
{
    if b.len() == 0 {
        Ok(Seq::empty())
    } else {
        match parse_entry(b) {
            Ok((k, v, n)) => match parse_entries(b.subrange(n as int, b.len() as int)) {
                Ok(s) => Ok(seq![(k, v)] + s),
                Err(e) => Err(e),
            },
            Err(e) => Err(e),
        }
    }
}

/// Decodes a map from the front of `b`: its entries in wire order, and the
/// number of bytes it took.
pub open spec fn parse_map(b: Seq<u8>) -> Result<(Seq<(u32, ValueView)>, nat), ErrorView> {
    if b.len() < 4 {
        Err(ErrorView::UnexpectedEof)
    } else {
        let n = spec_u32_from_le_bytes(b.subrange(0, 4)) as int;
        if b.len() < 4 + n {
            Err(ErrorView::UnexpectedEof)
        } else {
            match parse_entries(b.subrange(4, 4 + n)) {
                Ok(s) => Ok((s, (4 + n) as nat)),
                Err(e) => Err(e),
            }
        }
    }
}

/// `s` lists the entries of `m`, each key once, in some order.
pub open spec fn is_listing(s: Seq<(u32, ValueView)>, m: Map<u32, ValueView>) -> bool {
    &&& forall|i: int, j: int| 0 <= i < s.len() && 0 <= j < s.len() && s[i].0 == s[j].0 ==> i == j
    &&& forall|i: int| 0 <= i < s.len() ==> m.contains_key(#[trigger] s[i].0) && m[s[i].0] == s[i].1
    &&& forall|k: u32| m.contains_key(k) ==> exists|i: int| 0 <= i < s.len() && #[trigger] s[i].0 == k
}

/// The number of bytes that the entries of `m` take on the wire, in any
/// order.
pub open spec fn map_wire_len(m: Map<u32, ValueView>) -> nat
    decreases m.dom().len(),
    when m.dom().finite()
{
    if m.dom().len() == 0 {
        0
    } else {
        let k = m.dom().choose();
        entry_bytes(k, m[k]).len() + map_wire_len(m.remove(k))
    }
}

/// Whether `m` can be written: every value fits its wire form, and the
/// entries together fit the 32-bit length in front of them.
pub open spec fn map_encodable(m: Map<u32, ValueView>) -> bool {
    &&& m.dom().finite()
    &&& forall|k: u32| m.contains_key(k) ==> encodable(#[trigger] m[k])
    &&& map_wire_len(m) <= 0xffff_ffff
}

/// The wire length of a map is that of any one of its entries plus that of
/// the rest.
proof fn lemma_map_wire_len_remove(m: Map<u32, ValueView>, k: u32)
    requires
        m.dom().finite(),
        m.contains_key(k),
    ensures
        map_wire_len(m) == entry_bytes(k, m[k]).len() + map_wire_len(m.remove(k)),
    decreases m.dom().len(),
{
    assert(m.dom().contains(k));
    let c = m.dom().choose();
    if c != k {
        let mc = m.remove(c);
        let mk = m.remove(k);
        lemma_map_wire_len_remove(mc, k);
        lemma_map_wire_len_remove(mk, c);
        assert(mc.remove(k) =~= mk.remove(c));
    }
}

/// The entries of a listing take, together, the wire length of the map.
proof fn lemma_listing_len(s: Seq<(u32, ValueView)>, m: Map<u32, ValueView>)
    requires
        is_listing(s, m),
        m.dom().finite(),
    ensures
        entries_bytes(s).len() == map_wire_len(m),
    decreases s.len(),
{
    if s.len() == 0 {
        assert(m.dom() =~= Set::<u32>::empty());
    } else {
        let k = s[0].0;
        let rest = s.drop_first();
        let mk = m.remove(k);
        assert forall|i: int| 0 <= i < rest.len() implies mk.contains_key(#[trigger] rest[i].0)
            && mk[rest[i].0] == rest[i].1 by {
            assert(s[i + 1] == rest[i]);
        }
        assert forall|j: u32| mk.contains_key(j) implies exists|i: int|
            0 <= i < rest.len() && #[trigger] rest[i].0 == j by {
            let i = choose|i: int| 0 <= i < s.len() && #[trigger] s[i].0 == j;
            assert(rest[i - 1].0 == j);
        }
        assert forall|i: int, j: int|
            0 <= i < rest.len() && 0 <= j < rest.len() && rest[i].0 == rest[j].0 implies i == j by {
            assert(s[i + 1].0 == s[j + 1].0);
        }
        lemma_listing_len(rest, mk);
        lemma_map_wire_len_remove(m, k);
    }
}

/// Writing the entries of `s` one after another and then one more entry is
/// writing the entries of `s` with that entry at the end.
proof fn lemma_entries_bytes_push(s: Seq<(u32, ValueView)>, e: (u32, ValueView))
    ensures
        entries_bytes(s.push(e)) == entries_bytes(s) + entry_bytes(e.0, e.1),
    decreases s.len(),
{
    if s.len() == 0 {
        let one = s.push(e);
        assert(one.drop_first() =~= Seq::<(u32, ValueView)>::empty());
        assert(entries_bytes(one.drop_first()) == Seq::<u8>::empty());
        assert(one[0] == e);
        assert(entries_bytes(one) =~= entries_bytes(s) + entry_bytes(e.0, e.1));
    } else {
        assert(s.push(e).drop_first() =~= s.drop_first().push(e));
        lemma_entries_bytes_push(s.drop_first(), e);
        assert(entries_bytes(s.push(e)) =~= entries_bytes(s) + entry_bytes(e.0, e.1));
    }
}

/// The values of a table, as their views.
pub open spec fn view_of_table(t: Map<u32, Value>) -> Map<u32, ValueView> {
    t.map_values(|x: Value| x@)
}

/// Setting a key of a table sets it in the table's view.
proof fn lemma_view_of_insert(t: Map<u32, Value>, k: u32)
    ensures
        forall|v: Value| #[trigger]
            view_of_table(t.insert(k, v)) == view_of_table(t).insert(k, v@),
{
    assert forall|v: Value| #[trigger]
        view_of_table(t.insert(k, v)) == view_of_table(t).insert(k, v@) by {
        assert(view_of_table(t.insert(k, v)) =~= view_of_table(t).insert(k, v@));
    }
}

/// A dictionary from [`Key`]s to [`Value`]s; its order is not meaningful.
/// On the wire it is framed by its byte length, so that it can stand inside
/// a larger stream.
#[derive(Debug, Clone, PartialEq)]
pub struct TypedMap {
    entries: HashMap<u32, Value, FnvBuildHasher>,
}

impl Default for TypedMap {
    fn default() -> (r: TypedMap)
        ensures
            r@ == Map::<u32, ValueView>::empty(),
    {
        TypedMap::new()
    }
}

impl View for TypedMap {
    type V = Map<u32, ValueView>;

    closed spec fn view(&self) -> Map<u32, ValueView> {
        view_of_table(self.entries@)
    }
}

impl TypedMap {
    /// An empty map.
    pub fn new() -> (r: TypedMap)
        ensures
            r@ == Map::<u32, ValueView>::empty(),
    {
        TypedMap::with_capacity(0)
    }

    /// An empty map with room for `capacity` entries.
    pub fn with_capacity(capacity: usize) -> (r: TypedMap)
        ensures
            r@ == Map::<u32, ValueView>::empty(),
    {
        let r = TypedMap { entries: table_with_capacity(capacity) };
        assert(r@ =~= Map::<u32, ValueView>::empty());
        r
    }

    /// The number of entries.
    pub fn len(&self) -> (r: usize)
        ensures
            r == self@.len(),
    {
        assert(self@.dom() =~= self.entries@.dom());
        table_len(&self.entries)
    }

    /// The keys of the map, each once, in the table's own order.
    pub fn keys(&self) -> (r: Vec<Key>)
        ensures
            r@.no_duplicates(),
            r@.map_values(|k: Key| k.0).to_set() == self@.dom(),
            r@.len() == self@.len(),
    {
        let raw = table_keys(&self.entries);
        let mut r: Vec<Key> = Vec::new();
        let mut i: usize = 0;
        while i < raw.len()
            invariant
                i <= raw@.len(),
                r@.len() == i,
                forall|j: int| 0 <= j < i ==> (#[trigger] r@[j]).0 == raw@[j],
            decreases raw@.len() - i,
        {
            r.push(Key(raw[i]));
            i = i + 1;
        }
        proof {
            assert(r@.map_values(|k: Key| k.0) =~= raw@);
            assert(self@.dom() =~= self.entries@.dom());
            assert forall|a: int, b: int| 0 <= a < r@.len() && 0 <= b < r@.len() && a != b implies r@[a]
                != r@[b] by {
                assert(raw@[a] != raw@[b]);
            }
            raw@.unique_seq_to_set();
        }
        r
    }

    /// Whether the map has no entry.
    pub fn is_empty(&self) -> (r: bool)
        ensures
            r == (self@.len() == 0),
    {
        self.len() == 0
    }

    /// The value of `key`, if it has one.
    pub fn get(&self, key: Key) -> (r: Option<&Value>)
        ensures
            match r {
                Some(v) => self@.contains_key(key.0) && v@ == self@[key.0],
                None => !self@.contains_key(key.0),
            },
    {
        table_get(&self.entries, key.0)
    }

    /// The key and value of `key`, if it has a value.
    pub fn get_key_value(&self, key: Key) -> (r: Option<(Key, &Value)>)
        ensures
            match r {
                Some((k, v)) => k == key && self@.contains_key(key.0) && v@ == self@[key.0],
                None => !self@.contains_key(key.0),
            },
    {
        match self.get(key) {
            Some(v) => Some((key, v)),
            None => None,
        }
    }

    /// Whether `key` has a value.
    pub fn contains_key(&self, key: Key) -> (r: bool)
        ensures
            r == self@.contains_key(key.0),
    {
        self.get(key).is_some()
    }

    /// A place that holds the value of `key`, if it has one; what the place
    /// holds when the borrow ends becomes the value of `key`.
    pub fn get_mut(&mut self, key: Key) -> (r: Option<&mut Value>)
        ensures
            match r {
                Some(v) => old(self)@.contains_key(key.0) && (*v)@ == old(self)@[key.0]
                    && final(self)@ == old(self)@.insert(key.0, (*final(v))@),
                None => !old(self)@.contains_key(key.0) && final(self)@ == old(self)@,
            },
    {
        proof {
            lemma_view_of_insert(self.entries@, key.0);
        }
        table_get_mut(&mut self.entries, key.0)
    }

    /// Sets the value of `key`, and hands back the value it had, if any.
    pub fn insert(&mut self, key: Key, value: Value) -> (r: Option<Value>)
        ensures
            final(self)@ == old(self)@.insert(key.0, value@),
            match r {
                Some(v) => old(self)@.contains_key(key.0) && v@ == old(self)@[key.0],
                None => !old(self)@.contains_key(key.0),
            },
    {
        let ghost v = value@;
        let r = table_insert(&mut self.entries, key.0, value);
        assert(self@ =~= old(self)@.insert(key.0, v));
        r
    }

    /// Takes the value of `key` out of the map, if it has one.
    pub fn remove(&mut self, key: Key) -> (r: Option<Value>)
        ensures
            final(self)@ == old(self)@.remove(key.0),
            match r {
                Some(v) => old(self)@.contains_key(key.0) && v@ == old(self)@[key.0],
                None => !old(self)@.contains_key(key.0),
            },
    {
        let r = table_remove(&mut self.entries, key.0);
        assert(self@ =~= old(self)@.remove(key.0));
        r
    }

    /// Takes the entry of `key` out of the map, if it has one.
    pub fn remove_entry(&mut self, key: Key) -> (r: Option<(Key, Value)>)
        ensures
            final(self)@ == old(self)@.remove(key.0),
            match r {
                Some((k, v)) => k == key && old(self)@.contains_key(key.0) && v@ == old(self)@[key.0],
                None => !old(self)@.contains_key(key.0),
            },
    {
        match self.remove(key) {
            Some(v) => Some((key, v)),
            None => None,
        }
    }

    /// Decodes a map from the front of `bytes` into this one: the 4-byte
    /// length, then entries until exactly that many bytes are used. An entry
    /// of a key already present replaces its value. Gives the number of
    /// bytes taken.
    pub fn read(&mut self, bytes: &[u8]) -> (r: Result<usize, Error>)
        ensures
            match parse_map(bytes@) {
                Ok((s, n)) => r matches Ok(m) && m == n && final(self)@ == apply_entries(
                    old(self)@,
                    s,
                ),
                Err(e) => r matches Err(x) && x@ == e,
            },
    {
        if bytes.len() < 4 {
            return Err(Error::UnexpectedEof);
        }
        let len = u32_from_le_bytes(slice_subrange(bytes, 0, 4));
        if ((bytes.len() - 4) as u64) < (len as u64) {
            return Err(Error::UnexpectedEof);
        }
        let end = 4 + len as usize;
        let window = slice_subrange(bytes, 4, end);
        let ghost start = self@;
        let ghost mut seen: Seq<(u32, ValueView)> = Seq::empty();
        let mut pos: usize = 0;
        assert(window@.subrange(0, window@.len() as int) =~= window@);
        proof {
            match parse_entries(window@) {
                Ok(t) => {
                    assert(seen + t =~= t);
                },
                Err(_) => {},
            }
        }
        while pos < window.len()
            invariant
                pos <= window@.len(),
                4 + len <= bytes@.len(),
                len == spec_u32_from_le_bytes(bytes@.subrange(0, 4)),
                end == 4 + len,
                window@ == bytes@.subrange(4, 4 + len as int),
                start == old(self)@,
                self@ == apply_entries(start, seen),
                parse_entries(window@) == match parse_entries(
                    window@.subrange(pos as int, window@.len() as int),
                ) {
                    Ok(t) => Ok(seen + t),
                    Err(e) => Err(e),
                },
            decreases window@.len() - pos,
        {
            let rest = slice_subrange(window, pos, window.len());
            match read_kv(rest) {
                Ok((n, (k, v))) => {
                    let ghost e = (k.0, v@);
                    proof {
                        let tail = rest@.subrange(n as int, rest@.len() as int);
                        assert(tail =~= window@.subrange((pos + n) as int, window@.len() as int));
                        match parse_entries(tail) {
                            Ok(t) => {
                                assert(seen + (seq![e] + t) =~= seen.push(e) + t);
                            },
                            Err(_) => {},
                        }
                        assert(seen.push(e).drop_last() =~= seen);
                    }
                    self.insert(k, v);
                    proof {
                        seen = seen.push(e);
                    }
                    pos = pos + n;
                },
                Err(e) => {
                    assert(rest@ =~= window@.subrange(pos as int, window@.len() as int));
                    assert(rest@.len() > 0);
                    assert(parse_entries(rest@) == Err::<Seq<(u32, ValueView)>, ErrorView>(e@));
                    return Err(e);
                },
            }
        }
        assert(window@.subrange(pos as int, window@.len() as int) =~= Seq::<u8>::empty());
        assert(seen + Seq::<(u32, ValueView)>::empty() =~= seen);
        Ok(end)
    }

    /// Appends the map to `out`: the byte length of its entries as 4 bytes,
    /// then the entries, in the table's own order. A value too wide for its
    /// wire form, or entries too long for the length field, are refused,
    /// with nothing written.
    pub fn write(&self, out: &mut Vec<u8>) -> (r: Result<(), Error>)
        ensures
            r is Ok <==> map_encodable(self@),
            match r {
                Ok(()) => exists|s: Seq<(u32, ValueView)>|
                    is_listing(s, self@) && final(out)@ == old(out)@ + map_bytes(s),
                Err(e) => e@ == ErrorView::IntegerOverflow && final(out)@ == old(out)@,
            },
    {
        let keys = table_keys(&self.entries);
        let ghost m = self@;
        let ghost listed = keys@.map_values(|k: u32| (k, m[k]));
        proof {
            assert(m.dom() =~= self.entries@.dom());
            assert(m.dom().finite());
        }
        let mut buffer: Vec<u8> = Vec::new();
        let mut i: usize = 0;
        while i < keys.len()
            invariant
                i <= keys@.len(),
                m == self@,
                m.dom().finite(),
                keys@.no_duplicates(),
                keys@.to_set() == m.dom(),
                listed == keys@.map_values(|k: u32| (k, m[k])),
                buffer@ == entries_bytes(listed.take(i as int)),
                forall|j: int| 0 <= j < i ==> encodable(#[trigger] m[keys@[j]]),
            decreases keys@.len() - i,
        {
            let k = keys[i];
            assert(keys@.to_set().contains(k));
            let v = table_get(&self.entries, k).unwrap();
            match write_kv(&mut buffer, Key(k), v) {
                Ok(_) => {},
                Err(e) => {
                    return Err(e);
                },
            }
            proof {
                assert(listed.take(i as int + 1) =~= listed.take(i as int).push((k, m[k])));
                lemma_entries_bytes_push(listed.take(i as int), (k, m[k]));
            }
            i = i + 1;
        }
        proof {
            assert(listed.take(i as int) =~= listed);
            assert(is_listing(listed, m)) by {
                assert forall|a: int, b: int|
                    0 <= a < listed.len() && 0 <= b < listed.len() && listed[a].0
                        == listed[b].0 implies a == b by {
                    assert(keys@[a] == keys@[b]);
                }
                assert forall|a: int| 0 <= a < listed.len() implies m.contains_key(
                    #[trigger] listed[a].0,
                ) && m[listed[a].0] == listed[a].1 by {
                    assert(keys@.to_set().contains(keys@[a]));
                }
                assert forall|k: u32| m.contains_key(k) implies exists|a: int|
                    0 <= a < listed.len() && #[trigger] listed[a].0 == k by {
                    assert(keys@.to_set().contains(k));
                    let a = choose|a: int| 0 <= a < keys@.len() && keys@[a] == k;
                    assert(listed[a].0 == k);
                }
            }
            lemma_listing_len(listed, m);
            assert forall|k: u32| m.contains_key(k) implies encodable(#[trigger] m[k]) by {
                assert(keys@.to_set().contains(k));
                let a = choose|a: int| 0 <= a < keys@.len() && keys@[a] == k;
            }
        }
        if buffer.len() as u64 > 0xffff_ffff {
            return Err(Error::IntegerOverflow);
        }
        let mut framed = u32_to_le_bytes(buffer.len() as u32);
        framed.append(&mut buffer);
        out.append(&mut framed);
        Ok(())
    }
}

/// Entries that each fit their wire form decode back to themselves.
proof fn lemma_entries_round_trip(s: Seq<(u32, ValueView)>)
    requires
        forall|i: int| 0 <= i < s.len() ==> encodable(#[trigger] s[i].1),
    ensures
        parse_entries(entries_bytes(s)) == Ok::<Seq<(u32, ValueView)>, ErrorView>(s),
    decreases s.len(),
{
    if s.len() > 0 {
        let rest = s.drop_first();
        assert forall|i: int| 0 <= i < rest.len() implies encodable(#[trigger] rest[i].1) by {
            assert(rest[i] == s[i + 1]);
        }
        lemma_entries_round_trip(rest);
        lemma_entry_round_trip(s[0].0, s[0].1, entries_bytes(rest));
        let b = entries_bytes(s);
        let n = entry_bytes(s[0].0, s[0].1).len();
        assert(b == entry_bytes(s[0].0, s[0].1) + entries_bytes(rest));
        assert(b.len() > 0);
        assert(b.subrange(n as int, b.len() as int) =~= entries_bytes(rest));
        assert(seq![(s[0].0, s[0].1)] + rest =~= s);
    } else {
        assert(s =~= Seq::<(u32, ValueView)>::empty());
    }
}

/// Inserting the entries of a listing into an empty map rebuilds the map.
proof fn lemma_apply_listing(s: Seq<(u32, ValueView)>, m: Map<u32, ValueView>)
    requires
        is_listing(s, m),
    ensures
        apply_entries(Map::empty(), s) == m,
    decreases s.len(),
{
    if s.len() == 0 {
        assert(m =~= Map::<u32, ValueView>::empty());
    } else {
        let last = s.last();
        let init = s.drop_last();
        let mk = m.remove(last.0);
        assert forall|i: int| 0 <= i < init.len() implies mk.contains_key(#[trigger] init[i].0)
            && mk[init[i].0] == init[i].1 by {
            assert(init[i] == s[i]);
            assert(s[i].0 != s[s.len() - 1].0);
        }
        assert forall|j: u32| mk.contains_key(j) implies exists|i: int|
            0 <= i < init.len() && #[trigger] init[i].0 == j by {
            let i = choose|i: int| 0 <= i < s.len() && #[trigger] s[i].0 == j;
            assert(init[i].0 == j);
        }
        lemma_apply_listing(init, mk);
        assert(m.contains_key(last.0));
        assert(mk.insert(last.0, last.1) =~= m);
    }
}

/// The wire form of a map decodes back to the listed entries, whatever
/// follows it.
pub proof fn lemma_map_bytes_round_trip(m: Map<u32, ValueView>, s: Seq<(u32, ValueView)>, rest: Seq<u8>)
    requires
        map_encodable(m),
        is_listing(s, m),
    ensures
        parse_map(map_bytes(s) + rest) matches Ok((t, n)) && apply_entries(Map::empty(), t) == m
            && n == map_bytes(s).len(),
{
    lemma_listing_len(s, m);
    lemma_auto_spec_u32_to_from_le_bytes();
    assert forall|i: int| 0 <= i < s.len() implies encodable(#[trigger] s[i].1) by {
        assert(m.contains_key(s[i].0));
    }
    lemma_entries_round_trip(s);
    lemma_apply_listing(s, m);
    let e = entries_bytes(s);
    let b = map_bytes(s) + rest;
    assert(b.subrange(0, 4) =~= spec_u32_to_le_bytes(e.len() as u32));
    assert(b.subrange(4, 4 + e.len() as int) =~= e);
}

/// A written map decodes back to the same entries, whatever order they were
/// written in and whatever follows them: inserting the decoded entries
/// into an empty map gives the map again.
pub proof fn lemma_map_round_trip(m: TypedMap, s: Seq<(u32, ValueView)>, rest: Seq<u8>)
    requires
        map_encodable(m@),
        is_listing(s, m@),
    ensures
        parse_map(map_bytes(s) + rest) matches Ok((t, n)) && apply_entries(Map::empty(), t) == m@
            && n == map_bytes(s).len(),
{
    lemma_map_bytes_round_trip(m@, s, rest);
}

} // verus!

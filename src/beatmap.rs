//! One playlist entry: a beatmap, identified by one of several payloads,
//! stored as a map with reserved field identifiers.
use vstd::prelude::*;

use crate::error::{Error, ErrorView};
use crate::format::error::ErrorView as FormatErrorView;
use crate::format::map::{
    apply_entries, is_listing, lemma_map_bytes_round_trip, map_bytes, map_encodable, parse_map,
};
use crate::format::values::Sha1;
use crate::format::{Key, TypedMap, Value, ValueView};

verus! {

/// How a beatmap is identified.
#[derive(Debug, Clone, Copy, PartialEq, Eq, Hash, Structural)]
pub enum BeatmapType {
    Key,
    Hash,
    Zip,
    LevelId,
    Unknown,
}

/// The type that a discriminant byte stands for.
pub open spec fn type_of_byte(u: u8) -> BeatmapType {
    if u == 0 {
        BeatmapType::Key
    } else if u == 1 {
        BeatmapType::Hash
    } else if u == 2 {
        BeatmapType::Zip
    } else if u == 3 {
        BeatmapType::LevelId
    } else {
        BeatmapType::Unknown
    }
}

/// The discriminant byte written for a type.
pub open spec fn byte_of_type(t: BeatmapType) -> u8 {
    match t {
        BeatmapType::Key => 0,
        BeatmapType::Hash => 1,
        BeatmapType::Zip => 2,
        BeatmapType::LevelId => 3,
        BeatmapType::Unknown => 255,
    }
}

impl BeatmapType {
    /// The type of a discriminant byte; bytes past the known ones are
    /// [`BeatmapType::Unknown`].
    pub fn from(u: u8) -> (r: BeatmapType)
        ensures
            r == type_of_byte(u),
    {
        match u {
            0 => BeatmapType::Key,
            1 => BeatmapType::Hash,
            2 => BeatmapType::Zip,
            3 => BeatmapType::LevelId,
            _ => BeatmapType::Unknown,
        }
    }
}

impl From<BeatmapType> for u8 {
    fn from(t: BeatmapType) -> (r: u8) {
        match t {
            BeatmapType::Key => 0,
            BeatmapType::Hash => 1,
            BeatmapType::Zip => 2,
            BeatmapType::LevelId => 3,
            BeatmapType::Unknown => 255,
        }
    }
}

impl vstd::std_specs::convert::FromSpecImpl<BeatmapType> for u8 {
    open spec fn obeys_from_spec() -> bool {
        true
    }

    open spec fn from_spec(t: BeatmapType) -> u8 {
        byte_of_type(t)
    }
}

/// A beatmap as mathematical values.
pub struct BeatmapView {
    pub ty: BeatmapType,
    pub date_added: i64,
    pub key: Option<u32>,
    pub hash: Option<Seq<u8>>,
    pub zip: Option<Seq<u8>>,
    pub level_id: Option<Seq<char>>,
    pub custom_data: Map<u32, ValueView>,
}

/// One playlist entry. `date_added` is in Unix seconds; `custom_data` holds
/// the fields that no reserved identifier names, kept as they were read.
#[derive(Debug, Clone, PartialEq)]
pub struct Beatmap {
    pub ty: BeatmapType,
    pub date_added: i64,
    pub key: Option<u32>,
    pub hash: Option<Sha1>,
    pub zip: Option<Vec<u8>>,
    pub level_id: Option<String>,
    pub custom_data: TypedMap,
}

impl View for Beatmap {
    type V = BeatmapView;

    open spec fn view(&self) -> BeatmapView {
        BeatmapView {
            ty: self.ty,
            date_added: self.date_added,
            key: self.key,
            hash: match self.hash {
                Some(h) => Some(h.0@),
                None => None,
            },
            zip: match self.zip {
                Some(z) => Some(z@),
                None => None,
            },
            level_id: match self.level_id {
                Some(s) => Some(s@),
                None => None,
            },
            custom_data: self.custom_data@,
        }
    }
}

/// The value of field `k` of `m`, if it has one.
pub open spec fn field(m: Map<u32, ValueView>, k: u32) -> Option<ValueView> {
    if m.contains_key(k) {
        Some(m[k])
    } else {
        None
    }
}

/// The optional key field, if it is absent or of the right kind.
pub open spec fn key_field(f: Option<ValueView>) -> Result<Option<u32>, ErrorView> {
    match f {
        None => Ok(None),
        Some(ValueView::U32(x)) => Ok(Some(x)),
        _ => Err(ErrorView::InvalidBeatmapKey(f)),
    }
}

/// The optional hash field, if it is absent or of the right kind.
pub open spec fn hash_field(f: Option<ValueView>) -> Result<Option<Seq<u8>>, ErrorView> {
    match f {
        None => Ok(None),
        Some(ValueView::Sha1(h)) => Ok(Some(h)),
        _ => Err(ErrorView::InvalidBeatmapHash(f)),
    }
}

/// The optional zip field, if it is absent or of the right kind.
pub open spec fn zip_field(f: Option<ValueView>) -> Result<Option<Seq<u8>>, ErrorView> {
    match f {
        None => Ok(None),
        Some(ValueView::Binary(b)) => Ok(Some(b)),
        _ => Err(ErrorView::InvalidBeatmapZip(f)),
    }
}

/// The optional level ID field, if it is absent or of the right kind.
pub open spec fn level_id_field(f: Option<ValueView>) -> Result<Option<Seq<char>>, ErrorView> {
    match f {
        None => Ok(None),
        Some(ValueView::ShortString(s)) => Ok(Some(s)),
        _ => Err(ErrorView::InvalidBeatmapLevelId(f)),
    }
}

/// The fields other than the reserved ones.
pub open spec fn residual(m: Map<u32, ValueView>) -> Map<u32, ValueView> {
    m.remove(0).remove(1).remove(2).remove(3).remove(4).remove(5)
}

/// The beatmap that the fields of `m` describe, or why they describe none.
pub open spec fn beatmap_of_map(m: Map<u32, ValueView>, strict: bool) -> Result<
    BeatmapView,
    ErrorView,
> {
    match field(m, 0) {
        Some(ValueView::U8(u)) => if strict && type_of_byte(u) == BeatmapType::Unknown {
            Err(ErrorView::StrictModeUnknownBeatmapType(u))
        } else {
            let ty = type_of_byte(u);
            match field(m, 1) {
                Some(ValueView::U64(d)) => if d > 0x7fff_ffff_ffff_ffff {
                    Err(ErrorView::IntegerOverflow)
                } else {
                    match (
                        key_field(field(m, 2)),
                        hash_field(field(m, 3)),
                        zip_field(field(m, 4)),
                        level_id_field(field(m, 5)),
                    ) {
                        (Err(e), _, _, _) => Err(e),
                        (Ok(_), Err(e), _, _) => Err(e),
                        (Ok(_), Ok(_), Err(e), _) => Err(e),
                        (Ok(_), Ok(_), Ok(_), Err(e)) => Err(e),
                        (Ok(key), Ok(hash), Ok(zip), Ok(level_id)) => {
                            if ty == BeatmapType::Key && key is None {
                                Err(ErrorView::MissingBeatmapKey)
                            } else if ty == BeatmapType::Hash && hash is None {
                                Err(ErrorView::MissingBeatmapHash)
                            } else if ty == BeatmapType::Zip && zip is None {
                                Err(ErrorView::MissingBeatmapZip)
                            } else if ty == BeatmapType::LevelId && level_id is None {
                                Err(ErrorView::MissingBeatmapLevelId)
                            } else {
                                Ok(
                                    BeatmapView {
                                        ty,
                                        date_added: d as i64,
                                        key,
                                        hash,
                                        zip,
                                        level_id,
                                        custom_data: residual(m),
                                    },
                                )
                            }
                        },
                    }
                },
                _ => Err(ErrorView::InvalidBeatmapDateAdded(field(m, 1))),
            }
        },
        _ => Err(ErrorView::InvalidBeatmapType(field(m, 0))),
    }
}

/// The map that a beatmap is written as: its custom data with the reserved
/// fields set.
pub open spec fn map_of_beatmap(b: BeatmapView) -> Map<u32, ValueView> {
    let m = b.custom_data.insert(0, ValueView::U8(byte_of_type(b.ty))).insert(
        1,
        ValueView::U64(b.date_added as u64),
    );
    let m = match b.key {
        Some(k) => m.insert(2, ValueView::U32(k)),
        None => m,
    };
    let m = match b.hash {
        Some(h) => m.insert(3, ValueView::Sha1(h)),
        None => m,
    };
    let m = match b.zip {
        Some(z) => m.insert(4, ValueView::Binary(z)),
        None => m,
    };
    match b.level_id {
        Some(s) => m.insert(5, ValueView::ShortString(s)),
        None => m,
    }
}

/// Decodes a beatmap from the front of `b`: the beatmap and the number of
/// bytes its map took.
pub open spec fn parse_beatmap(b: Seq<u8>, strict: bool) -> Result<(BeatmapView, nat), ErrorView> {
    match parse_map(b) {
        Ok((s, n)) => match beatmap_of_map(apply_entries(Map::empty(), s), strict) {
            Ok(x) => Ok((x, n)),
            Err(e) => Err(e),
        },
        Err(e) => Err(ErrorView::Format(e)),
    }
}

impl Beatmap {
    /// A beatmap of type `ty`, added at `date_added` (Unix seconds), with no
    /// identifying payload and no custom data yet.
    pub fn new(ty: BeatmapType, date_added: i64) -> (r: Beatmap)
        ensures
            r@.ty == ty,
            r@.date_added == date_added,
            r@.key is None && r@.hash is None && r@.zip is None && r@.level_id is None,
            r@.custom_data == Map::<u32, ValueView>::empty(),
    {
        Beatmap {
            ty,
            date_added,
            key: None,
            hash: None,
            zip: None,
            level_id: None,
            custom_data: TypedMap::new(),
        }
    }

    /// A beatmap identified by its key, added at `date_added` (Unix seconds).
    pub fn new_key(key: u32, date_added: i64) -> (r: Beatmap)
        ensures
            r@.ty == BeatmapType::Key,
            r@.date_added == date_added,
            r@.key == Some(key),
            r@.hash is None && r@.zip is None && r@.level_id is None,
            r@.custom_data == Map::<u32, ValueView>::empty(),
    {
        let mut r = Beatmap::new(BeatmapType::Key, date_added);
        r.key = Some(key);
        r
    }

    /// A beatmap identified by its digest, added at `date_added` (Unix seconds).
    pub fn new_hash(hash: Sha1, date_added: i64) -> (r: Beatmap)
        ensures
            r@.ty == BeatmapType::Hash,
            r@.date_added == date_added,
            r@.hash == Some(hash.0@),
            r@.key is None && r@.zip is None && r@.level_id is None,
            r@.custom_data == Map::<u32, ValueView>::empty(),
    {
        let mut r = Beatmap::new(BeatmapType::Hash, date_added);
        r.hash = Some(hash);
        r
    }

    /// A beatmap identified by a zip archive it is carried in whole, added at `date_added` (Unix seconds).
    pub fn new_zip(zip: Vec<u8>, date_added: i64) -> (r: Beatmap)
        ensures
            r@.ty == BeatmapType::Zip,
            r@.date_added == date_added,
            r@.zip == Some(zip@),
            r@.key is None && r@.hash is None && r@.level_id is None,
            r@.custom_data == Map::<u32, ValueView>::empty(),
    {
        let mut r = Beatmap::new(BeatmapType::Zip, date_added);
        r.zip = Some(zip);
        r
    }

    /// A beatmap identified by its level ID, added at `date_added` (Unix seconds).
    pub fn new_level_id(level_id: String, date_added: i64) -> (r: Beatmap)
        ensures
            r@.ty == BeatmapType::LevelId,
            r@.date_added == date_added,
            r@.level_id == Some(level_id@),
            r@.key is None && r@.hash is None && r@.zip is None,
            r@.custom_data == Map::<u32, ValueView>::empty(),
    {
        let mut r = Beatmap::new(BeatmapType::LevelId, date_added);
        r.level_id = Some(level_id);
        r
    }

    /// Takes the reserved fields out of `data` and builds the beatmap they
    /// describe; what is left becomes its custom data. With `strict`, a
    /// discriminant of no known type is refused.
    pub fn from_map(data: TypedMap, strict: bool) -> (r: Result<Beatmap, Error>)
        ensures
            match beatmap_of_map(data@, strict) {
                Ok(b) => r matches Ok(x) && x@ == b,
                Err(e) => r matches Err(x) && x@ == e,
            },
    {
        let mut data = data;
        let ghost m = data@;
        let ty = match data.remove(Key(0)) {
            Some(Value::U8(u)) => {
                let ty = BeatmapType::from(u);
                if strict && ty == BeatmapType::Unknown {
                    return Err(Error::StrictModeUnknownBeatmapType(u));
                }
                ty
            },
            v => return Err(Error::InvalidBeatmapType(v)),
        };
        let date_added = match data.remove(Key(1)) {
            Some(Value::U64(u)) => {
                if u > 0x7fff_ffff_ffff_ffff {
                    return Err(Error::IntegerOverflow);
                }
                u as i64
            },
            v => return Err(Error::InvalidBeatmapDateAdded(v)),
        };
        let key = match data.remove(Key(2)) {
            Some(Value::U32(u)) => Some(u),
            None => None,
            v => return Err(Error::InvalidBeatmapKey(v)),
        };
        let hash = match data.remove(Key(3)) {
            Some(Value::Sha1(h)) => Some(h),
            None => None,
            v => return Err(Error::InvalidBeatmapHash(v)),
        };
        let zip = match data.remove(Key(4)) {
            Some(Value::Binary(b)) => Some(b),
            None => None,
            v => return Err(Error::InvalidBeatmapZip(v)),
        };
        let level_id = match data.remove(Key(5)) {
            Some(Value::ShortString(s)) => Some(s),
            None => None,
            v => return Err(Error::InvalidBeatmapLevelId(v)),
        };
        match ty {
            BeatmapType::Key => {
                if key.is_none() {
                    return Err(Error::MissingBeatmapKey);
                }
            },
            BeatmapType::Hash => {
                if hash.is_none() {
                    return Err(Error::MissingBeatmapHash);
                }
            },
            BeatmapType::Zip => {
                if zip.is_none() {
                    return Err(Error::MissingBeatmapZip);
                }
            },
            BeatmapType::LevelId => {
                if level_id.is_none() {
                    return Err(Error::MissingBeatmapLevelId);
                }
            },
            BeatmapType::Unknown => {},
        }
        Ok(Beatmap { ty, date_added, key, hash, zip, level_id, custom_data: data })
    }

    /// The map this beatmap is written as: its custom data with the reserved
    /// fields set. A date before 1970 does not fit the unsigned field.
    pub fn into_map(self) -> (r: Result<TypedMap, Error>)
        ensures
            match r {
                Ok(m) => self@.date_added >= 0 && m@ == map_of_beatmap(self@),
                Err(e) => self@.date_added < 0 && e@ == ErrorView::IntegerOverflow,
            },
    {
        let ghost b = self@;
        let Beatmap { ty, date_added, key, hash, zip, level_id, custom_data: mut data } = self;
        if date_added < 0 {
            return Err(Error::IntegerOverflow);
        }
        data.insert(Key(0), Value::U8(u8::from(ty)));
        data.insert(Key(1), Value::U64(date_added as u64));
        if let Some(u) = key {
            data.insert(Key(2), Value::U32(u));
        }
        if let Some(h) = hash {
            data.insert(Key(3), Value::Sha1(h));
        }
        if let Some(z) = zip {
            data.insert(Key(4), Value::Binary(z));
        }
        if let Some(s) = level_id {
            data.insert(Key(5), Value::ShortString(s));
        }
        Ok(data)
    }

    /// Decodes a beatmap from the front of `bytes`: one map, then its fields
    /// as [`Beatmap::from_map`] reads them. Gives the number of bytes taken.
    pub fn read(bytes: &[u8], strict: bool) -> (r: Result<(Beatmap, usize), Error>)
        ensures
            match parse_beatmap(bytes@, strict) {
                Ok((b, n)) => r matches Ok((x, m)) && x@ == b && m == n,
                Err(e) => r matches Err(x) && x@ == e,
            },
    {
        let mut data = TypedMap::with_capacity(2);
        let n = match data.read(bytes) {
            Ok(n) => n,
            Err(e) => return Err(Error::Format(e)),
        };
        let b = Beatmap::from_map(data, strict)?;
        Ok((b, n))
    }

    /// Appends the beatmap to `out` as one map. A date before 1970, or a
    /// field too wide for the wire, is refused, with nothing written.
    pub fn write(self, out: &mut Vec<u8>) -> (r: Result<(), Error>)
        ensures
            r is Ok <==> self@.date_added >= 0 && map_encodable(map_of_beatmap(self@)),
            match r {
                Ok(()) => exists|s: Seq<(u32, ValueView)>|
                    is_listing(s, map_of_beatmap(self@)) && final(out)@ == old(out)@ + map_bytes(s),
                Err(e) => final(out)@ == old(out)@ && e@ == if self@.date_added < 0 {
                    ErrorView::IntegerOverflow
                } else {
                    ErrorView::Format(FormatErrorView::IntegerOverflow)
                },
            },
    {
        let data = self.into_map()?;
        match data.write(out) {
            Ok(()) => Ok(()),
            Err(e) => Err(Error::Format(e)),
        }
    }
}

/// Whether `b` is what reading its own map gives back: a date from 1970
/// on, custom data outside the reserved identifiers, the payload that its
/// type names present, and, when reading strictly, a known type.
pub open spec fn readable(b: BeatmapView, strict: bool) -> bool {
    &&& b.date_added >= 0
    &&& forall|k: u32| b.custom_data.contains_key(k) ==> k > 5
    &&& b.ty == BeatmapType::Key ==> b.key is Some
    &&& b.ty == BeatmapType::Hash ==> b.hash is Some
    &&& b.ty == BeatmapType::Zip ==> b.zip is Some
    &&& b.ty == BeatmapType::LevelId ==> b.level_id is Some
    &&& !(strict && b.ty == BeatmapType::Unknown)
}

/// Reading the map a readable beatmap is written as gives the beatmap back.
proof fn lemma_beatmap_of_own_map(b: BeatmapView, strict: bool)
    requires
        readable(b, strict),
    ensures
        beatmap_of_map(map_of_beatmap(b), strict) == Ok::<BeatmapView, ErrorView>(b),
{
    let m = map_of_beatmap(b);
    assert(!b.custom_data.contains_key(0) && !b.custom_data.contains_key(1));
    assert(!b.custom_data.contains_key(2) && !b.custom_data.contains_key(3));
    assert(!b.custom_data.contains_key(4) && !b.custom_data.contains_key(5));
    assert(type_of_byte(byte_of_type(b.ty)) == b.ty);
    assert((b.date_added as u64) as i64 == b.date_added);
    assert(residual(m) =~= b.custom_data);
}

/// The wire form of a readable beatmap decodes back to it.
pub(crate) proof fn lemma_beatmap_bytes_round_trip(
    b: BeatmapView,
    strict: bool,
    s: Seq<(u32, ValueView)>,
    rest: Seq<u8>,
)
    requires
        readable(b, strict),
        map_encodable(map_of_beatmap(b)),
        is_listing(s, map_of_beatmap(b)),
    ensures
        parse_beatmap(map_bytes(s) + rest, strict) == Ok::<(BeatmapView, nat), ErrorView>(
            (b, map_bytes(s).len()),
        ),
{
    lemma_map_bytes_round_trip(map_of_beatmap(b), s, rest);
    lemma_beatmap_of_own_map(b, strict);
}

/// A readable beatmap, once written, reads back as itself, custom data
/// included, whatever order its fields were written in and whatever
/// follows them.
pub proof fn lemma_beatmap_round_trip(
    b: Beatmap,
    strict: bool,
    s: Seq<(u32, ValueView)>,
    rest: Seq<u8>,
)
    requires
        readable(b@, strict),
        map_encodable(map_of_beatmap(b@)),
        is_listing(s, map_of_beatmap(b@)),
    ensures
        parse_beatmap(map_bytes(s) + rest, strict) == Ok::<(BeatmapView, nat), ErrorView>(
            (b@, map_bytes(s).len()),
        ),
{
    lemma_beatmap_bytes_round_trip(b@, strict, s, rest);
}

} // verus!

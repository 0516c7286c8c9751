//! The playlist document and its file envelope: a signature, then a
//! compressed payload of the playlist's own map, a count, and one map per
//! beatmap.
use vstd::prelude::*;
use vstd::bytes::*;
use vstd::slice::slice_subrange;

use crate::beatmap::{
    field, lemma_beatmap_bytes_round_trip, map_of_beatmap, parse_beatmap, readable, Beatmap, BeatmapView,
};
use crate::error::{Error, ErrorView};
use crate::format::error::ErrorView as FormatErrorView;
use crate::format::map::{
    apply_entries, is_listing, lemma_map_bytes_round_trip, map_bytes, map_encodable, parse_map,
};
use crate::format::{Key, TypedMap, Value, ValueView};
use crate::{magic_number, magic_number_bytes, MAGIC_NUMBER_LEN};

verus! {

/// The data of the gzip stream at the front of `data`, or `None` when it
/// holds none: a function of the bytes alone.
pub uninterp spec fn gunzip_of(data: Seq<u8>) -> Option<Seq<u8>>;

/// The gzip stream of `data` at compression `level`, as flate2 writes it:
/// a function of the two alone.
pub uninterp spec fn gzip_of(data: Seq<u8>, level: u32) -> Seq<u8>;

/// Relies on flate2's `read::GzDecoder`, read to its end: the data of the
/// gzip stream at the front of `data`, or an error where that is no valid
/// gzip stream.
#[verifier::external_body]
fn gunzip(data: &[u8]) -> (r: Result<Vec<u8>, std::io::Error>)
    ensures
        match r {
            Ok(v) => gunzip_of(data@) == Some(v@),
            Err(_) => gunzip_of(data@) is None,
        },
{
    let mut out = Vec::new();
    std::io::Read::read_to_end(&mut flate2::read::GzDecoder::new(data), &mut out)?;
    Ok(out)
}

/// Relies on flate2's `write::GzEncoder` over a `Vec`: the gzip stream of
/// `data` at compression `level`, which gzip decoding turns back into
/// `data`. Writing into a `Vec` does not fail; flate2's compressor asserts
/// that the level is at most 10.
#[verifier::external_body]
fn gzip(data: &[u8], level: u32) -> (r: Result<Vec<u8>, std::io::Error>)
    requires
        level <= 9,
    ensures
        r is Ok,
        r matches Ok(v) ==> v@ == gzip_of(data@, level),
        r matches Ok(v) ==> gunzip_of(v@) == Some(data@),
{
    let mut encoder = flate2::write::GzEncoder::new(Vec::new(), flate2::Compression::new(level));
    std::io::Write::write_all(&mut encoder, data)?;
    encoder.finish()
}

/// A playlist as mathematical values.
pub struct PlaylistView {
    pub title: Seq<char>,
    pub author: Seq<char>,
    pub description: Option<Seq<char>>,
    pub cover: Option<Seq<u8>>,
    pub maps: Seq<BeatmapView>,
    pub custom_data: Map<u32, ValueView>,
}

/// A playlist: its metadata, its beatmaps in order, and the fields of its
/// map that no reserved identifier names, kept as they were read.
#[derive(Debug, Clone, PartialEq)]
pub struct Playlist {
    pub title: String,
    pub author: String,
    pub description: Option<String>,
    pub cover: Option<Vec<u8>>,
    pub maps: Vec<Beatmap>,
    pub custom_data: TypedMap,
}

impl View for Playlist {
    type V = PlaylistView;

    open spec fn view(&self) -> PlaylistView {
        PlaylistView {
            title: self.title@,
            author: self.author@,
            description: match self.description {
                Some(s) => Some(s@),
                None => None,
            },
            cover: match self.cover {
                Some(c) => Some(c@),
                None => None,
            },
            maps: self.maps@.map_values(|b: Beatmap| b@),
            custom_data: self.custom_data@,
        }
    }
}

/// The optional description field, if it is absent or of the right kind.
pub open spec fn description_field(f: Option<ValueView>) -> Result<Option<Seq<char>>, ErrorView> {
    match f {
        None => Ok(None),
        Some(ValueView::LongString(s)) => Ok(Some(s)),
        _ => Err(ErrorView::InvalidPlaylistDescription(f)),
    }
}

/// The optional cover field, if it is absent or of the right kind.
pub open spec fn cover_field(f: Option<ValueView>) -> Result<Option<Seq<u8>>, ErrorView> {
    match f {
        None => Ok(None),
        Some(ValueView::Binary(b)) => Ok(Some(b)),
        _ => Err(ErrorView::InvalidPlaylistCover(f)),
    }
}

/// The playlist, still without beatmaps, that the fields of `m` describe,
/// or why they describe none.
pub open spec fn head_of_map(m: Map<u32, ValueView>) -> Result<PlaylistView, ErrorView> {
    match field(m, 0) {
        Some(ValueView::ShortString(title)) => match field(m, 1) {
            Some(ValueView::ShortString(author)) => match description_field(field(m, 2)) {
                Ok(description) => match cover_field(field(m, 3)) {
                    Ok(cover) => Ok(
                        PlaylistView {
                            title,
                            author,
                            description,
                            cover,
                            maps: Seq::empty(),
                            custom_data: m.remove(0).remove(1).remove(2).remove(3),
                        },
                    ),
                    Err(e) => Err(e),
                },
                Err(e) => Err(e),
            },
            _ => Err(ErrorView::InvalidPlaylistAuthor(field(m, 1))),
        },
        _ => Err(ErrorView::InvalidPlaylistTitle(field(m, 0))),
    }
}

/// Decodes `count` beatmaps, one after another, from the front of `b`.
pub open spec fn parse_beatmaps(b: Seq<u8>, count: nat, strict: bool) -> Result<
    Seq<BeatmapView>,
    ErrorView,
>
    decreases count,
{
    if count == 0 {
        Ok(Seq::empty())
    } else {
        match parse_beatmap(b, strict) {
            Ok((x, n)) => match parse_beatmaps(b.subrange(n as int, b.len() as int), (count - 1) as nat, strict) {
                Ok(xs) => Ok(seq![x] + xs),
                Err(e) => Err(e),
            },
            Err(e) => Err(e),
        }
    }
}

/// Decodes an uncompressed payload: the playlist's map, the 4-byte count of
/// beatmaps, then that many beatmaps. Bytes after the last are not read.
pub open spec fn parse_payload(b: Seq<u8>, strict: bool) -> Result<PlaylistView, ErrorView> {
    match parse_map(b) {
        Ok((s, n)) => match head_of_map(apply_entries(Map::empty(), s)) {
            Ok(h) => if b.len() < n + 4 {
                Err(ErrorView::Format(FormatErrorView::UnexpectedEof))
            } else {
                let count = spec_u32_from_le_bytes(b.subrange(n as int, n + 4 as int));
                match parse_beatmaps(b.subrange(n + 4 as int, b.len() as int), count as nat, strict) {
                    Ok(maps) => Ok(PlaylistView { maps, ..h }),
                    Err(e) => Err(e),
                }
            },
            Err(e) => Err(e),
        },
        Err(e) => Err(ErrorView::Format(e)),
    }
}

/// The map a playlist's metadata is written as: its custom data with the
/// reserved fields set.
pub open spec fn map_of_playlist(p: PlaylistView) -> Map<u32, ValueView> {
    let m = p.custom_data.insert(0, ValueView::ShortString(p.title)).insert(
        1,
        ValueView::ShortString(p.author),
    );
    let m = match p.description {
        Some(d) => m.insert(2, ValueView::LongString(d)),
        None => m,
    };
    match p.cover {
        Some(c) => m.insert(3, ValueView::Binary(c)),
        None => m,
    }
}

/// Why a beatmap cannot be written, if it cannot.
pub open spec fn beatmap_error(b: BeatmapView) -> Option<ErrorView> {
    if b.date_added < 0 {
        Some(ErrorView::IntegerOverflow)
    } else if !map_encodable(map_of_beatmap(b)) {
        Some(ErrorView::Format(FormatErrorView::IntegerOverflow))
    } else {
        None
    }
}

/// Why the first beatmap of `maps` that cannot be written cannot, if one
/// cannot.
pub open spec fn beatmaps_error(maps: Seq<BeatmapView>) -> Option<ErrorView>
    decreases maps.len(),
{
    if maps.len() == 0 {
        None
    } else {
        match beatmap_error(maps[0]) {
            Some(e) => Some(e),
            None => beatmaps_error(maps.drop_first()),
        }
    }
}

/// Why a playlist's payload cannot be written, if it cannot: its own map
/// first, then the count of beatmaps, then the beatmaps in order.
pub open spec fn payload_error(p: PlaylistView) -> Option<ErrorView> {
    if !map_encodable(map_of_playlist(p)) {
        Some(ErrorView::Format(FormatErrorView::IntegerOverflow))
    } else if p.maps.len() > 0xffff_ffff {
        Some(ErrorView::IntegerOverflow)
    } else {
        beatmaps_error(p.maps)
    }
}

/// Beatmap maps on the wire, one after another, each in the order of its
/// listing.
pub open spec fn beatmaps_bytes(ls: Seq<Seq<(u32, ValueView)>>) -> Seq<u8>
    decreases ls.len(),
{
    if ls.len() == 0 {
        Seq::empty()
    } else {
        map_bytes(ls[0]) + beatmaps_bytes(ls.drop_first())
    }
}

/// `ls` holds a listing of the map of each beatmap of `maps`.
pub open spec fn lists_beatmaps(ls: Seq<Seq<(u32, ValueView)>>, maps: Seq<BeatmapView>) -> bool {
    &&& ls.len() == maps.len()
    &&& forall|i: int| 0 <= i < ls.len() ==> is_listing(#[trigger] ls[i], map_of_beatmap(maps[i]))
}

/// A payload on the wire, the playlist's map in the order of `ms` and the
/// beatmaps' maps in the orders of `ls`.
pub open spec fn payload_bytes(ms: Seq<(u32, ValueView)>, count: u32, ls: Seq<Seq<(u32, ValueView)>>) -> Seq<u8> {
    map_bytes(ms) + spec_u32_to_le_bytes(count) + beatmaps_bytes(ls)
}

/// `b` is a payload of `p`, with its maps' entries in some order.
pub open spec fn is_payload(p: PlaylistView, b: Seq<u8>) -> bool {
    exists|ms: Seq<(u32, ValueView)>, ls: Seq<Seq<(u32, ValueView)>>|
        is_listing(ms, map_of_playlist(p)) && lists_beatmaps(ls, p.maps) && b == #[trigger] payload_bytes(
            ms,
            p.maps.len() as u32,
            ls,
        )
}

/// Writing beatmap maps and then one more is writing them with that one at
/// the end.
proof fn lemma_beatmaps_bytes_push(ls: Seq<Seq<(u32, ValueView)>>, l: Seq<(u32, ValueView)>)
    ensures
        beatmaps_bytes(ls.push(l)) == beatmaps_bytes(ls) + map_bytes(l),
    decreases ls.len(),
{
    let all = ls.push(l);
    if ls.len() == 0 {
        assert(all.drop_first() =~= Seq::<Seq<(u32, ValueView)>>::empty());
        assert(beatmaps_bytes(all.drop_first()) == Seq::<u8>::empty());
        assert(all[0] == l);
        assert(beatmaps_bytes(all) =~= beatmaps_bytes(ls) + map_bytes(l));
    } else {
        assert(all.drop_first() =~= ls.drop_first().push(l));
        lemma_beatmaps_bytes_push(ls.drop_first(), l);
        assert(beatmaps_bytes(all) =~= beatmaps_bytes(ls) + map_bytes(l));
    }
}

/// When the beatmaps before index `i` can all be written and the one at `i`
/// cannot, its failure is the first.
proof fn lemma_first_beatmap_error(maps: Seq<BeatmapView>, i: int)
    requires
        0 <= i < maps.len(),
        forall|j: int| 0 <= j < i ==> beatmap_error(#[trigger] maps[j]) is None,
    ensures
        beatmaps_error(maps) == if beatmap_error(maps[i]) is Some {
            beatmap_error(maps[i])
        } else {
            beatmaps_error(maps.subrange(i + 1, maps.len() as int))
        },
    decreases i,
{
    if i == 0 {
        assert(maps.drop_first() =~= maps.subrange(1, maps.len() as int));
    } else {
        let rest = maps.drop_first();
        assert forall|j: int| 0 <= j < i - 1 implies beatmap_error(#[trigger] rest[j]) is None by {
            assert(rest[j] == maps[j + 1]);
        }
        assert(beatmap_error(maps[0]) is None);
        lemma_first_beatmap_error(rest, i - 1);
        assert(rest.subrange(i, rest.len() as int) =~= maps.subrange(i + 1, maps.len() as int));
    }
}

/// Beatmaps that can each be written have no first failure.
proof fn lemma_no_beatmap_error(maps: Seq<BeatmapView>)
    requires
        forall|j: int| 0 <= j < maps.len() ==> beatmap_error(#[trigger] maps[j]) is None,
    ensures
        beatmaps_error(maps) is None,
    decreases maps.len(),
{
    if maps.len() > 0 {
        let rest = maps.drop_first();
        assert forall|j: int| 0 <= j < rest.len() implies beatmap_error(#[trigger] rest[j]) is None by {
            assert(rest[j] == maps[j + 1]);
        }
        assert(beatmap_error(maps[0]) is None);
        lemma_no_beatmap_error(rest);
    }
}

impl Playlist {
    /// An empty playlist with a title and an author.
    pub fn new(title: String, author: String) -> (r: Playlist)
        ensures
            r@.title == title@,
            r@.author == author@,
            r@.description is None,
            r@.cover is None,
            r@.maps == Seq::<BeatmapView>::empty(),
            r@.custom_data == Map::<u32, ValueView>::empty(),
    {
        let r = Playlist {
            title,
            author,
            description: None,
            cover: None,
            maps: Vec::new(),
            custom_data: TypedMap::new(),
        };
        assert(r@.maps =~= Seq::<BeatmapView>::empty());
        r
    }

    /// Decodes a playlist from an uncompressed payload: its map, whose
    /// reserved fields are taken out and the rest kept as custom data, then
    /// the count of beatmaps and the beatmaps themselves.
    pub fn from_payload(bytes: &[u8], strict: bool) -> (r: Result<Playlist, Error>)
        ensures
            match parse_payload(bytes@, strict) {
                Ok(p) => r matches Ok(x) && x@ == p,
                Err(e) => r matches Err(x) && x@ == e,
            },
    {
        let mut data = TypedMap::with_capacity(2);
        let n = match data.read(bytes) {
            Ok(n) => n,
            Err(e) => return Err(Error::Format(e)),
        };
        let ghost m = data@;
        let title = match data.remove(Key(0)) {
            Some(Value::ShortString(s)) => s,
            v => return Err(Error::InvalidPlaylistTitle(v)),
        };
        let author = match data.remove(Key(1)) {
            Some(Value::ShortString(s)) => s,
            v => return Err(Error::InvalidPlaylistAuthor(v)),
        };
        let description = match data.remove(Key(2)) {
            Some(Value::LongString(s)) => Some(s),
            None => None,
            v => return Err(Error::InvalidPlaylistDescription(v)),
        };
        let cover = match data.remove(Key(3)) {
            Some(Value::Binary(b)) => Some(b),
            None => None,
            v => return Err(Error::InvalidPlaylistCover(v)),
        };
        let ghost head = head_of_map(m)->Ok_0;
        if bytes.len() - n < 4 {
            return Err(Error::Format(crate::format::error::Error::UnexpectedEof));
        }
        let count = u32_from_le_bytes(slice_subrange(bytes, n, n + 4));
        let ghost all = bytes@.subrange(n + 4 as int, bytes@.len() as int);
        let mut pos: usize = n + 4;
        let mut i: u32 = 0;
        let mut maps: Vec<Beatmap> = Vec::new();
        proof {
            assert(bytes@.subrange(pos as int, bytes@.len() as int) =~= all);
            match parse_beatmaps(all, count as nat, strict) {
                Ok(t) => {
                    assert(Seq::<BeatmapView>::empty() + t =~= t);
                },
                Err(_) => {},
            }
        }
        while i < count
            invariant
                i <= count,
                pos <= bytes@.len(),
                all == bytes@.subrange(n + 4 as int, bytes@.len() as int),
                parse_payload(bytes@, strict) == match parse_beatmaps(all, count as nat, strict) {
                    Ok(t) => Ok(PlaylistView { maps: t, ..head }),
                    Err(e) => Err(e),
                },
                parse_beatmaps(all, count as nat, strict) == match parse_beatmaps(
                    bytes@.subrange(pos as int, bytes@.len() as int),
                    (count - i) as nat,
                    strict,
                ) {
                    Ok(t) => Ok(maps@.map_values(|b: Beatmap| b@) + t),
                    Err(e) => Err(e),
                },
            decreases count - i,
        {
            let rest = slice_subrange(bytes, pos, bytes.len());
            let ghost seen = maps@.map_values(|b: Beatmap| b@);
            match Beatmap::read(rest, strict) {
                Ok((b, k)) => {
                    proof {
                        let tail = rest@.subrange(k as int, rest@.len() as int);
                        assert(tail =~= bytes@.subrange((pos + k) as int, bytes@.len() as int));
                        match parse_beatmaps(tail, (count - i - 1) as nat, strict) {
                            Ok(t) => {
                                assert(seen + (seq![b@] + t) =~= seen.push(b@) + t);
                            },
                            Err(_) => {},
                        }
                    }
                    maps.push(b);
                    assert(maps@.map_values(|b: Beatmap| b@) =~= seen.push(b@));
                    pos = pos + k;
                    i = i + 1;
                },
                Err(e) => {
                    assert(rest@ =~= bytes@.subrange(pos as int, bytes@.len() as int));
                    return Err(e);
                },
            }
        }
        proof {
            match parse_beatmaps(bytes@.subrange(pos as int, bytes@.len() as int), 0, strict) {
                Ok(t) => {
                    assert(maps@.map_values(|b: Beatmap| b@) + t =~= maps@.map_values(
                        |b: Beatmap| b@,
                    ));
                },
                Err(_) => {},
            }
        }
        Ok(Playlist { title, author, description, cover, maps, custom_data: data })
    }

    /// Reads a playlist file: the signature, compared in constant time, then
    /// the compressed payload, decoded as [`Playlist::from_payload`] does.
    /// With `strict`, a beatmap of no known type is refused.
    pub fn read(bytes: &[u8], strict: bool) -> (r: Result<Playlist, Error>)
        ensures
            bytes@.len() < 8 ==> (r matches Err(e) && e@ == ErrorView::Format(
                FormatErrorView::UnexpectedEof,
            )),
            bytes@.len() >= 8 && bytes@.subrange(0, 8) != magic_number_bytes() ==> (r matches Err(e)
                && e@ == ErrorView::InvalidMagicNumber(bytes@.subrange(0, 8))),
            bytes@.len() >= 8 && bytes@.subrange(0, 8) == magic_number_bytes() ==> match gunzip_of(
                bytes@.subrange(8, bytes@.len() as int),
            ) {
                None => r matches Err(e) && e@ == ErrorView::IO,
                Some(payload) => match parse_payload(payload, strict) {
                    Ok(p) => r matches Ok(x) && x@ == p,
                    Err(e) => r matches Err(x) && x@ == e,
                },
            },
    {
        if bytes.len() < MAGIC_NUMBER_LEN {
            return Err(Error::Format(crate::format::error::Error::UnexpectedEof));
        }
        let mut found = [0u8; 8];
        let mut i: usize = 0;
        while i < MAGIC_NUMBER_LEN
            invariant
                i <= 8,
                bytes@.len() >= 8,
                forall|j: int| 0 <= j < i ==> found@[j] == bytes@[j],
            decreases 8 - i,
        {
            found[i] = bytes[i];
            i = i + 1;
        }
        assert(found@ =~= bytes@.subrange(0, 8));
        let expected = magic_number();
        if !constant_time_eq::constant_time_eq(found.as_slice(), expected.as_slice()) {
            return Err(Error::InvalidMagicNumber(found));
        }
        let payload = match gunzip(slice_subrange(bytes, MAGIC_NUMBER_LEN, bytes.len())) {
            Ok(p) => p,
            Err(e) => return Err(Error::IO(e)),
        };
        Playlist::from_payload(payload.as_slice(), strict)
    }

    /// The uncompressed payload of the playlist: its map, with the reserved
    /// fields set over its custom data, then the count of beatmaps and each
    /// beatmap's map, in order.
    pub fn into_payload(self) -> (r: Result<Vec<u8>, Error>)
        ensures
            match payload_error(self@) {
                Some(e) => r matches Err(x) && x@ == e,
                None => r matches Ok(b) && is_payload(self@, b@),
            },
    {
        let ghost p = self@;
        let Playlist { title, author, description, cover, maps, custom_data: mut data } = self;
        data.insert(Key(0), Value::ShortString(title));
        data.insert(Key(1), Value::ShortString(author));
        if let Some(s) = description {
            data.insert(Key(2), Value::LongString(s));
        }
        if let Some(b) = cover {
            data.insert(Key(3), Value::Binary(b));
        }
        assert(data@ == map_of_playlist(p));
        let mut out: Vec<u8> = Vec::new();
        match data.write(&mut out) {
            Ok(()) => {},
            Err(e) => return Err(Error::Format(e)),
        }
        let ghost ms = choose|ms: Seq<(u32, ValueView)>|
            is_listing(ms, map_of_playlist(p)) && out@ == map_bytes(ms);
        let count = maps.len();
        if count as u64 > 0xffff_ffff {
            return Err(Error::IntegerOverflow);
        }
        let mut count_bytes = u32_to_le_bytes(count as u32);
        out.append(&mut count_bytes);
        let ghost head = out@;
        let ghost mut ls: Seq<Seq<(u32, ValueView)>> = Seq::empty();
        assert(head + beatmaps_bytes(ls) =~= head);
        for b in it: maps.into_iter()
            invariant
                p == self@,
                p.maps == it.seq().map_values(|b: Beatmap| b@),
                map_encodable(map_of_playlist(p)),
                p.maps.len() <= 0xffff_ffff,
                out@ == head + beatmaps_bytes(ls),
                lists_beatmaps(ls, p.maps.take(it.index() as int)),
                forall|j: int| 0 <= j < it.index() ==> beatmap_error(#[trigger] p.maps[j]) is None,
        {
            let ghost before = out@;
            let ghost k = it.index() as int;
            let ghost bv = b@;
            assert(bv == p.maps[k]);
            match b.write(&mut out) {
                Ok(()) => {},
                Err(e) => {
                    proof {
                        lemma_first_beatmap_error(p.maps, k);
                    }
                    return Err(e);
                },
            }
            proof {
                let l = choose|l: Seq<(u32, ValueView)>|
                    is_listing(l, map_of_beatmap(bv)) && out@ == before + map_bytes(l);
                lemma_beatmaps_bytes_push(ls, l);
                assert(p.maps.take(k + 1) =~= p.maps.take(k).push(bv));
                ls = ls.push(l);
                assert(out@ =~= head + beatmaps_bytes(ls));
            }
        }
        proof {
            assert(p.maps.take(p.maps.len() as int) =~= p.maps);
            assert(out@ =~= payload_bytes(ms, p.maps.len() as u32, ls));
            assert(beatmaps_error(p.maps) is None) by {
                if beatmaps_error(p.maps) is Some {
                    lemma_no_beatmap_error(p.maps);
                }
            }
        }
        Ok(out)
    }

    /// Writes the playlist file at the default compression level, 6.
    pub fn write(self) -> (r: Result<Vec<u8>, Error>)
        ensures
            match payload_error(self@) {
                Some(e) => r matches Err(x) && x@ == e,
                None => r matches Ok(out) && exists|b: Seq<u8>|
                    #[trigger] is_payload(self@, b) && out@ == magic_number_bytes() + gzip_of(b, 6)
                        && gunzip_of(gzip_of(b, 6)) == Some(b),
            },
    {
        self.write_with_compression(6)
    }

    /// Writes the playlist file: the signature, then the payload of
    /// [`Playlist::into_payload`], gzip-compressed at `level` (0 to 9).
    pub fn write_with_compression(self, level: u32) -> (r: Result<Vec<u8>, Error>)
        requires
            level <= 9,
        ensures
            match payload_error(self@) {
                Some(e) => r matches Err(x) && x@ == e,
                None => r matches Ok(out) && exists|b: Seq<u8>|
                    #[trigger] is_payload(self@, b) && out@ == magic_number_bytes() + gzip_of(
                        b,
                        level,
                    ) && gunzip_of(gzip_of(b, level)) == Some(b),
            },
    {
        let payload = self.into_payload()?;
        let mut compressed = match gzip(payload.as_slice(), level) {
            Ok(c) => c,
            Err(e) => return Err(Error::IO(e)),
        };
        let mut out: Vec<u8> = Vec::new();
        let magic = magic_number();
        let mut i: usize = 0;
        while i < MAGIC_NUMBER_LEN
            invariant
                i <= 8,
                out@ == magic@.subrange(0, i as int),
            decreases 8 - i,
        {
            out.push(magic[i]);
            i = i + 1;
            assert(out@ =~= magic@.subrange(0, i as int));
        }
        assert(magic@.subrange(0, 8) =~= magic@);
        out.append(&mut compressed);
        Ok(out)
    }
}

/// Whether `p` is what reading its own payload gives back: custom data
/// outside the reserved identifiers, and every beatmap readable.
pub open spec fn playlist_readable(p: PlaylistView, strict: bool) -> bool {
    &&& forall|k: u32| p.custom_data.contains_key(k) ==> k > 3
    &&& forall|i: int| 0 <= i < p.maps.len() ==> readable(#[trigger] p.maps[i], strict)
}

/// When no beatmap fails first, none fails.
proof fn lemma_each_beatmap_writable(maps: Seq<BeatmapView>)
    requires
        beatmaps_error(maps) is None,
    ensures
        forall|j: int| 0 <= j < maps.len() ==> beatmap_error(#[trigger] maps[j]) is None,
    decreases maps.len(),
{
    if maps.len() > 0 {
        let rest = maps.drop_first();
        lemma_each_beatmap_writable(rest);
        assert forall|j: int| 0 <= j < maps.len() implies beatmap_error(#[trigger] maps[j]) is None by {
            if j > 0 {
                assert(maps[j] == rest[j - 1]);
            }
        }
    }
}

/// Written beatmaps decode back to themselves, whatever follows them.
proof fn lemma_beatmaps_round_trip(
    ls: Seq<Seq<(u32, ValueView)>>,
    maps: Seq<BeatmapView>,
    strict: bool,
    rest: Seq<u8>,
)
    requires
        lists_beatmaps(ls, maps),
        forall|i: int| 0 <= i < maps.len() ==> readable(#[trigger] maps[i], strict),
        forall|i: int| 0 <= i < maps.len() ==> beatmap_error(#[trigger] maps[i]) is None,
    ensures
        parse_beatmaps(beatmaps_bytes(ls) + rest, maps.len(), strict) == Ok::<
            Seq<BeatmapView>,
            ErrorView,
        >(maps),
    decreases ls.len(),
{
    if ls.len() == 0 {
        assert(maps =~= Seq::<BeatmapView>::empty());
    } else {
        let tail = ls.drop_first();
        let more = maps.drop_first();
        assert(is_listing(ls[0], map_of_beatmap(maps[0])));
        assert(readable(maps[0], strict));
        assert(beatmap_error(maps[0]) is None);
        assert forall|i: int| 0 <= i < tail.len() implies is_listing(
            #[trigger] tail[i],
            map_of_beatmap(more[i]),
        ) by {
            assert(tail[i] == ls[i + 1]);
            assert(more[i] == maps[i + 1]);
        }
        assert forall|i: int| 0 <= i < more.len() implies readable(#[trigger] more[i], strict)
            && beatmap_error(more[i]) is None by {
            assert(more[i] == maps[i + 1]);
        }
        lemma_beatmaps_round_trip(tail, more, strict, rest);
        let after = beatmaps_bytes(tail) + rest;
        lemma_beatmap_bytes_round_trip(maps[0], strict, ls[0], after);
        let all = beatmaps_bytes(ls) + rest;
        assert(all =~= map_bytes(ls[0]) + after);
        let n = map_bytes(ls[0]).len();
        assert(all.subrange(n as int, all.len() as int) =~= after);
        assert(seq![maps[0]] + more =~= maps);
    }
}

/// Reading the map a readable playlist's metadata is written as gives the
/// metadata back.
proof fn lemma_head_of_own_map(p: PlaylistView)
    requires
        forall|k: u32| p.custom_data.contains_key(k) ==> k > 3,
    ensures
        head_of_map(map_of_playlist(p)) == Ok::<PlaylistView, ErrorView>(
            PlaylistView { maps: Seq::empty(), ..p },
        ),
{
    let m = map_of_playlist(p);
    assert(!p.custom_data.contains_key(0) && !p.custom_data.contains_key(1));
    assert(!p.custom_data.contains_key(2) && !p.custom_data.contains_key(3));
    assert(m.remove(0).remove(1).remove(2).remove(3) =~= p.custom_data);
}

/// A readable playlist, once written as a payload, reads back as itself,
/// custom data of the playlist and of every beatmap included, whatever
/// order the entries of its maps were written in.
pub proof fn lemma_playlist_round_trip(p: Playlist, strict: bool, b: Seq<u8>)
    requires
        playlist_readable(p@, strict),
        payload_error(p@) is None,
        is_payload(p@, b),
    ensures
        parse_payload(b, strict) == Ok::<PlaylistView, ErrorView>(p@),
{
    let v = p@;
    let (ms, ls) = choose|ms: Seq<(u32, ValueView)>, ls: Seq<Seq<(u32, ValueView)>>|
        is_listing(ms, map_of_playlist(v)) && lists_beatmaps(ls, v.maps) && b == #[trigger] payload_bytes(
            ms,
            v.maps.len() as u32,
            ls,
        );
    let count = v.maps.len() as u32;
    let after = spec_u32_to_le_bytes(count) + beatmaps_bytes(ls);
    assert(b =~= map_bytes(ms) + after);
    lemma_map_bytes_round_trip(map_of_playlist(v), ms, after);
    lemma_head_of_own_map(v);
    let n = map_bytes(ms).len();
    lemma_auto_spec_u32_to_from_le_bytes();
    assert(b.subrange(n as int, n + 4 as int) =~= spec_u32_to_le_bytes(count));
    assert(b.subrange(n + 4 as int, b.len() as int) =~= beatmaps_bytes(ls) + Seq::<u8>::empty());
    lemma_each_beatmap_writable(v.maps);
    lemma_beatmaps_round_trip(ls, v.maps, strict, Seq::<u8>::empty());
}

/// A readable playlist, once written as a file, reads back as itself: what
/// [`Playlist::write_with_compression`] promises of its output is enough
/// for [`Playlist::read`] to find the signature, decompress the payload and
/// decode the playlist again.
pub proof fn lemma_file_round_trip(p: Playlist, strict: bool, level: u32, out: Seq<u8>)
    requires
        playlist_readable(p@, strict),
        payload_error(p@) is None,
        exists|b: Seq<u8>|
            #[trigger] is_payload(p@, b) && out == magic_number_bytes() + gzip_of(b, level)
                && gunzip_of(gzip_of(b, level)) == Some(b),
    ensures
        out.len() >= 8,
        out.subrange(0, 8) == magic_number_bytes(),
        gunzip_of(out.subrange(8, out.len() as int)) matches Some(payload) && parse_payload(
            payload,
            strict,
        ) == Ok::<PlaylistView, ErrorView>(p@),
{
    let b = choose|b: Seq<u8>|
        #[trigger] is_payload(p@, b) && out == magic_number_bytes() + gzip_of(b, level)
            && gunzip_of(gzip_of(b, level)) == Some(b);
    assert(out.subrange(0, 8) =~= magic_number_bytes());
    assert(out.subrange(8, out.len() as int) =~= gzip_of(b, level));
    lemma_playlist_round_trip(p, strict, b);
}

} // verus!

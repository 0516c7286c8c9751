use blister::error::Error;
use blister::format::values::Sha1;
use blister::format::{Key, TypedMap, Value};
use blister::{Beatmap, BeatmapType, Playlist};

fn beatmap_map(ty: u8) -> TypedMap {
    let mut m = TypedMap::new();
    m.insert(Key(0), Value::U8(ty));
    m.insert(Key(1), Value::U64(1_600_000_000));
    m
}

#[test]
fn write_and_read() {
    let mut old = Playlist::new("test playlist".to_owned(), "me".to_owned());
    old.description = Some("description".to_owned());
    old.cover = Some(vec![2, 1, 1, 2]);
    old.custom_data.insert(Key(2112), Value::Float(1.234f32.to_bits()));

    let now = chrono::Utc::now().timestamp();
    old.maps.push(Beatmap::new_key(2112, now));
    old.maps.push(Beatmap::new_hash([4; 20].into(), now));
    old.maps.push(Beatmap::new_zip(vec![0, 1, 2, 3, 4, 5, 6, 7, 8, 9], now));
    old.maps.push(Beatmap::new_level_id("level ID".to_owned(), now));

    let buffer = old.clone().write().unwrap();

    let new = Playlist::read(buffer.as_slice(), true).unwrap();

    assert_eq!(old, new);
}

#[test]
fn unknown_type_is_lenient_or_strict() {
    let b = Beatmap::from_map(beatmap_map(99), false).unwrap();
    assert_eq!(b.ty, BeatmapType::Unknown);
    assert_eq!(b.date_added, 1_600_000_000);
    let r = Beatmap::from_map(beatmap_map(99), true);
    assert!(matches!(r, Err(Error::StrictModeUnknownBeatmapType(99))));
}

#[test]
fn missing_key_is_refused() {
    let r = Beatmap::from_map(beatmap_map(0), true);
    assert!(matches!(r, Err(Error::MissingBeatmapKey)));

    let mut m = beatmap_map(0);
    m.insert(Key(2), Value::U32(7));
    m.insert(Key(4), Value::Binary(vec![1, 2]));
    let b = Beatmap::from_map(m, true).unwrap();
    assert_eq!(b.ty, BeatmapType::Key);
    assert_eq!(b.key, Some(7));
    assert_eq!(b.zip, Some(vec![1, 2]));
    assert!(b.custom_data.is_empty());
}

#[test]
fn missing_payloads_for_each_type() {
    assert!(matches!(Beatmap::from_map(beatmap_map(1), false), Err(Error::MissingBeatmapHash)));
    assert!(matches!(Beatmap::from_map(beatmap_map(2), false), Err(Error::MissingBeatmapZip)));
    assert!(matches!(Beatmap::from_map(beatmap_map(3), false), Err(Error::MissingBeatmapLevelId)));
}

#[test]
fn mistyped_fields_are_refused() {
    let mut m = TypedMap::new();
    m.insert(Key(0), Value::U16(0));
    assert!(matches!(
        Beatmap::from_map(m, false),
        Err(Error::InvalidBeatmapType(Some(Value::U16(0))))
    ));
    assert!(matches!(
        Beatmap::from_map(TypedMap::new(), false),
        Err(Error::InvalidBeatmapType(None))
    ));
    let mut m = TypedMap::new();
    m.insert(Key(0), Value::U8(0));
    assert!(matches!(Beatmap::from_map(m, false), Err(Error::InvalidBeatmapDateAdded(None))));
    let mut m = beatmap_map(0);
    m.insert(Key(2), Value::U8(1));
    assert!(matches!(Beatmap::from_map(m, false), Err(Error::InvalidBeatmapKey(Some(_)))));
    let mut m = beatmap_map(0);
    m.insert(Key(3), Value::U8(1));
    assert!(matches!(Beatmap::from_map(m, false), Err(Error::InvalidBeatmapHash(Some(_)))));
    let mut m = beatmap_map(0);
    m.insert(Key(4), Value::U8(1));
    assert!(matches!(Beatmap::from_map(m, false), Err(Error::InvalidBeatmapZip(Some(_)))));
    let mut m = beatmap_map(0);
    m.insert(Key(5), Value::LongString("x".to_owned()));
    assert!(matches!(Beatmap::from_map(m, false), Err(Error::InvalidBeatmapLevelId(Some(_)))));
    let mut m = beatmap_map(4);
    m.insert(Key(1), Value::U64(u64::MAX));
    assert!(matches!(Beatmap::from_map(m, false), Err(Error::IntegerOverflow)));
}

#[test]
fn beatmap_custom_data_survives() {
    let mut b = Beatmap::new_level_id("abc".to_owned(), 0);
    b.date_added = 12345;
    b.custom_data.insert(Key(77), Value::LongString("extra".to_owned()));
    b.custom_data.insert(Key(6), Value::Bool(true));
    let mut out = Vec::new();
    b.clone().write(&mut out).unwrap();
    out.push(0xee);
    let (back, n) = Beatmap::read(&out, true).unwrap();
    assert_eq!(n, out.len() - 1);
    assert_eq!(back, b);
    assert_eq!(back.custom_data.get(Key(77)), Some(&Value::LongString("extra".to_owned())));
}

#[test]
fn beatmap_before_epoch_is_refused() {
    let mut b = Beatmap::new_key(1, 0);
    b.date_added = -1;
    let mut out = vec![1];
    assert!(matches!(b.write(&mut out), Err(Error::IntegerOverflow)));
    assert_eq!(out, vec![1]);
}

#[test]
fn beatmap_type_bytes() {
    assert_eq!(BeatmapType::from(2), BeatmapType::Zip);
    assert_eq!(BeatmapType::from(4), BeatmapType::Unknown);
    assert_eq!(u8::from(BeatmapType::LevelId), 3);
    assert_eq!(u8::from(BeatmapType::Unknown), 255);
}

#[test]
fn wrong_signature_is_refused() {
    let mut file = Playlist::new("t".to_owned(), "a".to_owned()).write().unwrap();
    assert_eq!(&file[..8], b"Blist.v3");
    file[7] = b'4';
    match Playlist::read(&file, false) {
        Err(Error::InvalidMagicNumber(m)) => assert_eq!(&m, b"Blist.v4"),
        other => panic!("unexpected {:?}", other),
    }
    assert!(matches!(
        Playlist::read(b"Blist", false),
        Err(Error::Format(blister::format::error::Error::UnexpectedEof))
    ));
}

#[test]
fn corrupt_compression_is_an_io_error() {
    let mut file = b"Blist.v3".to_vec();
    file.extend_from_slice(&[1, 2, 3, 4, 5]);
    assert!(matches!(Playlist::read(&file, false), Err(Error::IO(_))));
}

#[test]
fn payload_is_compressed() {
    let mut p = Playlist::new("t".to_owned(), "a".to_owned());
    p.cover = Some(vec![0; 4000]);
    let payload = p.clone().into_payload().unwrap();
    let file = p.clone().write_with_compression(9).unwrap();
    assert!(file.len() < payload.len());
    assert_eq!(Playlist::from_payload(&payload, true).unwrap(), p);
    assert_eq!(Playlist::read(&file, true).unwrap(), p);
}

#[test]
fn payload_layout() {
    let p = Playlist::new("t".to_owned(), "a".to_owned());
    let payload = p.into_payload().unwrap();
    assert_eq!(payload.len(), 4 + 7 + 7 + 4);
    assert_eq!(&payload[0..4], &[14, 0, 0, 0]);
    assert_eq!(&payload[18..22], &[0, 0, 0, 0]);
}

#[test]
fn playlist_field_errors() {
    let mut m = TypedMap::new();
    m.insert(Key(0), Value::LongString("t".to_owned()));
    let mut bytes = Vec::new();
    m.write(&mut bytes).unwrap();
    bytes.extend_from_slice(&[0, 0, 0, 0]);
    assert!(matches!(
        Playlist::from_payload(&bytes, false),
        Err(Error::InvalidPlaylistTitle(Some(Value::LongString(_))))
    ));

    let mut m = TypedMap::new();
    m.insert(Key(0), Value::ShortString("t".to_owned()));
    let mut bytes = Vec::new();
    m.write(&mut bytes).unwrap();
    assert!(matches!(Playlist::from_payload(&bytes, false), Err(Error::InvalidPlaylistAuthor(None))));

    m.insert(Key(1), Value::ShortString("a".to_owned()));
    m.insert(Key(2), Value::ShortString("d".to_owned()));
    let mut bytes = Vec::new();
    m.write(&mut bytes).unwrap();
    assert!(matches!(
        Playlist::from_payload(&bytes, false),
        Err(Error::InvalidPlaylistDescription(Some(_)))
    ));

    m.remove(Key(2));
    m.insert(Key(3), Value::Bool(true));
    let mut bytes = Vec::new();
    m.write(&mut bytes).unwrap();
    assert!(matches!(Playlist::from_payload(&bytes, false), Err(Error::InvalidPlaylistCover(Some(_)))));

    m.remove(Key(3));
    let mut bytes = Vec::new();
    m.write(&mut bytes).unwrap();
    assert!(matches!(
        Playlist::from_payload(&bytes, false),
        Err(Error::Format(blister::format::error::Error::UnexpectedEof))
    ));
    bytes.extend_from_slice(&[1, 0, 0, 0]);
    assert!(matches!(Playlist::from_payload(&bytes, false), Err(Error::Format(_))));
}

#[test]
fn new_beatmaps_hold_their_payload() {
    let b = Beatmap::new_hash(Sha1([3; 20]), 1_650_000_000);
    assert_eq!(b.ty, BeatmapType::Hash);
    assert_eq!(b.hash, Some(Sha1([3; 20])));
    assert!(b.key.is_none() && b.zip.is_none() && b.level_id.is_none());
    assert_eq!(b.date_added, 1_650_000_000);
    assert!(b.custom_data.is_empty());
    let u = Beatmap::new(BeatmapType::Unknown, -5);
    assert_eq!(u.ty, BeatmapType::Unknown);
    assert_eq!(u.date_added, -5);
    assert!(u.key.is_none() && u.hash.is_none());
}

#[test]
fn every_level_writes_and_reads_back() {
    let mut p = Playlist::new("levels".to_owned(), "me".to_owned());
    p.maps.push(Beatmap::new_key(5, 1_700_000_000));
    p.custom_data.insert(Key(40), Value::U32(9));
    for level in 0..=9 {
        let file = p.clone().write_with_compression(level).unwrap();
        assert_eq!(Playlist::read(&file, true).unwrap(), p);
    }
}

#[test]
fn new_beatmaps_can_be_written() {
    let mut out = Vec::new();
    Beatmap::new_zip(vec![1], 0).write(&mut out).unwrap();
    let (b, n) = Beatmap::read(&out, true).unwrap();
    assert_eq!(n, out.len());
    assert_eq!(b.zip, Some(vec![1]));
}

//! Reading and writing portable playlist documents: a typed key-value codec
//! and the playlist and beatmap records built on it, in a compressed,
//! signed file envelope.
use vstd::prelude::*;

pub mod format;
pub mod beatmap;
pub mod error;
pub mod playlist;

pub use crate::beatmap::{Beatmap, BeatmapType};
pub use crate::playlist::Playlist;

verus! {

/// The length of the file signature.
pub const MAGIC_NUMBER_LEN: usize = 8;

/// The file signature: `Blist.v3` in ASCII.
pub open spec fn magic_number_bytes() -> Seq<u8> {
    seq![0x42, 0x6c, 0x69, 0x73, 0x74, 0x2e, 0x76, 0x33]
}

/// The file signature, as bytes.
pub fn magic_number() -> (r: [u8; 8])
    ensures
        r@ == magic_number_bytes(),
{
    let r: [u8; 8] = [0x42, 0x6c, 0x69, 0x73, 0x74, 0x2e, 0x76, 0x33];
    assert(r@ =~= magic_number_bytes());
    r
}

} // verus!

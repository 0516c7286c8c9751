//! Failures of reading and writing playlists.
use vstd::prelude::*;

use crate::format::error::{Error as FormatError, ErrorView as FormatErrorView};
use crate::format::{Value, ValueView};

verus! {

/// `std::io::Error`, carried through from the compression stream.
#[verifier::external_type_specification]
#[verifier::external_body]
pub struct ExIoError(std::io::Error);

/// Why a playlist or a beatmap could not be read or written. The variants
/// for a reserved field hold what the field held instead, if anything.
#[derive(Debug)]
pub enum Error {
    IO(std::io::Error),
    Format(FormatError),
    IntegerOverflow,
    InvalidMagicNumber([u8; 8]),
    InvalidPlaylistTitle(Option<Value>),
    InvalidPlaylistAuthor(Option<Value>),
    InvalidPlaylistDescription(Option<Value>),
    InvalidPlaylistCover(Option<Value>),
    InvalidBeatmapType(Option<Value>),
    InvalidBeatmapDateAdded(Option<Value>),
    InvalidBeatmapKey(Option<Value>),
    InvalidBeatmapHash(Option<Value>),
    InvalidBeatmapZip(Option<Value>),
    InvalidBeatmapLevelId(Option<Value>),
    MissingBeatmapKey,
    MissingBeatmapHash,
    MissingBeatmapZip,
    MissingBeatmapLevelId,
    StrictModeUnknownBeatmapType(u8),
}

/// The kind of an [`Error`], with what it holds as mathematical values.
pub enum ErrorView {
    IO,
    Format(FormatErrorView),
    IntegerOverflow,
    InvalidMagicNumber(Seq<u8>),
    InvalidPlaylistTitle(Option<ValueView>),
    InvalidPlaylistAuthor(Option<ValueView>),
    InvalidPlaylistDescription(Option<ValueView>),
    InvalidPlaylistCover(Option<ValueView>),
    InvalidBeatmapType(Option<ValueView>),
    InvalidBeatmapDateAdded(Option<ValueView>),
    InvalidBeatmapKey(Option<ValueView>),
    InvalidBeatmapHash(Option<ValueView>),
    InvalidBeatmapZip(Option<ValueView>),
    InvalidBeatmapLevelId(Option<ValueView>),
    MissingBeatmapKey,
    MissingBeatmapHash,
    MissingBeatmapZip,
    MissingBeatmapLevelId,
    StrictModeUnknownBeatmapType(u8),
}

/// The view of a field that was looked up.
pub open spec fn field_view(v: Option<Value>) -> Option<ValueView> {
    match v {
        Some(x) => Some(x@),
        None => None,
    }
}

impl View for Error {
    type V = ErrorView;

    open spec fn view(&self) -> ErrorView {
        match self {
            Error::IO(_) => ErrorView::IO,
            Error::Format(e) => ErrorView::Format(e@),
            Error::IntegerOverflow => ErrorView::IntegerOverflow,
            Error::InvalidMagicNumber(b) => ErrorView::InvalidMagicNumber(b@),
            Error::InvalidPlaylistTitle(v) => ErrorView::InvalidPlaylistTitle(field_view(*v)),
            Error::InvalidPlaylistAuthor(v) => ErrorView::InvalidPlaylistAuthor(field_view(*v)),
            Error::InvalidPlaylistDescription(v) => ErrorView::InvalidPlaylistDescription(
                field_view(*v),
            ),
            Error::InvalidPlaylistCover(v) => ErrorView::InvalidPlaylistCover(field_view(*v)),
            Error::InvalidBeatmapType(v) => ErrorView::InvalidBeatmapType(field_view(*v)),
            Error::InvalidBeatmapDateAdded(v) => ErrorView::InvalidBeatmapDateAdded(field_view(*v)),
            Error::InvalidBeatmapKey(v) => ErrorView::InvalidBeatmapKey(field_view(*v)),
            Error::InvalidBeatmapHash(v) => ErrorView::InvalidBeatmapHash(field_view(*v)),
            Error::InvalidBeatmapZip(v) => ErrorView::InvalidBeatmapZip(field_view(*v)),
            Error::InvalidBeatmapLevelId(v) => ErrorView::InvalidBeatmapLevelId(field_view(*v)),
            Error::MissingBeatmapKey => ErrorView::MissingBeatmapKey,
            Error::MissingBeatmapHash => ErrorView::MissingBeatmapHash,
            Error::MissingBeatmapZip => ErrorView::MissingBeatmapZip,
            Error::MissingBeatmapLevelId => ErrorView::MissingBeatmapLevelId,
            Error::StrictModeUnknownBeatmapType(u) => ErrorView::StrictModeUnknownBeatmapType(*u),
        }
    }
}

} // verus!

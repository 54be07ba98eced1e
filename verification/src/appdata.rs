//! Decoding of one package's raw rich-metadata blob, as a backend fetches
//! it: a gzip-compressed, XML-based component collection. Decompression and
//! parsing failures are `Decode` errors; a successful result is the parsed
//! collection, unmodified.

use std::io::Read;
use vstd::prelude::*;
use crate::catalog::{coll_view, CollView, Component, MetaCollection, Translatable};

verus! {

/// The errors a detail fetch can report: the package can no longer be
/// re-resolved, or its metadata blob cannot be decompressed or parsed.
#[derive(Clone, Copy, Debug, PartialEq, Eq, Structural)]
pub enum FetchError {
    NotFound,
    Decode,
}

/// What gzip decompression makes of a blob: the decompressed bytes, or
/// nothing for a malformed stream. The outcome depends on the bytes alone.
pub uninterp spec fn gunzip_of(data: Seq<u8>) -> Option<Seq<u8>>;

/// What the XML parser makes of the decompressed bytes: a component
/// collection, or nothing where the structure is not a valid collection.
/// The outcome depends on the bytes alone.
pub uninterp spec fn parse_of(xml: Seq<u8>) -> Option<CollView>;

/// Relies on `flate2::read::GzDecoder` and `Read::read_to_end`: gzip
/// decompression of the blob, succeeding with the decompressed bytes or
/// failing on a malformed stream, deterministically in the input.
#[verifier::external_body]
fn gunzip(data: &[u8]) -> (r: Option<Vec<u8>>)
    ensures
        match r {
            Some(v) => gunzip_of(data@) == Some(v@),
            None => gunzip_of(data@) is None,
        },
{
    let mut gz = flate2::read::GzDecoder::new(data);
    let mut out = Vec::new();
    match gz.read_to_end(&mut out) {
        Ok(_) => Some(out),
        Err(_) => None,
    }
}

/// Relies on `appstream::xmltree::Element::parse` and
/// `appstream::Collection::try_from`: parsing of the decompressed XML into
/// a component collection, converted entry for entry into the library's
/// model, deterministically in the input bytes.
#[verifier::external_body]
fn parse_collection(xml: &[u8]) -> (r: Option<MetaCollection>)
    ensures
        match r {
            Some(c) => parse_of(xml@) == Some(coll_view(c)),
            None => parse_of(xml@) is None,
        },
{
    let element = appstream::xmltree::Element::parse(xml).ok()?;
    let col = appstream::Collection::try_from(&element).ok()?;
    Some(
        MetaCollection {
            origin: col.origin,
            components: col.components.into_iter().map(
                |c| Component {
                    name: Translatable { entries: c.name.0.into_iter().collect() },
                    summary: c.summary.map(
                        |s| Translatable { entries: s.0.into_iter().collect() },
                    ),
                },
            ).collect(),
        },
    )
}

/// Decompress and parse one package's raw metadata blob. A gzip failure or
/// a structural-parse failure is a `Decode` error; a successful result is
/// the parsed collection, unmodified.
pub fn decode_appdata(data: &[u8]) -> (r: Result<MetaCollection, FetchError>)
    ensures
        match gunzip_of(data@) {
            None => r == Err::<MetaCollection, FetchError>(FetchError::Decode),
            Some(xml) => match parse_of(xml) {
                None => r == Err::<MetaCollection, FetchError>(FetchError::Decode),
                Some(v) => r matches Ok(c) && coll_view(c) == v,
            },
        },
{
    match gunzip(data) {
        Some(xml) => match parse_collection(xml.as_slice()) {
            Some(c) => Ok(c),
            None => Err(FetchError::Decode),
        },
        None => Err(FetchError::Decode),
    }
}

} // verus!

use std::io::Write;

use cosmic_store::appdata::{decode_appdata, FetchError};
use cosmic_store::catalog::{resolve, Store};
use cosmic_store::search::search;

fn gzip(data: &[u8]) -> Vec<u8> {
    let mut enc = flate2::write::GzEncoder::new(Vec::new(), flate2::Compression::default());
    enc.write_all(data).unwrap();
    enc.finish().unwrap()
}

fn collection_xml() -> String {
    let mut xml = String::new();
    xml.push_str("<components version=\"0.14\" origin=\"flathub\">");
    xml.push_str("<component type=\"desktop-application\">");
    xml.push_str("<id>org.gimp.GIMP</id>");
    xml.push_str("<name>GIMP</name>");
    xml.push_str("<summary>Image editor</summary>");
    xml.push_str("</component>");
    xml.push_str("<component type=\"desktop-application\">");
    xml.push_str("<id>org.example.ImageViewer</id>");
    xml.push_str("<name>Image Viewer</name>");
    xml.push_str("<summary>View images</summary>");
    xml.push_str("</component>");
    xml.push_str("</components>");
    xml
}

#[test]
fn garbage_bytes_are_a_decode_error() {
    assert!(matches!(decode_appdata(b"not a gzip stream"), Err(FetchError::Decode)));
}

#[test]
fn gzipped_non_collection_xml_is_a_decode_error() {
    let blob = gzip(b"<something else=\"entirely\"/>");
    assert!(matches!(decode_appdata(&blob), Err(FetchError::Decode)));
}

#[test]
fn truncated_gzip_stream_is_a_decode_error() {
    let mut blob = gzip(collection_xml().as_bytes());
    blob.truncate(blob.len() / 2);
    assert!(matches!(decode_appdata(&blob), Err(FetchError::Decode)));
}

#[test]
fn valid_blob_decodes_to_the_collection() {
    let blob = gzip(collection_xml().as_bytes());
    let coll = decode_appdata(&blob).unwrap();
    assert_eq!(coll.origin.as_deref(), Some("flathub"));
    assert_eq!(coll.components.len(), 2);
    assert_eq!(resolve(&coll.components[0].name, "en-US"), "GIMP");
    assert_eq!(
        resolve(coll.components[0].summary.as_ref().unwrap(), "en-US"),
        "Image editor",
    );
    assert_eq!(resolve(&coll.components[1].name, "en-US"), "Image Viewer");
}

#[test]
fn decoded_collection_feeds_the_search_engine() {
    let blob = gzip(collection_xml().as_bytes());
    let coll = decode_appdata(&blob).unwrap();
    let store = Store { entries: vec![("flathub".to_string(), coll)] };
    let r = search(&store, "en-US", "image");
    assert_eq!(r.len(), 2);
    assert_eq!(r[0].name, "Image Viewer");
    assert_eq!(r[0].weight, 9);
    assert_eq!(r[1].name, "GIMP");
    assert_eq!(r[1].weight, 6);
}

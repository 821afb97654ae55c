use og_backend::errors::{ParseFault, RegistryError};
use og_backend::validate::{parse_collection, parse_graphics};

#[test]
fn full_collection_metadata_parses() {
    let blob = r#"{"collection":{"title":"T","description":"D","artist":"R","external_link":"L"},
        "graphics":[]}"#;
    let p = parse_collection(blob).unwrap();
    assert_eq!(p.title, "T");
    assert_eq!(p.description.as_deref(), Some("D"));
    assert_eq!(p.artist.as_deref(), Some("R"));
    assert_eq!(p.external_link.as_deref(), Some("L"));
}

#[test]
fn collection_optional_fields_default_to_absent() {
    let p = parse_collection(r#"{"collection":{"title":"T"}}"#).unwrap();
    assert_eq!(p.title, "T");
    assert_eq!(p.description, None);
    assert_eq!(p.artist, None);
    assert_eq!(p.external_link, None);
}

#[test]
fn malformed_text_is_invalid_document() {
    assert_eq!(parse_collection("{").unwrap_err(), ParseFault::InvalidDocument);
    assert_eq!(parse_graphics("").unwrap_err(), ParseFault::InvalidDocument);
}

#[test]
fn missing_collection_object_is_named() {
    assert_eq!(parse_collection(r#"{"graphics":[]}"#).unwrap_err(), ParseFault::MissingCollection);
}

#[test]
fn missing_collection_title_is_named() {
    assert_eq!(parse_collection(r#"{"collection":{}}"#).unwrap_err(),
        ParseFault::MissingCollectionTitle);
}

#[test]
fn wrongly_typed_title_counts_as_missing() {
    assert_eq!(
        parse_collection(r#"{"collection":{"title":7}}"#).unwrap_err(),
        ParseFault::MissingCollectionTitle
    );
}

#[test]
fn wrongly_typed_optional_field_is_treated_as_absent() {
    let p = parse_collection(r#"{"collection":{"title":"T","description":5}}"#).unwrap();
    assert_eq!(p.description, None);
}

#[test]
fn missing_graphics_entry_is_named() {
    assert_eq!(parse_graphics(r#"{"collection":{"title":"T"}}"#).unwrap_err(),
        ParseFault::MissingGraphics);
}

#[test]
fn non_array_graphics_entry_is_named() {
    assert_eq!(parse_graphics(r#"{"graphics":7}"#).unwrap_err(), ParseFault::GraphicsNotArray);
}

#[test]
fn graphic_without_asset_is_named() {
    assert_eq!(
        parse_graphics(r#"{"graphics":[{"title":"A"}]}"#).unwrap_err(),
        ParseFault::MissingGraphicAsset
    );
}

#[test]
fn graphic_without_title_is_named() {
    assert_eq!(
        parse_graphics(r#"{"graphics":[{"asset":"/a.png"}]}"#).unwrap_err(),
        ParseFault::MissingGraphicTitle
    );
}

#[test]
fn first_faulty_graphic_decides_the_error() {
    let blob = r#"{"graphics":[{"asset":"/a.png","title":"A"},{"title":"B"},{"asset":"/c.png"}]}"#;
    assert_eq!(parse_graphics(blob).unwrap_err(), ParseFault::MissingGraphicAsset);
}

#[test]
fn graphics_parse_in_order() {
    let blob = r#"{"graphics":[
        {"asset":"/a.png","title":"A","description":"da"},
        {"asset":"/b.png","title":"B"}]}"#;
    let ps = parse_graphics(blob).unwrap();
    assert_eq!(ps.len(), 2);
    assert_eq!(ps[0].asset, "/a.png");
    assert_eq!(ps[0].title, "A");
    assert_eq!(ps[0].description.as_deref(), Some("da"));
    assert_eq!(ps[1].asset, "/b.png");
    assert_eq!(ps[1].title, "B");
    assert_eq!(ps[1].description, None);
}

#[test]
fn empty_graphics_list_is_allowed() {
    let ps = parse_graphics(r#"{"graphics":[]}"#).unwrap();
    assert!(ps.is_empty());
}

#[test]
fn error_messages_name_the_fault() {
    assert_eq!(ParseFault::MissingCollection.message(), "missing 'collection' field");
    assert_eq!(
        RegistryError::Parse(ParseFault::MissingGraphicAsset).message(),
        "missing required 'asset' field in graphic"
    );
    assert_eq!(RegistryError::NotFound.message(), "collection not registered");
    assert_eq!(RegistryError::NoChange.message(), "no differences detected");
}

use bl3_save_edit_core::error::ResourceError;
use bl3_save_edit_core::resources::{
    load_compressed_data, ResourceCategorizedParts, ResourceItem, ResourcePart, ResourcePartInfo,
};
use std::io::Write;

fn compressed(data: &[u8]) -> Vec<u8> {
    let mut enc = snap::write::FrameEncoder::new(Vec::new());
    enc.write_all(data).unwrap();
    enc.into_inner().unwrap()
}

#[test]
fn compressed_data_is_unpacked() {
    let text = b"(manufacturer: \"Jakobs\", rarity: \"Rare\")".repeat(50);
    let packed = compressed(&text);
    assert_ne!(packed, text);
    assert_eq!(load_compressed_data(&packed), Ok(text));
}

#[test]
fn empty_stream_unpacks_to_nothing() {
    assert_eq!(load_compressed_data(&compressed(b"")), Ok(vec![]));
    assert_eq!(load_compressed_data(&[]), Ok(vec![]));
}

#[test]
fn damaged_stream_is_refused() {
    assert_eq!(load_compressed_data(b"not a stream"), Err(ResourceError::BadCompression));
    let mut packed = compressed(b"some part data, some part data, some part data");
    let last = packed.len() - 1;
    packed[last] ^= 0xff;
    assert_eq!(load_compressed_data(&packed), Err(ResourceError::BadCompression));
}

#[test]
fn description_of_nothing_is_empty() {
    let info = ResourcePartInfo::default();
    assert_eq!(info.positives, None);
    assert_eq!(info.negatives, None);
    assert_eq!(info.effects, None);
    let part = ResourcePart::default();
    assert_eq!(part.info, info);
    assert_eq!(part.name, "");
    let item = ResourceItem::default();
    assert!(item.inventory_categorized_parts.is_empty());
    let cat = ResourceCategorizedParts::default();
    assert!(cat.parts.is_empty());
}

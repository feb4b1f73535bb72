//! The static part datasets: what is known of every part beyond its name.
//!
//! The datasets are shipped compressed. They are unpacked here; reading
//! the unpacked text into these types is left to the caller.

use crate::error::ResourceError;
use vstd::prelude::*;

verus! {

/// What is known of one balance: its manufacturer, its rarity and the
/// parts that it can carry, by category.
#[derive(Debug, Default, Clone)]
pub struct ResourceItem {
    pub manufacturer: String,
    pub rarity: String,
    pub inventory_categorized_parts: Vec<ResourceCategorizedParts>,
}

/// The parts of one category.
#[derive(Debug, Default, Clone)]
pub struct ResourceCategorizedParts {
    pub category: String,
    pub parts: Vec<ResourcePart>,
}

/// One part of the curated part tables.
#[derive(Debug, Default, Clone, Ord, PartialOrd, Eq, PartialEq, Hash)]
pub struct ResourcePart {
    pub name: String,
    pub min_parts: u8,
    pub max_parts: u8,
    pub dependencies: Option<Vec<String>>,
    pub excluders: Option<Vec<String>>,
    pub info: ResourcePartInfo,
}

/// The descriptive text of a part.
#[derive(Debug, Clone, Ord, PartialOrd, Eq, PartialEq, Hash)]
pub struct ResourcePartInfo {
    pub positives: Option<String>,
    pub negatives: Option<String>,
    pub effects: Option<String>,
}

impl Default for ResourcePartInfo {
    /// The description of a part of which nothing is known.
    fn default() -> (r: Self)
        ensures
            r.positives is None,
            r.negatives is None,
            r.effects is None,
    {
        ResourcePartInfo { positives: None, negatives: None, effects: None }
    }
}

impl ResourcePartInfo {
    /// A copy of the description.
    pub fn duplicate(&self) -> (r: Self)
        ensures
            r == *self,
    {
        ResourcePartInfo {
            positives: copy_text(&self.positives),
            negatives: copy_text(&self.negatives),
            effects: copy_text(&self.effects),
        }
    }
}

/// A copy of an optional text.
pub fn copy_text(text: &Option<String>) -> (r: Option<String>)
    ensures
        r == *text,
{
    match text {
        Some(s) => Some(s.clone()),
        None => None,
    }
}

/// What a stream of Snappy frames unpacks to; nothing where the bytes are
/// no such stream or a frame fails its check.
pub uninterp spec fn frame_decoded(input: Seq<u8>) -> Option<Seq<u8>>;

/// Unpacks a stream of Snappy frames with `snap::read::FrameDecoder`,
/// read to its end. The result is the one that the frame format gives to
/// these bytes; an error of the decoder gives nothing.
#[verifier::external_body]
fn decode_frames(input: &[u8]) -> (r: Option<Vec<u8>>)
    ensures
        match r {
            Some(out) => frame_decoded(input@) == Some(out@),
            None => frame_decoded(input@) is None,
        },
{
    let mut out = Vec::new();
    match std::io::Read::read_to_end(&mut snap::read::FrameDecoder::new(input), &mut out) {
        Ok(_) => Some(out),
        Err(_) => None,
    }
}

/// Unpacks a compressed dataset.
pub fn load_compressed_data(input: &[u8]) -> (r: Result<Vec<u8>, ResourceError>)
    ensures
        match r {
            Ok(out) => frame_decoded(input@) == Some(out@),
            Err(e) => e == ResourceError::BadCompression && frame_decoded(input@) is None,
        },
{
    match decode_frames(input) {
        Some(out) => Ok(out),
        None => Err(ResourceError::BadCompression),
    }
}

} // verus!

//! Asset records and the description from which one is made.

use crate::principal::Principal;
use vstd::prelude::*;

verus! {

/// The texts that a list of strings holds, in order.
pub open spec fn texts_view(texts: Seq<String>) -> Seq<Seq<char>> {
    texts.map_values(|text: String| text@)
}

/// The text that an optional string holds, if any.
pub open spec fn optional_text_view(text: Option<String>) -> Option<Seq<char>> {
    match text {
        Some(text) => Some(text@),
        None => None,
    }
}

/// The persisted description of a digital asset.
#[derive(Clone, Debug, PartialEq, Eq)]
pub struct Asset {
    pub id: u64,
    pub name: String,
    pub description: String,
    pub owner: Principal,
    pub file_hash: String,
    pub file_url: String,
    pub file_type: String,
    pub file_size: u64,
    pub price: u64,
    pub is_for_sale: bool,
    pub created_at: u64,
    pub updated_at: u64,
    pub category: String,
    pub tags: Vec<String>,
    pub preview_image_url: Option<String>,
}

/// What an asset record holds, as mathematical values.
pub struct AssetView {
    pub id: u64,
    pub name: Seq<char>,
    pub description: Seq<char>,
    pub owner: Seq<u8>,
    pub file_hash: Seq<char>,
    pub file_url: Seq<char>,
    pub file_type: Seq<char>,
    pub file_size: u64,
    pub price: u64,
    pub is_for_sale: bool,
    pub created_at: u64,
    pub updated_at: u64,
    pub category: Seq<char>,
    pub tags: Seq<Seq<char>>,
    pub preview_image_url: Option<Seq<char>>,
}

impl View for Asset {
    type V = AssetView;

    open spec fn view(&self) -> AssetView {
        AssetView {
            id: self.id,
            name: self.name@,
            description: self.description@,
            owner: self.owner@,
            file_hash: self.file_hash@,
            file_url: self.file_url@,
            file_type: self.file_type@,
            file_size: self.file_size,
            price: self.price,
            is_for_sale: self.is_for_sale,
            created_at: self.created_at,
            updated_at: self.updated_at,
            category: self.category@,
            tags: texts_view(self.tags@),
            preview_image_url: optional_text_view(self.preview_image_url),
        }
    }
}

/// What a caller supplies to have an asset recorded.
#[derive(Clone, Debug, PartialEq, Eq)]
pub struct AssetInput {
    pub name: String,
    pub description: String,
    pub file_hash: String,
    pub file_url: String,
    pub file_type: String,
    pub file_size: u64,
    pub price: u64,
    pub category: String,
    pub tags: Vec<String>,
    pub preview_image_url: Option<String>,
}

/// What an asset description holds, as mathematical values.
pub struct AssetInputView {
    pub name: Seq<char>,
    pub description: Seq<char>,
    pub file_hash: Seq<char>,
    pub file_url: Seq<char>,
    pub file_type: Seq<char>,
    pub file_size: u64,
    pub price: u64,
    pub category: Seq<char>,
    pub tags: Seq<Seq<char>>,
    pub preview_image_url: Option<Seq<char>>,
}

impl View for AssetInput {
    type V = AssetInputView;

    open spec fn view(&self) -> AssetInputView {
        AssetInputView {
            name: self.name@,
            description: self.description@,
            file_hash: self.file_hash@,
            file_url: self.file_url@,
            file_type: self.file_type@,
            file_size: self.file_size,
            price: self.price,
            category: self.category@,
            tags: texts_view(self.tags@),
            preview_image_url: optional_text_view(self.preview_image_url),
        }
    }
}

/// The record that an upload makes of `input`: it carries the given
/// identifier, belongs to `owner`, is not for sale, and was created and last
/// updated at `now`.
pub open spec fn new_record(id: u64, input: AssetInputView, owner: Seq<u8>, now: u64) -> AssetView {
    AssetView {
        id,
        name: input.name,
        description: input.description,
        owner,
        file_hash: input.file_hash,
        file_url: input.file_url,
        file_type: input.file_type,
        file_size: input.file_size,
        price: input.price,
        is_for_sale: false,
        created_at: now,
        updated_at: now,
        category: input.category,
        tags: input.tags,
        preview_image_url: input.preview_image_url,
    }
}

} // verus!

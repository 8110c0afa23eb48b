//! The answers of the Steam web API, as this library reads them.

use vstd::prelude::*;

verus! {

/// Answer to a request for collection details.
pub struct GetCollectionInfo {
    pub response: GetCollectionInfoResponse,
}

pub struct GetCollectionInfoResponse {
    pub result: i64,
    pub resultcount: i64,
    pub collectiondetails: Vec<Collectiondetail>,
}

/// One collection: its identifier, how the request for it ended, and the
/// items it lists.
pub struct Collectiondetail {
    pub publishedfileid: String,
    pub result: i64,
    pub children: Option<Vec<CollectiondetailChild>>,
}

pub struct CollectiondetailChild {
    pub publishedfileid: String,
    pub sortorder: i64,
    pub filetype: i64,
}

/// Answer to a request for the details of published files.
#[derive(Default, Debug, Clone, PartialEq)]
pub struct GetPublishedFileDetails {
    pub response: GetPublishedFileDetailsResponse,
}

#[derive(Default, Debug, Clone, PartialEq)]
pub struct GetPublishedFileDetailsResponse {
    pub result: i64,
    pub resultcount: i64,
    pub publishedfiledetails: Vec<Publishedfiledetail>,
}

/// One workshop item. Of its fields the library reads the identifier, the
/// result code, the description and the time of the last update.
#[derive(Default, Debug, Clone, PartialEq)]
pub struct Publishedfiledetail {
    pub publishedfileid: String,
    pub result: u64,
    pub creator: String,
    pub creator_app_id: u64,
    pub consumer_app_id: u64,
    pub filename: String,
    pub file_size: u64,
    pub file_url: String,
    pub hcontent_file: String,
    pub preview_url: String,
    pub hcontent_preview: String,
    pub title: String,
    pub description: String,
    pub time_created: u64,
    pub time_updated: u64,
    pub visibility: u64,
    pub banned: u64,
    pub ban_reason: String,
    pub subscriptions: u64,
    pub favorited: u64,
    pub lifetime_subscriptions: u64,
    pub lifetime_favorited: u64,
    pub views: u64,
    pub tags: Vec<Tag>,
}

#[derive(Default, Debug, Clone, PartialEq)]
pub struct Tag {
    pub tag: String,
}

} // verus!

//! The two requests to the Steam web API: where they go, what their forms
//! hold, and what a resolved workshop item is.
//!
//! Nothing here talks to the network. A caller sends the form that this
//! module builds and hands the answer to the modules that read it.

use crate::text::{decimal, id_to_string};
use vstd::prelude::*;

verus! {

/// Where the Steam web API lives.
pub const STEAM_API_URL: &'static str = "https://api.steampowered.com";

/// The path of the request for collection details.
pub const COLLECTION_DETAILS_PATH: &'static str = "/ISteamRemoteStorage/GetCollectionDetails/v1/";

/// The path of the request for published file details.
pub const PUBLISHED_FILE_DETAILS_PATH: &'static str =
    "/ISteamRemoteStorage/GetPublishedFileDetails/v1/";

/// How this program names itself to the server.
pub const USER_AGENT: &'static str = "zomboid-server-operator v0.0.1";

/// How long a connection attempt may take, in seconds.
pub const CONNECT_TIMEOUT_SECS: u64 = 10;

/// How many items one request for details asks about.
pub const BATCH_SIZE: usize = 10;

/// The form field that counts the collections of a request.
pub const COLLECTION_COUNT_FIELD: &'static str = "collectioncount";

/// The form field that counts the items of a request.
pub const ITEM_COUNT_FIELD: &'static str = "itemcount";

/// What was resolved of one workshop item.
#[derive(Default, Clone, Debug)]
pub struct ModData {
    pub mod_id: u64,
    pub mod_name: Vec<String>,
    pub map_name: Vec<String>,
    pub last_updated: u64,
}

/// A resolved item as a value: its identifier, the mod names and the map
/// folders that its description declares, and the time of its last update.
pub struct ResolvedItem {
    pub id: u64,
    pub names: Seq<Seq<char>>,
    pub map_folders: Seq<Seq<char>>,
    pub last_updated: u64,
}

impl ResolvedItem {
    /// A resolved item has a name, and declares no name and no map folder twice.
    pub open spec fn well_formed(self) -> bool {
        &&& self.names.len() > 0
        &&& self.names.no_duplicates()
        &&& self.map_folders.no_duplicates()
    }
}

impl DeepView for ModData {
    type V = ResolvedItem;

    open spec fn deep_view(&self) -> ResolvedItem {
        ResolvedItem {
            id: self.mod_id,
            names: self.mod_name.deep_view(),
            map_folders: self.map_name.deep_view(),
            last_updated: self.last_updated,
        }
    }
}

/// The address of `path` on the server at `base`.
pub fn endpoint(base: &str, path: &str) -> (url: String)
    ensures
        url@ == base@ + path@,
{
    let mut url = base.to_owned();
    url.append(path);
    url
}

/// The name of the form field that carries the identifier at `position`.
pub open spec fn file_id_field(position: nat) -> Seq<char> {
    "publishedfileids["@ + decimal(position) + "]"@
}

/// The form of a request about `ids`: how many there are, under
/// `count_field`, then each identifier under the field of its position.
pub open spec fn request_form(count_field: Seq<char>, ids: Seq<u64>) -> Seq<
    (Seq<char>, Seq<char>),
> {
    seq![(count_field, decimal(ids.len()))] + Seq::new(
        ids.len(),
        |i: int| (file_id_field(i as nat), decimal(ids[i] as nat)),
    )
}

/// Builds the form of a request about `ids`.
pub fn build_request_form(count_field: &str, ids: &Vec<u64>) -> (form: Vec<(String, String)>)
    ensures
        form.deep_view() == request_form(count_field@, ids@),
{
    let mut form: Vec<(String, String)> = Vec::new();
    form.push((count_field.to_owned(), id_to_string(ids.len() as u64)));
    let mut i: usize = 0;
    while i < ids.len()
        invariant
            i <= ids.len(),
            form.len() == i + 1,
            form.deep_view() == request_form(count_field@, ids@).take(i + 1),
        decreases ids.len() - i,
    {
        let mut field = "publishedfileids[".to_owned();
        field.append(id_to_string(i as u64).as_str());
        field.append("]");
        let ghost before = form.deep_view();
        form.push((field, id_to_string(ids[i])));
        assert(form.deep_view() =~= before.push(
            (file_id_field(i as nat), decimal(ids[i as int] as nat)),
        ));
        assert(request_form(count_field@, ids@).take(i + 2) =~= request_form(
            count_field@,
            ids@,
        ).take(i + 1).push((file_id_field(i as nat), decimal(ids[i as int] as nat))));
        i = i + 1;
    }
    assert(request_form(count_field@, ids@).take(ids.len() + 1) =~= request_form(
        count_field@,
        ids@,
    ));
    form
}

/// The form that asks for the details of `collections`, all in one request.
pub fn collection_details_form(collections: &Vec<u64>) -> (form: Vec<(String, String)>)
    ensures
        form.deep_view() == request_form(COLLECTION_COUNT_FIELD@, collections@),
{
    build_request_form(COLLECTION_COUNT_FIELD, collections)
}

/// The form that asks for the details of one batch of items.
pub fn published_file_details_form(batch: &Vec<u64>) -> (form: Vec<(String, String)>)
    ensures
        form.deep_view() == request_form(ITEM_COUNT_FIELD@, batch@),
{
    build_request_form(ITEM_COUNT_FIELD, batch)
}

} // verus!

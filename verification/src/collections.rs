//! The items that collections list.
//!
//! One request asks about all collections. Each collection of the answer
//! carries a result code: a collection that the service answered for adds
//! the items it lists, in its order; any other adds nothing and leaves the
//! rest alone. Items that several collections list are listed as often.
//!
//! An identifier is a decimal number. An answer in which an answered
//! collection lists an identifier that is none is not what the service
//! promises: it counts as an answer that could not be decoded.

use crate::steam_api_client_schemes::{Collectiondetail, CollectiondetailChild, GetCollectionInfo};
use crate::text::{parse_id, read_id};
use vstd::prelude::*;

verus! {

/// The result code of a collection that the service answered for.
pub const RESULT_OK: i64 = 1;

/// The result code of a collection that is private or gone.
pub const RESULT_UNAVAILABLE: i64 = 9;

/// How a collection fared.
#[derive(Clone, Copy, Debug, PartialEq, Eq, Structural)]
pub enum CollectionStatus {
    /// The service answered and the collection has a list of items.
    Listed,
    /// The service answered and the collection has no list of items.
    Empty,
    /// The collection is private or gone.
    Unavailable,
    /// The service answered with a result code that is not known here.
    Failed,
}

/// How a collection fared, by its result code.
pub open spec fn status_of(collection: Collectiondetail) -> CollectionStatus {
    if collection.result == RESULT_OK {
        if collection.children is Some {
            CollectionStatus::Listed
        } else {
            CollectionStatus::Empty
        }
    } else if collection.result == RESULT_UNAVAILABLE {
        CollectionStatus::Unavailable
    } else {
        CollectionStatus::Failed
    }
}

/// The test "the identifier of this child can be read".
pub open spec fn child_is_readable() -> spec_fn(CollectiondetailChild) -> bool {
    |child: CollectiondetailChild| parse_id(child.publishedfileid@) is Some
}

/// The identifier of a child.
pub open spec fn child_id() -> spec_fn(CollectiondetailChild) -> u64 {
    |child: CollectiondetailChild| parse_id(child.publishedfileid@).unwrap()
}

/// The items that one collection contributes: those it lists, in the order
/// in which it lists them, if the service answered for it; none otherwise.
pub open spec fn collection_items(collection: Collectiondetail) -> Seq<u64> {
    match status_of(collection) {
        CollectionStatus::Listed => collection.children.unwrap()@.map_values(child_id()),
        _ => Seq::empty(),
    }
}

/// The contribution of a collection, as a function.
pub open spec fn contribution() -> spec_fn(Collectiondetail) -> Seq<u64> {
    |collection: Collectiondetail| collection_items(collection)
}

/// The items of all `collections`, one collection after the other. An item
/// that two collections list is there twice.
pub open spec fn collections_items(collections: Seq<Collectiondetail>) -> Seq<u64> {
    collections.map_values(contribution()).flatten()
}

/// Whether every identifier that `collection` contributes can be read.
pub open spec fn collection_is_readable(collection: Collectiondetail) -> bool {
    status_of(collection) == CollectionStatus::Listed ==> forall|i: int|
        0 <= i < collection.children.unwrap()@.len() ==> child_is_readable()(
            #[trigger] collection.children.unwrap()@[i],
        )
}

/// Whether every identifier that `collections` contribute can be read.
pub open spec fn collections_are_readable(collections: Seq<Collectiondetail>) -> bool {
    forall|i: int| 0 <= i < collections.len() ==> collection_is_readable(#[trigger] collections[i])
}

/// How `collection` fared.
pub fn collection_status(collection: &Collectiondetail) -> (status: CollectionStatus)
    ensures
        status == status_of(*collection),
{
    if collection.result == RESULT_OK {
        if collection.children.is_some() {
            CollectionStatus::Listed
        } else {
            CollectionStatus::Empty
        }
    } else if collection.result == RESULT_UNAVAILABLE {
        CollectionStatus::Unavailable
    } else {
        CollectionStatus::Failed
    }
}

/// What an answer about collections lists: the items of its collections,
/// or nothing at all where an identifier that counts cannot be read. Such
/// an answer is not what the service promises, and is taken as a failure
/// to decode it.
pub open spec fn listed_items(collections: Seq<Collectiondetail>) -> Option<Seq<u64>> {
    if collections_are_readable(collections) {
        Some(collections_items(collections))
    } else {
        None
    }
}

/// The items that a request for collections resolved: those that its
/// answer lists, or none where the request or the decoding of its answer
/// failed.
pub open spec fn items_to_resolve(outcome: Option<Seq<Collectiondetail>>) -> Seq<u64> {
    match outcome {
        Some(collections) => match listed_items(collections) {
            Some(items) => items,
            None => Seq::empty(),
        },
        None => Seq::empty(),
    }
}

/// The items that the answered collections list, collection by collection;
/// `None` where an identifier that counts cannot be read.
///
/// A collection that the service did not answer for, or that lists nothing,
/// adds nothing and leaves the others as they are.
pub fn mods_in_collections(answer: &GetCollectionInfo) -> (items: Option<Vec<u64>>)
    ensures
        items is Some <==> collections_are_readable(answer.response.collectiondetails@),
        items matches Some(ids) ==> ids@ == collections_items(answer.response.collectiondetails@),
{
    let collections = &answer.response.collectiondetails;
    let mut items: Vec<u64> = Vec::new();
    let mut i: usize = 0;
    assert(collections@.take(0).map_values(contribution()) =~= Seq::<Seq<u64>>::empty());
    while i < collections.len()
        invariant
            i <= collections.len(),
            *collections == answer.response.collectiondetails,
            forall|j: int| 0 <= j < i ==> collection_is_readable(#[trigger] collections@[j]),
            items@ == collections_items(collections@.take(i as int)),
        decreases collections.len() - i,
    {
        let collection = &collections[i];
        let ghost before = items@;
        proof {
            let done = collections@.take(i as int).map_values(contribution());
            assert(collections@.take(i + 1).map_values(contribution()) =~= done.push(
                collection_items(*collection),
            ));
            done.lemma_flatten_push(collection_items(*collection));
        }
        if collection.result == RESULT_OK {
            if let Some(children) = &collection.children {
                let mut k: usize = 0;
                while k < children.len()
                    invariant
                        k <= children.len(),
                        i < collections.len(),
                        *collections == answer.response.collectiondetails,
                        status_of(collections@[i as int]) == CollectionStatus::Listed,
                        collections@[i as int].children == Some(*children),
                        forall|j: int|
                            0 <= j < k ==> child_is_readable()(#[trigger] children@[j]),
                        items@ == before + children@.take(k as int).map_values(child_id()),
                    decreases children.len() - k,
                {
                    match read_id(children[k].publishedfileid.as_str()) {
                        Some(id) => {
                            items.push(id);
                        },
                        None => {
                            assert(!child_is_readable()(
                                collections@[i as int].children.unwrap()@[k as int],
                            ));
                            return None;
                        },
                    }
                    assert(children@.take(k + 1).map_values(child_id()) =~= children@.take(
                        k as int,
                    ).map_values(child_id()).push(child_id()(children@[k as int])));
                    k = k + 1;
                }
                assert(children@.take(children.len() as int) =~= children@);
            }
        }
        assert(items@ =~= before + collection_items(*collection));
        i = i + 1;
    }
    assert(collections@.take(collections.len() as int) =~= collections@);
    Some(items)
}

/// Whether every identifier that the answer contributes can be read.
pub fn collections_readable(answer: &GetCollectionInfo) -> (readable: bool)
    ensures
        readable == collections_are_readable(answer.response.collectiondetails@),
{
    mods_in_collections(answer).is_some()
}

/// The items to resolve, given what came back for the collections: those
/// that the answer lists, or none where the request failed or its answer
/// could not be decoded.
pub fn list_of_mods_in_collections(outcome: Option<&GetCollectionInfo>) -> (items: Vec<u64>)
    ensures
        items@ == items_to_resolve(
            match outcome {
                Some(answer) => Some(answer.response.collectiondetails@),
                None => None,
            },
        ),
{
    match outcome {
        Some(answer) => match mods_in_collections(answer) {
            Some(items) => items,
            None => Vec::new(),
        },
        None => Vec::new(),
    }
}

/// The items of two runs of collections are those of the first run, then
/// those of the second.
pub proof fn lemma_collections_items_concat(
    first: Seq<Collectiondetail>,
    second: Seq<Collectiondetail>,
)
    ensures
        collections_items(first + second) == collections_items(first) + collections_items(second),
{
    assert((first + second).map_values(contribution()) =~= first.map_values(contribution())
        + second.map_values(contribution()));
    vstd::seq_lib::lemma_flatten_concat(
        first.map_values(contribution()),
        second.map_values(contribution()),
    );
}

/// A collection that the service did not answer for with success contributes
/// no item, and the items of the other collections are what they would be
/// without it.
pub proof fn lemma_failed_collection_adds_nothing(collections: Seq<Collectiondetail>, i: int)
    requires
        0 <= i < collections.len(),
        collections[i].result != RESULT_OK,
    ensures
        collection_items(collections[i]) == Seq::<u64>::empty(),
        collections_items(collections) == collections_items(collections.remove(i)),
        listed_items(collections) == listed_items(collections.remove(i)),
{
    let without = collections.remove(i);
    assert(collection_is_readable(collections[i]));
    if collections_are_readable(collections) {
        assert forall|j: int| 0 <= j < without.len() implies collection_is_readable(
            #[trigger] without[j],
        ) by {
            if j < i {
                assert(without[j] == collections[j]);
            } else {
                assert(without[j] == collections[j + 1]);
            }
        }
    }
    if collections_are_readable(without) {
        assert forall|j: int| 0 <= j < collections.len() implies collection_is_readable(
            #[trigger] collections[j],
        ) by {
            if j < i {
                assert(collections[j] == without[j]);
            } else if j > i {
                assert(collections[j] == without[j - 1]);
            }
        }
    }
    let before = collections.take(i);
    let failed = seq![collections[i]];
    let after = collections.skip(i + 1);
    assert(collections =~= before + failed + after);
    assert(collections.remove(i) =~= before + after);
    lemma_collections_items_concat(before + failed, after);
    lemma_collections_items_concat(before, failed);
    lemma_collections_items_concat(before, after);
    assert(collections_items(failed) == Seq::<u64>::empty()) by {
        assert(failed.map_values(contribution()) =~= seq![Seq::<u64>::empty()]);
        failed.map_values(contribution()).lemma_flatten_singleton();
    }
    assert(collections_items(before) + Seq::<u64>::empty() + collections_items(after)
        =~= collections_items(before) + collections_items(after));
}

} // verus!

//! What an answer about items resolves to.
//!
//! An entry gives an item if the service answered for it with success and
//! its description declares at least one mod name. Any other entry is
//! skipped, and the entries around it are resolved as if it were not there.
//!
//! An identifier is a decimal number. An answer in which the service
//! answered for an entry whose identifier is none is not what the service
//! promises: it counts as an answer that could not be decoded.

use crate::description::{
    declared_map_folders,
    declared_mod_names,
    lemma_declared_values,
    DescriptionParser,
    MAP_FOLDER_GROUP,
    MAP_FOLDER_PATTERN,
    MOD_NAME_GROUP,
    MOD_NAME_PATTERN,
};
use crate::pattern::group_captures;
use crate::steam_api_client::{ModData, ResolvedItem};
use crate::steam_api_client_schemes::{GetPublishedFileDetails, Publishedfiledetail};
use crate::text::{parse_id, read_id};
use vstd::prelude::*;

verus! {

/// The result code of an entry that the service answered for.
pub const RESULT_OK: u64 = 1;

/// Why an entry of an answer gives no item.
#[derive(Clone, Copy, Debug, PartialEq, Eq, Structural)]
pub enum ItemFailure {
    /// The service did not answer for the item with success.
    RemoteResult,
    /// The identifier of the entry is no number. The answer that holds such
    /// an entry is not what the service promises.
    MalformedId,
    /// The description of the item declares no mod name.
    NoModName,
}

/// Whether the identifier of `detail` can be read, where it is needed: in
/// an entry that the service answered with success.
pub open spec fn detail_is_readable(detail: Publishedfiledetail) -> bool {
    detail.result == RESULT_OK ==> parse_id(detail.publishedfileid@) is Some
}

/// Whether the identifiers of all `details` can be read where needed.
pub open spec fn details_are_readable(details: Seq<Publishedfiledetail>) -> bool {
    forall|i: int| 0 <= i < details.len() ==> detail_is_readable(#[trigger] details[i])
}

/// What becomes of an entry whose description declares `names` and
/// `map_folders`. There is no item if the service did not answer for the
/// entry with success, if its identifier cannot be read, or if there is no
/// name, in this order; else the entry is resolved, under its identifier
/// and with the time of its last update.
pub open spec fn item_outcome(
    detail: Publishedfiledetail,
    names: Seq<Seq<char>>,
    map_folders: Seq<Seq<char>>,
) -> Result<ResolvedItem, ItemFailure> {
    if detail.result != RESULT_OK {
        Err(ItemFailure::RemoteResult)
    } else if parse_id(detail.publishedfileid@) is None {
        Err(ItemFailure::MalformedId)
    } else if names.len() == 0 {
        Err(ItemFailure::NoModName)
    } else {
        Ok(
            ResolvedItem {
                id: parse_id(detail.publishedfileid@).unwrap(),
                names,
                map_folders,
                last_updated: detail.time_updated,
            },
        )
    }
}

/// What becomes of an entry of an answer.
pub open spec fn resolution(detail: Publishedfiledetail) -> Result<ResolvedItem, ItemFailure> {
    item_outcome(
        detail,
        declared_mod_names(detail.description@),
        declared_map_folders(detail.description@),
    )
}

/// The resolved item of an entry, if it is resolved.
pub open spec fn resolved() -> spec_fn(Publishedfiledetail) -> Option<ResolvedItem> {
    |detail: Publishedfiledetail|
        match resolution(detail) {
            Ok(item) => Some(item),
            Err(_) => None,
        }
}

/// The items that an answer resolves: its entries that are resolved, in
/// the order of the answer.
pub open spec fn resolved_items(details: Seq<Publishedfiledetail>) -> Seq<ResolvedItem> {
    details.filter_map(resolved())
}

/// An entry of an answer that was skipped: where it stands in the answer,
/// and why it gave no item.
#[derive(Clone, Copy, Debug, PartialEq, Eq, Structural)]
pub struct SkippedEntry {
    pub position: usize,
    pub reason: ItemFailure,
}

/// The entries of an answer that give no item, in the order of the answer.
pub open spec fn skipped_entries(details: Seq<Publishedfiledetail>) -> Seq<SkippedEntry>
    decreases details.len(),
{
    if details.len() == 0 {
        Seq::empty()
    } else {
        let earlier = skipped_entries(details.drop_last());
        match resolution(details.last()) {
            Ok(_) => earlier,
            Err(reason) => earlier.push(
                SkippedEntry { position: (details.len() - 1) as usize, reason },
            ),
        }
    }
}

/// What an answer about items gives: the items that its entries resolve
/// to, or nothing at all where an identifier that counts cannot be read.
/// Such an answer is taken as a failure to decode it.
pub open spec fn answer_items(details: Seq<Publishedfiledetail>) -> Option<Seq<ResolvedItem>> {
    if details_are_readable(details) {
        Some(resolved_items(details))
    } else {
        None
    }
}

/// Whether `outcome` is `expected`, the item taken by its value.
pub open spec fn is_outcome(
    outcome: Result<ModData, ItemFailure>,
    expected: Result<ResolvedItem, ItemFailure>,
) -> bool {
    match outcome {
        Ok(item) => expected == Ok::<ResolvedItem, ItemFailure>(item.deep_view()),
        Err(failure) => expected == Err::<ResolvedItem, ItemFailure>(failure),
    }
}

/// Makes the resolved item of `detail` from the names and map folders that
/// its description declares, or says why there is none.
pub fn item_from_parts(
    detail: &Publishedfiledetail,
    names: Vec<String>,
    map_folders: Vec<String>,
) -> (outcome: Result<ModData, ItemFailure>)
    ensures
        is_outcome(outcome, item_outcome(*detail, names.deep_view(), map_folders.deep_view())),
{
    if detail.result != RESULT_OK {
        return Err(ItemFailure::RemoteResult);
    }
    let mod_id = match read_id(detail.publishedfileid.as_str()) {
        Some(id) => id,
        None => { return Err(ItemFailure::MalformedId); },
    };
    if names.len() == 0 {
        return Err(ItemFailure::NoModName);
    }
    Ok(
        ModData {
            mod_id,
            mod_name: names,
            map_name: map_folders,
            last_updated: detail.time_updated,
        },
    )
}

/// Resolves one entry of an answer: reads the mod names and the map folders
/// off its description, unless the service did not answer for it with
/// success.
pub fn resolve_item(parser: &DescriptionParser, detail: &Publishedfiledetail) -> (outcome: Result<
    ModData,
    ItemFailure,
>)
    ensures
        is_outcome(outcome, resolution(*detail)),
        outcome matches Ok(item) ==> item.deep_view().well_formed(),
{
    proof {
        lemma_resolved_item_is_well_formed(*detail);
    }
    if detail.result != RESULT_OK {
        return Err(ItemFailure::RemoteResult);
    }
    let names = parser.mod_names(detail.description.as_str());
    let map_folders = parser.map_folders(detail.description.as_str());
    item_from_parts(detail, names, map_folders)
}

/// Whether the identifiers of the answer can be read where needed.
pub fn details_readable(answer: &GetPublishedFileDetails) -> (readable: bool)
    ensures
        readable == details_are_readable(answer.response.publishedfiledetails@),
{
    let details = &answer.response.publishedfiledetails;
    let mut i: usize = 0;
    while i < details.len()
        invariant
            i <= details.len(),
            *details == answer.response.publishedfiledetails,
            forall|j: int| 0 <= j < i ==> detail_is_readable(#[trigger] details@[j]),
        decreases details.len() - i,
    {
        if details[i].result == RESULT_OK && read_id(
            details[i].publishedfileid.as_str(),
        ).is_none() {
            assert(!detail_is_readable(details@[i as int]));
            return false;
        }
        i = i + 1;
    }
    true
}

/// Resolves the entries of one answer, in its order, and reports those that
/// it skipped. An entry that is skipped leaves the others as they are. An
/// answer with an identifier that counts and cannot be read gives `None`.
pub fn resolve_details(parser: &DescriptionParser, answer: &GetPublishedFileDetails) -> (outcome:
    Option<(Vec<ModData>, Vec<SkippedEntry>)>)
    ensures
        outcome is Some <==> answer_items(answer.response.publishedfiledetails@) is Some,
        outcome matches Some((items, skipped)) ==> {
            &&& Some(items.deep_view()) == answer_items(answer.response.publishedfiledetails@)
            &&& skipped@ == skipped_entries(answer.response.publishedfiledetails@)
        },
{
    if !details_readable(answer) {
        return None;
    }
    let details = &answer.response.publishedfiledetails;
    let mut items: Vec<ModData> = Vec::new();
    let mut skipped: Vec<SkippedEntry> = Vec::new();
    let mut i: usize = 0;
    assert(items.deep_view() =~= resolved_items(details@.take(0)));
    while i < details.len()
        invariant
            i <= details.len(),
            items.deep_view() == resolved_items(details@.take(i as int)),
            skipped@ == skipped_entries(details@.take(i as int)),
        decreases details.len() - i,
    {
        let ghost before = items.deep_view();
        proof {
            details@.lemma_filter_map_take_succ(resolved(), i as int);
            assert(details@.take(i + 1).drop_last() =~= details@.take(i as int));
        }
        match resolve_item(parser, &details[i]) {
            Ok(item) => {
                items.push(item);
                assert(items.deep_view() =~= before + seq![item.deep_view()]);
            },
            Err(reason) => {
                skipped.push(SkippedEntry { position: i, reason });
                assert(items.deep_view() =~= before + Seq::<ResolvedItem>::empty());
            },
        }
        i = i + 1;
    }
    assert(details@.take(details.len() as int) =~= details@);
    Some((items, skipped))
}

/// A resolved item has a mod name, and no mod name and no map folder twice.
pub proof fn lemma_resolved_item_is_well_formed(detail: Publishedfiledetail)
    ensures
        resolution(detail) matches Ok(item) ==> item.well_formed(),
{
    lemma_declared_values(group_captures(MOD_NAME_PATTERN@, MOD_NAME_GROUP@, detail.description@));
    lemma_declared_values(
        group_captures(MAP_FOLDER_PATTERN@, MAP_FOLDER_GROUP@, detail.description@),
    );
}

/// The entries of two runs resolve to what the first run resolves, then
/// what the second resolves.
pub proof fn lemma_resolved_items_concat(
    first: Seq<Publishedfiledetail>,
    second: Seq<Publishedfiledetail>,
)
    ensures
        resolved_items(first + second) == resolved_items(first) + resolved_items(second),
    decreases second.len(),
{
    if second.len() == 0 {
        assert(first + second =~= first);
        assert(resolved_items(first) + resolved_items(second) =~= resolved_items(first));
    } else {
        lemma_resolved_items_concat(first, second.drop_last());
        assert((first + second).drop_last() =~= first + second.drop_last());
        assert((first + second).last() == second.last());
        assert(resolved_items(first + second) =~= resolved_items(first) + resolved_items(second));
    }
}

/// The test "the service answered for this entry, its identifier is a
/// number, and its description declares a mod name".
pub open spec fn gives_item() -> spec_fn(Publishedfiledetail) -> bool {
    |detail: Publishedfiledetail|
        detail.result == RESULT_OK && parse_id(detail.publishedfileid@) is Some
            && declared_mod_names(detail.description@).len() > 0
}

/// The test "the service answered for this entry and its description
/// declares a mod name".
pub open spec fn answered_with_name() -> spec_fn(Publishedfiledetail) -> bool {
    |detail: Publishedfiledetail|
        detail.result == RESULT_OK && declared_mod_names(detail.description@).len() > 0
}

/// The item that an entry gives, if it gives one.
pub open spec fn item_of() -> spec_fn(Publishedfiledetail) -> ResolvedItem {
    |detail: Publishedfiledetail|
        ResolvedItem {
            id: parse_id(detail.publishedfileid@).unwrap(),
            names: declared_mod_names(detail.description@),
            map_folders: declared_map_folders(detail.description@),
            last_updated: detail.time_updated,
        }
}

/// What an answer resolves is one item for each of its entries that the
/// service answered for, whose identifier is a number and whose description
/// declares a mod name, in the order of the answer, and nothing else. An
/// entry without a mod name gives no item, whatever map folders it declares.
pub proof fn lemma_resolved_items_are_the_named_entries(details: Seq<Publishedfiledetail>)
    ensures
        resolved_items(details) == details.filter(gives_item()).map_values(item_of()),
    decreases details.len(),
{
    if details.len() == 0 {
        reveal(Seq::filter);
        assert(details.filter(gives_item()).map_values(item_of()) =~= Seq::<
            ResolvedItem,
        >::empty());
    } else {
        let rest = details.drop_last();
        let last = details.last();
        lemma_resolved_items_are_the_named_entries(rest);
        assert(details =~= rest.push(last));
        rest.lemma_filter_push(last, gives_item());
        let kept = rest.filter(gives_item());
        if gives_item()(last) {
            assert(kept.push(last).map_values(item_of()) =~= kept.map_values(item_of()).push(
                item_of()(last),
            ));
            assert(resolved()(last) == Some(item_of()(last)));
            assert(resolved_items(details) =~= resolved_items(rest) + seq![item_of()(last)]);
        } else {
            assert(resolved()(last) is None);
        }
    }
}

/// Two tests that agree on every entry keep the same entries.
proof fn lemma_filter_agrees(
    details: Seq<Publishedfiledetail>,
    first: spec_fn(Publishedfiledetail) -> bool,
    second: spec_fn(Publishedfiledetail) -> bool,
)
    requires
        forall|i: int|
            0 <= i < details.len() ==> first(#[trigger] details[i]) == second(details[i]),
    ensures
        details.filter(first) == details.filter(second),
    decreases details.len(),
{
    reveal(Seq::filter);
    if details.len() > 0 {
        let rest = details.drop_last();
        assert forall|i: int| 0 <= i < rest.len() implies first(#[trigger] rest[i]) == second(
            rest[i],
        ) by {
            assert(rest[i] == details[i]);
        }
        lemma_filter_agrees(rest, first, second);
        assert(details.last() == details[details.len() - 1]);
    }
}

/// Where the answer can be decoded, what it resolves is one item for each
/// of its entries that the service answered for and whose description
/// declares a mod name, in the order of the answer, and nothing else.
pub proof fn lemma_decoded_answer_gives_the_named_entries(details: Seq<Publishedfiledetail>)
    requires
        details_are_readable(details),
    ensures
        answer_items(details) == Some(
            details.filter(answered_with_name()).map_values(item_of()),
        ),
{
    lemma_resolved_items_are_the_named_entries(details);
    assert forall|i: int| 0 <= i < details.len() implies gives_item()(#[trigger] details[i])
        == answered_with_name()(details[i]) by {
        assert(detail_is_readable(details[i]));
    }
    lemma_filter_agrees(details, gives_item(), answered_with_name());
}

/// Every entry of an answer is resolved or skipped, and none is both.
pub proof fn lemma_resolved_or_skipped(details: Seq<Publishedfiledetail>)
    requires
        details.len() <= usize::MAX,
    ensures
        resolved_items(details).len() + skipped_entries(details).len() == details.len(),
        forall|k: int|
            0 <= k < skipped_entries(details).len() ==> {
                let entry = #[trigger] skipped_entries(details)[k];
                &&& entry.position < details.len()
                &&& resolution(details[entry.position as int]) == Err::<ResolvedItem, ItemFailure>(
                    entry.reason,
                )
                &&& details_are_readable(details) ==> entry.reason != ItemFailure::MalformedId
            },
    decreases details.len(),
{
    if details.len() > 0 {
        lemma_resolved_or_skipped(details.drop_last());
        let earlier = skipped_entries(details.drop_last());
        assert forall|k: int| 0 <= k < skipped_entries(details).len() implies {
            let entry = #[trigger] skipped_entries(details)[k];
            &&& entry.position < details.len()
            &&& resolution(details[entry.position as int]) == Err::<ResolvedItem, ItemFailure>(
                entry.reason,
            )
            &&& details_are_readable(details) ==> entry.reason != ItemFailure::MalformedId
        } by {
            if details_are_readable(details) {
                assert(detail_is_readable(details[skipped_entries(details)[k].position as int]));
            }
            if k < earlier.len() {
                assert(skipped_entries(details)[k] == earlier[k]);
                assert(details.drop_last()[earlier[k].position as int]
                    == details[earlier[k].position as int]);
            } else {
                assert(skipped_entries(details)[k].position == details.len() - 1);
            }
        }
    }
}

/// An entry that is skipped adds nothing, and the other entries resolve to
/// what they would resolve to without it.
pub proof fn lemma_skipped_entry_adds_nothing(details: Seq<Publishedfiledetail>, i: int)
    requires
        0 <= i < details.len(),
        resolution(details[i]) is Err,
    ensures
        resolved_items(details) == resolved_items(details.remove(i)),
{
    let before = details.take(i);
    let skipped = seq![details[i]];
    let after = details.skip(i + 1);
    assert(details =~= before + skipped + after);
    assert(details.remove(i) =~= before + after);
    lemma_resolved_items_concat(before + skipped, after);
    lemma_resolved_items_concat(before, skipped);
    lemma_resolved_items_concat(before, after);
    assert(resolved_items(skipped) =~= Seq::<ResolvedItem>::empty()) by {
        assert(skipped.drop_last() =~= Seq::<Publishedfiledetail>::empty());
        assert(resolved_items(skipped.drop_last()) =~= Seq::<ResolvedItem>::empty());
    }
    assert(resolved_items(before) + Seq::<ResolvedItem>::empty() + resolved_items(after)
        =~= resolved_items(before) + resolved_items(after));
}

/// An entry that is skipped and whose identifier can be read leaves the
/// answer as readable as it was, and leaves what it gives.
pub proof fn lemma_skipped_entry_leaves_the_answer(details: Seq<Publishedfiledetail>, i: int)
    requires
        0 <= i < details.len(),
        resolution(details[i]) is Err,
        resolution(details[i]) != Err::<ResolvedItem, ItemFailure>(ItemFailure::MalformedId),
    ensures
        answer_items(details) == answer_items(details.remove(i)),
{
    let without = details.remove(i);
    lemma_skipped_entry_adds_nothing(details, i);
    assert(detail_is_readable(details[i]));
    if details_are_readable(details) {
        assert forall|j: int| 0 <= j < without.len() implies detail_is_readable(
            #[trigger] without[j],
        ) by {
            if j < i {
                assert(without[j] == details[j]);
            } else {
                assert(without[j] == details[j + 1]);
            }
        }
    }
    if details_are_readable(without) {
        assert forall|j: int| 0 <= j < details.len() implies detail_is_readable(
            #[trigger] details[j],
        ) by {
            if j < i {
                assert(details[j] == without[j]);
            } else if j > i {
                assert(details[j] == without[j - 1]);
            }
        }
    }
}

/// An entry without a mod name is not resolved, whatever map folders its
/// description declares and whatever else it holds.
pub proof fn lemma_entry_without_mod_name_is_skipped(
    detail: Publishedfiledetail,
    map_folders: Seq<Seq<char>>,
)
    ensures
        item_outcome(detail, Seq::empty(), map_folders) is Err,
        declared_mod_names(detail.description@).len() == 0 ==> resolution(detail) is Err,
        group_captures(MOD_NAME_PATTERN@, MOD_NAME_GROUP@, detail.description@).len() == 0
            ==> resolution(detail) is Err,
{
    lemma_declared_values(group_captures(MOD_NAME_PATTERN@, MOD_NAME_GROUP@, detail.description@));
}

/// An entry whose description holds no mod name declaration is absent from
/// what its answer resolves.
pub proof fn lemma_entry_without_mod_name_is_absent(details: Seq<Publishedfiledetail>, i: int)
    requires
        0 <= i < details.len(),
    ensures
        group_captures(MOD_NAME_PATTERN@, MOD_NAME_GROUP@, details[i].description@).len() == 0
            ==> resolved_items(details) == resolved_items(details.remove(i)),
        declared_mod_names(details[i].description@).len() == 0 ==> resolved_items(details)
            == resolved_items(details.remove(i)),
{
    lemma_entry_without_mod_name_is_skipped(details[i], Seq::empty());
    if declared_mod_names(details[i].description@).len() == 0 {
        lemma_skipped_entry_adds_nothing(details, i);
    }
}

} // verus!

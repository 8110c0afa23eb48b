//! Resolves a list of items batch by batch.
//!
//! The items are asked about ten at a time, in their order, one request
//! after the other. A request that fails, or whose answer cannot be decoded,
//! ends the resolution: what earlier answers resolved is the result.

use crate::description::DescriptionParser;
use crate::items::{
    answered_with_name,
    detail_is_readable,
    details_are_readable,
    gives_item,
    item_of,
    lemma_decoded_answer_gives_the_named_entries,
    lemma_resolved_items_are_the_named_entries,
    lemma_resolved_items_concat,
    resolve_details,
    resolved_items,
    skipped_entries,
    SkippedEntry,
};
use crate::steam_api_client::{
    published_file_details_form,
    request_form,
    ModData,
    ResolvedItem,
    BATCH_SIZE,
    ITEM_COUNT_FIELD,
};
use crate::steam_api_client_schemes::{GetPublishedFileDetails, Publishedfiledetail};
use vstd::prelude::*;

verus! {

/// Where the batch that begins at `start` ends, in a list of `len` items.
pub open spec fn batch_end(len: nat, start: nat) -> nat {
    if start + BATCH_SIZE <= len {
        start + BATCH_SIZE as nat
    } else {
        len
    }
}

/// The batch that begins at `start`: the next `BATCH_SIZE` items, or those
/// that are left.
pub open spec fn batch_at(items: Seq<u64>, start: nat) -> Seq<u64> {
    items.subrange(start as int, batch_end(items.len(), start) as int)
}

/// How many batches `len` items make.
pub open spec fn batch_count(len: nat) -> nat {
    (len + BATCH_SIZE - 1) as nat / (BATCH_SIZE as nat)
}

/// How far the resolution of a list of items has come.
pub struct Resolution {
    /// The items to resolve.
    pub items: Seq<u64>,
    /// How many of them were asked about and answered.
    pub position: nat,
    /// What the answers so far resolved.
    pub resolved: Seq<ResolvedItem>,
    /// Whether a request failed.
    pub stopped: bool,
}

impl Resolution {
    /// Nothing asked yet.
    pub open spec fn start(items: Seq<u64>) -> Resolution {
        Resolution { items, position: 0, resolved: Seq::empty(), stopped: false }
    }

    /// Whether nothing is left to ask: every item was asked about, or a
    /// request failed.
    pub open spec fn finished(self) -> bool {
        self.stopped || self.position >= self.items.len()
    }

    /// The items of the next request.
    pub open spec fn next_batch(self) -> Seq<u64> {
        batch_at(self.items, self.position)
    }

    /// The resolution after the next request came back: with the entries of
    /// its answer, or with none where the request or its decoding failed.
    ///
    /// A failure stops the resolution and keeps what was resolved before it.
    /// Once the resolution is finished nothing changes it.
    pub open spec fn after(self, answer: Option<Seq<Publishedfiledetail>>) -> Resolution {
        if self.finished() {
            self
        } else {
            match answer {
                Some(details) => Resolution {
                    position: batch_end(self.items.len(), self.position),
                    resolved: self.resolved + resolved_items(details),
                    ..self
                },
                None => Resolution { stopped: true, ..self },
            }
        }
    }

    /// The entries that are reported as skipped when the next request comes
    /// back: those of its answer, if the resolution still waits for one.
    pub open spec fn skipped_by(self, answer: Option<Seq<Publishedfiledetail>>) -> Seq<
        SkippedEntry,
    > {
        match answer {
            Some(details) if !self.finished() => skipped_entries(details),
            _ => Seq::empty(),
        }
    }

    /// The resolution after all of `answers` came back, one after the other.
    pub open spec fn after_all(self, answers: Seq<Option<Seq<Publishedfiledetail>>>) -> Resolution
        decreases answers.len(),
    {
        if answers.len() == 0 {
            self
        } else {
            self.after_all(answers.drop_last()).after(answers.last())
        }
    }
}

/// The entries of an answer, where there is one and its identifiers can
/// be read.
pub open spec fn entries_of(answer: Option<&GetPublishedFileDetails>) -> Option<
    Seq<Publishedfiledetail>,
> {
    match answer {
        Some(answer) if details_are_readable(answer.response.publishedfiledetails@) => Some(
            answer.response.publishedfiledetails@,
        ),
        _ => None,
    }
}

/// Resolves a list of items batch by batch. The caller asks for the next
/// request, sends it, and hands back what came of it, until no request is
/// left.
pub struct ItemDetailResolver {
    parser: DescriptionParser,
    items: Vec<u64>,
    position: usize,
    resolved: Vec<ModData>,
    stopped: bool,
}

impl View for ItemDetailResolver {
    type V = Resolution;

    closed spec fn view(&self) -> Resolution {
        Resolution {
            items: self.items@,
            position: self.position as nat,
            resolved: self.resolved.deep_view(),
            stopped: self.stopped,
        }
    }
}

impl ItemDetailResolver {
    /// A resolver for `items`, with nothing asked yet.
    pub fn new(parser: DescriptionParser, items: Vec<u64>) -> (resolver: ItemDetailResolver)
        ensures
            resolver@ == Resolution::start(items@),
    {
        let resolver = ItemDetailResolver {
            parser,
            items,
            position: 0,
            resolved: Vec::new(),
            stopped: false,
        };
        assert(resolver.resolved.deep_view() =~= Seq::<ResolvedItem>::empty());
        resolver
    }

    /// Whether nothing is left to ask.
    pub fn is_finished(&self) -> (finished: bool)
        ensures
            finished == self@.finished(),
    {
        self.stopped || self.position >= self.items.len()
    }

    /// The items of the next request; none once the resolution is finished.
    pub fn next_batch(&self) -> (batch: Vec<u64>)
        ensures
            batch@ == if self@.finished() {
                Seq::<u64>::empty()
            } else {
                self@.next_batch()
            },
    {
        let mut batch: Vec<u64> = Vec::new();
        let len = self.items.len();
        if self.stopped || self.position >= len {
            return batch;
        }
        let end = if len - self.position >= BATCH_SIZE {
            self.position + BATCH_SIZE
        } else {
            len
        };
        let mut i: usize = self.position;
        while i < end
            invariant
                self.position <= i <= end <= self.items.len(),
                batch@ == self.items@.subrange(self.position as int, i as int),
            decreases end - i,
        {
            batch.push(self.items[i]);
            assert(self.items@.subrange(self.position as int, i + 1) =~= self.items@.subrange(
                self.position as int,
                i as int,
            ).push(self.items@[i as int]));
            i = i + 1;
        }
        batch
    }

    /// The form of the next request, or `None` once the resolution is
    /// finished.
    pub fn next_request(&self) -> (form: Option<Vec<(String, String)>>)
        ensures
            form is None <==> self@.finished(),
            form matches Some(fields) ==> fields.deep_view() == request_form(
                ITEM_COUNT_FIELD@,
                self@.next_batch(),
            ),
    {
        if self.is_finished() {
            None
        } else {
            let batch = self.next_batch();
            Some(published_file_details_form(&batch))
        }
    }

    /// Takes what came of the last request: its answer, or `None` where the
    /// request or the decoding of its answer failed. An answer with an
    /// identifier that counts and cannot be read is a failure too. Hands
    /// back the entries of the answer that were skipped.
    pub fn accept(&mut self, answer: Option<&GetPublishedFileDetails>) -> (skipped: Vec<
        SkippedEntry,
    >)
        ensures
            final(self)@ == old(self)@.after(entries_of(answer)),
            skipped@ == old(self)@.skipped_by(entries_of(answer)),
    {
        if self.stopped || self.position >= self.items.len() {
            return Vec::new();
        }
        let resolved = match answer {
            Some(answer) => resolve_details(&self.parser, answer),
            None => None,
        };
        match resolved {
            Some((mut items, skipped)) => {
                let ghost before = self.resolved.deep_view();
                let ghost added = items.deep_view();
                self.resolved.append(&mut items);
                assert(self.resolved.deep_view() =~= before + added);
                let len = self.items.len();
                self.position = if len - self.position >= BATCH_SIZE {
                    self.position + BATCH_SIZE
                } else {
                    len
                };
                skipped
            },
            None => {
                self.stopped = true;
                Vec::new()
            },
        }
    }

    /// What the answers so far resolved.
    pub fn into_mods(self) -> (mods: Vec<ModData>)
        ensures
            mods.deep_view() == self@.resolved,
    {
        self.resolved
    }
}

/// Once a resolution is finished, no answer changes it.
pub proof fn lemma_finished_is_final(
    state: Resolution,
    answers: Seq<Option<Seq<Publishedfiledetail>>>,
)
    requires
        state.finished(),
    ensures
        state.after_all(answers) == state,
    decreases answers.len(),
{
    if answers.len() > 0 {
        lemma_finished_is_final(state, answers.drop_last());
    }
}

/// Answers taken one run after another are answers taken in one run.
pub proof fn lemma_after_all_concat(
    state: Resolution,
    first: Seq<Option<Seq<Publishedfiledetail>>>,
    second: Seq<Option<Seq<Publishedfiledetail>>>,
)
    ensures
        state.after_all(first + second) == state.after_all(first).after_all(second),
    decreases second.len(),
{
    if second.len() == 0 {
        assert(first + second =~= first);
    } else {
        lemma_after_all_concat(state, first, second.drop_last());
        assert((first + second).drop_last() =~= first + second.drop_last());
        assert((first + second).last() == second.last());
    }
}

/// A failed request ends the resolution with what was resolved before it,
/// whatever comes after.
pub proof fn lemma_failure_keeps_earlier_results(
    state: Resolution,
    later: Seq<Option<Seq<Publishedfiledetail>>>,
)
    ensures
        state.after(None).finished(),
        state.after(None).after_all(later).resolved == state.resolved,
        state.after(None).after_all(later).position == state.position,
{
    lemma_finished_is_final(state.after(None), later);
}

/// The answers of `batches`, each of which came.
pub open spec fn all_answered(batches: Seq<Seq<Publishedfiledetail>>) -> Seq<
    Option<Seq<Publishedfiledetail>>,
> {
    batches.map_values(|details: Seq<Publishedfiledetail>| Some(details))
}

/// Where the resolution of `len` items stands after `answered` answers.
pub open spec fn position_after(len: nat, answered: nat) -> nat {
    if answered * BATCH_SIZE <= len {
        answered * BATCH_SIZE as nat
    } else {
        len
    }
}

/// While the requests are answered, the batches are the items ten by ten,
/// in order, and the result is what the answers resolve, entry by entry in
/// the order in which they came. The resolution is finished exactly when
/// every batch was answered.
pub proof fn lemma_answered_batches(items: Seq<u64>, batches: Seq<Seq<Publishedfiledetail>>)
    requires
        batches.len() <= batch_count(items.len()),
    ensures
        ({
            let state = Resolution::start(items).after_all(all_answered(batches));
            &&& state.items == items
            &&& !state.stopped
            &&& state.position == position_after(items.len(), batches.len())
            &&& state.resolved == resolved_items(batches.flatten())
            &&& state.finished() <==> batches.len() == batch_count(items.len())
            &&& !state.finished() ==> state.next_batch() == items.subrange(
                batches.len() * BATCH_SIZE,
                position_after(items.len(), batches.len() + 1) as int,
            )
        }),
    decreases batches.len(),
{
    let len = items.len();
    let count = batches.len();
    if count == 0 {
        assert(all_answered(batches) =~= Seq::empty());
        assert(resolved_items(batches.flatten()) =~= Seq::<ResolvedItem>::empty());
    } else {
        let earlier = batches.drop_last();
        lemma_answered_batches(items, earlier);
        let before = Resolution::start(items).after_all(all_answered(earlier));
        assert(all_answered(batches).drop_last() =~= all_answered(earlier));
        assert(all_answered(batches).last() == Some(batches.last()));
        assert(!before.finished());
        assert(batches =~= earlier.push(batches.last()));
        earlier.lemma_flatten_push(batches.last());
        lemma_resolved_items_concat(earlier.flatten(), batches.last());
    }
}

/// The entries of answers that can all be decoded, one answer after the
/// other, can be decoded.
proof fn lemma_flatten_is_readable(batches: Seq<Seq<Publishedfiledetail>>)
    requires
        forall|k: int| 0 <= k < batches.len() ==> details_are_readable(#[trigger] batches[k]),
    ensures
        details_are_readable(batches.flatten()),
    decreases batches.len(),
{
    if batches.len() > 0 {
        let earlier = batches.drop_last();
        let last = batches.last();
        assert forall|k: int| 0 <= k < earlier.len() implies details_are_readable(
            #[trigger] earlier[k],
        ) by {
            assert(earlier[k] == batches[k]);
        }
        lemma_flatten_is_readable(earlier);
        assert(batches =~= earlier.push(last));
        earlier.lemma_flatten_push(last);
        assert(details_are_readable(last));
        assert forall|i: int| 0 <= i < batches.flatten().len() implies detail_is_readable(
            #[trigger] batches.flatten()[i],
        ) by {
            if i < earlier.flatten().len() {
                assert(batches.flatten()[i] == earlier.flatten()[i]);
            } else {
                assert(batches.flatten()[i] == last[i - earlier.flatten().len()]);
            }
        }
    }
}

/// While the requests are answered, the result is one item for each entry
/// that the service answered for, whose identifier is a number and whose
/// description declares a mod name, over the entries of all answers in the
/// order in which they came, and nothing else. Where all answers can be
/// decoded, that is each entry that the service answered for and whose
/// description declares a mod name.
pub proof fn lemma_answered_run_gives_the_named_entries(
    items: Seq<u64>,
    batches: Seq<Seq<Publishedfiledetail>>,
)
    requires
        batches.len() <= batch_count(items.len()),
    ensures
        Resolution::start(items).after_all(all_answered(batches)).resolved
            == batches.flatten().filter(gives_item()).map_values(item_of()),
        (forall|k: int| 0 <= k < batches.len() ==> details_are_readable(#[trigger] batches[k]))
            ==> Resolution::start(items).after_all(all_answered(batches)).resolved
            == batches.flatten().filter(answered_with_name()).map_values(item_of()),
{
    lemma_answered_batches(items, batches);
    lemma_resolved_items_are_the_named_entries(batches.flatten());
    if forall|k: int| 0 <= k < batches.len() ==> details_are_readable(#[trigger] batches[k]) {
        lemma_flatten_is_readable(batches);
        lemma_decoded_answer_gives_the_named_entries(batches.flatten());
    }
}

} // verus!

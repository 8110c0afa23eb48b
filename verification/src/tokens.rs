//! Ordered lists of tokens: leaving tokens out, dropping repetitions, and
//! merging what was resolved with what the operator asks for.
//!
//! A token is an item identifier, a mod name or a map name. The rules are
//! the same for all three, so they are stated once, for any token type.

use vstd::prelude::*;

verus! {

/// The test "is not one of `excluded`".
pub open spec fn not_in<T>(excluded: Seq<T>) -> spec_fn(T) -> bool {
    |token: T| !excluded.contains(token)
}

/// The tokens of `tokens` that are not in `excluded`, in their order.
pub open spec fn without<T>(tokens: Seq<T>, excluded: Seq<T>) -> Seq<T> {
    tokens.filter(not_in(excluded))
}

/// The resolved tokens that are not excluded, followed by the added tokens
/// that are not among them.
///
/// An added token is held against the resolved tokens that were kept, not
/// against `excluded`: a token that is both excluded and added is in the
/// result, once for each time it was added.
pub open spec fn merged<T>(resolved: Seq<T>, added: Seq<T>, excluded: Seq<T>) -> Seq<T> {
    let kept = without(resolved, excluded);
    kept + without(added, kept)
}

/// `values` with every repetition of an earlier value dropped.
pub open spec fn distinct<T>(values: Seq<T>) -> Seq<T>
    decreases values.len(),
{
    if values.len() == 0 {
        values
    } else {
        let earlier = distinct(values.drop_last());
        if earlier.contains(values.last()) {
            earlier
        } else {
            earlier.push(values.last())
        }
    }
}

/// The test "is `token`".
pub open spec fn same_as<T>(token: T) -> spec_fn(T) -> bool {
    |other: T| other == token
}

/// How often `token` occurs in `tokens`.
pub open spec fn occurrences<T>(tokens: Seq<T>, token: T) -> nat {
    tokens.filter(same_as(token)).len()
}

/// Leaving out goes token by token: the last one is judged on its own.
pub proof fn lemma_without_push<T>(tokens: Seq<T>, token: T, excluded: Seq<T>)
    ensures
        without(tokens.push(token), excluded) == if excluded.contains(token) {
            without(tokens, excluded)
        } else {
            without(tokens, excluded).push(token)
        },
{
    tokens.lemma_filter_push(token, not_in(excluded));
}

/// Nothing is left of an empty list.
pub proof fn lemma_without_empty<T>(excluded: Seq<T>)
    ensures
        without(Seq::<T>::empty(), excluded) == Seq::<T>::empty(),
{
    reveal(Seq::filter);
}

/// The identifiers of `tokens` that are not in `excluded`.
pub fn ids_without(tokens: &Vec<u64>, excluded: &Vec<u64>) -> (kept: Vec<u64>)
    ensures
        kept@ == without(tokens@, excluded@),
{
    let mut kept: Vec<u64> = Vec::new();
    let mut i: usize = 0;
    proof {
        lemma_without_empty(excluded@);
        assert(tokens@.take(0) =~= Seq::<u64>::empty());
    }
    while i < tokens.len()
        invariant
            i <= tokens.len(),
            kept@ == without(tokens@.take(i as int), excluded@),
        decreases tokens.len() - i,
    {
        proof {
            lemma_without_push(tokens@.take(i as int), tokens@[i as int], excluded@);
            assert(tokens@.take(i + 1) =~= tokens@.take(i as int).push(tokens@[i as int]));
        }
        if !crate::text::contains_id(excluded, tokens[i]) {
            kept.push(tokens[i]);
        }
        i = i + 1;
    }
    assert(tokens@.take(tokens.len() as int) =~= tokens@);
    kept
}

/// The texts of `tokens` that are not in `excluded`.
pub fn texts_without(tokens: &Vec<String>, excluded: &Vec<String>) -> (kept: Vec<String>)
    ensures
        kept.deep_view() == without(tokens.deep_view(), excluded.deep_view()),
{
    let mut kept: Vec<String> = Vec::new();
    let mut i: usize = 0;
    proof {
        lemma_without_empty(excluded.deep_view());
        assert(tokens.deep_view().take(0) =~= Seq::<Seq<char>>::empty());
        assert(kept.deep_view() =~= Seq::<Seq<char>>::empty());
    }
    while i < tokens.len()
        invariant
            i <= tokens.len(),
            kept.deep_view() == without(tokens.deep_view().take(i as int), excluded.deep_view()),
        decreases tokens.len() - i,
    {
        let ghost before = kept.deep_view();
        proof {
            lemma_without_push(
                tokens.deep_view().take(i as int),
                tokens@[i as int]@,
                excluded.deep_view(),
            );
            assert(tokens.deep_view().take(i + 1) =~= tokens.deep_view().take(i as int).push(
                tokens@[i as int]@,
            ));
        }
        if !crate::text::contains_text(excluded, &tokens[i]) {
            kept.push(tokens[i].clone());
            assert(kept.deep_view() =~= before.push(tokens@[i as int]@));
        }
        i = i + 1;
    }
    assert(tokens.deep_view().take(tokens.len() as int) =~= tokens.deep_view());
    kept
}

/// Merges resolved identifiers with the added and the excluded ones.
pub fn merge_ids(resolved: &Vec<u64>, added: &Vec<u64>, excluded: &Vec<u64>) -> (tokens: Vec<u64>)
    ensures
        tokens@ == merged(resolved@, added@, excluded@),
{
    let mut tokens = ids_without(resolved, excluded);
    let mut extra = ids_without(added, &tokens);
    tokens.append(&mut extra);
    tokens
}

/// Merges resolved names with the added and the excluded ones.
pub fn merge_texts(resolved: &Vec<String>, added: &Vec<String>, excluded: &Vec<String>) -> (tokens:
    Vec<String>)
    ensures
        tokens.deep_view() == merged(
            resolved.deep_view(),
            added.deep_view(),
            excluded.deep_view(),
        ),
{
    let mut tokens = texts_without(resolved, excluded);
    let mut extra = texts_without(added, &tokens);
    let ghost kept = tokens.deep_view();
    let ghost rest = extra.deep_view();
    tokens.append(&mut extra);
    assert(tokens.deep_view() =~= kept + rest);
    tokens
}

/// A token occurs in a list exactly if it occurs there at least once.
pub proof fn lemma_occurrences_contains<T>(tokens: Seq<T>, token: T)
    ensures
        tokens.contains(token) <==> occurrences(tokens, token) > 0,
    decreases tokens.len(),
{
    reveal(Seq::filter);
    if tokens.len() > 0 {
        let rest = tokens.drop_last();
        lemma_occurrences_contains(rest, token);
        if tokens.contains(token) {
            let i = choose|i: int| 0 <= i < tokens.len() && tokens[i] == token;
            if i < rest.len() {
                assert(rest[i] == token);
            }
        }
        if rest.contains(token) {
            let i = choose|i: int| 0 <= i < rest.len() && rest[i] == token;
            assert(tokens[i] == token);
        }
        if tokens.last() == token {
            assert(tokens[tokens.len() - 1] == token);
        }
    }
}

/// Occurrences add up over a concatenation.
pub proof fn lemma_occurrences_concat<T>(first: Seq<T>, second: Seq<T>, token: T)
    ensures
        occurrences(first + second, token) == occurrences(first, token) + occurrences(
            second,
            token,
        ),
{
    Seq::filter_distributes_over_add(first, second, same_as(token));
}

/// What is left out is gone; what is not left out occurs as often as before.
pub proof fn lemma_occurrences_without<T>(tokens: Seq<T>, excluded: Seq<T>, token: T)
    ensures
        occurrences(without(tokens, excluded), token) == if excluded.contains(token) {
            0
        } else {
            occurrences(tokens, token)
        },
    decreases tokens.len(),
{
    if tokens.len() == 0 {
        reveal(Seq::filter);
    } else {
        let rest = tokens.drop_last();
        let last = tokens.last();
        assert(tokens =~= rest.push(last));
        lemma_occurrences_without(rest, excluded, token);
        lemma_without_push(rest, last, excluded);
        rest.lemma_filter_push(last, same_as(token));
        without(rest, excluded).lemma_filter_push(last, same_as(token));
    }
}

/// Leaving tokens out of a list without repetitions leaves no repetitions.
pub proof fn lemma_without_no_duplicates<T>(tokens: Seq<T>, excluded: Seq<T>)
    requires
        tokens.no_duplicates(),
    ensures
        without(tokens, excluded).no_duplicates(),
    decreases tokens.len(),
{
    if tokens.len() == 0 {
        reveal(Seq::filter);
    } else {
        let rest = tokens.drop_last();
        let last = tokens.last();
        assert(tokens =~= rest.push(last));
        lemma_without_no_duplicates(rest, excluded);
        lemma_without_push(rest, last, excluded);
        let kept = without(rest, excluded);
        if kept.contains(last) {
            rest.lemma_filter_contains_rev(not_in(excluded), last);
            let i = choose|i: int| 0 <= i < rest.len() && rest[i] == last;
            assert(tokens[i] == tokens[tokens.len() - 1]);
        }
    }
}

/// Every token that is kept was there and is not excluded, and the other
/// way round.
pub proof fn lemma_without_contains<T>(tokens: Seq<T>, excluded: Seq<T>, token: T)
    ensures
        without(tokens, excluded).contains(token) <==> tokens.contains(token)
            && !excluded.contains(token),
{
    lemma_occurrences_contains(without(tokens, excluded), token);
    lemma_occurrences_contains(tokens, token);
    lemma_occurrences_without(tokens, excluded, token);
}

/// No excluded token is among the tokens that resolved data contributes to
/// a merged list, which are its first ones. An excluded token is in the
/// list only if it was added by hand.
pub proof fn lemma_excluded_token_is_not_kept<T>(
    resolved: Seq<T>,
    added: Seq<T>,
    excluded: Seq<T>,
    token: T,
)
    requires
        excluded.contains(token),
    ensures
        !without(resolved, excluded).contains(token),
        merged(resolved, added, excluded).take(without(resolved, excluded).len() as int)
            == without(resolved, excluded),
        occurrences(merged(resolved, added, excluded), token) == occurrences(added, token),
{
    let kept = without(resolved, excluded);
    lemma_without_contains(resolved, excluded, token);
    assert((kept + without(added, kept)).take(kept.len() as int) =~= kept);
    lemma_occurrences_concat(kept, without(added, kept), token);
    lemma_occurrences_contains(kept, token);
    lemma_occurrences_without(added, kept, token);
}

/// An added token that was not resolved is in the merged list as often as
/// it was added, and only behind the tokens that resolved data contributes.
pub proof fn lemma_added_token_follows_resolved<T>(
    resolved: Seq<T>,
    added: Seq<T>,
    excluded: Seq<T>,
    token: T,
)
    requires
        added.contains(token),
        !resolved.contains(token),
    ensures
        occurrences(merged(resolved, added, excluded), token) == occurrences(added, token),
        forall|i: int|
            0 <= i < merged(resolved, added, excluded).len() && merged(
                resolved,
                added,
                excluded,
            )[i] == token ==> i >= without(resolved, excluded).len(),
{
    let kept = without(resolved, excluded);
    lemma_without_contains(resolved, excluded, token);
    lemma_occurrences_concat(kept, without(added, kept), token);
    lemma_occurrences_contains(kept, token);
    lemma_occurrences_without(added, kept, token);
    assert forall|i: int|
        0 <= i < merged(resolved, added, excluded).len() && merged(resolved, added, excluded)[i]
            == token implies i >= kept.len() by {
        if i < kept.len() {
            assert(kept[i] == token);
        }
    }
}

/// An added token that was not resolved and was added once is in the merged
/// list once, behind every token that resolved data contributes.
pub proof fn lemma_added_token_appears_once<T>(
    resolved: Seq<T>,
    added: Seq<T>,
    excluded: Seq<T>,
    token: T,
)
    requires
        added.contains(token),
        !resolved.contains(token),
        occurrences(added, token) == 1,
    ensures
        occurrences(merged(resolved, added, excluded), token) == 1,
        forall|i: int|
            0 <= i < merged(resolved, added, excluded).len() && merged(
                resolved,
                added,
                excluded,
            )[i] == token ==> i >= without(resolved, excluded).len(),
{
    lemma_added_token_follows_resolved(resolved, added, excluded, token);
}

/// A resolved token that is not excluded is in the merged list as often as
/// it was resolved, however often it was added.
pub proof fn lemma_resolved_token_is_not_added_again<T>(
    resolved: Seq<T>,
    added: Seq<T>,
    excluded: Seq<T>,
    token: T,
)
    requires
        resolved.contains(token),
        !excluded.contains(token),
    ensures
        occurrences(merged(resolved, added, excluded), token) == occurrences(resolved, token),
{
    let kept = without(resolved, excluded);
    lemma_without_contains(resolved, excluded, token);
    lemma_occurrences_concat(kept, without(added, kept), token);
    lemma_occurrences_without(resolved, excluded, token);
    lemma_occurrences_without(added, kept, token);
}

/// Where nothing was resolved twice and nothing was added twice, no token
/// is in the merged list twice.
pub proof fn lemma_merged_no_duplicates<T>(resolved: Seq<T>, added: Seq<T>, excluded: Seq<T>)
    requires
        resolved.no_duplicates(),
        added.no_duplicates(),
    ensures
        merged(resolved, added, excluded).no_duplicates(),
{
    let kept = without(resolved, excluded);
    let extra = without(added, kept);
    lemma_without_no_duplicates(resolved, excluded);
    lemma_without_no_duplicates(added, kept);
    assert forall|i: int, j: int| 0 <= i < kept.len() && 0 <= j < extra.len() implies kept[i]
        != extra[j] by {
        lemma_without_contains(added, kept, extra[j]);
        assert(extra.contains(extra[j]));
        if kept[i] == extra[j] {
            assert(kept.contains(extra[j]));
        }
    }
    vstd::seq_lib::lemma_no_dup_in_concat(kept, extra);
}

/// Dropping repetitions loses no value and brings none.
pub proof fn lemma_distinct_contains<T>(values: Seq<T>, value: T)
    ensures
        distinct(values).contains(value) <==> values.contains(value),
    decreases values.len(),
{
    if values.len() > 0 {
        let rest = values.drop_last();
        let last = values.last();
        let earlier = distinct(rest);
        lemma_distinct_contains(rest, value);
        lemma_distinct_contains(rest, last);
        assert(values =~= rest.push(last));
        if values.contains(value) {
            let i = choose|i: int| 0 <= i < values.len() && values[i] == value;
            if i < rest.len() {
                assert(rest[i] == value);
                assert(rest.contains(value));
                let k = choose|k: int| 0 <= k < earlier.len() && earlier[k] == value;
                assert(distinct(values)[k] == value);
            } else if earlier.contains(last) {
                let k = choose|k: int| 0 <= k < earlier.len() && earlier[k] == last;
                assert(distinct(values)[k] == value);
            } else {
                assert(distinct(values)[earlier.len() as int] == value);
            }
        }
        if distinct(values).contains(value) {
            let k = choose|k: int| 0 <= k < distinct(values).len() && distinct(values)[k]
                == value;
            if k < earlier.len() {
                assert(earlier[k] == value);
                assert(earlier.contains(value));
                let i = choose|i: int| 0 <= i < rest.len() && rest[i] == value;
                assert(values[i] == value);
            } else {
                assert(values[values.len() - 1] == value);
            }
        }
    }
}

/// Dropping repetitions leaves each value once, and leaves one where there
/// was one.
pub proof fn lemma_distinct_no_duplicates<T>(values: Seq<T>)
    ensures
        distinct(values).no_duplicates(),
        distinct(values).len() <= values.len(),
        values.len() > 0 ==> distinct(values).len() > 0,
    decreases values.len(),
{
    if values.len() > 0 {
        let rest = values.drop_last();
        lemma_distinct_no_duplicates(rest);
        lemma_distinct_contains(rest, values.last());
        if rest.len() == 0 {
            assert(!distinct(rest).contains(values.last()));
        }
    }
}

/// Values keep the order in which they were first seen: what dropping
/// repetitions makes of the first `n` values is the beginning of what it
/// makes of them all.
pub proof fn lemma_distinct_keeps_first_order<T>(values: Seq<T>, n: int)
    requires
        0 <= n <= values.len(),
    ensures
        distinct(values.take(n)).is_prefix_of(distinct(values)),
    decreases values.len() - n,
{
    if n == values.len() {
        assert(values.take(n) =~= values);
    } else {
        lemma_distinct_keeps_first_order(values, n + 1);
        assert(values.take(n + 1).drop_last() =~= values.take(n));
    }
}

/// A list without repetitions is what dropping repetitions makes of it.
pub proof fn lemma_distinct_of_no_duplicates<T>(values: Seq<T>)
    requires
        values.no_duplicates(),
    ensures
        distinct(values) == values,
    decreases values.len(),
{
    if values.len() > 0 {
        let rest = values.drop_last();
        lemma_distinct_of_no_duplicates(rest);
        if rest.contains(values.last()) {
            let i = choose|i: int| 0 <= i < rest.len() && rest[i] == values.last();
            assert(values[i] == values[values.len() - 1]);
        }
        assert(rest.push(values.last()) =~= values);
    }
}

} // verus!

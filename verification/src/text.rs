//! Text building blocks: identifiers in decimal notation, trailing
//! whitespace, and the semicolon-terminated lists that the server
//! configuration stores.

use vstd::prelude::*;

verus! {

/// The decimal digit that stands for `d`, for `0 <= d <= 9`.
pub open spec fn digit_char(d: nat) -> char {
    if d == 0 {
        '0'
    } else if d == 1 {
        '1'
    } else if d == 2 {
        '2'
    } else if d == 3 {
        '3'
    } else if d == 4 {
        '4'
    } else if d == 5 {
        '5'
    } else if d == 6 {
        '6'
    } else if d == 7 {
        '7'
    } else if d == 8 {
        '8'
    } else {
        '9'
    }
}

/// Whether `c` is one of the ten ASCII decimal digits.
pub open spec fn is_digit(c: char) -> bool {
    '0' <= c && c <= '9'
}

/// The value of the decimal digit `c`.
pub open spec fn digit_value(c: char) -> nat {
    (c as u32 - '0' as u32) as nat
}

/// The decimal notation of `n`, without sign and without leading zeros.
pub open spec fn decimal(n: nat) -> Seq<char>
    decreases n,
{
    if n < 10 {
        seq![digit_char(n)]
    } else {
        decimal(n / 10).push(digit_char(n % 10))
    }
}

/// The number that a run of decimal digits denotes, most significant digit first.
pub open spec fn digits_value(digits: Seq<char>) -> nat
    decreases digits.len(),
{
    if digits.len() == 0 {
        0
    } else {
        digits_value(digits.drop_last()) * 10 + digit_value(digits.last())
    }
}

/// Whether `text` is a non-empty run of decimal digits.
pub open spec fn all_digits(text: Seq<char>) -> bool {
    text.len() > 0 && forall|i: int| 0 <= i < text.len() ==> is_digit(#[trigger] text[i])
}

/// What remains of `text` once one leading plus sign, if there is one, is dropped.
pub open spec fn unsigned_part(text: Seq<char>) -> Seq<char> {
    if text.len() > 0 && text[0] == '+' {
        text.drop_first()
    } else {
        text
    }
}

/// The identifier that `text` denotes: an optional plus sign, then decimal
/// digits whose value fits in 64 bits. Anything else denotes nothing.
pub open spec fn parse_id(text: Seq<char>) -> Option<u64> {
    let digits = unsigned_part(text);
    if all_digits(digits) && digits_value(digits) <= u64::MAX {
        Some(digits_value(digits) as u64)
    } else {
        None
    }
}

/// Whether `c` has the Unicode property White_Space.
pub open spec fn is_whitespace(c: char) -> bool {
    let u = c as u32;
    ||| 0x09 <= u <= 0x0d
    ||| u == 0x20
    ||| u == 0x85
    ||| u == 0xa0
    ||| u == 0x1680
    ||| 0x2000 <= u <= 0x200a
    ||| u == 0x2028
    ||| u == 0x2029
    ||| u == 0x202f
    ||| u == 0x205f
    ||| u == 0x3000
}

/// `text` without its longest suffix of whitespace.
pub open spec fn trim_end(text: Seq<char>) -> Seq<char>
    decreases text.len(),
{
    if text.len() > 0 && is_whitespace(text.last()) {
        trim_end(text.drop_last())
    } else {
        text
    }
}

/// The text of a list value: every entry followed by a semicolon, in order.
pub open spec fn terminated_list(entries: Seq<Seq<char>>) -> Seq<char>
    decreases entries.len(),
{
    if entries.len() == 0 {
        Seq::empty()
    } else {
        terminated_list(entries.drop_last()) + entries.last().push(';')
    }
}

/// `text` cut at every `at`: what stands before the first one, between each
/// two, and behind the last one. A text without `at` is one piece.
pub open spec fn cut(text: Seq<char>, at: char) -> Seq<Seq<char>>
    decreases text.len(),
{
    if text.len() == 0 {
        seq![Seq::empty()]
    } else {
        let before = cut(text.drop_last(), at);
        if text.last() == at {
            before.push(Seq::empty())
        } else {
            before.drop_last().push(before.last().push(text.last()))
        }
    }
}

/// Whether `text` holds no `at`.
pub open spec fn free_of(text: Seq<char>, at: char) -> bool {
    forall|i: int| 0 <= i < text.len() ==> text[i] != at
}

/// The pieces into which its semicolons cut `text`.
pub open spec fn pieces(text: Seq<char>) -> Seq<Seq<char>> {
    cut(text, ';')
}

/// Whether `text` holds no semicolon.
pub open spec fn semicolon_free(text: Seq<char>) -> bool {
    free_of(text, ';')
}

/// The lines of `text`: the pieces into which its line feeds cut it. A
/// carriage return before a line feed belongs to the line that it ends.
pub open spec fn lines(text: Seq<char>) -> Seq<Seq<char>> {
    cut(text, '\n')
}

/// The decimal notations of `ids`, in order.
pub open spec fn decimals(ids: Seq<u64>) -> Seq<Seq<char>> {
    ids.map_values(|id: u64| decimal(id as nat))
}

/// The text of one decimal digit.
fn digit_text(d: u64) -> (text: &'static str)
    requires
        d < 10,
    ensures
        text@ == seq![digit_char(d as nat)],
{
    proof {
        reveal_strlit("0");
        reveal_strlit("1");
        reveal_strlit("2");
        reveal_strlit("3");
        reveal_strlit("4");
        reveal_strlit("5");
        reveal_strlit("6");
        reveal_strlit("7");
        reveal_strlit("8");
        reveal_strlit("9");
    }
    let text = if d == 0 {
        "0"
    } else if d == 1 {
        "1"
    } else if d == 2 {
        "2"
    } else if d == 3 {
        "3"
    } else if d == 4 {
        "4"
    } else if d == 5 {
        "5"
    } else if d == 6 {
        "6"
    } else if d == 7 {
        "7"
    } else if d == 8 {
        "8"
    } else {
        "9"
    };
    assert(text@ =~= seq![digit_char(d as nat)]);
    text
}

/// Appends the decimal notation of `n` to `text`.
fn append_decimal(text: &mut String, n: u64)
    ensures
        final(text)@ == old(text)@ + decimal(n as nat),
    decreases n,
{
    if n >= 10 {
        append_decimal(text, n / 10);
    }
    text.append(digit_text(n % 10));
    assert(text@ =~= old(text)@ + decimal(n as nat));
}

/// The decimal notation of `n`.
pub fn id_to_string(n: u64) -> (text: String)
    ensures
        text@ == decimal(n as nat),
{
    let mut text = String::new();
    append_decimal(&mut text, n);
    assert(text@ =~= decimal(n as nat));
    text
}

/// Whether `c` is whitespace.
fn char_is_whitespace(c: char) -> (white: bool)
    ensures
        white == is_whitespace(c),
{
    let u = c as u32;
    (0x09 <= u && u <= 0x0d) || u == 0x20 || u == 0x85 || u == 0xa0 || u == 0x1680 || (0x2000 <= u
        && u <= 0x200a) || u == 0x2028 || u == 0x2029 || u == 0x202f || u == 0x205f || u == 0x3000
}

/// `text` without its trailing whitespace.
pub fn trim_end_of(text: &str) -> (trimmed: &str)
    ensures
        trimmed@ == trim_end(text@),
{
    broadcast use vstd::string::group_string_axioms;

    let total = text.unicode_len();
    let mut end: usize = 0;
    let mut seen: usize = 0;
    assert(text@.take(0) =~= Seq::<char>::empty());
    for c in it: text.chars()
        invariant
            it.seq() == text@,
            text@.len() == total,
            seen == it.index(),
            end <= seen,
            trim_end(text@.take(seen as int)) == text@.take(end as int),
    {
        assert(text@.take(seen + 1).drop_last() =~= text@.take(seen as int));
        seen = seen + 1;
        if !char_is_whitespace(c) {
            end = seen;
        }
    }
    assert(text@.take(text@.len() as int) =~= text@);
    let trimmed = text.substring_char(0, end);
    assert(trimmed@ =~= text@.take(end as int));
    trimmed
}

/// The digits of a longer run denote at least what its first digits denote.
proof fn lemma_digits_value_grows(digits: Seq<char>, n: int)
    requires
        0 <= n <= digits.len(),
    ensures
        digits_value(digits.take(n)) <= digits_value(digits),
    decreases digits.len() - n,
{
    if n == digits.len() {
        assert(digits.take(n) =~= digits);
    } else {
        lemma_digits_value_grows(digits, n + 1);
        assert(digits.take(n + 1).drop_last() =~= digits.take(n));
    }
}

/// Reads an identifier: an optional plus sign, then decimal digits whose
/// value fits in 64 bits.
pub fn read_id(text: &str) -> (id: Option<u64>)
    ensures
        id == parse_id(text@),
{
    broadcast use vstd::string::group_string_axioms;

    let total = text.unicode_len();
    let mut signed: bool = false;
    let mut seen: usize = 0;
    let mut value: u64 = 0;
    let ghost mut start: int = 0;
    assert(text@.subrange(0, 0) =~= Seq::<char>::empty());
    for c in it: text.chars()
        invariant
            it.seq() == text@,
            text@.len() == total,
            seen == it.index(),
            start == if signed { 1int } else { 0int },
            signed ==> seen >= 1 && text@[0] == '+',
            !signed && seen >= 1 ==> text@[0] != '+',
            value == digits_value(text@.subrange(start, seen as int)),
            forall|k: int| start <= k < seen ==> is_digit(#[trigger] text@[k]),
    {
        let ghost digits = unsigned_part(text@);
        if seen == 0 && c == '+' {
            signed = true;
            proof {
                start = 1;
                assert(text@.subrange(1, 1) =~= Seq::<char>::empty());
            }
        } else {
            assert(digits =~= text@.subrange(start, text@.len() as int));
            if !(c >= '0' && c <= '9') {
                assert(!is_digit(digits[seen - start]));
                return None;
            }
            let digit = (c as u32 - '0' as u32) as u64;
            let ghost before = text@.subrange(start, seen as int);
            let ghost after = text@.subrange(start, seen + 1);
            assert(after.drop_last() =~= before);
            assert(after.last() == c);
            assert(after =~= digits.take(seen + 1 - start));
            proof {
                lemma_digits_value_grows(digits, seen + 1 - start);
            }
            value = match value.checked_mul(10) {
                Some(tens) => match tens.checked_add(digit) {
                    Some(sum) => sum,
                    None => { return None; },
                },
                None => { return None; },
            };
        }
        seen = seen + 1;
    }
    let ghost digits = unsigned_part(text@);
    assert(digits =~= text@.subrange(start, text@.len() as int));
    if signed {
        if seen == 1 {
            None
        } else {
            Some(value)
        }
    } else if seen == 0 {
        None
    } else {
        Some(value)
    }
}

/// Whether `needle` occurs in `haystack`.
pub fn contains_id(haystack: &Vec<u64>, needle: u64) -> (found: bool)
    ensures
        found == haystack@.contains(needle),
{
    let mut i: usize = 0;
    while i < haystack.len()
        invariant
            i <= haystack.len(),
            forall|j: int| 0 <= j < i ==> haystack@[j] != needle,
        decreases haystack.len() - i,
    {
        if haystack[i] == needle {
            return true;
        }
        i = i + 1;
    }
    false
}

/// Whether `needle` occurs in `haystack`, compared character by character.
pub fn contains_text(haystack: &Vec<String>, needle: &String) -> (found: bool)
    ensures
        found == haystack.deep_view().contains(needle@),
{
    let mut i: usize = 0;
    while i < haystack.len()
        invariant
            i <= haystack.len(),
            forall|j: int| 0 <= j < i ==> haystack.deep_view()[j] != needle@,
        decreases haystack.len() - i,
    {
        if haystack[i] == *needle {
            assert(haystack.deep_view()[i as int] == needle@);
            return true;
        }
        i = i + 1;
    }
    false
}

/// Writes `entries` as a list value, each one followed by a semicolon.
pub fn write_list(entries: &Vec<String>) -> (text: String)
    ensures
        text@ == terminated_list(entries.deep_view()),
{
    let mut text = String::new();
    let mut i: usize = 0;
    while i < entries.len()
        invariant
            i <= entries.len(),
            text@ == terminated_list(entries.deep_view().take(i as int)),
        decreases entries.len() - i,
    {
        proof {
            reveal_strlit(";");
            let done = entries.deep_view().take(i as int);
            let next = entries.deep_view().take(i + 1);
            assert(next.drop_last() =~= done);
            assert(next.last() == entries[i as int]@);
            assert(";"@ =~= seq![';']);
            assert(text@ + entries[i as int]@ + seq![';'] =~= text@ + entries[i as int]@.push(';'));
        }
        text.append(entries[i].as_str());
        text.append(";");
        i = i + 1;
    }
    assert(entries.deep_view().take(entries.len() as int) =~= entries.deep_view());
    text
}

/// Writes `ids` as a list value: each in decimal, followed by a semicolon.
pub fn write_id_list(ids: &Vec<u64>) -> (text: String)
    ensures
        text@ == terminated_list(decimals(ids@)),
{
    let mut text = String::new();
    let mut i: usize = 0;
    while i < ids.len()
        invariant
            i <= ids.len(),
            text@ == terminated_list(decimals(ids@.take(i as int))),
        decreases ids.len() - i,
    {
        let digits = id_to_string(ids[i]);
        proof {
            reveal_strlit(";");
            let done = decimals(ids@.take(i as int));
            let next = decimals(ids@.take(i + 1));
            assert(next.drop_last() =~= done);
            assert(next.last() == digits@);
            assert(";"@ =~= seq![';']);
            assert(text@ + digits@ + seq![';'] =~= text@ + digits@.push(';'));
        }
        text.append(digits.as_str());
        text.append(";");
        i = i + 1;
    }
    assert(ids@.take(ids.len() as int) =~= ids@);
    text
}

/// A decimal digit stands for its value.
pub proof fn lemma_digit_char(d: nat)
    requires
        d < 10,
    ensures
        is_digit(digit_char(d)),
        digit_value(digit_char(d)) == d,
        digit_char(d) != ';',
        digit_char(d) != '+',
{
}

/// A decimal notation is made of digits and denotes its number.
pub proof fn lemma_decimal_digits(n: nat)
    ensures
        all_digits(decimal(n)),
        digits_value(decimal(n)) == n,
        semicolon_free(decimal(n)),
        decimal(n)[0] != '+',
    decreases n,
{
    if n < 10 {
        lemma_digit_char(n);
        assert(decimal(n).drop_last() =~= Seq::<char>::empty());
        assert(digits_value(decimal(n).drop_last()) == 0);
    } else {
        lemma_decimal_digits(n / 10);
        lemma_digit_char(n % 10);
        let shorter = decimal(n / 10);
        assert(decimal(n).drop_last() =~= shorter);
        assert(decimal(n).last() == digit_char(n % 10));
        assert forall|i: int| 0 <= i < decimal(n).len() implies is_digit(
            #[trigger] decimal(n)[i],
        ) by {
            if i < shorter.len() {
                assert(decimal(n)[i] == shorter[i]);
            }
        }
        assert(decimal(n)[0] == shorter[0]);
    }
}

/// An identifier is read back from its decimal notation.
pub proof fn lemma_decimal_reads_back(id: u64)
    ensures
        parse_id(decimal(id as nat)) == Some(id),
{
    lemma_decimal_digits(id as nat);
}

/// Trimming takes characters from the end only, leaves no whitespace at
/// the end, and has nothing to do on its own result.
pub proof fn lemma_trim_end(text: Seq<char>)
    ensures
        trim_end(text).is_prefix_of(text),
        trim_end(text).len() > 0 ==> !is_whitespace(trim_end(text).last()),
        trim_end(trim_end(text)) == trim_end(text),
    decreases text.len(),
{
    if text.len() > 0 && is_whitespace(text.last()) {
        lemma_trim_end(text.drop_last());
    }
}

/// A text without whitespace at its end is left as it is.
pub proof fn lemma_trim_end_keeps(text: Seq<char>)
    requires
        text.len() > 0 ==> !is_whitespace(text.last()),
    ensures
        trim_end(text) == text,
{
}

/// Cutting always gives a piece, and no piece holds what the text was cut
/// at.
pub proof fn lemma_cut(text: Seq<char>, at: char)
    ensures
        cut(text, at).len() > 0,
        forall|i: int| 0 <= i < cut(text, at).len() ==> free_of(#[trigger] cut(text, at)[i], at),
    decreases text.len(),
{
    if text.len() > 0 {
        lemma_cut(text.drop_last(), at);
    }
}

/// Cutting a text and a text without `at` behind it: the second text joins
/// the last piece of the first.
pub proof fn lemma_cut_extend(text: Seq<char>, more: Seq<char>, at: char)
    requires
        free_of(more, at),
    ensures
        cut(text + more, at) == cut(text, at).drop_last().push(cut(text, at).last() + more),
    decreases more.len(),
{
    lemma_cut(text, at);
    if more.len() == 0 {
        assert(text + more =~= text);
        assert(cut(text, at).last() + more =~= cut(text, at).last());
        assert(cut(text, at).drop_last().push(cut(text, at).last()) =~= cut(text, at));
    } else {
        let shorter = more.drop_last();
        lemma_cut_extend(text, shorter, at);
        assert((text + more).drop_last() =~= text + shorter);
        assert((text + more).last() == more.last());
        assert(more.last() == more[more.len() - 1]);
        let before = cut(text + shorter, at);
        assert(before.drop_last() =~= cut(text, at).drop_last());
        assert(before.last().push(more.last()) =~= cut(text, at).last() + more);
    }
}

/// Cutting two texts, one behind the other: the pieces of the first, then
/// those of the second, with the last piece of the first and the first
/// piece of the second joined into one.
pub proof fn lemma_cut_concat(first: Seq<char>, second: Seq<char>, at: char)
    ensures
        cut(first + second, at) == cut(first, at).drop_last().push(
            cut(first, at).last() + cut(second, at).first(),
        ) + cut(second, at).drop_first(),
    decreases second.len(),
{
    lemma_cut(first, at);
    lemma_cut(second, at);
    let head = cut(first, at).drop_last();
    let joint = cut(first, at).last();
    if second.len() == 0 {
        assert(first + second =~= first);
        assert(joint + cut(second, at).first() =~= joint);
        assert(head.push(joint) + cut(second, at).drop_first() =~= cut(first, at));
    } else {
        let shorter = second.drop_last();
        let c = second.last();
        lemma_cut_concat(first, shorter, at);
        lemma_cut(shorter, at);
        lemma_cut(first + shorter, at);
        assert((first + second).drop_last() =~= first + shorter);
        assert((first + second).last() == c);
        let before = cut(first + shorter, at);
        let short = cut(shorter, at);
        assert(before == head.push(joint + short.first()) + short.drop_first());
        if c == at {
            assert(cut(second, at) == short.push(Seq::empty()));
            assert(cut(second, at).first() == short.first());
            assert(cut(second, at).drop_first() =~= short.drop_first().push(Seq::empty()));
            assert(cut(first + second, at) =~= head.push(joint + cut(second, at).first()) + cut(
                second,
                at,
            ).drop_first());
        } else {
            assert(cut(second, at) == short.drop_last().push(short.last().push(c)));
            if short.len() == 1 {
                assert(short.drop_first() =~= Seq::<Seq<char>>::empty());
                assert(before =~= head.push(joint + short.first()));
                assert(cut(second, at).first() =~= short.first().push(c));
                assert(cut(second, at).drop_first() =~= Seq::<Seq<char>>::empty());
                assert((joint + short.first()).push(c) =~= joint + cut(second, at).first());
                assert(cut(first + second, at) =~= head.push(joint + cut(second, at).first())
                    + cut(second, at).drop_first());
            } else {
                assert(cut(second, at).first() == short.first());
                assert(before.last() == short.last());
                assert(cut(second, at).drop_first() =~= short.drop_first().drop_last().push(
                    short.last().push(c),
                ));
                assert(before.drop_last() =~= head.push(joint + short.first())
                    + short.drop_first().drop_last());
                assert(cut(first + second, at) =~= head.push(joint + cut(second, at).first())
                    + cut(second, at).drop_first());
            }
        }
    }
}

/// A list value whose entries hold no semicolon is cut into these entries,
/// and one empty piece behind the last semicolon.
pub proof fn lemma_list_reads_back(entries: Seq<Seq<char>>)
    requires
        forall|i: int| 0 <= i < entries.len() ==> semicolon_free(#[trigger] entries[i]),
    ensures
        pieces(terminated_list(entries)) == entries.push(Seq::empty()),
    decreases entries.len(),
{
    if entries.len() == 0 {
        assert(pieces(terminated_list(entries)) =~= entries.push(Seq::empty()));
    } else {
        let earlier = entries.drop_last();
        let last = entries.last();
        lemma_list_reads_back(earlier);
        let head = terminated_list(earlier);
        lemma_cut_extend(head, last, ';');
        let text = terminated_list(entries);
        assert(text =~= (head + last).push(';'));
        assert(text.drop_last() =~= head + last);
        assert(pieces(head).last() + last =~= last);
        assert(pieces(head).drop_last() =~= earlier);
        assert(pieces(text) =~= entries.push(Seq::empty()));
    }
}

/// The workshop items value is cut into the decimal notations of its
/// identifiers, each of which reads back as its identifier.
pub proof fn lemma_id_list_reads_back(ids: Seq<u64>)
    ensures
        pieces(terminated_list(decimals(ids))) == decimals(ids).push(Seq::empty()),
        forall|i: int| 0 <= i < ids.len() ==> parse_id(#[trigger] decimals(ids)[i]) == Some(ids[i]),
{
    assert forall|i: int| 0 <= i < decimals(ids).len() implies semicolon_free(
        #[trigger] decimals(ids)[i],
    ) by {
        lemma_decimal_digits(ids[i] as nat);
    }
    lemma_list_reads_back(decimals(ids));
    assert forall|i: int| 0 <= i < ids.len() implies parse_id(#[trigger] decimals(ids)[i])
        == Some(ids[i]) by {
        lemma_decimal_reads_back(ids[i]);
    }
}

} // verus!

//! What holds of the text helpers.

use vstd::prelude::*;

use crate::json;
use crate::json::JsonValue;
use crate::text;

verus! {

/// Trimmed text is what is left of a text between white space: it begins and ends with
/// none, and only white space is left out.
pub proof fn law_trimming_takes_white_space_only(given: Seq<char>)
    ensures
        ({
            let left = text::trimmed(given);
            &&& left.len() > 0 ==> !text::is_white_space(left[0])
            &&& left.len() > 0 ==> !text::is_white_space(left.last())
            &&& exists|before: Seq<char>, after: Seq<char>|
                #![trigger before + left + after]
                given == before + left + after && text::is_blank(before) && text::is_blank(after)
        }),
{
    let start = text::trim_start(given);
    let left = text::trimmed(given);
    text::lemma_trim_start(given);
    text::lemma_trim_end(start);
    lemma_start_cut(given);
    lemma_end_cut(start);
    let before = given.take(given.len() - start.len());
    let after = start.skip(left.len() as int);
    assert(given =~= before + left + after);
}

proof fn lemma_start_cut(given: Seq<char>)
    ensures
        ({
            let left = text::trim_start(given);
            &&& left.len() <= given.len()
            &&& left == given.skip(given.len() - left.len())
            &&& text::is_blank(given.take(given.len() - left.len()))
        }),
    decreases given.len(),
{
    if given.len() > 0 && text::is_white_space(given[0]) {
        let rest = given.skip(1);
        let left = text::trim_start(given);
        lemma_start_cut(rest);
        assert(left =~= given.skip(given.len() - left.len()));
        let cut = given.take(given.len() - left.len());
        assert forall|i: int| 0 <= i < cut.len() implies text::is_white_space(
            #[trigger] cut[i],
        ) by {
            if i > 0 {
                assert(cut[i] == rest.take(rest.len() - left.len())[i - 1]);
            }
        }
    } else {
        assert(given.skip(0) =~= given);
    }
}

proof fn lemma_end_cut(given: Seq<char>)
    ensures
        ({
            let left = text::trim_end(given);
            &&& left.len() <= given.len()
            &&& left == given.take(left.len() as int)
            &&& text::is_blank(given.skip(left.len() as int))
            &&& left.len() > 0 ==> !text::is_white_space(left.last())
        }),
    decreases given.len(),
{
    if given.len() > 0 && text::is_white_space(given.last()) {
        let rest = given.drop_last();
        let left = text::trim_end(given);
        lemma_end_cut(rest);
        assert(left =~= given.take(left.len() as int));
        let cut = given.skip(left.len() as int);
        assert forall|i: int| 0 <= i < cut.len() implies text::is_white_space(
            #[trigger] cut[i],
        ) by {
            if i < cut.len() - 1 {
                assert(cut[i] == rest.skip(left.len() as int)[i]);
            }
        }
    } else {
        assert(given.take(given.len() as int) =~= given);
    }
}

proof fn lemma_found(given: Seq<char>, mark: Seq<char>, from: nat)
    ensures
        match text::find_from(given, mark, from) {
            Some(at) => {
                &&& from <= at
                &&& at + mark.len() <= given.len()
                &&& given.subrange(at as int, (at + mark.len()) as int) == mark
                &&& forall|j: nat|
                    #![trigger given.subrange(j as int, (j + mark.len()) as int)]
                    from <= j < at ==> given.subrange(j as int, (j + mark.len()) as int) != mark
            },
            None => forall|j: nat|
                #![trigger given.subrange(j as int, (j + mark.len()) as int)]
                from <= j && j + mark.len() <= given.len() ==> given.subrange(
                    j as int,
                    (j + mark.len()) as int,
                ) != mark,
        },
    decreases given.len() + 1 - from,
{
    if from + mark.len() <= given.len() && given.subrange(
        from as int,
        (from + mark.len()) as int,
    ) != mark {
        lemma_found(given, mark, from + 1);
    }
}

/// A text is what stands before its first mark, the mark and what stands behind it; the
/// mark does not begin earlier. Without a mark all of it stands before.
pub proof fn law_mark_parts_the_text(given: Seq<char>, mark: Seq<char>, j: nat)
    ensures
        match text::after_mark(given, mark) {
            Some(after) => {
                let before = text::before_mark(given, mark);
                &&& given == before + mark + after
                &&& j < before.len() ==> given.subrange(j as int, (j + mark.len()) as int) != mark
            },
            None => {
                &&& text::before_mark(given, mark) == given
                &&& j + mark.len() <= given.len() ==> given.subrange(
                    j as int,
                    (j + mark.len()) as int,
                ) != mark
            },
        },
{
    lemma_found(given, mark, 0);
    if let Some(at) = text::find_from(given, mark, 0) {
        let before = text::before_mark(given, mark);
        let after = text::after_mark(given, mark)->0;
        assert(given.take(at as int) + given.subrange(at as int, (at + mark.len()) as int)
            + given.skip((at + mark.len()) as int) =~= given);
    }
}

/// A text without some leading character is the rest of it: it does not begin with that,
/// and only that is left out.
pub proof fn law_only_leading_characters_go(given: Seq<char>, c: char)
    ensures
        ({
            let left = text::without_leading(given, c);
            &&& left.len() <= given.len()
            &&& left.len() > 0 ==> left[0] != c
            &&& left == given.skip(given.len() - left.len())
            &&& forall|i: int|
                #![trigger given[i]]
                0 <= i < given.len() - left.len() ==> given[i] == c
        }),
    decreases given.len(),
{
    if given.len() > 0 && given[0] == c {
        let rest = given.skip(1);
        let left = text::without_leading(given, c);
        law_only_leading_characters_go(rest, c);
        assert(left =~= given.skip(given.len() - left.len()));
        assert forall|i: int| #![trigger given[i]] 0 <= i < given.len() - left.len() implies
            given[i] == c by {
            if i > 0 {
                assert(rest[i - 1] == given[i]);
            }
        }
    } else {
        assert(given.skip(0) =~= given);
    }
}

/// Numbers are written in decimal digits, the highest first.
pub proof fn law_decimal_digits(n: nat)
    ensures
        n < 10 ==> text::decimal(n) == seq![text::digit(n)],
        n >= 10 ==> text::decimal(n) == text::decimal(n / 10).push(text::digit(n % 10)),
        text::digit(0) == '0',
        text::digit(9) == '9',
{
    assert(Seq::<char>::empty().push(text::digit(n)) =~= seq![text::digit(n)]);
}

/// Only the twenty-six capital letters of ASCII are made small.
pub proof fn law_only_capitals_are_lowered(given: Seq<char>, i: int)
    requires
        0 <= i < given.len(),
    ensures
        text::lowered(given).len() == given.len(),
        !('A' <= given[i] && given[i] <= 'Z') ==> text::lowered(given)[i] == given[i],
        'A' <= given[i] && given[i] <= 'Z' ==> text::lowered(given)[i] as u32 == given[i] as u32
            + 32,
{
}

/// The member of an object under a key is the first of that name.
pub proof fn law_first_member_counts(fields: Seq<(String, JsonValue)>, key: Seq<char>, k: int)
    ensures
        0 <= k < fields.len() && fields[k].0@ == key && (forall|i: int|
            #![trigger fields[i]]
            0 <= i < k ==> fields[i].0@ != key) ==> json::member_from(fields, key, 0) == Some(
            fields[k].1,
        ),
        (forall|i: int| #![trigger fields[i]] 0 <= i < fields.len() ==> fields[i].0@ != key)
            ==> json::member_from(fields, key, 0) is None,
{
    lemma_member_from(fields, key, 0, k);
}

proof fn lemma_member_from(fields: Seq<(String, JsonValue)>, key: Seq<char>, from: int, k: int)
    requires
        0 <= from,
    ensures
        from <= k < fields.len() && fields[k].0@ == key && (forall|i: int|
            #![trigger fields[i]]
            from <= i < k ==> fields[i].0@ != key) ==> json::member_from(fields, key, from)
            == Some(fields[k].1),
        (forall|i: int| #![trigger fields[i]] from <= i < fields.len() ==> fields[i].0@ != key)
            ==> json::member_from(fields, key, from) is None,
    decreases fields.len() - from,
{
    if from < fields.len() {
        lemma_member_from(fields, key, from + 1, k);
    }
}

} // verus!

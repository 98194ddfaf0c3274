//! Asking the user which keys to remove, and understanding the answer.

use vstd::prelude::*;

use crate::error::Error;
#[allow(unused_imports)]
use crate::error::ErrorView;
use crate::keychain::{sort_entries, KeychainEntry, SecretKind};
#[allow(unused_imports)]
use crate::keychain::{
    entry_views, in_order, kind_name, law_sorted_form_sorts, law_sorting_is_unique, sorted_form,
    sorts,
};
use crate::numbers::{read_number, write_number};
#[allow(unused_imports)]
use crate::numbers::{
    all_zeros, decimal, is_digit, law_decimal_denotes_the_number, law_number_round_trip,
    law_zeros_and_digits_denote_the_number, number, NumberFault,
};
use crate::text::{chars_of, equal_ignoring_ascii_case, same_text, split, trim};
#[allow(unused_imports)]
use crate::text::{
    is_white_space, law_trimming_takes_only_white_space, same_ignoring_ascii_case, split_on, texts,
    trim_end, trim_start, trimmed,
};

verus! {

/// The line that offers the entry at position `i`.
pub open spec fn menu_line(i: int, e: (Seq<char>, SecretKind)) -> Seq<char> {
    "  "@ + decimal((i + 1) as nat) + ". "@ + e.0 + " "@ + kind_name(e.1)
}

/// The menu of the keys that may be removed.
pub open spec fn menu(entries: Seq<(Seq<char>, SecretKind)>) -> Seq<Seq<char>> {
    seq!["Select mnemo API keys to remove:"@] + Seq::new(
        entries.len(),
        |i: int| menu_line(i, entries[i]),
    ) + seq!["Enter numbers separated by commas, or 'all'. Leave blank to cancel."@]
}

/// The menu of the keys that may be removed.
pub fn keychain_menu(entries: &Vec<KeychainEntry>) -> (lines: Vec<String>)
    ensures
        texts(lines@) == menu(entry_views(entries@)),
{
    let ghost all: Seq<(Seq<char>, SecretKind)> = entry_views(entries@);
    let ghost offers: Seq<Seq<char>> = Seq::new(all.len(), |i: int| menu_line(i, all[i]));
    let ghost title: Seq<Seq<char>> = seq!["Select mnemo API keys to remove:"@];
    let mut lines: Vec<String> = Vec::new();
    lines.push("Select mnemo API keys to remove:".to_owned());
    assert(texts(lines@) == title + offers.take(0));
    let mut i: usize = 0;
    while i < entries.len()
        invariant
            i <= entries.len(),
            all == entry_views(entries@),
            offers == Seq::new(all.len(), |i: int| menu_line(i, all[i])),
            texts(lines@) == title + offers.take(i as int),
        decreases entries.len() - i,
    {
        let ghost before: Seq<String> = lines@;
        let mut line: String = "  ".to_owned();
        let shown: String = write_number(i as u64 + 1);
        line.append(shown.as_str());
        line.append(". ");
        line.append(entries[i].profile.as_str());
        line.append(" ");
        line.append(entries[i].kind.name());
        assert(all[i as int] == entries@[i as int]@);
        assert(line@ == offers[i as int]);
        lines.push(line);
        assert(texts(lines@) == texts(before).push(offers[i as int]));
        assert(offers.take(i + 1) == offers.take(i as int).push(offers[i as int]));
        assert(title + offers.take(i + 1) == (title + offers.take(i as int)).push(
            offers[i as int],
        ));
        i += 1;
    }
    assert(offers.take(i as int) == offers);
    let ghost before: Seq<String> = lines@;
    lines.push(
        "Enter numbers separated by commas, or 'all'. Leave blank to cancel.".to_owned(),
    );
    assert(texts(lines@) == texts(before).push(
        "Enter numbers separated by commas, or 'all'. Leave blank to cancel."@,
    ));
    lines
}

/// The entry that one part of an answer picks: that with its number in the menu, where the number
/// zero picks the first entry, too.
pub open spec fn picked(part: Seq<char>, entries: Seq<(Seq<char>, SecretKind)>) -> Result<
    (Seq<char>, SecretKind),
    ErrorView,
> {
    match number(trimmed(part)) {
        Err(fault) => Err(ErrorView::InvalidSelection { part, fault }),
        Ok(n) => {
            let at: int = if n == 0 {
                0
            } else {
                n - 1
            };
            if at < entries.len() {
                Ok(entries[at])
            } else {
                Err(ErrorView::SelectionOutOfRange { index: n })
            }
        },
    }
}

/// The entries that the parts of an answer pick, or the fault of the first part that picks none.
pub open spec fn all_picked(
    parts: Seq<Seq<char>>,
    entries: Seq<(Seq<char>, SecretKind)>,
) -> Result<Seq<(Seq<char>, SecretKind)>, ErrorView>
    decreases parts.len(),
{
    if parts.len() == 0 {
        Ok(Seq::empty())
    } else {
        match all_picked(parts.drop_last(), entries) {
            Err(e) => Err(e),
            Ok(front) => match picked(parts.last(), entries) {
                Err(e) => Err(e),
                Ok(last) => Ok(front.push(last)),
            },
        }
    }
}

/// Whether `chosen` is what the answer selects: nothing for a blank answer, everything for `all`,
/// and otherwise the entries with the given numbers, each one once and in order.
pub open spec fn selects(
    answer: Seq<char>,
    entries: Seq<(Seq<char>, SecretKind)>,
    chosen: Result<Seq<(Seq<char>, SecretKind)>, ErrorView>,
) -> bool {
    let said = trimmed(answer);
    if said.len() == 0 {
        chosen == Ok::<Seq<(Seq<char>, SecretKind)>, ErrorView>(Seq::empty())
    } else if same_ignoring_ascii_case(said, "all"@) {
        chosen == Ok::<Seq<(Seq<char>, SecretKind)>, ErrorView>(entries)
    } else {
        match all_picked(split_on(said, ','), entries) {
            Err(e) => chosen == Err::<Seq<(Seq<char>, SecretKind)>, ErrorView>(e),
            Ok(numbered) => chosen is Ok && sorts(chosen->Ok_0, numbered),
        }
    }
}

/// The view of a selection or of what is wrong with it.
pub open spec fn selection_view(r: Result<Vec<KeychainEntry>, Error>) -> Result<
    Seq<(Seq<char>, SecretKind)>,
    ErrorView,
> {
    match r {
        Ok(entries) => Ok(entry_views(entries@)),
        Err(e) => Err(e@),
    }
}

/// Whatever follows a bad part, the bad part decides.
proof fn lemma_first_bad_part_decides(
    parts: Seq<Seq<char>>,
    entries: Seq<(Seq<char>, SecretKind)>,
    upto: int,
    e: ErrorView,
)
    requires
        0 <= upto <= parts.len(),
        all_picked(parts.take(upto), entries) == Err::<Seq<(Seq<char>, SecretKind)>, ErrorView>(e),
    ensures
        all_picked(parts, entries) == Err::<Seq<(Seq<char>, SecretKind)>, ErrorView>(e),
    decreases parts.len(),
{
    if upto == parts.len() {
        assert(parts.take(upto) == parts);
    } else {
        assert(parts.drop_last().take(upto) == parts.take(upto));
        lemma_first_bad_part_decides(parts.drop_last(), entries, upto, e);
    }
}

/// Copies of all entries.
pub fn copy_entries(entries: &Vec<KeychainEntry>) -> (copies: Vec<KeychainEntry>)
    ensures
        entry_views(copies@) == entry_views(entries@),
{
    let mut copies: Vec<KeychainEntry> = Vec::new();
    let mut i: usize = 0;
    while i < entries.len()
        invariant
            i <= entries.len(),
            entry_views(copies@) == entry_views(entries@).take(i as int),
        decreases entries.len() - i,
    {
        let ghost before: Seq<KeychainEntry> = copies@;
        copies.push(entries[i].copy());
        i += 1;
        assert(entry_views(copies@) == entry_views(before).push(entries@[i - 1]@));
        assert(entry_views(entries@).take(i as int) == entry_views(entries@).take(i - 1).push(
            entries@[i - 1]@,
        ));
    }
    assert(entry_views(entries@).take(i as int) == entry_views(entries@));
    copies
}

/// The entries that an answer to the menu selects.
pub fn select_keychain_entries(answer: &str, entries: &Vec<KeychainEntry>) -> (r: Result<
    Vec<KeychainEntry>,
    Error,
>)
    ensures
        selects(answer@, entry_views(entries@), selection_view(r)),
{
    let ghost all: Seq<(Seq<char>, SecretKind)> = entry_views(entries@);
    let chars: Vec<char> = chars_of(answer);
    let said: &[char] = trim(chars.as_slice());
    if said.len() == 0 {
        let none: Vec<KeychainEntry> = Vec::new();
        assert(entry_views(none@) == Seq::<(Seq<char>, SecretKind)>::empty());
        return Ok(none);
    }
    let everything: Vec<char> = chars_of("all");
    if equal_ignoring_ascii_case(said, everything.as_slice()) {
        return Ok(copy_entries(entries));
    }
    let parts: Vec<String> = split(said, ',');
    let ghost wanted: Seq<Seq<char>> = texts(parts@);
    let mut numbered: Vec<KeychainEntry> = Vec::new();
    let mut i: usize = 0;
    assert(wanted.take(0) == Seq::<Seq<char>>::empty());
    assert(entry_views(numbered@) == Seq::<(Seq<char>, SecretKind)>::empty());
    while i < parts.len()
        invariant
            i <= parts.len(),
            said@ == trimmed(answer@),
            said@.len() > 0,
            !same_ignoring_ascii_case(said@, "all"@),
            wanted == texts(parts@),
            wanted == split_on(said@, ','),
            all == entry_views(entries@),
            all_picked(wanted.take(i as int), all) == Ok::<
                Seq<(Seq<char>, SecretKind)>,
                ErrorView,
            >(entry_views(numbered@)),
        decreases parts.len() - i,
    {
        assert(wanted.take(i + 1).drop_last() == wanted.take(i as int));
        assert(wanted.take(i + 1).last() == parts@[i as int]@);
        let part: Vec<char> = chars_of(parts[i].as_str());
        let index: usize = match read_number(trim(part.as_slice())) {
            Ok(n) => n,
            Err(fault) => {
                proof {
                    lemma_first_bad_part_decides(
                        wanted,
                        all,
                        i + 1,
                        ErrorView::InvalidSelection { part: part@, fault },
                    );
                }
                return Err(Error::InvalidSelection { part: parts[i].clone(), fault });
            },
        };
        let at: usize = if index == 0 {
            0
        } else {
            index - 1
        };
        if at >= entries.len() {
            proof {
                lemma_first_bad_part_decides(
                    wanted,
                    all,
                    i + 1,
                    ErrorView::SelectionOutOfRange { index: index as nat },
                );
            }
            return Err(Error::SelectionOutOfRange { index });
        }
        let ghost before: Seq<KeychainEntry> = numbered@;
        numbered.push(entries[at].copy());
        assert(entry_views(numbered@) == entry_views(before).push(all[at as int]));
        i += 1;
    }
    assert(wanted.take(i as int) == wanted);
    Ok(sort_entries(&numbered))
}

/// What an answer to the menu selects.
pub open spec fn selection_of(
    answer: Seq<char>,
    entries: Seq<(Seq<char>, SecretKind)>,
) -> Result<Seq<(Seq<char>, SecretKind)>, ErrorView> {
    choose|chosen: Result<Seq<(Seq<char>, SecretKind)>, ErrorView>|
        selects(answer, entries, chosen)
}

/// An answer selects one thing only.
pub proof fn lemma_selection_of(
    answer: Seq<char>,
    entries: Seq<(Seq<char>, SecretKind)>,
    chosen: Result<Seq<(Seq<char>, SecretKind)>, ErrorView>,
)
    requires
        selects(answer, entries, chosen),
    ensures
        selection_of(answer, entries) == chosen,
{
    let other = selection_of(answer, entries);
    assert(selects(answer, entries, other));
    if all_picked(split_on(trimmed(answer), ','), entries) is Ok && chosen is Ok && other is Ok {
        let numbered = all_picked(split_on(trimmed(answer), ','), entries)->Ok_0;
        if sorts(chosen->Ok_0, numbered) && sorts(other->Ok_0, numbered) {
            law_sorting_is_unique(chosen->Ok_0, other->Ok_0, numbered);
        }
    }
}

/// Digits are not white space, so a number stands as it is.
proof fn lemma_number_is_trimmed(n: nat)
    ensures
        trimmed(decimal(n)) == decimal(n),
{
    law_decimal_denotes_the_number(n);
    let s = decimal(n);
    assert(is_digit(s[0]));
    assert(is_digit(s[s.len() - 1]));
    assert(trim_start(s) == s);
    assert(trim_end(s) == s);
}

/// The number beside an entry in the menu picks that entry.
pub proof fn law_menu_number_picks_its_entry(entries: Seq<(Seq<char>, SecretKind)>, i: int)
    requires
        0 <= i < entries.len() <= usize::MAX,
    ensures
        picked(decimal((i + 1) as nat), entries) == Ok::<(Seq<char>, SecretKind), ErrorView>(
            entries[i],
        ),
{
    lemma_number_is_trimmed((i + 1) as nat);
    law_number_round_trip((i + 1) as nat);
}

/// Every answer selects something, or is refused.
pub proof fn law_every_answer_is_understood(
    answer: Seq<char>,
    entries: Seq<(Seq<char>, SecretKind)>,
)
    ensures
        selects(answer, entries, selection_of(answer, entries)),
{
    let said = trimmed(answer);
    let chosen: Result<Seq<(Seq<char>, SecretKind)>, ErrorView> = if said.len() == 0 {
        Ok(Seq::empty())
    } else if same_ignoring_ascii_case(said, "all"@) {
        Ok(entries)
    } else {
        match all_picked(split_on(said, ','), entries) {
            Err(e) => Err(e),
            Ok(numbered) => {
                law_sorted_form_sorts(numbered);
                Ok(sorted_form(numbered))
            },
        }
    };
    assert(selects(answer, entries, chosen));
}

/// Nothing but offered entries is ever selected.
pub proof fn law_selection_is_offered(
    answer: Seq<char>,
    entries: Seq<(Seq<char>, SecretKind)>,
    e: (Seq<char>, SecretKind),
)
    requires
        selection_of(answer, entries) is Ok,
        selection_of(answer, entries)->Ok_0.contains(e),
    ensures
        entries.contains(e),
{
    law_every_answer_is_understood(answer, entries);
    let said = trimmed(answer);
    if said.len() > 0 && !same_ignoring_ascii_case(said, "all"@) {
        let parts = split_on(said, ',');
        let numbered = all_picked(parts, entries)->Ok_0;
        assert(numbered.contains(e));
        lemma_picked_is_offered(parts, entries);
    }
}

proof fn lemma_picked_is_offered(parts: Seq<Seq<char>>, entries: Seq<(Seq<char>, SecretKind)>)
    requires
        all_picked(parts, entries) is Ok,
    ensures
        forall|e: (Seq<char>, SecretKind)| #[trigger]
            all_picked(parts, entries)->Ok_0.contains(e) ==> entries.contains(e),
    decreases parts.len(),
{
    if parts.len() > 0 {
        lemma_picked_is_offered(parts.drop_last(), entries);
        let front = all_picked(parts.drop_last(), entries)->Ok_0;
        let last = picked(parts.last(), entries)->Ok_0;
        assert forall|e: (Seq<char>, SecretKind)| #[trigger]
            all_picked(parts, entries)->Ok_0.contains(e) implies entries.contains(e) by {
            let i = choose|i: int| 0 <= i < front.push(last).len() && front.push(last)[i] == e;
            if i < front.len() {
                assert(front[i] == e);
                assert(front.contains(e));
            }
        }
    }
}

/// Whether an answer confirms what was asked: nothing but `yes` does.
pub fn confirmed(answer: &str) -> (yes: bool)
    ensures
        yes == (trimmed(answer@) == "yes"@),
{
    let chars: Vec<char> = chars_of(answer);
    let yes: Vec<char> = chars_of("yes");
    same_text(trim(chars.as_slice()), yes.as_slice())
}

/// The question to confirm.
pub fn confirmation_prompt(question: &str) -> (text: String)
    ensures
        text@ == question@ + " Type 'yes' to continue:"@,
{
    let mut text: String = question.to_owned();
    text.append(" Type 'yes' to continue:");
    text
}

/// The menu has one line for each entry, in order, with its number, its profile and the name of its
/// service, between a line above and a line below.
pub proof fn law_menu_offers_every_entry(entries: Seq<(Seq<char>, SecretKind)>)
    ensures
        menu(entries).len() == entries.len() + 2,
        menu(entries)[0] == "Select mnemo API keys to remove:"@,
        forall|i: int|
            #![trigger entries[i]]
            0 <= i < entries.len() ==> menu(entries)[i + 1] == "  "@ + decimal((i + 1) as nat)
                + ". "@ + entries[i].0 + " "@ + (if entries[i].1 == SecretKind::ElevenLabs {
                "elevenlabs"@
            } else {
                "hindsight"@
            }),
        menu(entries)[entries.len() as int + 1]
            == "Enter numbers separated by commas, or 'all'. Leave blank to cancel."@,
{
}

/// A number, whatever zeros and white space stand around it, picks the entry with that number; zero
/// picks the first one; a number beyond the entries is refused.
pub proof fn law_numbers_pick_entries(
    before: Seq<char>,
    zeros: nat,
    n: nat,
    after: Seq<char>,
    entries: Seq<(Seq<char>, SecretKind)>,
)
    requires
        forall|i: int| 0 <= i < before.len() ==> is_white_space(#[trigger] before[i]),
        forall|i: int| 0 <= i < after.len() ==> is_white_space(#[trigger] after[i]),
    ensures
        ({
            let part = before + (all_zeros(zeros) + decimal(n)) + after;
            let found = picked(part, entries);
            &&& n == 0 && entries.len() > 0 ==> found == Ok::<(Seq<char>, SecretKind), ErrorView>(
                entries[0],
            )
            &&& 0 < n <= entries.len() && n <= usize::MAX ==> found == Ok::<
                (Seq<char>, SecretKind),
                ErrorView,
            >(entries[n - 1])
            &&& (n > entries.len() || entries.len() == 0) && n <= usize::MAX ==> found == Err::<
                (Seq<char>, SecretKind),
                ErrorView,
            >(ErrorView::SelectionOutOfRange { index: n })
            &&& n > usize::MAX ==> found == Err::<(Seq<char>, SecretKind), ErrorView>(
                ErrorView::InvalidSelection { part, fault: NumberFault::TooLarge },
            )
        }),
{
    let digits = all_zeros(zeros) + decimal(n);
    law_decimal_denotes_the_number(n);
    law_zeros_and_digits_denote_the_number(zeros, n);
    assert(is_digit(digits[0])) by {
        if zeros == 0 {
            assert(digits[0] == decimal(n)[0]);
        }
    }
    assert(digits[digits.len() - 1] == decimal(n)[decimal(n).len() - 1]);
    assert(is_digit(digits[digits.len() - 1]));
    law_trimming_takes_only_white_space(before, digits, after);
}

/// A part that is no number is refused, as it was given.
pub proof fn law_other_parts_are_refused(
    part: Seq<char>,
    entries: Seq<(Seq<char>, SecretKind)>,
)
    ensures
        number(trimmed(part)) is Err ==> picked(part, entries) == Err::<
            (Seq<char>, SecretKind),
            ErrorView,
        >(ErrorView::InvalidSelection { part, fault: number(trimmed(part))->Err_0 }),
        number(trimmed(part)) is Ok ==> !(picked(part, entries) is Err && picked(
            part,
            entries,
        )->Err_0 is InvalidSelection),
{
}

/// What the parts of an answer pick, part by part; where one picks nothing, the first such part
/// decides.
pub proof fn law_parts_pick_one_by_one(
    parts: Seq<Seq<char>>,
    entries: Seq<(Seq<char>, SecretKind)>,
)
    ensures
        match all_picked(parts, entries) {
            Ok(found) => found.len() == parts.len() && forall|i: int|
                #![trigger parts[i]]
                0 <= i < parts.len() ==> picked(parts[i], entries) == Ok::<
                    (Seq<char>, SecretKind),
                    ErrorView,
                >(found[i]),
            Err(e) => exists|i: int|
                {
                    &&& 0 <= i < parts.len()
                    &&& picked(#[trigger] parts[i], entries) == Err::<
                        (Seq<char>, SecretKind),
                        ErrorView,
                    >(e)
                    &&& forall|j: int| 0 <= j < i ==> picked(#[trigger] parts[j], entries) is Ok
                },
        },
    decreases parts.len(),
{
    if parts.len() > 0 {
        let front = parts.drop_last();
        let n = front.len() as int;
        law_parts_pick_one_by_one(front, entries);
        assert(parts[n] == parts.last());
        assert forall|i: int| 0 <= i < n implies #[trigger] parts[i] == front[i] by {}
        match all_picked(front, entries) {
            Ok(found) => {
                assert forall|j: int| 0 <= j < n implies picked(
                    #[trigger] parts[j],
                    entries,
                ) is Ok by {
                    assert(front[j] == parts[j]);
                }
                if picked(parts.last(), entries) is Ok {
                    let all = found.push(picked(parts.last(), entries)->Ok_0);
                    assert forall|i: int|
                        #![trigger parts[i]]
                        0 <= i < parts.len() implies picked(parts[i], entries) == Ok::<
                        (Seq<char>, SecretKind),
                        ErrorView,
                    >(all[i]) by {
                        if i < n {
                            assert(front[i] == parts[i]);
                        }
                    }
                }
            },
            Err(e) => {
                let i = choose|i: int|
                    {
                        &&& 0 <= i < front.len()
                        &&& picked(#[trigger] front[i], entries) == Err::<
                            (Seq<char>, SecretKind),
                            ErrorView,
                        >(e)
                        &&& forall|j: int| 0 <= j < i ==> picked(#[trigger] front[j], entries) is Ok
                    };
                assert(parts[i] == front[i]);
                assert forall|j: int| 0 <= j < i implies picked(
                    #[trigger] parts[j],
                    entries,
                ) is Ok by {
                    assert(front[j] == parts[j]);
                }
            },
        }
    }
}

/// What an answer selects: nothing, if it is blank; everything, if it says `all` in whatever case;
/// otherwise exactly the entries that its parts pick, in order, or the fault of the first part that
/// picks none.
pub proof fn law_what_an_answer_selects(
    answer: Seq<char>,
    entries: Seq<(Seq<char>, SecretKind)>,
)
    ensures
        ({
            let said = trimmed(answer);
            let parts = split_on(said, ',');
            let chosen = selection_of(answer, entries);
            let everything = same_ignoring_ascii_case(said, "all"@);
            let picked_all = all_picked(parts, entries);
            &&& said.len() == 0 ==> chosen is Ok && chosen->Ok_0.len() == 0
            &&& said.len() > 0 && everything ==> chosen is Ok && chosen->Ok_0 == entries
            &&& said.len() > 0 && !everything && picked_all is Err ==> chosen is Err
                && chosen->Err_0 == picked_all->Err_0
            &&& said.len() > 0 && !everything && picked_all is Ok ==> chosen is Ok && in_order(
                chosen->Ok_0,
            ) && forall|e: (Seq<char>, SecretKind)| #[trigger]
                chosen->Ok_0.contains(e) <==> picked_all->Ok_0.contains(e)
        }),
{
    law_every_answer_is_understood(answer, entries);
}

} // verus!

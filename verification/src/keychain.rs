//! API keys in the macOS Keychain: how they are named there, and how a listing is read.

use vstd::prelude::*;
use vstd::slice::slice_subrange;
#[allow(unused_imports)]
use vstd::utf8::encode_utf8;

use crate::error::Error;
#[allow(unused_imports)]
use crate::error::ErrorView;
use crate::text::{
    chars_of, comes_before, ends_with, find, last_position_of, position_of, read_lossy,
    same_string, split, starts_with, string_of, trim, trim_string,
};
#[allow(unused_imports)]
use crate::text::{
    find_from, first_of, has_prefix, has_suffix, is_white_space, last_of, law_finding,
    law_first_place, law_standing_at_a_place, law_trimming_takes_only_white_space,
    lemma_before_irreflexive, lemma_before_total, lemma_before_transitive, lemma_first_of,
    lemma_last_of, lemma_trim_end_len, lemma_trim_start_len, lossy_text, opt_text, split_on,
    stands_at, text_before, texts, trim_end, trim_start, trimmed,
};

verus! {

/// The Keychain service under which the keys are stored.
pub const KEYCHAIN_SERVICE: &'static str = "mnemo-secrets";

/// The services whose keys are kept.
#[derive(Clone, Copy, Debug, PartialEq, Eq, Structural)]
pub enum SecretKind {
    ElevenLabs,
    Hindsight,
}

/// The name of a kind in account names and listings.
pub open spec fn kind_name(kind: SecretKind) -> Seq<char> {
    match kind {
        SecretKind::ElevenLabs => "elevenlabs"@,
        SecretKind::Hindsight => "hindsight"@,
    }
}

/// The name of a kind as a user knows it.
pub open spec fn kind_display_name(kind: SecretKind) -> Seq<char> {
    match kind {
        SecretKind::ElevenLabs => "ElevenLabs"@,
        SecretKind::Hindsight => "Hindsight"@,
    }
}

/// The kind with a name, if there is one.
pub open spec fn kind_named(name: Seq<char>) -> Option<SecretKind> {
    if name == kind_name(SecretKind::ElevenLabs) {
        Some(SecretKind::ElevenLabs)
    } else if name == kind_name(SecretKind::Hindsight) {
        Some(SecretKind::Hindsight)
    } else {
        None
    }
}

impl SecretKind {
    /// The name of the kind in account names and listings.
    pub fn name(self) -> (name: &'static str)
        ensures
            name@ == kind_name(self),
    {
        match self {
            SecretKind::ElevenLabs => "elevenlabs",
            SecretKind::Hindsight => "hindsight",
        }
    }

    /// The name of the kind as a user knows it.
    pub fn display_name(self) -> (name: &'static str)
        ensures
            name@ == kind_display_name(self),
    {
        match self {
            SecretKind::ElevenLabs => "ElevenLabs",
            SecretKind::Hindsight => "Hindsight",
        }
    }

    /// The kind with a name, if there is one.
    pub fn from_name(name: &str) -> (kind: Option<SecretKind>)
        ensures
            kind == kind_named(name@),
    {
        if same_string(name, SecretKind::ElevenLabs.name()) {
            Some(SecretKind::ElevenLabs)
        } else if same_string(name, SecretKind::Hindsight.name()) {
            Some(SecretKind::Hindsight)
        } else {
            None
        }
    }
}

/// A kind is known by its name.
pub proof fn law_kind_name_round_trip(kind: SecretKind)
    ensures
        kind_named(kind_name(kind)) == Some(kind),
{
    reveal_strlit("elevenlabs");
    reveal_strlit("hindsight");
    assert("elevenlabs"@[0] != "hindsight"@[0]);
}

/// A key in the Keychain: the profile that it belongs to, and its kind.
#[derive(Debug)]
pub struct KeychainEntry {
    pub profile: String,
    pub kind: SecretKind,
}

impl View for KeychainEntry {
    type V = (Seq<char>, SecretKind);

    open spec fn view(&self) -> (Seq<char>, SecretKind) {
        (self.profile@, self.kind)
    }
}

/// The views of a sequence of entries.
pub open spec fn entry_views(entries: Seq<KeychainEntry>) -> Seq<(Seq<char>, SecretKind)> {
    entries.map_values(|e: KeychainEntry| e@)
}

impl KeychainEntry {
    /// An entry with the same profile and kind.
    pub fn copy(&self) -> (e: KeychainEntry)
        ensures
            e@ == self@,
    {
        KeychainEntry { profile: self.profile.clone(), kind: self.kind }
    }
}

/// The account name of a key.
pub open spec fn account_name(profile: Seq<char>, kind: SecretKind) -> Seq<char> {
    "profile:"@ + profile + ":"@ + kind_name(kind) + "-api-key"@
}

/// The entry that an account name stands for, if it is one of ours: after `profile:`, all up to
/// the last colon is the profile, and the rest names the kind.
pub open spec fn account_entry(account: Seq<char>) -> Option<(Seq<char>, SecretKind)> {
    let rest = account.skip("profile:"@.len() as int);
    let colon = last_of(rest, ':');
    let tail = rest.skip(colon + 1);
    if !has_prefix(account, "profile:"@) || colon < 0 || !has_suffix(tail, "-api-key"@) {
        None
    } else {
        match kind_named(tail.take(tail.len() - "-api-key"@.len())) {
            Some(kind) => Some((rest.take(colon), kind)),
            None => None,
        }
    }
}

/// The account name of a key.
pub fn keychain_account(profile: &str, kind: SecretKind) -> (account: String)
    ensures
        account@ == account_name(profile@, kind),
{
    let mut account: String = "profile:".to_owned();
    account.append(profile);
    account.append(":");
    account.append(kind.name());
    account.append("-api-key");
    account
}

/// The entry that an account name stands for, if it is one of ours.
pub fn entry_from_keychain_account(account: &str) -> (entry: Option<KeychainEntry>)
    ensures
        match entry {
            Some(e) => account_entry(account@) == Some(e@),
            None => account_entry(account@) is None,
        },
{
    let chars: Vec<char> = chars_of(account);
    let prefix: Vec<char> = chars_of("profile:");
    let suffix: Vec<char> = chars_of("-api-key");
    if !starts_with(chars.as_slice(), prefix.as_slice()) {
        return None;
    }
    let rest: &[char] = slice_subrange(chars.as_slice(), prefix.len(), chars.len());
    assert(rest@ == account@.skip("profile:"@.len() as int));
    let colon: usize = match last_position_of(rest, ':') {
        Some(at) => at,
        None => return None,
    };
    let tail: &[char] = slice_subrange(rest, colon + 1, rest.len());
    assert(tail@ == rest@.skip(colon + 1));
    if !ends_with(tail, suffix.as_slice()) {
        return None;
    }
    let name: String = string_of(slice_subrange(tail, 0, tail.len() - suffix.len()));
    assert(name@ == tail@.take(tail@.len() - "-api-key"@.len()));
    let profile: String = string_of(slice_subrange(rest, 0, colon));
    assert(profile@ == rest@.take(colon as int));
    match SecretKind::from_name(name.as_str()) {
        Some(kind) => Some(KeychainEntry { profile, kind }),
        None => None,
    }
}

/// An account name stands for the profile and the kind that it was made of.
pub proof fn law_account_round_trip(profile: Seq<char>, kind: SecretKind)
    ensures
        account_entry(account_name(profile, kind)) == Some((profile, kind)),
{
    reveal_strlit("profile:");
    reveal_strlit(":");
    reveal_strlit("-api-key");
    reveal_strlit("elevenlabs");
    reveal_strlit("hindsight");
    let account = account_name(profile, kind);
    let head = "profile:"@;
    let end = "-api-key"@;
    let rest = account.skip(head.len() as int);
    assert(account.subrange(0, head.len() as int) == head);
    let tail = kind_name(kind) + end;
    assert(rest == profile + ":"@ + tail);
    assert forall|i: int| profile.len() < i < rest.len() implies rest[i] != ':' by {
        assert(rest[i] == tail[i - profile.len() - 1]);
        if i - profile.len() - 1 < kind_name(kind).len() {
            assert(rest[i] == kind_name(kind)[i - profile.len() - 1]);
        } else {
            assert(rest[i] == end[i - profile.len() - 1 - kind_name(kind).len()]);
        }
    }
    assert(rest[profile.len() as int] == ':');
    lemma_last_of(rest, ':', profile.len() as int);
    assert(rest.skip(profile.len() as int + 1) == tail);
    assert(rest.take(profile.len() as int) == profile);
    assert(tail.subrange(tail.len() - end.len(), tail.len() as int) == end);
    assert(tail.take(tail.len() - end.len()) == kind_name(kind));
    law_kind_name_round_trip(kind);
}

/// An account name that stands for an entry is the account name of that entry.
pub proof fn law_entry_round_trip(account: Seq<char>)
    requires
        account_entry(account) is Some,
    ensures
        ({
            let (profile, kind) = account_entry(account)->0;
            account_name(profile, kind) == account
        }),
{
    let head = "profile:"@;
    let end = "-api-key"@;
    let rest = account.skip(head.len() as int);
    let colon = last_of(rest, ':');
    let tail = rest.skip(colon + 1);
    let (profile, kind) = account_entry(account)->0;
    lemma_last_of_is_there(rest, ':');
    assert(account == head + rest) by {
        assert(account.subrange(0, head.len() as int) == account.take(head.len() as int));
        assert(account == account.take(head.len() as int) + rest);
    }
    assert(rest == profile + ":"@ + tail) by {
        reveal_strlit(":");
        assert(rest == profile + seq![rest[colon]] + tail);
        assert(seq![rest[colon]] == ":"@);
    }
    assert(tail == kind_name(kind) + end) by {
        let cut = tail.len() - end.len();
        assert(tail.subrange(cut, tail.len() as int) == tail.skip(cut));
        assert(tail == tail.take(cut) + tail.skip(cut));
    }
    assert(head + (profile + ":"@ + (kind_name(kind) + end)) == account_name(profile, kind));
}

/// What is found last is there.
proof fn lemma_last_of_is_there(s: Seq<char>, c: char)
    ensures
        -1 <= last_of(s, c) < s.len(),
        last_of(s, c) >= 0 ==> s[last_of(s, c)] == c,
    decreases s.len(),
{
    if s.len() > 0 && s.last() != c {
        lemma_last_of_is_there(s.drop_last(), c);
    }
}

/// Different keys have different account names.
pub proof fn law_accounts_are_distinct(
    profile1: Seq<char>,
    kind1: SecretKind,
    profile2: Seq<char>,
    kind2: SecretKind,
)
    requires
        account_name(profile1, kind1) == account_name(profile2, kind2),
    ensures
        profile1 == profile2,
        kind1 == kind2,
{
    law_account_round_trip(profile1, kind1);
    law_account_round_trip(profile2, kind2);
}

/// What stands before an attribute's value in a line of a Keychain listing.
pub open spec fn blob_prefix(key: Seq<char>) -> Seq<char> {
    "\""@ + key + "\"<blob>=\""@
}

/// The text of an attribute in a line of a Keychain listing: from the first place where the
/// attribute is given up to the next quotation mark.
pub open spec fn blob_in(line: Seq<char>, key: Seq<char>) -> Option<Seq<char>> {
    match find_from(line, blob_prefix(key), 0) {
        None => None,
        Some(at) => {
            let rest = line.skip(at + blob_prefix(key).len());
            let end = first_of(rest, '"');
            if end < rest.len() {
                Some(rest.take(end))
            } else {
                None
            }
        },
    }
}

/// The text of an attribute in a line of a Keychain listing.
pub fn parse_keychain_blob(line: &str, key: &str) -> (blob: Option<String>)
    ensures
        opt_text(blob) == blob_in(line@, key@),
{
    let mut prefix: String = "\"".to_owned();
    prefix.append(key);
    prefix.append("\"<blob>=\"");
    let pattern: Vec<char> = chars_of(prefix.as_str());
    let chars: Vec<char> = chars_of(line);
    let at: usize = match find(chars.as_slice(), pattern.as_slice()) {
        Some(at) => at,
        None => return None,
    };
    let total: usize = chars.len();
    assert(at + pattern@.len() <= total);
    let rest: &[char] = slice_subrange(chars.as_slice(), at + pattern.len(), total);
    assert(rest@ == line@.skip(at + blob_prefix(key@).len()));
    let end: usize = position_of(rest, '"');
    if end < rest.len() {
        assert(rest@.subrange(0, end as int) == rest@.take(end as int));
        Some(string_of(slice_subrange(rest, 0, end)))
    } else {
        None
    }
}

/// The entry that a listed item stands for, if it is one of ours.
pub open spec fn item_entry(service: Option<Seq<char>>, account: Option<Seq<char>>) -> Option<
    (Seq<char>, SecretKind),
> {
    if service == Some(KEYCHAIN_SERVICE@) && account is Some {
        account_entry(account->0)
    } else {
        None
    }
}

/// Adds the entry that a listed item stands for, if it is one of ours.
pub fn push_keychain_entry(
    entries: &mut Vec<KeychainEntry>,
    service: &Option<String>,
    account: &Option<String>,
)
    ensures
        entry_views(final(entries)@) == match item_entry(opt_text(*service), opt_text(*account)) {
            Some(e) => entry_views(old(entries)@).push(e),
            None => entry_views(old(entries)@),
        },
{
    let ghost before: Seq<KeychainEntry> = entries@;
    let ours: bool = match service {
        Some(name) => same_string(name.as_str(), KEYCHAIN_SERVICE),
        None => false,
    };
    if !ours {
        return;
    }
    if let Some(account) = account {
        if let Some(entry) = entry_from_keychain_account(account.as_str()) {
            entries.push(entry);
            assert(entry_views(entries@) == entry_views(before).push(entry@));
        }
    }
}

/// What is known of a Keychain listing after some of its lines: the entries so far, and the
/// attributes of the item that is being read.
pub ghost struct Listing {
    pub entries: Seq<(Seq<char>, SecretKind)>,
    pub service: Option<Seq<char>>,
    pub account: Option<Seq<char>>,
}

impl Listing {
    /// The entries, with the item that is being read.
    pub open spec fn all(self) -> Seq<(Seq<char>, SecretKind)> {
        match item_entry(self.service, self.account) {
            Some(e) => self.entries.push(e),
            None => self.entries,
        }
    }

    /// One more line. A line that begins an item ends the one before it.
    pub open spec fn line(self, line: Seq<char>) -> Listing {
        let at = if begins_item(line) {
            Listing { entries: self.all(), service: None, account: None }
        } else {
            self
        };
        Listing {
            entries: at.entries,
            service: match blob_in(line, "svce"@) {
                Some(service) => Some(service),
                None => at.service,
            },
            account: match blob_in(line, "acct"@) {
                Some(account) => Some(account),
                None => at.account,
            },
        }
    }
}

/// Whether a line begins an item.
pub open spec fn begins_item(line: Seq<char>) -> bool {
    has_prefix(line, "keychain:"@) || has_prefix(line, "class:"@)
}

/// What is known of a listing after the given lines.
pub open spec fn listing_after(lines: Seq<Seq<char>>) -> Listing
    decreases lines.len(),
{
    if lines.len() == 0 {
        Listing { entries: Seq::empty(), service: None, account: None }
    } else {
        listing_after(lines.drop_last()).line(trimmed(lines.last()))
    }
}

/// The entries in a listing, in the order in which they stand there.
pub open spec fn listed_entries(listing: Seq<char>) -> Seq<(Seq<char>, SecretKind)> {
    listing_after(split_on(listing, '\n')).all()
}

/// Whether the lines from `from` up to `to` are those of one item: no line but the first one begins
/// an item, and the run goes on to the next line that does or to the end. What stands before the
/// first item counts as one, too.
pub open spec fn is_run(lines: Seq<Seq<char>>, from: int, to: int) -> bool {
    &&& 0 <= from < to <= lines.len()
    &&& from == 0 || begins_item(trimmed(lines[from]))
    &&& to == lines.len() || begins_item(trimmed(lines[to]))
    &&& forall|i: int| from < i < to ==> !begins_item(trimmed(#[trigger] lines[i]))
}

/// Whether `value` is the last text that the lines from `from` up to `to` give for an attribute.
pub open spec fn last_given(
    lines: Seq<Seq<char>>,
    from: int,
    to: int,
    key: Seq<char>,
    value: Seq<char>,
) -> bool {
    exists|i: int|
        {
            &&& from <= i < to
            &&& blob_in(trimmed(#[trigger] lines[i]), key) == Some(value)
            &&& forall|j: int| i < j < to ==> blob_in(trimmed(#[trigger] lines[j]), key) is None
        }
}

/// The last text that the lines from `from` up to `to` give for an attribute.
spec fn last_blob(lines: Seq<Seq<char>>, from: int, to: int, key: Seq<char>) -> Option<Seq<char>>
    decreases to - from,
{
    if to <= from {
        None
    } else {
        match blob_in(trimmed(lines[to - 1]), key) {
            Some(value) => Some(value),
            None => last_blob(lines, from, to - 1, key),
        }
    }
}

proof fn lemma_last_blob(
    lines: Seq<Seq<char>>,
    from: int,
    to: int,
    key: Seq<char>,
    value: Seq<char>,
)
    ensures
        last_blob(lines, from, to, key) == Some(value) <==> last_given(lines, from, to, key, value),
    decreases to - from,
{
    if from < to {
        lemma_last_blob(lines, from, to - 1, key, value);
        let last = blob_in(trimmed(lines[to - 1]), key);
        if last is None && last_given(lines, from, to - 1, key, value) {
            let i = choose|i: int|
                {
                    &&& from <= i < to - 1
                    &&& blob_in(trimmed(#[trigger] lines[i]), key) == Some(value)
                    &&& forall|j: int|
                        i < j < to - 1 ==> blob_in(trimmed(#[trigger] lines[j]), key) is None
                };
            assert forall|j: int| i < j < to implies blob_in(
                trimmed(#[trigger] lines[j]),
                key,
            ) is None by {}
            assert(blob_in(trimmed(lines[i]), key) == Some(value));
        }
        if last_given(lines, from, to, key, value) {
            let i = choose|i: int|
                {
                    &&& from <= i < to
                    &&& blob_in(trimmed(#[trigger] lines[i]), key) == Some(value)
                    &&& forall|j: int|
                        i < j < to ==> blob_in(trimmed(#[trigger] lines[j]), key) is None
                };
            if i < to - 1 {
                assert(blob_in(trimmed(lines[to - 1]), key) is None);
                assert(last_given(lines, from, to - 1, key, value));
            }
        }
    }
}

/// Lines that follow make no difference to what was given before.
proof fn lemma_last_blob_of_front(
    lines: Seq<Seq<char>>,
    more: Seq<Seq<char>>,
    from: int,
    to: int,
    key: Seq<char>,
)
    requires
        0 <= from,
        to <= lines.len() <= more.len(),
        forall|i: int| 0 <= i < lines.len() ==> lines[i] == #[trigger] more[i],
    ensures
        last_blob(lines, from, to, key) == last_blob(more, from, to, key),
    decreases to - from,
{
    if from < to {
        lemma_last_blob_of_front(lines, more, from, to - 1, key);
        assert(lines[to - 1] == more[to - 1]);
    }
}

/// The entry that the lines from `from` up to `to` give, if they give one of ours.
spec fn run_entry(lines: Seq<Seq<char>>, from: int, to: int) -> Option<(Seq<char>, SecretKind)> {
    item_entry(last_blob(lines, from, to, "svce"@), last_blob(lines, from, to, "acct"@))
}

/// Whether the lines from `from` up to `to` are those of an item that another one follows.
spec fn is_ended_run(lines: Seq<Seq<char>>, from: int, to: int) -> bool {
    to < lines.len() && is_run(lines, from, to)
}

/// What is known of a listing after some lines: the entries are those of the items that another one
/// follows, and the attributes are those of the last item, which begins at `start`.
proof fn lemma_listing_after(lines: Seq<Seq<char>>) -> (start: int)
    ensures
        0 <= start,
        lines.len() > 0 ==> is_run(lines, start, lines.len() as int),
        lines.len() == 0 ==> start == 0,
        listing_after(lines).service == last_blob(lines, start, lines.len() as int, "svce"@),
        listing_after(lines).account == last_blob(lines, start, lines.len() as int, "acct"@),
        forall|e: (Seq<char>, SecretKind)| #[trigger]
            listing_after(lines).entries.contains(e) <==> exists|from: int, to: int|
                #[trigger] is_ended_run(lines, from, to) && run_entry(lines, from, to) == Some(e),
    decreases lines.len(),
{
    if lines.len() == 0 {
        0
    } else {
        let front = lines.drop_last();
        let n = front.len() as int;
        let s = lemma_listing_after(front);
        let before = listing_after(front);
        let now = listing_after(lines);
        let line = trimmed(lines[n]);
        assert(lines.last() == lines[n]);
        assert forall|i: int| 0 <= i < n implies front[i] == #[trigger] lines[i] by {}
        let begins = begins_item(line);
        let start = if begins {
            n
        } else {
            s
        };
        assert forall|from: int, to: int| 0 <= from && to <= n implies #[trigger] run_entry(
            front,
            from,
            to,
        ) == run_entry(lines, from, to) by {
            lemma_last_blob_of_front(front, lines, from, to, "svce"@);
            lemma_last_blob_of_front(front, lines, from, to, "acct"@);
        }
        lemma_last_blob_of_front(front, lines, s, n, "svce"@);
        lemma_last_blob_of_front(front, lines, s, n, "acct"@);
        assert(last_blob(lines, n, n, "svce"@) is None && last_blob(lines, n, n, "acct"@) is None);
        assert(now.service == last_blob(lines, start, n + 1, "svce"@));
        assert(now.account == last_blob(lines, start, n + 1, "acct"@));
        assert(is_run(lines, start, n + 1)) by {
            if !begins && n > 0 {
                assert(is_run(front, s, n));
                assert(front[s] == lines[s]);
                assert forall|i: int| s < i < n + 1 implies !begins_item(
                    trimmed(#[trigger] lines[i]),
                ) by {
                    if i < n {
                        assert(front[i] == lines[i]);
                        assert(!begins_item(trimmed(front[i])));
                    }
                }
            }
        }
        if begins {
            lemma_contains_after_push(
                before.entries,
                item_entry(before.service, before.account)->0,
            );
        }
        assert forall|e: (Seq<char>, SecretKind)| #[trigger] now.entries.contains(e) <==> exists|
            from: int,
            to: int,
        | #[trigger]
            is_ended_run(lines, from, to) && run_entry(lines, from, to) == Some(e) by {
            if now.entries.contains(e) {
                if before.entries.contains(e) {
                    let (from, to) = choose|from: int, to: int| #[trigger]
                        is_ended_run(front, from, to) && run_entry(front, from, to) == Some(e);
                    lemma_ended_run_of_front(front, lines, from, to);
                    assert(run_entry(lines, from, to) == Some(e));
                } else {
                    assert(begins && n > 0);
                    assert(run_entry(front, s, n) == Some(e));
                    lemma_last_run_is_ended(front, lines, s);
                    assert(run_entry(lines, s, n) == Some(e));
                }
            }
            if exists|from: int, to: int| #[trigger]
                is_ended_run(lines, from, to) && run_entry(lines, from, to) == Some(e) {
                let (from, to) = choose|from: int, to: int| #[trigger]
                    is_ended_run(lines, from, to) && run_entry(lines, from, to) == Some(e);
                assert(run_entry(front, from, to) == Some(e));
                if to < n {
                    lemma_ended_run_in_front(front, lines, from, to);
                    assert(is_ended_run(front, from, to));
                    assert(before.entries.contains(e));
                } else {
                    assert(begins);
                    lemma_last_run_is_unique(front, lines, s, from);
                    assert(run_entry(front, s, n) == Some(e));
                }
            }
        }
        start
    }
}

/// An item that another one follows is still there when more lines are read.
proof fn lemma_ended_run_of_front(
    front: Seq<Seq<char>>,
    lines: Seq<Seq<char>>,
    from: int,
    to: int,
)
    requires
        front == lines.drop_last(),
        lines.len() > 0,
        is_ended_run(front, from, to),
    ensures
        is_ended_run(lines, from, to),
{
    assert(front[from] == lines[from]);
    assert(front[to] == lines[to]);
    assert forall|i: int| from < i < to implies !begins_item(trimmed(#[trigger] lines[i])) by {
        assert(front[i] == lines[i]);
        assert(!begins_item(trimmed(front[i])));
    }
}

/// An item that is followed by another one before the last line was there without the last line.
proof fn lemma_ended_run_in_front(
    front: Seq<Seq<char>>,
    lines: Seq<Seq<char>>,
    from: int,
    to: int,
)
    requires
        lines.len() > 0,
        front == lines.drop_last(),
        is_ended_run(lines, from, to),
        to < front.len(),
    ensures
        is_ended_run(front, from, to),
{
    assert(front[from] == lines[from]);
    assert(front[to] == lines[to]);
    assert forall|i: int| from < i < to implies !begins_item(trimmed(#[trigger] front[i])) by {
        assert(front[i] == lines[i]);
        assert(!begins_item(trimmed(lines[i])));
    }
}

/// A line that begins an item ends the one before it.
proof fn lemma_last_run_is_ended(front: Seq<Seq<char>>, lines: Seq<Seq<char>>, start: int)
    requires
        lines.len() > 0,
        front == lines.drop_last(),
        is_run(front, start, front.len() as int),
        begins_item(trimmed(lines.last())),
    ensures
        is_ended_run(lines, start, front.len() as int),
{
    let n = front.len() as int;
    assert(front[start] == lines[start]);
    assert(lines[n] == lines.last());
    assert forall|i: int| start < i < n implies !begins_item(trimmed(#[trigger] lines[i])) by {
        assert(front[i] == lines[i]);
        assert(!begins_item(trimmed(front[i])));
    }
}

/// The item that a line ends is the one that was being read.
proof fn lemma_last_run_is_unique(
    front: Seq<Seq<char>>,
    lines: Seq<Seq<char>>,
    start: int,
    from: int,
)
    requires
        lines.len() > 0,
        front == lines.drop_last(),
        front.len() > 0 ==> is_run(front, start, front.len() as int),
        is_run(lines, from, front.len() as int),
    ensures
        from == start,
{
    let n = front.len() as int;
    assert(front[start] == lines[start]);
    assert(front[from] == lines[from]);
    if from < start {
        assert(!begins_item(trimmed(lines[start])));
    } else if start < from {
        assert(!begins_item(trimmed(front[from])));
    }
}

/// An account name stands for an entry if and only if it is that of the entry.
proof fn lemma_account_of_entry(account: Seq<char>, e: (Seq<char>, SecretKind))
    ensures
        account_entry(account) == Some(e) <==> account == account_name(e.0, e.1),
{
    law_account_round_trip(e.0, e.1);
    if account_entry(account) == Some(e) {
        law_entry_round_trip(account);
    }
}

proof fn lemma_run_entry(lines: Seq<Seq<char>>, from: int, to: int, e: (Seq<char>, SecretKind))
    ensures
        run_entry(lines, from, to) == Some(e) <==> last_given(
            lines,
            from,
            to,
            "svce"@,
            KEYCHAIN_SERVICE@,
        ) && last_given(lines, from, to, "acct"@, account_name(e.0, e.1)),
{
    let account = last_blob(lines, from, to, "acct"@);
    lemma_last_blob(lines, from, to, "svce"@, KEYCHAIN_SERVICE@);
    lemma_last_blob(lines, from, to, "acct"@, account_name(e.0, e.1));
    if account is Some {
        lemma_account_of_entry(account->0, e);
    }
}

/// A key is listed if and only if the lines of some item give the service as their last `svce` text
/// and the account name of the key as their last `acct` text.
pub proof fn law_listed_keys_are_those_of_items(listing: Seq<char>, e: (Seq<char>, SecretKind))
    ensures
        ({
            let lines = split_on(listing, '\n');
            listed_entries(listing).contains(e) <==> exists|from: int, to: int|
                {
                    &&& #[trigger] is_run(lines, from, to)
                    &&& last_given(lines, from, to, "svce"@, KEYCHAIN_SERVICE@)
                    &&& last_given(lines, from, to, "acct"@, account_name(e.0, e.1))
                }
        }),
{
    let lines = split_on(listing, '\n');
    let n = lines.len() as int;
    let known = listing_after(lines);
    let start = lemma_listing_after(lines);
    if item_entry(known.service, known.account) is Some {
        lemma_contains_after_push(known.entries, item_entry(known.service, known.account)->0);
    }
    assert forall|from: int, to: int| #[trigger] is_run(lines, from, to) implies (run_entry(
        lines,
        from,
        to,
    ) == Some(e) <==> last_given(lines, from, to, "svce"@, KEYCHAIN_SERVICE@) && last_given(
        lines,
        from,
        to,
        "acct"@,
        account_name(e.0, e.1),
    )) by {
        lemma_run_entry(lines, from, to, e);
    }
    if known.entries.contains(e) {
        let (from, to) = choose|from: int, to: int| #[trigger]
            is_ended_run(lines, from, to) && run_entry(lines, from, to) == Some(e);
        assert(is_run(lines, from, to));
    } else if known.all().contains(e) {
        assert(run_entry(lines, start, n) == Some(e));
        assert(is_run(lines, start, n));
    }
    if exists|from: int, to: int| #[trigger]
        is_run(lines, from, to) && run_entry(lines, from, to) == Some(e) {
        let (from, to) = choose|from: int, to: int| #[trigger]
            is_run(lines, from, to) && run_entry(lines, from, to) == Some(e);
        if to < n {
            assert(is_ended_run(lines, from, to));
        } else {
            if from < start {
                assert(!begins_item(trimmed(lines[start])));
            } else if start < from {
                assert(!begins_item(trimmed(lines[from])));
            }
        }
    }
}

/// Reads the entries in a listing, in the order in which they stand there.
fn read_listing(listing: &str) -> (entries: Vec<KeychainEntry>)
    ensures
        entry_views(entries@) == listed_entries(listing@),
{
    let chars: Vec<char> = chars_of(listing);
    let lines: Vec<String> = split(chars.as_slice(), '\n');
    let ghost all: Seq<Seq<char>> = texts(lines@);
    let keychain: Vec<char> = chars_of("keychain:");
    let class: Vec<char> = chars_of("class:");
    let mut entries: Vec<KeychainEntry> = Vec::new();
    let mut service: Option<String> = None;
    let mut account: Option<String> = None;
    let mut i: usize = 0;
    assert(all.take(0) == Seq::<Seq<char>>::empty());
    assert(entry_views(entries@) == Seq::<(Seq<char>, SecretKind)>::empty());
    while i < lines.len()
        invariant
            i <= lines.len(),
            all == texts(lines@),
            keychain@ == "keychain:"@,
            class@ == "class:"@,
            listing_after(all.take(i as int)) == (Listing {
                entries: entry_views(entries@),
                service: opt_text(service),
                account: opt_text(account),
            }),
        decreases lines.len() - i,
    {
        assert(all.take(i + 1).drop_last() == all.take(i as int));
        assert(all.take(i + 1).last() == lines@[i as int]@);
        let raw: Vec<char> = chars_of(lines[i].as_str());
        let text: &[char] = trim(raw.as_slice());
        let line: String = string_of(text);
        if starts_with(text, keychain.as_slice()) || starts_with(text, class.as_slice()) {
            push_keychain_entry(&mut entries, &service, &account);
            service = None;
            account = None;
        }
        if let Some(found) = parse_keychain_blob(line.as_str(), "svce") {
            service = Some(found);
        }
        if let Some(found) = parse_keychain_blob(line.as_str(), "acct") {
            account = Some(found);
        }
        i += 1;
    }
    assert(all.take(i as int) == all);
    push_keychain_entry(&mut entries, &service, &account);
    entries
}

/// The line with which a listing gives an attribute.
pub open spec fn attribute_line(key: Seq<char>, value: Seq<char>) -> Seq<char> {
    blob_prefix(key) + value + "\""@
}

/// The lines with which a listing gives a stored key.
pub open spec fn item_lines(profile: Seq<char>, kind: SecretKind) -> Seq<Seq<char>> {
    seq![
        "class: \"genp\""@,
        attribute_line("acct"@, account_name(profile, kind)),
        attribute_line("svce"@, KEYCHAIN_SERVICE@),
    ]
}

/// An attribute without quotation marks is read as it was given.
proof fn lemma_attribute_is_read(key: Seq<char>, value: Seq<char>)
    requires
        !value.contains('"'),
    ensures
        blob_in(attribute_line(key, value), key) == Some(value),
{
    reveal_strlit("\"");
    let line = attribute_line(key, value);
    let prefix = blob_prefix(key);
    assert(line.subrange(0, prefix.len() as int) == prefix);
    assert(find_from(line, prefix, 0) == Some(0int));
    let rest = line.skip(prefix.len() as int);
    assert(rest == value + "\""@);
    assert forall|i: int| 0 <= i < value.len() implies rest[i] != '"' by {
        assert(value.contains(value[i]));
    }
    lemma_first_of(rest, '"', value.len() as int);
    assert(rest.take(value.len() as int) == value);
}

/// What stands nowhere is not found.
proof fn lemma_not_found(s: Seq<char>, pattern: Seq<char>, from: int)
    requires
        forall|at: int| from <= at ==> !stands_at(s, pattern, at),
    ensures
        find_from(s, pattern, from) is None,
    decreases s.len() - from + 1,
{
    if from + pattern.len() <= s.len() {
        lemma_not_found(s, pattern, from + 1);
    }
}

/// An attribute is not taken for another one whose name is as long.
proof fn lemma_attribute_is_no_other(key: Seq<char>, other: Seq<char>, value: Seq<char>)
    requires
        key != other,
        key.len() == other.len() == 4,
        !key.contains('"'),
        !value.contains('"'),
    ensures
        blob_in(attribute_line(key, value), other) is None,
{
    reveal_strlit("\"");
    reveal_strlit("\"<blob>=\"");
    let line = attribute_line(key, value);
    let prefix = blob_prefix(key);
    let pattern = blob_prefix(other);
    assert(prefix.len() == 14 && pattern.len() == 14);
    assert forall|at: int| 0 <= at implies !stands_at(line, pattern, at) by {
        if stands_at(line, pattern, at) {
            let part = line.subrange(at, at + 14);
            assert(part[0] == pattern[0] && part[5] == pattern[5]);
            assert(line[at] == '"' && line[at + 5] == '"');
            if at == 0 {
                assert forall|i: int| 0 <= i < 4 implies key[i] == other[i] by {
                    assert(part[i + 1] == pattern[i + 1]);
                    assert(line[i + 1] == prefix[i + 1]);
                }
                assert(key == other);
            } else if at < 5 {
                assert(line[at] == key[at - 1]);
                assert(key.contains(key[at - 1]));
            } else if at < 14 {
                if at == 5 {
                    assert(line[10] == prefix[10]);
                } else if at == 13 {
                    assert(line[18] == value[4]);
                    assert(value.contains(value[4]));
                } else {
                    assert(line[at] == prefix[at]);
                }
            } else {
                assert(line[at] == value[at - 14]);
                assert(value.contains(value[at - 14]));
            }
        }
    }
    lemma_not_found(line, pattern, 0);
}

/// A line of an attribute has no white space around it, and begins no item.
proof fn lemma_attribute_line(key: Seq<char>, value: Seq<char>)
    ensures
        trimmed(attribute_line(key, value)) == attribute_line(key, value),
        !begins_item(attribute_line(key, value)),
{
    reveal_strlit("\"");
    reveal_strlit("keychain:");
    reveal_strlit("class:");
    let line = attribute_line(key, value);
    assert(line[0] == '"');
    assert(line[line.len() - 1] == '"');
    assert(trim_start(line) == line);
    assert(trim_end(line) == line);
    if has_prefix(line, "keychain:"@) {
        assert(line.subrange(0, "keychain:"@.len() as int)[0] == 'k');
    }
    if has_prefix(line, "class:"@) {
        assert(line.subrange(0, "class:"@.len() as int)[0] == 'c');
    }
}

/// The line that begins a stored key begins an item, and gives no attribute.
proof fn lemma_class_line()
    ensures
        ({
            let line = "class: \"genp\""@;
            &&& trimmed(line) == line
            &&& begins_item(line)
            &&& blob_in(line, "svce"@) is None
            &&& blob_in(line, "acct"@) is None
        }),
{
    reveal_strlit("class: \"genp\"");
    reveal_strlit("class:");
    reveal_strlit("\"");
    reveal_strlit("\"<blob>=\"");
    reveal_strlit("svce");
    reveal_strlit("acct");
    let line = "class: \"genp\""@;
    assert(trim_start(line) == line);
    assert(trim_end(line) == line);
    assert(line.subrange(0, 6) == "class:"@);
    assert(blob_prefix("svce"@).len() == 14 && blob_prefix("acct"@).len() == 14);
    assert(line.len() == 13);
}

/// A key that was stored for a profile without quotation marks is found in a listing, after
/// whatever stands there before it. A quotation mark in the profile would end the account name.
pub proof fn law_stored_key_is_listed(before: Seq<Seq<char>>, profile: Seq<char>, kind: SecretKind)
    requires
        !profile.contains('"'),
    ensures
        listing_after(before + item_lines(profile, kind)).all() == listing_after(before).all().push(
            (profile, kind),
        ),
{
    let class = "class: \"genp\""@;
    let account = account_name(profile, kind);
    let second = attribute_line("acct"@, account);
    let third = attribute_line("svce"@, KEYCHAIN_SERVICE@);
    assert(!account.contains('"')) by {
        reveal_strlit("profile:");
        reveal_strlit(":");
        reveal_strlit("-api-key");
        reveal_strlit("elevenlabs");
        reveal_strlit("hindsight");
        let head = "profile:"@;
        let name = kind_name(kind);
        assert forall|i: int| 0 <= i < account.len() implies account[i] != '"' by {
            let k = i - head.len();
            if 0 <= k < profile.len() {
                assert(account[i] == profile[k]);
                assert(profile.contains(profile[k]));
            }
        }
    }
    assert(!KEYCHAIN_SERVICE@.contains('"') && !"acct"@.contains('"') && !"svce"@.contains('"')
        && "acct"@ != "svce"@ && "acct"@.len() == 4 && "svce"@.len() == 4) by {
        reveal_strlit("mnemo-secrets");
        reveal_strlit("acct");
        reveal_strlit("svce");
        assert("acct"@[0] != "svce"@[0]);
    }
    lemma_class_line();
    lemma_attribute_line("acct"@, account);
    lemma_attribute_line("svce"@, KEYCHAIN_SERVICE@);
    lemma_attribute_is_read("acct"@, account);
    lemma_attribute_is_read("svce"@, KEYCHAIN_SERVICE@);
    lemma_attribute_is_no_other("acct"@, "svce"@, account);
    lemma_attribute_is_no_other("svce"@, "acct"@, KEYCHAIN_SERVICE@);
    law_account_round_trip(profile, kind);
    let all = before + item_lines(profile, kind);
    let n = before.len() as int;
    assert(all.drop_last() == before + seq![class, second]);
    assert(all.drop_last().drop_last() == before + seq![class]);
    assert(all.drop_last().drop_last().drop_last() == before);
    let begun = Listing { entries: listing_after(before).all(), service: None, account: None };
    assert(listing_after(before + seq![class]) == begun);
    assert(listing_after(before + seq![class, second]) == (Listing {
        account: Some(account),
        ..begun
    }));
    assert(listing_after(all) == (Listing {
        account: Some(account),
        service: Some(KEYCHAIN_SERVICE@),
        ..begun
    }));
}

/// Whether entry `a` is listed before entry `b`: by profile, then by the name of the kind.
pub open spec fn entry_before(a: (Seq<char>, SecretKind), b: (Seq<char>, SecretKind)) -> bool {
    ||| text_before(a.0, b.0)
    ||| a.0 == b.0 && text_before(kind_name(a.1), kind_name(b.1))
}

/// Whether each entry is listed before all that follow it, so that none occurs twice.
pub open spec fn in_order(entries: Seq<(Seq<char>, SecretKind)>) -> bool {
    forall|i: int, j: int|
        0 <= i < j < entries.len() ==> entry_before(#[trigger] entries[i], #[trigger] entries[j])
}

/// Whether `sorted` holds the entries of `entries`, each one once and in order.
pub open spec fn sorts(
    sorted: Seq<(Seq<char>, SecretKind)>,
    entries: Seq<(Seq<char>, SecretKind)>,
) -> bool {
    &&& in_order(sorted)
    &&& forall|e: (Seq<char>, SecretKind)| #[trigger]
        sorted.contains(e) <==> entries.contains(e)
}

proof fn lemma_entry_irreflexive(a: (Seq<char>, SecretKind))
    ensures
        !entry_before(a, a),
{
    lemma_before_irreflexive(a.0);
    lemma_before_irreflexive(kind_name(a.1));
}

proof fn lemma_entry_transitive(
    a: (Seq<char>, SecretKind),
    b: (Seq<char>, SecretKind),
    c: (Seq<char>, SecretKind),
)
    requires
        entry_before(a, b),
        entry_before(b, c),
    ensures
        entry_before(a, c),
{
    if text_before(a.0, b.0) && text_before(b.0, c.0) {
        lemma_before_transitive(a.0, b.0, c.0);
    } else if a.0 == b.0 && b.0 == c.0 && !text_before(a.0, c.0) {
        lemma_before_irreflexive(a.0);
        lemma_before_transitive(kind_name(a.1), kind_name(b.1), kind_name(c.1));
    }
}

proof fn lemma_entry_total(a: (Seq<char>, SecretKind), b: (Seq<char>, SecretKind))
    requires
        a != b,
    ensures
        entry_before(a, b) || entry_before(b, a),
{
    if a.0 != b.0 {
        lemma_before_total(a.0, b.0);
    } else {
        law_kind_name_round_trip(a.1);
        law_kind_name_round_trip(b.1);
        lemma_before_total(kind_name(a.1), kind_name(b.1));
    }
}

/// There is only one way to sort entries.
pub proof fn law_sorting_is_unique(
    first: Seq<(Seq<char>, SecretKind)>,
    second: Seq<(Seq<char>, SecretKind)>,
    entries: Seq<(Seq<char>, SecretKind)>,
)
    requires
        sorts(first, entries),
        sorts(second, entries),
    ensures
        first == second,
    decreases first.len(),
{
    if first.len() == 0 {
        if second.len() > 0 {
            assert(second.contains(second[0]));
            assert(first.contains(second[0]));
        }
        assert(first == second);
    } else {
        assert(first.contains(first.last()));
        assert(second.contains(first.last()));
        assert(second.contains(second.last()));
        assert(first.contains(second.last()));
        let i = choose|i: int| 0 <= i < first.len() && first[i] == second.last();
        let j = choose|j: int| 0 <= j < second.len() && second[j] == first.last();
        if first.last() != second.last() {
            assert(entry_before(first[i], first[first.len() - 1]));
            assert(entry_before(second[j], second[second.len() - 1]));
            lemma_entry_transitive(first.last(), second.last(), first.last());
            lemma_entry_irreflexive(first.last());
        }
        let x = first.last();
        let a = first.drop_last();
        let b = second.drop_last();
        assert forall|e: (Seq<char>, SecretKind)| #[trigger] a.contains(e) <==> b.contains(e) by {
            lemma_without_last(first, e);
            lemma_without_last(second, e);
        }
        assert(in_order(a));
        assert(in_order(b));
        law_sorting_is_unique(a, b, b);
        assert(first == a.push(x));
        assert(second == b.push(x));
    }
}

/// Of entries in order, the last one does not occur before.
proof fn lemma_without_last(entries: Seq<(Seq<char>, SecretKind)>, e: (Seq<char>, SecretKind))
    requires
        in_order(entries),
        entries.len() > 0,
    ensures
        entries.drop_last().contains(e) <==> entries.contains(e) && e != entries.last(),
{
    if entries.drop_last().contains(e) {
        let i = choose|i: int| 0 <= i < entries.len() - 1 && entries.drop_last()[i] == e;
        assert(entries[i] == e);
        assert(entry_before(entries[i], entries[entries.len() - 1]));
        lemma_entry_irreflexive(e);
    }
    if entries.contains(e) && e != entries.last() {
        let i = choose|i: int| 0 <= i < entries.len() && entries[i] == e;
        assert(entries.drop_last()[i] == e);
    }
}

/// Whether entry `a` is listed before entry `b`.
fn listed_before(a: &KeychainEntry, b: &KeychainEntry) -> (yes: bool)
    ensures
        yes == entry_before(a@, b@),
{
    if comes_before(a.profile.as_str(), b.profile.as_str()) {
        return true;
    }
    same_string(a.profile.as_str(), b.profile.as_str()) && comes_before(
        a.kind.name(),
        b.kind.name(),
    )
}

/// Putting an entry between those that come before it and those that come after it keeps the
/// order.
proof fn lemma_order_after_insert(
    low: Seq<(Seq<char>, SecretKind)>,
    high: Seq<(Seq<char>, SecretKind)>,
    e: (Seq<char>, SecretKind),
)
    requires
        in_order(low),
        in_order(high),
        forall|i: int| 0 <= i < low.len() ==> entry_before(#[trigger] low[i], e),
        forall|j: int| 0 <= j < high.len() ==> entry_before(e, #[trigger] high[j]),
    ensures
        in_order(low + seq![e] + high),
{
    let all = low + seq![e] + high;
    let n = low.len();
    assert forall|i: int, j: int| 0 <= i < j < all.len() implies entry_before(
        #[trigger] all[i],
        #[trigger] all[j],
    ) by {
        if i < n {
            assert(all[i] == low[i]);
        }
        if j > n {
            assert(all[j] == high[j - n - 1]);
        }
        if i > n {
            assert(all[i] == high[i - n - 1]);
        }
        if i < n && j > n {
            lemma_entry_transitive(low[i], e, high[j - n - 1]);
        } else if j < n {
            assert(all[j] == low[j]);
        }
    }
}

/// Puts an entry at its place, unless it is there already.
fn insert_entry(sorted: &mut Vec<KeychainEntry>, entry: KeychainEntry)
    requires
        in_order(entry_views(old(sorted)@)),
    ensures
        in_order(entry_views(final(sorted)@)),
        forall|e: (Seq<char>, SecretKind)| #[trigger]
            entry_views(final(sorted)@).contains(e) <==> entry_views(old(sorted)@).contains(e) || e
                == entry@,
{
    let ghost before: Seq<(Seq<char>, SecretKind)> = entry_views(sorted@);
    let ghost e: (Seq<char>, SecretKind) = entry@;
    let mut at: usize = 0;
    while at < sorted.len() && listed_before(&sorted[at], &entry)
        invariant
            at <= sorted.len(),
            e == entry@,
            before == entry_views(sorted@),
            forall|i: int| 0 <= i < at ==> entry_before(#[trigger] before[i], e),
        decreases sorted.len() - at,
    {
        assert(before[at as int] == sorted@[at as int]@);
        at += 1;
    }
    if at < sorted.len() {
        assert(before[at as int] == sorted@[at as int]@);
        if !listed_before(&entry, &sorted[at]) {
            proof {
                if before[at as int] != e {
                    lemma_entry_total(before[at as int], e);
                }
                assert(before.contains(e));
            }
            return;
        }
    }
    sorted.insert(at, entry);
    proof {
        let low = before.take(at as int);
        let high = before.skip(at as int);
        let after = low + seq![e] + high;
        assert(entry_views(sorted@) == after);
        assert forall|j: int| 0 <= j < high.len() implies entry_before(e, #[trigger] high[j]) by {
            assert(high[j] == before[at + j]);
            if j > 0 {
                assert(entry_before(before[at as int], before[at + j]));
                lemma_entry_transitive(e, before[at as int], before[at + j]);
            }
        }
        lemma_order_after_insert(low, high, e);
        assert forall|x: (Seq<char>, SecretKind)| #[trigger] after.contains(x) <==> before.contains(
            x,
        ) || x == e by {
            if before.contains(x) {
                let i = choose|i: int| 0 <= i < before.len() && before[i] == x;
                if i < at {
                    assert(after[i] == x);
                } else {
                    assert(after[i + 1] == x);
                }
            }
            if x == e {
                assert(after[at as int] == x);
            }
            if after.contains(x) {
                let i = choose|i: int| 0 <= i < after.len() && after[i] == x;
                if i < at {
                    assert(before[i] == x);
                } else if i > at {
                    assert(before[i - 1] == x);
                }
            }
        }
    }
}

/// The entries, each one once and in order.
pub fn sort_entries(entries: &Vec<KeychainEntry>) -> (sorted: Vec<KeychainEntry>)
    ensures
        sorts(entry_views(sorted@), entry_views(entries@)),
{
    let ghost all: Seq<(Seq<char>, SecretKind)> = entry_views(entries@);
    let mut sorted: Vec<KeychainEntry> = Vec::new();
    let mut i: usize = 0;
    while i < entries.len()
        invariant
            i <= entries.len(),
            all == entry_views(entries@),
            sorts(entry_views(sorted@), all.take(i as int)),
        decreases entries.len() - i,
    {
        let ghost before: Seq<(Seq<char>, SecretKind)> = entry_views(sorted@);
        let entry: KeychainEntry = entries[i].copy();
        insert_entry(&mut sorted, entry);
        proof {
            let now = entry_views(sorted@);
            assert forall|e: (Seq<char>, SecretKind)| #[trigger] now.contains(e) <==> all.take(
                i + 1,
            ).contains(e) by {
                assert(now.contains(e) <==> before.contains(e) || e == all[i as int]);
                let p = all.take(i as int);
                let q = all.take(i + 1);
                if p.contains(e) {
                    let k = choose|k: int| 0 <= k < p.len() && p[k] == e;
                    assert(q[k] == e);
                }
                if e == all[i as int] {
                    assert(q[i as int] == e);
                }
                if q.contains(e) {
                    let k = choose|k: int| 0 <= k < q.len() && q[k] == e;
                    if k < i {
                        assert(p[k] == e);
                    }
                }
            }
        }
        i += 1;
    }
    assert(all.take(i as int) == all);
    sorted
}

/// The entries in the text of a Keychain listing, each one once and in order.
pub fn entries_in_listing(listing: &str) -> (entries: Vec<KeychainEntry>)
    ensures
        sorts(entry_views(entries@), listed_entries(listing@)),
{
    let found: Vec<KeychainEntry> = read_listing(listing);
    sort_entries(&found)
}

/// Reads what `dump-keychain` printed, each entry once and in order.
pub fn keychain_list_entries(success: bool, stdout: &[u8]) -> (r: Result<
    Vec<KeychainEntry>,
    Error,
>)
    ensures
        match r {
            Ok(entries) => success && sorts(
                entry_views(entries@),
                listed_entries(lossy_text(stdout@)),
            ),
            Err(e) => !success && e@ == ErrorView::KeychainListFailed,
        },
        forall|t: Seq<char>|
            stdout@ == #[trigger] encode_utf8(t) && r is Ok ==> sorts(
                entry_views(r->Ok_0@),
                listed_entries(t),
            ),
{
    if !success {
        return Err(Error::KeychainListFailed);
    }
    let listing: String = read_lossy(stdout);
    Ok(entries_in_listing(listing.as_str()))
}

/// The entries, each one once and in order.
pub open spec fn sorted_form(entries: Seq<(Seq<char>, SecretKind)>) -> Seq<
    (Seq<char>, SecretKind),
> {
    choose|sorted: Seq<(Seq<char>, SecretKind)>| sorts(sorted, entries)
}

/// One more entry can be put at its place.
proof fn lemma_insert_is_possible(
    sorted: Seq<(Seq<char>, SecretKind)>,
    e: (Seq<char>, SecretKind),
) -> (more: Seq<(Seq<char>, SecretKind)>)
    requires
        in_order(sorted),
    ensures
        in_order(more),
        forall|x: (Seq<char>, SecretKind)| #[trigger]
            more.contains(x) <==> sorted.contains(x) || x == e,
    decreases sorted.len(),
{
    if sorted.contains(e) {
        sorted
    } else if sorted.len() == 0 {
        let more = seq![e];
        assert(more[0] == e);
        more
    } else if entry_before(sorted.last(), e) {
        let more = sorted.push(e);
        let n = sorted.len() as int;
        assert forall|i: int, j: int| 0 <= i < j < more.len() implies entry_before(
            #[trigger] more[i],
            #[trigger] more[j],
        ) by {
            if j < n {
                assert(entry_before(sorted[i], sorted[j]));
            } else if i < n - 1 {
                assert(entry_before(sorted[i], sorted[n - 1]));
                lemma_entry_transitive(sorted[i], sorted.last(), e);
            }
        }
        lemma_contains_after_push(sorted, e);
        more
    } else {
        let last = sorted.last();
        let front = sorted.drop_last();
        assert(sorted[sorted.len() - 1] == last);
        lemma_entry_total(last, e);
        let t = lemma_insert_is_possible(front, e);
        let more = t.push(last);
        assert forall|i: int, j: int| 0 <= i < j < more.len() implies entry_before(
            #[trigger] more[i],
            #[trigger] more[j],
        ) by {
            if j < t.len() {
                assert(entry_before(t[i], t[j]));
            } else {
                assert(t.contains(t[i]));
                if t[i] != e {
                    let k = choose|k: int| 0 <= k < front.len() && front[k] == t[i];
                    assert(entry_before(sorted[k], sorted[sorted.len() - 1]));
                }
            }
        }
        lemma_contains_after_push(t, last);
        lemma_contains_after_push(front, last);
        assert(front.push(last) == sorted);
        more
    }
}

/// What a longer sequence contains.
proof fn lemma_contains_after_push<A>(s: Seq<A>, a: A)
    ensures
        forall|x: A| #[trigger] s.push(a).contains(x) <==> s.contains(x) || x == a,
{
    assert forall|x: A| #[trigger] s.push(a).contains(x) <==> s.contains(x) || x == a by {
        if s.contains(x) {
            let i = choose|i: int| 0 <= i < s.len() && s[i] == x;
            assert(s.push(a)[i] == x);
        }
        if x == a {
            assert(s.push(a)[s.len() as int] == x);
        }
        if s.push(a).contains(x) {
            let i = choose|i: int| 0 <= i < s.push(a).len() && s.push(a)[i] == x;
            if i < s.len() {
                assert(s[i] == x);
            }
        }
    }
}

/// Entries can always be sorted.
proof fn lemma_sorting_is_possible(entries: Seq<(Seq<char>, SecretKind)>) -> (sorted: Seq<
    (Seq<char>, SecretKind),
>)
    ensures
        sorts(sorted, entries),
    decreases entries.len(),
{
    if entries.len() == 0 {
        Seq::empty()
    } else {
        let front = lemma_sorting_is_possible(entries.drop_last());
        let sorted = lemma_insert_is_possible(front, entries.last());
        lemma_contains_after_push(entries.drop_last(), entries.last());
        assert(entries.drop_last().push(entries.last()) == entries);
        sorted
    }
}

/// The sorted form holds what was sorted, each entry once and in order.
pub proof fn law_sorted_form_sorts(entries: Seq<(Seq<char>, SecretKind)>)
    ensures
        sorts(sorted_form(entries), entries),
{
    let sorted = lemma_sorting_is_possible(entries);
    assert(sorts(sorted, entries));
}

/// What sorts the entries is their sorted form.
pub proof fn lemma_sorted_form(
    sorted: Seq<(Seq<char>, SecretKind)>,
    entries: Seq<(Seq<char>, SecretKind)>,
)
    requires
        sorts(sorted, entries),
    ensures
        sorted_form(entries) == sorted,
{
    law_sorting_is_unique(sorted_form(entries), sorted, entries);
}

/// The arguments that make `security` store a key.
pub open spec fn write_arguments(
    profile: Seq<char>,
    kind: SecretKind,
    api_key: Seq<char>,
) -> Seq<Seq<char>> {
    seq![
        "add-generic-password"@,
        "-U"@,
        "-s"@,
        KEYCHAIN_SERVICE@,
        "-a"@,
        account_name(profile, kind),
        "-w"@,
        api_key,
    ]
}

/// The arguments that make `security` print a key.
pub open spec fn read_arguments(profile: Seq<char>, kind: SecretKind) -> Seq<Seq<char>> {
    seq![
        "find-generic-password"@,
        "-s"@,
        KEYCHAIN_SERVICE@,
        "-a"@,
        account_name(profile, kind),
        "-w"@,
    ]
}

/// The arguments that make `security` delete a key.
pub open spec fn remove_arguments(profile: Seq<char>, kind: SecretKind) -> Seq<Seq<char>> {
    seq![
        "delete-generic-password"@,
        "-s"@,
        KEYCHAIN_SERVICE@,
        "-a"@,
        account_name(profile, kind),
    ]
}

/// The arguments that make `security` list the Keychain.
pub open spec fn list_arguments() -> Seq<Seq<char>> {
    seq!["dump-keychain"@]
}

/// The arguments that make `security` store a key.
pub fn keychain_write_args(profile: &str, kind: SecretKind, api_key: &str) -> (args: Vec<String>)
    ensures
        texts(args@) == write_arguments(profile@, kind, api_key@),
{
    let mut args: Vec<String> = Vec::new();
    args.push("add-generic-password".to_owned());
    args.push("-U".to_owned());
    args.push("-s".to_owned());
    args.push(KEYCHAIN_SERVICE.to_owned());
    args.push("-a".to_owned());
    args.push(keychain_account(profile, kind));
    args.push("-w".to_owned());
    args.push(api_key.to_owned());
    assert(texts(args@) == write_arguments(profile@, kind, api_key@));
    args
}

/// The arguments that make `security` print a key.
pub fn keychain_read_args(profile: &str, kind: SecretKind) -> (args: Vec<String>)
    ensures
        texts(args@) == read_arguments(profile@, kind),
{
    let mut args: Vec<String> = Vec::new();
    args.push("find-generic-password".to_owned());
    args.push("-s".to_owned());
    args.push(KEYCHAIN_SERVICE.to_owned());
    args.push("-a".to_owned());
    args.push(keychain_account(profile, kind));
    args.push("-w".to_owned());
    assert(texts(args@) == read_arguments(profile@, kind));
    args
}

/// The arguments that make `security` delete a key.
pub fn keychain_remove_args(profile: &str, kind: SecretKind) -> (args: Vec<String>)
    ensures
        texts(args@) == remove_arguments(profile@, kind),
{
    let mut args: Vec<String> = Vec::new();
    args.push("delete-generic-password".to_owned());
    args.push("-s".to_owned());
    args.push(KEYCHAIN_SERVICE.to_owned());
    args.push("-a".to_owned());
    args.push(keychain_account(profile, kind));
    assert(texts(args@) == remove_arguments(profile@, kind));
    args
}

/// The arguments that make `security` list the Keychain.
pub fn keychain_list_args() -> (args: Vec<String>)
    ensures
        texts(args@) == list_arguments(),
{
    let mut args: Vec<String> = Vec::new();
    args.push("dump-keychain".to_owned());
    assert(texts(args@) == list_arguments());
    args
}

/// A key is looked up and deleted where it was stored: the three commands name one service and
/// one account.
pub proof fn law_key_is_found_where_it_was_stored(
    profile: Seq<char>,
    kind: SecretKind,
    api_key: Seq<char>,
)
    ensures
        write_arguments(profile, kind, api_key).subrange(2, 6) == read_arguments(
            profile,
            kind,
        ).subrange(1, 5),
        write_arguments(profile, kind, api_key).subrange(2, 6) == remove_arguments(
            profile,
            kind,
        ).subrange(1, 5),
{
}

/// The key in what `security` printed: the text without surrounding white space, unless nothing
/// is left.
pub open spec fn printed_key(printed: Seq<char>) -> Option<Seq<char>> {
    let key = trimmed(printed);
    if key.len() > 0 {
        Some(key)
    } else {
        None
    }
}

/// A key is read back from the line in which it is printed. White space around the key would be
/// lost, and a key of nothing else would count as none.
pub proof fn law_printed_key_reads_back(key: Seq<char>)
    requires
        key.len() > 0,
        trimmed(key) == key,
    ensures
        printed_key(key.push('\n')) == Some(key),
{
    lemma_trim_start_len(key);
    lemma_trim_end_len(trim_start(key));
    if is_white_space(key.first()) {
        lemma_trim_start_len(key.drop_first());
    }
    let printed = key.push('\n');
    assert(printed.first() == key.first());
    assert(trim_start(printed) == printed);
    assert(printed.drop_last() == key);
    assert(trim_start(key) == key);
    assert(trim_end(printed) == trim_end(key));
}

/// The key in what `security` printed.
pub fn key_in(printed: &str) -> (key: Option<String>)
    ensures
        opt_text(key) == printed_key(printed@),
{
    let key: String = trim_string(printed);
    if key.as_str().is_empty() {
        None
    } else {
        Some(key)
    }
}

/// The stored key, as the command that looked it up ended; a command that failed found none.
pub fn keychain_read(success: bool, stdout: &[u8]) -> (key: Option<String>)
    ensures
        opt_text(key) == if success {
            printed_key(lossy_text(stdout@))
        } else {
            None
        },
        forall|t: Seq<char>|
            stdout@ == #[trigger] encode_utf8(t) && success ==> opt_text(key) == printed_key(t),
{
    if !success {
        return None;
    }
    let printed: String = read_lossy(stdout);
    key_in(printed.as_str())
}

/// How the command that stored a key ended.
pub fn keychain_write(success: bool, stderr: &[u8]) -> (r: Result<(), Error>)
    ensures
        match r {
            Ok(()) => success,
            Err(e) => !success && e@ == (ErrorView::KeychainWriteFailed {
                detail: trimmed(lossy_text(stderr@)),
            }),
        },
        forall|t: Seq<char>|
            stderr@ == #[trigger] encode_utf8(t) && !success ==> r is Err && r->Err_0@ == (
            ErrorView::KeychainWriteFailed { detail: trimmed(t) }),
{
    if success {
        return Ok(());
    }
    let said: String = read_lossy(stderr);
    Err(Error::KeychainWriteFailed { detail: trim_string(said.as_str()) })
}

/// How the command that deleted a key of a profile ended.
pub fn keychain_remove(profile: &str, success: bool, stderr: &[u8]) -> (r: Result<(), Error>)
    ensures
        match r {
            Ok(()) => success,
            Err(e) => !success && e@ == (ErrorView::KeychainRemoveFailed {
                profile: profile@,
                detail: trimmed(lossy_text(stderr@)),
            }),
        },
        forall|t: Seq<char>|
            stderr@ == #[trigger] encode_utf8(t) && !success ==> r is Err && r->Err_0@ == (
            ErrorView::KeychainRemoveFailed { profile: profile@, detail: trimmed(t) }),
{
    if success {
        return Ok(());
    }
    let said: String = read_lossy(stderr);
    Err(
        Error::KeychainRemoveFailed {
            profile: profile.to_owned(),
            detail: trim_string(said.as_str()),
        },
    )
}

/// An account name is `profile:`, then the whole name of the profile, then a colon, then the name
/// of the service and `-api-key`.
pub proof fn law_account_spells_profile_and_service(profile: Seq<char>)
    ensures
        account_name(profile, SecretKind::ElevenLabs) == "profile:"@ + profile
            + ":elevenlabs-api-key"@,
        account_name(profile, SecretKind::Hindsight) == "profile:"@ + profile
            + ":hindsight-api-key"@,
{
    reveal_strlit(":");
    reveal_strlit("elevenlabs");
    reveal_strlit("hindsight");
    reveal_strlit("-api-key");
    reveal_strlit(":elevenlabs-api-key");
    reveal_strlit(":hindsight-api-key");
    assert(":"@ + "elevenlabs"@ + "-api-key"@ == ":elevenlabs-api-key"@);
    assert(":"@ + "hindsight"@ + "-api-key"@ == ":hindsight-api-key"@);
    assert(account_name(profile, SecretKind::ElevenLabs) == "profile:"@ + profile + (":"@
        + "elevenlabs"@ + "-api-key"@));
    assert(account_name(profile, SecretKind::Hindsight) == "profile:"@ + profile + (":"@
        + "hindsight"@ + "-api-key"@));
}

/// The commands name the service and the account of the key, one argument each, and the command
/// that stores a key has the whole key as its last argument.
pub proof fn law_arguments_name_the_key(profile: Seq<char>, kind: SecretKind, api_key: Seq<char>)
    ensures
        ({
            let account = account_name(profile, kind);
            let write = write_arguments(profile, kind, api_key);
            let read = read_arguments(profile, kind);
            let remove = remove_arguments(profile, kind);
            &&& write.len() == 8 && write[0] == "add-generic-password"@ && write[1] == "-U"@
            &&& write[2] == "-s"@ && write[3] == "mnemo-secrets"@
            &&& write[4] == "-a"@ && write[5] == account
            &&& write[6] == "-w"@ && write[7] == api_key
            &&& read.len() == 6 && read[0] == "find-generic-password"@
            &&& read[1] == "-s"@ && read[2] == "mnemo-secrets"@
            &&& read[3] == "-a"@ && read[4] == account
            &&& read[5] == "-w"@
            &&& remove.len() == 5 && remove[0] == "delete-generic-password"@
            &&& remove[1] == "-s"@ && remove[2] == "mnemo-secrets"@
            &&& remove[3] == "-a"@ && remove[4] == account
            &&& list_arguments().len() == 1 && list_arguments()[0] == "dump-keychain"@
        }),
{
}

/// The names of the kinds are different ones.
pub proof fn law_kinds_have_names_of_their_own(a: SecretKind, b: SecretKind)
    ensures
        kind_name(a) == kind_name(b) ==> a == b,
        kind_display_name(a) == kind_display_name(b) ==> a == b,
        forall|name: Seq<char>|
            kind_named(name) is Some <==> #[trigger] kind_named(name) == Some(
                SecretKind::ElevenLabs,
            ) || kind_named(name) == Some(SecretKind::Hindsight),
        forall|name: Seq<char>|
            #[trigger] kind_named(name) is Some ==> kind_name(kind_named(name)->0) == name,
{
    law_kind_name_round_trip(a);
    law_kind_name_round_trip(b);
    reveal_strlit("ElevenLabs");
    reveal_strlit("Hindsight");
    assert("ElevenLabs"@[0] != "Hindsight"@[0]);
}

/// The text of an attribute: what stands between the first place where the attribute is given and
/// the next quotation mark. Without such a place, or such a mark, there is none.
pub proof fn law_text_of_an_attribute(line: Seq<char>, key: Seq<char>, value: Seq<char>)
    ensures
        ({
            let mark = "\""@ + key + "\"<blob>=\""@;
            blob_in(line, key) == Some(value) <==> !value.contains('"') && exists|at: int|
                {
                    &&& #[trigger] stands_at(line, mark, at)
                    &&& forall|k: int| 0 <= k < at ==> !#[trigger] stands_at(line, mark, k)
                    &&& stands_at(line, value.push('"'), at + mark.len())
                }
        }),
{
    let mark = "\""@ + key + "\"<blob>=\""@;
    law_finding(line, mark, 0);
    match find_from(line, mark, 0) {
        None => {},
        Some(at) => {
            let rest = line.skip(at + mark.len());
            let end = first_of(rest, '"');
            law_first_place(rest, '"');
            law_standing_at_a_place(line, value.push('"'), at + mark.len());
            let quoted = value.push('"');
            if blob_in(line, key) == Some(value) {
                if value.contains('"') {
                    let k = choose|k: int| 0 <= k < value.len() && value[k] == '"';
                    assert(rest[k] == '"');
                }
                assert forall|i: int| 0 <= i < quoted.len() implies line[at + mark.len() + i]
                    == #[trigger] quoted[i] by {
                    assert(rest[i] == line[at + mark.len() + i]);
                }
            }
            if !value.contains('"') && exists|p: int|
                {
                    &&& #[trigger] stands_at(line, mark, p)
                    &&& forall|k: int| 0 <= k < p ==> !#[trigger] stands_at(line, mark, k)
                    &&& stands_at(line, quoted, p + mark.len())
                } {
                let p = choose|p: int|
                    {
                        &&& #[trigger] stands_at(line, mark, p)
                        &&& forall|k: int| 0 <= k < p ==> !#[trigger] stands_at(line, mark, k)
                        &&& stands_at(line, quoted, p + mark.len())
                    };
                assert(p == at);
                let n = value.len() as int;
                assert forall|i: int| 0 <= i < n implies rest[i] != '"' by {
                    assert(rest[i] == line[at + mark.len() + i]);
                    assert(quoted[i] == value[i]);
                    assert(value.contains(value[i]));
                }
                assert(quoted[n] == '"');
                assert(rest[n] == line[at + mark.len() + n]);
                lemma_first_of(rest, '"', n);
                assert forall|i: int| 0 <= i < n implies rest.take(n)[i] == value[i] by {
                    assert(rest[i] == line[at + mark.len() + i]);
                    assert(quoted[i] == value[i]);
                }
                assert(rest.take(n) == value);
            }
        },
    }
}

/// A line begins an item if and only if it begins with `keychain:` or `class:`.
pub proof fn law_lines_that_begin_items(line: Seq<char>)
    ensures
        begins_item(line) <==> stands_at(line, "keychain:"@, 0) || stands_at(line, "class:"@, 0),
{
}

/// Entries are in order by their profiles, and for one profile that of ElevenLabs comes first.
pub proof fn law_order_of_entries(a: (Seq<char>, SecretKind), b: (Seq<char>, SecretKind))
    ensures
        entry_before(a, b) <==> text_before(a.0, b.0) || a.0 == b.0 && a.1 == SecretKind::ElevenLabs
            && b.1 == SecretKind::Hindsight,
{
    reveal_strlit("elevenlabs");
    reveal_strlit("hindsight");
    lemma_before_irreflexive("elevenlabs"@);
    lemma_before_irreflexive("hindsight"@);
    assert("elevenlabs"@[0] == 'e' && "hindsight"@[0] == 'h');
}

/// The sorted form holds exactly the entries, each one once, each before all that follow it.
pub proof fn law_sorted_form_holds_the_entries(
    entries: Seq<(Seq<char>, SecretKind)>,
    e: (Seq<char>, SecretKind),
)
    ensures
        sorted_form(entries).contains(e) <==> entries.contains(e),
        forall|i: int, j: int|
            0 <= i < j < sorted_form(entries).len() ==> entry_before(
                #[trigger] sorted_form(entries)[i],
                #[trigger] sorted_form(entries)[j],
            ),
        sorted_form(entries).no_duplicates(),
{
    law_sorted_form_sorts(entries);
    let sorted = sorted_form(entries);
    assert forall|i: int, j: int| 0 <= i < sorted.len() && 0 <= j < sorted.len() && i
        != j implies sorted[i] != sorted[j] by {
        lemma_entry_irreflexive(sorted[i]);
        if i < j {
            assert(entry_before(sorted[i], sorted[j]));
        } else {
            assert(entry_before(sorted[j], sorted[i]));
        }
    }
}

/// A printed key is what stands between the white space, whole; nothing but white space is no key.
pub proof fn law_printed_key_is_whole(before: Seq<char>, key: Seq<char>, after: Seq<char>)
    requires
        forall|i: int| 0 <= i < before.len() ==> is_white_space(#[trigger] before[i]),
        forall|i: int| 0 <= i < after.len() ==> is_white_space(#[trigger] after[i]),
        key.len() > 0 ==> !is_white_space(key[0]) && !is_white_space(key[key.len() - 1]),
    ensures
        printed_key(before + key + after) == if key.len() > 0 {
            Some(key)
        } else {
            None
        },
{
    law_trimming_takes_only_white_space(before, key, after);
}

/// The views of entries are their profiles and kinds, one by one.
pub proof fn law_views_of_entries(entries: Seq<KeychainEntry>)
    ensures
        entry_views(entries).len() == entries.len(),
        forall|i: int|
            0 <= i < entries.len() ==> #[trigger] entry_views(entries)[i] == (
                entries[i].profile@,
                entries[i].kind,
            ),
{
}

/// A listed item stands for an entry if and only if its service is ours and its account name is
/// that of the entry.
pub proof fn law_items_stand_for_entries(
    service: Option<Seq<char>>,
    account: Option<Seq<char>>,
    e: (Seq<char>, SecretKind),
)
    ensures
        item_entry(service, account) == Some(e) <==> service == Some("mnemo-secrets"@) && account
            == Some(account_name(e.0, e.1)),
{
    if account is Some {
        lemma_account_of_entry(account->0, e);
    }
}

} // verus!

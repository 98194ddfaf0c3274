//! Metadata that is attached to a retained note: texts under distinct keys.

use vstd::prelude::*;
use vstd::slice::slice_subrange;

use crate::error::Error;
#[allow(unused_imports)]
use crate::error::ErrorView;
use crate::text::{chars_of, comes_before, position_of, same_string, string_of};
#[allow(unused_imports)]
use crate::text::{
    first_of, has_prefix, law_first_place, lemma_before_irreflexive, lemma_before_total,
    lemma_before_transitive, lemma_first_of, text_before, texts,
};

verus! {

/// The map that a list of pairs spells out; of two pairs with one key, the later one counts.
pub open spec fn pairs_map(pairs: Seq<(String, String)>) -> Map<Seq<char>, Seq<char>>
    decreases pairs.len(),
{
    if pairs.len() == 0 {
        Map::empty()
    } else {
        pairs_map(pairs.drop_last()).insert(pairs.last().0@, pairs.last().1@)
    }
}

/// Whether the keys of the pairs increase strictly, so that none occurs twice.
pub open spec fn keys_increase(pairs: Seq<(String, String)>) -> bool {
    forall|i: int, j: int|
        0 <= i < j < pairs.len() ==> text_before(#[trigger] pairs[i].0@, #[trigger] pairs[j].0@)
}

/// Texts under distinct keys, in the order of the keys.
#[derive(Debug)]
pub struct Metadata {
    entries: Vec<(String, String)>,
}

impl View for Metadata {
    type V = Map<Seq<char>, Seq<char>>;

    closed spec fn view(&self) -> Map<Seq<char>, Seq<char>> {
        pairs_map(self.entries@)
    }
}

/// A key of the map is a key of one of the pairs.
proof fn lemma_key_has_pair(pairs: Seq<(String, String)>, key: Seq<char>)
    requires
        pairs_map(pairs).dom().contains(key),
    ensures
        exists|i: int| 0 <= i < pairs.len() && #[trigger] pairs[i].0@ == key,
    decreases pairs.len(),
{
    if pairs.len() > 0 {
        if pairs.last().0@ == key {
            assert(pairs[pairs.len() - 1].0@ == key);
        } else {
            lemma_key_has_pair(pairs.drop_last(), key);
            let i = choose|i: int|
                0 <= i < pairs.len() - 1 && #[trigger] pairs.drop_last()[i].0@ == key;
            assert(pairs[i].0@ == key);
        }
    }
}

/// Where the keys are distinct, every pair counts.
proof fn lemma_pair_counts(pairs: Seq<(String, String)>, i: int)
    requires
        0 <= i < pairs.len(),
        keys_increase(pairs),
    ensures
        pairs_map(pairs).dom().contains(pairs[i].0@),
        pairs_map(pairs)[pairs[i].0@] == pairs[i].1@,
    decreases pairs.len(),
{
    if i < pairs.len() - 1 {
        let front = pairs.drop_last();
        assert forall|a: int, b: int| 0 <= a < b < front.len() implies text_before(
            #[trigger] front[a].0@,
            #[trigger] front[b].0@,
        ) by {
            assert(text_before(pairs[a].0@, pairs[b].0@));
        }
        lemma_pair_counts(front, i);
        assert(text_before(pairs[i].0@, pairs[pairs.len() - 1].0@));
        lemma_before_irreflexive(pairs[i].0@);
    }
}

/// A list in two parts spells out the map of the first part, overridden by that of the second.
proof fn lemma_map_of_parts(a: Seq<(String, String)>, b: Seq<(String, String)>)
    ensures
        pairs_map(a + b) == pairs_map(a).union_prefer_right(pairs_map(b)),
    decreases b.len(),
{
    if b.len() == 0 {
        assert(a + b == a);
        assert(pairs_map(a).union_prefer_right(pairs_map(b)) =~= pairs_map(a));
    } else {
        lemma_map_of_parts(a, b.drop_last());
        assert((a + b).drop_last() == a + b.drop_last());
        assert(pairs_map(a + b) =~= pairs_map(a).union_prefer_right(pairs_map(b)));
    }
}

/// Putting a pair between the smaller keys and the larger ones sets its key, whether or not the
/// key stood there before.
proof fn lemma_map_after_change(
    low: Seq<(String, String)>,
    replaced: Seq<(String, String)>,
    high: Seq<(String, String)>,
    pair: (String, String),
)
    requires
        replaced.len() <= 1,
        replaced.len() == 1 ==> replaced[0].0@ == pair.0@,
        forall|j: int| 0 <= j < high.len() ==> text_before(pair.0@, #[trigger] high[j].0@),
    ensures
        pairs_map(low + seq![pair] + high) == pairs_map(low + replaced + high).insert(
            pair.0@,
            pair.1@,
        ),
{
    let key = pair.0@;
    lemma_map_of_parts(low + seq![pair], high);
    lemma_map_of_parts(low + replaced, high);
    assert((low + seq![pair]).drop_last() == low);
    if replaced.len() == 1 {
        assert((low + replaced).drop_last() == low);
    } else {
        assert(low + replaced == low);
    }
    if pairs_map(high).dom().contains(key) {
        lemma_key_has_pair(high, key);
        lemma_before_irreflexive(key);
    }
    assert(pairs_map(low + seq![pair] + high) =~= pairs_map(low + replaced + high).insert(
        pair.0@,
        pair.1@,
    ));
}

/// Putting a pair between the smaller keys and the larger ones keeps the order.
proof fn lemma_order_after_change(
    low: Seq<(String, String)>,
    high: Seq<(String, String)>,
    pair: (String, String),
)
    requires
        keys_increase(low),
        keys_increase(high),
        forall|i: int| 0 <= i < low.len() ==> text_before(#[trigger] low[i].0@, pair.0@),
        forall|j: int| 0 <= j < high.len() ==> text_before(pair.0@, #[trigger] high[j].0@),
    ensures
        keys_increase(low + seq![pair] + high),
{
    let all = low + seq![pair] + high;
    let n = low.len();
    assert forall|i: int, j: int| 0 <= i < j < all.len() implies text_before(
        #[trigger] all[i].0@,
        #[trigger] all[j].0@,
    ) by {
        if j < n {
            assert(text_before(low[i].0@, low[j].0@));
        } else if i < n && j == n {
            assert(text_before(low[i].0@, pair.0@));
        } else if i < n {
            assert(text_before(low[i].0@, pair.0@));
            assert(text_before(pair.0@, high[j - n - 1].0@));
            lemma_before_transitive(low[i].0@, pair.0@, high[j - n - 1].0@);
        } else if i == n {
            assert(text_before(pair.0@, high[j - n - 1].0@));
        } else {
            assert(text_before(high[i - n - 1].0@, high[j - n - 1].0@));
        }
    }
}

impl Metadata {
    /// The keys increase strictly.
    #[verifier::type_invariant]
    closed spec fn ordered(self) -> bool {
        keys_increase(self.entries@)
    }

    /// Metadata without entries.
    pub fn new() -> (m: Metadata)
        ensures
            m@ == Map::<Seq<char>, Seq<char>>::empty(),
    {
        Metadata { entries: Vec::new() }
    }

    /// Whether there is no entry.
    pub fn is_empty(&self) -> (empty: bool)
        ensures
            empty == (self@ == Map::<Seq<char>, Seq<char>>::empty()),
    {
        proof {
            use_type_invariant(self);
            if self.entries@.len() > 0 {
                lemma_pair_counts(self.entries@, 0);
                assert(self@.dom().contains(self.entries@[0].0@));
            }
        }
        self.entries.len() == 0
    }

    /// Sets the text under a key, in place of the one that stood there.
    pub fn insert(&mut self, key: String, value: String)
        ensures
            final(self)@ == old(self)@.insert(key@, value@),
    {
        proof {
            use_type_invariant(&*self);
        }
        let mut entries: Vec<(String, String)> = Vec::new();
        std::mem::swap(&mut entries, &mut self.entries);
        let ghost before: Seq<(String, String)> = entries@;
        let mut at: usize = 0;
        while at < entries.len() && comes_before(entries[at].0.as_str(), key.as_str())
            invariant
                at <= entries.len(),
                entries@ == before,
                forall|i: int| 0 <= i < at ==> text_before(#[trigger] before[i].0@, key@),
            decreases entries.len() - at,
        {
            at += 1;
        }
        let present: bool = at < entries.len() && same_string(entries[at].0.as_str(), key.as_str());
        if present {
            let _ = entries.remove(at);
        }
        let ghost pair: (String, String) = (key, value);
        entries.insert(at, (key, value));
        proof {
            let past: int = if present {
                at + 1
            } else {
                at as int
            };
            let low = before.take(at as int);
            let replaced = before.subrange(at as int, past);
            let high = before.skip(past);
            assert(before == low + replaced + high);
            assert(entries@ == low + seq![pair] + high);
            assert forall|j: int| 0 <= j < high.len() implies text_before(
                key@,
                #[trigger] high[j].0@,
            ) by {
                let b = before[at as int].0@;
                assert(high[j] == before[past + j]);
                if !present {
                    lemma_before_total(b, key@);
                }
                if at < past + j {
                    assert(text_before(b, before[past + j].0@));
                    if !present {
                        lemma_before_transitive(key@, b, before[past + j].0@);
                    }
                }
            }
            assert(keys_increase(low)) by {
                assert forall|i: int, j: int| 0 <= i < j < low.len() implies text_before(
                    #[trigger] low[i].0@,
                    #[trigger] low[j].0@,
                ) by {
                    assert(text_before(before[i].0@, before[j].0@));
                }
            }
            assert(keys_increase(high)) by {
                assert forall|i: int, j: int| 0 <= i < j < high.len() implies text_before(
                    #[trigger] high[i].0@,
                    #[trigger] high[j].0@,
                ) by {
                    assert(text_before(before[past + i].0@, before[past + j].0@));
                }
            }
            assert forall|i: int| 0 <= i < low.len() implies text_before(
                #[trigger] low[i].0@,
                pair.0@,
            ) by {
                assert(text_before(before[i].0@, key@));
            }
            lemma_map_after_change(low, replaced, high, pair);
            lemma_order_after_change(low, high, pair);
        }
        self.entries = entries;
    }

    /// The entries, in the order of their keys.
    pub fn entries(&self) -> (pairs: &Vec<(String, String)>)
        ensures
            pairs_map(pairs@) == self@,
            keys_increase(pairs@),
    {
        proof {
            use_type_invariant(self);
        }
        &self.entries
    }
}

/// What a `KEY=VALUE` entry lacks, if it is not one.
pub open spec fn entry_fault(entry: Seq<char>) -> Option<ErrorView> {
    let at = first_of(entry, '=');
    if at >= entry.len() {
        Some(ErrorView::MetadataFormat { entry })
    } else if at == 0 {
        Some(ErrorView::MetadataEmptyKey)
    } else {
        None
    }
}

/// The key of a `KEY=VALUE` entry: what stands before the first `=`.
pub open spec fn entry_key(entry: Seq<char>) -> Seq<char> {
    entry.take(first_of(entry, '='))
}

/// The value of a `KEY=VALUE` entry: what stands after the first `=`.
pub open spec fn entry_value(entry: Seq<char>) -> Seq<char> {
    entry.skip(first_of(entry, '=') + 1)
}

/// An entry that was made of a key and a value spells them out again. A key with `=` in it would be
/// cut there, and an empty one is refused.
pub proof fn law_entry_spells_key_and_value(key: Seq<char>, value: Seq<char>)
    requires
        key.len() > 0,
        !key.contains('='),
    ensures
        ({
            let entry = key.push('=') + value;
            &&& entry_fault(entry) is None
            &&& entry_key(entry) == key
            &&& entry_value(entry) == value
        }),
{
    let entry = key.push('=') + value;
    assert forall|i: int| 0 <= i < key.len() implies entry[i] != '=' by {
        assert(key.contains(key[i]));
    }
    lemma_first_of(entry, '=', key.len() as int);
    assert(entry.take(key.len() as int) == key);
    assert(entry.skip(key.len() as int + 1) == value);
}

/// The map that `KEY=VALUE` entries spell out, or the fault of the first one that is none. Of two
/// entries with one key, the later one counts.
pub open spec fn entries_map(entries: Seq<Seq<char>>) -> Result<
    Map<Seq<char>, Seq<char>>,
    ErrorView,
>
    decreases entries.len(),
{
    if entries.len() == 0 {
        Ok(Map::empty())
    } else {
        match entries_map(entries.drop_last()) {
            Err(e) => Err(e),
            Ok(m) => match entry_fault(entries.last()) {
                Some(e) => Err(e),
                None => Ok(m.insert(entry_key(entries.last()), entry_value(entries.last()))),
            },
        }
    }
}

/// Whatever follows a bad entry, the bad entry decides.
proof fn lemma_first_fault_decides(entries: Seq<Seq<char>>, upto: int, e: ErrorView)
    requires
        0 <= upto <= entries.len(),
        entries_map(entries.take(upto)) == Err::<Map<Seq<char>, Seq<char>>, ErrorView>(e),
    ensures
        entries_map(entries) == Err::<Map<Seq<char>, Seq<char>>, ErrorView>(e),
    decreases entries.len(),
{
    if upto == entries.len() {
        assert(entries.take(upto) == entries);
    } else {
        assert(entries.drop_last().take(upto) == entries.take(upto));
        lemma_first_fault_decides(entries.drop_last(), upto, e);
    }
}

/// The view of optional metadata.
pub open spec fn opt_map(m: Option<Metadata>) -> Option<Map<Seq<char>, Seq<char>>> {
    match m {
        Some(m) => Some(m@),
        None => None,
    }
}

/// Reads `KEY=VALUE` entries; without entries there is no metadata.
pub fn parse_metadata_entries(entries: Vec<String>) -> (r: Result<Option<Metadata>, Error>)
    ensures
        match r {
            Ok(None) => entries@.len() == 0,
            Ok(Some(m)) => entries@.len() > 0 && entries_map(texts(entries@)) == Ok::<
                Map<Seq<char>, Seq<char>>,
                ErrorView,
            >(m@),
            Err(e) => entries_map(texts(entries@)) == Err::<Map<Seq<char>, Seq<char>>, ErrorView>(
                e@,
            ),
        },
{
    if entries.len() == 0 {
        return Ok(None);
    }
    let ghost all: Seq<Seq<char>> = texts(entries@);
    let mut metadata: Metadata = Metadata::new();
    let mut i: usize = 0;
    assert(all.take(0) == Seq::<Seq<char>>::empty());
    while i < entries.len()
        invariant
            i <= entries.len(),
            entries.len() > 0,
            all == texts(entries@),
            entries_map(all.take(i as int)) == Ok::<Map<Seq<char>, Seq<char>>, ErrorView>(
                metadata@,
            ),
        decreases entries.len() - i,
    {
        let entry: Vec<char> = chars_of(entries[i].as_str());
        assert(all[i as int] == entry@);
        assert(all.take(i + 1).drop_last() == all.take(i as int));
        assert(all.take(i + 1).last() == entry@);
        let at: usize = position_of(entry.as_slice(), '=');
        if at == entry.len() {
            proof {
                lemma_first_fault_decides(
                    all,
                    i + 1,
                    ErrorView::MetadataFormat { entry: entry@ },
                );
            }
            return Err(Error::MetadataFormat { entry: entries[i].clone() });
        }
        if at == 0 {
            proof {
                lemma_first_fault_decides(all, i + 1, ErrorView::MetadataEmptyKey);
            }
            return Err(Error::MetadataEmptyKey);
        }
        let key: String = string_of(slice_subrange(entry.as_slice(), 0, at));
        let value: String = string_of(slice_subrange(entry.as_slice(), at + 1, entry.len()));
        assert(key@ == entry_key(entry@));
        assert(value@ == entry_value(entry@));
        metadata.insert(key, value);
        i += 1;
    }
    assert(all.take(i as int) == all);
    Ok(Some(metadata))
}

/// What `serde_json` reads from a text that is to be an object of strings: the map, or the words
/// of its complaint.
pub uninterp spec fn json_object_of_strings(text: Seq<char>) -> Result<
    Map<Seq<char>, Seq<char>>,
    Seq<char>,
>;

/// Reads an object of strings with `serde_json::from_str`. The contract names what comes back: the
/// pairs spell out the named map, or the text is that of the named complaint.
#[verifier::external_body]
fn read_json_object_of_strings(text: &str) -> (r: Result<Vec<(String, String)>, String>)
    ensures
        match r {
            Ok(pairs) => json_object_of_strings(text@) == Ok::<
                Map<Seq<char>, Seq<char>>,
                Seq<char>,
            >(pairs_map(pairs@)),
            Err(reason) => json_object_of_strings(text@) == Err::<
                Map<Seq<char>, Seq<char>>,
                Seq<char>,
            >(reason@),
        },
{
    match serde_json::from_str::<std::collections::BTreeMap<String, String>>(text) {
        Ok(map) => Ok(map.into_iter().collect()),
        Err(error) => Err(error.to_string()),
    }
}

/// Metadata from pairs; of two pairs with one key, the later one counts.
pub fn metadata_of_pairs(pairs: Vec<(String, String)>) -> (m: Metadata)
    ensures
        m@ == pairs_map(pairs@),
{
    let mut metadata: Metadata = Metadata::new();
    let mut i: usize = 0;
    assert(pairs@.take(0) == Seq::<(String, String)>::empty());
    while i < pairs.len()
        invariant
            i <= pairs.len(),
            metadata@ == pairs_map(pairs@.take(i as int)),
        decreases pairs.len() - i,
    {
        metadata.insert(pairs[i].0.clone(), pairs[i].1.clone());
        i += 1;
        assert(pairs@.take(i as int).drop_last() == pairs@.take(i - 1));
    }
    assert(pairs@.take(i as int) == pairs@);
    metadata
}

/// What becomes of the metadata variable once its JSON was read.
pub fn metadata_from_json(read: Result<Vec<(String, String)>, String>) -> (r: Result<
    Option<Metadata>,
    Error,
>)
    ensures
        match (read, r) {
            (Ok(pairs), Ok(Some(m))) => m@ == pairs_map(pairs@),
            (Err(reason), Err(e)) => e@ == (ErrorView::MetadataJson { reason: reason@ }),
            _ => false,
        },
{
    match read {
        Ok(pairs) => Ok(Some(metadata_of_pairs(pairs))),
        Err(reason) => Err(Error::MetadataJson { reason }),
    }
}

/// Reads the metadata variable: a JSON object of strings, or nothing where it is not set.
pub fn parse_metadata_env(variable: Option<String>) -> (r: Result<Option<Metadata>, Error>)
    ensures
        match (variable, r) {
            (None, Ok(None)) => true,
            (Some(text), Ok(Some(m))) => json_object_of_strings(text@) == Ok::<
                Map<Seq<char>, Seq<char>>,
                Seq<char>,
            >(m@),
            (Some(text), Err(e)) => json_object_of_strings(text@) is Err && e@ == (
            ErrorView::MetadataJson { reason: json_object_of_strings(text@)->Err_0 }),
            _ => false,
        },
{
    match variable {
        None => Ok(None),
        Some(text) => metadata_from_json(read_json_object_of_strings(text.as_str())),
    }
}

/// A key is in the map that pairs spell out if and only if it is the key of one of them, and its
/// text is that of the last one.
pub proof fn law_last_pair_counts(pairs: Seq<(String, String)>, key: Seq<char>, value: Seq<char>)
    ensures
        pairs_map(pairs).dom().contains(key) && pairs_map(pairs)[key] == value <==> exists|i: int|
            {
                &&& 0 <= i < pairs.len()
                &&& #[trigger] pairs[i].0@ == key
                &&& pairs[i].1@ == value
                &&& forall|j: int| i < j < pairs.len() ==> #[trigger] pairs[j].0@ != key
            },
    decreases pairs.len(),
{
    if pairs.len() > 0 {
        let front = pairs.drop_last();
        let n = front.len() as int;
        law_last_pair_counts(front, key, value);
        assert(pairs[n] == pairs.last());
        if pairs.last().0@ != key {
            if exists|i: int|
                {
                    &&& 0 <= i < front.len()
                    &&& #[trigger] front[i].0@ == key
                    &&& front[i].1@ == value
                    &&& forall|j: int| i < j < front.len() ==> #[trigger] front[j].0@ != key
                } {
                let i = choose|i: int|
                    {
                        &&& 0 <= i < front.len()
                        &&& #[trigger] front[i].0@ == key
                        &&& front[i].1@ == value
                        &&& forall|j: int| i < j < front.len() ==> #[trigger] front[j].0@ != key
                    };
                assert(pairs[i].0@ == key);
                assert forall|j: int| i < j < pairs.len() implies #[trigger] pairs[j].0@ != key by {
                    if j < n {
                        assert(front[j].0@ != key);
                    }
                }
            }
            if exists|i: int|
                {
                    &&& 0 <= i < pairs.len()
                    &&& #[trigger] pairs[i].0@ == key
                    &&& pairs[i].1@ == value
                    &&& forall|j: int| i < j < pairs.len() ==> #[trigger] pairs[j].0@ != key
                } {
                let i = choose|i: int|
                    {
                        &&& 0 <= i < pairs.len()
                        &&& #[trigger] pairs[i].0@ == key
                        &&& pairs[i].1@ == value
                        &&& forall|j: int| i < j < pairs.len() ==> #[trigger] pairs[j].0@ != key
                    };
                assert(front[i].0@ == key);
                assert forall|j: int| i < j < front.len() implies #[trigger] front[j].0@ != key by {
                    assert(pairs[j].0@ != key);
                }
            }
        }
    }
}

/// Whether a text is a `KEY=VALUE` entry: an equals sign stands in it, but not at its beginning.
proof fn lemma_entry_is_good(entry: Seq<char>)
    ensures
        entry_fault(entry) is None <==> entry.contains('=') && entry[0] != '=',
        entry_fault(entry) is Some ==> entry_fault(entry)->0 == if entry.contains('=') {
            ErrorView::MetadataEmptyKey
        } else {
            ErrorView::MetadataFormat { entry }
        },
        entry_fault(entry) is None ==> entry == entry_key(entry).push('=') + entry_value(entry)
            && entry_key(entry).len() > 0 && !entry_key(entry).contains('='),
{
    law_first_place(entry, '=');
    let at = first_of(entry, '=');
    if at < entry.len() {
        assert(entry[at] == '=');
        assert(entry == entry.take(at).push('=') + entry.skip(at + 1));
        if at > 0 {
            assert(entry[0] != '=');
        }
        if entry.take(at).contains('=') {
            let k = choose|k: int| 0 <= k < at && entry.take(at)[k] == '=';
            assert(entry[k] == '=');
        }
    } else if entry.contains('=') {
        let k = choose|k: int| 0 <= k < entry.len() && entry[k] == '=';
        assert(entry[k] == '=');
    }
}

/// Entries are refused if and only if one of them is not `KEY=VALUE`, for the first such entry: for
/// want of an equals sign, or of a key before it.
pub proof fn law_first_bad_entry_is_refused(entries: Seq<Seq<char>>)
    ensures
        entries_map(entries) is Ok <==> forall|i: int|
            0 <= i < entries.len() ==> (#[trigger] entries[i]).contains('=') && entries[i][0]
                != '=',
        entries_map(entries) is Err ==> exists|i: int|
            {
                &&& 0 <= i < entries.len()
                &&& !((#[trigger] entries[i]).contains('=') && entries[i][0] != '=')
                &&& forall|j: int|
                    0 <= j < i ==> (#[trigger] entries[j]).contains('=') && entries[j][0] != '='
                &&& entries_map(entries)->Err_0 == if entries[i].contains('=') {
                    ErrorView::MetadataEmptyKey
                } else {
                    ErrorView::MetadataFormat { entry: entries[i] }
                }
            },
    decreases entries.len(),
{
    if entries.len() > 0 {
        let front = entries.drop_last();
        let n = front.len() as int;
        law_first_bad_entry_is_refused(front);
        lemma_entry_is_good(entries.last());
        assert(entries[n] == entries.last());
        assert forall|i: int| 0 <= i < n implies front[i] == #[trigger] entries[i] by {}
        if entries_map(front) is Err {
            let i = choose|i: int|
                {
                    &&& 0 <= i < front.len()
                    &&& !((#[trigger] front[i]).contains('=') && front[i][0] != '=')
                    &&& forall|j: int|
                        0 <= j < i ==> (#[trigger] front[j]).contains('=') && front[j][0] != '='
                    &&& entries_map(front)->Err_0 == if front[i].contains('=') {
                        ErrorView::MetadataEmptyKey
                    } else {
                        ErrorView::MetadataFormat { entry: front[i] }
                    }
                };
            assert(front[i] == entries[i]);
            assert forall|j: int| 0 <= j < i implies (#[trigger] entries[j]).contains('=')
                && entries[j][0] != '=' by {
                assert(front[j].contains('='));
            }
        } else {
            assert forall|j: int| 0 <= j < n implies (#[trigger] entries[j]).contains('=')
                && entries[j][0] != '=' by {
                assert(front[j].contains('='));
            }
        }
    }
}

/// Of entries that are all `KEY=VALUE`, a key has a value if and only if the last entry with that
/// key gives it.
pub proof fn law_last_entry_counts(entries: Seq<Seq<char>>, key: Seq<char>, value: Seq<char>)
    requires
        entries_map(entries) is Ok,
        key.len() > 0,
        !key.contains('='),
    ensures
        ({
            let map = entries_map(entries)->Ok_0;
            map.dom().contains(key) && map[key] == value <==> exists|i: int|
                {
                    &&& 0 <= i < entries.len()
                    &&& #[trigger] entries[i] == key.push('=') + value
                    &&& forall|j: int|
                        i < j < entries.len() ==> !has_prefix(#[trigger] entries[j], key.push('='))
                }
        }),
    decreases entries.len(),
{
    if entries.len() > 0 {
        let front = entries.drop_last();
        let n = front.len() as int;
        let last = entries.last();
        law_last_entry_counts(front, key, value);
        lemma_entry_is_good(last);
        assert(entries[n] == last);
        assert forall|i: int| 0 <= i < n implies front[i] == #[trigger] entries[i] by {}
        lemma_key_is_prefix(last, key);
        if entry_key(last) == key {
            if entry_value(last) == value {
                assert(entries[n] == key.push('=') + value);
            }
            if exists|i: int|
                {
                    &&& 0 <= i < entries.len()
                    &&& #[trigger] entries[i] == key.push('=') + value
                    &&& forall|j: int|
                        i < j < entries.len() ==> !has_prefix(#[trigger] entries[j], key.push('='))
                } {
                let i = choose|i: int|
                    {
                        &&& 0 <= i < entries.len()
                        &&& #[trigger] entries[i] == key.push('=') + value
                        &&& forall|j: int|
                            i < j < entries.len() ==> !has_prefix(
                                #[trigger] entries[j],
                                key.push('='),
                            )
                    };
                if i < n {
                    assert(!has_prefix(entries[n], key.push('=')));
                }
                law_entry_spells_key_and_value(key, value);
            }
        } else {
            if exists|i: int|
                {
                    &&& 0 <= i < front.len()
                    &&& #[trigger] front[i] == key.push('=') + value
                    &&& forall|j: int|
                        i < j < front.len() ==> !has_prefix(#[trigger] front[j], key.push('='))
                } {
                let i = choose|i: int|
                    {
                        &&& 0 <= i < front.len()
                        &&& #[trigger] front[i] == key.push('=') + value
                        &&& forall|j: int|
                            i < j < front.len() ==> !has_prefix(#[trigger] front[j], key.push('='))
                    };
                assert(entries[i] == key.push('=') + value);
                assert forall|j: int| i < j < entries.len() implies !has_prefix(
                    #[trigger] entries[j],
                    key.push('='),
                ) by {
                    if j < n {
                        assert(!has_prefix(front[j], key.push('=')));
                    }
                }
            }
            if exists|i: int|
                {
                    &&& 0 <= i < entries.len()
                    &&& #[trigger] entries[i] == key.push('=') + value
                    &&& forall|j: int|
                        i < j < entries.len() ==> !has_prefix(#[trigger] entries[j], key.push('='))
                } {
                let i = choose|i: int|
                    {
                        &&& 0 <= i < entries.len()
                        &&& #[trigger] entries[i] == key.push('=') + value
                        &&& forall|j: int|
                            i < j < entries.len() ==> !has_prefix(
                                #[trigger] entries[j],
                                key.push('='),
                            )
                    };
                law_entry_spells_key_and_value(key, value);
                assert(i < n);
                assert(front[i] == key.push('=') + value);
                assert forall|j: int| i < j < front.len() implies !has_prefix(
                    #[trigger] front[j],
                    key.push('='),
                ) by {
                    assert(!has_prefix(entries[j], key.push('=')));
                }
            }
        }
    }
}

/// An entry begins with a key and an equals sign if and only if that is its key.
proof fn lemma_key_is_prefix(entry: Seq<char>, key: Seq<char>)
    requires
        entry_fault(entry) is None,
        key.len() > 0,
        !key.contains('='),
    ensures
        has_prefix(entry, key.push('=')) <==> entry_key(entry) == key,
{
    let start = key.push('=');
    lemma_entry_is_good(entry);
    if has_prefix(entry, start) {
        let value = entry.skip(start.len() as int);
        assert(entry.subrange(0, start.len() as int) == start);
        assert(entry == start + value);
        law_entry_spells_key_and_value(key, value);
    }
    if entry_key(entry) == key {
        assert(entry.subrange(0, start.len() as int) == start);
    }
}

/// The view of optional metadata is that of the metadata, if there is any.
pub proof fn law_view_of_optional_metadata(metadata: Option<Metadata>)
    ensures
        opt_map(metadata) is Some <==> metadata is Some,
        metadata is Some ==> opt_map(metadata)->0 == metadata->0@,
{
}

} // verus!

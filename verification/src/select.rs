//! Choosing among settings: the first one that is there and not empty wins.

use vstd::prelude::*;

use crate::metadata::Metadata;
#[allow(unused_imports)]
use crate::metadata::opt_map;
use crate::paths::NativePath;
#[allow(unused_imports)]
use crate::paths::opt_path;
use crate::text::{chars_of, split, trim_string};
#[allow(unused_imports)]
use crate::text::{
    law_pieces_of_two_parts, lemma_first_of, opt_text, split_on, texts, trimmed,
};

verus! {

/// The first of `values` that is there and not empty.
pub open spec fn first_present<T>(values: Seq<Option<Seq<T>>>) -> Option<Seq<T>>
    decreases values.len(),
{
    if values.len() == 0 {
        None
    } else {
        match values.first() {
            Some(v) if v.len() > 0 => Some(v),
            _ => first_present(values.drop_first()),
        }
    }
}

/// The views of a sequence of optional strings.
pub open spec fn opt_texts(values: Seq<Option<String>>) -> Seq<Option<Seq<char>>> {
    values.map_values(|v: Option<String>| opt_text(v))
}

/// The first string that is there and not empty.
pub fn first_some<const N: usize>(values: [Option<String>; N]) -> (chosen: Option<String>)
    ensures
        opt_text(chosen) == first_present(opt_texts(values@)),
{
    let mut left: [Option<String>; N] = values;
    let mut i: usize = 0;
    assert(opt_texts(values@).skip(0) == opt_texts(values@));
    while i < N
        invariant
            i <= N,
            forall|k: int| i <= k < N ==> left@[k] == values@[k],
            first_present(opt_texts(values@)) == first_present(opt_texts(values@).skip(i as int)),
        decreases N - i,
    {
        assert(opt_texts(values@).skip(i as int).drop_first() == opt_texts(values@).skip(i + 1));
        let value: Option<String> = left[i].take();
        if let Some(text) = value {
            if !text.as_str().is_empty() {
                return Some(text);
            }
        }
        i += 1;
    }
    None
}

/// The views of a sequence of optional paths.
pub open spec fn opt_paths(values: Seq<Option<NativePath>>) -> Seq<Option<Seq<u8>>> {
    values.map_values(|v: Option<NativePath>| opt_path(v))
}

/// The first path that is there and not empty.
pub fn first_some_path<const N: usize>(values: [Option<NativePath>; N]) -> (chosen: Option<
    NativePath,
>)
    ensures
        opt_path(chosen) == first_present(opt_paths(values@)),
{
    let mut left: [Option<NativePath>; N] = values;
    let mut i: usize = 0;
    assert(opt_paths(values@).skip(0) == opt_paths(values@));
    while i < N
        invariant
            i <= N,
            forall|k: int| i <= k < N ==> left@[k] == values@[k],
            first_present(opt_paths(values@)) == first_present(opt_paths(values@).skip(i as int)),
        decreases N - i,
    {
        assert(opt_paths(values@).skip(i as int).drop_first() == opt_paths(values@).skip(i + 1));
        let value: Option<NativePath> = left[i].take();
        if let Some(present) = value {
            if !present.is_empty() {
                return Some(present);
            }
        }
        i += 1;
    }
    None
}

/// The first of `values` that is there and has an entry.
pub open spec fn first_present_map<K, V>(values: Seq<Option<Map<K, V>>>) -> Option<Map<K, V>>
    decreases values.len(),
{
    if values.len() == 0 {
        None
    } else {
        match values.first() {
            Some(m) if m != Map::<K, V>::empty() => Some(m),
            _ => first_present_map(values.drop_first()),
        }
    }
}

/// The views of a sequence of optional metadata.
pub open spec fn opt_maps(values: Seq<Option<Metadata>>) -> Seq<Option<Map<Seq<char>, Seq<char>>>> {
    values.map_values(|v: Option<Metadata>| opt_map(v))
}

/// The first metadata that is there and has an entry.
pub fn first_some_metadata<const N: usize>(values: [Option<Metadata>; N]) -> (chosen: Option<
    Metadata,
>)
    ensures
        opt_map(chosen) == first_present_map(opt_maps(values@)),
{
    let mut left: [Option<Metadata>; N] = values;
    let mut i: usize = 0;
    assert(opt_maps(values@).skip(0) == opt_maps(values@));
    while i < N
        invariant
            i <= N,
            forall|k: int| i <= k < N ==> left@[k] == values@[k],
            first_present_map(opt_maps(values@)) == first_present_map(
                opt_maps(values@).skip(i as int),
            ),
        decreases N - i,
    {
        assert(opt_maps(values@).skip(i as int).drop_first() == opt_maps(values@).skip(i + 1));
        let value: Option<Metadata> = left[i].take();
        if let Some(present) = value {
            if !present.is_empty() {
                return Some(present);
            }
        }
        i += 1;
    }
    None
}

/// The view of an optional list of strings.
pub open spec fn opt_list(v: Option<Vec<String>>) -> Option<Seq<Seq<char>>> {
    match v {
        Some(list) => Some(texts(list@)),
        None => None,
    }
}

/// The views of a sequence of optional lists of strings.
pub open spec fn opt_lists(values: Seq<Option<Vec<String>>>) -> Seq<Option<Seq<Seq<char>>>> {
    values.map_values(|v: Option<Vec<String>>| opt_list(v))
}

/// The first list that is there and has an element.
pub fn first_some_vec<const N: usize>(values: [Option<Vec<String>>; N]) -> (chosen: Option<
    Vec<String>,
>)
    ensures
        opt_list(chosen) == first_present(opt_lists(values@)),
{
    let mut left: [Option<Vec<String>>; N] = values;
    let mut i: usize = 0;
    assert(opt_lists(values@).skip(0) == opt_lists(values@));
    while i < N
        invariant
            i <= N,
            forall|k: int| i <= k < N ==> left@[k] == values@[k],
            first_present(opt_lists(values@)) == first_present(opt_lists(values@).skip(i as int)),
        decreases N - i,
    {
        assert(opt_lists(values@).skip(i as int).drop_first() == opt_lists(values@).skip(i + 1));
        let value: Option<Vec<String>> = left[i].take();
        if let Some(present) = value {
            if !present.is_empty() {
                return Some(present);
            }
        }
        i += 1;
    }
    None
}

/// The texts that are not empty, if there are any.
pub open spec fn non_empty(values: Seq<Seq<char>>) -> Option<Seq<Seq<char>>> {
    let kept = values.filter(|t: Seq<char>| t.len() > 0);
    if kept.len() > 0 {
        Some(kept)
    } else {
        None
    }
}

/// What is left of a sequence was in it and meets the condition.
pub proof fn lemma_filtered<A>(s: Seq<A>, pred: spec_fn(A) -> bool, a: A)
    requires
        s.filter(pred).contains(a),
    ensures
        s.contains(a),
        pred(a),
    decreases s.len(),
{
    reveal(Seq::filter);
    if s.len() > 0 {
        let front = s.drop_last().filter(pred);
        if front.contains(a) {
            lemma_filtered(s.drop_last(), pred, a);
            let i = choose|i: int| 0 <= i < s.drop_last().len() && s.drop_last()[i] == a;
            assert(s[i] == a);
        } else {
            let all = s.filter(pred);
            let i = choose|i: int| 0 <= i < all.len() && all[i] == a;
            if i < front.len() {
                assert(front[i] == a);
            }
            assert(s[s.len() - 1] == s.last());
        }
    }
}

/// Drops the empty strings; nothing is left of a list without others.
pub fn non_empty_vec(values: Vec<String>) -> (kept: Option<Vec<String>>)
    ensures
        opt_list(kept) == non_empty(texts(values@)),
{
    let ghost all: Seq<Seq<char>> = texts(values@);
    let ghost pred = |t: Seq<char>| t.len() > 0;
    let mut kept: Vec<String> = Vec::new();
    let mut i: usize = 0;
    proof {
        reveal(Seq::filter);
        assert(all.take(0) == Seq::<Seq<char>>::empty());
        assert(texts(kept@) == Seq::<Seq<char>>::empty());
    }
    while i < values.len()
        invariant
            i <= values.len(),
            all == texts(values@),
            pred == (|t: Seq<char>| t.len() > 0),
            texts(kept@) == all.take(i as int).filter(pred),
        decreases values.len() - i,
    {
        let ghost before: Seq<String> = kept@;
        proof {
            reveal(Seq::filter);
            assert(all.take(i + 1).drop_last() == all.take(i as int));
            assert(all.take(i + 1).last() == values@[i as int]@);
        }
        if !values[i].as_str().is_empty() {
            kept.push(values[i].clone());
            assert(texts(kept@) == texts(before).push(values@[i as int]@));
        }
        i += 1;
    }
    assert(all.take(i as int) == all);
    if kept.is_empty() {
        None
    } else {
        Some(kept)
    }
}

/// The tags in a comma-separated list: the pieces without surrounding white space, but for the
/// empty ones.
pub open spec fn tags_in(list: Seq<char>) -> Option<Seq<Seq<char>>> {
    non_empty(split_on(list, ',').map_values(|piece: Seq<char>| trimmed(piece)))
}

/// Every tag is one of the pieces without its surrounding white space, and none is empty.
pub proof fn law_tags_are_pieces(list: Seq<char>, tag: Seq<char>)
    requires
        tags_in(list) is Some,
        tags_in(list)->0.contains(tag),
    ensures
        tag.len() > 0,
        exists|i: int|
            0 <= i < split_on(list, ',').len() && trimmed(#[trigger] split_on(list, ',')[i]) == tag,
{
    let pieces = split_on(list, ',');
    let all = pieces.map_values(|piece: Seq<char>| trimmed(piece));
    lemma_filtered(all, |t: Seq<char>| t.len() > 0, tag);
    let i = choose|i: int| 0 <= i < all.len() && all[i] == tag;
    assert(trimmed(pieces[i]) == tag);
}

/// Reads the tags variable.
pub fn parse_tags_env(variable: Option<String>) -> (tags: Option<Vec<String>>)
    ensures
        opt_list(tags) == match variable {
            Some(list) => tags_in(list@),
            None => None,
        },
{
    let list: String = match variable {
        Some(list) => list,
        None => return None,
    };
    let chars: Vec<char> = chars_of(list.as_str());
    let pieces: Vec<String> = split(chars.as_slice(), ',');
    let ghost wanted: Seq<Seq<char>> = split_on(list@, ',').map_values(
        |piece: Seq<char>| trimmed(piece),
    );
    let mut tags: Vec<String> = Vec::new();
    let mut i: usize = 0;
    while i < pieces.len()
        invariant
            i <= pieces.len(),
            texts(pieces@) == split_on(list@, ','),
            wanted == split_on(list@, ',').map_values(|piece: Seq<char>| trimmed(piece)),
            texts(tags@) == wanted.take(i as int),
        decreases pieces.len() - i,
    {
        let ghost before: Seq<String> = tags@;
        assert(texts(pieces@)[i as int] == pieces@[i as int]@);
        tags.push(trim_string(pieces[i].as_str()));
        i += 1;
        assert(texts(tags@) == texts(before).push(wanted[i - 1]));
        assert(wanted.take(i as int) == wanted.take(i - 1).push(wanted[i - 1]));
    }
    assert(pieces@.len() == texts(pieces@).len());
    assert(wanted.take(i as int) == wanted);
    non_empty_vec(tags)
}

/// What is chosen is there and not empty, and all before it are missing or empty; nothing is chosen
/// only where all are.
pub proof fn law_first_present<T>(values: Seq<Option<Seq<T>>>)
    ensures
        match first_present(values) {
            Some(v) => v.len() > 0 && exists|i: int|
                {
                    &&& 0 <= i < values.len()
                    &&& #[trigger] values[i] == Some(v)
                    &&& forall|j: int|
                        0 <= j < i ==> (#[trigger] values[j] is None || values[j]->0.len() == 0)
                },
            None => forall|j: int|
                0 <= j < values.len() ==> (#[trigger] values[j] is None || values[j]->0.len() == 0),
        },
    decreases values.len(),
{
    if values.len() > 0 && !(values[0] is Some && values[0]->0.len() > 0) {
        let rest = values.drop_first();
        law_first_present(rest);
        assert forall|j: int| 0 < j < values.len() implies #[trigger] values[j] == rest[j - 1] by {}
        if first_present(rest) is Some {
            let v = first_present(rest)->0;
            let i = choose|i: int|
                {
                    &&& 0 <= i < rest.len()
                    &&& #[trigger] rest[i] == Some(v)
                    &&& forall|j: int|
                        0 <= j < i ==> (#[trigger] rest[j] is None || rest[j]->0.len() == 0)
                };
            assert(values[i + 1] == Some(v));
            assert forall|j: int| 0 <= j < i + 1 implies (#[trigger] values[j] is None
                || values[j]->0.len() == 0) by {
                if j > 0 {
                    assert(rest[j - 1] is None || rest[j - 1]->0.len() == 0);
                }
            }
        } else {
            assert forall|j: int| 0 <= j < values.len() implies (#[trigger] values[j] is None
                || values[j]->0.len() == 0) by {
                if j > 0 {
                    assert(rest[j - 1] is None || rest[j - 1]->0.len() == 0);
                }
            }
        }
    }
}

/// The texts that are kept of a list.
pub open spec fn kept(chosen: Option<Seq<Seq<char>>>) -> Seq<Seq<char>> {
    match chosen {
        Some(list) => list,
        None => Seq::empty(),
    }
}

/// Of a longer list, what was kept before is kept, followed by the new text unless that is empty;
/// nothing is kept of an empty list, and a list of which nothing is kept counts as none.
pub proof fn law_empty_texts_are_dropped(values: Seq<Seq<char>>, text: Seq<char>)
    ensures
        kept(non_empty(Seq::empty())) == Seq::<Seq<char>>::empty(),
        kept(non_empty(values.push(text))) == if text.len() > 0 {
            kept(non_empty(values)).push(text)
        } else {
            kept(non_empty(values))
        },
        non_empty(values) is Some <==> kept(non_empty(values)).len() > 0,
{
    reveal(Seq::filter);
    assert(values.push(text).drop_last() == values);
}

/// What is kept of two lists is what is kept of the one, then what is kept of the other.
pub proof fn law_what_is_kept_of_two_lists(a: Seq<Seq<char>>, b: Seq<Seq<char>>)
    ensures
        kept(non_empty(a + b)) == kept(non_empty(a)) + kept(non_empty(b)),
    decreases b.len(),
{
    if b.len() == 0 {
        assert(a + b == a);
        assert(b == Seq::<Seq<char>>::empty());
        law_empty_texts_are_dropped(b, Seq::empty());
        assert(kept(non_empty(a)) + kept(non_empty(b)) == kept(non_empty(a)));
    } else {
        let front = b.drop_last();
        law_what_is_kept_of_two_lists(a, front);
        law_empty_texts_are_dropped(a + front, b.last());
        law_empty_texts_are_dropped(front, b.last());
        assert(a + b == (a + front).push(b.last()));
        assert(b == front.push(b.last()));
        assert(kept(non_empty(a + b)) == kept(non_empty(a)) + kept(non_empty(b)));
    }
}

/// A tag list in two parts with a comma between them has the tags of the one, then those of the
/// other; a part without a comma is one tag, without its surrounding white space, unless nothing is
/// left of it.
pub proof fn law_tags_of_a_list(a: Seq<char>, b: Seq<char>)
    ensures
        kept(tags_in(a + seq![','] + b)) == kept(tags_in(a)) + kept(tags_in(b)),
        !a.contains(',') ==> kept(tags_in(a)) == if trimmed(a).len() > 0 {
            seq![trimmed(a)]
        } else {
            Seq::empty()
        },
{
    let clean = |piece: Seq<char>| trimmed(piece);
    law_pieces_of_two_parts(a, b, ',');
    let x = split_on(a, ',').map_values(clean);
    let y = split_on(b, ',').map_values(clean);
    assert(split_on(a + seq![','] + b, ',').map_values(clean) == x + y);
    law_what_is_kept_of_two_lists(x, y);
    if !a.contains(',') {
        assert forall|i: int| 0 <= i < a.len() implies a[i] != ',' by {
            assert(a.contains(a[i]));
        }
        lemma_first_of(a, ',', a.len() as int);
        assert(split_on(a, ',') == seq![a]);
        assert(x == Seq::empty().push(trimmed(a)));
        law_empty_texts_are_dropped(Seq::empty(), trimmed(a));
    }
}

/// The views of lists and of optional settings are what they hold, one by one, and nothing else.
pub proof fn law_views_of_settings(
    strings: Seq<Option<String>>,
    paths: Seq<Option<NativePath>>,
    maps: Seq<Option<Metadata>>,
    lists: Seq<Option<Vec<String>>>,
    list: Option<Vec<String>>,
)
    ensures
        opt_texts(strings).len() == strings.len(),
        forall|i: int|
            0 <= i < strings.len() ==> #[trigger] opt_texts(strings)[i] == opt_text(strings[i]),
        opt_paths(paths).len() == paths.len(),
        forall|i: int|
            0 <= i < paths.len() ==> #[trigger] opt_paths(paths)[i] == opt_path(paths[i]),
        opt_maps(maps).len() == maps.len(),
        forall|i: int| 0 <= i < maps.len() ==> #[trigger] opt_maps(maps)[i] == opt_map(maps[i]),
        opt_lists(lists).len() == lists.len(),
        forall|i: int|
            0 <= i < lists.len() ==> #[trigger] opt_lists(lists)[i] == opt_list(lists[i]),
        opt_list(list) is Some <==> list is Some,
        list is Some ==> opt_list(list)->0 == texts(list->0@),
{
}

} // verus!

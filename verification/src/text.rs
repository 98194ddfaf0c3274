//! Text handling over sequences of characters: trimming, splitting, searching and comparing.

use vstd::prelude::*;
use vstd::slice::slice_subrange;
#[allow(unused_imports)]
use vstd::utf8::encode_utf8;

verus! {

/// Appends one character to a string: `String::push` of the standard library. The contract
/// claims that the characters after the call are those before it, followed by `c`.
pub assume_specification[ String::push ](s: &mut String, c: char)
    ensures
        final(s)@ == old(s)@.push(c),
;

/// What `String::from_utf8_lossy` reads from bytes.
pub uninterp spec fn lossy_text(bytes: Seq<u8>) -> Seq<char>;

/// Reads bytes as text with `String::from_utf8_lossy`. The contract names the text, and claims that
/// bytes which are the UTF-8 encoding of a text are read as that text.
#[verifier::external_body]
pub(crate) fn read_lossy(bytes: &[u8]) -> (s: String)
    ensures
        s@ == lossy_text(bytes@),
        forall|t: Seq<char>| bytes@ == #[trigger] encode_utf8(t) ==> s@ == t,
{
    String::from_utf8_lossy(bytes).into_owned()
}

/// The Unicode White_Space property.
pub open spec fn is_white_space(c: char) -> bool {
    ||| '\u{9}' <= c <= '\u{d}'
    ||| c == ' '
    ||| c == '\u{85}'
    ||| c == '\u{a0}'
    ||| c == '\u{1680}'
    ||| '\u{2000}' <= c <= '\u{200a}'
    ||| c == '\u{2028}'
    ||| c == '\u{2029}'
    ||| c == '\u{202f}'
    ||| c == '\u{205f}'
    ||| c == '\u{3000}'
}

/// `s` without its leading white space.
pub open spec fn trim_start(s: Seq<char>) -> Seq<char>
    decreases s.len(),
{
    if s.len() > 0 && is_white_space(s.first()) {
        trim_start(s.drop_first())
    } else {
        s
    }
}

/// `s` without its trailing white space.
pub open spec fn trim_end(s: Seq<char>) -> Seq<char>
    decreases s.len(),
{
    if s.len() > 0 && is_white_space(s.last()) {
        trim_end(s.drop_last())
    } else {
        s
    }
}

/// `s` without leading and trailing white space.
pub open spec fn trimmed(s: Seq<char>) -> Seq<char> {
    trim_end(trim_start(s))
}

/// `s` without any trailing run of `c`.
pub open spec fn without_trailing(s: Seq<char>, c: char) -> Seq<char>
    decreases s.len(),
{
    if s.len() > 0 && s.last() == c {
        without_trailing(s.drop_last(), c)
    } else {
        s
    }
}

/// The position of the first `c` in `s`, or the length of `s` when there is none.
pub open spec fn first_of(s: Seq<char>, c: char) -> int
    decreases s.len(),
{
    if s.len() == 0 || s.first() == c {
        0
    } else {
        1 + first_of(s.drop_first(), c)
    }
}

/// The position of the last `c` in `s`, or -1 when there is none.
pub open spec fn last_of(s: Seq<char>, c: char) -> int
    decreases s.len(),
{
    if s.len() == 0 {
        -1
    } else if s.last() == c {
        s.len() - 1
    } else {
        last_of(s.drop_last(), c)
    }
}

/// The pieces of `s` between the occurrences of `sep`; a string without `sep` is one piece.
pub open spec fn split_on(s: Seq<char>, sep: char) -> Seq<Seq<char>>
    decreases s.len(),
{
    let at = first_of(s, sep);
    if 0 <= at < s.len() {
        seq![s.take(at)] + split_on(s.skip(at + 1), sep)
    } else {
        seq![s]
    }
}

/// Whether `pattern` stands in `s` at position `at`.
pub open spec fn stands_at(s: Seq<char>, pattern: Seq<char>, at: int) -> bool {
    &&& 0 <= at
    &&& at + pattern.len() <= s.len()
    &&& s.subrange(at, at + pattern.len()) == pattern
}

/// Whether `s` begins with `prefix`.
pub open spec fn has_prefix(s: Seq<char>, prefix: Seq<char>) -> bool {
    stands_at(s, prefix, 0)
}

/// Whether `s` ends with `suffix`.
pub open spec fn has_suffix(s: Seq<char>, suffix: Seq<char>) -> bool {
    stands_at(s, suffix, s.len() - suffix.len())
}

/// The first position at or after `from` where `pattern` stands in `s`.
pub open spec fn find_from(s: Seq<char>, pattern: Seq<char>, from: int) -> Option<int>
    decreases s.len() - from + 1,
{
    if from + pattern.len() > s.len() {
        None
    } else if stands_at(s, pattern, from) {
        Some(from)
    } else {
        find_from(s, pattern, from + 1)
    }
}

/// Whether `a` comes strictly before `b` when strings are compared character by character.
pub open spec fn text_before(a: Seq<char>, b: Seq<char>) -> bool
    decreases a.len(),
{
    if b.len() == 0 {
        false
    } else if a.len() == 0 {
        true
    } else if a.first() != b.first() {
        a.first() < b.first()
    } else {
        text_before(a.drop_first(), b.drop_first())
    }
}

/// The ASCII lower-case form of `c`.
pub open spec fn ascii_lower(c: char) -> char {
    if 'A' <= c <= 'Z' {
        ((c as u32) + 32) as char
    } else {
        c
    }
}

/// Whether `a` and `b` agree up to the case of ASCII letters.
pub open spec fn same_ignoring_ascii_case(a: Seq<char>, b: Seq<char>) -> bool {
    a.map_values(|c: char| ascii_lower(c)) == b.map_values(|c: char| ascii_lower(c))
}

/// The views of a sequence of strings.
pub open spec fn texts(v: Seq<String>) -> Seq<Seq<char>> {
    v.map_values(|s: String| s@)
}

/// The view of an optional string.
pub open spec fn opt_text(v: Option<String>) -> Option<Seq<char>> {
    match v {
        Some(s) => Some(s@),
        None => None,
    }
}

/// A copy of an optional string.
pub fn copy_text(value: &Option<String>) -> (copy: Option<String>)
    ensures
        opt_text(copy) == opt_text(*value),
{
    match value {
        Some(text) => Some(text.clone()),
        None => None,
    }
}

/// The characters of a string.
pub fn chars_of(s: &str) -> (chars: Vec<char>)
    ensures
        chars@ == s@,
{
    let mut chars: Vec<char> = Vec::new();
    for c in it: s.chars()
        invariant
            it.seq() == s@,
            chars@ == s@.take(it.index() as int),
    {
        chars.push(c);
    }
    assert(s@.take(s@.len() as int) == s@);
    chars
}

/// The string made of the given characters.
pub fn string_of(chars: &[char]) -> (s: String)
    ensures
        s@ == chars@,
{
    let mut s: String = String::new();
    let mut i: usize = 0;
    while i < chars.len()
        invariant
            i <= chars.len(),
            s@ == chars@.take(i as int),
        decreases chars.len() - i,
    {
        s.push(chars[i]);
        i += 1;
        assert(chars@.take(i as int) == chars@.take(i - 1).push(chars@[i - 1]));
    }
    assert(chars@.take(i as int) == chars@);
    s
}

/// Whether two character slices hold the same text.
pub fn same_text(a: &[char], b: &[char]) -> (same: bool)
    ensures
        same == (a@ == b@),
{
    if a.len() != b.len() {
        return false;
    }
    let mut i: usize = 0;
    while i < a.len()
        invariant
            i <= a.len(),
            a.len() == b.len(),
            a@.take(i as int) == b@.take(i as int),
        decreases a.len() - i,
    {
        if a[i] != b[i] {
            return false;
        }
        i += 1;
        assert(a@.take(i as int) == a@.take(i - 1).push(a@[i - 1]));
        assert(b@.take(i as int) == b@.take(i - 1).push(b@[i - 1]));
    }
    assert(a@.take(i as int) == a@);
    assert(b@.take(i as int) == b@);
    true
}

/// Whether two strings hold the same text.
pub fn same_string(a: &str, b: &str) -> (same: bool)
    ensures
        same == (a@ == b@),
{
    let x: Vec<char> = chars_of(a);
    let y: Vec<char> = chars_of(b);
    same_text(x.as_slice(), y.as_slice())
}

/// Whether `c` has the Unicode White_Space property.
pub fn white_space(c: char) -> (yes: bool)
    ensures
        yes == is_white_space(c),
{
    ('\u{9}' <= c && c <= '\u{d}') || c == ' ' || c == '\u{85}' || c == '\u{a0}' || c == '\u{1680}'
        || ('\u{2000}' <= c && c <= '\u{200a}') || c == '\u{2028}' || c == '\u{2029}'
        || c == '\u{202f}' || c == '\u{205f}' || c == '\u{3000}'
}

/// The slice without leading and trailing white space.
pub fn trim(s: &[char]) -> (t: &[char])
    ensures
        t@ == trimmed(s@),
        exists|from: int, to: int|
            {
                &&& 0 <= from <= to <= s@.len()
                &&& t@ == #[trigger] s@.subrange(from, to)
                &&& forall|i: int| 0 <= i < from ==> is_white_space(#[trigger] s@[i])
                &&& forall|i: int| to <= i < s@.len() ==> is_white_space(#[trigger] s@[i])
            },
        t@.len() > 0 ==> !is_white_space(t@[0]) && !is_white_space(t@[t@.len() - 1]),
{
    proof {
        law_trimming(s@);
    }
    let mut from: usize = 0;
    assert(s@.skip(0) == s@);
    while from < s.len() && white_space(s[from])
        invariant
            from <= s.len(),
            trim_start(s@) == trim_start(s@.skip(from as int)),
        decreases s.len() - from,
    {
        assert(s@.skip(from as int).drop_first() == s@.skip(from + 1));
        from += 1;
    }
    let mut to: usize = s.len();
    let ghost kept: Seq<char> = s@.skip(from as int);
    assert(trim_start(s@) == kept);
    assert(s@.subrange(from as int, to as int) == kept);
    while from < to && white_space(s[to - 1])
        invariant
            from <= to <= s.len(),
            trim_end(kept) == trim_end(s@.subrange(from as int, to as int)),
        decreases to - from,
    {
        assert(s@.subrange(from as int, to as int).drop_last() == s@.subrange(
            from as int,
            to - 1,
        ));
        to -= 1;
    }
    slice_subrange(s, from, to)
}

/// The string without leading and trailing white space.
pub fn trim_string(s: &str) -> (t: String)
    ensures
        t@ == trimmed(s@),
        exists|from: int, to: int|
            {
                &&& 0 <= from <= to <= s@.len()
                &&& t@ == #[trigger] s@.subrange(from, to)
                &&& forall|i: int| 0 <= i < from ==> is_white_space(#[trigger] s@[i])
                &&& forall|i: int| to <= i < s@.len() ==> is_white_space(#[trigger] s@[i])
            },
        t@.len() > 0 ==> !is_white_space(t@[0]) && !is_white_space(t@[t@.len() - 1]),
{
    let chars: Vec<char> = chars_of(s);
    string_of(trim(chars.as_slice()))
}

/// The string without any trailing run of `c`.
pub fn trim_trailing(s: &str, c: char) -> (t: String)
    ensures
        t@ == without_trailing(s@, c),
{
    let chars: Vec<char> = chars_of(s);
    let mut to: usize = chars.len();
    assert(chars@.take(to as int) == s@);
    while 0 < to && chars[to - 1] == c
        invariant
            to <= chars.len(),
            without_trailing(s@, c) == without_trailing(chars@.take(to as int), c),
        decreases to,
    {
        assert(chars@.take(to as int).drop_last() == chars@.take(to - 1));
        to -= 1;
    }
    assert(chars@.subrange(0, to as int) == chars@.take(to as int));
    string_of(slice_subrange(chars.as_slice(), 0, to))
}

/// Where the first `c` stands in a text, as its position and the characters before it show.
pub proof fn lemma_first_of(s: Seq<char>, c: char, at: int)
    requires
        0 <= at <= s.len(),
        forall|i: int| 0 <= i < at ==> s[i] != c,
        at < s.len() ==> s[at] == c,
    ensures
        first_of(s, c) == at,
    decreases s.len(),
{
    if at > 0 {
        lemma_first_of(s.drop_first(), c, at - 1);
    }
}

/// Where the last `c` stands in a text, as its position and the characters after it show.
pub proof fn lemma_last_of(s: Seq<char>, c: char, at: int)
    requires
        -1 <= at < s.len(),
        forall|i: int| at < i < s.len() ==> s[i] != c,
        at >= 0 ==> s[at] == c,
    ensures
        last_of(s, c) == at,
    decreases s.len(),
{
    if s.len() > 0 && at < s.len() - 1 {
        lemma_last_of(s.drop_last(), c, at);
    }
}

/// The position of the first `c`, or the length when there is none.
pub fn position_of(s: &[char], c: char) -> (at: usize)
    ensures
        at as int == first_of(s@, c),
        at <= s@.len(),
        at < s@.len() ==> s@[at as int] == c,
{
    let mut at: usize = 0;
    while at < s.len() && s[at] != c
        invariant
            at <= s.len(),
            forall|i: int| 0 <= i < at ==> s@[i] != c,
        decreases s.len() - at,
    {
        at += 1;
    }
    proof {
        lemma_first_of(s@, c, at as int);
    }
    at
}

/// The position of the last `c`, if there is one.
pub fn last_position_of(s: &[char], c: char) -> (at: Option<usize>)
    ensures
        match at {
            Some(i) => i as int == last_of(s@, c) && i < s@.len() && s@[i as int] == c,
            None => last_of(s@, c) == -1,
        },
{
    let mut to: usize = s.len();
    while 0 < to
        invariant
            to <= s.len(),
            forall|i: int| to <= i < s.len() ==> s@[i] != c,
        decreases to,
    {
        to -= 1;
        if s[to] == c {
            proof {
                lemma_last_of(s@, c, to as int);
            }
            return Some(to);
        }
    }
    proof {
        lemma_last_of(s@, c, -1);
    }
    None
}

/// The pieces of a text between the occurrences of `sep`.
pub fn split(s: &[char], sep: char) -> (pieces: Vec<String>)
    ensures
        texts(pieces@) == split_on(s@, sep),
{
    let mut pieces: Vec<String> = Vec::new();
    let mut from: usize = 0;
    assert(s@.skip(0) == s@);
    assert(texts(pieces@) + split_on(s@, sep) == split_on(s@, sep));
    loop
        invariant
            from <= s.len(),
            split_on(s@, sep) == texts(pieces@) + split_on(s@.skip(from as int), sep),
        decreases s.len() - from,
    {
        let ghost before: Seq<String> = pieces@;
        let rest: &[char] = slice_subrange(s, from, s.len());
        assert(rest@ == s@.skip(from as int));
        let at: usize = position_of(rest, sep);
        assert(rest@.subrange(0, at as int) == rest@.take(at as int));
        let piece: String = string_of(slice_subrange(rest, 0, at));
        pieces.push(piece);
        assert(texts(pieces@) == texts(before).push(rest@.take(at as int)));
        if at == rest.len() {
            assert(rest@.take(at as int) == rest@);
            assert(texts(pieces@) == texts(before) + seq![rest@]);
            return pieces;
        }
        assert(rest@.skip(at + 1) == s@.skip(from + at + 1));
        assert(texts(before) + (seq![rest@.take(at as int)] + split_on(
            s@.skip(from + at + 1),
            sep,
        )) == texts(pieces@) + split_on(s@.skip(from + at + 1), sep));
        from = from + at + 1;
    }
}

/// Whether the text begins with `prefix`.
pub fn starts_with(s: &[char], prefix: &[char]) -> (yes: bool)
    ensures
        yes == has_prefix(s@, prefix@),
{
    if s.len() < prefix.len() {
        return false;
    }
    same_text(slice_subrange(s, 0, prefix.len()), prefix)
}

/// Whether the text ends with `suffix`.
pub fn ends_with(s: &[char], suffix: &[char]) -> (yes: bool)
    ensures
        yes == has_suffix(s@, suffix@),
{
    if s.len() < suffix.len() {
        return false;
    }
    same_text(slice_subrange(s, s.len() - suffix.len(), s.len()), suffix)
}

/// The first position where `pattern` stands in the text.
pub fn find(s: &[char], pattern: &[char]) -> (at: Option<usize>)
    ensures
        match at {
            Some(i) => find_from(s@, pattern@, 0) == Some(i as int) && stands_at(
                s@,
                pattern@,
                i as int,
            ),
            None => find_from(s@, pattern@, 0) is None,
        },
{
    let mut from: usize = 0;
    while pattern.len() <= s.len() - from
        invariant
            from <= s.len(),
            find_from(s@, pattern@, 0) == find_from(s@, pattern@, from as int),
        decreases s.len() - from,
    {
        if same_text(slice_subrange(s, from, from + pattern.len()), pattern) {
            return Some(from);
        }
        if from == s.len() {
            assert(s@.subrange(from as int, from + pattern@.len()) == pattern@);
        }
        from += 1;
    }
    None
}

/// Whether `a` comes strictly before `b` when strings are compared character by character.
pub fn comes_before(a: &str, b: &str) -> (yes: bool)
    ensures
        yes == text_before(a@, b@),
{
    let x: Vec<char> = chars_of(a);
    let y: Vec<char> = chars_of(b);
    let mut i: usize = 0;
    assert(x@.skip(0) == a@);
    assert(y@.skip(0) == b@);
    while i < x.len() && i < y.len() && x[i] == y[i]
        invariant
            i <= x.len(),
            i <= y.len(),
            text_before(a@, b@) == text_before(x@.skip(i as int), y@.skip(i as int)),
        decreases x.len() - i,
    {
        assert(x@.skip(i as int).drop_first() == x@.skip(i + 1));
        assert(y@.skip(i as int).drop_first() == y@.skip(i + 1));
        i += 1;
    }
    i < y.len() && (i == x.len() || x[i] < y[i])
}

/// The ASCII lower-case form of a character.
fn to_ascii_lower(c: char) -> (l: char)
    ensures
        l == ascii_lower(c),
{
    if 'A' <= c && c <= 'Z' {
        ((c as u8) + 32) as char
    } else {
        c
    }
}

/// Whether two texts agree up to the case of ASCII letters.
pub fn equal_ignoring_ascii_case(a: &[char], b: &[char]) -> (same: bool)
    ensures
        same == same_ignoring_ascii_case(a@, b@),
{
    let ghost la: Seq<char> = a@.map_values(|c: char| ascii_lower(c));
    let ghost lb: Seq<char> = b@.map_values(|c: char| ascii_lower(c));
    if a.len() != b.len() {
        assert(la.len() != lb.len());
        return false;
    }
    let mut i: usize = 0;
    while i < a.len()
        invariant
            i <= a.len(),
            a.len() == b.len(),
            la == a@.map_values(|c: char| ascii_lower(c)),
            lb == b@.map_values(|c: char| ascii_lower(c)),
            forall|k: int| 0 <= k < i ==> la[k] == lb[k],
        decreases a.len() - i,
    {
        if to_ascii_lower(a[i]) != to_ascii_lower(b[i]) {
            assert(la[i as int] != lb[i as int]);
            return false;
        }
        i += 1;
    }
    assert(la == lb);
    true
}

/// Trimming at the start makes no text longer.
pub proof fn lemma_trim_start_len(s: Seq<char>)
    ensures
        trim_start(s).len() <= s.len(),
    decreases s.len(),
{
    if s.len() > 0 && is_white_space(s.first()) {
        lemma_trim_start_len(s.drop_first());
    }
}

/// Trimming at the end makes no text longer.
pub proof fn lemma_trim_end_len(s: Seq<char>)
    ensures
        trim_end(s).len() <= s.len(),
    decreases s.len(),
{
    if s.len() > 0 && is_white_space(s.last()) {
        lemma_trim_end_len(s.drop_last());
    }
}

/// No text comes before itself.
pub proof fn lemma_before_irreflexive(a: Seq<char>)
    ensures
        !text_before(a, a),
    decreases a.len(),
{
    if a.len() > 0 {
        lemma_before_irreflexive(a.drop_first());
    }
}

/// The order of texts is transitive.
pub proof fn lemma_before_transitive(a: Seq<char>, b: Seq<char>, c: Seq<char>)
    requires
        text_before(a, b),
        text_before(b, c),
    ensures
        text_before(a, c),
    decreases a.len(),
{
    if a.len() > 0 && a.first() == b.first() && b.first() == c.first() {
        lemma_before_transitive(a.drop_first(), b.drop_first(), c.drop_first());
    }
}

/// Of two different texts, one comes before the other.
pub proof fn lemma_before_total(a: Seq<char>, b: Seq<char>)
    requires
        a != b,
    ensures
        text_before(a, b) || text_before(b, a),
    decreases a.len(),
{
    if a.len() > 0 && b.len() > 0 && a.first() == b.first() {
        assert(a.drop_first() != b.drop_first()) by {
            if a.drop_first() == b.drop_first() {
                assert(a == seq![a.first()] + a.drop_first());
                assert(b == seq![b.first()] + b.drop_first());
            }
        }
        lemma_before_total(a.drop_first(), b.drop_first());
    } else if a.len() == 0 && b.len() == 0 {
        assert(a == b);
    }
}

/// Where the text begins that trimming at the start leaves.
proof fn lemma_trim_start(s: Seq<char>) -> (from: int)
    ensures
        0 <= from <= s.len(),
        trim_start(s) == s.skip(from),
        forall|i: int| 0 <= i < from ==> is_white_space(#[trigger] s[i]),
        from < s.len() ==> !is_white_space(s[from]),
    decreases s.len(),
{
    if s.len() > 0 && is_white_space(s.first()) {
        let rest = s.drop_first();
        let from = lemma_trim_start(rest) + 1;
        assert(rest.skip(from - 1) == s.skip(from));
        assert forall|i: int| 0 <= i < from implies is_white_space(#[trigger] s[i]) by {
            if i > 0 {
                assert(s[i] == rest[i - 1]);
            }
        }
        from
    } else {
        assert(s.skip(0) == s);
        0
    }
}

/// Where the text ends that trimming at the end leaves.
proof fn lemma_trim_end(s: Seq<char>) -> (to: int)
    ensures
        0 <= to <= s.len(),
        trim_end(s) == s.take(to),
        forall|i: int| to <= i < s.len() ==> is_white_space(#[trigger] s[i]),
        to > 0 ==> !is_white_space(s[to - 1]),
    decreases s.len(),
{
    if s.len() > 0 && is_white_space(s.last()) {
        let rest = s.drop_last();
        let to = lemma_trim_end(rest);
        assert(rest.take(to) == s.take(to));
        assert forall|i: int| to <= i < s.len() implies is_white_space(#[trigger] s[i]) by {
            if i < rest.len() {
                assert(s[i] == rest[i]);
            }
        }
        to
    } else {
        assert(s.take(s.len() as int) == s);
        s.len() as int
    }
}

/// A text is some white space, then the trimmed text, then some white space, and the trimmed text
/// is empty or neither begins nor ends with white space.
pub proof fn law_trimming(s: Seq<char>)
    ensures
        exists|from: int, to: int|
            {
                &&& 0 <= from <= to <= s.len()
                &&& trimmed(s) == #[trigger] s.subrange(from, to)
                &&& forall|i: int| 0 <= i < from ==> is_white_space(#[trigger] s[i])
                &&& forall|i: int| to <= i < s.len() ==> is_white_space(#[trigger] s[i])
            },
        trimmed(s).len() > 0 ==> !is_white_space(trimmed(s)[0]) && !is_white_space(
            trimmed(s)[trimmed(s).len() - 1],
        ),
{
    let from = lemma_trim_start(s);
    let kept = s.skip(from);
    let count = lemma_trim_end(kept);
    assert(kept.take(count) == s.subrange(from, from + count));
    assert forall|i: int| from + count <= i < s.len() implies is_white_space(#[trigger] s[i]) by {
        assert(s[i] == kept[i - from]);
    }
    if count > 0 {
        assert(kept[0] == s[from]);
    }
}

/// White space around a text that has none at its ends is what trimming takes away, and all that it
/// takes away. So a text whose ends are not white space is left as it is.
pub proof fn law_trimming_takes_only_white_space(
    before: Seq<char>,
    text: Seq<char>,
    after: Seq<char>,
)
    requires
        forall|i: int| 0 <= i < before.len() ==> is_white_space(#[trigger] before[i]),
        forall|i: int| 0 <= i < after.len() ==> is_white_space(#[trigger] after[i]),
        text.len() > 0 ==> !is_white_space(text[0]) && !is_white_space(text[text.len() - 1]),
    ensures
        trimmed(before + text + after) == text,
{
    let s = before + text + after;
    let b = before.len() as int;
    let e = b + text.len();
    law_trimming(s);
    let (from, to) = choose|from: int, to: int|
        {
            &&& 0 <= from <= to <= s.len()
            &&& trimmed(s) == #[trigger] s.subrange(from, to)
            &&& forall|i: int| 0 <= i < from ==> is_white_space(#[trigger] s[i])
            &&& forall|i: int| to <= i < s.len() ==> is_white_space(#[trigger] s[i])
        };
    let t = s.subrange(from, to);
    if text.len() > 0 {
        assert(s[b] == text[0] && s[e - 1] == text[text.len() - 1]);
        assert(from <= b && e <= to);
        if from < b {
            assert(t[0] == s[from] && s[from] == before[from]);
        }
        if e < to {
            assert(t[t.len() - 1] == s[to - 1] && s[to - 1] == after[to - 1 - e]);
        }
        assert(t == text);
    } else {
        if from < to {
            assert(t[0] == s[from]);
            if from < b {
                assert(s[from] == before[from]);
            } else {
                assert(s[from] == after[from - b]);
            }
        }
        assert(t == text);
    }
}

/// What is left without a trailing run of a character is the text up to that run: what was dropped
/// is that character over and over, and what is left does not end with it.
pub proof fn law_without_trailing(s: Seq<char>, c: char)
    ensures
        exists|to: int|
            {
                &&& 0 <= to <= s.len()
                &&& without_trailing(s, c) == #[trigger] s.take(to)
                &&& forall|i: int| to <= i < s.len() ==> #[trigger] s[i] == c
                &&& to > 0 ==> s[to - 1] != c
            },
    decreases s.len(),
{
    if s.len() > 0 && s.last() == c {
        let rest = s.drop_last();
        law_without_trailing(rest, c);
        let to = choose|to: int|
            {
                &&& 0 <= to <= rest.len()
                &&& without_trailing(rest, c) == #[trigger] rest.take(to)
                &&& forall|i: int| to <= i < rest.len() ==> #[trigger] rest[i] == c
                &&& to > 0 ==> rest[to - 1] != c
            };
        assert(rest.take(to) == s.take(to));
        assert forall|i: int| to <= i < s.len() implies #[trigger] s[i] == c by {
            if i < rest.len() {
                assert(s[i] == rest[i]);
            }
        }
    } else {
        assert(s.take(s.len() as int) == s);
    }
}

/// The first place of a character: it stands there, and nowhere before; without a place it stands
/// nowhere.
pub proof fn law_first_place(s: Seq<char>, c: char)
    ensures
        0 <= first_of(s, c) <= s.len(),
        forall|i: int| 0 <= i < first_of(s, c) ==> #[trigger] s[i] != c,
        first_of(s, c) < s.len() ==> s[first_of(s, c)] == c,
    decreases s.len(),
{
    if s.len() > 0 && s.first() != c {
        let rest = s.drop_first();
        law_first_place(rest, c);
        assert forall|i: int| 0 <= i < first_of(s, c) implies #[trigger] s[i] != c by {
            if i > 0 {
                assert(s[i] == rest[i - 1]);
            }
        }
    }
}

/// The last place of a character: it stands there, and nowhere after; without a place it stands
/// nowhere.
pub proof fn law_last_place(s: Seq<char>, c: char)
    ensures
        -1 <= last_of(s, c) < s.len(),
        forall|i: int| last_of(s, c) < i < s.len() ==> #[trigger] s[i] != c,
        last_of(s, c) >= 0 ==> s[last_of(s, c)] == c,
    decreases s.len(),
{
    if s.len() > 0 && s.last() != c {
        let rest = s.drop_last();
        law_last_place(rest, c);
        assert forall|i: int| last_of(s, c) < i < s.len() implies #[trigger] s[i] != c by {
            if i < rest.len() {
                assert(s[i] == rest[i]);
            }
        }
    }
}

/// The pieces with the separator between them.
pub open spec fn joined_by(pieces: Seq<Seq<char>>, sep: char) -> Seq<char>
    decreases pieces.len(),
{
    if pieces.len() == 0 {
        Seq::empty()
    } else if pieces.len() == 1 {
        pieces[0]
    } else {
        pieces[0] + seq![sep] + joined_by(pieces.drop_first(), sep)
    }
}

/// The pieces of a text hold no separator, and joined by it they are the text again.
pub proof fn law_pieces_join_to_the_text(s: Seq<char>, sep: char)
    ensures
        split_on(s, sep).len() > 0,
        joined_by(split_on(s, sep), sep) == s,
        forall|i: int|
            0 <= i < split_on(s, sep).len() ==> !(#[trigger] split_on(s, sep)[i]).contains(sep),
    decreases s.len(),
{
    law_first_place(s, sep);
    let at = first_of(s, sep);
    let pieces = split_on(s, sep);
    if at < s.len() {
        let first = s.take(at);
        let more = split_on(s.skip(at + 1), sep);
        law_pieces_join_to_the_text(s.skip(at + 1), sep);
        assert(pieces == seq![first] + more);
        assert(pieces.drop_first() == more);
        assert(first + seq![sep] + s.skip(at + 1) == s);
        assert forall|i: int| 0 <= i < pieces.len() implies !(#[trigger] pieces[i]).contains(
            sep,
        ) by {
            if i == 0 {
                if first.contains(sep) {
                    let k = choose|k: int| 0 <= k < first.len() && first[k] == sep;
                    assert(s[k] == sep);
                }
            } else {
                assert(pieces[i] == more[i - 1]);
            }
        }
    } else {
        assert(pieces == seq![s]);
        if s.contains(sep) {
            let k = choose|k: int| 0 <= k < s.len() && s[k] == sep;
            assert(s[k] == sep);
        }
    }
}

/// A text in two parts with the separator between them has the pieces of the one, then those of the
/// other.
pub proof fn law_pieces_of_two_parts(a: Seq<char>, b: Seq<char>, sep: char)
    ensures
        split_on(a + seq![sep] + b, sep) == split_on(a, sep) + split_on(b, sep),
    decreases a.len(),
{
    let s = a + seq![sep] + b;
    law_first_place(a, sep);
    let at = first_of(a, sep);
    assert forall|i: int| 0 <= i < at implies s[i] != sep by {
        assert(s[i] == a[i]);
    }
    assert(s[at] == sep) by {
        if at < a.len() {
            assert(s[at] == a[at]);
        }
    }
    lemma_first_of(s, sep, at);
    if at < a.len() {
        let rest = a.skip(at + 1);
        law_pieces_of_two_parts(rest, b, sep);
        assert(s.skip(at + 1) == rest + seq![sep] + b);
        assert(s.take(at) == a.take(at));
        assert(split_on(s, sep) == split_on(a, sep) + split_on(b, sep));
    } else {
        assert(s.take(at) == a);
        assert(s.skip(at + 1) == b);
    }
}

/// Whether a pattern stands at a place, character by character.
pub proof fn law_standing_at_a_place(s: Seq<char>, pattern: Seq<char>, at: int)
    ensures
        stands_at(s, pattern, at) <==> 0 <= at && at + pattern.len() <= s.len() && forall|i: int|
            0 <= i < pattern.len() ==> s[at + i] == #[trigger] pattern[i],
        has_prefix(s, pattern) <==> stands_at(s, pattern, 0),
        has_suffix(s, pattern) <==> stands_at(s, pattern, s.len() - pattern.len()),
{
    if 0 <= at && at + pattern.len() <= s.len() {
        let part = s.subrange(at, at + pattern.len());
        if part == pattern {
            assert forall|i: int| 0 <= i < pattern.len() implies s[at + i]
                == #[trigger] pattern[i] by {
                assert(part[i] == s[at + i]);
            }
        }
        if forall|i: int| 0 <= i < pattern.len() ==> s[at + i] == #[trigger] pattern[i] {
            assert forall|i: int| 0 <= i < part.len() implies part[i] == pattern[i] by {
                assert(part[i] == s[at + i]);
            }
            assert(part == pattern);
        }
    }
}

/// What is found is the first place of the pattern at or after `from`; what is not found stands
/// nowhere there.
pub proof fn law_finding(s: Seq<char>, pattern: Seq<char>, from: int)
    requires
        0 <= from,
    ensures
        match find_from(s, pattern, from) {
            Some(at) => from <= at && stands_at(s, pattern, at) && forall|k: int|
                from <= k < at ==> !#[trigger] stands_at(s, pattern, k),
            None => forall|k: int| from <= k ==> !#[trigger] stands_at(s, pattern, k),
        },
    decreases s.len() - from + 1,
{
    if from + pattern.len() <= s.len() && !stands_at(s, pattern, from) {
        law_finding(s, pattern, from + 1);
    }
}

/// A text comes before another one if it is a shorter beginning of it, or if at the first place
/// where they differ it has the smaller character.
pub proof fn law_order_of_texts(a: Seq<char>, b: Seq<char>)
    ensures
        text_before(a, b) <==> exists|k: int|
            {
                &&& 0 <= k <= a.len()
                &&& k < b.len()
                &&& a.take(k) == #[trigger] b.take(k)
                &&& k == a.len() || a[k] < b[k]
            },
    decreases a.len(),
{
    if b.len() > 0 && a.len() > 0 && a.first() == b.first() {
        let x = a.drop_first();
        let y = b.drop_first();
        law_order_of_texts(x, y);
        if text_before(x, y) {
            let k = choose|k: int|
                {
                    &&& 0 <= k <= x.len()
                    &&& k < y.len()
                    &&& x.take(k) == #[trigger] y.take(k)
                    &&& k == x.len() || x[k] < y[k]
                };
            assert(a.take(k + 1) == seq![a.first()] + x.take(k));
            assert(b.take(k + 1) == seq![b.first()] + y.take(k));
            assert(k < x.len() ==> a[k + 1] == x[k]);
            assert(b[k + 1] == y[k]);
        }
        if exists|k: int|
            {
                &&& 0 <= k <= a.len()
                &&& k < b.len()
                &&& a.take(k) == #[trigger] b.take(k)
                &&& k == a.len() || a[k] < b[k]
            } {
            let k = choose|k: int|
                {
                    &&& 0 <= k <= a.len()
                    &&& k < b.len()
                    &&& a.take(k) == #[trigger] b.take(k)
                    &&& k == a.len() || a[k] < b[k]
                };
            assert(k > 0);
            assert(x.take(k - 1) == a.take(k).drop_first());
            assert(y.take(k - 1) == b.take(k).drop_first());
            assert(k < a.len() ==> x[k - 1] == a[k]);
            assert(y[k - 1] == b[k]);
            assert(text_before(x, y));
        }
    } else if b.len() > 0 {
        assert(a.take(0) == b.take(0));
        if a.len() > 0 {
            assert forall|k: int|
                0 < k <= a.len() && k < b.len() implies a.take(k) != #[trigger] b.take(k) by {
                assert(a.take(k)[0] == a[0] && b.take(k)[0] == b[0]);
            }
        }
    }
}

/// Texts agree up to the case of ASCII letters if they are as long as each other and at every place
/// hold one character, or the capital and the small form of one ASCII letter.
pub proof fn law_agreeing_up_to_case(a: Seq<char>, b: Seq<char>)
    ensures
        same_ignoring_ascii_case(a, b) <==> a.len() == b.len() && forall|i: int|
            #![trigger a[i]]
            0 <= i < a.len() ==> {
                ||| a[i] == b[i]
                ||| 'A' <= a[i] <= 'Z' && b[i] as int == a[i] as int + 32
                ||| 'A' <= b[i] <= 'Z' && a[i] as int == b[i] as int + 32
            },
{
    let x = a.map_values(|c: char| ascii_lower(c));
    let y = b.map_values(|c: char| ascii_lower(c));
    assert(x.len() == a.len() && y.len() == b.len());
    if x == y {
        assert forall|i: int| 0 <= i < a.len() implies {
            ||| #[trigger] a[i] == b[i]
            ||| 'A' <= a[i] <= 'Z' && b[i] as int == a[i] as int + 32
            ||| 'A' <= b[i] <= 'Z' && a[i] as int == b[i] as int + 32
        } by {
            assert(x[i] == ascii_lower(a[i]) && y[i] == ascii_lower(b[i]));
        }
    }
    if a.len() == b.len() && forall|i: int|
        #![trigger a[i]]
        0 <= i < a.len() ==> {
            ||| a[i] == b[i]
            ||| 'A' <= a[i] <= 'Z' && b[i] as int == a[i] as int + 32
            ||| 'A' <= b[i] <= 'Z' && a[i] as int == b[i] as int + 32
        } {
        assert forall|i: int| 0 <= i < x.len() implies x[i] == y[i] by {
            assert(a[i] == a[i]);
            assert(x[i] == ascii_lower(a[i]) && y[i] == ascii_lower(b[i]));
        }
        assert(x == y);
    }
}

/// The views of strings are their characters, one by one, and nothing else.
pub proof fn law_views_of_strings(list: Seq<String>, optional: Option<String>)
    ensures
        texts(list).len() == list.len(),
        forall|i: int| 0 <= i < list.len() ==> #[trigger] texts(list)[i] == list[i]@,
        opt_text(optional) is Some <==> optional is Some,
        optional is Some ==> opt_text(optional)->0 == optional->0@,
{
}

} // verus!

//! JSON: the text of an object of strings, and values as trees.

use vstd::prelude::*;

#[allow(unused_imports)]
use crate::metadata::{json_object_of_strings, pairs_map};

verus! {

/// The views of the fields of an object.
pub open spec fn field_views(fields: Seq<(String, String)>) -> Seq<(Seq<char>, Seq<char>)> {
    fields.map_values(|f: (String, String)| (f.0@, f.1@))
}

/// The hexadecimal digit with the given value.
pub open spec fn hex_digit(n: int) -> char {
    if n < 10 {
        ('0' as int + n) as char
    } else {
        ('a' as int + n - 10) as char
    }
}

/// A character as it stands in a string of JSON: quotation marks, backslashes and control
/// characters are escaped.
pub open spec fn escaped(c: char) -> Seq<char> {
    if c == '"' || c == '\\' {
        seq!['\\', c]
    } else if c == '\u{8}' {
        seq!['\\', 'b']
    } else if c == '\t' {
        seq!['\\', 't']
    } else if c == '\n' {
        seq!['\\', 'n']
    } else if c == '\u{c}' {
        seq!['\\', 'f']
    } else if c == '\r' {
        seq!['\\', 'r']
    } else if c <= '\u{1f}' {
        seq!['\\', 'u', '0', '0', hex_digit(c as int / 16), hex_digit(c as int % 16)]
    } else {
        seq![c]
    }
}

/// The characters of a text as they stand in a string of JSON.
pub open spec fn escaped_text(text: Seq<char>) -> Seq<char>
    decreases text.len(),
{
    if text.len() == 0 {
        Seq::empty()
    } else {
        escaped_text(text.drop_last()) + escaped(text.last())
    }
}

/// The string of JSON that stands for a text.
pub open spec fn json_string(text: Seq<char>) -> Seq<char> {
    seq!['"'] + escaped_text(text) + seq!['"']
}

/// The fields of an object, separated by commas.
pub open spec fn fields_text(fields: Seq<(Seq<char>, Seq<char>)>) -> Seq<char>
    decreases fields.len(),
{
    if fields.len() == 0 {
        Seq::empty()
    } else {
        let before = fields_text(fields.drop_last());
        let comma = if fields.len() == 1 {
            Seq::empty()
        } else {
            seq![',']
        };
        before + comma + json_string(fields.last().0) + seq![':'] + json_string(fields.last().1)
    }
}

/// The compact text of an object of strings, with its fields in the given order.
pub open spec fn json_object(fields: Seq<(Seq<char>, Seq<char>)>) -> Seq<char> {
    seq!['{'] + fields_text(fields) + seq!['}']
}

/// Writes an object of strings with `serde_json::Serializer`, field by field in the given order.
/// The contract claims that there is a text, since nothing but the target of the writing can fail
/// and memory does not, that it is the compact one, and that reading it as an object of strings
/// gives the fields back.
#[verifier::external_body]
pub(crate) fn write_json_object(fields: &Vec<(String, String)>) -> (r: Result<String, String>)
    ensures
        match r {
            Ok(text) => {
                &&& text@ == json_object(field_views(fields@))
                &&& json_object_of_strings(text@) == Ok::<Map<Seq<char>, Seq<char>>, Seq<char>>(
                    pairs_map(fields@),
                )
            },
            Err(_) => false,
        },
{
    let mut bytes: Vec<u8> = Vec::new();
    let mut target = serde_json::Serializer::new(&mut bytes);
    let pairs = fields.iter().map(|field| (&field.0, &field.1));
    match serde::Serializer::collect_map(&mut target, pairs) {
        Ok(()) => String::from_utf8(bytes).map_err(|error| error.to_string()),
        Err(error) => Err(error.to_string()),
    }
}

/// What neither of two texts contains, they do not contain together.
proof fn lemma_neither_contains(a: Seq<char>, b: Seq<char>, c: char)
    requires
        !a.contains(c),
        !b.contains(c),
    ensures
        !(a + b).contains(c),
{
    if (a + b).contains(c) {
        let i = choose|i: int| 0 <= i < (a + b).len() && (a + b)[i] == c;
        if i < a.len() {
            assert(a[i] == c);
        } else {
            assert(b[i - a.len()] == c);
        }
    }
}

/// No character is escaped by a line break.
proof fn lemma_escaped_has_no_line_break(c: char)
    ensures
        !escaped(c).contains('\n'),
{
    if c <= '\u{1f}' {
        let high = hex_digit(c as int / 16);
        let low = hex_digit(c as int % 16);
        assert(0 <= c as int / 16 < 16 && 0 <= c as int % 16 < 16);
        assert(high != '\n' && low != '\n');
    }
    assert forall|i: int| 0 <= i < escaped(c).len() implies escaped(c)[i] != '\n' by {}
}

proof fn lemma_string_has_no_line_break(text: Seq<char>)
    ensures
        !escaped_text(text).contains('\n'),
        !json_string(text).contains('\n'),
    decreases text.len(),
{
    if text.len() > 0 {
        lemma_string_has_no_line_break(text.drop_last());
        lemma_escaped_has_no_line_break(text.last());
        lemma_neither_contains(escaped_text(text.drop_last()), escaped(text.last()), '\n');
    }
    lemma_neither_contains(seq!['"'], escaped_text(text), '\n');
    lemma_neither_contains(seq!['"'] + escaped_text(text), seq!['"'], '\n');
}

proof fn lemma_fields_have_no_line_break(fields: Seq<(Seq<char>, Seq<char>)>)
    ensures
        !fields_text(fields).contains('\n'),
    decreases fields.len(),
{
    if fields.len() > 0 {
        let before = fields_text(fields.drop_last());
        let comma = if fields.len() == 1 {
            Seq::empty()
        } else {
            seq![',']
        };
        let key = json_string(fields.last().0);
        let value = json_string(fields.last().1);
        lemma_fields_have_no_line_break(fields.drop_last());
        lemma_string_has_no_line_break(fields.last().0);
        lemma_string_has_no_line_break(fields.last().1);
        lemma_neither_contains(before, comma, '\n');
        lemma_neither_contains(before + comma, key, '\n');
        lemma_neither_contains(before + comma + key, seq![':'], '\n');
        lemma_neither_contains(before + comma + key + seq![':'], value, '\n');
    }
}

/// The text of an object has no line break, whatever its fields hold.
pub proof fn law_objects_have_no_line_break(fields: Seq<(Seq<char>, Seq<char>)>)
    ensures
        !json_object(fields).contains('\n'),
{
    lemma_fields_have_no_line_break(fields);
    lemma_neither_contains(seq!['{'], fields_text(fields), '\n');
    lemma_neither_contains(seq!['{'] + fields_text(fields), seq!['}'], '\n');
}

/// A value of JSON.
#[derive(Debug)]
pub enum JsonValue {
    Null,
    Bool { value: bool },
    Text { text: String },
    List { items: Vec<JsonValue> },
    /// Values under names; of two fields with one name, the later one counts.
    Object { fields: Vec<(String, JsonValue)> },
}

/// A value of JSON, as mathematical values.
#[verifier::ext_equal]
pub enum JsonView {
    Null,
    Bool { value: bool },
    Text { text: Seq<char> },
    List { items: Seq<JsonView> },
    Object { fields: Map<Seq<char>, JsonView> },
}

/// The views of the items of a list.
pub open spec fn list_view(items: Seq<JsonValue>) -> Seq<JsonView>
    decreases items,
{
    if items.len() == 0 {
        Seq::empty()
    } else {
        list_view(items.drop_last()).push(value_view(items.last()))
    }
}

/// The views of the fields of an object, under their names.
pub open spec fn object_view(fields: Seq<(String, JsonValue)>) -> Map<Seq<char>, JsonView>
    decreases fields,
{
    if fields.len() == 0 {
        Map::empty()
    } else {
        object_view(fields.drop_last()).insert(fields.last().0@, value_view(fields.last().1))
    }
}

/// The view of a value.
pub open spec fn value_view(value: JsonValue) -> JsonView
    decreases value,
{
    match value {
        JsonValue::Null => JsonView::Null,
        JsonValue::Bool { value } => JsonView::Bool { value },
        JsonValue::Text { text } => JsonView::Text { text: text@ },
        JsonValue::List { items } => JsonView::List { items: list_view(items@) },
        JsonValue::Object { fields } => JsonView::Object { fields: object_view(fields@) },
    }
}

impl View for JsonValue {
    type V = JsonView;

    open spec fn view(&self) -> JsonView {
        value_view(*self)
    }
}

/// One more item of a list.
pub proof fn lemma_list_push(items: Seq<JsonValue>, value: JsonValue)
    ensures
        list_view(items.push(value)) == list_view(items).push(value@),
{
    assert(items.push(value).drop_last() == items);
}

/// One more field of an object.
pub proof fn lemma_object_push(fields: Seq<(String, JsonValue)>, field: (String, JsonValue))
    ensures
        object_view(fields.push(field)) == object_view(fields).insert(field.0@, field.1@),
{
    assert(fields.push(field).drop_last() == fields);
}

/// The views of fields are their names and texts, one by one.
pub proof fn law_views_of_fields(fields: Seq<(String, String)>)
    ensures
        field_views(fields).len() == fields.len(),
        forall|i: int|
            0 <= i < fields.len() ==> #[trigger] field_views(fields)[i] == (
                fields[i].0@,
                fields[i].1@,
            ),
{
}

/// The view of a value is what it holds: a list has the views of its items, in order, and an object
/// has the view of the last value under each name.
pub proof fn law_views_of_values(
    text: String,
    value: bool,
    items: Vec<JsonValue>,
    fields: Vec<(String, JsonValue)>,
)
    ensures
        JsonValue::Null@ == JsonView::Null,
        (JsonValue::Bool { value })@ == (JsonView::Bool { value }),
        (JsonValue::Text { text })@ == (JsonView::Text { text: text@ }),
        (JsonValue::List { items })@ is List,
        (JsonValue::List { items })@->items.len() == items@.len(),
        forall|i: int|
            0 <= i < items@.len() ==> (JsonValue::List { items })@->items[i]
                == #[trigger] items@[i]@,
        (JsonValue::Object { fields })@ is Object,
        forall|i: int|
            0 <= i < fields@.len() && (forall|j: int|
                i < j < fields@.len() ==> fields@[j].0@ != fields@[i].0@) ==> {
                let view = (JsonValue::Object { fields })@->Object_fields;
                view.dom().contains(#[trigger] fields@[i].0@) && view[fields@[i].0@]
                    == fields@[i].1@
            },
{
    assert(value_view(JsonValue::Null) == JsonView::Null);
    assert(value_view(JsonValue::Bool { value }) == (JsonView::Bool { value }));
    assert(value_view(JsonValue::Text { text }) == (JsonView::Text { text: text@ }));
    assert(value_view(JsonValue::List { items }) == (JsonView::List { items: list_view(items@) }));
    assert(value_view(JsonValue::Object { fields }) == (JsonView::Object {
        fields: object_view(fields@),
    }));
    lemma_list_view(items@);
    assert forall|i: int|
        0 <= i < fields@.len() && (forall|j: int|
            i < j < fields@.len() ==> fields@[j].0@ != fields@[i].0@) implies {
        let view = (JsonValue::Object { fields })@->Object_fields;
        view.dom().contains(#[trigger] fields@[i].0@) && view[fields@[i].0@] == fields@[i].1@
    } by {
        lemma_object_view(fields@, i);
    }
}

proof fn lemma_list_view(items: Seq<JsonValue>)
    ensures
        list_view(items).len() == items.len(),
        forall|i: int| 0 <= i < items.len() ==> list_view(items)[i] == #[trigger] items[i]@,
    decreases items.len(),
{
    if items.len() > 0 {
        let front = items.drop_last();
        lemma_list_view(front);
        lemma_list_push(front, items.last());
        assert(front.push(items.last()) == items);
        assert forall|i: int| 0 <= i < items.len() implies list_view(items)[i]
            == #[trigger] items[i]@ by {
            if i < front.len() {
                assert(front[i] == items[i]);
                assert(list_view(front)[i] == front[i]@);
            }
        }
    }
}

proof fn lemma_object_view(fields: Seq<(String, JsonValue)>, i: int)
    requires
        0 <= i < fields.len(),
        forall|j: int| i < j < fields.len() ==> fields[j].0@ != fields[i].0@,
    ensures
        object_view(fields).dom().contains(fields[i].0@),
        object_view(fields)[fields[i].0@] == fields[i].1@,
    decreases fields.len(),
{
    let front = fields.drop_last();
    lemma_object_push(front, fields.last());
    assert(front.push(fields.last()) == fields);
    if i < front.len() {
        assert(front[i] == fields[i]);
        assert(fields[fields.len() - 1].0@ != fields[i].0@);
        assert forall|j: int| i < j < front.len() implies front[j].0@ != front[i].0@ by {
            assert(front[j] == fields[j]);
        }
        lemma_object_view(front, i);
    }
}

} // verus!

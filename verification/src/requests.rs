//! The requests to ElevenLabs and Hindsight, and what becomes of the answers.

use vstd::prelude::*;
#[allow(unused_imports)]
use vstd::utf8::is_ascii_chars;

use crate::config::Config;
use crate::error::Error;
#[allow(unused_imports)]
use crate::error::ErrorView;
use crate::json::JsonValue;
#[allow(unused_imports)]
use crate::json::{
    field_views, lemma_list_push, lemma_object_push, list_view, object_view, JsonView,
};
use crate::metadata::Metadata;
#[allow(unused_imports)]
use crate::metadata::{opt_map, pairs_map};
#[allow(unused_imports)]
use crate::select::opt_list;
use crate::text::{same_string, trim_trailing};
#[allow(unused_imports)]
use crate::text::{
    ascii_lower, has_suffix, law_without_trailing, opt_text, same_ignoring_ascii_case, texts,
    without_trailing,
};

verus! {

/// Where recordings are transcribed.
pub const TRANSCRIPTION_URL: &'static str = "https://api.elevenlabs.io/v1/speech-to-text";

/// The header that carries the ElevenLabs key.
pub const TRANSCRIPTION_KEY_HEADER: &'static str = "xi-api-key";

/// The form part that carries the recording.
pub const AUDIO_PART_NAME: &'static str = "file";

/// The name under which a recording is sent.
pub const AUDIO_FILE_NAME: &'static str = "audio.wav";

/// The type of the file that is sent.
pub const AUDIO_MIME_TYPE: &'static str = "audio/x-wav";

/// What `str::to_lowercase` makes of a text.
pub uninterp spec fn lower_case(text: Seq<char>) -> Seq<char>;

/// The text with its ASCII letters in lower case.
pub open spec fn ascii_lower_case(text: Seq<char>) -> Seq<char> {
    text.map_values(|c: char| ascii_lower(c))
}

/// Puts a text in lower case with `str::to_lowercase`. The contract names the result, and claims
/// that of an ASCII text each letter is replaced by its small form and nothing else is changed.
#[verifier::external_body]
fn to_lower_case(text: &str) -> (lower: String)
    ensures
        lower@ == lower_case(text@),
        is_ascii_chars(text@) ==> lower@ == ascii_lower_case(text@),
{
    text.to_lowercase()
}

/// The form fields of a transcription, besides the file. `lowered` is the language in lower case:
/// `auto` leaves the language to the service.
pub open spec fn transcription_form(
    model: Seq<char>,
    language: Seq<char>,
    lowered: Seq<char>,
) -> Seq<(Seq<char>, Seq<char>)> {
    let always = seq![("model_id"@, model), ("tag_audio_events"@, "false"@)];
    if lowered == "auto"@ {
        always
    } else {
        always.push(("language_code"@, language))
    }
}

/// The form fields of a transcription, besides the file. `lowered` is the language in lower case.
pub fn form_fields(model: &str, language: &str, lowered: &str) -> (fields: Vec<(String, String)>)
    ensures
        field_views(fields@) == transcription_form(model@, language@, lowered@),
        fields@.len() >= 2,
        fields@[0].0@ == "model_id"@ && fields@[0].1@ == model@,
        fields@[1].0@ == "tag_audio_events"@ && fields@[1].1@ == "false"@,
        lowered@ == "auto"@ ==> fields@.len() == 2,
        lowered@ != "auto"@ ==> fields@.len() == 3 && fields@[2].0@ == "language_code"@
            && fields@[2].1@ == language@,
{
    let mut fields: Vec<(String, String)> = Vec::new();
    fields.push(("model_id".to_owned(), model.to_owned()));
    fields.push(("tag_audio_events".to_owned(), "false".to_owned()));
    if !same_string(lowered, "auto") {
        fields.push(("language_code".to_owned(), language.to_owned()));
    }
    assert(field_views(fields@) == transcription_form(model@, language@, lowered@));
    fields
}

/// The form fields of a transcription with the given settings, besides the file.
pub fn transcription_fields(config: &Config) -> (fields: Vec<(String, String)>)
    ensures
        field_views(fields@) == transcription_form(
            config.model@,
            config.language@,
            lower_case(config.language@),
        ),
        is_ascii_chars(config.language@) ==> field_views(fields@) == transcription_form(
            config.model@,
            config.language@,
            ascii_lower_case(config.language@),
        ),
        fields@.len() >= 2,
        fields@[0].0@ == "model_id"@ && fields@[0].1@ == config.model@,
{
    let lowered: String = to_lower_case(config.language.as_str());
    form_fields(config.model.as_str(), config.language.as_str(), lowered.as_str())
}

/// A language of ASCII letters is left to the service if and only if it says `auto`, in whatever
/// case; any other language is sent as it was set.
pub proof fn law_auto_leaves_the_language_open(model: Seq<char>, language: Seq<char>)
    ensures
        ({
            let form = transcription_form(model, language, ascii_lower_case(language));
            let sent = ("language_code"@, language);
            same_ignoring_ascii_case(language, "auto"@) <==> !form.contains(sent)
        }),
{
    reveal_strlit("auto");
    reveal_strlit("model_id");
    reveal_strlit("tag_audio_events");
    reveal_strlit("language_code");
    assert(ascii_lower_case("auto"@) == "auto"@);
    assert("model_id"@.len() == 8 && "tag_audio_events"@.len() == 16 && "language_code"@.len()
        == 13);
    let form = transcription_form(model, language, ascii_lower_case(language));
    if ascii_lower_case(language) != "auto"@ {
        assert(form[2] == ("language_code"@, language));
    }
}

/// Accepts or refuses the answer of ElevenLabs; `status` is its status line.
pub fn check_transcription(success: bool, status: &str, body: String) -> (r: Result<String, Error>)
    ensures
        match r {
            Ok(accepted) => success && accepted@ == body@,
            Err(e) => !success && e@ == (ErrorView::TranscriptionFailed {
                status: status@,
                body: body@,
            }),
        },
{
    if success {
        Ok(body)
    } else {
        Err(Error::TranscriptionFailed { status: status.to_owned(), body })
    }
}

/// The place of a bank's memories below a Hindsight URL.
pub open spec fn memories_url(base: Seq<char>, bank: Seq<char>) -> Seq<char> {
    without_trailing(base, '/') + "/v1/default/banks/"@ + bank + "/memories"@
}

/// Any number of slashes at the end of a Hindsight URL makes no difference.
pub proof fn law_trailing_slashes_do_not_matter(base: Seq<char>, bank: Seq<char>, count: nat)
    ensures
        memories_url(base + Seq::new(count, |i: int| '/'), bank) == memories_url(base, bank),
    decreases count,
{
    let slashes = Seq::new(count, |i: int| '/');
    if count == 0 {
        assert(base + slashes == base);
    } else {
        let fewer = Seq::new((count - 1) as nat, |i: int| '/');
        law_trailing_slashes_do_not_matter(base, bank, (count - 1) as nat);
        assert((base + slashes).drop_last() == base + fewer);
        assert((base + slashes).last() == '/');
    }
}

/// A request to Hindsight.
#[derive(Debug)]
pub struct RetainRequest {
    pub url: String,
    pub api_key: Option<String>,
    pub body: JsonValue,
}

/// A text, or null where there is none.
pub open spec fn text_or_null(text: Option<Seq<char>>) -> JsonView {
    match text {
        Some(text) => JsonView::Text { text },
        None => JsonView::Null,
    }
}

/// A list of texts, or null where there is none.
pub open spec fn list_or_null(list: Option<Seq<Seq<char>>>) -> JsonView {
    match list {
        Some(list) => JsonView::List {
            items: list.map_values(|text: Seq<char>| JsonView::Text { text }),
        },
        None => JsonView::Null,
    }
}

/// An object of texts, or null where there is none.
pub open spec fn object_or_null(map: Option<Map<Seq<char>, Seq<char>>>) -> JsonView {
    match map {
        Some(map) => JsonView::Object {
            fields: map.map_values(|text: Seq<char>| JsonView::Text { text }),
        },
        None => JsonView::Null,
    }
}

/// A note for Hindsight. What is not set is null.
pub open spec fn note(
    content: Seq<char>,
    context: Seq<char>,
    metadata: Option<Map<Seq<char>, Seq<char>>>,
    tags: Option<Seq<Seq<char>>>,
    strategy: Option<Seq<char>>,
) -> JsonView {
    JsonView::Object {
        fields: map![
            "content"@ => text_or_null(Some(content)),
            "context"@ => text_or_null(Some(context)),
            "metadata"@ => object_or_null(metadata),
            "tags"@ => list_or_null(tags),
            "strategy"@ => text_or_null(strategy),
        ],
    }
}

/// The body of a request to Hindsight: the one note, which is to be retained before the answer.
pub open spec fn retain_body(note: JsonView) -> JsonView {
    JsonView::Object {
        fields: map![
            "items"@ => JsonView::List { items: seq![note] },
            "async"@ => JsonView::Bool { value: false },
        ],
    }
}

/// A note always has the same five fields, and those for which nothing is set are null.
pub proof fn law_unset_settings_are_null(
    content: Seq<char>,
    context: Seq<char>,
    metadata: Option<Map<Seq<char>, Seq<char>>>,
    tags: Option<Seq<Seq<char>>>,
    strategy: Option<Seq<char>>,
)
    ensures
        ({
            let fields = note(content, context, metadata, tags, strategy)->Object_fields;
            &&& fields.dom() == set![
                "content"@,
                "context"@,
                "metadata"@,
                "tags"@,
                "strategy"@,
            ]
            &&& fields["content"@] == (JsonView::Text { text: content })
            &&& fields["context"@] == (JsonView::Text { text: context })
            &&& fields["metadata"@] == JsonView::Null <==> metadata is None
            &&& fields["tags"@] == JsonView::Null <==> tags is None
            &&& fields["strategy"@] == JsonView::Null <==> strategy is None
        }),
{
    reveal_strlit("content");
    reveal_strlit("context");
    reveal_strlit("metadata");
    reveal_strlit("tags");
    reveal_strlit("strategy");
    assert("content"@[5] != "context"@[5]);
    assert("metadata"@[0] != "strategy"@[0]);
    assert("content"@.len() == 7 && "context"@.len() == 7 && "metadata"@.len() == 8
        && "strategy"@.len() == 8 && "tags"@.len() == 4);
}

fn optional_text(text: &Option<String>) -> (value: JsonValue)
    ensures
        value@ == text_or_null(opt_text(*text)),
{
    match text {
        Some(text) => JsonValue::Text { text: text.clone() },
        None => JsonValue::Null,
    }
}

fn optional_list(list: &Option<Vec<String>>) -> (value: JsonValue)
    ensures
        value@ == list_or_null(opt_list(*list)),
{
    let list: &Vec<String> = match list {
        Some(list) => list,
        None => return JsonValue::Null,
    };
    let ghost wanted: Seq<JsonView> = texts(list@).map_values(
        |text: Seq<char>| JsonView::Text { text },
    );
    let mut items: Vec<JsonValue> = Vec::new();
    let mut i: usize = 0;
    assert(list_view(items@) == wanted.take(0));
    while i < list.len()
        invariant
            i <= list.len(),
            wanted == texts(list@).map_values(|text: Seq<char>| JsonView::Text { text }),
            list_view(items@) == wanted.take(i as int),
        decreases list.len() - i,
    {
        let ghost before: Seq<JsonValue> = items@;
        items.push(JsonValue::Text { text: list[i].clone() });
        i += 1;
        proof {
            lemma_list_push(before, items@.last());
        }
        assert(wanted.take(i as int) == wanted.take(i - 1).push(wanted[i - 1]));
    }
    assert(wanted.take(i as int) == wanted);
    JsonValue::List { items }
}

fn optional_object(metadata: &Option<Metadata>) -> (value: JsonValue)
    ensures
        value@ == object_or_null(opt_map(*metadata)),
{
    let metadata: &Metadata = match metadata {
        Some(metadata) => metadata,
        None => return JsonValue::Null,
    };
    let pairs: &Vec<(String, String)> = metadata.entries();
    let ghost as_text = |text: Seq<char>| JsonView::Text { text };
    let mut fields: Vec<(String, JsonValue)> = Vec::new();
    let mut i: usize = 0;
    assert(pairs@.take(0) == Seq::<(String, String)>::empty());
    assert(object_view(fields@) == pairs_map(pairs@.take(0)).map_values(as_text));
    while i < pairs.len()
        invariant
            i <= pairs.len(),
            as_text == (|text: Seq<char>| JsonView::Text { text }),
            object_view(fields@) == pairs_map(pairs@.take(i as int)).map_values(as_text),
        decreases pairs.len() - i,
    {
        let ghost before: Seq<(String, JsonValue)> = fields@;
        fields.push((pairs[i].0.clone(), JsonValue::Text { text: pairs[i].1.clone() }));
        i += 1;
        proof {
            lemma_object_push(before, fields@.last());
        }
        assert(pairs@.take(i as int).drop_last() == pairs@.take(i - 1));
        assert(object_view(fields@) =~= pairs_map(pairs@.take(i as int)).map_values(as_text));
    }
    assert(pairs@.take(i as int) == pairs@);
    JsonValue::Object { fields }
}

/// One more field of an object.
fn put(fields: &mut Vec<(String, JsonValue)>, name: &str, value: JsonValue)
    ensures
        object_view(final(fields)@) == object_view(old(fields)@).insert(name@, value@),
{
    let ghost before: Seq<(String, JsonValue)> = fields@;
    fields.push((name.to_owned(), value));
    proof {
        lemma_object_push(before, fields@.last());
    }
}

/// The request that retains a transcript.
pub fn retain_request(
    config: &Config,
    hindsight_url: &str,
    bank: &str,
    transcript: &str,
    api_key: Option<String>,
) -> (request: RetainRequest)
    ensures
        request.url@ == memories_url(hindsight_url@, bank@),
        has_suffix(request.url@, "/v1/default/banks/"@ + bank@ + "/memories"@),
        opt_text(request.api_key) == opt_text(api_key),
        request.body@ == retain_body(
            note(
                transcript@,
                config.context@,
                opt_map(config.metadata),
                opt_list(config.tags),
                opt_text(config.strategy),
            ),
        ),
{
    let mut url: String = trim_trailing(hindsight_url, '/');
    url.append("/v1/default/banks/");
    url.append(bank);
    url.append("/memories");
    proof {
        let end = "/v1/default/banks/"@ + bank@ + "/memories"@;
        assert(url@ == without_trailing(hindsight_url@, '/') + end);
        assert(url@.subrange(url@.len() - end.len(), url@.len() as int) == end);
    }

    let mut fields: Vec<(String, JsonValue)> = Vec::new();
    put(&mut fields, "content", JsonValue::Text { text: transcript.to_owned() });
    put(&mut fields, "context", JsonValue::Text { text: config.context.clone() });
    put(&mut fields, "metadata", optional_object(&config.metadata));
    put(&mut fields, "tags", optional_list(&config.tags));
    put(&mut fields, "strategy", optional_text(&config.strategy));
    let mut items: Vec<JsonValue> = Vec::new();
    items.push(JsonValue::Object { fields });
    proof {
        lemma_list_push(Seq::empty(), items@[0]);
        assert(items@ == Seq::empty().push(items@[0]));
    }

    let mut body: Vec<(String, JsonValue)> = Vec::new();
    put(&mut body, "items", JsonValue::List { items });
    put(&mut body, "async", JsonValue::Bool { value: false });
    RetainRequest { url, api_key, body: JsonValue::Object { fields: body } }
}

/// Accepts or refuses the answer of Hindsight; `status` is its status line.
pub fn check_retention(success: bool, status: &str, body: String) -> (r: Result<(), Error>)
    ensures
        match r {
            Ok(()) => success,
            Err(e) => !success && e@ == (ErrorView::RetainFailed { status: status@, body: body@ }),
        },
{
    if success {
        Ok(())
    } else {
        Err(Error::RetainFailed { status: status.to_owned(), body })
    }
}

/// The URL of a request: the base without the slashes at its end, then the place of the banks, then
/// the whole name of the bank, then that of its memories.
pub proof fn law_memories_url(base: Seq<char>, bank: Seq<char>)
    ensures
        exists|to: int|
            {
                &&& 0 <= to <= base.len()
                &&& memories_url(base, bank) == #[trigger] base.take(to) + "/v1/default/banks/"@
                    + bank + "/memories"@
                &&& forall|i: int| to <= i < base.len() ==> #[trigger] base[i] == '/'
                &&& to > 0 ==> base[to - 1] != '/'
            },
{
    law_without_trailing(base, '/');
    let to = choose|to: int|
        {
            &&& 0 <= to <= base.len()
            &&& without_trailing(base, '/') == #[trigger] base.take(to)
            &&& forall|i: int| to <= i < base.len() ==> #[trigger] base[i] == '/'
            &&& to > 0 ==> base[to - 1] != '/'
        };
    assert(memories_url(base, bank) == base.take(to) + "/v1/default/banks/"@ + bank
        + "/memories"@);
}

/// For one base, different banks have different URLs.
pub proof fn law_banks_have_urls_of_their_own(base: Seq<char>, bank: Seq<char>, other: Seq<char>)
    requires
        memories_url(base, bank) == memories_url(base, other),
    ensures
        bank == other,
{
    let a = without_trailing(base, '/') + "/v1/default/banks/"@;
    let z = "/memories"@;
    let url = a + bank + z;
    assert(url == a + other + z);
    assert(url.len() == a.len() + bank.len() + z.len());
    assert((a + other + z).len() == a.len() + other.len() + z.len());
    let n = a.len() as int;
    assert(url.subrange(n, n + bank.len()) == bank);
    assert((a + other + z).subrange(n, n + other.len()) == other);
}

/// Among the form fields there is exactly one for the model, with the model that was chosen; one
/// that asks for no audio events; and one for the language, with the language as it was set, unless
/// that is left to the service. There are no others.
pub proof fn law_form_fields(model: Seq<char>, language: Seq<char>, lowered: Seq<char>)
    ensures
        ({
            let form = transcription_form(model, language, lowered);
            let open = lowered == "auto"@;
            &&& forall|v: Seq<char>| #[trigger] form.contains(("model_id"@, v)) <==> v == model
            &&& forall|v: Seq<char>| #[trigger]
                form.contains(("tag_audio_events"@, v)) <==> v == "false"@
            &&& forall|v: Seq<char>| #[trigger]
                form.contains(("language_code"@, v)) <==> !open && v == language
            &&& form.len() == if open {
                2int
            } else {
                3int
            }
        }),
{
    reveal_strlit("model_id");
    reveal_strlit("tag_audio_events");
    reveal_strlit("language_code");
    assert("model_id"@.len() == 8 && "tag_audio_events"@.len() == 16 && "language_code"@.len()
        == 13);
    let form = transcription_form(model, language, lowered);
    assert(form[0] == ("model_id"@, model));
    assert(form[1] == ("tag_audio_events"@, "false"@));
    if lowered != "auto"@ {
        assert(form[2] == ("language_code"@, language));
    }
}

/// A note holds what it is made of: the words as they were said, the context, each entry of the
/// metadata under its key, each tag in its place, and the strategy. The request holds that note
/// alone, and waits for it.
pub proof fn law_note_holds_what_was_set(
    content: Seq<char>,
    context: Seq<char>,
    metadata: Option<Map<Seq<char>, Seq<char>>>,
    tags: Option<Seq<Seq<char>>>,
    strategy: Option<Seq<char>>,
)
    ensures
        ({
            let note = note(content, context, metadata, tags, strategy);
            let fields = note->Object_fields;
            let body = retain_body(note)->Object_fields;
            &&& fields["content"@] == (JsonView::Text { text: content })
            &&& fields["context"@] == (JsonView::Text { text: context })
            &&& strategy is Some ==> fields["strategy"@] == (JsonView::Text { text: strategy->0 })
            &&& tags is Some ==> fields["tags"@]->items.len() == tags->0.len() && forall|i: int|
                0 <= i < tags->0.len() ==> #[trigger] fields["tags"@]->items[i]
                    == (JsonView::Text { text: tags->0[i] })
            &&& metadata is Some ==> fields["metadata"@]->Object_fields.dom() == metadata->0.dom()
            &&& metadata is Some ==> forall|k: Seq<char>|
                metadata->0.dom().contains(k)
                    ==> #[trigger] fields["metadata"@]->Object_fields[k] == (JsonView::Text {
                    text: metadata->0[k],
                })
            &&& body.dom() == set!["items"@, "async"@]
            &&& body["items"@]->items == seq![note]
            &&& body["async"@] == (JsonView::Bool { value: false })
        }),
{
    law_unset_settings_are_null(content, context, metadata, tags, strategy);
    reveal_strlit("content");
    reveal_strlit("context");
    reveal_strlit("metadata");
    reveal_strlit("tags");
    reveal_strlit("strategy");
    reveal_strlit("items");
    reveal_strlit("async");
    assert("items"@[0] != "async"@[0]);
    assert("content"@[5] != "context"@[5]);
    assert("metadata"@[0] != "strategy"@[0]);
    assert("content"@.len() == 7 && "context"@.len() == 7 && "metadata"@.len() == 8
        && "strategy"@.len() == 8 && "tags"@.len() == 4);
    let fields = note(content, context, metadata, tags, strategy)->Object_fields;
    if metadata is Some {
        assert(fields["metadata"@]->Object_fields.dom() =~= metadata->0.dom());
    }
}

} // verus!

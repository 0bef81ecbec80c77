//! What is said to `kubectl`, and what is read from its answers.
//!
//! Running the program is left to the caller: the functions here give the
//! arguments of each query and take the bytes that came back.

use crate::k8s_resource::CommandOutput;
use vstd::prelude::*;
use vstd::string::*;

verus! {

/// Declares `serde_json::Value`, a parsed JSON value, as a type whose inside
/// is not looked at here.
#[verifier::external_type_specification]
#[verifier::external_body]
pub struct ExJsonValue(serde_json::Value);

/// What a JSON value holds: the compact JSON text that `to_string` writes
/// for it.
pub uninterp spec fn json_text(value: serde_json::Value) -> Seq<char>;

/// The text of the JSON document that `serde_json::from_slice` reads from
/// these bytes, if they are one.
pub uninterp spec fn document_text(bytes: Seq<u8>) -> Option<Seq<char>>;

/// The text of the member that `serde_json::Value::get` finds under `key` in
/// the value with the text `value`, if that value is an object with this key.
pub uninterp spec fn member_text(value: Seq<char>, key: Seq<char>) -> Option<Seq<char>>;

/// The texts of the elements that `serde_json::Value::as_array` gives for
/// the value with the text `value`, if that value is an array.
pub uninterp spec fn element_texts(value: Seq<char>) -> Option<Seq<Seq<char>>>;

/// What `str::trim` leaves of a text.
pub uninterp spec fn trimmed(text: Seq<char>) -> Seq<char>;

/// The texts of some JSON values, in their order.
pub open spec fn json_texts(values: Seq<serde_json::Value>) -> Seq<Seq<char>> {
    values.map_values(|value: serde_json::Value| json_text(value))
}

/// Calls `serde_json::from_slice` for a `serde_json::Value`. The contract
/// only names the outcome: the document read from the bytes, or none when
/// the bytes are not JSON.
#[verifier::external_body]
fn json_from_slice(bytes: &[u8]) -> (document: Option<serde_json::Value>)
    ensures
        match document {
            Some(value) => document_text(bytes@) == Some(json_text(value)),
            None => document_text(bytes@) is None,
        },
{
    serde_json::from_slice::<serde_json::Value>(bytes).ok()
}

/// Calls `serde_json::Value::get` with a string key. The contract only names
/// the outcome: the member found, or none.
#[verifier::external_body]
fn json_get<'a>(value: &'a serde_json::Value, key: &str) -> (member: Option<
    &'a serde_json::Value,
>)
    ensures
        match member {
            Some(found) => member_text(json_text(*value), key@) == Some(json_text(*found)),
            None => member_text(json_text(*value), key@) is None,
        },
{
    value.get(key)
}

/// Calls `serde_json::Value::as_array`. The contract only names the outcome:
/// the elements, or none when the value is no array.
#[verifier::external_body]
fn json_as_array<'a>(value: &'a serde_json::Value) -> (elements: Option<
    &'a Vec<serde_json::Value>,
>)
    ensures
        match elements {
            Some(found) => element_texts(json_text(*value)) == Some(json_texts(found@)),
            None => element_texts(json_text(*value)) is None,
        },
{
    value.as_array()
}

/// Calls `to_string` on a `serde_json::Value`, which writes its compact
/// JSON text.
#[verifier::external_body]
fn json_to_string(value: &serde_json::Value) -> (text: String)
    ensures
        text@ == json_text(*value),
{
    value.to_string()
}

/// Calls `str::replace` to replace every `unwanted` by nothing: what is left
/// are the other characters, in their order.
#[verifier::external_body]
fn remove_char(text: &str, unwanted: char) -> (cleaned: String)
    ensures
        cleaned@ == text@.filter(|c: char| c != unwanted),
{
    text.replace(unwanted, "")
}

/// Calls `String::from_utf8`, which gives the text that the bytes encode
/// when they are valid UTF-8, and fails otherwise.
#[verifier::external_body]
fn text_from_utf8(bytes: Vec<u8>) -> (text: Option<String>)
    ensures
        match text {
            Some(decoded) => vstd::utf8::valid_utf8(bytes@) && decoded@ == vstd::utf8::decode_utf8(
                bytes@,
            ),
            None => !vstd::utf8::valid_utf8(bytes@),
        },
{
    String::from_utf8(bytes).ok()
}

/// Calls `str::trim`, which removes leading and trailing whitespace. The
/// contract only names the outcome.
#[verifier::external_body]
fn trim(text: &str) -> (kept: String)
    ensures
        kept@ == trimmed(text@),
{
    text.trim().to_owned()
}

/// The name that one element of the `items` of a listing carries, given the
/// element's JSON text: the text of `metadata.name`, without any double
/// quote. An element without `metadata`, or whose `metadata` has no `name`,
/// carries none.
pub open spec fn resource_name(item: Seq<char>) -> Option<Seq<char>> {
    match member_text(item, "metadata"@) {
        Some(metadata) => match member_text(metadata, "name"@) {
            Some(name) => Some(name.filter(|c: char| c != '"')),
            None => None,
        },
        None => None,
    }
}

/// The names carried by the first `count` of `items`, in their order.
pub open spec fn names_among(items: Seq<Seq<char>>, count: int) -> Seq<Seq<char>>
    decreases count,
{
    if count <= 0 {
        Seq::empty()
    } else {
        match resource_name(items[count - 1]) {
            Some(name) => names_among(items, count - 1).push(name),
            None => names_among(items, count - 1),
        }
    }
}

/// The names in the answer to a `kubectl get ... -ojson`, given the JSON
/// text of the answer: those of the elements of the array `items`. An answer
/// that is no JSON document, or has no such array, holds no name.
pub open spec fn resource_names(document: Option<Seq<char>>) -> Seq<Seq<char>> {
    match document {
        Some(value) => match member_text(value, "items"@) {
            Some(items) => match element_texts(items) {
                Some(elements) => names_among(elements, elements.len() as int),
                None => Seq::empty(),
            },
            None => Seq::empty(),
        },
        None => Seq::empty(),
    }
}

/// The text of a parsed answer, if there is one.
pub open spec fn text_of(document: Option<serde_json::Value>) -> Option<Seq<char>> {
    match document {
        Some(value) => Some(json_text(value)),
        None => None,
    }
}

/// Reads the names of the listed resources out of a parsed answer.
pub fn names_in_document(document: &Option<serde_json::Value>) -> (resources: Vec<String>)
    ensures
        resources@.map_values(|name: String| name@) == resource_names(text_of(*document)),
{
    let mut resources: Vec<String> = Vec::new();
    let value = match document {
        Some(value) => value,
        None => {
            assert(resources@.map_values(|name: String| name@) =~= Seq::empty());
            return resources;
        },
    };
    let elements = match json_get(value, "items") {
        Some(items) => match json_as_array(items) {
            Some(elements) => elements,
            None => {
                assert(resources@.map_values(|name: String| name@) =~= Seq::empty());
                return resources;
            },
        },
        None => {
            assert(resources@.map_values(|name: String| name@) =~= Seq::empty());
            return resources;
        },
    };
    let ghost texts = json_texts(elements@);
    let mut i: usize = 0;
    assert(resources@.map_values(|name: String| name@) =~= names_among(texts, 0));
    while i < elements.len()
        invariant
            i <= elements.len(),
            texts == json_texts(elements@),
            resources@.map_values(|name: String| name@) == names_among(texts, i as int),
        decreases elements.len() - i,
    {
        let ghost before = resources@;
        assert(texts[i as int] == json_text(elements@[i as int]));
        match json_get(&elements[i], "metadata") {
            Some(metadata) => match json_get(metadata, "name") {
                Some(name) => {
                    let text = json_to_string(name);
                    let cleaned = remove_char(text.as_str(), '"');
                    resources.push(cleaned);
                    assert(resources@.map_values(|name: String| name@) =~= before.map_values(
                        |name: String| name@,
                    ).push(cleaned@));
                },
                None => {},
            },
            None => {},
        }
        i += 1;
    }
    resources
}

/// The name of the current context in the answer to the query of
/// `current_context`: the output as text, without the whitespace around it.
/// There is none when the command could not be run or did not write UTF-8.
pub fn context_name(output: Option<CommandOutput>) -> (name: Option<String>)
    ensures
        match output {
            Some(answer) if vstd::utf8::valid_utf8(answer.stdout@) => name is Some && name->0@
                == trimmed(vstd::utf8::decode_utf8(answer.stdout@)),
            _ => name is None,
        },
{
    match output {
        Some(answer) => match text_from_utf8(answer.stdout) {
            Some(text) => Some(trim(text.as_str())),
            None => None,
        },
        None => None,
    }
}

/// Whether the cluster created the namespace, given what the command built
/// from `create_namespace` produced.
pub fn namespace_created(outcome: &Option<CommandOutput>) -> (created: bool)
    ensures
        created == (outcome is Some && outcome->0.success),
{
    match outcome {
        Some(answer) => answer.success,
        None => false,
    }
}

/// The names of the resources that a `kubectl get ... -ojson` listed. A
/// command that could not be run lists nothing; of one that ran, the output
/// is read whatever its exit status was.
pub fn retrieve_k8s_resources(output: &Option<CommandOutput>) -> (resources: Vec<String>)
    ensures
        resources@.map_values(|name: String| name@) == (match *output {
            Some(answer) => resource_names(document_text(answer.stdout@)),
            None => Seq::empty(),
        }),
{
    match output {
        Some(answer) => {
            let document = json_from_slice(answer.stdout.as_slice());
            assert(text_of(document) == document_text(answer.stdout@));
            names_in_document(&document)
        },
        None => {
            let resources: Vec<String> = Vec::new();
            assert(resources@.map_values(|name: String| name@) =~= Seq::empty());
            resources
        },
    }
}

/// Whether `arguments` are exactly these words, in this order.
pub open spec fn are_words(arguments: Seq<String>, words: Seq<Seq<char>>) -> bool {
    arguments.map_values(|word: String| word@) == words
}

/// The arguments of `kubectl` that ask for the name of the current context.
pub fn current_context() -> (arguments: Vec<String>)
    ensures
        are_words(arguments@, seq!["config"@, "current-context"@]),
{
    let mut arguments: Vec<String> = Vec::new();
    arguments.push(String::from_str("config"));
    arguments.push(String::from_str("current-context"));
    assert(arguments@.map_values(|word: String| word@) =~= seq!["config"@, "current-context"@]);
    arguments
}

/// The arguments of `kubectl` that create the namespace `name` in `context`.
pub fn create_namespace(name: &str, context: &str) -> (arguments: Vec<String>)
    ensures
        are_words(arguments@, seq!["--context"@, context@, "create"@, "namespace"@, name@]),
{
    let mut arguments: Vec<String> = Vec::new();
    arguments.push(String::from_str("--context"));
    arguments.push(String::from_str(context));
    arguments.push(String::from_str("create"));
    arguments.push(String::from_str("namespace"));
    arguments.push(String::from_str(name));
    assert(arguments@.map_values(|word: String| word@) =~= seq![
        "--context"@,
        context@,
        "create"@,
        "namespace"@,
        name@,
    ]);
    arguments
}

/// The arguments of `kubectl get` that list all namespaces of `context`.
pub fn namespaces(context: &str) -> (arguments: Vec<String>)
    ensures
        are_words(arguments@, seq!["--context"@, context@, "namespace"@, "-ojson"@]),
{
    let mut arguments: Vec<String> = Vec::new();
    arguments.push(String::from_str("--context"));
    arguments.push(String::from_str(context));
    arguments.push(String::from_str("namespace"));
    arguments.push(String::from_str("-ojson"));
    assert(arguments@.map_values(|word: String| word@) =~= seq![
        "--context"@,
        context@,
        "namespace"@,
        "-ojson"@,
    ]);
    arguments
}

/// The arguments of `kubectl get` that list all pods of `namespace` in
/// `context`.
pub fn pods(context: &str, namespace: &str) -> (arguments: Vec<String>)
    ensures
        are_words(
            arguments@,
            seq!["--context"@, context@, "--namespace"@, namespace@, "pods"@, "-ojson"@],
        ),
{
    let mut arguments: Vec<String> = Vec::new();
    arguments.push(String::from_str("--context"));
    arguments.push(String::from_str(context));
    arguments.push(String::from_str("--namespace"));
    arguments.push(String::from_str(namespace));
    arguments.push(String::from_str("pods"));
    arguments.push(String::from_str("-ojson"));
    assert(arguments@.map_values(|word: String| word@) =~= seq![
        "--context"@,
        context@,
        "--namespace"@,
        namespace@,
        "pods"@,
        "-ojson"@,
    ]);
    arguments
}

} // verus!

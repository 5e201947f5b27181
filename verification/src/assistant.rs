//! The AI assistant: what a request to the local model server carries, how
//! its streamed reply and its model list are read, and how the reply
//! reaches the document. Sending requests is left to the caller.
use vstd::prelude::*;
use crate::text::{push_str, chars_of, string_from_chars};
use crate::stats::{all_ws, is_blank};
use crate::settings::{AiAction, instruction, prompt_separator};
use crate::writer::{Writer, tab_text_set, strings_view};

verus! {

/// A JSON value as `serde_json` parses it.
#[verifier::external_type_specification]
#[verifier::external_body]
pub struct ExJsonValue(serde_json::Value);

/// The value `serde_json::from_str` parses from `s`; absent when `s` is not
/// one JSON document.
pub uninterp spec fn json_parse(s: Seq<char>) -> Option<serde_json::Value>;

/// Whether `s` is one JSON document, as `serde_json::from_str` accepts it.
pub open spec fn json_valid(s: Seq<char>) -> bool {
    json_parse(s) is Some
}

/// The member `key` of a JSON value, as `serde_json::Value::get` finds it.
pub uninterp spec fn json_get(v: serde_json::Value, key: Seq<char>) -> Option<serde_json::Value>;

/// The text of a JSON value, as `serde_json::Value::as_str` gives it.
pub uninterp spec fn json_str(v: serde_json::Value) -> Option<Seq<char>>;

/// Parses JSON text with `serde_json::from_str`: the result is the value
/// the text parses to, absent exactly when the text is not valid JSON. What
/// the value holds is left to the names of the other JSON calls.
#[verifier::external_body]
fn parse_json(s: &str) -> (r: Option<serde_json::Value>)
    ensures
        r == json_parse(s@),
{
    serde_json::from_str::<serde_json::Value>(s).ok()
}

/// The member `key` of a JSON object, with `serde_json::Value::get`; absent
/// for other values and for missing members.
#[verifier::external_body]
fn json_member<'a>(v: &'a serde_json::Value, key: &str) -> (r: Option<&'a serde_json::Value>)
    ensures
        match r {
            Some(m) => json_get(*v, key@) == Some(*m),
            None => json_get(*v, key@) is None,
        },
{
    v.get(key)
}

/// The text of a JSON string, with `serde_json::Value::as_str`; absent for
/// other values.
#[verifier::external_body]
fn json_text(v: &serde_json::Value) -> (r: Option<String>)
    ensures
        match r {
            Some(t) => json_str(*v) == Some(t@),
            None => json_str(*v) is None,
        },
{
    v.as_str().map(|t| t.to_owned())
}

/// The items of a JSON value, as `serde_json::Value::as_array` gives them.
pub uninterp spec fn json_array(v: serde_json::Value) -> Option<Seq<serde_json::Value>>;

/// The items of a JSON array, with `serde_json::Value::as_array`; absent
/// for other values.
#[verifier::external_body]
fn json_items(v: &serde_json::Value) -> (r: Option<&Vec<serde_json::Value>>)
    ensures
        match r {
            Some(a) => json_array(*v) == Some(a@),
            None => json_array(*v) is None,
        },
{
    v.as_array()
}

/// The `name` strings of model-list items, in order; items without one are
/// passed over.
pub open spec fn item_names(items: Seq<serde_json::Value>) -> Seq<Seq<char>>
    decreases items.len(),
{
    if items.len() == 0 {
        seq![]
    } else {
        let rest = item_names(items.drop_last());
        match json_get(items.last(), "name"@) {
            Some(n) => match json_str(n) {
                Some(t) => rest.push(t),
                None => rest,
            },
            None => rest,
        }
    }
}

/// The model names a model-list reply holds: the `name` strings of the
/// items of its `models` array; none when there is no such array.
pub open spec fn model_list(v: serde_json::Value) -> Seq<Seq<char>> {
    match json_get(v, "models"@) {
        Some(m) => match json_array(m) {
            Some(items) => item_names(items),
            None => seq![],
        },
        None => seq![],
    }
}

/// The text a line of the streamed reply carries: the string in its
/// `response` member, when the line is JSON and has one.
pub open spec fn response_text(line: Seq<char>) -> Option<Seq<char>> {
    match json_parse(line) {
        Some(v) => match json_get(v, "response"@) {
            Some(t) => json_str(t),
            None => None,
        },
        None => None,
    }
}

/// The text a line of the streamed reply adds: its `response` member, when
/// the line is JSON and that member is a string.
pub fn stream_token(line: &str) -> (r: Option<String>)
    ensures
        match r {
            Some(t) => response_text(line@) == Some(t@),
            None => response_text(line@) is None,
        },
        !json_valid(line@) ==> r is None,
{
    match parse_json(line) {
        Some(v) => match json_member(&v, "response") {
            Some(t) => json_text(t),
            None => None,
        },
        None => None,
    }
}

/// Adds to the reply the text of one streamed line.
pub fn append_stream_line(reply: &mut String, line: &str)
    ensures
        final(reply)@ == old(reply)@ + match response_text(line@) {
            Some(t) => t,
            None => Seq::<char>::empty(),
        },
        !json_valid(line@) ==> final(reply)@ == old(reply)@,
{
    match stream_token(line) {
        Some(t) => push_str(reply, t.as_str()),
        None => {},
    }
}

/// The model names in a model-list reply: the `name` strings of the items
/// of its `models` array (none when there is no such array); absent when
/// the reply is not JSON.
pub fn model_names(body: &str) -> (r: Option<Vec<String>>)
    ensures
        r is Some <==> json_valid(body@),
        r matches Some(ns) ==> strings_view(ns@) == model_list(json_parse(body@)->0),
{
    match parse_json(body) {
        Some(v) => {
            let mut names: Vec<String> = Vec::new();
            match json_member(&v, "models") {
                Some(m) => match json_items(m) {
                    Some(items) => {
                        let mut i: usize = 0;
                        proof {
                            assert(items@.take(0) =~= Seq::<serde_json::Value>::empty());
                            assert(strings_view(names@) =~= Seq::<Seq<char>>::empty());
                        }
                        while i < items.len()
                            invariant
                                i <= items@.len(),
                                json_array(*m) == Some(items@),
                                strings_view(names@) == item_names(items@.take(i as int)),
                            decreases items.len() - i,
                        {
                            proof {
                                assert(items@.take(i + 1).drop_last() =~= items@.take(i as int));
                                assert(items@.take(i + 1).last() == items@[i as int]);
                            }
                            match json_member(&items[i], "name") {
                                Some(n) => match json_text(n) {
                                    Some(t) => {
                                        names.push(t);
                                        proof {
                                            assert(strings_view(names@) =~= item_names(items@.take(i as int)).push(t@));
                                        }
                                    },
                                    None => {},
                                },
                                None => {},
                            }
                            i += 1;
                        }
                        proof {
                            assert(items@.take(i as int) =~= items@);
                        }
                    },
                    None => {},
                },
                None => {},
            }
            Some(names)
        },
        None => None,
    }
}

/// The model name without its tag: the part before the first `:`.
pub open spec fn short_model(m: Seq<char>) -> Seq<char>
    decreases m.len(),
{
    if m.len() == 0 {
        m
    } else if m[0] == ':' {
        seq![]
    } else {
        seq![m[0]] + short_model(m.drop_first())
    }
}

/// The model name without its tag (`gemma3:4b` gives `gemma3`).
pub fn short_model_name(m: &str) -> (r: String)
    ensures
        r@ == short_model(m@),
{
    let cs = chars_of(m);
    let mut k: usize = 0;
    proof {
        assert(cs@.skip(0) =~= cs@);
        assert(cs@.take(0) + short_model(cs@) =~= short_model(cs@));
    }
    while k < cs.len() && cs[k] != ':'
        invariant
            k <= cs@.len(),
            cs@ == m@,
            short_model(m@) == cs@.take(k as int) + short_model(cs@.skip(k as int)),
        decreases cs@.len() - k,
    {
        proof {
            let rest = cs@.skip(k as int);
            assert(rest.drop_first() =~= cs@.skip(k + 1));
            assert(cs@.take(k + 1) =~= cs@.take(k as int) + seq![rest[0]]);
        }
        k += 1;
    }
    proof {
        if k == cs@.len() {
            assert(cs@.skip(k as int) =~= Seq::<char>::empty());
        }
        assert(cs@.take(k as int) + seq![] =~= cs@.take(k as int));
        assert(cs@.take(k as int) =~= cs@.subrange(0, k as int));
    }
    string_from_chars(&cs, 0, k)
}

/// The address the generation request goes to.
pub fn generate_url(host: &str) -> (r: String)
    ensures
        r@ == host@ + "/api/generate"@,
{
    let mut r = host.to_owned();
    push_str(&mut r, "/api/generate");
    r
}

/// The address the model list is asked from.
pub fn tags_url(host: &str) -> (r: String)
    ensures
        r@ == host@ + "/api/tags"@,
{
    let mut r = host.to_owned();
    push_str(&mut r, "/api/tags");
    r
}

/// What the user reads when the server cannot be reached during a request.
pub fn connection_failed_message(err: &str, model: &str) -> (r: String)
    ensures
        r@ == "Connection failed: "@ + err@
            + "\n\nMake sure Ollama is running:\n  1. Install: https://ollama.com\n  2. Run: ollama serve\n  3. Pull model: ollama pull "@
            + model@,
{
    let mut r = "Connection failed: ".to_owned();
    push_str(&mut r, err);
    push_str(
        &mut r,
        "\n\nMake sure Ollama is running:\n  1. Install: https://ollama.com\n  2. Run: ollama serve\n  3. Pull model: ollama pull ",
    );
    push_str(&mut r, model);
    r
}

impl Writer {
    /// The assistant state is the same apart from the result, the error and
    /// the loading flag.
    pub open spec fn same_ai_setup(&self, other: &Writer) -> bool {
        &&& self.ai_model == other.ai_model
        &&& self.ai_action == other.ai_action
        &&& self.ai_custom_prompt == other.ai_custom_prompt
        &&& self.ai_host == other.ai_host
        &&& self.ai_available_models == other.ai_available_models
    }

    /// Starts a request for the chosen action on the active text and gives
    /// the prompt to send. A blank text gives no prompt and the error
    /// `No text to process.`; otherwise the previous result and error are
    /// cleared and the assistant is loading.
    #[verifier::spinoff_prover]
    pub fn ai_run(&mut self) -> (prompt: Option<String>)
        requires
            old(self).wf(),
        ensures
            final(self).same_doc(old(self)),
            final(self).same_find(old(self)),
            final(self).same_view(old(self)),
            final(self).same_data(old(self)),
            final(self).same_ai_setup(old(self)),
            if all_ws(old(self).text_view()) {
                &&& prompt is None
                &&& final(self).ai_error@ == "No text to process."@
                &&& final(self).ai_result == old(self).ai_result
                &&& final(self).ai_loading == old(self).ai_loading
            } else {
                &&& prompt matches Some(p) && p@ == instruction(
                    old(self).ai_action,
                    old(self).ai_custom_prompt@,
                ) + prompt_separator() + old(self).text_view()
                &&& final(self).ai_error@.len() == 0
                &&& final(self).ai_result@.len() == 0
                &&& final(self).ai_loading
            },
    {
        let text = self.tabs[self.active].text.as_str();
        let blank = is_blank(text);
        let prompt = if blank {
            None
        } else {
            Some(self.ai_action.build_prompt(text, self.ai_custom_prompt.as_str()))
        };
        if blank {
            self.ai_error = "No text to process.".to_owned();
        } else {
            self.ai_start();
        }
        prompt
    }

    /// Clears the previous result and error and marks the assistant loading.
    #[verifier::spinoff_prover]
    fn ai_start(&mut self)
        ensures
            final(self).same_doc(old(self)),
            final(self).same_find(old(self)),
            final(self).same_view(old(self)),
            final(self).same_data(old(self)),
            final(self).same_ai_setup(old(self)),
            final(self).ai_error@.len() == 0,
            final(self).ai_result@.len() == 0,
            final(self).ai_loading,
    {
        self.ai_result = String::new();
        self.ai_error = String::new();
        self.ai_loading = true;
    }

    /// Takes in what the request has produced so far: the reply text, the
    /// error text, and whether it finished. While loading, a non-empty
    /// reply becomes the result and a non-empty error the error; once
    /// finished, loading stops and the reply becomes the result.
    #[verifier::spinoff_prover]
    pub fn ai_poll(&mut self, reply: &str, error: &str, done: bool)
        ensures
            final(self).same_doc(old(self)),
            final(self).same_find(old(self)),
            final(self).same_view(old(self)),
            final(self).same_data(old(self)),
            final(self).same_ai_setup(old(self)),
            !old(self).ai_loading ==> {
                &&& final(self).ai_result == old(self).ai_result
                &&& final(self).ai_error == old(self).ai_error
                &&& !final(self).ai_loading
            },
            old(self).ai_loading ==> {
                &&& final(self).ai_result@ == if done || reply@.len() > 0 {
                    reply@
                } else {
                    old(self).ai_result@
                }
                &&& final(self).ai_error@ == if error@.len() > 0 {
                    error@
                } else {
                    old(self).ai_error@
                }
                &&& final(self).ai_loading == !done
            },
    {
        if self.ai_loading {
            if !reply.is_empty() || done {
                self.ai_result = reply.to_owned();
            }
            if !error.is_empty() {
                self.ai_error = error.to_owned();
            }
            if done {
                self.ai_loading = false;
            }
        }
    }

    /// Takes in the model list the server gave: with no models, the error
    /// tells how to get one; otherwise the error is cleared.
    #[verifier::spinoff_prover]
    pub fn ai_set_models(&mut self, models: Vec<String>)
        ensures
            final(self).ai_available_models@ == models@,
            final(self).ai_error@ == if models@.len() == 0 {
                "No models found. Run: ollama pull gemma3"@
            } else {
                Seq::<char>::empty()
            },
            final(self).ai_model == old(self).ai_model,
            final(self).ai_action == old(self).ai_action,
            final(self).ai_custom_prompt == old(self).ai_custom_prompt,
            final(self).ai_host == old(self).ai_host,
            final(self).ai_result == old(self).ai_result,
            final(self).ai_loading == old(self).ai_loading,
            final(self).same_doc(old(self)),
            final(self).same_find(old(self)),
            final(self).same_view(old(self)),
            final(self).same_data(old(self)),
    {
        let none = models.len() == 0;
        self.ai_available_models = models;
        self.ai_error = if none {
            "No models found. Run: ollama pull gemma3".to_owned()
        } else {
            String::new()
        };
    }

    /// Records that the model list could not be fetched.
    #[verifier::spinoff_prover]
    pub fn ai_models_unreachable(&mut self, err: &str)
        ensures
            final(self).ai_available_models@.len() == 0,
            final(self).ai_error@ == "Cannot connect: "@ + err@,
            final(self).ai_model == old(self).ai_model,
            final(self).ai_action == old(self).ai_action,
            final(self).ai_custom_prompt == old(self).ai_custom_prompt,
            final(self).ai_host == old(self).ai_host,
            final(self).ai_result == old(self).ai_result,
            final(self).ai_loading == old(self).ai_loading,
            final(self).same_doc(old(self)),
            final(self).same_find(old(self)),
            final(self).same_view(old(self)),
            final(self).same_data(old(self)),
    {
        let mut e = "Cannot connect: ".to_owned();
        push_str(&mut e, err);
        self.ai_error = e;
        self.ai_available_models = Vec::new();
    }

    /// Chooses a model from the list, dropping its tag.
    #[verifier::spinoff_prover]
    pub fn ai_select_model(&mut self, m: &str)
        ensures
            final(self).ai_model@ == short_model(m@),
            final(self).ai_action == old(self).ai_action,
            final(self).ai_custom_prompt == old(self).ai_custom_prompt,
            final(self).ai_host == old(self).ai_host,
            final(self).ai_available_models == old(self).ai_available_models,
            final(self).ai_result == old(self).ai_result,
            final(self).ai_loading == old(self).ai_loading,
            final(self).ai_error == old(self).ai_error,
            final(self).same_doc(old(self)),
            final(self).same_find(old(self)),
            final(self).same_view(old(self)),
            final(self).same_data(old(self)),
    {
        self.ai_model = short_model_name(m);
    }

    /// Whether a request can start: none is running and a model is named.
    pub fn ai_can_run(&self) -> (r: bool)
        ensures
            r == (!self.ai_loading && self.ai_model@.len() > 0),
    {
        !self.ai_loading && !self.ai_model.as_str().is_empty()
    }

    /// Appends the result to the active text after a blank line, marking
    /// the tab modified; nothing happens when there is no result.
    #[verifier::spinoff_prover]
    pub fn ai_insert_result(&mut self)
        requires
            old(self).wf(),
        ensures
            final(self).wf(),
            if old(self).ai_result@.len() > 0 {
                tab_text_set(old(self).tabs@, final(self).tabs@, old(self).active as int,
                    old(self).text_view() + "\n\n"@ + old(self).ai_result@, true)
            } else {
                final(self).tabs == old(self).tabs
            },
            final(self).active == old(self).active,
            final(self).cursor_byte_pos == old(self).cursor_byte_pos,
            final(self).same_find(old(self)),
            final(self).same_view(old(self)),
            final(self).same_data(old(self)),
            final(self).same_ai(old(self)),
    {
        let text = if self.ai_result.as_str().is_empty() {
            None
        } else {
            let mut t = self.tabs[self.active].text.clone();
            push_str(&mut t, "\n\n");
            push_str(&mut t, self.ai_result.as_str());
            Some(t)
        };
        match text {
            Some(t) => self.set_active_text(t, true),
            None => {},
        }
    }

    /// Puts the result in place of the active text, marking the tab
    /// modified; nothing happens when there is no result.
    #[verifier::spinoff_prover]
    pub fn ai_replace_text(&mut self)
        requires
            old(self).wf(),
        ensures
            final(self).wf(),
            if old(self).ai_result@.len() > 0 {
                tab_text_set(old(self).tabs@, final(self).tabs@, old(self).active as int,
                    old(self).ai_result@, true)
            } else {
                final(self).tabs == old(self).tabs
            },
            final(self).active == old(self).active,
            final(self).cursor_byte_pos == old(self).cursor_byte_pos,
            final(self).same_find(old(self)),
            final(self).same_view(old(self)),
            final(self).same_data(old(self)),
            final(self).same_ai(old(self)),
    {
        let text = if self.ai_result.as_str().is_empty() {
            None
        } else {
            Some(self.ai_result.clone())
        };
        match text {
            Some(t) => self.set_active_text(t, true),
            None => {},
        }
    }

    /// Discards the result.
    #[verifier::spinoff_prover]
    pub fn ai_clear_result(&mut self)
        ensures
            final(self).ai_result@.len() == 0,
            final(self).ai_error == old(self).ai_error,
            final(self).ai_loading == old(self).ai_loading,
            final(self).same_ai_setup(old(self)),
            final(self).same_doc(old(self)),
            final(self).same_find(old(self)),
            final(self).same_view(old(self)),
            final(self).same_data(old(self)),
    {
        self.ai_result = String::new();
    }
}

} // verus!

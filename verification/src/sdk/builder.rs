//! The [`ChatBuilder`]: assembles an OpenAI-compatible payload without
//! hand-written JSON.

use vstd::prelude::*;

use serde_json::Value;

use crate::http::models::{Message, MessageView};
use crate::json::{
    fields_entries, fields_insert, fields_new, fields_of, json_natural, json_of, json_seq, json_text,
    natural_number, no_fields, value_of, Json, Node,
};
use crate::text::{decimal_text, text_of};

verus! {

/// Reasoning effort level for OpenAI-style reasoning models (o1/o3/gpt-5).
#[derive(Debug, Clone, Copy, PartialEq, Eq, Structural)]
pub enum ReasoningEffort {
    /// Low reasoning effort (fastest, cheapest).
    Low,
    /// Medium reasoning effort.
    Medium,
    /// High reasoning effort (deepest thinking).
    High,
}

impl ReasoningEffort {
    /// The name of the level on the wire.
    pub open spec fn name(self) -> Seq<char> {
        match self {
            ReasoningEffort::Low => "low"@,
            ReasoningEffort::Medium => "medium"@,
            ReasoningEffort::High => "high"@,
        }
    }

    /// The name of the level on the wire.
    pub fn as_str(self) -> (r: &'static str)
        ensures
            r@ == self.name(),
    {
        match self {
            ReasoningEffort::Low => "low",
            ReasoningEffort::Medium => "medium",
            ReasoningEffort::High => "high",
        }
    }
}

/// How model reasoning ("thinking") should be requested from the provider.
///
/// The builder translates each variant into the exact JSON the major
/// OpenAI-compatible providers expect:
///
/// | Variant | Injected JSON |
/// |---|---|
/// | `Effort(High)` | `"reasoning_effort": "high"` (OpenAI o1/o3) |
/// | `Enabled { budget_tokens: Some(1024) }` | `"thinking": {"thinking_budget": 1024}` (Gemini / DeepSeek) |
/// | `Enabled { budget_tokens: None }` | `"thinking": {}` |
/// | `Disabled` | `"reasoning_effort": null` (explicitly off) |
#[derive(Debug, Clone, Copy, PartialEq, Eq, Structural)]
pub enum ThinkingConfig {
    /// Explicitly disable reasoning on models that default to it.
    Disabled,
    /// Gemini/DeepSeek-style thinking block with an optional token budget.
    Enabled {
        /// Maximum tokens the model may spend thinking, if supported.
        budget_tokens: Option<u32>,
    },
    /// OpenAI-style `reasoning_effort` knob.
    Effort(ReasoningEffort),
}

/// Desired response format.
#[derive(Debug, PartialEq, Eq)]
pub enum ResponseFormat {
    /// Plain text (`{"type": "text"}`).
    Text,
    /// Any valid JSON object (`{"type": "json_object"}`).
    Json,
    /// Strict JSON conforming to a schema (`{"type": "json_schema", ...}`).
    JsonSchema {
        /// Schema name reported to the provider.
        name: String,
        /// The JSON schema document.
        schema: Value,
    },
}

/// What a [`ResponseFormat`] stands for.
pub enum FormatView {
    /// Plain text.
    Text,
    /// Any valid JSON object.
    Json,
    /// Strict JSON conforming to a schema.
    JsonSchema {
        /// Schema name reported to the provider.
        name: Seq<char>,
        /// The JSON schema document.
        schema: Json,
    },
}

impl View for ResponseFormat {
    type V = FormatView;

    open spec fn view(&self) -> FormatView {
        match *self {
            ResponseFormat::Text => FormatView::Text,
            ResponseFormat::Json => FormatView::Json,
            ResponseFormat::JsonSchema { name, schema } => FormatView::JsonSchema {
                name: name@,
                schema: json_of(schema),
            },
        }
    }
}

impl Clone for ResponseFormat {
    fn clone(&self) -> (r: ResponseFormat)
        ensures
            r@ == self@,
    {
        match self {
            ResponseFormat::Text => ResponseFormat::Text,
            ResponseFormat::Json => ResponseFormat::Json,
            ResponseFormat::JsonSchema { name, schema } => ResponseFormat::JsonSchema {
                name: name.clone(),
                schema: schema.clone(),
            },
        }
    }
}

/// Fluent request builder.
pub struct ChatBuilder {
    /// Model id.
    pub model: Option<String>,
    /// The conversation so far.
    pub messages: Vec<Message>,
    /// Sampling temperature, a JSON number.
    pub temperature: Option<Value>,
    /// Nucleus sampling cutoff, a JSON number.
    pub top_p: Option<Value>,
    /// Hard cap on generated tokens.
    pub max_tokens: Option<u32>,
    /// How reasoning is requested.
    pub thinking: Option<ThinkingConfig>,
    /// Desired response format.
    pub response_format: Option<ResponseFormat>,
    /// Further top-level fields.
    pub extra: serde_json::Map<String, Value>,
}

/// What a [`ChatBuilder`] stands for.
pub struct BuilderView {
    /// Model id.
    pub model: Option<Seq<char>>,
    /// The conversation so far.
    pub messages: Seq<MessageView>,
    /// Sampling temperature.
    pub temperature: Option<Json>,
    /// Nucleus sampling cutoff.
    pub top_p: Option<Json>,
    /// Hard cap on generated tokens.
    pub max_tokens: Option<u32>,
    /// How reasoning is requested.
    pub thinking: Option<ThinkingConfig>,
    /// Desired response format.
    pub response_format: Option<FormatView>,
    /// Further top-level fields.
    pub extra: Map<Seq<char>, Json>,
}

/// What messages stand for.
pub open spec fn message_views(messages: Seq<Message>) -> Seq<MessageView> {
    messages.map_values(|message: Message| message@)
}

impl View for ChatBuilder {
    type V = BuilderView;

    open spec fn view(&self) -> BuilderView {
        BuilderView {
            model: text_of(self.model),
            messages: message_views(self.messages@),
            temperature: crate::http::models::optional_json(self.temperature),
            top_p: crate::http::models::optional_json(self.top_p),
            max_tokens: self.max_tokens,
            thinking: self.thinking,
            response_format: match self.response_format {
                Some(format) => Some(format@),
                None => None,
            },
            extra: fields_of(self.extra),
        }
    }
}

/// A message on the wire.
pub open spec fn message_json(message: MessageView) -> Json {
    Json::Object(
        no_fields().insert("role"@, Json::Text(message.role)).insert(
            "content"@,
            Json::Text(message.content),
        ),
    )
}

/// Messages on the wire.
pub open spec fn messages_json(messages: Seq<MessageView>) -> Json {
    Json::Array(messages.map_values(|message: MessageView| message_json(message)))
}

/// Fields with one more, where there is a value for it.
pub open spec fn with_some(
    fields: Map<Seq<char>, Json>,
    name: Seq<char>,
    value: Option<Json>,
) -> Map<Seq<char>, Json> {
    match value {
        Some(json) => fields.insert(name, json),
        None => fields,
    }
}

/// Fields with the request for reasoning.
pub open spec fn with_thinking(
    fields: Map<Seq<char>, Json>,
    thinking: Option<ThinkingConfig>,
) -> Map<Seq<char>, Json> {
    match thinking {
        Some(ThinkingConfig::Effort(effort)) => fields.insert(
            "reasoning_effort"@,
            Json::Text(effort.name()),
        ),
        Some(ThinkingConfig::Enabled { budget_tokens }) => fields.insert(
            "thinking"@,
            Json::Object(
                match budget_tokens {
                    Some(budget) => no_fields().insert(
                        "thinking_budget"@,
                        Json::Number(natural_number(budget as u64)),
                    ),
                    None => no_fields(),
                },
            ),
        ),
        Some(ThinkingConfig::Disabled) => fields.insert("reasoning_effort"@, Json::Null),
        None => fields,
    }
}

/// A response format on the wire.
pub open spec fn format_json(format: FormatView) -> Json {
    match format {
        FormatView::Text => Json::Object(no_fields().insert("type"@, Json::Text("text"@))),
        FormatView::Json => Json::Object(no_fields().insert("type"@, Json::Text("json_object"@))),
        FormatView::JsonSchema { name, schema } => Json::Object(
            no_fields().insert("type"@, Json::Text("json_schema"@)).insert(
                "json_schema"@,
                Json::Object(
                    no_fields().insert("name"@, Json::Text(name)).insert(
                        "strict"@,
                        Json::Bool(true),
                    ).insert("schema"@, schema),
                ),
            ),
        ),
    }
}

impl BuilderView {
    /// The fields that the builder's own settings make.
    pub open spec fn own_fields(self) -> Map<Seq<char>, Json> {
        let model = with_some(
            no_fields(),
            "model"@,
            match self.model {
                Some(text) => Some(Json::Text(text)),
                None => None,
            },
        );
        let messages = model.insert("messages"@, messages_json(self.messages));
        let temperature = with_some(messages, "temperature"@, self.temperature);
        let top_p = with_some(temperature, "top_p"@, self.top_p);
        let max_tokens = with_some(
            top_p,
            "max_tokens"@,
            match self.max_tokens {
                Some(n) => Some(Json::Number(natural_number(n as u64))),
                None => None,
            },
        );
        let thinking = with_thinking(max_tokens, self.thinking);
        with_some(
            thinking,
            "response_format"@,
            match self.response_format {
                Some(format) => Some(format_json(format)),
                None => None,
            },
        )
    }

    /// The payload: the builder's own fields, and the extra ones on top.
    pub open spec fn payload(self) -> Map<Seq<char>, Json> {
        self.own_fields().union_prefer_right(self.extra)
    }
}

fn field(fields: &mut serde_json::Map<String, Value>, name: &str, value: Value)
    ensures
        fields_of(*final(fields)) == fields_of(*old(fields)).insert(name@, json_of(value)),
{
    fields_insert(fields, name.to_string(), value);
}

fn message_value(message: &Message) -> (r: Value)
    ensures
        json_of(r) == message_json(message@),
{
    let mut fields: serde_json::Map<String, Value> = fields_new();
    field(&mut fields, "role", json_text(message.role.as_str()));
    field(&mut fields, "content", json_text(message.content.as_str()));
    value_of(Node::Object(fields))
}

fn format_value(format: &ResponseFormat) -> (r: Value)
    ensures
        json_of(r) == format_json(format@),
{
    let mut fields: serde_json::Map<String, Value> = fields_new();
    match format {
        ResponseFormat::Text => {
            field(&mut fields, "type", json_text("text"));
        },
        ResponseFormat::Json => {
            field(&mut fields, "type", json_text("json_object"));
        },
        ResponseFormat::JsonSchema { name, schema } => {
            let mut inner: serde_json::Map<String, Value> = fields_new();
            field(&mut inner, "name", json_text(name.as_str()));
            field(&mut inner, "strict", value_of(Node::Bool(true)));
            field(&mut inner, "schema", schema.clone());
            field(&mut fields, "type", json_text("json_schema"));
            field(&mut fields, "json_schema", value_of(Node::Object(inner)));
        },
    }
    value_of(Node::Object(fields))
}

fn optional_clone(value: &Option<Value>) -> (r: Option<Value>)
    ensures
        crate::http::models::optional_json(r) == crate::http::models::optional_json(*value),
{
    match value {
        Some(v) => Some(v.clone()),
        None => None,
    }
}

impl Clone for ChatBuilder {
    fn clone(&self) -> (r: ChatBuilder)
        ensures
            r@ == self@,
    {
        let mut messages: Vec<Message> = Vec::new();
        let mut i: usize = 0;
        while i < self.messages.len()
            invariant
                i <= self.messages.len(),
                messages.len() == i,
                forall|k: int| 0 <= k < i ==> (#[trigger] messages[k])@ == self.messages[k]@,
            decreases self.messages.len() - i,
        {
            messages.push(self.messages[i].clone());
            i = i + 1;
        }
        let mut extra: serde_json::Map<String, Value> = fields_new();
        self.add_extra(&mut extra);
        let response_format: Option<ResponseFormat> = match &self.response_format {
            Some(format) => Some(format.clone()),
            None => None,
        };
        let model: Option<String> = match &self.model {
            Some(text) => Some(text.clone()),
            None => None,
        };
        let r: ChatBuilder = ChatBuilder {
            model,
            messages,
            temperature: optional_clone(&self.temperature),
            top_p: optional_clone(&self.top_p),
            max_tokens: self.max_tokens,
            thinking: self.thinking,
            response_format,
            extra,
        };
        assert(r@.messages =~= self@.messages);
        assert(r@.extra =~= self@.extra);
        r
    }
}

impl ChatBuilder {
    /// A builder without any setting.
    pub fn new() -> (r: ChatBuilder)
        ensures
            r@ == (BuilderView {
                model: None,
                messages: Seq::empty(),
                temperature: None,
                top_p: None,
                max_tokens: None,
                thinking: None,
                response_format: None,
                extra: no_fields(),
            }),
    {
        let r: ChatBuilder = ChatBuilder {
            model: None,
            messages: Vec::new(),
            temperature: None,
            top_p: None,
            max_tokens: None,
            thinking: None,
            response_format: None,
            extra: fields_new(),
        };
        assert(r@.messages =~= Seq::empty());
        r
    }

    /// Sets the model id, e.g. `"gemini-2.0-flash"` or `"gpt-4o-mini"`.
    #[must_use]
    pub fn model(self, model: &str) -> (r: ChatBuilder)
        ensures
            r@ == (BuilderView { model: Some(model@), ..self@ }),
    {
        ChatBuilder { model: Some(model.to_string()), ..self }
    }

    /// Appends a `system` message.
    #[must_use]
    pub fn system(self, content: &str) -> (r: ChatBuilder)
        ensures
            r@ == (BuilderView {
                messages: self@.messages.push(
                    MessageView { role: "system"@, content: content@ },
                ),
                ..self@
            }),
    {
        self.message("system", content)
    }

    /// Appends a `user` message.
    #[must_use]
    pub fn user(self, content: &str) -> (r: ChatBuilder)
        ensures
            r@ == (BuilderView {
                messages: self@.messages.push(MessageView { role: "user"@, content: content@ }),
                ..self@
            }),
    {
        self.message("user", content)
    }

    /// Appends an `assistant` message (for few-shot / history replay).
    #[must_use]
    pub fn assistant(self, content: &str) -> (r: ChatBuilder)
        ensures
            r@ == (BuilderView {
                messages: self@.messages.push(
                    MessageView { role: "assistant"@, content: content@ },
                ),
                ..self@
            }),
    {
        self.message("assistant", content)
    }

    /// Appends a message with an arbitrary role.
    #[must_use]
    pub fn message(self, role: &str, content: &str) -> (r: ChatBuilder)
        ensures
            r@ == (BuilderView {
                messages: self@.messages.push(MessageView { role: role@, content: content@ }),
                ..self@
            }),
    {
        let mut messages: Vec<Message> = self.messages;
        let ghost before = messages@;
        let message: Message = Message { role: role.to_string(), content: content.to_string() };
        messages.push(message);
        assert(message_views(messages@) =~= message_views(before).push(message@));
        ChatBuilder { messages, ..self }
    }

    /// Sampling temperature (0.0 = deterministic, ~2.0 = wild), a JSON number.
    #[must_use]
    pub fn temperature(self, temperature: Value) -> (r: ChatBuilder)
        ensures
            r@ == (BuilderView { temperature: Some(json_of(temperature)), ..self@ }),
    {
        ChatBuilder { temperature: Some(temperature), ..self }
    }

    /// Nucleus sampling cutoff, a JSON number.
    #[must_use]
    pub fn top_p(self, top_p: Value) -> (r: ChatBuilder)
        ensures
            r@ == (BuilderView { top_p: Some(json_of(top_p)), ..self@ }),
    {
        ChatBuilder { top_p: Some(top_p), ..self }
    }

    /// Hard cap on generated tokens.
    #[must_use]
    pub fn max_tokens(self, max_tokens: u32) -> (r: ChatBuilder)
        ensures
            r@ == (BuilderView { max_tokens: Some(max_tokens), ..self@ }),
    {
        ChatBuilder { max_tokens: Some(max_tokens), ..self }
    }

    /// Configures model reasoning. See [`ThinkingConfig`] for how each variant
    /// maps onto provider-specific JSON.
    #[must_use]
    pub fn thinking(self, config: ThinkingConfig) -> (r: ChatBuilder)
        ensures
            r@ == (BuilderView { thinking: Some(config), ..self@ }),
    {
        ChatBuilder { thinking: Some(config), ..self }
    }

    /// Sets an explicit [`ResponseFormat`].
    #[must_use]
    pub fn response_format(self, format: ResponseFormat) -> (r: ChatBuilder)
        ensures
            r@ == (BuilderView { response_format: Some(format@), ..self@ }),
    {
        ChatBuilder { response_format: Some(format), ..self }
    }

    /// Requests **structured output** conforming to a JSON schema, in strict
    /// mode: where the schema is an object that does not say so itself, no
    /// additional properties are allowed.
    #[must_use]
    pub fn response_format_schema(self, name: &str, schema: Value) -> (r: ChatBuilder)
        ensures
            r@ == (BuilderView {
                response_format: Some(
                    FormatView::JsonSchema {
                        name: name@,
                        schema: crate::json::with_default(
                            json_of(schema),
                            "additionalProperties"@,
                            Json::Bool(false),
                        ),
                    },
                ),
                ..self@
            }),
    {
        let schema: Value = crate::json::strict_schema(schema);
        self.response_format(ResponseFormat::JsonSchema { name: name.to_string(), schema })
    }

    /// Escape hatch: injects an arbitrary top-level field into the payload
    /// (e.g. provider-specific extensions like `"safety_settings"`).
    #[must_use]
    pub fn extra(self, key: &str, value: Value) -> (r: ChatBuilder)
        ensures
            r@ == (BuilderView { extra: self@.extra.insert(key@, json_of(value)), ..self@ }),
    {
        let mut extra: serde_json::Map<String, Value> = self.extra;
        field(&mut extra, key, value);
        ChatBuilder { extra, ..self }
    }

    /// Assembles the final OpenAI-compatible JSON payload.
    pub fn into_json(&self) -> (r: Value)
        ensures
            json_of(r) == Json::Object(self@.payload()),
    {
        let mut payload: serde_json::Map<String, Value> = fields_new();
        if let Some(model) = &self.model {
            field(&mut payload, "model", json_text(model.as_str()));
        }
        field(&mut payload, "messages", self.messages_value());
        if let Some(t) = &self.temperature {
            field(&mut payload, "temperature", t.clone());
        }
        if let Some(p) = &self.top_p {
            field(&mut payload, "top_p", p.clone());
        }
        if let Some(m) = self.max_tokens {
            field(&mut payload, "max_tokens", json_natural(m as u64));
        }
        match self.thinking {
            Some(ThinkingConfig::Effort(effort)) => {
                field(&mut payload, "reasoning_effort", json_text(effort.as_str()));
            },
            Some(ThinkingConfig::Enabled { budget_tokens }) => {
                let mut thinking: serde_json::Map<String, Value> = fields_new();
                if let Some(budget) = budget_tokens {
                    field(&mut thinking, "thinking_budget", json_natural(budget as u64));
                }
                field(&mut payload, "thinking", value_of(Node::Object(thinking)));
            },
            Some(ThinkingConfig::Disabled) => {
                field(&mut payload, "reasoning_effort", value_of(Node::Null));
            },
            None => {},
        }
        if let Some(format) = &self.response_format {
            field(&mut payload, "response_format", format_value(format));
        }
        assert(fields_of(payload) == self@.own_fields());
        self.add_extra(&mut payload);
        value_of(Node::Object(payload))
    }

    fn messages_value(&self) -> (r: Value)
        ensures
            json_of(r) == messages_json(self@.messages),
    {
        let ghost views = self@.messages;
        let mut items: Vec<Value> = Vec::new();
        let mut i: usize = 0;
        while i < self.messages.len()
            invariant
                i <= self.messages.len(),
                views == message_views(self.messages@),
                items.len() == i,
                forall|k: int| 0 <= k < i ==> json_of(#[trigger] items[k]) == message_json(views[k]),
            decreases self.messages.len() - i,
        {
            items.push(message_value(&self.messages[i]));
            i = i + 1;
        }
        assert(json_seq(items@) =~= views.map_values(
            |message: MessageView| message_json(message),
        ));
        value_of(Node::Array(items))
    }

    fn add_extra(&self, payload: &mut serde_json::Map<String, Value>)
        ensures
            fields_of(*final(payload)) == fields_of(*old(payload)).union_prefer_right(
                fields_of(self.extra),
            ),
    {
        let ghost start = fields_of(*payload);
        let ghost extra = fields_of(self.extra);
        let entries: Vec<(String, Value)> = fields_entries(&self.extra);
        let mut i: usize = 0;
        while i < entries.len()
            invariant
                i <= entries.len(),
                forall|k: int|
                    0 <= k < entries.len() ==> extra.contains_key((#[trigger] entries[k]).0@)
                        && json_of(entries[k].1) == extra[entries[k].0@],
                extra == fields_of(self.extra),
                fields_of(*payload).remove_keys(extra.dom()) == start.remove_keys(extra.dom()),
                forall|k: int|
                    0 <= k < i ==> fields_of(*payload).contains_key((#[trigger] entries[k]).0@)
                        && fields_of(*payload)[entries[k].0@] == extra[entries[k].0@],
            decreases entries.len() - i,
        {
            let ghost before = fields_of(*payload);
            field(payload, entries[i].0.as_str(), entries[i].1.clone());
            proof {
                assert(extra.contains_key(entries[i as int].0@));
                assert(fields_of(*payload).remove_keys(extra.dom()) =~= before.remove_keys(
                    extra.dom(),
                ));
            }
            i = i + 1;
        }
        proof {
            let result = fields_of(*payload);
            let wanted = start.union_prefer_right(extra);
            assert forall|name: Seq<char>| #[trigger]
                result.contains_key(name) == wanted.contains_key(name) by {
                if extra.contains_key(name) {
                    let k = choose|k: int|
                        0 <= k < entries.len() && (#[trigger] entries[k]).0@ == name;
                    assert(result.contains_key(entries[k].0@));
                } else {
                    assert(result.remove_keys(extra.dom()).contains_key(name)
                        == start.remove_keys(extra.dom()).contains_key(name));
                }
            }
            assert forall|name: Seq<char>| #[trigger] result.contains_key(name) implies result[name]
                == wanted[name] by {
                if extra.contains_key(name) {
                    let k = choose|k: int|
                        0 <= k < entries.len() && (#[trigger] entries[k]).0@ == name;
                    assert(result.contains_key(entries[k].0@));
                } else {
                    assert(result.remove_keys(extra.dom())[name] == start.remove_keys(
                        extra.dom(),
                    )[name]);
                }
            }
            assert(result =~= wanted);
        }
    }
}

/// Extra fields win over the builder's own, and leave the others alone.
pub proof fn law_extra_fields_win(builder: BuilderView, name: Seq<char>)
    ensures
        builder.extra.contains_key(name) ==> builder.payload().contains_key(name)
            && builder.payload()[name] == builder.extra[name],
        !builder.extra.contains_key(name) ==> {
            &&& builder.payload().contains_key(name) == builder.own_fields().contains_key(name)
            &&& builder.own_fields().contains_key(name) ==> builder.payload()[name]
                == builder.own_fields()[name]
        },
{
}

/// Every payload carries the conversation, and the model where one was chosen.
pub proof fn law_conversation_is_sent(builder: BuilderView)
    ensures
        builder.own_fields().contains_key("messages"@),
        builder.own_fields()["messages"@] == messages_json(builder.messages),
        builder.model matches Some(model) ==> builder.own_fields().contains_key("model"@)
            && builder.own_fields()["model"@] == Json::Text(model),
{
    reveal_strlit("model");
    reveal_strlit("messages");
    reveal_strlit("temperature");
    reveal_strlit("top_p");
    reveal_strlit("max_tokens");
    reveal_strlit("thinking");
    reveal_strlit("reasoning_effort");
    reveal_strlit("response_format");
    assert("model"@.len() == 5 && "top_p"@.len() == 5 && "top_p"@[0] != "model"@[0]);
    assert("messages"@.len() == 8 && "thinking"@.len() == 8 && "thinking"@[0] != "messages"@[0]);
    assert("temperature"@.len() == 11);
    assert("max_tokens"@.len() == 10);
    assert("reasoning_effort"@.len() == 16);
    assert("response_format"@.len() == 15);
}

/// The names of a payload's fields are all different.
proof fn lemma_names_differ()
    ensures
        "model"@ != "messages"@,
        "model"@ != "temperature"@,
        "model"@ != "top_p"@,
        "model"@ != "max_tokens"@,
        "model"@ != "thinking"@,
        "model"@ != "reasoning_effort"@,
        "model"@ != "response_format"@,
        "messages"@ != "temperature"@,
        "messages"@ != "top_p"@,
        "messages"@ != "max_tokens"@,
        "messages"@ != "thinking"@,
        "messages"@ != "reasoning_effort"@,
        "messages"@ != "response_format"@,
        "temperature"@ != "top_p"@,
        "temperature"@ != "max_tokens"@,
        "temperature"@ != "thinking"@,
        "temperature"@ != "reasoning_effort"@,
        "temperature"@ != "response_format"@,
        "top_p"@ != "max_tokens"@,
        "top_p"@ != "thinking"@,
        "top_p"@ != "reasoning_effort"@,
        "top_p"@ != "response_format"@,
        "max_tokens"@ != "thinking"@,
        "max_tokens"@ != "reasoning_effort"@,
        "max_tokens"@ != "response_format"@,
        "thinking"@ != "reasoning_effort"@,
        "thinking"@ != "response_format"@,
        "reasoning_effort"@ != "response_format"@,
        "role"@ != "content"@,
        "type"@ != "json_schema"@,
        "name"@ != "strict"@,
        "name"@ != "schema"@,
        "strict"@ != "schema"@,
{
    reveal_strlit("model");
    reveal_strlit("messages");
    reveal_strlit("temperature");
    reveal_strlit("top_p");
    reveal_strlit("max_tokens");
    reveal_strlit("thinking");
    reveal_strlit("reasoning_effort");
    reveal_strlit("response_format");
    reveal_strlit("role");
    reveal_strlit("content");
    reveal_strlit("type");
    reveal_strlit("json_schema");
    reveal_strlit("name");
    reveal_strlit("strict");
    reveal_strlit("schema");
    assert("model"@.len() == 5 && "top_p"@.len() == 5 && "top_p"@[0] != "model"@[0]);
    assert("messages"@.len() == 8 && "thinking"@.len() == 8 && "thinking"@[0] != "messages"@[0]);
    assert("temperature"@.len() == 11);
    assert("max_tokens"@.len() == 10);
    assert("reasoning_effort"@.len() == 16);
    assert("response_format"@.len() == 15);
    assert("role"@.len() == 4 && "content"@.len() == 7);
    assert("type"@.len() == 4 && "json_schema"@.len() == 11);
    assert("name"@.len() == 4 && "strict"@.len() == 6 && "schema"@.len() == 6);
    assert("strict"@[1] != "schema"@[1]);
}

/// The conversation is sent as it is: unless an extra field takes its place, the
/// payload's messages are as many as the conversation's and come in the same
/// order, and each is an object of its role and its content, unchanged, and of
/// nothing else.
pub proof fn law_messages_are_sent_unchanged(builder: BuilderView)
    requires
        !builder.extra.contains_key("messages"@),
    ensures
        builder.payload().contains_key("messages"@),
        builder.payload()["messages"@] matches Json::Array(items) && items.len()
            == builder.messages.len() && forall|i: int|
            #![trigger items[i]]
            #![trigger builder.messages[i]]
            0 <= i < items.len() ==> {
                &&& items[i] matches Json::Object(fields) && fields.contains_key("role"@)
                    && fields["role"@] == Json::Text(builder.messages[i].role)
                    && fields.contains_key("content"@) && fields["content"@] == Json::Text(
                    builder.messages[i].content,
                ) && forall|name: Seq<char>| #[trigger]
                    fields.contains_key(name) ==> name == "role"@ || name == "content"@
            },
{
    lemma_names_differ();
}

/// Each setting is sent under its own name, as it was given, and one that was not
/// given is not sent; nothing else is, but for extra fields.
pub proof fn law_settings_are_sent(builder: BuilderView, name: Seq<char>)
    requires
        !builder.extra.contains_key(name),
    ensures
        ({
            let sent = builder.payload();
            &&& name == "model"@ ==> {
                &&& sent.contains_key(name) <==> builder.model is Some
                &&& sent.contains_key(name) ==> sent[name] == Json::Text(builder.model->0)
            }
            &&& name == "temperature"@ ==> {
                &&& sent.contains_key(name) <==> builder.temperature is Some
                &&& sent.contains_key(name) ==> sent[name] == builder.temperature->0
            }
            &&& name == "top_p"@ ==> {
                &&& sent.contains_key(name) <==> builder.top_p is Some
                &&& sent.contains_key(name) ==> sent[name] == builder.top_p->0
            }
            &&& name == "max_tokens"@ ==> {
                &&& sent.contains_key(name) <==> builder.max_tokens is Some
                &&& sent.contains_key(name) ==> sent[name] is Number && sent[name]->Number_0.natural
                    == Some(builder.max_tokens->0 as u64) && sent[name]->Number_0.text
                    == decimal_text(builder.max_tokens->0 as nat)
            }
            &&& sent.contains_key(name) ==> name == "model"@ || name == "messages"@ || name
                == "temperature"@ || name == "top_p"@ || name == "max_tokens"@ || name
                == "thinking"@ || name == "reasoning_effort"@ || name == "response_format"@
        }),
{
    lemma_names_differ();
}

/// Reasoning is asked for in the one way that was chosen: by effort under
/// `reasoning_effort`, which is null where reasoning is off, or by a block under
/// `thinking` that holds the budget, where there is one, and nothing else.
pub proof fn law_reasoning_is_asked_for(builder: BuilderView)
    requires
        !builder.extra.contains_key("thinking"@),
        !builder.extra.contains_key("reasoning_effort"@),
    ensures
        ({
            let sent = builder.payload();
            &&& sent.contains_key("thinking"@) <==> (builder.thinking is Some
                && builder.thinking->0 is Enabled)
            &&& sent.contains_key("reasoning_effort"@) <==> (builder.thinking is Some && !(
            builder.thinking->0 is Enabled))
            &&& builder.thinking == Some(ThinkingConfig::Disabled) ==> sent["reasoning_effort"@]
                == Json::Null
            &&& builder.thinking == Some(ThinkingConfig::Effort(ReasoningEffort::Low))
                ==> sent["reasoning_effort"@] == Json::Text("low"@)
            &&& builder.thinking == Some(ThinkingConfig::Effort(ReasoningEffort::Medium))
                ==> sent["reasoning_effort"@] == Json::Text("medium"@)
            &&& builder.thinking == Some(ThinkingConfig::Effort(ReasoningEffort::High))
                ==> sent["reasoning_effort"@] == Json::Text("high"@)
            &&& builder.thinking matches Some(ThinkingConfig::Enabled { budget_tokens }) ==> {
                &&& sent["thinking"@] is Object
                &&& forall|name: Seq<char>| #[trigger]
                    sent["thinking"@]->Object_0.contains_key(name) <==> name == "thinking_budget"@
                        && budget_tokens is Some
                &&& budget_tokens is Some ==> sent["thinking"@]->Object_0["thinking_budget"@]
                    is Number
                    && sent["thinking"@]->Object_0["thinking_budget"@]->Number_0.natural == Some(
                    budget_tokens->0 as u64,
                )
            }
        }),
{
    lemma_names_differ();
}

/// The response format is sent where one was chosen: its type by name, and with
/// a schema its name and the schema as they were given, to be followed strictly.
pub proof fn law_response_format_is_sent(builder: BuilderView)
    requires
        !builder.extra.contains_key("response_format"@),
    ensures
        ({
            let sent = builder.payload();
            &&& sent.contains_key("response_format"@) <==> builder.response_format is Some
            &&& builder.response_format is Some ==> {
                &&& sent["response_format"@] is Object
                &&& sent["response_format"@]->Object_0.contains_key("type"@)
            }
            &&& builder.response_format == Some(FormatView::Text) ==> {
                let fields = sent["response_format"@]->Object_0;
                &&& fields["type"@] == Json::Text("text"@)
                &&& forall|name: Seq<char>| #[trigger]
                    fields.contains_key(name) ==> name == "type"@
            }
            &&& builder.response_format == Some(FormatView::Json) ==> {
                let fields = sent["response_format"@]->Object_0;
                &&& fields["type"@] == Json::Text("json_object"@)
                &&& forall|name: Seq<char>| #[trigger]
                    fields.contains_key(name) ==> name == "type"@
            }
            &&& builder.response_format matches Some(FormatView::JsonSchema { name, schema }) ==> {
                let fields = sent["response_format"@]->Object_0;
                &&& fields["type"@] == Json::Text("json_schema"@)
                &&& fields.contains_key("json_schema"@)
                &&& forall|other: Seq<char>| #[trigger]
                    fields.contains_key(other) ==> other == "type"@ || other == "json_schema"@
                &&& fields["json_schema"@] matches Json::Object(inner) && inner.contains_key(
                    "name"@,
                ) && inner["name"@] == Json::Text(name) && inner.contains_key("strict"@)
                    && inner["strict"@] == Json::Bool(true) && inner.contains_key("schema"@)
                    && inner["schema"@] == schema && forall|other: Seq<char>| #[trigger]
                    inner.contains_key(other) ==> other == "name"@ || other == "strict"@ || other
                        == "schema"@
            }
        }),
{
    lemma_names_differ();
}

/// A builder says what its fields hold.
pub proof fn law_builder_view(builder: ChatBuilder, i: int)
    ensures
        builder@.model == text_of(builder.model),
        builder@.messages.len() == builder.messages@.len(),
        0 <= i < builder.messages@.len() ==> builder@.messages[i].role == builder.messages@[i].role@
            && builder@.messages[i].content == builder.messages@[i].content@,
        builder.temperature is Some ==> builder@.temperature == Some(
            json_of(builder.temperature->0),
        ),
        builder.temperature is None ==> builder@.temperature is None,
        builder.top_p is Some ==> builder@.top_p == Some(json_of(builder.top_p->0)),
        builder.top_p is None ==> builder@.top_p is None,
        builder@.max_tokens == builder.max_tokens,
        builder@.thinking == builder.thinking,
        builder@.extra == fields_of(builder.extra),
        builder.response_format is None <==> builder@.response_format is None,
        builder.response_format matches Some(ResponseFormat::JsonSchema { name, schema }) ==> (
        builder@.response_format matches Some(FormatView::JsonSchema { name: n, schema: s }) && n
            == name@ && s == json_of(schema)),
        builder.response_format == Some(ResponseFormat::Text) ==> builder@.response_format == Some(
            FormatView::Text,
        ),
        builder.response_format == Some(ResponseFormat::Json) ==> builder@.response_format == Some(
            FormatView::Json,
        ),
{
}

} // verus!

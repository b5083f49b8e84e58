use ai_pool::http::models::{ChatResponse, Choice, Message};
use ai_pool::json::{content_text, streaming, strict_schema};
use ai_pool::sdk::reply::{first_text, strip_code_fences, unstructured_reply};
use ai_pool::{AiError, ChatBuilder, ReasoningEffort, ResponseFormat, ThinkingConfig};
use serde_json::Value;

fn json(text: &str) -> Value {
    serde_json::from_str(text).unwrap()
}

fn builder() -> ChatBuilder {
    ChatBuilder::new()
}

fn reply(contents: &[&str]) -> ChatResponse {
    ChatResponse {
        id: "c1".to_string(),
        model: "m".to_string(),
        choices: contents
            .iter()
            .map(|content| Choice {
                index: 0,
                message: Message {
                    role: "assistant".to_string(),
                    content: content.to_string(),
                },
                finish_reason: None,
            })
            .collect(),
        usage: None,
    }
}

#[test]
fn strip_fences() {
    assert_eq!(strip_code_fences("{\"a\":1}"), "{\"a\":1}");
    assert_eq!(strip_code_fences("```json\n{\"a\":1}\n```"), "{\"a\":1}");
    assert_eq!(strip_code_fences("```\n{\"a\":1}\n```"), "{\"a\":1}");
}

#[test]
fn fences_may_be_incomplete() {
    assert_eq!(strip_code_fences("  plain \n"), "plain");
    // No closing fence.
    assert_eq!(strip_code_fences("```json\n{}"), "{}");
    // No line end after the opening fence: there is no tag to drop.
    assert_eq!(strip_code_fences("```{}```"), "{}");
    assert_eq!(strip_code_fences("```"), "");
    // White space around the fences and inside them goes.
    assert_eq!(strip_code_fences("\n```json\n\n [1] \n\n```\n"), "[1]");
}

#[test]
fn payload_maps_reasoning_effort() {
    let payload = builder()
        .model("o3-mini")
        .user("hi")
        .thinking(ThinkingConfig::Effort(ReasoningEffort::High))
        .into_json();
    assert_eq!(payload["reasoning_effort"], "high");
    assert!(payload.get("thinking").is_none());
}

#[test]
fn payload_maps_thinking_budget() {
    let payload = builder()
        .model("gemini-2.0-flash-thinking")
        .user("hi")
        .thinking(ThinkingConfig::Enabled {
            budget_tokens: Some(1024),
        })
        .into_json();
    assert_eq!(payload["thinking"]["thinking_budget"], 1024);
    assert!(payload["thinking"].is_object());
}

#[test]
fn payload_maps_thinking_disabled_as_null() {
    let payload = builder()
        .model("o3-mini")
        .user("hi")
        .thinking(ThinkingConfig::Disabled)
        .into_json();
    assert!(payload["reasoning_effort"].is_null());
    // The key must be PRESENT (explicit null), not absent.
    assert!(payload.as_object().unwrap().contains_key("reasoning_effort"));
}

#[test]
fn payload_carries_messages_sampling_and_extras() {
    let payload = builder()
        .model("gpt-4o-mini")
        .system("be terse")
        .user("hello")
        .assistant("hi!")
        .temperature(Value::from(0.2))
        .top_p(Value::from(0.9))
        .max_tokens(256)
        .extra("seed", Value::from(42))
        .into_json();

    assert_eq!(payload["model"], "gpt-4o-mini");
    let msgs = payload["messages"].as_array().unwrap();
    assert_eq!(msgs.len(), 3);
    assert_eq!(msgs[0]["role"], "system");
    assert_eq!(msgs[1]["role"], "user");
    assert_eq!(msgs[2]["role"], "assistant");
    assert!((payload["temperature"].as_f64().unwrap() - 0.2).abs() < f64::EPSILON);
    assert!((payload["top_p"].as_f64().unwrap() - 0.9).abs() < f64::EPSILON);
    assert_eq!(payload["max_tokens"], 256);
    assert_eq!(payload["seed"], 42);
}

#[test]
fn payload_injects_json_schema() {
    let schema = json(
        r#"{"type":"object","properties":{"sentiment":{"type":"string"},"confidence":{"type":"number"}}}"#,
    );
    let payload = builder()
        .model("gpt-4o-mini")
        .user("analyze")
        .response_format_schema("sentiment_schema", schema)
        .into_json();

    let rf = &payload["response_format"];
    assert_eq!(rf["type"], "json_schema");
    assert_eq!(rf["json_schema"]["name"], "sentiment_schema");
    assert_eq!(rf["json_schema"]["strict"], true);
    let schema = &rf["json_schema"]["schema"];
    assert_eq!(schema["additionalProperties"], false);
    let props = schema["properties"].as_object().unwrap();
    assert!(props.contains_key("sentiment"));
    assert!(props.contains_key("confidence"));
}

#[test]
fn response_format_text_and_json_variants() {
    let payload = builder()
        .model("m")
        .user("hi")
        .response_format(ResponseFormat::Text)
        .into_json();
    assert_eq!(payload["response_format"]["type"], "text");

    let payload = builder()
        .model("m")
        .user("hi")
        .response_format(ResponseFormat::Json)
        .into_json();
    assert_eq!(payload["response_format"]["type"], "json_object");
}

#[test]
fn an_empty_builder_sends_an_empty_conversation() {
    assert_eq!(builder().into_json(), json(r#"{"messages":[]}"#));
}

#[test]
fn whole_payloads_are_as_expected() {
    let payload = builder()
        .model("m")
        .message("tool", "ok")
        .max_tokens(7)
        .thinking(ThinkingConfig::Enabled {
            budget_tokens: None,
        })
        .response_format(ResponseFormat::JsonSchema {
            name: "n".to_string(),
            schema: json(r#"{"type":"object"}"#),
        })
        .into_json();
    assert_eq!(
        payload,
        json(
            r#"{"model":"m","messages":[{"role":"tool","content":"ok"}],"max_tokens":7,
                "thinking":{},
                "response_format":{"type":"json_schema",
                    "json_schema":{"name":"n","strict":true,"schema":{"type":"object"}}}}"#
        )
    );
}

#[test]
fn extra_fields_win_over_the_builders_own() {
    let payload = builder()
        .model("m")
        .extra("model", Value::from("other"))
        .extra("x", Value::from(1))
        .extra("x", Value::from(2))
        .into_json();
    assert_eq!(payload, json(r#"{"model":"other","messages":[],"x":2}"#));
}

#[test]
fn efforts_have_lower_case_names() {
    assert_eq!(ReasoningEffort::Low.as_str(), "low");
    assert_eq!(ReasoningEffort::Medium.as_str(), "medium");
    assert_eq!(ReasoningEffort::High.as_str(), "high");
}

#[test]
fn strict_schemas_keep_what_they_say() {
    assert_eq!(
        strict_schema(json(r#"{"additionalProperties":true}"#)),
        json(r#"{"additionalProperties":true}"#)
    );
    assert_eq!(
        strict_schema(json(r#"{"type":"object"}"#)),
        json(r#"{"type":"object","additionalProperties":false}"#)
    );
    assert_eq!(strict_schema(json("true")), json("true"));
}

#[test]
fn streaming_is_forced_into_objects_only() {
    assert_eq!(
        streaming(json(r#"{"model":"m","stream":false}"#)),
        json(r#"{"model":"m","stream":true}"#)
    );
    assert_eq!(streaming(json("[1]")), json("[1]"));
}

#[test]
fn content_comes_in_two_wire_forms() {
    assert_eq!(content_text(json(r#""hello""#)).as_deref(), Some("hello"));
    assert_eq!(
        content_text(json(r#"[{"type":"text","text":"hello"}]"#)).as_deref(),
        Some("hello")
    );
    assert_eq!(
        content_text(json(
            r#"[{"type":"text","text":"a"},{"type":"image_url","image_url":{"url":"u"}},
                {"type":"text","text":"b"},{"type":"text"},7]"#
        ))
        .as_deref(),
        Some("ab")
    );
    assert_eq!(content_text(json("[]")).as_deref(), Some(""));
    for other in ["null", "3", "true", r#"{"type":"text","text":"x"}"#] {
        assert!(content_text(json(other)).is_none(), "{other}");
    }
}

#[test]
fn first_choice_is_the_text() {
    assert_eq!(first_text(reply(&["one", "two"])).unwrap(), "one");
    match first_text(reply(&[])) {
        Err(AiError::InvalidResponse(why)) => assert_eq!(why, "response contained no choices"),
        _ => panic!("no choice, no text"),
    }
}

#[test]
fn unreadable_replies_show_their_content() {
    let e = unstructured_reply("expected value", &"x".repeat(301));
    assert_eq!(
        e.message(),
        format!(
            "invalid response body: failed to parse structured output: expected value; content: {}…",
            "x".repeat(300)
        )
    );
}

#[test]
fn formats_copy_and_compare() {
    let format = ResponseFormat::JsonSchema {
        name: "n".to_string(),
        schema: json(r#"{"a":[1,2]}"#),
    };
    assert!(format == format.clone());
    assert!(ResponseFormat::Text.clone() != ResponseFormat::Json);
}

use serde_json::Value;
use shimmy::openai_compat::{FunctionSpec, ToolSpec};
use shimmy::tool_calling::{
    block_of, candidates, object_text, parse_one, parse_tool_calls, read_call, render_tools_block,
    tool_signature, tools_disabled, BLOCK_HEAD, BLOCK_TAIL,
};

fn value(text: &str) -> Value {
    serde_json::from_str(text).unwrap()
}

fn tools() -> Vec<ToolSpec> {
    vec![ToolSpec {
        tool_type: "function".into(),
        function: FunctionSpec {
            name: "get_weather".into(),
            description: Some("Current weather for a city".into()),
            parameters: Some(value(
                r#"{
                    "type": "object",
                    "properties": {"city": {"type": "string"}},
                    "required": ["city"]
                }"#,
            )),
        },
    }]
}

#[test]
fn the_block_carries_the_signature_the_model_needs() {
    let block = render_tools_block(&tools());
    assert!(block.contains("<tools>") && block.contains("</tools>"));
    assert!(block.contains("get_weather"));
    assert!(block.contains("Current weather for a city"));
    // The schema must survive intact or the model invents argument names.
    assert!(block.contains("\"city\""));
    assert!(block.contains("<tool_call>"));
}

#[test]
fn a_properly_wrapped_call_parses() {
    let out = r#"<tool_call>
{"name": "get_weather", "arguments": {"city": "Berlin"}}
</tool_call>"#;
    let calls = parse_tool_calls(out, &tools());
    assert_eq!(calls.len(), 1);
    assert_eq!(calls[0].function.name, "get_weather");
    assert_eq!(calls[0].function.arguments, r#"{"city":"Berlin"}"#);
    assert_eq!(calls[0].call_type, "function");
}

/// The model emits the JSON and forgets the tags.
#[test]
fn a_call_missing_its_wrapper_still_parses() {
    let out = r#"{"name": "get_weather", "arguments": {"city": "Cairo"}}"#;
    let calls = parse_tool_calls(out, &tools());
    assert_eq!(calls.len(), 1);
    assert_eq!(calls[0].function.arguments, r#"{"city":"Cairo"}"#);
}

#[test]
fn fenced_and_stringified_and_misnamed_variants_all_parse() {
    let cases = [
        "```json\n{\"name\": \"get_weather\", \"arguments\": {\"city\": \"Oslo\"}}\n```",
        r#"{"name": "get_weather", "arguments": "{\"city\": \"Oslo\"}"}"#,
        r#"{"name": "get_weather", "parameters": {"city": "Oslo"}}"#,
    ];
    for c in cases {
        let calls = parse_tool_calls(c, &tools());
        assert_eq!(calls.len(), 1, "failed on: {c}");
        assert_eq!(calls[0].function.arguments, r#"{"city":"Oslo"}"#);
    }
}

#[test]
fn several_calls_in_one_reply_are_all_returned() {
    let out = r#"<tool_call>{"name":"get_weather","arguments":{"city":"A"}}</tool_call>
<tool_call>{"name":"get_weather","arguments":{"city":"B"}}</tool_call>"#;
    let calls = parse_tool_calls(out, &tools());
    assert_eq!(calls.len(), 2);
    assert_ne!(calls[0].id, calls[1].id, "ids must distinguish the calls");
}

/// Each of these would be handed to a caller that runs it, so each has to be refused.
#[test]
fn nothing_undeclared_or_malformed_is_returned() {
    for bad in [
        r#"{"name": "rm_rf", "arguments": {"path": "/"}}"#,     // never declared
        r#"{"name": "get_weather", "arguments": "not json"}"#,   // unparseable
        r#"{"name": "get_weather", "arguments": ["Berlin"]}"#,   // not an object
        "The get_weather tool takes a city.",                    // prose about a tool
        "",
    ] {
        assert!(parse_tool_calls(bad, &tools()).is_empty(), "must refuse: {bad}");
    }
}

/// A zero-argument tool is a real thing, and `{}` is the right arguments for it.
#[test]
fn a_call_with_no_arguments_is_valid() {
    let calls = parse_tool_calls(r#"{"name": "get_weather"}"#, &tools());
    assert_eq!(calls.len(), 1);
    assert_eq!(calls[0].function.arguments, "{}");
}

#[test]
fn ordinary_prose_costs_nothing_and_returns_nothing() {
    assert!(parse_tool_calls("The weather in Berlin is mild today.", &tools()).is_empty());
}

#[test]
fn tool_choice_none_suppresses_the_block() {
    assert!(tools_disabled(Some(&Value::from("none"))));
    assert!(!tools_disabled(Some(&Value::from("auto"))));
    assert!(!tools_disabled(None));
}

#[test]
fn tool_choice_of_another_kind_suppresses_nothing() {
    for choice in ["null", "true", "0", "[\"none\"]", "{\"none\":\"none\"}", "\"None\"", "\"\""] {
        assert!(!tools_disabled(Some(&value(choice))), "{choice}");
    }
}

#[test]
fn block_text_is_exact() {
    let signature = "{\"function\":{\"description\":\"Current weather for a city\",\
                     \"name\":\"get_weather\",\"parameters\":{\"properties\":{\"city\":{\"type\":\
                     \"string\"}},\"required\":[\"city\"],\"type\":\"object\"}},\
                     \"type\":\"function\"}";
    assert_eq!(tool_signature(&tools()[0]).to_string(), signature);
    assert_eq!(
        render_tools_block(&tools()),
        format!(
            "\n\n# Tools\n\nYou may call one or more functions to assist with the user query.\n\n\
             You are provided with function signatures within <tools></tools> XML tags:\n<tools>\n\
             {signature}\n</tools>\n\nFor each function call, return a json object with function \
             name and arguments within <tool_call></tool_call> XML tags:\n<tool_call>\n\
             {{\"name\": <function-name>, \"arguments\": <args-json-object>}}\n</tool_call>"
        )
    );
}

#[test]
fn absent_parts_of_a_signature() {
    let bare = ToolSpec {
        tool_type: "custom".into(),
        function: FunctionSpec { name: "f\"".into(), description: None, parameters: None },
    };
    let text = r#"{"function":{"description":"","name":"f\"","parameters":{}},"type":"custom"}"#;
    assert_eq!(tool_signature(&bare).to_string(), text);
    assert_eq!(
        render_tools_block(&[bare.clone(), bare]),
        format!("{BLOCK_HEAD}{text}\n{text}\n{BLOCK_TAIL}")
    );
    assert_eq!(render_tools_block(&[]), format!("{BLOCK_HEAD}{BLOCK_TAIL}"));
    assert_eq!(
        block_of(&vec!["a".to_string(), "b".to_string()]),
        format!("{BLOCK_HEAD}a\nb\n{BLOCK_TAIL}")
    );
}

#[test]
fn candidates_by_form() {
    let cases: [(&str, &[&str]); 14] = [
        ("<tool_call>a</tool_call>", &["a"]),
        ("x <tool_call> \n\u{a0}a b\u{3000}</tool_call> y", &["a b"]),
        ("<tool_call>a</tool_call>mid<tool_call>b</tool_call>", &["a", "b"]),
        ("<tool_call>never closed ", &["never closed"]),
        ("<tool_call>a<tool_call>b</tool_call>", &["a<tool_call>b"]),
        ("<tool_call></tool_call>", &[""]),
        ("<tool_call>", &[""]),
        ("{\"bare\"} <tool_call>x</tool_call>", &["x"]),
        ("</tool_call>{1}", &["{1}"]),
        ("say {a} and {b}.", &["{a} and {b}"]),
        ("} then {", &[]),
        ("```json\n{x}\n```", &["{x}"]),
        ("```\n{x ``` y}\n```", &["{x   y}"]),
        ("h\u{e9}llo {\u{1f600}} w\u{f6}rld", &["{\u{1f600}}"]),
    ];
    for (output, expected) in cases {
        assert_eq!(candidates(output), expected, "{output}");
    }
    assert!(candidates("no braces").is_empty());
}

#[test]
fn forms_of_a_call_agree() {
    let object = r#"{"name": "get_weather", "arguments": {"city": "Rome"}}"#;
    for (a, b) in [("", ""), ("\n", "\n"), ("  ", "\t")] {
        assert_eq!(candidates(&format!("<tool_call>{a}{object}{b}</tool_call>")), [object]);
        assert_eq!(candidates(&format!("{a}{object}{b}")), [object]);
        assert_eq!(candidates(&format!("```json{a}{object}{b}```")), [object]);
    }
}

#[test]
fn ids_count_the_candidates() {
    let call = r#"<tool_call>{"name":"get_weather"}</tool_call>"#;
    let other = "<tool_call>nothing</tool_call>";
    let output = format!("{call}{other}{}", call.repeat(10));
    let ids: Vec<String> =
        parse_tool_calls(&output, &tools()).into_iter().map(|c| c.id).collect();
    assert_eq!(
        ids,
        [
            "call_0", "call_2", "call_3", "call_4", "call_5", "call_6", "call_7", "call_8",
            "call_9", "call_10", "call_11"
        ]
    );
}

#[test]
fn arguments_by_kind() {
    let declared = ["f"];
    let cases = [
        (r#"{"name":"f","arguments":{"b":1,"a":[2,null]}}"#, Some(r#"{"a":[2,null],"b":1}"#)),
        (r#"{"name":"f","arguments":"{\"a\": 1}"}"#, Some(r#"{"a":1}"#)),
        (r#"{"name":"f","arguments":"[1]"}"#, None),
        (r#"{"name":"f","arguments":"\"{}\""}"#, None),
        (r#"{"name":"f","arguments":null}"#, None),
        (r#"{"name":"f","arguments":null,"parameters":{}}"#, None),
        (r#"{"name":"f","arguments":{"x":1},"parameters":{"y":2}}"#, Some(r#"{"x":1}"#)),
        (r#"{"name":"f","parameters":"{}"}"#, Some("{}")),
        (r#"{"name":"f"}"#, Some("{}")),
        (r#"{"name":7}"#, None),
        (r#"{"arguments":{}}"#, None),
        (r#"["f"]"#, None),
        ("\"f\"", None),
        ("", None),
    ];
    for (candidate, expected) in cases {
        let read = parse_one(candidate, &declared);
        let expected = expected.map(|arguments| ("f".to_string(), arguments.to_string()));
        assert_eq!(read, expected, "{candidate}");
        if let Ok(parsed) = serde_json::from_str::<Value>(candidate) {
            assert_eq!(read_call(&parsed, &declared), expected, "{candidate}");
        }
    }
    assert_eq!(parse_one(r#"{"name":"f"}"#, &[]), None);
    assert_eq!(parse_one(r#"{"name":"g"}"#, &["f", "g"]).unwrap().0, "g");
}

#[test]
fn object_texts() {
    assert_eq!(object_text(&value("{ }")).as_deref(), Some("{}"));
    assert_eq!(object_text(&value(r#"{ "a" : 1.5 }"#)).as_deref(), Some(r#"{"a":1.5}"#));
    for other in ["null", "true", "1", "\"{}\"", "[]"] {
        assert_eq!(object_text(&value(other)), None);
    }
}

/// Arguments that are nested `levels` deep.
fn nested(levels: usize) -> String {
    format!("{}1{}", "{\"a\":".repeat(levels), "}".repeat(levels))
}

/// The texts of a call whose arguments stand under either key, as they are or as text.
fn written(name: &str, arguments: &Value) -> [String; 4] {
    let entry = |key: &str, value: Value| {
        Value::from_iter([("name".to_string(), Value::from(name)), (key.to_string(), value)])
            .to_string()
    };
    let text = Value::String(arguments.to_string());
    [
        entry("arguments", arguments.clone()),
        entry("arguments", text.clone()),
        entry("parameters", arguments.clone()),
        entry("parameters", text),
    ]
}

/// The wrong key changes nothing in the text of any object, also where its numbers are no
/// integers and its arguments no object.
#[test]
fn either_key_is_read_alike() {
    let arguments = [
        r#"{"at":0.1,"big":1.7976931348623157e308,"n":[1,-2.5e-7]}"#,
        r#""{\"at\": 2.50}""#,
        r#""no object""#,
        "1.5",
        "null",
        "[]",
    ];
    for arguments in arguments {
        let texts: Vec<String> = ["arguments", "parameters"]
            .iter()
            .map(|key| {
                value(&format!(r#"{{"name":"f","{key}":{arguments},"x":0.25,"y":{{}}}}"#)).to_string()
            })
            .collect();
        for declared in [&["f"][..], &["g"], &[]] {
            assert_eq!(parse_one(&texts[0], declared), parse_one(&texts[1], declared), "{arguments}");
        }
    }
    let (_, read) = parse_one(r#"{"name":"f","parameters":{"at":0.1}}"#, &["f"]).unwrap();
    assert_eq!(read, r#"{"at":0.1}"#);
}

#[test]
fn written_calls_are_read_back() {
    let some = [
        "{}".to_string(),
        r#"{"city":"Oslo","days":[1,-1,0,18446744073709551615,-9223372036854775808]}"#.to_string(),
        r#"{"":null,"\"":"\n\t\u0001/\\","b":{"c":[true,[],{}]}}"#.to_string(),
        nested(126),
    ];
    for text in some {
        let arguments = value(&text);
        for call in written("f", &arguments) {
            assert_eq!(parse_one(&call, &["f"]), Some(("f".to_string(), arguments.to_string())));
            assert_eq!(parse_one(&call, &["g"]), None);
        }
    }
}

#[test]
fn calls_that_are_nested_too_deep() {
    let declared = ["f"];
    // The call itself is a level, unless its arguments are text.
    let inner = |levels| format!("{{\"name\":\"f\",\"arguments\":{}}}", nested(levels));
    let text = |levels| written("f", &Value::String(nested(levels)))[0].clone();
    assert_eq!(parse_one(&inner(126), &declared).unwrap().1, nested(126));
    assert_eq!(parse_one(&inner(127), &declared), None);
    assert_eq!(parse_one(&text(127), &declared).unwrap().1, nested(127));
    assert_eq!(parse_one(&text(128), &declared), None);
}

#[test]
fn further_members_change_nothing() {
    let arguments = r#"{"city":"Oslo"}"#;
    let calls = [
        r#"{"id":7,"name":"f","arguments":{"city":"Oslo"},"parameters":3}"#,
        r#"{"id":7,"name":"f","parameters":{"city":"Oslo"},"type":"function"}"#,
        r#"{"id":7,"name":"f","arguments":"{\"city\": \"Oslo\"}","parameters":{}}"#,
        r#"{"id":7,"name":"f","parameters":"{\"city\": \"Oslo\"}","type":null}"#,
    ];
    for call in calls {
        assert_eq!(parse_one(call, &["f"]), Some(("f".to_string(), arguments.to_string())));
    }
}

#[test]
fn arguments_parse_as_an_object() {
    let out = r#"<tool_call>{"name":"get_weather","arguments":{"city":"A","at":1.5e300}}</tool_call>
        <tool_call>{"name":"get_weather","arguments":{ }}</tool_call>
        <tool_call>{"name":"get_weather","parameters":"{ }"}</tool_call>"#;
    let calls = parse_tool_calls(out, &tools());
    assert_eq!(calls.len(), 3);
    for call in &calls {
        assert_eq!(call.call_type, "function");
        assert!(value(&call.function.arguments).is_object());
    }
    assert_eq!(calls[1].function.arguments, "{}");
    assert_eq!(calls[2].function.arguments, "{}");
    assert!(calls[0].id != calls[1].id && calls[1].id != calls[2].id && calls[0].id != calls[2].id);
    assert!(parse_tool_calls(out, &[]).is_empty());
}

#[test]
fn a_signature_takes_one_line() {
    let mut all = tools();
    all.push(ToolSpec {
        tool_type: "function\r".into(),
        function: FunctionSpec {
            name: "two\nlines".into(),
            description: Some("first\r\nsecond\n".into()),
            parameters: Some(value(r#"{"a\n":"b\r\n"}"#)),
        },
    });
    let block = render_tools_block(&all);
    let body = &block[BLOCK_HEAD.len()..block.len() - BLOCK_TAIL.len()];
    let lines: Vec<&str> = body.lines().collect();
    assert_eq!(lines.len(), 2);
    for (line, tool) in lines.iter().zip(&all) {
        assert_eq!(value(line), tool_signature(tool));
    }
    assert_eq!(render_tools_block(&[]), format!("{BLOCK_HEAD}{BLOCK_TAIL}"));
}

use agent_block_core::bridge::llm::{
    extract_code, extract_json, fenced_block_tagged, pick_code, strip_fences, strip_think_blocks,
};
use agent_block_core::bridge::repair::can_be_repaired;

#[test]
fn takes_the_lang_tagged_block() {
    assert_eq!(extract_code("```lua\nprint('x')\n```", Some("lua")), "print('x')");
}

#[test]
fn falls_back_to_any_fence_when_the_lang_fence_is_absent() {
    assert_eq!(extract_code("```python\nx = 1\n```", Some("lua")), "x = 1");
}

#[test]
fn returns_the_text_when_there_is_no_fence() {
    assert_eq!(extract_code("no fences here", Some("lua")), "no fences here");
}

#[test]
fn prefers_the_lang_tagged_block_over_an_earlier_one() {
    let text = "```text\nhere is the fix\n```\n```lua\nprint('x')\n```";
    assert_eq!(extract_code(text, Some("lua")), "print('x')");
}

#[test]
fn keeps_a_truncated_block_instead_of_the_whole_response() {
    assert_eq!(extract_code("here:\n```lua\nprint('x')", Some("lua")), "print('x')");
}

#[test]
fn ignores_a_fence_written_inside_a_think_block() {
    let text = "<think>maybe ```lua\nwrong()\n``` ?</think>\n```lua\nright()\n```";
    assert_eq!(extract_code(text, Some("lua")), "right()");
}

#[test]
fn multi_line_bodies_survive_verbatim() {
    assert_eq!(
        extract_code("```lua\nlocal a = 1\nreturn a\n```", Some("lua")),
        "local a = 1\nreturn a"
    );
}

#[test]
fn a_thought_is_left_out() {
    assert_eq!(strip_think_blocks("<think>hm</think>yes").trim(), "yes");
}

#[test]
fn a_fence_is_taken_off() {
    assert_eq!(strip_fences("```json\n{\"a\":1}\n```").trim(), "{\"a\":1}");
}

#[test]
fn the_first_fence_is_the_one_that_counts() {
    assert_eq!(strip_fences("  no fence "), "  no fence ");
    assert_eq!(strip_fences("a\n  ```x\n  b \n ```\nrest\n```\nc\n```"), "b");
    assert_eq!(strip_fences("x\n```json\n{1}\n"), "{1}");
    assert_eq!(strip_fences("```only"), "```only");
    assert_eq!(strip_fences("```\n```"), "");
    assert_eq!(strip_fences("a ```b\nc\n```"), "a ```b\nc\n```");
    assert_eq!(strip_fences(" \u{a0}```\n x\n\ty\n\u{3000}"), "x\n\ty");
    assert_eq!(strip_fences("```\n  ```\na\n```"), "```\na");
}

#[test]
fn json_is_found_in_prose() {
    let found = extract_json("Here you are: {\"a\": 1} and no more").expect("an object");
    assert_eq!(found, "{\"a\":1}");
    assert!(extract_json(&"x".repeat(1024 * 1024 + 1)).is_err());
}

#[test]
fn every_thought_is_left_out() {
    assert_eq!(strip_think_blocks("a<think>x</think>b<think>y</think> c"), "ab c");
    assert_eq!(strip_think_blocks("a <think>never closed"), "a ");
    assert_eq!(strip_think_blocks("</think>a"), "</think>a");
    assert_eq!(strip_think_blocks("a<think><think>x</think>y</think>"), "ay</think>");
}

#[test]
fn flawed_json_is_repaired() {
    for (text, value) in [
        ("{a: 1,}", "{\"a\":1}"),
        ("```json\n{'a': 'b', \"c\": [1, 2,]}\n```", "{\"a\":\"b\",\"c\":[1,2]}"),
        ("Well... let me see. {\"path\": \"/tmp\", \"n\": 1,}", "{\"n\":1,\"path\":\"/tmp\"}"),
        ("<think>{x: ...</think>[1, 2, ..., 3]", "[1,2,3]"),
        ("{\"a\": 1,} and so on...", "{\"a\":1}"),
    ] {
        assert_eq!(extract_json(text).as_deref(), Ok(value), "{text}");
    }
}

#[test]
fn json_as_it_should_be_needs_no_repair() {
    let deep = format!("{}1{}", "[".repeat(100), "]".repeat(100));
    assert_eq!(extract_json(&deep).as_deref(), Ok(deep.as_str()));
    let wide = format!("[{}{{}}]", "{},".repeat(1000));
    assert_eq!(extract_json(&wide).as_deref(), Ok(wide.as_str()));
    assert_eq!(extract_json(" \"so ...\" ").as_deref(), Ok("\"so ...\""));
}

#[test]
fn what_the_repair_may_not_come_back_from_is_not_handed_to_it() {
    let deep = "[".repeat(100000);
    for text in [
        "{a:...",
        "{\"a\": ... ",
        "{\"a\": ... // and so on",
        "f({a: ...)",
        deep.as_str(),
        "[}]",
        "{a: \"\\é\"",
        "{a: \"\\u00é\"",
        "{a: \"\\ud83d\\ude00é\"",
        "{\"a\": \"b\"? c}",
        "I said \"hi\"!",
    ] {
        assert_eq!(
            extract_json(text).err().as_deref(),
            Some("the text is not JSON and is not handed to the repair"),
            "{text}"
        );
    }
}

#[test]
fn each_hazard_is_told_from_what_looks_like_it() {
    for text in [
        "so on...",
        "{a: ... }",
        "{a: 1...}",
        "[...",
        "\"/tmp\" is the path",
        "{\"color\": \"#fff\", \"b\": \"<b>\"}",
        "{\"a\": [1, {\"b\": \"]\"}]}",
        "caf\\u00e9é",
        "\\ud83d\\ude00 and so on: é",
        "\\n é",
    ] {
        assert!(can_be_repaired(text), "{text}");
    }
    for text in [
        "{a: ...",
        "{a: ... )",
        "{a: ....",
        "\"a\" // it's\n ?",
        "\"a\" + .",
        "[1}]",
        "\\é",
        "\\u004é",
        "\\ud83d\\ude00é",
    ] {
        assert!(!can_be_repaired(text), "{text}");
    }
    let nested = "[".repeat(256);
    assert!(can_be_repaired(&nested));
    assert!(extract_json(&nested).is_err());
    assert!(!can_be_repaired(&"[".repeat(257)));
}

#[test]
fn it_is_nesting_that_counts_and_not_how_many_brackets_there_are() {
    let flat = format!("[{}", "{},".repeat(300));
    let whole = format!("[{}{{}}]", "{},".repeat(299));
    assert_eq!(extract_json(&flat).as_deref(), Ok(whole.as_str()));

    let record = "{\"id\": 7, \"tags\": [\"a b\", 'c'], in: {x: null}},\n";
    let fixed = "{\"id\":7,\"tags\":[\"a b\",\"c\"],\"in\":{\"x\":null}}";
    let list = format!("[{}", record.repeat(400));
    let mended = format!("[{}{fixed}]", format!("{fixed},").repeat(399));
    let found = extract_json(&list).expect("a long list");
    assert_eq!(found.len(), mended.len());
    assert!(found.starts_with("[{\"id\":7,"));
}

#[test]
fn brackets_that_a_string_or_a_comment_hides_do_not_close() {
    // A quoted value ends at its comma, and what stands behind it is a comment:
    // neither bracket is closed on this line.
    let line = "{\"a\": [\"see, #1\"]},\n";
    assert!(can_be_repaired(&format!("[{}", line.repeat(100))));
    assert!(!can_be_repaired(&format!("[{}", line.repeat(200))));
    // A quoted key hides a brace.
    let key = "{'}': ";
    assert!(can_be_repaired(&key.repeat(200)));
    assert!(!can_be_repaired(&key.repeat(300)));
    // A quoted value does not hide what stands behind its comma.
    assert!(!can_be_repaired(&format!("[\"a, {}", "[".repeat(300))));
    assert!(can_be_repaired(&format!("[\"a {}\"", "[".repeat(300))));
}

#[test]
fn prose_and_thoughts_around_the_json_are_passed_over() {
    for text in [
        "<think>He said \"hi\". </think>{\"a\": 1,}",
        "<think>Is it \"b\"? Never mind...</think>\n{\"a\": 1,}\n",
        "He said \"hi\". So: {\"a\": 1,}",
        "He said \"hi\". So: {\"a\": 1,} And \"bye\"!",
        "{\"a\": 1,} He said \"hi\".",
        "{'a': 1,}\nAnd that is \"all\".",
        "<think>He said \"hi\". </think>{a: 1",
    ] {
        assert_eq!(extract_json(text).as_deref(), Ok("{\"a\":1}"), "{text}");
    }
}

#[test]
fn a_tagged_block_is_only_found_under_its_tag() {
    assert_eq!(fenced_block_tagged("```lua\nx\n```", "lua").as_deref(), Some("x"));
    assert_eq!(fenced_block_tagged("```text\nx\n```", "lua"), None);
    assert_eq!(fenced_block_tagged("x", "lua"), None);
    assert_eq!(fenced_block_tagged("```LUA\nx()\n```", "lua"), None);
}

#[test]
fn the_tagged_block_is_picked_before_what_the_fence_held() {
    assert_eq!(pick_code("```lua\na\n```", Some("lua"), "b"), "a");
    assert_eq!(pick_code("plain", Some("lua"), "b"), "b");
    assert_eq!(pick_code("```lua\na\n```", None, "b"), "b");
}

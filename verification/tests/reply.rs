use handy::json::{member_number, member_text, JsonMember};
use handy::reply::{
    clean_reply, strip_invisible_chars, strip_reasoning_blocks, structured_reply,
    structured_reply_from,
};

fn member(name: &str, text: Option<&str>, number: Option<u64>) -> JsonMember {
    JsonMember { name: name.to_string(), text: text.map(str::to_string), number }
}

#[test]
fn reasoning_blocks_are_stripped_from_llm_output() {
    assert_eq!(
        strip_reasoning_blocks("<think>hmm, let me clean this</think>Hello there."),
        "Hello there."
    );
    assert_eq!(
        strip_reasoning_blocks("<thinking>plan</thinking>Result <think>more</think>text"),
        "Result text"
    );
    // Unterminated reasoning: drop the tail rather than leaking it.
    assert_eq!(
        strip_reasoning_blocks("Cleaned text.<think>and then I should"),
        "Cleaned text."
    );
    assert_eq!(strip_reasoning_blocks("No tags at all."), "No tags at all.");
}

#[test]
fn reasoning_tags_close_with_their_own_kind() {
    assert_eq!(strip_reasoning_blocks("a<think>b</thinking>c</think>d"), "ad");
    assert_eq!(strip_reasoning_blocks("a<thinking>b</think>c"), "a");
    assert_eq!(strip_reasoning_blocks("</think>kept"), "</think>kept");
    assert_eq!(strip_reasoning_blocks("<think></think>"), "");
    assert_eq!(strip_reasoning_blocks("  padded\n"), "padded");
    assert_eq!(strip_reasoning_blocks(""), "");
}

#[test]
fn cutting_a_block_may_join_a_new_tag() {
    assert_eq!(strip_reasoning_blocks("<th<think>x</think>ink>"), "<think>");
}

#[test]
fn invisible_characters_are_stripped() {
    assert_eq!(strip_invisible_chars("a\u{200B}b\u{200C}c\u{200D}d\u{FEFF}e"), "abcde");
    assert_eq!(strip_invisible_chars("plain \u{200E}text"), "plain \u{200E}text");
}

#[test]
fn replies_are_cleaned_of_both() {
    assert_eq!(clean_reply("<think>x</think> a\u{200B}b "), "ab");
    // The text is trimmed before the invisible characters go.
    assert_eq!(clean_reply("\u{FEFF} a"), " a");
}

#[test]
fn structured_replies_are_read_from_their_field() {
    assert_eq!(structured_reply("{\"transcription\": \"Hello\\n wor\u{200B}ld\"}"), "Hello\n world");
    assert_eq!(
        structured_reply("{\"x\": 1, \"transcription\": \"<think>t</think> Hi \"}"),
        "Hi"
    );
    assert_eq!(structured_reply("{\"transcription\": \"a\", \"transcription\": \"b\"}"), "b");
}

#[test]
fn structured_replies_without_the_field_are_taken_raw() {
    assert_eq!(structured_reply(" {\"text\": \"Hello\"} "), "{\"text\": \"Hello\"}");
    assert_eq!(structured_reply("{\"transcription\": 5}"), "{\"transcription\": 5}");
    assert_eq!(structured_reply("[\"transcription\"]"), "[\"transcription\"]");
}

#[test]
fn replies_that_are_not_json_are_taken_raw() {
    assert_eq!(structured_reply("<think>hm</think>Just text."), "Just text.");
    assert_eq!(structured_reply(""), "");
    assert_eq!(structured_reply("{\"transcription\": \"cut"), "{\"transcription\": \"cut");
}

#[test]
fn parsed_replies_decide_by_their_members() {
    let doc = Some(vec![member("other", Some("no"), None), member("transcription", Some(" yes "), None)]);
    assert_eq!(structured_reply_from("raw", &doc), "yes");
    assert_eq!(structured_reply_from("raw", &Some(Vec::new())), "raw");
    assert_eq!(structured_reply_from(" raw ", &None), "raw");
}

#[test]
fn members_are_found_by_name() {
    let members = vec![member("a", Some("x"), None), member("b", None, Some(7))];
    assert_eq!(member_text(&members, "a"), Some("x".to_string()));
    assert_eq!(member_text(&members, "b"), None);
    assert_eq!(member_text(&members, "c"), None);
    assert_eq!(member_number(&members, "b"), Some(7));
    assert_eq!(member_number(&members, "a"), None);
    assert_eq!(member_number(&members, "c"), None);
}

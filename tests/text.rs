use lingua_fast::json::parse_json;
use lingua_fast::model::{build_prompt, extract_json_bytes, prompt_for, PROMPT_BODY, PROMPT_TAIL, SYSTEM_INSTRUCTION};
use lingua_fast::text::{decimal_text, is_space, normalize_term, trim_slash_delimiters, trim_white_space};

#[test]
fn is_space_agrees_with_std_on_every_char() {
    for c in (0u32..=0x10FFFF).filter_map(char::from_u32) {
        assert_eq!(is_space(c), c.is_whitespace(), "char {:?}", c);
    }
}

#[test]
fn trims_white_space_and_slashes() {
    assert_eq!(trim_white_space("\u{3000} a b \n"), "a b");
    assert_eq!(trim_white_space("   "), "");
    assert_eq!(trim_slash_delimiters("//x/y//"), "x/y");
    assert_eq!(trim_slash_delimiters("///"), "");
}

#[test]
fn normalize_term_trims_then_lowercases() {
    assert_eq!(normalize_term("  ÄBC Def "), "äbc def");
    assert_eq!(normalize_term(""), "");
}

#[test]
fn decimal_text_writes_numbers() {
    assert_eq!(decimal_text(0), "0");
    assert_eq!(decimal_text(7), "7");
    assert_eq!(decimal_text(10), "10");
    assert_eq!(decimal_text(4096), "4096");
}

#[test]
fn extracts_first_balanced_object() {
    assert_eq!(extract_json_bytes("noise {\"a\": {\"b\": 1}} tail {\"c\": 2}").unwrap(), b"{\"a\": {\"b\": 1}}".to_vec());
    assert_eq!(extract_json_bytes("x {y} z").unwrap(), b"{y}".to_vec());
    assert_eq!(extract_json_bytes("} x {y} z").unwrap(), b"{y}".to_vec());
    assert_eq!(extract_json_bytes("} {x}").unwrap(), b"{x}".to_vec());
    assert_eq!(extract_json_bytes("}} {a}} {b}").unwrap(), b"{a}".to_vec());
    assert_eq!(extract_json_bytes("{ \"é\": \"ü\" }").unwrap(), "{ \"é\": \"ü\" }".as_bytes().to_vec());
    assert_eq!(extract_json_bytes("{ never closed"), None);
    assert_eq!(extract_json_bytes("no braces"), None);
}

#[test]
fn prompt_wraps_the_word() {
    let p = prompt_for("communicated");
    assert_eq!(p.system, SYSTEM_INSTRUCTION);
    assert_eq!(p.user_word, "communicated");
    let text = build_prompt(&p);
    assert!(text.starts_with(SYSTEM_INSTRUCTION));
    assert!(text.ends_with("Word: communicated\nRespond with the JSON object only."));
    assert_eq!(text.len(), SYSTEM_INSTRUCTION.len() + PROMPT_BODY.len() + "communicated".len() + PROMPT_TAIL.len());
    assert!(text.contains("## OUTPUT CONTRACT"));
}

#[test]
fn parse_json_accepts_documents_only() {
    assert!(parse_json(b" {\"a\": [1, 2.5, null, true]} ").is_ok());
    assert!(parse_json(b"{\"a\": 1} trailing").is_err());
    assert!(parse_json(b"").is_err());
    let deep = "[".repeat(200) + &"]".repeat(200);
    assert!(parse_json(deep.as_bytes()).is_err());
    let limit = "[".repeat(127) + &"]".repeat(127);
    assert!(parse_json(limit.as_bytes()).is_ok());
    let over = "[".repeat(128) + &"]".repeat(128);
    assert!(parse_json(over.as_bytes()).is_err());
}

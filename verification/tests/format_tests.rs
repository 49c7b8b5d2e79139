use chat_bridge::format::{compose_vec, format_content, role_text, Formatter};
use chat_bridge::markup::format_to_game;
use chat_bridge::numbers::{color_hex, usize_to_string};

fn fmt(key: &str, value: &str) -> Formatter {
    Formatter { key: key.to_string(), value: value.to_string() }
}

fn strings(xs: &[&str]) -> Vec<String> {
    xs.iter().map(|s| s.to_string()).collect()
}

#[test]
fn formatter_replaces_every_occurrence() {
    let f = fmt("user", "Bob");
    assert_eq!(f.format("$user and $user".to_string()), "Bob and Bob");
}

#[test]
fn formatter_leaves_other_keys_alone() {
    let f = fmt("user", "Bob");
    assert_eq!(f.format("$role $user".to_string()), "$role Bob");
}

#[test]
fn render_chains_later_formatters_over_earlier_output() {
    let fs = vec![fmt("user", "Bob"), fmt("message", "Hi $user")];
    assert_eq!(
        format_content("<$user> $message".to_string(), &fs),
        "<Bob> Hi Bob"
    );
}

#[test]
fn render_order_matters_for_chaining() {
    // An earlier formatter rewrites text a later value introduced; the
    // other order leaves that text alone.
    let fs = vec![fmt("user", "Bob"), fmt("message", "Hi $user")];
    assert_eq!(format_content("$message".to_string(), &fs), "Hi Bob");
    let fs2 = vec![fmt("message", "Hi $user"), fmt("user", "Bob")];
    assert_eq!(
        format_content("<$user> $message".to_string(), &fs2),
        "<Bob> Hi $user"
    );
}

#[test]
fn render_duplicate_keys_last_one_wins() {
    let fs = vec![fmt("k", "first"), fmt("k", "second")];
    assert_eq!(format_content("$k".to_string(), &fs), "second");
}

#[test]
fn render_value_shaped_like_key_is_substituted_again() {
    // No escaping exists: a value holding `$`-shaped text is rewritten in
    // the same pass.
    let fs = vec![fmt("b", "x"), fmt("a", "$b")];
    assert_eq!(format_content("$a".to_string(), &fs), "x");
}

#[test]
fn compose_vec_concatenates_in_order() {
    let v = compose_vec(vec![vec![1, 2], vec![], vec![3]]);
    assert_eq!(v, vec![1, 2, 3]);
}

#[test]
fn role_text_picks_first_role_in_caller_order() {
    let roles = strings(&["mod", "admin"]);
    let list = strings(&["admin:[A]", "mod:[M]"]);
    assert_eq!(role_text(&roles, &list), "[M]");
}

#[test]
fn role_text_falls_back_to_default() {
    let roles = strings(&["guest"]);
    let list = strings(&["admin:[A]", "default:[?]"]);
    assert_eq!(role_text(&roles, &list), "[?]");
}

#[test]
fn role_text_empty_without_match_or_default() {
    let roles = strings(&["guest"]);
    let list = strings(&["admin:[A]"]);
    assert_eq!(role_text(&roles, &list), "");
}

#[test]
fn role_text_skips_malformed_entries() {
    let roles = strings(&["mod"]);
    let list = strings(&["mod", "mod:[M]"]);
    assert_eq!(role_text(&roles, &list), "[M]");
}

#[test]
fn role_text_splits_entry_at_first_colon() {
    let roles = strings(&["mod"]);
    let list = strings(&["mod:[M]:x"]);
    assert_eq!(role_text(&roles, &list), "[M]:x");
}

#[test]
fn markup_bold_and_italic() {
    assert_eq!(
        format_to_game("**hi** and _there_".to_string()),
        "<b>hi</> and <i>there</>"
    );
}

#[test]
fn markup_code_span() {
    assert_eq!(format_to_game("run `ls` now".to_string()), "run <code>ls</> now");
}

#[test]
fn markup_underline() {
    assert_eq!(format_to_game("__deep__".to_string()), "<u>deep</>");
}

#[test]
fn markup_star_italic() {
    assert_eq!(format_to_game("*lean*".to_string()), "<i>lean</>");
}

#[test]
fn markup_emoji_reference() {
    assert_eq!(
        format_to_game("<:br_smile:12345>".to_string()),
        "<emoji>smile</>"
    );
}

#[test]
fn markup_user_mention() {
    assert_eq!(
        format_to_game("hey <@!42>".to_string()),
        "hey <link=\"https://discord.com/users/42\">@42</>"
    );
}

#[test]
fn markup_greedy_over_match_is_kept() {
    // The inherited quirk: one pass swallows both spans on the line.
    assert_eq!(format_to_game("*a* *b*".to_string()), "<i>a* *b</>");
}

#[test]
fn markup_span_does_not_cross_newline() {
    assert_eq!(format_to_game("**a\nb**".to_string()), "**a\nb**");
}

#[test]
fn markup_emoji_needs_name_and_id() {
    assert_eq!(format_to_game("<:br_:123>".to_string()), "<:br_:123>");
    assert_eq!(format_to_game("<:br_smile:>".to_string()), "<:br_smile:>");
}

#[test]
fn markup_mention_needs_digits() {
    assert_eq!(format_to_game("<@!>".to_string()), "<@!>");
}

#[test]
fn markup_unclosed_span_unchanged() {
    assert_eq!(format_to_game("**open".to_string()), "**open");
    assert_eq!(format_to_game("`tick".to_string()), "`tick");
}

#[test]
fn markup_plain_text_unchanged() {
    assert_eq!(format_to_game("hello world".to_string()), "hello world");
}

#[test]
fn decimal_rendering() {
    assert_eq!(usize_to_string(0), "0");
    assert_eq!(usize_to_string(7), "7");
    assert_eq!(usize_to_string(42), "42");
    assert_eq!(usize_to_string(1000), "1000");
}

#[test]
fn color_hex_rendering() {
    assert_eq!(color_hex(0), "000000");
    assert_eq!(color_hex(0xaaaaaa), "aaaaaa");
    assert_eq!(color_hex(0x0a0b0c), "0a0b0c");
    assert_eq!(color_hex(0x1234567), "1234567");
    assert_eq!(color_hex(255), "0000ff");
}

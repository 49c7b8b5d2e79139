use chat_bridge::dispatch::{
    chat_link_key, chat_relay_messages, game_chat_message, game_link_key, no_subcommand_reply,
    online_channel_name, parse_command, pick_role_color, players_reply, presence_message,
    role_names, server_start_message, sort_roles, submit_command, submit_success_replies,
    sync_reply, unknown_command_reply, verify_command, wipe_command, PlayerEntry, RoleInfo,
};
use chat_bridge::ledger::Ledger;

fn strings(xs: &[&str]) -> Vec<String> {
    xs.iter().map(|s| s.to_string()).collect()
}

#[test]
fn chat_notification_renders_with_empty_role_table() {
    let out = game_chat_message(
        &"[$role] $user: $message".to_string(),
        "Steve".to_string(),
        "hello".to_string(),
        &[],
        &[],
    );
    assert_eq!(out, "[] Steve: hello");
}

#[test]
fn chat_notification_renders_role_tag() {
    let out = game_chat_message(
        &"[$role] $user: $message".to_string(),
        "Steve".to_string(),
        "hi".to_string(),
        &strings(&["admin"]),
        &strings(&["admin:[A]"]),
    );
    assert_eq!(out, "[[A]] Steve: hi");
}

#[test]
fn server_start_announcement() {
    let out = server_start_message(&"Server started on $map!".to_string(), "Plate".to_string());
    assert_eq!(out, "Server started on Plate!");
}

#[test]
fn presence_announcement() {
    let out = presence_message(
        &"$user joined.".to_string(),
        "Steve".to_string(),
        &[],
        &[],
    );
    assert_eq!(out, "Steve joined.");
}

#[test]
fn online_count_channel_name() {
    let out = online_channel_name(&"online-$n".to_string(), 12);
    assert_eq!(out, "online-12");
}

#[test]
fn relay_translates_markup_and_prefers_nickname() {
    let (broadcast, log) = chat_relay_messages(
        &"<color=\"$color\">[$role] $user: $message</>".to_string(),
        &strings(&["vip:[V]"]),
        &strings(&["vip"]),
        Some("Nick".to_string()),
        "RawName".to_string(),
        "**hi**".to_string(),
        0x0a0b0c,
    );
    assert_eq!(broadcast, "<color=\"0a0b0c\">[[V]] Nick: <b>hi</></>");
    assert_eq!(log, "<Nick> <b>hi</>");
}

#[test]
fn relay_falls_back_to_author_name() {
    let (broadcast, _log) = chat_relay_messages(
        &"$user: $message".to_string(),
        &[],
        &[],
        None,
        "RawName".to_string(),
        "ok".to_string(),
        0,
    );
    assert_eq!(broadcast, "RawName: ok");
}

#[test]
fn command_parsing() {
    let prefix = "!".to_string();
    assert_eq!(
        parse_command(&"!verify abc123".to_string(), &prefix),
        Some(("verify".to_string(), "abc123".to_string()))
    );
    assert_eq!(
        parse_command(&"!players".to_string(), &prefix),
        Some(("players".to_string(), "".to_string()))
    );
    assert_eq!(parse_command(&"hello there".to_string(), &prefix), None);
}

#[test]
fn roles_sort_highest_position_first() {
    let roles = vec![
        RoleInfo { name: "low".to_string(), position: 1, color: 0 },
        RoleInfo { name: "high".to_string(), position: 9, color: 0xff0000 },
        RoleInfo { name: "mid".to_string(), position: 4, color: 0 },
    ];
    let sorted = sort_roles(roles);
    let names = role_names(&sorted);
    assert_eq!(names, strings(&["high", "mid", "low"]));
}

#[test]
fn role_color_takes_first_set_colour() {
    let roles = vec![
        RoleInfo { name: "a".to_string(), position: 9, color: 0 },
        RoleInfo { name: "b".to_string(), position: 5, color: 0x123456 },
        RoleInfo { name: "c".to_string(), position: 1, color: 0x654321 },
    ];
    assert_eq!(pick_role_color(&roles), 0x123456);
}

#[test]
fn role_color_defaults_to_grey() {
    let roles = vec![RoleInfo { name: "a".to_string(), position: 2, color: 0 }];
    assert_eq!(pick_role_color(&roles), 0xaaaaaa);
}

#[test]
fn players_reply_empty_roster() {
    assert_eq!(players_reply(&[], &[]), "**There are no players online.**");
}

#[test]
fn players_reply_single_player() {
    let players = vec![PlayerEntry { name: "Steve".to_string(), roles: strings(&["admin"]) }];
    let table = strings(&["admin:[A]"]);
    assert_eq!(
        players_reply(&players, &table),
        "**There is 1 player online.**\n[A] Steve\n"
    );
}

#[test]
fn players_reply_two_players_without_tags() {
    let players = vec![
        PlayerEntry { name: "A".to_string(), roles: vec![] },
        PlayerEntry { name: "B".to_string(), roles: vec![] },
    ];
    assert_eq!(
        players_reply(&players, &[]),
        "**There are 2 players online.**\nA\nB\n"
    );
}

#[test]
fn verify_command_already_linked() {
    let mut ledger = Ledger::new();
    let reply = verify_command(&mut ledger, &"!".to_string(), &"p1".to_string(), true);
    assert_eq!(reply, "<color=\"a00\">You are already verified!</>");
}

#[test]
fn verify_command_fresh_then_pending() {
    let mut ledger = Ledger::new();
    let prefix = "!".to_string();
    let game_id = "p1".to_string();
    let first = verify_command(&mut ledger, &prefix, &game_id, false);
    assert!(first.starts_with("To verify, send <code>!verify "));
    assert!(first.ends_with("</> in the game channel."));
    let code = ledger.request(&game_id, false).unwrap_err();
    let code = match code {
        chat_bridge::ledger::RequestError::AlreadyPending(c) => c,
        other => panic!("expected a pending entry, got {:?}", other),
    };
    let second = verify_command(&mut ledger, &prefix, &game_id, false);
    assert_eq!(
        second,
        format!(
            "<color=\"a00\">You have already initiated the verification process! Send <code>!verify {}</> in the game channel.</>",
            code
        )
    );
    assert_eq!(first, format!("To verify, send <code>!verify {}</> in the game channel.", code));
}

#[test]
fn submit_without_pending_entry_gets_the_no_pending_reply() {
    let mut ledger = Ledger::new();
    match submit_command(&mut ledger, &"abc123".to_string()) {
        Err(msg) => assert_eq!(msg, "**There is no pending verification with that code!**"),
        Ok(g) => panic!("nothing should match, got {}", g),
    }
}

#[test]
fn submit_resolves_the_pending_game_identity() {
    let mut ledger = Ledger::new();
    let code = ledger.request(&"p1".to_string(), false).unwrap();
    assert_eq!(submit_command(&mut ledger, &code).unwrap(), "p1");
}

#[test]
fn success_replies_name_both_identities() {
    let (chat, game) = submit_success_replies(&"Steve".to_string(), &"Nick".to_string());
    assert_eq!(chat, "**Success!** You've been verified as **Steve** in Brickadia.");
    assert_eq!(
        game,
        "<color=\"0a0\"><b>Success!</></> You've been verified as <b>Nick</> in Discord."
    );
}

#[test]
fn sync_replies() {
    assert_eq!(sync_reply(true), "**Synced verification with game.**");
    assert_eq!(
        sync_reply(false),
        "**You are not verified!** Start the verification process by running `/discord verify` in-game."
    );
}

#[test]
fn wipe_only_for_the_host() {
    assert_eq!(wipe_command(true), Some("Verification store has been wiped.".to_string()));
    assert_eq!(wipe_command(false), None);
}

#[test]
fn unknown_subcommand_reply_names_it() {
    assert_eq!(
        unknown_command_reply(&"frobnicate".to_string()),
        "<color=\"a00\">There is no Discord command by the name <code>/discord frobnicate</>.</>"
    );
}

#[test]
fn missing_subcommand_reply() {
    assert_eq!(no_subcommand_reply(), "<color=\"a00\">Please specify a command to run.</>");
}

#[test]
fn store_keys() {
    assert_eq!(game_link_key(&"g1".to_string()), "g2d_g1");
    assert_eq!(chat_link_key(&"c1".to_string()), "d2g_c1");
}

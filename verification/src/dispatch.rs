//! The event dispatcher's per-event decisions.
//!
//! The two consumption loops live outside the library; they decode each
//! incoming event into plain values, call one of these functions, and
//! perform the sends, whispers, logs and store writes that the results
//! call for. Everything here is a pure decision: which text goes where,
//! and how the verification ledger changes.

use vstd::prelude::*;
use vstd::string::StringExecFns;
use crate::format::{
    compose_vec,
    find_char, format_content, render_spec, role_text, role_text_spec, views_of, formatter_views,
    Formatter,
};
use crate::ledger::{find_code, find_game, is_code_char, Ledger, RequestError, SubmitError};
use crate::markup::{format_to_game, to_game_spec};
use crate::numbers::{color_hex, color_hex_spec, dec_str_spec, usize_to_string};
use crate::text::{chars_of, matches_at, string_of, subvec};

verus! {

/// What the dispatcher reads of a cached chat-service role: its name,
/// its hierarchy position and its colour.
#[derive(Debug, Clone)]
pub struct RoleInfo {
    pub name: String,
    pub position: i64,
    pub color: u32,
}

/// Sort roles by hierarchy position, highest first, so that resolution
/// and colour choice see the highest role first.
pub fn sort_roles(roles: Vec<RoleInfo>) -> (r: Vec<RoleInfo>)
    ensures
        r@.to_multiset() == roles@.to_multiset(),
        r@.len() == roles@.len(),
        forall|i: int, j: int|
            0 <= i < j < r@.len() ==> (#[trigger] r@[i]).position >= (#[trigger] r@[j]).position,
{
    broadcast use vstd::seq_lib::group_to_multiset_ensures;

    let mut input = roles;
    let mut out: Vec<RoleInfo> = Vec::new();
    let ghost orig = input@;
    proof {
        assert(out@.to_multiset().add(input@.to_multiset()) =~= orig.to_multiset());
    }
    while input.len() > 0
        invariant
            out@.to_multiset().add(input@.to_multiset()) == orig.to_multiset(),
            out@.len() + input@.len() == orig.len(),
            forall|i: int, j: int|
                0 <= i < j < out@.len() ==> (#[trigger] out@[i]).position >= (
                #[trigger] out@[j]).position,
            forall|i: int, j: int|
                0 <= i < out@.len() && 0 <= j < input@.len() ==> (#[trigger] out@[i]).position
                    >= (#[trigger] input@[j]).position,
        decreases input@.len(),
    {
        let mut best: usize = 0;
        let mut k: usize = 1;
        while k < input.len()
            invariant
                best < k,
                k <= input@.len(),
                input@.len() > 0,
                forall|t: int| 0 <= t < k ==> (#[trigger] input@[t]).position <= input@[
                    best as int
                ].position,
            decreases input@.len() - k,
        {
            if input[k].position > input[best].position {
                best = k;
            }
            k = k + 1;
        }
        let ghost in0 = input@;
        let ghost out0 = out@;
        let e = input.remove(best);
        out.push(e);
        proof {
            in0.to_multiset_ensures();
            out0.to_multiset_ensures();
            assert(in0.remove(best as int).to_multiset() =~= in0.to_multiset().remove(e));
            assert(out0.push(e).to_multiset() =~= out0.to_multiset().insert(e));
            assert(in0.to_multiset().count(e) > 0) by {
                assert(in0[best as int] == e);
                assert(in0.contains(e));
            }
            assert(out@.to_multiset().add(input@.to_multiset()) =~= orig.to_multiset());
            assert forall|i: int, j: int|
                0 <= i < out@.len() && 0 <= j < input@.len() implies (
            #[trigger] out@[i]).position >= (#[trigger] input@[j]).position by {
                let j0: int = if j < best { j } else { j + 1 };
                assert(input@[j] == in0[j0]);
                if i < out0.len() {
                    assert(out@[i] == out0[i]);
                } else {
                    assert(out@[i] == e);
                    assert(in0[j0].position <= in0[best as int].position);
                }
            }
            assert forall|i: int, j: int|
                0 <= i < j < out@.len() implies (#[trigger] out@[i]).position >= (
            #[trigger] out@[j]).position by {
                if j < out0.len() {
                    assert(out@[i] == out0[i] && out@[j] == out0[j]);
                } else {
                    assert(out@[j] == e);
                    assert(in0.contains(e));
                }
            }
        }
    }
    proof {
        assert(input@.to_multiset().len() == 0);
        assert(out@.to_multiset().add(input@.to_multiset()) =~= out@.to_multiset());
    }
    out
}

/// The colour of the first role with one set, if any.
pub open spec fn pick_color_spec(rs: Seq<RoleInfo>) -> u32
    decreases rs.len(),
{
    if rs.len() == 0 {
        0xaaaaaa
    } else if rs[0].color != 0 {
        rs[0].color
    } else {
        pick_color_spec(rs.skip(1))
    }
}

/// The colour of the first role in the list whose colour is set, or the
/// default grey.
pub fn pick_role_color(roles: &[RoleInfo]) -> (r: u32)
    ensures
        r == pick_color_spec(roles@),
{
    let mut i: usize = 0;
    proof {
        assert(roles@.skip(0) =~= roles@);
    }
    while i < roles.len()
        invariant
            i <= roles@.len(),
            pick_color_spec(roles@.skip(i as int)) == pick_color_spec(roles@),
        decreases roles@.len() - i,
    {
        let ghost rest = roles@.skip(i as int);
        if roles[i].color != 0 {
            return roles[i].color;
        }
        i = i + 1;
        proof {
            assert(rest.skip(1) =~= roles@.skip(i as int));
        }
    }
    proof {
        assert(roles@.skip(roles@.len() as int) =~= Seq::<RoleInfo>::empty());
    }
    0xaaaaaa
}

/// The names of the roles, in the given order.
pub fn role_names(roles: &[RoleInfo]) -> (r: Vec<String>)
    ensures
        r@.len() == roles@.len(),
        forall|i: int| 0 <= i < r@.len() ==> (#[trigger] r@[i])@ == roles@[i].name@,
{
    let mut r: Vec<String> = Vec::new();
    let mut i: usize = 0;
    while i < roles.len()
        invariant
            i <= roles@.len(),
            r@.len() == i,
            forall|k: int| 0 <= k < i ==> (#[trigger] r@[k])@ == roles@[k].name@,
        decreases roles@.len() - i,
    {
        r.push(roles[i].name.clone());
        i = i + 1;
    }
    r
}

/// Whether `s` begins with `p`.
pub open spec fn starts_with_spec(s: Seq<char>, p: Seq<char>) -> bool {
    p.len() <= s.len() && s.take(p.len() as int) == p
}

/// A prefixed command tokenized into the command word and the remainder:
/// the text after the prefix, split at its first space; without a space
/// the remainder is empty. `None` when the text does not begin with the
/// prefix.
pub open spec fn parse_command_spec(content: Seq<char>, prefix: Seq<char>) -> Option<
    (Seq<char>, Seq<char>),
> {
    if starts_with_spec(content, prefix) {
        let rest = content.skip(prefix.len() as int);
        match find_char(rest, ' ') {
            Some(i) => Some((rest.take(i), rest.skip(i + 1))),
            None => Some((rest, Seq::empty())),
        }
    } else {
        None
    }
}

/// Tokenize a chat message that may carry a prefixed command.
pub fn parse_command(content: &String, prefix: &String) -> (r: Option<(String, String)>)
    ensures
        match r {
            Some(p) => parse_command_spec(content@, prefix@) == Some((p.0@, p.1@)),
            None => parse_command_spec(content@, prefix@) is None,
        },
{
    let c = chars_of(content.as_str());
    let p = chars_of(prefix.as_str());
    if !matches_at(&c, 0, &p) {
        proof {
            if prefix@.len() <= content@.len() {
                assert(content@.take(prefix@.len() as int) =~= content@.subrange(
                    0,
                    prefix@.len() as int,
                ));
            }
        }
        return None;
    }
    proof {
        assert(content@.take(prefix@.len() as int) =~= content@.subrange(
            0,
            prefix@.len() as int,
        ));
    }
    let rest = subvec(&c, p.len(), c.len());
    proof {
        assert(rest@ =~= content@.skip(prefix@.len() as int));
    }
    match crate::format::scan_char(&rest, ' ') {
        Some(i) => {
            let cmd = subvec(&rest, 0, i);
            let n = rest.len();
            let args = subvec(&rest, i + 1, n);
            proof {
                assert(cmd@ =~= rest@.take(i as int));
                assert(args@ =~= rest@.skip(i as int + 1));
            }
            Some((string_of(&cmd), string_of(&args)))
        },
        None => {
            let empty: Vec<char> = Vec::new();
            proof {
                assert(empty@ =~= Seq::<char>::empty());
            }
            Some((string_of(&rest), string_of(&empty)))
        },
    }
}


/// The `role` and `user` formatters attached to game-side chat, join and
/// leave relays: the resolved role tag and the user's name.
pub fn user_formatters(user: String, roles: &[String], game_roles: &[String]) -> (r: Vec<
    Formatter,
>)
    ensures
        formatter_views(r@) == seq![
            ("role"@, role_text_spec(views_of(roles@), views_of(game_roles@))),
            ("user"@, user@),
        ],
{
    let ghost u0 = user@;
    let tag = role_text(roles, game_roles);
    let mut r: Vec<Formatter> = Vec::new();
    r.push(Formatter { key: String::from_str("role"), value: tag });
    r.push(Formatter { key: String::from_str("user"), value: user });
    proof {
        assert(formatter_views(r@) =~= seq![
            ("role"@, role_text_spec(views_of(roles@), views_of(game_roles@))),
            ("user"@, u0),
        ]);
    }
    r
}

/// Host `start` event: the server-start announcement for the chat side.
pub fn server_start_message(format: &String, map: String) -> (r: String)
    ensures
        r@ == render_spec(format@, seq![("map"@, map@)]),
{
    let ghost m0 = map@;
    let mut fs: Vec<Formatter> = Vec::new();
    fs.push(Formatter { key: String::from_str("map"), value: map });
    proof {
        assert(formatter_views(fs@) =~= seq![("map"@, m0)]);
    }
    format_content(format.clone(), fs.as_slice())
}

/// Host `chat` event: the message relayed to the chat side, carrying the
/// speaker's resolved role, name and text.
pub fn game_chat_message(
    format: &String,
    user: String,
    message: String,
    roles: &[String],
    game_roles: &[String],
) -> (r: String)
    ensures
        r@ == render_spec(
            format@,
            seq![
                ("role"@, role_text_spec(views_of(roles@), views_of(game_roles@))),
                ("user"@, user@),
                ("message"@, message@),
            ],
        ),
{
    let ghost u0 = user@;
    let ghost m0 = message@;
    let ufs = user_formatters(user, roles, game_roles);
    let ghost ufs0 = ufs@;
    let mut mf: Vec<Formatter> = Vec::new();
    mf.push(Formatter { key: String::from_str("message"), value: message });
    let ghost mf0 = mf@;
    let mut vecs: Vec<Vec<Formatter>> = Vec::new();
    vecs.push(ufs);
    vecs.push(mf);
    let ghost vs0 = vecs@;
    let all = compose_vec(vecs);
    proof {
        let m = vs0.map_values(|v: Vec<Formatter>| v@);
        assert(m =~= seq![ufs0, mf0]);
        assert(m.flatten() == m.first() + m.drop_first().flatten());
        assert(m.drop_first() =~= seq![mf0]);
        assert(seq![mf0].flatten() == mf0 + seq![mf0].drop_first().flatten());
        assert(seq![mf0].drop_first() =~= Seq::<Seq<Formatter>>::empty());
        assert(Seq::<Seq<Formatter>>::empty().flatten() == Seq::<Formatter>::empty());
        assert(ufs0 + (mf0 + Seq::<Formatter>::empty()) =~= ufs0 + mf0);
        assert(all@ == ufs0 + mf0);
        assert(formatter_views(ufs0).len() == 2);
        assert(mf0.len() == 1);
        assert(formatter_views(all@).len() == 3);
        assert(all@[0] == ufs0[0] && all@[1] == ufs0[1] && all@[2] == mf0[0]);
        assert(formatter_views(all@)[0] == (ufs0[0].key@, ufs0[0].value@));
        assert(formatter_views(ufs0)[0] == (ufs0[0].key@, ufs0[0].value@));
        assert(formatter_views(all@)[1] == (ufs0[1].key@, ufs0[1].value@));
        assert(formatter_views(ufs0)[1] == (ufs0[1].key@, ufs0[1].value@));
        assert(formatter_views(all@)[2] == (mf0[0].key@, mf0[0].value@));
        assert(mf0[0].key@ == "message"@ && mf0[0].value@ == m0);
        assert(formatter_views(all@) =~= seq![
            ("role"@, role_text_spec(views_of(roles@), views_of(game_roles@))),
            ("user"@, u0),
            ("message"@, m0),
        ]);
    }
    format_content(format.clone(), all.as_slice())
}

/// Host `join` or `leave` event: the presence announcement for the chat
/// side; the caller picks the join or the leave template.
pub fn presence_message(
    format: &String,
    user: String,
    roles: &[String],
    game_roles: &[String],
) -> (r: String)
    ensures
        r@ == render_spec(
            format@,
            seq![
                ("role"@, role_text_spec(views_of(roles@), views_of(game_roles@))),
                ("user"@, user@),
            ],
        ),
{
    let ufs = user_formatters(user, roles, game_roles);
    format_content(format.clone(), ufs.as_slice())
}

/// The channel name showing the online player count.
pub fn online_channel_name(format: &String, count: usize) -> (r: String)
    ensures
        r@ == render_spec(format@, seq![("n"@, dec_str_spec(count as nat))]),
{
    let n = usize_to_string(count);
    let mut fs: Vec<Formatter> = Vec::new();
    fs.push(Formatter { key: String::from_str("n"), value: n });
    proof {
        assert(formatter_views(fs@) =~= seq![("n"@, dec_str_spec(count as nat))]);
    }
    format_content(format.clone(), fs.as_slice())
}

/// Chat-side message relay: the in-game broadcast rendered with the
/// game-message template, and the plain-text mirror for the log. The
/// display name prefers the member nickname over the raw user name; the
/// message text is translated to game markup and the role colour is
/// rendered as six hex digits.
pub fn chat_relay_messages(
    game_format: &String,
    discord_roles: &[String],
    sorted_role_names: &[String],
    nick: Option<String>,
    author_name: String,
    content: String,
    role_color: u32,
) -> (r: (String, String))
    ensures
        ({
            let name = match nick {
                Some(n) => n@,
                None => author_name@,
            };
            let fmts = seq![
                (
                    "role"@,
                    role_text_spec(views_of(sorted_role_names@), views_of(discord_roles@)),
                ),
                ("user"@, name),
                ("message"@, to_game_spec(content@)),
                ("color"@, color_hex_spec(role_color as nat)),
            ];
            r.0@ == render_spec(game_format@, fmts) && r.1@ == render_spec(
                "<$user> $message"@,
                fmts,
            )
        }),
{
    let ghost name0 = match nick {
        Some(ref n) => n@,
        None => author_name@,
    };
    let display = match nick {
        Some(n) => n,
        None => author_name,
    };
    let ghost c0 = content@;
    let mut fs: Vec<Formatter> = Vec::new();
    fs.push(
        Formatter { key: String::from_str("role"), value: role_text(sorted_role_names, discord_roles) },
    );
    fs.push(Formatter { key: String::from_str("user"), value: display });
    fs.push(Formatter { key: String::from_str("message"), value: format_to_game(content) });
    fs.push(Formatter { key: String::from_str("color"), value: color_hex(role_color) });
    proof {
        assert(formatter_views(fs@) =~= seq![
            ("role"@, role_text_spec(views_of(sorted_role_names@), views_of(discord_roles@))),
            ("user"@, name0),
            ("message"@, to_game_spec(c0)),
            ("color"@, color_hex_spec(role_color as nat)),
        ]);
    }
    let broadcast_text = format_content(game_format.clone(), fs.as_slice());
    let log_text = format_content(String::from_str("<$user> $message"), fs.as_slice());
    (broadcast_text, log_text)
}

/// The store key linking a game identity to its chat identity.
pub fn game_link_key(game_id: &String) -> (r: String)
    ensures
        r@ == "g2d_"@ + game_id@,
{
    let mut r = String::from_str("g2d_");
    r.append(game_id.as_str());
    r
}

/// The store key linking a chat identity to its game identity.
pub fn chat_link_key(chat_id: &String) -> (r: String)
    ensures
        r@ == "d2g_"@ + chat_id@,
{
    let mut r = String::from_str("d2g_");
    r.append(chat_id.as_str());
    r
}

/// The whisper telling a player a verification request is already
/// pending, repeating the existing code.
pub open spec fn already_pending_reply_spec(prefix: Seq<char>, code: Seq<char>) -> Seq<char> {
    "<color=\"a00\">You have already initiated the verification process! Send <code>"@ + prefix
        + "verify "@ + code + "</> in the game channel.</>"@
}

/// The whisper telling a player how to finish a fresh verification
/// request.
pub open spec fn verify_instruction_spec(prefix: Seq<char>, code: Seq<char>) -> Seq<char> {
    "To verify, send <code>"@ + prefix + "verify "@ + code + "</> in the game channel."@
}

/// Game-side `verify` command: drive the ledger and choose the whisper
/// for the invoking player. `already_linked` is the external store's
/// answer for this identity, which is authoritative.
pub fn verify_command(
    ledger: &mut Ledger,
    prefix: &String,
    game_id: &String,
    already_linked: bool,
) -> (r: String)
    requires
        old(ledger).wf(),
    ensures
        final(ledger).wf(),
        already_linked ==> final(ledger).entries() == old(ledger).entries() && r@
            == "<color=\"a00\">You are already verified!</>"@,
        !already_linked ==> match find_game(old(ledger).entries(), game_id@) {
            Some(i) => final(ledger).entries() == old(ledger).entries() && r@
                == already_pending_reply_spec(prefix@, old(ledger).entries()[i].1),
            None => exists|c: Seq<char>|
                #![auto]
                c.len() == 6 && (forall|k: int| 0 <= k < c.len() ==> is_code_char(c[k]))
                    && final(ledger).entries() == old(ledger).entries().push((game_id@, c))
                    && r@ == verify_instruction_spec(prefix@, c),
        },
{
    match ledger.request(game_id, already_linked) {
        Err(RequestError::AlreadyVerified) => String::from_str(
            "<color=\"a00\">You are already verified!</>",
        ),
        Err(RequestError::AlreadyPending(code)) => {
            let mut m = String::from_str(
                "<color=\"a00\">You have already initiated the verification process! Send <code>",
            );
            m.append(prefix.as_str());
            m.append("verify ");
            m.append(code.as_str());
            m.append("</> in the game channel.</>");
            m
        },
        Ok(code) => {
            let mut m = String::from_str("To verify, send <code>");
            m.append(prefix.as_str());
            m.append("verify ");
            m.append(code.as_str());
            m.append("</> in the game channel.");
            m
        },
    }
}

/// Chat-side `verify <code>` command: consume the code if one is
/// pending, else the exact no-pending reply. On success the caller
/// persists the identity pair and sends the success replies.
pub fn submit_command(ledger: &mut Ledger, code: &String) -> (r: Result<String, String>)
    requires
        old(ledger).wf(),
    ensures
        final(ledger).wf(),
        match find_code(old(ledger).entries(), code@) {
            Some(i) => final(ledger).entries() == old(ledger).entries().remove(i) && (match r {
                Ok(g) => g@ == old(ledger).entries()[i].0,
                _ => false,
            }),
            None => final(ledger).entries() == old(ledger).entries() && (match r {
                Err(m) => m@ == "**There is no pending verification with that code!**"@,
                _ => false,
            }),
        },
{
    match ledger.submit(code) {
        Ok(game_id) => Ok(game_id),
        Err(SubmitError::NoSuchCode) => Err(
            String::from_str("**There is no pending verification with that code!**"),
        ),
    }
}

/// The replies sent after a successful verification: the chat-side reply
/// naming the game identity, and the in-game whisper naming the chat
/// author.
pub fn submit_success_replies(player_name: &String, chat_author: &String) -> (r: (String, String))
    ensures
        r.0@ == "**Success!** You've been verified as **"@ + player_name@ + "** in Brickadia."@,
        r.1@ == "<color=\"0a0\"><b>Success!</></> You've been verified as <b>"@ + chat_author@
            + "</> in Discord."@,
{
    let mut a = String::from_str("**Success!** You've been verified as **");
    a.append(player_name.as_str());
    a.append("** in Brickadia.");
    let mut b = String::from_str("<color=\"0a0\"><b>Success!</></> You've been verified as <b>");
    b.append(chat_author.as_str());
    b.append("</> in Discord.");
    (a, b)
}

/// Chat-side `verify` with no code: the reply after the store lookup,
/// for a linked and for an unlinked identity.
pub fn sync_reply(linked: bool) -> (r: String)
    ensures
        linked ==> r@ == "**Synced verification with game.**"@,
        !linked ==> r@
            == "**You are not verified!** Start the verification process by running `/discord verify` in-game."@,
{
    if linked {
        String::from_str("**Synced verification with game.**")
    } else {
        String::from_str(
            "**You are not verified!** Start the verification process by running `/discord verify` in-game.",
        )
    }
}

/// Game-side `wipe` subcommand: only the host may wipe the store; the
/// broadcast to send when it happens.
pub fn wipe_command(is_host: bool) -> (r: Option<String>)
    ensures
        is_host ==> (match r {
            Some(m) => m@ == "Verification store has been wiped."@,
            None => false,
        }),
        !is_host ==> r is None,
{
    if is_host {
        Some(String::from_str("Verification store has been wiped."))
    } else {
        None
    }
}

/// The whisper for an unrecognized game-side subcommand.
pub fn unknown_command_reply(subcommand: &String) -> (r: String)
    ensures
        r@ == "<color=\"a00\">There is no Discord command by the name <code>/discord "@
            + subcommand@ + "</>.</>"@,
{
    let mut m = String::from_str(
        "<color=\"a00\">There is no Discord command by the name <code>/discord ",
    );
    m.append(subcommand.as_str());
    m.append("</>.</>");
    m
}

/// The whisper when the game-side command carries no subcommand.
pub fn no_subcommand_reply() -> (r: String)
    ensures
        r@ == "<color=\"a00\">Please specify a command to run.</>"@,
{
    String::from_str("<color=\"a00\">Please specify a command to run.</>")
}


/// A player shown by the chat-side `players` command: the name and the
/// current roles.
#[derive(Debug, Clone)]
pub struct PlayerEntry {
    pub name: String,
    pub roles: Vec<String>,
}

/// One line of the players listing: the resolved tag, a space when the
/// tag is non-empty, the name, a newline.
pub open spec fn player_line_spec(p: PlayerEntry, table: Seq<Seq<char>>) -> Seq<char> {
    let tag = role_text_spec(views_of(p.roles@), table);
    if tag.len() > 0 {
        tag + " "@ + p.name@ + "\n"@
    } else {
        p.name@ + "\n"@
    }
}

/// The listing lines, one per player, in roster order.
pub open spec fn players_lines_spec(ps: Seq<PlayerEntry>, table: Seq<Seq<char>>) -> Seq<char>
    decreases ps.len(),
{
    if ps.len() == 0 {
        Seq::empty()
    } else {
        player_line_spec(ps[0], table) + players_lines_spec(ps.skip(1), table)
    }
}

/// The whole `players` reply: a no-players line, or a count header with
/// number agreement followed by one line per player.
pub open spec fn players_reply_spec(ps: Seq<PlayerEntry>, table: Seq<Seq<char>>) -> Seq<char> {
    if ps.len() == 0 {
        "**There are no players online.**"@
    } else {
        "**There "@ + (if ps.len() == 1 {
            "is"@
        } else {
            "are"@
        }) + " "@ + dec_str_spec(ps.len()) + " player"@ + (if ps.len() == 1 {
            ""@
        } else {
            "s"@
        }) + " online.**\n"@ + players_lines_spec(ps, table)
    }
}

/// Chat-side `players` command: the roster reply.
pub fn players_reply(players: &[PlayerEntry], game_roles: &[String]) -> (r: String)
    ensures
        r@ == players_reply_spec(players@, views_of(game_roles@)),
{
    let ghost table = views_of(game_roles@);
    let n = players.len();
    if n == 0 {
        return String::from_str("**There are no players online.**");
    }
    let mut msg = String::from_str("**There ");
    if n == 1 {
        msg.append("is");
    } else {
        msg.append("are");
    }
    msg.append(" ");
    let count = usize_to_string(n);
    msg.append(count.as_str());
    msg.append(" player");
    if n != 1 {
        msg.append("s");
    }
    msg.append(" online.**\n");
    let ghost header = msg@;
    proof {
        reveal_strlit("");
        assert(""@ =~= Seq::<char>::empty());
        assert(header =~= "**There "@ + (if players@.len() == 1 {
            "is"@
        } else {
            "are"@
        }) + " "@ + dec_str_spec(players@.len()) + " player"@ + (if players@.len() == 1 {
            ""@
        } else {
            "s"@
        }) + " online.**\n"@);
        assert(players@.skip(0) =~= players@);
    }
    let mut i: usize = 0;
    while i < n
        invariant
            i <= n,
            n == players@.len(),
            table == views_of(game_roles@),
            header + players_lines_spec(players@, table) == msg@ + players_lines_spec(
                players@.skip(i as int),
                table,
            ),
        decreases n - i,
    {
        let ghost rest = players@.skip(i as int);
        let tag = role_text(players[i].roles.as_slice(), game_roles);
        let ghost msg0 = msg@;
        if tag.as_str().is_empty() {
            msg.append(players[i].name.as_str());
            msg.append("\n");
        } else {
            msg.append(tag.as_str());
            msg.append(" ");
            msg.append(players[i].name.as_str());
            msg.append("\n");
        }
        i = i + 1;
        proof {
            assert(rest[0] == players@[i - 1]);
            assert(msg@ =~= msg0 + player_line_spec(players@[i - 1], table));
            assert(rest.skip(1) =~= players@.skip(i as int));
            assert(msg0 + (player_line_spec(players@[i - 1], table) + players_lines_spec(
                players@.skip(i as int),
                table,
            )) =~= msg@ + players_lines_spec(players@.skip(i as int), table));
        }
    }
    proof {
        assert(players@.skip(n as int) =~= Seq::<PlayerEntry>::empty());
        assert(msg@ + Seq::<char>::empty() =~= msg@);
    }
    msg
}

} // verus!

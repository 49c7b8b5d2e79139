//! Markup translator: chat-service markdown to the game's inline markup.
//!
//! The translation is an ordered chain of substitution passes, each
//! rewriting the entire current text before the next runs: custom emoji
//! references, numeric user mentions, then backtick code spans, bold,
//! italic, underline and single-underscore italic spans. Span contents
//! are matched greedily within a line, so one pass can swallow several
//! delimited spans on the same line; that over-matching is inherited
//! behaviour and is kept as it is.

use vstd::prelude::*;
use crate::text::{append_chars, chars_of, matches_at, string_of, subvec};

verus! {

/// A character allowed in an emoji name: a letter or an underscore.
pub open spec fn is_name_char(c: char) -> bool {
    (('A' as u32) <= (c as u32) && (c as u32) <= ('Z' as u32)) || (('a' as u32) <= (c as u32)
        && (c as u32) <= ('z' as u32)) || c == '_'
}

/// A decimal digit.
pub open spec fn is_digit_char(c: char) -> bool {
    ('0' as u32) <= (c as u32) && (c as u32) <= ('9' as u32)
}

/// Length of the longest run of letters-or-underscores starting at `from`.
pub open spec fn name_run_len(s: Seq<char>, from: int) -> nat
    decreases s.len() - from,
{
    if from < 0 || from >= s.len() {
        0
    } else if is_name_char(s[from]) {
        1 + name_run_len(s, from + 1)
    } else {
        0
    }
}

/// Length of the longest run of decimal digits starting at `from`.
pub open spec fn digit_run_len(s: Seq<char>, from: int) -> nat
    decreases s.len() - from,
{
    if from < 0 || from >= s.len() {
        0
    } else if is_digit_char(s[from]) {
        1 + digit_run_len(s, from + 1)
    } else {
        0
    }
}

/// An emoji reference at the start of `s`: `<:br_NAME:digits>` with a
/// non-empty letter-or-underscore name and a non-empty digit run. Yields
/// the name and the index just past the closing `>`.
pub open spec fn emoji_at(s: Seq<char>) -> Option<(Seq<char>, int)> {
    let n = name_run_len(s, 5) as int;
    let d = digit_run_len(s, 6 + n) as int;
    if s.len() >= 5 && s.take(5) == "<:br_"@ && n >= 1 && 5 + n < s.len() && s[5 + n] == ':'
        && d >= 1 && 6 + n + d < s.len() && s[6 + n + d] == '>' {
        Some((s.subrange(5, 5 + n), 7 + n + d))
    } else {
        None
    }
}

/// Rewrite every emoji reference `<:br_NAME:digits>` to `<emoji>NAME</>`.
pub open spec fn emoji_pass(s: Seq<char>) -> Seq<char>
    decreases s.len(),
{
    if s.len() == 0 {
        Seq::empty()
    } else {
        match emoji_at(s) {
            Some(p) => if 1 <= p.1 <= s.len() {
                "<emoji>"@ + p.0 + "</>"@ + emoji_pass(s.skip(p.1))
            } else {
                seq![s[0]] + emoji_pass(s.skip(1))
            },
            None => seq![s[0]] + emoji_pass(s.skip(1)),
        }
    }
}

/// A user mention at the start of `s`: `<@!digits>`. Yields the digit
/// run and the index just past the closing `>`.
pub open spec fn mention_at(s: Seq<char>) -> Option<(Seq<char>, int)> {
    let d = digit_run_len(s, 3) as int;
    if s.len() >= 3 && s.take(3) == "<@!"@ && d >= 1 && 3 + d < s.len() && s[3 + d] == '>' {
        Some((s.subrange(3, 3 + d), 4 + d))
    } else {
        None
    }
}

/// Rewrite every mention `<@!id>` to a link markup wrapping that id.
pub open spec fn mention_pass(s: Seq<char>) -> Seq<char>
    decreases s.len(),
{
    if s.len() == 0 {
        Seq::empty()
    } else {
        match mention_at(s) {
            Some(p) => if 1 <= p.1 <= s.len() {
                "<link=\"https://discord.com/users/"@ + p.0 + "\">@"@ + p.0 + "</>"@
                    + mention_pass(s.skip(p.1))
            } else {
                seq![s[0]] + mention_pass(s.skip(1))
            },
            None => seq![s[0]] + mention_pass(s.skip(1)),
        }
    }
}

/// Whether `j` closes a span whose content starts at `cs`: the delimiter
/// occurs at `j`, the content is non-empty and contains no newline.
pub open spec fn is_close(s: Seq<char>, d: Seq<char>, cs: int, j: int) -> bool {
    cs < j && j + d.len() <= s.len() && s.subrange(j, j + d.len() as int) == d && (forall|k: int|
        cs <= k < j ==> s[k] != '\n')
}

/// The greediest closing position at or below `j`, if any.
pub open spec fn close_from(s: Seq<char>, d: Seq<char>, cs: int, j: int) -> Option<int>
    decreases j - cs,
{
    if j <= cs {
        None
    } else if is_close(s, d, cs, j) {
        Some(j)
    } else {
        close_from(s, d, cs, j - 1)
    }
}

/// Rewrite every greedy `d`-delimited span to `tag` + content + `</>`.
pub open spec fn span_pass(s: Seq<char>, d: Seq<char>, tag: Seq<char>) -> Seq<char>
    recommends
        d.len() > 0,
    decreases s.len(),
{
    if s.len() == 0 {
        Seq::empty()
    } else if d.len() > 0 && d.len() <= s.len() && s.take(d.len() as int) == d {
        match close_from(s, d, d.len() as int, s.len() - d.len()) {
            Some(j) => if d.len() < j && j + d.len() <= s.len() {
                tag + s.subrange(d.len() as int, j) + "</>"@ + span_pass(
                    s.skip(j + d.len() as int),
                    d,
                    tag,
                )
            } else {
                seq![s[0]] + span_pass(s.skip(1), d, tag)
            },
            None => seq![s[0]] + span_pass(s.skip(1), d, tag),
        }
    } else {
        seq![s[0]] + span_pass(s.skip(1), d, tag)
    }
}

/// The whole translation: emoji, mention, code, bold, italic, underline,
/// then remaining single-underscore italic, in that order.
pub open spec fn to_game_spec(s: Seq<char>) -> Seq<char> {
    span_pass(
        span_pass(
            span_pass(
                span_pass(span_pass(mention_pass(emoji_pass(s)), "`"@, "<code>"@), "**"@, "<b>"@),
                "*"@,
                "<i>"@,
            ),
            "__"@,
            "<u>"@,
        ),
        "_"@,
        "<i>"@,
    )
}

/// Whether `c` is a letter or underscore.
fn name_char(c: char) -> (b: bool)
    ensures
        b == is_name_char(c),
{
    let u = c as u32;
    (('A' as u32) <= u && u <= ('Z' as u32)) || (('a' as u32) <= u && u <= ('z' as u32)) || c
        == '_'
}

/// Whether `c` is a decimal digit.
fn digit_char(c: char) -> (b: bool)
    ensures
        b == is_digit_char(c),
{
    let u = c as u32;
    ('0' as u32) <= u && u <= ('9' as u32)
}

/// Length of the letter-or-underscore run starting at `from`.
fn scan_name_run(s: &Vec<char>, from: usize) -> (n: usize)
    requires
        from <= s@.len(),
    ensures
        n == name_run_len(s@, from as int),
        from + n <= s@.len(),
{
    let end = s.len();
    let mut i: usize = from;
    while i < end
        invariant
            from <= i <= end,
            end == s@.len(),
            name_run_len(s@, from as int) == (i - from) + name_run_len(s@, i as int),
        decreases end - i,
    {
        if !name_char(s[i]) {
            proof {
                assert(name_run_len(s@, i as int) == 0);
            }
            return i - from;
        }
        proof {
            assert(name_run_len(s@, i as int) == 1 + name_run_len(s@, i as int + 1));
        }
        i = i + 1;
    }
    proof {
        assert(name_run_len(s@, i as int) == 0);
    }
    i - from
}

/// Length of the digit run starting at `from`.
fn scan_digit_run(s: &Vec<char>, from: usize) -> (n: usize)
    requires
        from <= s@.len(),
    ensures
        n == digit_run_len(s@, from as int),
        from + n <= s@.len(),
{
    let end = s.len();
    let mut i: usize = from;
    while i < end
        invariant
            from <= i <= end,
            end == s@.len(),
            digit_run_len(s@, from as int) == (i - from) + digit_run_len(s@, i as int),
        decreases end - i,
    {
        if !digit_char(s[i]) {
            proof {
                assert(digit_run_len(s@, i as int) == 0);
            }
            return i - from;
        }
        proof {
            assert(digit_run_len(s@, i as int) == 1 + digit_run_len(s@, i as int + 1));
        }
        i = i + 1;
    }
    proof {
        assert(digit_run_len(s@, i as int) == 0);
    }
    i - from
}

/// Match an emoji reference at the start of `suf`.
fn emoji_at_exec(suf: &Vec<char>) -> (r: Option<(Vec<char>, usize)>)
    ensures
        match r {
            Some(p) => emoji_at(suf@) == Some((p.0@, p.1 as int)) && 1 <= p.1 <= suf@.len(),
            None => emoji_at(suf@) is None,
        },
{
    let open = chars_of("<:br_");
    proof {
        reveal_strlit("<:br_");
    }
    let len = suf.len();
    if !matches_at(suf, 0, &open) {
        proof {
            if suf@.len() >= 5 {
                assert(suf@.take(5) =~= suf@.subrange(0, 5));
            }
        }
        return None;
    }
    proof {
        assert(suf@.take(5) =~= suf@.subrange(0, 5));
    }
    let n = scan_name_run(suf, 5);
    if n == 0 {
        return None;
    }
    if 5 + n == len {
        return None;
    }
    if suf[5 + n] != ':' {
        return None;
    }
    let d = scan_digit_run(suf, 6 + n);
    if d == 0 {
        return None;
    }
    if 6 + n + d == len {
        return None;
    }
    if suf[6 + n + d] != '>' {
        return None;
    }
    let name = subvec(suf, 5, 5 + n);
    Some((name, 7 + n + d))
}

/// Match a user mention at the start of `suf`.
fn mention_at_exec(suf: &Vec<char>) -> (r: Option<(Vec<char>, usize)>)
    ensures
        match r {
            Some(p) => mention_at(suf@) == Some((p.0@, p.1 as int)) && 1 <= p.1 <= suf@.len(),
            None => mention_at(suf@) is None,
        },
{
    let open = chars_of("<@!");
    proof {
        reveal_strlit("<@!");
    }
    let len = suf.len();
    if !matches_at(suf, 0, &open) {
        proof {
            if suf@.len() >= 3 {
                assert(suf@.take(3) =~= suf@.subrange(0, 3));
            }
        }
        return None;
    }
    proof {
        assert(suf@.take(3) =~= suf@.subrange(0, 3));
    }
    let d = scan_digit_run(suf, 3);
    if d == 0 {
        return None;
    }
    if 3 + d == len {
        return None;
    }
    if suf[3 + d] != '>' {
        return None;
    }
    let id = subvec(suf, 3, 3 + d);
    Some((id, 4 + d))
}

/// Whether no newline occurs in `s` between `a` (inclusive) and `b`
/// (exclusive).
fn newline_free(s: &Vec<char>, a: usize, b: usize) -> (r: bool)
    requires
        a <= b,
        b <= s@.len(),
    ensures
        r == (forall|k: int| a <= k < b ==> s@[k] != '\n'),
{
    let mut i: usize = a;
    while i < b
        invariant
            a <= i <= b,
            b <= s@.len(),
            forall|k: int| a <= k < i ==> s@[k] != '\n',
        decreases b - i,
    {
        if s[i] == '\n' {
            return false;
        }
        i = i + 1;
    }
    true
}

/// The greediest closing position for a span whose content starts at
/// `cs`, if any.
fn find_close(s: &Vec<char>, d: &Vec<char>, cs: usize) -> (r: Option<usize>)
    requires
        d@.len() > 0,
        cs <= s@.len(),
    ensures
        match r {
            Some(j) => cs < j && j + d@.len() <= s@.len() && close_from(
                s@,
                d@,
                cs as int,
                s@.len() - d@.len(),
            ) == Some(j as int),
            None => close_from(s@, d@, cs as int, s@.len() - d@.len()) is None,
        },
{
    let len = s.len();
    let dlen = d.len();
    if len < dlen || len - dlen <= cs {
        return None;
    }
    let mut j: usize = len - dlen;
    while j > cs
        invariant
            cs <= j,
            j + dlen <= len,
            dlen == d@.len(),
            len == s@.len(),
            dlen > 0,
            close_from(s@, d@, cs as int, len - dlen) == close_from(s@, d@, cs as int, j as int),
        decreases j,
    {
        let m = matches_at(s, j, d);
        let nl = newline_free(s, cs, j);
        if m && nl {
            proof {
                assert(is_close(s@, d@, cs as int, j as int));
            }
            return Some(j);
        }
        proof {
            assert(!is_close(s@, d@, cs as int, j as int));
        }
        j = j - 1;
    }
    None
}

/// Rewrite every greedy `d`-delimited span in `s` to `tag` + content +
/// `</>`.
fn span_pass_exec(s: &Vec<char>, d: &Vec<char>, tag: &Vec<char>) -> (r: Vec<char>)
    requires
        d@.len() > 0,
    ensures
        r@ == span_pass(s@, d@, tag@),
{
    let close = chars_of("</>");
    let len = s.len();
    let mut out: Vec<char> = Vec::new();
    let mut i: usize = 0;
    proof {
        assert(s@.skip(0) =~= s@);
        assert(Seq::<char>::empty() + span_pass(s@, d@, tag@) =~= span_pass(s@, d@, tag@));
    }
    while i < len
        invariant
            i <= len,
            len == s@.len(),
            d@.len() > 0,
            close@ == "</>"@,
            out@ + span_pass(s@.skip(i as int), d@, tag@) == span_pass(s@, d@, tag@),
        decreases len - i,
    {
        let ghost pre = s@.skip(i as int);
        let ghost dlen = d@.len() as int;
        if matches_at(s, i, d) {
            let suf = subvec(s, i, len);
            proof {
                assert(suf@ =~= pre);
                assert(pre.take(dlen) =~= s@.subrange(i as int, i as int + dlen));
            }
            match find_close(&suf, d, d.len()) {
                Some(j) => {
                    proof {
                        assert(span_pass(pre, d@, tag@) == tag@ + pre.subrange(dlen, j as int)
                            + "</>"@ + span_pass(pre.skip(j + dlen), d@, tag@));
                    }
                    let content = subvec(&suf, d.len(), j);
                    let ghost out0 = out@;
                    append_chars(&mut out, tag);
                    append_chars(&mut out, &content);
                    append_chars(&mut out, &close);
                    i = i + j + d.len();
                    proof {
                        assert(pre.skip(j + dlen) =~= s@.skip(i as int));
                        assert(out@ =~= out0 + (tag@ + pre.subrange(dlen, j as int) + "</>"@));
                        assert(out0 + (tag@ + pre.subrange(dlen, j as int) + "</>"@ + span_pass(
                            s@.skip(i as int),
                            d@,
                            tag@,
                        )) =~= out@ + span_pass(s@.skip(i as int), d@, tag@));
                    }
                },
                None => {
                    proof {
                        assert(span_pass(pre, d@, tag@) == seq![pre[0]] + span_pass(
                            pre.skip(1),
                            d@,
                            tag@,
                        ));
                        assert(pre.skip(1) =~= s@.skip(i as int + 1));
                    }
                    let ghost out0 = out@;
                    out.push(s[i]);
                    i = i + 1;
                    proof {
                        assert(out0 + (seq![s@[i - 1]] + span_pass(s@.skip(i as int), d@, tag@))
                            =~= out@ + span_pass(s@.skip(i as int), d@, tag@));
                    }
                },
            }
        } else {
            proof {
                if i as int + dlen <= s@.len() {
                    assert(pre.take(dlen) =~= s@.subrange(i as int, i as int + dlen));
                }
                assert(!(dlen <= pre.len() && pre.take(dlen) == d@));
                assert(span_pass(pre, d@, tag@) == seq![pre[0]] + span_pass(
                    pre.skip(1),
                    d@,
                    tag@,
                ));
                assert(pre.skip(1) =~= s@.skip(i as int + 1));
            }
            let ghost out0 = out@;
            out.push(s[i]);
            i = i + 1;
            proof {
                assert(out0 + (seq![s@[i - 1]] + span_pass(s@.skip(i as int), d@, tag@)) =~= out@
                    + span_pass(s@.skip(i as int), d@, tag@));
            }
        }
    }
    proof {
        assert(s@.skip(len as int) =~= Seq::<char>::empty());
        assert(out@ + Seq::<char>::empty() =~= out@);
    }
    out
}

/// Rewrite every emoji reference in `s`.
fn emoji_pass_exec(s: &Vec<char>) -> (r: Vec<char>)
    ensures
        r@ == emoji_pass(s@),
{
    let open_tag = chars_of("<emoji>");
    let close = chars_of("</>");
    let len = s.len();
    let mut out: Vec<char> = Vec::new();
    let mut i: usize = 0;
    proof {
        assert(s@.skip(0) =~= s@);
        assert(Seq::<char>::empty() + emoji_pass(s@) =~= emoji_pass(s@));
    }
    while i < len
        invariant
            i <= len,
            len == s@.len(),
            open_tag@ == "<emoji>"@,
            close@ == "</>"@,
            out@ + emoji_pass(s@.skip(i as int)) == emoji_pass(s@),
        decreases len - i,
    {
        let ghost pre = s@.skip(i as int);
        let suf = subvec(s, i, len);
        proof {
            assert(suf@ =~= pre);
        }
        match emoji_at_exec(&suf) {
            Some(p) => {
                proof {
                    assert(emoji_pass(pre) == "<emoji>"@ + p.0@ + "</>"@ + emoji_pass(
                        pre.skip(p.1 as int),
                    ));
                }
                let ghost out0 = out@;
                append_chars(&mut out, &open_tag);
                append_chars(&mut out, &p.0);
                append_chars(&mut out, &close);
                i = i + p.1;
                proof {
                    assert(pre.skip((i - (i - p.1)) as int) =~= pre.skip(p.1 as int));
                    assert(pre.skip(p.1 as int) =~= s@.skip(i as int));
                    assert(out@ =~= out0 + ("<emoji>"@ + p.0@ + "</>"@));
                    assert(out0 + ("<emoji>"@ + p.0@ + "</>"@ + emoji_pass(s@.skip(i as int)))
                        =~= out@ + emoji_pass(s@.skip(i as int)));
                }
            },
            None => {
                proof {
                    assert(emoji_pass(pre) == seq![pre[0]] + emoji_pass(pre.skip(1)));
                    assert(pre.skip(1) =~= s@.skip(i as int + 1));
                }
                let ghost out0 = out@;
                out.push(s[i]);
                i = i + 1;
                proof {
                    assert(out0 + (seq![s@[i - 1]] + emoji_pass(s@.skip(i as int))) =~= out@
                        + emoji_pass(s@.skip(i as int)));
                }
            },
        }
    }
    proof {
        assert(s@.skip(len as int) =~= Seq::<char>::empty());
        assert(out@ + Seq::<char>::empty() =~= out@);
    }
    out
}

/// Rewrite every user mention in `s`.
fn mention_pass_exec(s: &Vec<char>) -> (r: Vec<char>)
    ensures
        r@ == mention_pass(s@),
{
    let link_open = chars_of("<link=\"https://discord.com/users/");
    let link_mid = chars_of("\">@");
    let close = chars_of("</>");
    let len = s.len();
    let mut out: Vec<char> = Vec::new();
    let mut i: usize = 0;
    proof {
        assert(s@.skip(0) =~= s@);
        assert(Seq::<char>::empty() + mention_pass(s@) =~= mention_pass(s@));
    }
    while i < len
        invariant
            i <= len,
            len == s@.len(),
            link_open@ == "<link=\"https://discord.com/users/"@,
            link_mid@ == "\">@"@,
            close@ == "</>"@,
            out@ + mention_pass(s@.skip(i as int)) == mention_pass(s@),
        decreases len - i,
    {
        let ghost pre = s@.skip(i as int);
        let suf = subvec(s, i, len);
        proof {
            assert(suf@ =~= pre);
        }
        match mention_at_exec(&suf) {
            Some(p) => {
                proof {
                    assert(mention_pass(pre) == "<link=\"https://discord.com/users/"@ + p.0@
                        + "\">@"@ + p.0@ + "</>"@ + mention_pass(pre.skip(p.1 as int)));
                }
                let ghost out0 = out@;
                append_chars(&mut out, &link_open);
                append_chars(&mut out, &p.0);
                append_chars(&mut out, &link_mid);
                append_chars(&mut out, &p.0);
                append_chars(&mut out, &close);
                i = i + p.1;
                proof {
                    assert(pre.skip(p.1 as int) =~= s@.skip(i as int));
                    assert(out@ =~= out0 + ("<link=\"https://discord.com/users/"@ + p.0@
                        + "\">@"@ + p.0@ + "</>"@));
                    assert(out0 + ("<link=\"https://discord.com/users/"@ + p.0@ + "\">@"@ + p.0@
                        + "</>"@ + mention_pass(s@.skip(i as int))) =~= out@ + mention_pass(
                        s@.skip(i as int),
                    ));
                }
            },
            None => {
                proof {
                    assert(mention_pass(pre) == seq![pre[0]] + mention_pass(pre.skip(1)));
                    assert(pre.skip(1) =~= s@.skip(i as int + 1));
                }
                let ghost out0 = out@;
                out.push(s[i]);
                i = i + 1;
                proof {
                    assert(out0 + (seq![s@[i - 1]] + mention_pass(s@.skip(i as int))) =~= out@
                        + mention_pass(s@.skip(i as int)));
                }
            },
        }
    }
    proof {
        assert(s@.skip(len as int) =~= Seq::<char>::empty());
        assert(out@ + Seq::<char>::empty() =~= out@);
    }
    out
}

/// Convert a chat-service markdown message to the game's chat codes.
pub fn format_to_game(source: String) -> (r: String)
    ensures
        r@ == to_game_spec(source@),
{
    let v0 = chars_of(source.as_str());
    let v1 = emoji_pass_exec(&v0);
    let v2 = mention_pass_exec(&v1);
    let backtick = chars_of("`");
    let code_tag = chars_of("<code>");
    let stars = chars_of("**");
    let bold_tag = chars_of("<b>");
    let star = chars_of("*");
    let italic_tag = chars_of("<i>");
    let underscores = chars_of("__");
    let underline_tag = chars_of("<u>");
    let underscore = chars_of("_");
    proof {
        reveal_strlit("`");
        reveal_strlit("**");
        reveal_strlit("*");
        reveal_strlit("__");
        reveal_strlit("_");
    }
    let v3 = span_pass_exec(&v2, &backtick, &code_tag);
    let v4 = span_pass_exec(&v3, &stars, &bold_tag);
    let v5 = span_pass_exec(&v4, &star, &italic_tag);
    let v6 = span_pass_exec(&v5, &underscores, &underline_tag);
    let v7 = span_pass_exec(&v6, &underscore, &italic_tag);
    string_of(&v7)
}

} // verus!

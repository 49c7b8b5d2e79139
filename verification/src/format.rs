//! Template engine and role resolver.
//!
//! A [`Formatter`] is one `$key` → value substitution; [`format_content`]
//! applies an ordered list of them, each pass rewriting the whole current
//! text, chained so that substituted values are themselves subject to the
//! remaining formatters and the last formatter holding a key fills its
//! placeholder.
//! [`role_text`] resolves a role list against a `name:tag` priority table.

use vstd::prelude::*;
use crate::text::{append_chars, chars_of, eq_chars, matches_at, string_of, subvec};

verus! {

/// One named substitution: every occurrence of `$key` becomes `value`.
#[derive(Debug, Clone)]
pub struct Formatter {
    pub key: String,
    pub value: String,
}

/// The literal text a formatter searches for: `$` followed by its key.
pub open spec fn pattern_of(key: Seq<char>) -> Seq<char> {
    seq!['$'] + key
}

/// Replace every occurrence of `pat` in `s` with `val`, scanning left to
/// right over non-overlapping occurrences.
pub open spec fn replace_spec(s: Seq<char>, pat: Seq<char>, val: Seq<char>) -> Seq<char>
    recommends
        pat.len() > 0,
    decreases s.len(),
{
    if s.len() == 0 {
        Seq::empty()
    } else if pat.len() > 0 && pat.len() <= s.len() && s.take(pat.len() as int) == pat {
        val + replace_spec(s.skip(pat.len() as int), pat, val)
    } else {
        seq![s[0]] + replace_spec(s.skip(1), pat, val)
    }
}

/// Replace every occurrence of `pat` with `val` in `s`.
pub(crate) fn replace_chars(s: &Vec<char>, pat: &Vec<char>, val: &Vec<char>) -> (r: Vec<char>)
    requires
        pat@.len() > 0,
    ensures
        r@ == replace_spec(s@, pat@, val@),
{
    let mut out: Vec<char> = Vec::new();
    let mut i: usize = 0;
    proof {
        assert(s@.skip(0) =~= s@);
        assert(Seq::<char>::empty() + replace_spec(s@, pat@, val@) =~= replace_spec(
            s@,
            pat@,
            val@,
        ));
    }
    while i < s.len()
        invariant
            i <= s@.len(),
            pat@.len() > 0,
            out@ + replace_spec(s@.skip(i as int), pat@, val@) == replace_spec(s@, pat@, val@),
        decreases s@.len() - i,
    {
        let ghost pre = s@.skip(i as int);
        let ghost plen = pat@.len() as int;
        if matches_at(s, i, pat) {
            proof {
                assert(pre.take(plen) =~= s@.subrange(i as int, i as int + plen));
                assert(pre.skip(plen) =~= s@.skip(i as int + plen));
                assert(replace_spec(pre, pat@, val@) == val@ + replace_spec(
                    s@.skip(i as int + plen),
                    pat@,
                    val@,
                ));
            }
            let ghost out0 = out@;
            append_chars(&mut out, val);
            i = i + pat.len();
            proof {
                assert(out0 + (val@ + replace_spec(s@.skip(i as int), pat@, val@)) =~= out@
                    + replace_spec(s@.skip(i as int), pat@, val@));
            }
        } else {
            proof {
                if i as int + plen <= s@.len() {
                    assert(pre.take(plen) =~= s@.subrange(i as int, i as int + plen));
                }
                assert(pre.len() > 0);
                assert(!(plen <= pre.len() && pre.take(plen) == pat@));
                assert(replace_spec(pre, pat@, val@) == seq![pre[0]] + replace_spec(
                    pre.skip(1),
                    pat@,
                    val@,
                ));
                assert(pre.skip(1) =~= s@.skip(i as int + 1));
                assert(pre[0] == s@[i as int]);
            }
            let ghost out0 = out@;
            out.push(s[i]);
            i = i + 1;
            proof {
                assert(out0 + (seq![s@[i - 1]] + replace_spec(s@.skip(i as int), pat@, val@))
                    =~= out@ + replace_spec(s@.skip(i as int), pat@, val@));
            }
        }
    }
    proof {
        assert(s@.skip(s@.len() as int) =~= Seq::<char>::empty());
        assert(out@ + Seq::<char>::empty() =~= out@);
    }
    out
}

impl Formatter {
    /// Replace every occurrence of `$key` in `source` with this
    /// formatter's value.
    pub fn format(&self, source: String) -> (r: String)
        ensures
            r@ == replace_spec(source@, pattern_of(self.key@), self.value@),
    {
        let src = chars_of(source.as_str());
        let mut pat: Vec<char> = Vec::new();
        pat.push('$');
        let keyc = chars_of(self.key.as_str());
        append_chars(&mut pat, &keyc);
        proof {
            assert(pat@ =~= pattern_of(self.key@));
        }
        let val = chars_of(self.value.as_str());
        let out = replace_chars(&src, &pat, &val);
        string_of(&out)
    }
}

/// The text after applying every `(key, value)` substitution: the pairs
/// are applied from the last to the first, so the last pair holding a
/// key fills its placeholder, and earlier pairs then rewrite `$key`
/// text that later values introduced. No escaping exists, so a value
/// holding `$key`-shaped text is substituted further in the same pass.
pub open spec fn render_spec(text: Seq<char>, fmts: Seq<(Seq<char>, Seq<char>)>) -> Seq<char>
    decreases fmts.len(),
{
    if fmts.len() == 0 {
        text
    } else {
        replace_spec(render_spec(text, fmts.skip(1)), pattern_of(fmts[0].0), fmts[0].1)
    }
}

/// The `(key, value)` views of a formatter sequence.
pub open spec fn formatter_views(fs: Seq<Formatter>) -> Seq<(Seq<char>, Seq<char>)> {
    fs.map_values(|f: Formatter| (f.key@, f.value@))
}

/// Format some text with the formatters provided.
pub fn format_content(text: String, formatters: &[Formatter]) -> (r: String)
    ensures
        r@ == render_spec(text@, formatter_views(formatters@)),
{
    let ghost t0 = text@;
    let ghost fviews = formatter_views(formatters@);
    let mut buf = text;
    let mut i: usize = formatters.len();
    proof {
        assert(fviews.skip(fviews.len() as int) =~= Seq::<(Seq<char>, Seq<char>)>::empty());
    }
    while i > 0
        invariant
            i <= formatters@.len(),
            fviews == formatter_views(formatters@),
            fviews.len() == formatters@.len(),
            buf@ == render_spec(t0, fviews.skip(i as int)),
        decreases i,
    {
        i = i - 1;
        buf = formatters[i].format(buf);
        proof {
            let rest = fviews.skip(i as int);
            assert(rest[0] == fviews[i as int]);
            assert(fviews[i as int] == (formatters@[i as int].key@, formatters@[i as int].value@));
            assert(rest.skip(1) =~= fviews.skip(i as int + 1));
        }
    }
    proof {
        assert(fviews.skip(0) =~= fviews);
    }
    buf
}

/// Compose one vector from a list of vectors, keeping order.
pub fn compose_vec<T>(vecs: Vec<Vec<T>>) -> (r: Vec<T>)
    ensures
        r@ == vecs@.map_values(|v: Vec<T>| v@).flatten(),
{
    let ghost orig = vecs@;
    let mut vecs = vecs;
    let mut out: Vec<T> = Vec::new();
    proof {
        assert(Seq::<T>::empty() + orig.map_values(|v: Vec<T>| v@).flatten() =~= orig.map_values(
            |v: Vec<T>| v@,
        ).flatten());
    }
    while vecs.len() > 0
        invariant
            out@ + vecs@.map_values(|v: Vec<T>| v@).flatten() == orig.map_values(
                |v: Vec<T>| v@,
            ).flatten(),
        decreases vecs@.len(),
    {
        let ghost before = vecs@;
        let mut v = vecs.remove(0);
        proof {
            let m = before.map_values(|x: Vec<T>| x@);
            assert(m.len() > 0);
            assert(m.first() == v@);
            assert(m.drop_first() =~= vecs@.map_values(|x: Vec<T>| x@));
            assert(m.flatten() == v@ + vecs@.map_values(|x: Vec<T>| x@).flatten());
        }
        let ghost out0 = out@;
        let ghost v0 = v@;
        out.append(&mut v);
        proof {
            assert(out0 + (v0 + vecs@.map_values(|x: Vec<T>| x@).flatten()) =~= out@
                + vecs@.map_values(|x: Vec<T>| x@).flatten());
        }
    }
    proof {
        assert(vecs@.map_values(|v: Vec<T>| v@).len() == 0);
        assert(out@ + vecs@.map_values(|v: Vec<T>| v@).flatten() =~= out@);
    }
    out
}

/// The view of each string in a sequence.
pub open spec fn views_of(ss: Seq<String>) -> Seq<Seq<char>> {
    ss.map_values(|s: String| s@)
}

/// Index of the first occurrence of `c` in `s`, if any.
pub open spec fn find_char(s: Seq<char>, c: char) -> Option<int>
    decreases s.len(),
{
    if s.len() == 0 {
        None
    } else if s[0] == c {
        Some(0int)
    } else {
        match find_char(s.skip(1), c) {
            Some(i) => Some(i + 1),
            None => None,
        }
    }
}

proof fn lemma_find_char_present(s: Seq<char>, c: char, i: int)
    requires
        0 <= i < s.len(),
        s[i] == c,
        forall|k: int| 0 <= k < i ==> s[k] != c,
    ensures
        find_char(s, c) == Some(i),
    decreases i,
{
    if i > 0 {
        lemma_find_char_present(s.skip(1), c, i - 1);
    }
}

proof fn lemma_find_char_absent(s: Seq<char>, c: char)
    requires
        forall|k: int| 0 <= k < s.len() ==> s[k] != c,
    ensures
        find_char(s, c) is None,
    decreases s.len(),
{
    if s.len() > 0 {
        lemma_find_char_absent(s.skip(1), c);
    }
}

/// A `name:tag` table entry split at its first colon; an entry with no
/// colon is malformed and skipped.
pub open spec fn parse_entry(e: Seq<char>) -> Option<(Seq<char>, Seq<char>)> {
    match find_char(e, ':') {
        Some(i) => Some((e.take(i), e.skip(i + 1))),
        None => None,
    }
}

/// The tag of the first well-formed entry of `list` named `role`, if any.
pub open spec fn lookup_role(role: Seq<char>, list: Seq<Seq<char>>) -> Option<Seq<char>>
    decreases list.len(),
{
    if list.len() == 0 {
        None
    } else {
        match parse_entry(list[0]) {
            Some(p) => if p.0 == role {
                Some(p.1)
            } else {
                lookup_role(role, list.skip(1))
            },
            None => lookup_role(role, list.skip(1)),
        }
    }
}

/// The resolved tag: that of the first role in `roles` that has a table
/// entry, else the `default` entry's tag, else empty.
pub open spec fn role_text_spec(roles: Seq<Seq<char>>, list: Seq<Seq<char>>) -> Seq<char>
    decreases roles.len(),
{
    if roles.len() == 0 {
        match lookup_role("default"@, list) {
            Some(tag) => tag,
            None => Seq::empty(),
        }
    } else {
        match lookup_role(roles[0], list) {
            Some(tag) => tag,
            None => role_text_spec(roles.skip(1), list),
        }
    }
}

/// Find the tag of the first entry of `list` whose name equals `role`.
fn find_role(list: &[String], role: &Vec<char>) -> (r: Option<String>)
    ensures
        match r {
            Some(t) => lookup_role(role@, views_of(list@)) == Some(t@),
            None => lookup_role(role@, views_of(list@)) is None,
        },
{
    let mut j: usize = 0;
    proof {
        assert(views_of(list@).skip(0) =~= views_of(list@));
    }
    while j < list.len()
        invariant
            j <= list@.len(),
            lookup_role(role@, views_of(list@).skip(j as int)) == lookup_role(
                role@,
                views_of(list@),
            ),
        decreases list@.len() - j,
    {
        let ghost rest = views_of(list@).skip(j as int);
        let e = chars_of(list[j].as_str());
        proof {
            assert(rest[0] == e@);
            assert(rest.skip(1) =~= views_of(list@).skip(j as int + 1));
        }
        match scan_char(&e, ':') {
            Some(ci) => {
                let name = subvec(&e, 0, ci);
                proof {
                    assert(name@ =~= e@.take(ci as int));
                }
                if eq_chars(&name, role) {
                    let n = e.len();
                    let tag = subvec(&e, ci + 1, n);
                    proof {
                        assert(tag@ =~= e@.skip(ci as int + 1));
                    }
                    return Some(string_of(&tag));
                }
            },
            None => {},
        }
        j = j + 1;
    }
    proof {
        assert(views_of(list@).skip(list@.len() as int) =~= Seq::<Seq<char>>::empty());
    }
    None
}

/// Index of the first occurrence of `c` in `v`, if any.
pub(crate) fn scan_char(v: &Vec<char>, c: char) -> (r: Option<usize>)
    ensures
        match r {
            Some(i) => i < v@.len() && find_char(v@, c) == Some(i as int),
            None => find_char(v@, c) is None,
        },
{
    let mut i: usize = 0;
    while i < v.len()
        invariant
            i <= v@.len(),
            forall|k: int| 0 <= k < i ==> v@[k] != c,
        decreases v@.len() - i,
    {
        if v[i] == c {
            proof {
                lemma_find_char_present(v@, c, i as int);
            }
            return Some(i);
        }
        i = i + 1;
    }
    proof {
        lemma_find_char_absent(v@, c);
    }
    None
}

/// Whether some well-formed entry of `list` carries `tag`.
pub open spec fn table_has_tag(list: Seq<Seq<char>>, tag: Seq<char>) -> bool {
    exists|i: int|
        0 <= i < list.len() && match parse_entry(#[trigger] list[i]) {
            Some(p) => p.1 == tag,
            None => false,
        }
}

proof fn lemma_lookup_in_table(role: Seq<char>, list: Seq<Seq<char>>)
    ensures
        match lookup_role(role, list) {
            Some(t) => table_has_tag(list, t),
            None => true,
        },
    decreases list.len(),
{
    if list.len() > 0 {
        match parse_entry(list[0]) {
            Some(p) => {
                if p.0 == role {
                } else {
                    lemma_lookup_in_table(role, list.skip(1));
                    if lookup_role(role, list.skip(1)) is Some {
                        let t = lookup_role(role, list.skip(1)).unwrap();
                        let i = choose|i: int|
                            0 <= i < list.skip(1).len() && match parse_entry(
                                #[trigger] list.skip(1)[i],
                            ) {
                                Some(q) => q.1 == t,
                                None => false,
                            };
                        assert(list.skip(1)[i] == list[i + 1]);
                    }
                }
            },
            None => {
                lemma_lookup_in_table(role, list.skip(1));
                if lookup_role(role, list.skip(1)) is Some {
                    let t = lookup_role(role, list.skip(1)).unwrap();
                    let i = choose|i: int|
                        0 <= i < list.skip(1).len() && match parse_entry(
                            #[trigger] list.skip(1)[i],
                        ) {
                            Some(q) => q.1 == t,
                            None => false,
                        };
                    assert(list.skip(1)[i] == list[i + 1]);
                }
            },
        }
    }
}

/// Law: the resolver never yields a tag that is not in the table. For
/// every role list and priority table, the resolved text is either empty
/// or the tag of some well-formed entry of the table.
pub proof fn lemma_role_text_in_table(roles: Seq<Seq<char>>, list: Seq<Seq<char>>)
    ensures
        role_text_spec(roles, list).len() == 0 || table_has_tag(list, role_text_spec(roles, list)),
    decreases roles.len(),
{
    if roles.len() == 0 {
        lemma_lookup_in_table("default"@, list);
    } else {
        lemma_lookup_in_table(roles[0], list);
        if lookup_role(roles[0], list) is None {
            lemma_role_text_in_table(roles.skip(1), list);
        }
    }
}

/// With a list of roles, determine the display tag of the highest role:
/// the first role with an entry in `list` wins, else the `default` entry,
/// else the empty string.
pub fn role_text(roles: &[String], list: &[String]) -> (r: String)
    ensures
        r@ == role_text_spec(views_of(roles@), views_of(list@)),
{
    let mut i: usize = 0;
    proof {
        assert(views_of(roles@).skip(0) =~= views_of(roles@));
    }
    while i < roles.len()
        invariant
            i <= roles@.len(),
            role_text_spec(views_of(roles@).skip(i as int), views_of(list@)) == role_text_spec(
                views_of(roles@),
                views_of(list@),
            ),
        decreases roles@.len() - i,
    {
        let ghost rest = views_of(roles@).skip(i as int);
        let rolec = chars_of(roles[i].as_str());
        proof {
            assert(rest[0] == rolec@);
            assert(rest.skip(1) =~= views_of(roles@).skip(i as int + 1));
        }
        match find_role(list, &rolec) {
            Some(tag) => {
                return tag;
            },
            None => {},
        }
        i = i + 1;
    }
    proof {
        assert(views_of(roles@).skip(roles@.len() as int) =~= Seq::<Seq<char>>::empty());
    }
    let defc = chars_of("default");
    match find_role(list, &defc) {
        Some(tag) => tag,
        None => String::new(),
    }
}

} // verus!

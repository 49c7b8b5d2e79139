//! Verification ledger: the identity-verification state machine.
//!
//! Each game identity moves through `Unverified → Pending(code) →
//! Verified`, or back to `Unverified` when a pending request is
//! abandoned. The ledger owns the pending entries; completed identity
//! pairs live in an external store, so the operations that consult the
//! store take its answer as an argument and the callers perform the
//! store writes that the results call for.

use vstd::prelude::*;
use rand::Rng;

verus! {

/// A code character: an ASCII letter or digit.
pub open spec fn is_code_char(c: char) -> bool {
    (('A' as u32) <= (c as u32) && (c as u32) <= ('Z' as u32)) || (('a' as u32) <= (c as u32)
        && (c as u32) <= ('z' as u32)) || (('0' as u32) <= (c as u32) && (c as u32) <= (
    '9' as u32))
}

/// Relies on rand's `thread_rng` with the `Alphanumeric` distribution:
/// every sampled byte is an ASCII letter or digit, and six are drawn.
/// Nothing is assumed about which ones.
#[verifier::external_body]
fn fresh_code() -> (r: String)
    ensures
        r@.len() == 6,
        forall|k: int| 0 <= k < r@.len() ==> is_code_char(r@[k]),
{
    rand::thread_rng()
        .sample_iter(&rand::distributions::Alphanumeric)
        .take(6)
        .map(char::from)
        .collect()
}

/// Index of the first entry whose game identity is `gid`, if any.
pub open spec fn find_game(s: Seq<(Seq<char>, Seq<char>)>, gid: Seq<char>) -> Option<int>
    decreases s.len(),
{
    if s.len() == 0 {
        None
    } else if s[0].0 == gid {
        Some(0int)
    } else {
        match find_game(s.skip(1), gid) {
            Some(i) => Some(i + 1),
            None => None,
        }
    }
}

/// Index of the first entry whose code is `code`, if any.
pub open spec fn find_code(s: Seq<(Seq<char>, Seq<char>)>, code: Seq<char>) -> Option<int>
    decreases s.len(),
{
    if s.len() == 0 {
        None
    } else if s[0].1 == code {
        Some(0int)
    } else {
        match find_code(s.skip(1), code) {
            Some(i) => Some(i + 1),
            None => None,
        }
    }
}

pub proof fn lemma_find_game_present(s: Seq<(Seq<char>, Seq<char>)>, gid: Seq<char>, i: int)
    requires
        0 <= i < s.len(),
        s[i].0 == gid,
        forall|k: int| 0 <= k < i ==> s[k].0 != gid,
    ensures
        find_game(s, gid) == Some(i),
    decreases i,
{
    if i > 0 {
        lemma_find_game_present(s.skip(1), gid, i - 1);
    }
}

pub proof fn lemma_find_game_absent(s: Seq<(Seq<char>, Seq<char>)>, gid: Seq<char>)
    requires
        forall|k: int| 0 <= k < s.len() ==> s[k].0 != gid,
    ensures
        find_game(s, gid) is None,
    decreases s.len(),
{
    if s.len() > 0 {
        lemma_find_game_absent(s.skip(1), gid);
    }
}

/// What a found index means: the entry holds `gid` and no earlier one
/// does.
pub proof fn lemma_find_game_spec(s: Seq<(Seq<char>, Seq<char>)>, gid: Seq<char>)
    ensures
        match find_game(s, gid) {
            Some(i) => 0 <= i < s.len() && s[i].0 == gid && forall|k: int|
                0 <= k < i ==> s[k].0 != gid,
            None => forall|k: int| 0 <= k < s.len() ==> s[k].0 != gid,
        },
    decreases s.len(),
{
    if s.len() > 0 {
        lemma_find_game_spec(s.skip(1), gid);
        if s[0].0 != gid {
            match find_game(s.skip(1), gid) {
                Some(i) => {
                    assert(s.skip(1)[i] == s[i + 1]);
                    assert forall|k: int| 0 <= k < i + 1 implies s[k].0 != gid by {
                        if k > 0 {
                            assert(s.skip(1)[k - 1] == s[k]);
                        }
                    }
                },
                None => {
                    assert forall|k: int| 0 <= k < s.len() implies s[k].0 != gid by {
                        if k > 0 {
                            assert(s.skip(1)[k - 1] == s[k]);
                        }
                    }
                },
            }
        }
    }
}

pub proof fn lemma_find_code_present(s: Seq<(Seq<char>, Seq<char>)>, code: Seq<char>, i: int)
    requires
        0 <= i < s.len(),
        s[i].1 == code,
        forall|k: int| 0 <= k < i ==> s[k].1 != code,
    ensures
        find_code(s, code) == Some(i),
    decreases i,
{
    if i > 0 {
        lemma_find_code_present(s.skip(1), code, i - 1);
    }
}

pub proof fn lemma_find_code_absent(s: Seq<(Seq<char>, Seq<char>)>, code: Seq<char>)
    requires
        forall|k: int| 0 <= k < s.len() ==> s[k].1 != code,
    ensures
        find_code(s, code) is None,
    decreases s.len(),
{
    if s.len() > 0 {
        lemma_find_code_absent(s.skip(1), code);
    }
}

/// What a found index means: the entry holds `code` and no earlier one
/// does.
pub proof fn lemma_find_code_spec(s: Seq<(Seq<char>, Seq<char>)>, code: Seq<char>)
    ensures
        match find_code(s, code) {
            Some(i) => 0 <= i < s.len() && s[i].1 == code && forall|k: int|
                0 <= k < i ==> s[k].1 != code,
            None => forall|k: int| 0 <= k < s.len() ==> s[k].1 != code,
        },
    decreases s.len(),
{
    if s.len() > 0 {
        lemma_find_code_spec(s.skip(1), code);
        if s[0].1 != code {
            match find_code(s.skip(1), code) {
                Some(i) => {
                    assert(s.skip(1)[i] == s[i + 1]);
                    assert forall|k: int| 0 <= k < i + 1 implies s[k].1 != code by {
                        if k > 0 {
                            assert(s.skip(1)[k - 1] == s[k]);
                        }
                    }
                },
                None => {
                    assert forall|k: int| 0 <= k < s.len() implies s[k].1 != code by {
                        if k > 0 {
                            assert(s.skip(1)[k - 1] == s[k]);
                        }
                    }
                },
            }
        }
    }
}

/// Why a verification request was refused.
#[derive(Debug)]
pub enum RequestError {
    /// The identity is already linked in the external store.
    AlreadyVerified,
    /// A request is already pending; the existing code is returned so the
    /// caller can show it again.
    AlreadyPending(String),
}

/// Why a code submission was refused.
#[derive(Debug)]
pub enum SubmitError {
    /// No pending entry holds the submitted code.
    NoSuchCode,
}

/// The pending verification entries, one per game identity at most.
pub struct Ledger {
    pending: Vec<(String, String)>,
}

impl Ledger {
    /// The pending entries as (game identity, code) pairs, in insertion
    /// order.
    pub closed spec fn entries(&self) -> Seq<(Seq<char>, Seq<char>)> {
        self.pending@.map_values(|p: (String, String)| (p.0@, p.1@))
    }

    /// Well-formed: at most one pending entry per game identity.
    pub open spec fn wf(&self) -> bool {
        forall|i: int, j: int|
            0 <= i < j < self.entries().len() ==> (#[trigger] self.entries()[i]).0 != (
            #[trigger] self.entries()[j]).0
    }

    /// An empty ledger.
    pub fn new() -> (r: Ledger)
        ensures
            r.entries().len() == 0,
            r.wf(),
    {
        let r = Ledger { pending: Vec::new() };
        proof {
            assert(r.entries() =~= Seq::<(Seq<char>, Seq<char>)>::empty());
        }
        r
    }

    /// Index of the first pending entry for `game_id`, if any.
    fn find_game_exec(&self, game_id: &String) -> (r: Option<usize>)
        ensures
            match r {
                Some(i) => i < self.entries().len() && find_game(self.entries(), game_id@)
                    == Some(i as int),
                None => find_game(self.entries(), game_id@) is None,
            },
    {
        let mut k: usize = 0;
        let n = self.pending.len();
        while k < n
            invariant
                k <= n,
                n == self.entries().len(),
                forall|j: int| 0 <= j < k ==> (#[trigger] self.entries()[j]).0 != game_id@,
            decreases n - k,
        {
            if self.pending[k].0.eq(game_id) {
                proof {
                    lemma_find_game_present(self.entries(), game_id@, k as int);
                }
                return Some(k);
            }
            k = k + 1;
        }
        proof {
            lemma_find_game_absent(self.entries(), game_id@);
        }
        None
    }

    /// Index of the first pending entry holding `code`, if any.
    fn find_code_exec(&self, code: &String) -> (r: Option<usize>)
        ensures
            match r {
                Some(i) => i < self.entries().len() && find_code(self.entries(), code@) == Some(
                    i as int,
                ),
                None => find_code(self.entries(), code@) is None,
            },
    {
        let mut k: usize = 0;
        let n = self.pending.len();
        while k < n
            invariant
                k <= n,
                n == self.entries().len(),
                forall|j: int| 0 <= j < k ==> (#[trigger] self.entries()[j]).1 != code@,
            decreases n - k,
        {
            if self.pending[k].1.eq(code) {
                proof {
                    lemma_find_code_present(self.entries(), code@, k as int);
                }
                return Some(k);
            }
            k = k + 1;
        }
        proof {
            lemma_find_code_absent(self.entries(), code@);
        }
        None
    }

    /// Begin verification for `game_id`. The caller first consults the
    /// external store and passes whether the identity is already linked;
    /// the store is authoritative. An existing pending entry is returned
    /// unchanged (an idempotent retry); otherwise a fresh six-character
    /// alphanumeric code is generated and pended.
    pub fn request(&mut self, game_id: &String, already_linked: bool) -> (r: Result<
        String,
        RequestError,
    >)
        requires
            old(self).wf(),
        ensures
            final(self).wf(),
            already_linked ==> r == Err::<String, RequestError>(RequestError::AlreadyVerified)
                && final(self).entries() == old(self).entries(),
            !already_linked ==> match find_game(old(self).entries(), game_id@) {
                Some(i) => final(self).entries() == old(self).entries() && (match r {
                    Err(RequestError::AlreadyPending(c)) => c@ == old(self).entries()[i].1,
                    _ => false,
                }),
                None => match r {
                    Ok(c) => c@.len() == 6 && (forall|k: int|
                        0 <= k < c@.len() ==> is_code_char(c@[k]))
                        && final(self).entries() == old(self).entries().push((game_id@, c@)),
                    _ => false,
                },
            },
    {
        if already_linked {
            return Err(RequestError::AlreadyVerified);
        }
        match self.find_game_exec(game_id) {
            Some(i) => {
                let existing = self.pending[i].1.clone();
                proof {
                    lemma_find_game_spec(self.entries(), game_id@);
                }
                Err(RequestError::AlreadyPending(existing))
            },
            None => {
                let code = fresh_code();
                let ghost before = self.entries();
                self.pending.push((game_id.clone(), code.clone()));
                proof {
                    assert(self.entries() =~= before.push((game_id@, code@)));
                    lemma_find_game_spec(before, game_id@);
                    assert forall|i: int, j: int|
                        0 <= i < j < self.entries().len() implies (
                    #[trigger] self.entries()[i]).0 != (#[trigger] self.entries()[j]).0 by {
                        if j < before.len() {
                            assert(before[i].0 != before[j].0);
                        } else {
                            assert(before[i].0 != game_id@);
                        }
                    }
                }
                Ok(code)
            },
        }
    }

    /// Consume the submitted code: the first pending entry holding it is
    /// removed and its game identity returned, so that at most one
    /// submission per code can succeed. The caller then persists the
    /// identity pair in both directions.
    pub fn submit(&mut self, code: &String) -> (r: Result<String, SubmitError>)
        requires
            old(self).wf(),
        ensures
            final(self).wf(),
            match find_code(old(self).entries(), code@) {
                Some(i) => final(self).entries() == old(self).entries().remove(i) && (match r {
                    Ok(g) => g@ == old(self).entries()[i].0,
                    _ => false,
                }),
                None => r == Err::<String, SubmitError>(SubmitError::NoSuchCode)
                    && final(self).entries() == old(self).entries(),
            },
    {
        match self.find_code_exec(code) {
            Some(i) => {
                let ghost before = self.entries();
                let entry = self.pending.remove(i);
                proof {
                    assert(self.entries() =~= before.remove(i as int));
                    assert forall|a: int, b: int|
                        0 <= a < b < self.entries().len() implies (
                    #[trigger] self.entries()[a]).0 != (#[trigger] self.entries()[b]).0 by {
                        let a0: int = if a < i { a } else { a + 1 };
                        let b0: int = if b < i { b } else { b + 1 };
                        assert(self.entries()[a] == before[a0]);
                        assert(self.entries()[b] == before[b0]);
                        assert(before[a0].0 != before[b0].0);
                    }
                }
                Ok(entry.0)
            },
            None => Err(SubmitError::NoSuchCode),
        }
    }

    /// Drop any pending entry for `game_id`; a no-op when none exists.
    /// Afterwards nothing is pending for that identity, so a later
    /// request starts fresh.
    pub fn abandon(&mut self, game_id: &String)
        requires
            old(self).wf(),
        ensures
            final(self).wf(),
            match find_game(old(self).entries(), game_id@) {
                Some(i) => final(self).entries() == old(self).entries().remove(i),
                None => final(self).entries() == old(self).entries(),
            },
            find_game(final(self).entries(), game_id@) is None,
    {
        match self.find_game_exec(game_id) {
            Some(i) => {
                let ghost before = self.entries();
                let _ = self.pending.remove(i);
                proof {
                    lemma_find_game_spec(before, game_id@);
                    assert(self.entries() =~= before.remove(i as int));
                    assert forall|a: int, b: int|
                        0 <= a < b < self.entries().len() implies (
                    #[trigger] self.entries()[a]).0 != (#[trigger] self.entries()[b]).0 by {
                        let a0: int = if a < i { a } else { a + 1 };
                        let b0: int = if b < i { b } else { b + 1 };
                        assert(self.entries()[a] == before[a0]);
                        assert(self.entries()[b] == before[b0]);
                        assert(before[a0].0 != before[b0].0);
                    }
                    assert forall|k: int| 0 <= k < self.entries().len() implies (
                    #[trigger] self.entries()[k]).0 != game_id@ by {
                        let k0: int = if k < i { k } else { k + 1 };
                        assert(self.entries()[k] == before[k0]);
                    }
                    lemma_find_game_absent(self.entries(), game_id@);
                }
            },
            None => {
                proof {
                    lemma_find_game_spec(self.entries(), game_id@);
                }
            },
        }
    }
}

/// Law: requesting twice in a row returns the same code. After a fresh
/// request pends `code` for `game_id`, the next lookup for `game_id`
/// finds exactly that entry, so a second request reports the same code.
pub proof fn lemma_request_idempotent(
    s: Seq<(Seq<char>, Seq<char>)>,
    game_id: Seq<char>,
    code: Seq<char>,
)
    requires
        find_game(s, game_id) is None,
    ensures
        find_game(s.push((game_id, code)), game_id) == Some(s.len() as int),
        s.push((game_id, code))[s.len() as int].1 == code,
{
    lemma_find_game_spec(s, game_id);
    lemma_find_game_present(s.push((game_id, code)), game_id, s.len() as int);
}

/// Law: a code is consumed by at most one successful submission. When a
/// single pending entry holds `code`, the state after the successful
/// submission holds none, so an immediate second submission fails.
pub proof fn lemma_submit_consumes(s: Seq<(Seq<char>, Seq<char>)>, code: Seq<char>, i: int)
    requires
        find_code(s, code) == Some(i),
        forall|k: int| 0 <= k < s.len() && k != i ==> (#[trigger] s[k]).1 != code,
    ensures
        find_code(s.remove(i), code) is None,
{
    lemma_find_code_spec(s, code);
    assert forall|k: int| 0 <= k < s.remove(i).len() implies (#[trigger] s.remove(i)[k]).1
        != code by {
        let k0: int = if k < i { k } else { k + 1 };
        assert(s.remove(i)[k] == s[k0]);
    }
    lemma_find_code_absent(s.remove(i), code);
}

} // verus!

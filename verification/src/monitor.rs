//! Batch-level orchestration logic: which accounts a run covers, the
//! deterministic ordering of the collected results, and the batch
//! summary counts. The concurrent fan-out itself — tasks, a semaphore,
//! progress events — is the caller's runtime plumbing; every decision
//! about the batch's content is made here.

use vstd::prelude::*;
use crate::models::{Account, CheckResult};
use crate::text::{lemma_lex_le_trans, lex_le, str_le};

verus! {

/// The accounts a batch covers: all of them, or the one the caller
/// named.
pub open spec fn select_spec(s: Seq<Account>, target: Option<Seq<char>>) -> Seq<Account>
    decreases s.len(),
{
    if s.len() == 0 {
        Seq::empty()
    } else {
        let rest = select_spec(s.drop_first(), target);
        let keep = match target {
            Some(t) => s[0].username@ == t,
            None => true,
        };
        if keep {
            seq![s[0]] + rest
        } else {
            rest
        }
    }
}

proof fn lemma_select_snoc(s: Seq<Account>, e: Account, target: Option<Seq<char>>)
    ensures
        select_spec(s.push(e), target) == select_spec(s, target) + (if (match target {
            Some(t) => e.username@ == t,
            None => true,
        }) {
            seq![e]
        } else {
            Seq::<Account>::empty()
        }),
    decreases s.len(),
{
    let t = s.push(e);
    let tail = if (match target {
        Some(x) => e.username@ == x,
        None => true,
    }) {
        seq![e]
    } else {
        Seq::<Account>::empty()
    };
    if s.len() == 0 {
        assert(t[0] == e);
        assert(t.drop_first() =~= Seq::<Account>::empty());
        assert(select_spec(Seq::<Account>::empty(), target) =~= Seq::<Account>::empty());
        assert(select_spec(t, target) =~= tail);
        assert(select_spec(s, target) + tail =~= tail);
    } else {
        assert(t[0] == s[0]);
        assert(t.drop_first() =~= s.drop_first().push(e));
        lemma_select_snoc(s.drop_first(), e, target);
        let keep0 = match target {
            Some(x) => s[0].username@ == x,
            None => true,
        };
        if keep0 {
            assert(seq![s[0]] + (select_spec(s.drop_first(), target) + tail) =~= (seq![s[0]]
                + select_spec(s.drop_first(), target)) + tail);
        }
    }
}

/// Keeps the accounts a run covers: with a target name, exactly the
/// accounts bearing that name, in their given order; without one, all.
pub fn select_accounts(accounts: Vec<Account>, target: Option<&str>) -> (r: Vec<Account>)
    ensures
        r@ == select_spec(accounts@, match target {
            Some(t) => Some(t@),
            None => None,
        }),
{
    let ghost gt: Option<Seq<char>> = match target {
        Some(t) => Some(t@),
        None => None,
    };
    let ghost src = accounts@;
    let mut out: Vec<Account> = Vec::new();
    let n = accounts.len();
    let mut i: usize = 0;
    proof {
        assert(src.take(0) =~= Seq::<Account>::empty());
        assert(out@ =~= select_spec(src.take(0), gt));
    }
    while i < n
        invariant
            i <= n,
            n == src.len(),
            accounts@ == src,
            gt == (match target {
                Some(t) => Some(t@),
                None => None,
            }),
            out@ == select_spec(src.take(i as int), gt),
        decreases n - i,
    {
        let keep = match target {
            Some(t) => crate::strmap::str_eq(accounts[i].username.as_str(), t),
            None => true,
        };
        if keep {
            out.push(accounts[i].clone());
        }
        proof {
            lemma_select_snoc(src.take(i as int), src[i as int], gt);
            assert(src.take(i + 1) =~= src.take(i as int).push(src[i as int]));
            assert(out@ =~= select_spec(src.take(i + 1), gt));
        }
        i = i + 1;
    }
    proof {
        assert(src.take(n as int) =~= src);
    }
    out
}

/// Results in deterministic order: ascending by account identifier.
pub open spec fn results_sorted(s: Seq<CheckResult>) -> bool {
    forall|i: int, j: int|
        0 <= i < j < s.len() ==> lex_le((#[trigger] s[i]).username@, (#[trigger] s[j]).username@)
}

/// Sorts a batch's results by account identifier, keeping exactly the
/// same results: the output is a permutation of the input.
pub fn sort_results(results: Vec<CheckResult>) -> (r: Vec<CheckResult>)
    ensures
        results_sorted(r@),
        r@.to_multiset() == results@.to_multiset(),
        r@.len() == results@.len(),
{
    let ghost src = results@;
    let n = results.len();
    let mut out: Vec<CheckResult> = Vec::new();
    let mut i: usize = 0;
    proof {
        assert(src.take(0) =~= Seq::<CheckResult>::empty());
        src.take(0).to_multiset_ensures();
        src.to_multiset_ensures();
        out@.to_multiset_ensures();
        assert(out@.to_multiset() =~= src.take(0).to_multiset());
    }
    while i < n
        invariant
            i <= n,
            n == src.len(),
            results@ == src,
            out@.len() == i,
            results_sorted(out@),
            out@.to_multiset() == src.take(i as int).to_multiset(),
        decreases n - i,
    {
        let item = results[i].clone();
        let m = out.len();
        let mut pos: usize = 0;
        while pos < m
            invariant
                pos <= m,
                m == out@.len(),
                forall|j: int| 0 <= j < pos ==> lex_le((#[trigger] out@[j]).username@, item.username@),
                item == src[i as int],
                i < n,
                n == src.len(),
                results_sorted(out@),
            ensures
                pos <= m,
                m == out@.len(),
                forall|j: int| 0 <= j < pos ==> lex_le((#[trigger] out@[j]).username@, item.username@),
                item == src[i as int],
                results_sorted(out@),
                pos == m || !lex_le(out@[pos as int].username@, item.username@),
            decreases m - pos,
        {
            if !str_le(out[pos].username.as_str(), item.username.as_str()) {
                break;
            }
            pos = pos + 1;
        }
        let ghost before = out@;
        out.insert(pos, item);
        proof {
            assert forall|a: int, b: int| 0 <= a < b < out@.len() implies lex_le(
                (#[trigger] out@[a]).username@,
                (#[trigger] out@[b]).username@,
            ) by {
                let p = pos as int;
                let ua = out@[a].username@;
                let ub = out@[b].username@;
                if a < p && b == p {
                    assert(out@[a] == before[a]);
                } else if a == p && b > p {
                    assert(out@[b] == before[b - 1]);
                    assert(!lex_le(before[p].username@, src[i as int].username@));
                    assert(lex_le(src[i as int].username@, before[p].username@)) by {
                        crate::text::lemma_lex_lt_asym(
                            src[i as int].username@,
                            before[p].username@,
                        );
                    }
                    if b - 1 == p {
                    } else {
                        assert(lex_le(before[p].username@, before[b - 1].username@));
                        lemma_lex_le_trans(
                            src[i as int].username@,
                            before[p].username@,
                            before[b - 1].username@,
                        );
                    }
                } else if a < p && b > p {
                    assert(out@[a] == before[a] && out@[b] == before[b - 1]);
                    assert(lex_le(before[a].username@, before[b - 1].username@));
                } else if b < p {
                    assert(out@[a] == before[a] && out@[b] == before[b]);
                } else if a > p {
                    assert(out@[a] == before[a - 1] && out@[b] == before[b - 1]);
                }
            }
            before.to_multiset_ensures();
            let inserted = before.insert(pos as int, src[i as int]);
            assert(out@ == inserted);
            assert(inserted.remove(pos as int) =~= before);
            inserted.to_multiset_ensures();
            assert(inserted.remove(pos as int).to_multiset() =~= inserted.to_multiset().remove(
                src[i as int],
            ));
            assert(inserted[pos as int] == src[i as int]);
            assert(inserted.contains(src[i as int]));
            assert(inserted.to_multiset().count(src[i as int]) > 0);
            assert(out@.to_multiset() =~= before.to_multiset().insert(src[i as int])) by {
                assert(inserted.to_multiset().remove(src[i as int]).insert(src[i as int])
                    =~= inserted.to_multiset());
            }
            src.take(i as int).to_multiset_ensures();
            assert(src.take(i + 1) =~= src.take(i as int).push(src[i as int]));
            assert(src.take(i + 1).to_multiset() =~= src.take(i as int).to_multiset().insert(
                src[i as int],
            ));
        }
        i = i + 1;
    }
    proof {
        assert(src.take(n as int) =~= src);
    }
    out
}

/// How many results report success.
pub open spec fn success_count_spec(s: Seq<CheckResult>) -> int
    decreases s.len(),
{
    if s.len() == 0 {
        0
    } else {
        success_count_spec(s.drop_first()) + if s[0].success {
            1int
        } else {
            0int
        }
    }
}

proof fn lemma_success_count_snoc(s: Seq<CheckResult>, e: CheckResult)
    ensures
        success_count_spec(s.push(e)) == success_count_spec(s) + if e.success {
            1int
        } else {
            0int
        },
    decreases s.len(),
{
    let t = s.push(e);
    if s.len() == 0 {
        assert(t[0] == e);
        assert(t.drop_first() =~= Seq::<CheckResult>::empty());
        assert(success_count_spec(Seq::<CheckResult>::empty()) == 0);
        assert(success_count_spec(s) == 0);
    } else {
        assert(t[0] == s[0]);
        assert(t.drop_first() =~= s.drop_first().push(e));
        lemma_success_count_snoc(s.drop_first(), e);
    }
}

proof fn lemma_success_count_bounds(s: Seq<CheckResult>)
    ensures
        0 <= success_count_spec(s) <= s.len(),
    decreases s.len(),
{
    if s.len() > 0 {
        lemma_success_count_bounds(s.drop_first());
    }
}

/// The batch summary: how many results succeeded and how many failed.
pub fn summarize(results: &Vec<CheckResult>) -> (r: (usize, usize))
    ensures
        r.0 == success_count_spec(results@),
        r.1 == results@.len() - success_count_spec(results@),
{
    let n = results.len();
    let mut ok: usize = 0;
    let mut i: usize = 0;
    proof {
        assert(results@.take(0) =~= Seq::<CheckResult>::empty());
        lemma_success_count_bounds(results@.take(0));
    }
    while i < n
        invariant
            i <= n,
            n == results@.len(),
            ok == success_count_spec(results@.take(i as int)),
            ok <= i,
        decreases n - i,
    {
        proof {
            lemma_success_count_snoc(results@.take(i as int), results@[i as int]);
            assert(results@.take(i + 1) =~= results@.take(i as int).push(results@[i as int]));
        }
        if results[i].success {
            ok = ok + 1;
        }
        i = i + 1;
    }
    proof {
        assert(results@.take(n as int) =~= results@);
    }
    (ok, n - ok)
}

/// What the acquire poll loop does next: a ticket in hand proceeds, an
/// exhausted deadline gives up, anything else waits outside the lock
/// and retries.
#[derive(Clone, Copy, PartialEq, Eq, Structural, Debug)]
pub enum PollStep {
    Proceed,
    Wait,
    TimedOut,
}

/// The pool-acquire poll policy: non-blocking attempts with a bounded
/// deadline, the wait happening strictly outside any lock.
pub fn acquire_poll_step(got_ticket: bool, elapsed_ms: u64, deadline_ms: u64) -> (r: PollStep)
    ensures
        got_ticket ==> r == PollStep::Proceed,
        !got_ticket && elapsed_ms >= deadline_ms ==> r == PollStep::TimedOut,
        !got_ticket && elapsed_ms < deadline_ms ==> r == PollStep::Wait,
{
    if got_ticket {
        PollStep::Proceed
    } else if elapsed_ms >= deadline_ms {
        PollStep::TimedOut
    } else {
        PollStep::Wait
    }
}

} // verus!

//! The runtime file layout and the account-list edit the tool performs
//! itself. Reading and writing the files is the caller's part; the
//! paths and the list surgery are fixed here.

use vstd::prelude::*;
use vstd::string::StringExecFns;
use crate::models::Account;

verus! {

/// Where the tool's runtime files live under one configuration
/// directory.
#[derive(Debug)]
pub struct RuntimeFiles {
    pub config_dir: String,
    pub config_file: String,
    pub credentials_file: String,
    pub balance_cache_file: String,
    pub daily_web_state_file: String,
}

impl RuntimeFiles {
    /// The standard file names under the given directory.
    pub fn new(config_dir: String) -> (r: Self)
        ensures
            r.config_dir@ == config_dir@,
            r.config_file@ == config_dir@ + "/config.json"@,
            r.credentials_file@ == config_dir@ + "/credentials.txt"@,
            r.balance_cache_file@ == config_dir@ + "/balance_cache.json"@,
            r.daily_web_state_file@ == config_dir@ + "/daily_web_login_state.json"@,
    {
        RuntimeFiles {
            config_file: config_dir.clone().concat("/config.json"),
            credentials_file: config_dir.clone().concat("/credentials.txt"),
            balance_cache_file: config_dir.clone().concat("/balance_cache.json"),
            daily_web_state_file: config_dir.clone().concat("/daily_web_login_state.json"),
            config_dir,
        }
    }
}

/// The account list with every entry of one name removed.
pub open spec fn remove_spec(s: Seq<Account>, u: Seq<char>) -> Seq<Account>
    decreases s.len(),
{
    if s.len() == 0 {
        Seq::empty()
    } else {
        let rest = remove_spec(s.drop_first(), u);
        if s[0].username@ == u {
            rest
        } else {
            seq![s[0]] + rest
        }
    }
}

proof fn lemma_remove_snoc(s: Seq<Account>, e: Account, u: Seq<char>)
    ensures
        remove_spec(s.push(e), u) == remove_spec(s, u) + (if e.username@ == u {
            Seq::<Account>::empty()
        } else {
            seq![e]
        }),
    decreases s.len(),
{
    let t = s.push(e);
    let tail = if e.username@ == u {
        Seq::<Account>::empty()
    } else {
        seq![e]
    };
    if s.len() == 0 {
        assert(t[0] == e);
        assert(t.drop_first() =~= Seq::<Account>::empty());
        assert(remove_spec(Seq::<Account>::empty(), u) =~= Seq::<Account>::empty());
        assert(remove_spec(t, u) =~= tail);
        assert(remove_spec(s, u) + tail =~= tail);
    } else {
        assert(t[0] == s[0]);
        assert(t.drop_first() =~= s.drop_first().push(e));
        lemma_remove_snoc(s.drop_first(), e, u);
        if s[0].username@ != u {
            assert(seq![s[0]] + (remove_spec(s.drop_first(), u) + tail) =~= (seq![s[0]]
                + remove_spec(s.drop_first(), u)) + tail);
        }
    }
}

/// Drops every entry bearing the given name from the account list;
/// reports whether anything was removed, so the caller knows whether to
/// rewrite the credentials file.
pub fn remove_account(accounts: Vec<Account>, username: &str) -> (r: (Vec<Account>, bool))
    ensures
        r.0@ == remove_spec(accounts@, username@),
        r.1 == (r.0@.len() != accounts@.len()),
{
    let ghost src = accounts@;
    let n = accounts.len();
    let mut out: Vec<Account> = Vec::new();
    let mut i: usize = 0;
    proof {
        assert(src.take(0) =~= Seq::<Account>::empty());
        assert(out@ =~= remove_spec(src.take(0), username@));
    }
    while i < n
        invariant
            i <= n,
            n == src.len(),
            accounts@ == src,
            out@ == remove_spec(src.take(i as int), username@),
            out@.len() <= i,
        decreases n - i,
    {
        if !crate::strmap::str_eq(accounts[i].username.as_str(), username) {
            out.push(accounts[i].clone());
        }
        proof {
            lemma_remove_snoc(src.take(i as int), src[i as int], username@);
            assert(src.take(i + 1) =~= src.take(i as int).push(src[i as int]));
            assert(out@ =~= remove_spec(src.take(i + 1), username@));
        }
        i = i + 1;
    }
    proof {
        assert(src.take(n as int) =~= src);
    }
    let changed = out.len() != n;
    (out, changed)
}

} // verus!

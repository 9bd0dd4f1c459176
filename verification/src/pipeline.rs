//! The per-account acquisition pipeline: which strategy runs next, what
//! happens to the store on each outcome, and the one result every
//! account ends with.
//!
//! The pipeline is a state machine from plain values to plain values.
//! The caller performs the strategy calls — network probes, browser
//! sessions, sleeps — and feeds each outcome back in; every decision in
//! between is made and verified here.

use vstd::prelude::*;
use vstd::string::StringExecFns;
use crate::store::{Stamp, StateStore};
use crate::strmap::lookup;
use crate::text::{
    all_ascii, ascii_chars_of, bytes_to_string, dec_digits, is_blank, lemma_ascii_bytes_utf8,
    lemma_dec_digits_ascii, push_dec,
};

verus! {

/// A balance in tenths of a dollar, the precision results are reported
/// at.
pub type Tenths = i64;

/// The decimal text of a balance in tenths, dollar sign first.
pub open spec fn balance_bytes_spec(t: int) -> Seq<u8> {
    let a = if t < 0 {
        -t
    } else {
        t
    };
    seq![0x24u8] + (if t < 0 {
        seq![0x2du8]
    } else {
        Seq::<u8>::empty()
    }) + dec_digits((a / 10) as nat) + seq![0x2eu8, (0x30 + a % 10) as u8]
}

pub open spec fn balance_text_spec(t: int) -> Seq<char> {
    ascii_chars_of(balance_bytes_spec(t))
}

/// Renders a balance in tenths as text, one decimal place.
pub fn format_balance(t: Tenths) -> (r: String)
    ensures
        r@ == balance_text_spec(t as int),
{
    let a: u64 = if t < 0 {
        (-(t + 1)) as u64 + 1
    } else {
        t as u64
    };
    let mut out: Vec<u8> = Vec::new();
    out.push(0x24);
    if t < 0 {
        out.push(0x2d);
    }
    push_dec(&mut out, a / 10);
    out.push(0x2e);
    out.push(0x30 + (a % 10) as u8);
    proof {
        assert(out@ =~= balance_bytes_spec(t as int));
        lemma_dec_digits_ascii((a / 10) as nat);
        assert(all_ascii(out@));
        lemma_ascii_bytes_utf8(out@);
    }
    match bytes_to_string(out.as_slice()) {
        Some(s) => s,
        None => {
            proof {
                assert(false);
            }
            String::new()
        },
    }
}

/// Which chain a batch runs: the full fallback chain, or the browser
/// strategy alone.
#[derive(Clone, Copy, PartialEq, Eq, Structural, Debug)]
pub enum QueryMode {
    Normal,
    WebOnly,
}

/// What the fast structured-API probe reported.
#[derive(Debug)]
pub struct ApiOutcome {
    pub success: bool,
    pub balance_tenths: Option<Tenths>,
    pub source: String,
    pub message: String,
}

/// What one browser-driven attempt reported.
#[derive(Debug)]
pub struct WebOutcome {
    pub success: bool,
    pub balance_tenths: Option<Tenths>,
    pub message: String,
}

/// What the caller must do next.
#[derive(Debug)]
pub enum PipelineAction {
    /// Run the fast probe and report back with the outcome.
    CallFast,
    /// Run one browser-driven attempt; when `delay_before` is not zero,
    /// wait that many seconds first.
    CallSlow { attempt: u32, delay_before: u64 },
}

/// Where the pipeline stands while an outcome is awaited.
#[derive(Debug)]
pub enum PipelinePhase {
    /// The opening fast probe is out.
    FastFirst,
    /// Browser attempt `attempt` of the bounded retry is out.
    Web { attempt: u32 },
    /// The browser succeeded with a balance; a fresher fast value is
    /// being tried, to supersede it if it comes back.
    FastRecheck { web_tenths: Tenths },
    /// The browser succeeded without a balance; the fast probe is the
    /// remaining chance at a value.
    FastFallback,
    /// Every browser attempt failed; the fast probe is the last resort.
    FastLastResort { web_message: String },
}

/// What one step decides: either the caller has another action to
/// perform, or the account's result is final.
#[derive(Debug)]
pub enum StepResult {
    Next { phase: PipelinePhase, action: PipelineAction },
    Finished { result: crate::models::CheckResult },
}

/// The per-account context fixed for the whole pipeline run.
#[derive(Debug)]
pub struct Pipeline {
    pub username: String,
    pub has_api_key: bool,
    pub fallback_to_web: bool,
    pub retry_times: u32,
    pub retry_delay: u64,
    pub mode: QueryMode,
    pub forced: bool,
}

impl Pipeline {
    pub open spec fn wf(&self) -> bool {
        self.retry_times >= 1
    }

    /// Opens the pipeline for one account: consults the store for the
    /// cycle-forced rule and picks the first strategy. In `Normal` mode
    /// the fast probe leads unless the cycle forces a browser sign-in
    /// or no token is configured; `WebOnly` always starts the browser.
    pub fn start(
        username: String,
        api_key_blank: bool,
        fallback_to_web: bool,
        retry_times: u32,
        retry_delay: u64,
        mode: QueryMode,
        store: &StateStore,
        now: &Stamp,
    ) -> (r: (Pipeline, PipelinePhase, PipelineAction))
        requires
            store.wf(),
            now.wf(),
        ensures
            r.0.wf(),
            r.0.username == username,
            r.0.has_api_key == !api_key_blank,
            r.0.fallback_to_web == fallback_to_web,
            r.0.retry_times == if retry_times >= 1 {
                retry_times as int
            } else {
                1
            },
            r.0.retry_delay == retry_delay,
            r.0.mode == mode,
            r.0.forced == (mode == QueryMode::Normal && store.should_force_spec(username@, *now)),
            mode == QueryMode::Normal && !r.0.forced && !api_key_blank ==> r.1 is FastFirst
                && r.2 is CallFast,
            mode == QueryMode::WebOnly || r.0.forced || api_key_blank ==> (r.1 matches
            PipelinePhase::Web { attempt } && attempt == 1 && (r.2 matches
            PipelineAction::CallSlow { attempt: a, delay_before } && a == 1 && delay_before == 0)),
    {
        let forced = if mode == QueryMode::Normal {
            store.should_force_web_query(username.as_str(), now)
        } else {
            false
        };
        let ctx = Pipeline {
            username,
            has_api_key: !api_key_blank,
            fallback_to_web,
            retry_times: if retry_times >= 1 {
                retry_times
            } else {
                1
            },
            retry_delay,
            mode,
            forced,
        };
        if mode == QueryMode::Normal && !forced && ctx.has_api_key {
            (ctx, PipelinePhase::FastFirst, PipelineAction::CallFast)
        } else {
            (
                ctx,
                PipelinePhase::Web { attempt: 1 },
                PipelineAction::CallSlow { attempt: 1, delay_before: 0 },
            )
        }
    }

    /// A fast-probe success ends the pipeline: the balance is persisted
    /// and reported under the probe's own source tag.
    fn on_api_success(&self, o: ApiOutcome, store: &mut StateStore, now: &Stamp) -> (r: StepResult)
        requires
            old(store).wf(),
            o.success,
        ensures
            final(store).wf(),
            final(store).daily_web_state == old(store).daily_web_state,
            final(store).daily_rollover_hour == old(store).daily_rollover_hour,
            ({
                let t = match o.balance_tenths {
                    Some(t) => t as int,
                    None => 0,
                };
                &&& lookup(final(store).balance_cache@, self.username@) matches Some(rec)
                    && rec.balance@ == balance_text_spec(t) && rec.updated_at@ == now.text@
                &&& (forall|x: Seq<char>|
                    x != self.username@ ==> lookup(final(store).balance_cache@, x) == lookup(
                        old(store).balance_cache@,
                        x,
                    ))
                &&& r matches StepResult::Finished { result } && result.success
                    && result.username@ == self.username@ && result.balance_text@
                    == balance_text_spec(t) && result.source@ == o.source@ && result.message@
                    == o.message@
            }),
    {
        let t = match o.balance_tenths {
            Some(t) => t,
            None => 0,
        };
        let balance_text = format_balance(t);
        store.update_balance_cache(
            self.username.clone(),
            balance_text.as_str(),
            None,
            None,
            now,
        );
        StepResult::Finished {
            result: crate::models::CheckResult {
                username: self.username.clone(),
                success: true,
                balance_text,
                source: o.source,
                message: o.message,
            },
        }
    }

    /// The opening fast probe came back. Success persists and finishes;
    /// failure either falls through to the browser chain or, when the
    /// deployment does not fall back, serves the cached balance if one
    /// exists.
    pub fn on_fast_first(&self, o: ApiOutcome, store: &mut StateStore, now: &Stamp) -> (r:
        StepResult)
        requires
            old(store).wf(),
            self.wf(),
        ensures
            final(store).wf(),
            final(store).daily_web_state == old(store).daily_web_state,
            final(store).daily_rollover_hour == old(store).daily_rollover_hour,
            o.success ==> ({
                let t = match o.balance_tenths {
                    Some(t) => t as int,
                    None => 0,
                };
                &&& lookup(final(store).balance_cache@, self.username@) matches Some(rec)
                    && rec.balance@ == balance_text_spec(t)
                &&& r matches StepResult::Finished { result } && result.success
                    && result.balance_text@ == balance_text_spec(t) && result.source@ == o.source@
            }),
            !o.success && self.fallback_to_web ==> ({
                &&& *final(store) == *old(store)
                &&& (r matches
            StepResult::Next { phase, action } && (phase matches PipelinePhase::Web { attempt }
                && attempt == 1) && (action matches PipelineAction::CallSlow {
                attempt: a,
                delay_before,
            } && a == 1 && delay_before == 0))
            }),
            !o.success && !self.fallback_to_web ==> ({
                &&& *final(store) == *old(store)
                &&& (match lookup(
                old(store).balance_cache@,
                self.username@,
            ) {
                Some(rec) => if !is_blank(rec.balance@) {
                    r matches StepResult::Finished { result } && result.success
                        && result.balance_text@ == rec.balance@ && result.source@ == "cache"@
                } else {
                    r matches StepResult::Finished { result } && !result.success && result.source@
                        == "api"@ && result.message@ == o.message@
                },
                None => r matches StepResult::Finished { result } && !result.success
                    && result.source@ == "api"@ && result.message@ == o.message@,
            })
            }),
    {
        if o.success {
            return self.on_api_success(o, store, now);
        }
        if self.fallback_to_web {
            return StepResult::Next {
                phase: PipelinePhase::Web { attempt: 1 },
                action: PipelineAction::CallSlow { attempt: 1, delay_before: 0 },
            };
        }
        match store.get_cached_balance_text(self.username.as_str()) {
            Some(cached) => {
                let msg = String::from_str("fast probe failed, serving cached balance: ").concat(
                    o.message.as_str(),
                );
                StepResult::Finished {
                    result: crate::models::CheckResult {
                        username: self.username.clone(),
                        success: true,
                        balance_text: cached,
                        source: String::from_str("cache"),
                        message: msg,
                    },
                }
            },
            None => {
                StepResult::Finished {
                    result: crate::models::CheckResult {
                        username: self.username.clone(),
                        success: false,
                        balance_text: String::from_str("fast probe failed"),
                        source: String::from_str("api"),
                        message: o.message,
                    },
                }
            },
        }
    }

    /// A browser attempt came back. A success with a balance fulfils
    /// the cycle, persists the balance, and either finishes or tries
    /// one fresher fast probe; a success without a balance is a hard
    /// failure on a forced run and otherwise falls back to the fast
    /// probe; a failed attempt retries until the bounded retry is spent,
    /// then fails hard when forced and otherwise turns to the fast
    /// probe as a last resort.
    pub fn on_slow_result(
        &self,
        attempt: u32,
        w: WebOutcome,
        store: &mut StateStore,
        now: &Stamp,
    ) -> (r: StepResult)
        requires
            old(store).wf(),
            now.wf(),
            self.wf(),
            1 <= attempt <= self.retry_times,
        ensures
            final(store).wf(),
            final(store).daily_rollover_hour == old(store).daily_rollover_hour,
            w.success && w.balance_tenths is Some ==> ({
                let b = w.balance_tenths->Some_0;
                &&& !final(store).should_force_spec(self.username@, *now)
                &&& (lookup(final(store).balance_cache@, self.username@) matches Some(rec)
                    && rec.balance@ == balance_text_spec(b as int))
                &&& (self.mode == QueryMode::Normal && !self.forced && self.has_api_key ==> (r
                    matches StepResult::Next { phase, action } && (phase matches
                    PipelinePhase::FastRecheck { web_tenths } && web_tenths == b)
                    && action is CallFast))
                &&& (!(self.mode == QueryMode::Normal && !self.forced && self.has_api_key) ==> (r
                    matches StepResult::Finished { result } && result.success
                    && result.balance_text@ == balance_text_spec(b as int) && result.source@ == (
                    if self.mode == QueryMode::WebOnly {
                        "web_only"@
                    } else {
                        "web_hook"@
                    })))
            }),
            w.success && w.balance_tenths is None ==> ({
                &&& *final(store) == *old(store)
                &&& ({
                if self.mode == QueryMode::WebOnly {
                    r matches StepResult::Finished { result } && !result.success
                        && result.source@ == "web_only"@
                } else if self.forced {
                    r matches StepResult::Finished { result } && !result.success
                        && result.source@ == "web_hook"@
                } else if self.has_api_key {
                    r matches StepResult::Next { phase, action } && phase is FastFallback
                        && action is CallFast
                } else {
                    r matches StepResult::Finished { result } && !result.success
                        && result.source@ == "web_hook"@
                }
            })
            }),
            !w.success ==> ({
                &&& *final(store) == *old(store)
                &&& ({
                if attempt < self.retry_times {
                    r matches StepResult::Next { phase, action } && (phase matches
                        PipelinePhase::Web { attempt: a2 } && a2 == attempt + 1) && (action matches
                        PipelineAction::CallSlow { attempt: a3, delay_before } && a3 == attempt + 1
                        && delay_before == self.retry_delay)
                } else if self.mode == QueryMode::WebOnly {
                    r matches StepResult::Finished { result } && !result.success
                        && result.source@ == "web_only"@
                } else if self.forced {
                    r matches StepResult::Finished { result } && !result.success
                        && result.source@ == "web_hook"@
                } else if self.has_api_key {
                    r matches StepResult::Next { phase, action } && phase matches
                        PipelinePhase::FastLastResort { web_message } && web_message@ == w.message@
                        && action is CallFast
                } else {
                    r matches StepResult::Finished { result } && !result.success
                        && result.source@ == "web_hook"@
                }
            })
            }),
    {
        if w.success {
            match w.balance_tenths {
                Some(b) => {
                    let balance_text = format_balance(b);
                    store.mark_web_query_success(self.username.clone(), now);
                    store.update_balance_cache(
                        self.username.clone(),
                        balance_text.as_str(),
                        None,
                        None,
                        now,
                    );
                    if self.mode == QueryMode::Normal && !self.forced && self.has_api_key {
                        StepResult::Next {
                            phase: PipelinePhase::FastRecheck { web_tenths: b },
                            action: PipelineAction::CallFast,
                        }
                    } else {
                        let source = if self.mode == QueryMode::WebOnly {
                            String::from_str("web_only")
                        } else {
                            String::from_str("web_hook")
                        };
                        let message = if self.mode == QueryMode::WebOnly && !crate::text::str_is_blank(
                            w.message.as_str(),
                        ) {
                            w.message
                        } else {
                            String::from_str("browser sign-in succeeded")
                        };
                        StepResult::Finished {
                            result: crate::models::CheckResult {
                                username: self.username.clone(),
                                success: true,
                                balance_text,
                                source,
                                message,
                            },
                        }
                    }
                },
                None => {
                    if self.mode == QueryMode::WebOnly {
                        StepResult::Finished {
                            result: crate::models::CheckResult {
                                username: self.username.clone(),
                                success: false,
                                balance_text: String::from_str("error"),
                                source: String::from_str("web_only"),
                                message: String::from_str(
                                    "browser sign-in succeeded but no balance was extracted",
                                ),
                            },
                        }
                    } else if self.forced {
                        StepResult::Finished {
                            result: crate::models::CheckResult {
                                username: self.username.clone(),
                                success: false,
                                balance_text: String::from_str("error"),
                                source: String::from_str("web_hook"),
                                message: String::from_str(
                                    "the first check of the cycle requires a browser sign-in with an extracted balance",
                                ),
                            },
                        }
                    } else if self.has_api_key {
                        StepResult::Next {
                            phase: PipelinePhase::FastFallback,
                            action: PipelineAction::CallFast,
                        }
                    } else {
                        StepResult::Finished {
                            result: crate::models::CheckResult {
                                username: self.username.clone(),
                                success: false,
                                balance_text: String::from_str("error"),
                                source: String::from_str("web_hook"),
                                message: String::from_str(
                                    "browser sign-in succeeded but no balance was extracted",
                                ),
                            },
                        }
                    }
                },
            }
        } else {
            if attempt < self.retry_times {
                StepResult::Next {
                    phase: PipelinePhase::Web { attempt: attempt + 1 },
                    action: PipelineAction::CallSlow {
                        attempt: attempt + 1,
                        delay_before: self.retry_delay,
                    },
                }
            } else if self.mode == QueryMode::WebOnly {
                let msg = String::from_str("browser sign-in failed: ").concat(w.message.as_str());
                StepResult::Finished {
                    result: crate::models::CheckResult {
                        username: self.username.clone(),
                        success: false,
                        balance_text: String::from_str("error"),
                        source: String::from_str("web_only"),
                        message: msg,
                    },
                }
            } else if self.forced {
                let msg = String::from_str("forced browser sign-in failed: ").concat(
                    w.message.as_str(),
                );
                StepResult::Finished {
                    result: crate::models::CheckResult {
                        username: self.username.clone(),
                        success: false,
                        balance_text: String::from_str("error"),
                        source: String::from_str("web_hook"),
                        message: msg,
                    },
                }
            } else if self.has_api_key {
                StepResult::Next {
                    phase: PipelinePhase::FastLastResort { web_message: w.message },
                    action: PipelineAction::CallFast,
                }
            } else {
                let msg = String::from_str("browser sign-in failed: ").concat(w.message.as_str());
                StepResult::Finished {
                    result: crate::models::CheckResult {
                        username: self.username.clone(),
                        success: false,
                        balance_text: String::from_str("error"),
                        source: String::from_str("web_hook"),
                        message: msg,
                    },
                }
            }
        }
    }

    /// The fresher fast probe after a browser success came back: its
    /// value supersedes the browser's when it succeeds, else the
    /// browser's result stands.
    pub fn on_fast_recheck(
        &self,
        web_tenths: Tenths,
        o: ApiOutcome,
        store: &mut StateStore,
        now: &Stamp,
    ) -> (r: StepResult)
        requires
            old(store).wf(),
        ensures
            final(store).wf(),
            final(store).daily_web_state == old(store).daily_web_state,
            final(store).daily_rollover_hour == old(store).daily_rollover_hour,
            o.success ==> ({
                let t = match o.balance_tenths {
                    Some(t) => t as int,
                    None => 0,
                };
                r matches StepResult::Finished { result } && result.success
                    && result.balance_text@ == balance_text_spec(t) && result.source@ == o.source@
            }),
            !o.success ==> ({
                &&& *final(store) == *old(store)
                &&& (r matches StepResult::Finished { result } && result.success
                    && result.balance_text@ == balance_text_spec(web_tenths as int)
                    && result.source@ == "web_hook"@)
            }),
    {
        if o.success {
            self.on_api_success(o, store, now)
        } else {
            StepResult::Finished {
                result: crate::models::CheckResult {
                    username: self.username.clone(),
                    success: true,
                    balance_text: format_balance(web_tenths),
                    source: String::from_str("web_hook"),
                    message: String::from_str("browser sign-in succeeded"),
                },
            }
        }
    }

    /// The fast probe after a balance-less browser success came back:
    /// only its success can still produce a value.
    pub fn on_fast_fallback(&self, o: ApiOutcome, store: &mut StateStore, now: &Stamp) -> (r:
        StepResult)
        requires
            old(store).wf(),
        ensures
            final(store).wf(),
            final(store).daily_web_state == old(store).daily_web_state,
            final(store).daily_rollover_hour == old(store).daily_rollover_hour,
            o.success ==> ({
                let t = match o.balance_tenths {
                    Some(t) => t as int,
                    None => 0,
                };
                r matches StepResult::Finished { result } && result.success
                    && result.balance_text@ == balance_text_spec(t) && result.source@ == o.source@
            }),
            !o.success ==> ({
                &&& *final(store) == *old(store)
                &&& (r matches StepResult::Finished { result } && !result.success
                    && result.source@ == "web_hook"@)
            }),
    {
        if o.success {
            self.on_api_success(o, store, now)
        } else {
            StepResult::Finished {
                result: crate::models::CheckResult {
                    username: self.username.clone(),
                    success: false,
                    balance_text: String::from_str("error"),
                    source: String::from_str("web_hook"),
                    message: String::from_str(
                        "browser sign-in succeeded but no balance was extracted",
                    ),
                },
            }
        }
    }

    /// The last-resort fast probe after the browser chain failed came
    /// back.
    pub fn on_fast_last_resort(
        &self,
        web_message: &String,
        o: ApiOutcome,
        store: &mut StateStore,
        now: &Stamp,
    ) -> (r: StepResult)
        requires
            old(store).wf(),
        ensures
            final(store).wf(),
            final(store).daily_web_state == old(store).daily_web_state,
            final(store).daily_rollover_hour == old(store).daily_rollover_hour,
            o.success ==> ({
                let t = match o.balance_tenths {
                    Some(t) => t as int,
                    None => 0,
                };
                r matches StepResult::Finished { result } && result.success
                    && result.balance_text@ == balance_text_spec(t) && result.source@ == o.source@
            }),
            !o.success ==> ({
                &&& *final(store) == *old(store)
                &&& (r matches StepResult::Finished { result } && !result.success
                    && result.source@ == "web_hook"@ && result.message@
                    == "browser sign-in unavailable: "@ + web_message@)
            }),
    {
        if o.success {
            self.on_api_success(o, store, now)
        } else {
            let msg = String::from_str("browser sign-in unavailable: ").concat(
                web_message.as_str(),
            );
            StepResult::Finished {
                result: crate::models::CheckResult {
                    username: self.username.clone(),
                    success: false,
                    balance_text: String::from_str("error"),
                    source: String::from_str("web_hook"),
                    message: msg,
                },
            }
        }
    }
}

} // verus!

//! The durable state kept across runs: the per-account balance cache and
//! the per-account daily-cycle marker, with the cycle-day policy and the
//! one-time correction of files written under the old midnight rule.
//!
//! The store itself is pure in-memory state. Reading and writing the
//! files is the caller's part: `load` takes the raw file bytes and the
//! save functions hand back the bytes to write, so that the caller can
//! write a temporary file and rename it over the target atomically.

use vstd::prelude::*;
use vstd::string::StringExecFns;
use crate::date::{
    parse_day_spec, prev_day, prev_day_spec, valid_date, Date,
};
use crate::models::BalanceCacheRecord;
use crate::strmap::{lookup, StrMap};
use crate::text::is_blank;

verus! {

/// A reading of the local clock: the calendar date, the hour of day, and
/// the full timestamp text recorded in the files.
#[derive(Debug)]
pub struct Stamp {
    pub date: Date,
    pub hour: u32,
    pub text: String,
}

impl Stamp {
    /// A usable clock reading: a real date past the first representable
    /// day, and an hour on the 24-hour clock.
    pub open spec fn wf(&self) -> bool {
        &&& valid_date(self.date)
        &&& !(self.date.year == 1 && self.date.month == 1 && self.date.day == 1)
        &&& self.hour <= 23
    }
}

impl Clone for Stamp {
    fn clone(&self) -> (r: Self)
        ensures
            r == *self,
    {
        Stamp { date: self.date, hour: self.hour, text: self.text.clone() }
    }
}

/// Relies on chrono: `Local::now` reads the wall clock; `Datelike` hands
/// the month in 1..=12 and the day in 1..=31, `Timelike` the hour in
/// 0..=23, and `to_rfc3339` renders the timestamp text.
#[verifier::external_body]
fn local_now_raw() -> (r: (i32, u32, u32, u32, String))
    ensures
        1 <= r.1 <= 12,
        1 <= r.2 <= 31,
        r.3 <= 23,
{
    let t = chrono::Local::now();
    (
        chrono::Datelike::year(&t),
        chrono::Datelike::month(&t),
        chrono::Datelike::day(&t),
        chrono::Timelike::hour(&t),
        t.to_rfc3339(),
    )
}

/// Reads the clock and validates the reading. `None` only on a clock so
/// far out of range that no cycle day can be derived from it.
pub fn now_stamp() -> (r: Option<Stamp>)
    ensures
        r matches Some(s) ==> s.wf(),
{
    let (y, mo, d, h, text) = local_now_raw();
    if y < 1 || y > 9999 {
        return None;
    }
    let year = y as u32;
    if d > crate::date::days_in_month(year, mo) {
        return None;
    }
    let date = Date { year, month: mo, day: d };
    if date.year == 1 && date.month == 1 && date.day == 1 {
        return None;
    }
    Some(Stamp { date, hour: h, text })
}

/// The cycle day a clock reading falls in: before the rollover hour the
/// cycle that began yesterday is still running, so the cycle day is
/// yesterday's date; from the rollover hour on it is today's.
pub open spec fn cycle_day_spec(now: Stamp, rollover_hour: int) -> Date {
    if now.hour < rollover_hour {
        prev_day_spec(now.date)
    } else {
        now.date
    }
}

/// The durable cross-run state: last known balances and the last cycle
/// day each account completed a full browser-driven check on.
#[derive(Debug)]
pub struct StateStore {
    pub balance_cache: StrMap<BalanceCacheRecord>,
    pub daily_web_state: StrMap<Date>,
    pub daily_rollover_hour: u32,
}

impl StateStore {
    pub open spec fn wf(&self) -> bool {
        &&& self.balance_cache.wf()
        &&& self.daily_web_state.wf()
        &&& self.daily_rollover_hour <= 23
        &&& forall|i: int|
            0 <= i < self.daily_web_state@.len() ==> valid_date(
                (#[trigger] self.daily_web_state@[i]).1,
            )
    }

    /// An empty store. An out-of-range rollover hour falls back to the
    /// default of eight o'clock, as a misconfigured file would.
    pub fn new_empty(daily_rollover_hour: u32) -> (r: Self)
        ensures
            r.wf(),
            r.balance_cache@ == Seq::<(String, BalanceCacheRecord)>::empty(),
            r.daily_web_state@ == Seq::<(String, Date)>::empty(),
            r.daily_rollover_hour == if daily_rollover_hour <= 23 {
                daily_rollover_hour
            } else {
                8
            },
    {
        StateStore {
            balance_cache: StrMap::new(),
            daily_web_state: StrMap::new(),
            daily_rollover_hour: if daily_rollover_hour <= 23 {
                daily_rollover_hour
            } else {
                8
            },
        }
    }

    /// The cycle day `now` falls in: yesterday before the rollover hour,
    /// today from it on.
    pub fn current_cycle_day(&self, now: &Stamp) -> (r: Date)
        requires
            now.wf(),
            self.wf(),
        ensures
            r == cycle_day_spec(*now, self.daily_rollover_hour as int),
            now.hour < self.daily_rollover_hour ==> r == prev_day_spec(now.date),
            now.hour >= self.daily_rollover_hour ==> r == now.date,
            valid_date(r),
    {
        if now.hour < self.daily_rollover_hour {
            prev_day(now.date)
        } else {
            now.date
        }
    }

    /// True when the account has not yet completed a full check in the
    /// cycle `now` falls in.
    pub open spec fn should_force_spec(&self, u: Seq<char>, now: Stamp) -> bool {
        lookup(self.daily_web_state@, u) != Some(
            cycle_day_spec(now, self.daily_rollover_hour as int),
        )
    }

    pub fn should_force_web_query(&self, username: &str, now: &Stamp) -> (r: bool)
        requires
            now.wf(),
            self.wf(),
        ensures
            r == self.should_force_spec(username@, *now),
    {
        let cycle_day = self.current_cycle_day(now);
        match self.daily_web_state.get(username) {
            Some(d) => !(d.year == cycle_day.year && d.month == cycle_day.month && d.day
                == cycle_day.day),
            None => true,
        }
    }

    /// Records that the account completed a full check in the current
    /// cycle. The caller persists `save_daily_web_state` afterwards.
    pub fn mark_web_query_success(&mut self, username: String, now: &Stamp)
        requires
            now.wf(),
            old(self).wf(),
        ensures
            final(self).wf(),
            final(self).daily_rollover_hour == old(self).daily_rollover_hour,
            final(self).balance_cache == old(self).balance_cache,
            forall|x: Seq<char>|
                lookup(final(self).daily_web_state@, x) == if x == username@ {
                    Some(cycle_day_spec(*now, old(self).daily_rollover_hour as int))
                } else {
                    lookup(old(self).daily_web_state@, x)
                },
            !final(self).should_force_spec(username@, *now),
    {
        let cycle_day = self.current_cycle_day(now);
        self.daily_web_state.insert(username, cycle_day);
        proof {
            let s = final(self).daily_web_state@;
            assert forall|i: int| 0 <= i < s.len() implies valid_date((#[trigger] s[i]).1) by {
                if exists|j: int|
                    0 <= j < old(self).daily_web_state@.len() && (#[trigger] old(
                        self,
                    ).daily_web_state@[j].0)@ == username@ && s == old(self).daily_web_state@.update(
                    j,
                    (username, cycle_day),
                ) {
                } else {
                }
            }
        }
    }

    /// Upserts the cached balance of one account: the balance text and
    /// timestamp are rewritten, the sync outcome is replaced, and the
    /// sync message is kept unless a new one is given. The caller
    /// persists `save_balance_cache` afterwards.
    pub fn update_balance_cache(
        &mut self,
        username: String,
        balance: &str,
        apikey_sync_success: Option<bool>,
        apikey_sync_message: Option<&str>,
        now: &Stamp,
    )
        requires
            old(self).wf(),
        ensures
            final(self).wf(),
            final(self).daily_rollover_hour == old(self).daily_rollover_hour,
            final(self).daily_web_state == old(self).daily_web_state,
            forall|x: Seq<char>|
                x != username@ ==> lookup(final(self).balance_cache@, x) == lookup(
                    old(self).balance_cache@,
                    x,
                ),
            lookup(final(self).balance_cache@, username@) matches Some(r) && r.balance@ == balance@
                && r.updated_at@ == now.text@ && r.apikey_sync_success == apikey_sync_success
                && r.apikey_sync_message@ == (match apikey_sync_message {
                Some(m) => m@,
                None => match lookup(old(self).balance_cache@, username@) {
                    Some(prior) => prior.apikey_sync_message@,
                    None => Seq::<char>::empty(),
                },
            }),
    {
        let mut record = match self.balance_cache.get(username.as_str()) {
            Some(r) => r.clone(),
            None => BalanceCacheRecord::empty(),
        };
        record.balance = String::from_str(balance);
        record.updated_at = now.text.clone();
        record.apikey_sync_success = apikey_sync_success;
        match apikey_sync_message {
            Some(m) => {
                record.apikey_sync_message = String::from_str(m);
            },
            None => {},
        }
        self.balance_cache.insert(username, record);
    }

    /// The cached balance text, unless the record holds none or only
    /// whitespace.
    pub fn get_cached_balance_text(&self, username: &str) -> (r: Option<String>)
        requires
            self.wf(),
        ensures
            match r {
                Some(t) => lookup(self.balance_cache@, username@) matches Some(rec) && t@
                    == rec.balance@ && !is_blank(t@),
                None => lookup(self.balance_cache@, username@) matches Some(rec) ==> is_blank(
                    rec.balance@,
                ),
            },
    {
        match self.balance_cache.get(username) {
            Some(rec) => {
                if crate::text::str_is_blank(rec.balance.as_str()) {
                    None
                } else {
                    Some(rec.balance.clone())
                }
            },
            None => None,
        }
    }

    /// A copy of the whole cached record of one account.
    pub fn get_cached_balance_record(&self, username: &str) -> (r: Option<BalanceCacheRecord>)
        requires
            self.wf(),
        ensures
            match r {
                Some(rec) => lookup(self.balance_cache@, username@) == Some(rec),
                None => lookup(self.balance_cache@, username@) is None,
            },
    {
        match self.balance_cache.get(username) {
            Some(rec) => Some(rec.clone()),
            None => None,
        }
    }
}

/// Marking an account's cycle fulfilled turns `should_force` off for
/// that account for the rest of the same cycle, and touches no other
/// account's state.
pub proof fn lemma_mark_clears_force(
    before: StateStore,
    after: StateStore,
    u: Seq<char>,
    now: Stamp,
    later: Stamp,
)
    requires
        before.wf(),
        after.daily_rollover_hour == before.daily_rollover_hour,
        forall|x: Seq<char>|
            lookup(after.daily_web_state@, x) == if x == u {
                Some(cycle_day_spec(now, before.daily_rollover_hour as int))
            } else {
                lookup(before.daily_web_state@, x)
            },
        cycle_day_spec(later, later_rollover(before)) == cycle_day_spec(
            now,
            before.daily_rollover_hour as int,
        ),
    ensures
        !after.should_force_spec(u, later),
        forall|x: Seq<char>|
            x != u ==> after.should_force_spec(x, later) == before.should_force_spec(x, later),
{
}

/// The rollover hour a store applies, named so the lemma above can speak
/// of "the same cycle" for a later clock reading.
pub open spec fn later_rollover(s: StateStore) -> int {
    s.daily_rollover_hour as int
}

/// `should_force` reads only the daily-cycle map: balance-cache writes
/// leave it unchanged.
pub proof fn lemma_force_unaffected_by_balance(
    before: StateStore,
    after: StateStore,
    u: Seq<char>,
    now: Stamp,
)
    requires
        after.daily_web_state == before.daily_web_state,
        after.daily_rollover_hour == before.daily_rollover_hour,
    ensures
        after.should_force_spec(u, now) == before.should_force_spec(u, now),
{
}

/// The hour and calendar date at the front of a recorded timestamp text,
/// as both the RFC 3339 form and the plain `YYYY-MM-DDTHH:MM:SS` form
/// carry them.
pub open spec fn parse_updated_time_spec(s: Seq<char>) -> Option<(u32, Date)> {
    if s.len() >= 13 && (s[10] == 'T' || s[10] == 't' || s[10] == ' ')
        && crate::date::is_digit_char(s[11]) && crate::date::is_digit_char(s[12]) {
        match parse_day_spec(s.take(10)) {
            Some(d) => {
                let h = crate::date::digit_val(s[11]) * 10 + crate::date::digit_val(s[12]);
                if h <= 23 {
                    Some((h as u32, d))
                } else {
                    None
                }
            },
            None => None,
        }
    } else {
        None
    }
}

pub fn parse_updated_time(text: &str) -> (r: Option<(u32, Date)>)
    ensures
        r == parse_updated_time_spec(text@),
{
    let n = text.unicode_len();
    if n < 13 {
        return None;
    }
    let sep = text.get_char(10);
    if !(sep == 'T' || sep == 't' || sep == ' ') {
        return None;
    }
    let c11 = text.get_char(11);
    let c12 = text.get_char(12);
    let u11 = c11 as u32;
    let u12 = c12 as u32;
    if !(0x30 <= u11 && u11 <= 0x39) || !(0x30 <= u12 && u12 <= 0x39) {
        proof {
            vstd::utf8::char_u32_cast(c11, u11);
            vstd::utf8::char_u32_cast(c12, u12);
        }
        return None;
    }
    proof {
        vstd::utf8::char_u32_cast(c11, u11);
        vstd::utf8::char_u32_cast(c12, u12);
    }
    let day_part = text.substring_char(0, 10);
    proof {
        assert(day_part@ =~= text@.take(10));
    }
    let d = match crate::date::parse_day(day_part) {
        Some(d) => d,
        None => {
            return None;
        },
    };
    let h = (u11 - 0x30) * 10 + (u12 - 0x30);
    if h <= 23 {
        Some((h, d))
    } else {
        None
    }
}

/// Whether a loaded daily file calls for the one-time correction of
/// markers written under the old midnight rule, and for which recorded
/// day: the file was saved before the rollover hour, so markers equal to
/// the save date belong to the previous cycle.
pub open spec fn correction_day(up: Seq<char>, rollover: int) -> Option<Date> {
    match parse_updated_time_spec(up) {
        Some((h, d)) => if h < rollover && !(d.year == 1 && d.month == 1 && d.day == 1) {
            Some(d)
        } else {
            None
        },
        None => None,
    }
}

/// Every marker equal to the old save day stepped back one day, all
/// others untouched, keys and order kept.
pub open spec fn corrected_daily(l: Seq<(String, Date)>, od: Date) -> Seq<(String, Date)> {
    Seq::new(
        l.len(),
        |i: int|
            (
                l[i].0,
                if l[i].1 == od {
                    prev_day_spec(od)
                } else {
                    l[i].1
                },
            ),
    )
}

/// How many markers the correction touches.
pub open spec fn count_matching(l: Seq<(String, Date)>, od: Date) -> int
    decreases l.len(),
{
    if l.len() == 0 {
        0
    } else {
        count_matching(l.drop_first(), od) + if l[0].1 == od {
            1int
        } else {
            0int
        }
    }
}

proof fn lemma_count_matching_snoc(l: Seq<(String, Date)>, e: (String, Date), od: Date)
    ensures
        count_matching(l.push(e), od) == count_matching(l, od) + if e.1 == od {
            1int
        } else {
            0int
        },
    decreases l.len(),
{
    let t = l.push(e);
    if l.len() == 0 {
        assert(t[0] == e);
        assert(t.drop_first() =~= Seq::<(String, Date)>::empty());
        assert(count_matching(Seq::<(String, Date)>::empty(), od) == 0);
        assert(count_matching(l, od) == 0);
    } else {
        assert(t[0] == l[0]);
        assert(t.drop_first() =~= l.drop_first().push(e));
        lemma_count_matching_snoc(l.drop_first(), e, od);
    }
}

impl StateStore {
    /// Rewrites markers recorded under the old midnight rule and counts
    /// how many were touched.
    fn apply_correction(&mut self, od: Date) -> (count: usize)
        requires
            old(self).wf(),
            valid_date(od),
            !(od.year == 1 && od.month == 1 && od.day == 1),
        ensures
            final(self).wf(),
            final(self).balance_cache == old(self).balance_cache,
            final(self).daily_rollover_hour == old(self).daily_rollover_hour,
            final(self).daily_web_state@ == corrected_daily(old(self).daily_web_state@, od),
            count == count_matching(old(self).daily_web_state@, od),
    {
        let ghost gsrc = self.daily_web_state@;
        let nd = prev_day(od);
        let n = self.daily_web_state.entries.len();
        let mut out: Vec<(String, Date)> = Vec::new();
        let mut count: usize = 0;
        let mut i: usize = 0;
        proof {
            assert(gsrc.take(0) =~= Seq::<(String, Date)>::empty());
            assert(out@ =~= corrected_daily(gsrc.take(0), od));
        }
        while i < n
            invariant
                i <= n,
                n == gsrc.len(),
                self.daily_web_state@ == gsrc,
                old(self).wf(),
                self == old(self),
                valid_date(od),
                nd == prev_day_spec(od),
                valid_date(nd),
                out@ == corrected_daily(gsrc.take(i as int), od),
                count == count_matching(gsrc.take(i as int), od),
                count <= i,
            decreases n - i,
        {
            let pair = &self.daily_web_state.entries[i];
            let hit = pair.1.year == od.year && pair.1.month == od.month && pair.1.day == od.day;
            if hit {
                out.push((pair.0.clone(), nd));
                count = count + 1;
            } else {
                out.push((pair.0.clone(), pair.1));
            }
            proof {
                lemma_count_matching_snoc(gsrc.take(i as int), gsrc[i as int], od);
                assert(gsrc.take(i + 1) =~= gsrc.take(i as int).push(gsrc[i as int]));
                assert(out@ =~= corrected_daily(gsrc.take(i + 1), od));
            }
            i = i + 1;
        }
        proof {
            assert(gsrc.take(n as int) =~= gsrc);
        }
        let fixed = crate::strmap::StrMap { entries: out };
        proof {
            assert forall|a: int, b: int| 0 <= a < b < fixed@.len() implies (#[trigger] fixed@[
            a].0)@ != (#[trigger] fixed@[b].0)@ by {
                assert(fixed@[a].0 == gsrc[a].0 && fixed@[b].0 == gsrc[b].0);
                assert(gsrc[a].0@ != gsrc[b].0@);
            }
            assert forall|a: int| 0 <= a < fixed@.len() implies valid_date(
                (#[trigger] fixed@[a]).1,
            ) by {
                assert(gsrc[a].1 == self.daily_web_state@[a].1);
            }
        }
        self.daily_web_state = fixed;
        count
    }

    /// Builds the store from the raw bytes of the two state files (a
    /// missing file reads as empty) and the configured rollover hour.
    /// Markers saved under the old midnight rule are stepped back one
    /// day; the count of corrected markers is returned beside the store,
    /// and the caller re-persists the daily file when it is not zero.
    /// `None` when a present file cannot be read at all.
    pub fn load(
        balance_raw: Option<&[u8]>,
        daily_raw: Option<&[u8]>,
        daily_rollover_hour: u32,
    ) -> (r: Option<(StateStore, usize)>)
        ensures
            match r {
                Some((store, count)) => {
                    &&& store.wf()
                    &&& store.daily_rollover_hour == if daily_rollover_hour <= 23 {
                        daily_rollover_hour as int
                    } else {
                        8
                    }
                    &&& match balance_raw {
                        Some(b) => crate::codec::parse_balance_doc_spec(b@) == Some(
                            crate::codec::balance_map_view(store.balance_cache@),
                        ),
                        None => store.balance_cache@ == Seq::<(String, BalanceCacheRecord)>::empty(),
                    }
                    &&& match daily_raw {
                        Some(b) => match crate::codec::parse_daily_doc_spec(b@) {
                            Some((entries, up)) => {
                                exists|parsed: Seq<(String, Date)>|
                                    {
                                        &&& crate::codec::daily_map_view(parsed) == entries
                                        &&& match correction_day(
                                            up,
                                            store.daily_rollover_hour as int,
                                        ) {
                                            Some(od) => store.daily_web_state@ == corrected_daily(
                                                parsed,
                                                od,
                                            ) && count == count_matching(parsed, od),
                                            None => store.daily_web_state@ == parsed && count == 0,
                                        }
                                    }
                            },
                            None => false,
                        },
                        None => store.daily_web_state@ == Seq::<(String, Date)>::empty() && count
                            == 0,
                    }
                },
                None => (balance_raw matches Some(b) && crate::codec::parse_balance_doc_spec(b@)
                    is None) || (daily_raw matches Some(b) && crate::codec::parse_daily_doc_spec(
                    b@,
                ) is None),
            },
    {
        let balance_cache = match balance_raw {
            Some(b) => {
                match crate::codec::parse_balance_file(b) {
                    Some(m) => m,
                    None => {
                        return None;
                    },
                }
            },
            None => crate::strmap::StrMap::new(),
        };
        let (daily_map, updated_at): (crate::strmap::StrMap<Date>, String) = match daily_raw {
            Some(b) => {
                match crate::codec::parse_daily_file(b) {
                    Some(p) => p,
                    None => {
                        return None;
                    },
                }
            },
            None => (crate::strmap::StrMap::new(), String::new()),
        };
        let hour = if daily_rollover_hour <= 23 {
            daily_rollover_hour
        } else {
            8
        };
        let mut store = StateStore {
            balance_cache,
            daily_web_state: daily_map,
            daily_rollover_hour: hour,
        };
        let ghost parsed = store.daily_web_state@;
        let mut count: usize = 0;
        match parse_updated_time(updated_at.as_str()) {
            Some((h, od)) => {
                if h < hour && !(od.year == 1 && od.month == 1 && od.day == 1) {
                    count = store.apply_correction(od);
                } else {
                    proof {
                        assert(correction_day(updated_at@, hour as int) is None);
                    }
                }
            },
            None => {},
        }
        Some((store, count))
    }

    /// The balance-cache file bytes for the current table, stamped with
    /// the given clock reading.
    pub fn save_balance_cache(&self, now: &Stamp) -> (out: Vec<u8>)
        ensures
            out@ == crate::codec::emit_balance_doc_spec(
                now.text@,
                crate::codec::balance_map_view(self.balance_cache@),
            ),
    {
        crate::codec::emit_balance_file(&self.balance_cache, now.text.as_str())
    }

    /// The daily-state file bytes for the current table, stamped with
    /// the given clock reading.
    pub fn save_daily_web_state(&self, now: &Stamp) -> (out: Vec<u8>)
        requires
            self.wf(),
        ensures
            out@ == crate::codec::emit_daily_doc_spec(
                now.text@,
                crate::codec::daily_map_view(self.daily_web_state@),
            ),
    {
        crate::codec::emit_daily_file(&self.daily_web_state, now.text.as_str())
    }
}

/// The shape every record held by a store takes on disk and back: its
/// text fields carry no surrounding whitespace and the balance text is
/// not empty. Records written through `update_balance_cache` with
/// trimmed inputs have it.
pub open spec fn persistable_balance(entries: Seq<(String, BalanceCacheRecord)>) -> bool {
    forall|i: int|
        0 <= i < entries.len() ==> {
            let r = crate::codec::rec_view((#[trigger] entries[i]).1);
            crate::codec::stored_rec(r) && r.balance.len() > 0
        }
}

/// The persistence round trip for the balance cache: the bytes
/// `save_balance_cache` writes read back as exactly the table they were
/// written from, record for record. Records holding padded or empty
/// balance text are outside the statement: the reader trims fields and
/// drops balance-less entries.
pub proof fn lemma_save_balance_reloads(store: StateStore, now: Stamp)
    requires
        store.wf(),
        persistable_balance(store.balance_cache@),
        crate::text::trim_spec(now.text@) == now.text@,
    ensures
        crate::codec::parse_balance_doc_spec(
            crate::codec::emit_balance_doc_spec(
                now.text@,
                crate::codec::balance_map_view(store.balance_cache@),
            ),
        ) == Some(crate::codec::balance_map_view(store.balance_cache@)),
{
    let l = crate::codec::balance_map_view(store.balance_cache@);
    assert forall|a: int, b: int| 0 <= a < b < l.len() implies (#[trigger] l[a]).0 != (
    #[trigger] l[b]).0 by {
        assert(store.balance_cache@[a].0@ != store.balance_cache@[b].0@);
    }
    assert forall|x: int| 0 <= x < l.len() implies crate::codec::stored_rec(
        (#[trigger] l[x]).1,
    ) && l[x].1.balance.len() > 0 by {
        assert(l[x].1 == crate::codec::rec_view(store.balance_cache@[x].1));
    }
    crate::codec::lemma_balance_file_roundtrip(now.text@, l);
}

/// The persistence round trip for the daily-cycle file: the bytes
/// `save_daily_web_state` writes read back as exactly the marker table
/// and the timestamp they were written from.
pub proof fn lemma_save_daily_reloads(store: StateStore, now: Stamp)
    requires
        store.wf(),
        crate::text::trim_spec(now.text@) == now.text@,
    ensures
        crate::codec::parse_daily_doc_spec(
            crate::codec::emit_daily_doc_spec(
                now.text@,
                crate::codec::daily_map_view(store.daily_web_state@),
            ),
        ) == Some((crate::codec::daily_map_view(store.daily_web_state@), now.text@)),
{
    let l = crate::codec::daily_map_view(store.daily_web_state@);
    assert forall|a: int, b: int| 0 <= a < b < l.len() implies (#[trigger] l[a]).0 != (
    #[trigger] l[b]).0 by {
        assert(store.daily_web_state@[a].0@ != store.daily_web_state@[b].0@);
    }
    assert forall|x: int| 0 <= x < l.len() implies valid_date((#[trigger] l[x]).1) by {
        assert(l[x].1 == store.daily_web_state@[x].1);
    }
    crate::codec::lemma_daily_file_roundtrip(now.text@, l);
}

} // verus!

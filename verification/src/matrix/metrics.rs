//! Metrics of a room: membership changes and message counts over a period.

use vstd::prelude::*;
use crate::calendar::{date_of, date_text, format_unix_date};
use crate::json::{json_number, json_str_at, json_string, json_u64_at};
use crate::matrix::event::MatrixEvent;
use crate::order::{descending, descending_order, is_permutation, permute};
use crate::table::{
    distinct_keys, entries_get, entries_insert, entry_position, law_insert_get, lemma_entry_position, Table,
};
use crate::text::{
    alphanumeric, chars_of, decimal, ends_with, push_chars, push_decimal, push_str, replace_char, replaced_char, same,
    string_of,
};

verus! {

/// How many pages of history are read at most.
pub const MAX_PAGES: u32 = 200;

/// How many senders the summary lists.
pub const TOP_SENDERS: usize = 10;

/// The milliseconds of a day.
pub const DAY_MS: u64 = 86400000;

/// A membership change.
#[derive(Debug)]
pub struct MemberEvent {
    pub ts_ms: u64,
    pub event_type: String,
    pub sender: String,
    pub target: String,
    pub reason: String,
}

/// A membership change as text.
pub struct MemberEventView {
    pub ts_ms: u64,
    pub event_type: Seq<char>,
    pub sender: Seq<char>,
    pub target: Seq<char>,
    pub reason: Seq<char>,
}

impl View for MemberEvent {
    type V = MemberEventView;

    open spec fn view(&self) -> MemberEventView {
        MemberEventView {
            ts_ms: self.ts_ms,
            event_type: self.event_type@,
            sender: self.sender@,
            target: self.target@,
            reason: self.reason@,
        }
    }
}

/// The string at a pointer of a JSON text, or another text where there is none.
pub open spec fn field_or(raw: Seq<char>, pointer: Seq<char>, other: Seq<char>) -> Seq<char> {
    match json_string(raw, pointer) {
        Some(s) => s,
        None => other,
    }
}

/// The time of a raw event in milliseconds; 0 where it has none.
pub open spec fn event_time(raw: Seq<char>) -> u64 {
    match json_number(raw, "/origin_server_ts"@) {
        Some(t) => t,
        None => 0,
    }
}

/// The membership change that a raw event holds. To leave is to be kicked where
/// somebody else did it.
pub open spec fn member_event(raw: Seq<char>) -> MemberEventView {
    let sender = field_or(raw, "/sender"@, ""@);
    let target = field_or(raw, "/state_key"@, ""@);
    let membership = field_or(raw, "/content/membership"@, "unknown"@);
    MemberEventView {
        ts_ms: event_time(raw),
        event_type: if membership == "leave"@ && sender != target {
            "kick"@
        } else {
            membership
        },
        sender,
        target,
        reason: field_or(raw, "/content/reason"@, ""@),
    }
}

/// What was counted.
pub struct Tally {
    pub events: Seq<MemberEventView>,
    pub counts: Seq<(Seq<char>, u64)>,
    /// Whether the beginning of the period was reached.
    pub done: bool,
    /// How many pages were read.
    pub pages: u32,
}

/// One more message of a sender.
pub open spec fn one_more(counts: Seq<(Seq<char>, u64)>, sender: Seq<char>) -> Seq<
    (Seq<char>, u64),
> {
    let n: u64 = match entries_get(counts, sender) {
        Some(c) => c,
        None => 0,
    };
    entries_insert(counts, sender, (n + 1) as u64)
}

/// What was counted after one more event.
pub open spec fn counted(t: Tally, raw: Seq<char>, cutoff_ms: u64) -> Tally {
    let kind = field_or(raw, "/type"@, ""@);
    if t.done {
        t
    } else if 0 < event_time(raw) < cutoff_ms {
        Tally { done: true, ..t }
    } else if kind == "m.room.member"@ {
        Tally { events: t.events.push(member_event(raw)), ..t }
    } else if kind == "m.room.message"@ {
        Tally { counts: one_more(t.counts, field_or(raw, "/sender"@, ""@)), ..t }
    } else {
        t
    }
}

/// What was counted after the first `n` events.
pub open spec fn counted_all(t: Tally, raws: Seq<String>, cutoff_ms: u64, n: int) -> Tally
    decreases n,
{
    if n <= 0 {
        t
    } else {
        counted(counted_all(t, raws, cutoff_ms, n - 1), raws[n - 1]@, cutoff_ms)
    }
}

/// All messages that were counted.
pub open spec fn message_total(counts: Seq<(Seq<char>, u64)>) -> nat
    decreases counts.len(),
{
    if counts.len() == 0 {
        0
    } else {
        message_total(counts.drop_last()) + counts.last().1 as nat
    }
}

proof fn lemma_total_update(counts: Seq<(Seq<char>, u64)>, p: int, e: (Seq<char>, u64))
    requires
        0 <= p < counts.len(),
    ensures
        message_total(counts.update(p, e)) == message_total(counts) - counts[p].1 + e.1,
        counts[p].1 <= message_total(counts),
    decreases counts.len(),
{
    if p == counts.len() - 1 {
        assert(counts.update(p, e).drop_last() =~= counts.drop_last());
    } else {
        lemma_total_update(counts.drop_last(), p, e);
        assert(counts.update(p, e).drop_last() =~= counts.drop_last().update(p, e));
    }
}

/// Counting a message raises the total by one.
pub proof fn law_each_message_counts(counts: Seq<(Seq<char>, u64)>, sender: Seq<char>)
    requires
        message_total(counts) < u64::MAX,
    ensures
        message_total(one_more(counts, sender)) == message_total(counts) + 1,
        entries_get(counts, sender) matches Some(c) ==> c < u64::MAX,
{
    lemma_entry_position(counts, sender, 0);
    let p = entry_position(counts, sender, 0);
    if p < counts.len() {
        lemma_total_update(counts, p, (sender, (counts[p].1 + 1) as u64));
    } else {
        assert(one_more(counts, sender).drop_last() =~= counts);
    }
}

/// The beginning of a period that ends now, in milliseconds.
pub fn cutoff(now_ms: u64, days: u32) -> (r: u64)
    ensures
        r == (if now_ms >= days * DAY_MS {
            now_ms - days * DAY_MS
        } else {
            0
        }),
{
    now_ms.saturating_sub(days as u64 * DAY_MS)
}

/// Metrics of a room, gathered page by page from the newest event back.
pub struct Metrics {
    pub events: Vec<MemberEvent>,
    pub counts: Table<u64>,
    pub done: bool,
    pub pages: u32,
}

impl Metrics {
    /// What was counted.
    pub open spec fn tally(&self) -> Tally {
        Tally {
            events: self.events@.map_values(|e: MemberEvent| e@),
            counts: self.counts.entries(),
            done: self.done,
            pages: self.pages,
        }
    }

    pub fn new() -> (r: Self)
        ensures
            r.tally() == (Tally {
                events: Seq::empty(),
                counts: Seq::empty(),
                done: false,
                pages: 0,
            }),
    {
        let r = Metrics { events: Vec::new(), counts: Table::new(), done: false, pages: 0 };
        assert(r.tally().events =~= Seq::empty());
        assert(r.tally().counts =~= Seq::empty());
        r
    }

    /// Whether another page is to be read, given whether the last one said where
    /// to go on.
    pub fn wants_page(&self, has_token: bool) -> (r: bool)
        ensures
            r == ({
                let t = self.tally();
                !t.done && t.pages < MAX_PAGES && (t.pages == 0 || has_token)
            }),
    {
        !self.done && self.pages < MAX_PAGES && (self.pages == 0 || has_token)
    }

    /// Counts the events of one page, newest first, up to the beginning of the
    /// period.
    pub fn add_page(&mut self, raws: &Vec<String>, cutoff_ms: u64)
        requires
            message_total(old(self).tally().counts) + raws@.len() <= u64::MAX,
            old(self).pages < u32::MAX,
        ensures
            final(self).tally() == counted_all(
                (Tally { pages: (old(self).pages + 1) as u32, ..old(self).tally() }),
                raws@,
                cutoff_ms,
                raws@.len() as int,
            ),
            message_total(final(self).tally().counts) <= message_total(old(self).tally().counts)
                + raws@.len(),
    {
        self.pages = self.pages + 1;
        let ghost start = self.tally();
        assert(start == (Tally { pages: (old(self).pages + 1) as u32, ..old(self).tally() }));
        let mut i: usize = 0;
        while i < raws.len()
            invariant
                i <= raws@.len(),
                start == (Tally { pages: (old(self).pages + 1) as u32, ..old(self).tally() }),
                self.tally() == counted_all(start, raws@, cutoff_ms, i as int),
                message_total(start.counts) + raws@.len() <= u64::MAX,
                message_total(self.tally().counts) <= message_total(start.counts) + i,
            decreases raws@.len() - i,
        {
            self.add_event(&raws[i], cutoff_ms);
            i = i + 1;
        }
    }

    fn add_event(&mut self, raw: &String, cutoff_ms: u64)
        requires
            message_total(old(self).tally().counts) < u64::MAX,
        ensures
            final(self).tally() == counted(old(self).tally(), raw@, cutoff_ms),
            message_total(final(self).tally().counts) <= message_total(old(self).tally().counts)
                + 1,
    {
        if self.done {
            return ;
        }
        let ts_ms: u64 = match json_u64_at(raw, "/origin_server_ts") {
            Some(t) => t,
            None => 0,
        };
        if ts_ms > 0 && ts_ms < cutoff_ms {
            self.done = true;
            return ;
        }
        let kind = field(raw, "/type", "");
        let sender = field(raw, "/sender", "");
        if same(&kind, "m.room.member") {
            let membership = field(raw, "/content/membership", "unknown");
            let target = field(raw, "/state_key", "");
            let event_type: String = if same(&membership, "leave") && !same(&sender, &target) {
                "kick".to_owned()
            } else {
                membership
            };
            let ghost before = self.tally().events;
            self.events.push(
                MemberEvent {
                    ts_ms,
                    event_type,
                    sender,
                    target,
                    reason: field(raw, "/content/reason", ""),
                },
            );
            assert(self.tally().events =~= before.push(member_event(raw@)));
        } else if same(&kind, "m.room.message") {
            proof {
                law_each_message_counts(self.tally().counts, sender@);
            }
            let n: u64 = match self.counts.get(&sender) {
                Some(c) => *c,
                None => 0,
            };
            self.counts.insert(sender, n + 1);
        }
    }
}

fn field(raw: &str, pointer: &str, other: &str) -> (r: String)
    ensures
        r@ == field_or(raw@, pointer@, other@),
{
    match json_str_at(raw, pointer) {
        Some(s) => s,
        None => other.to_owned(),
    }
}

/// How many of the first `n` changes are of a kind.
pub open spec fn kind_count(events: Seq<MemberEventView>, kind: Seq<char>, n: int) -> nat
    decreases n,
{
    if n <= 0 {
        0
    } else {
        kind_count(events, kind, n - 1) + (if events[n - 1].event_type == kind {
            1nat
        } else {
            0
        })
    }
}

fn count_kind(events: &Vec<MemberEvent>, kind: &str) -> (r: usize)
    ensures
        r == kind_count(events@.map_values(|e: MemberEvent| e@), kind@, events@.len() as int),
{
    let ghost views = events@.map_values(|e: MemberEvent| e@);
    let mut n: usize = 0;
    let mut i: usize = 0;
    while i < events.len()
        invariant
            i <= events@.len(),
            n <= i,
            views == events@.map_values(|e: MemberEvent| e@),
            n == kind_count(views, kind@, i as int),
        decreases events@.len() - i,
    {
        assert(views[i as int].event_type == events@[i as int].event_type@);
        if same(&events[i].event_type, kind) {
            n = n + 1;
        }
        i = i + 1;
    }
    n
}

/// Counts from the highest down, senders with the same count in the order in
/// which they were found.
pub open spec fn ranked(counts: Seq<(Seq<char>, u64)>, sorted: Seq<(Seq<char>, u64)>) -> bool {
    exists|perm: Seq<usize>| #[trigger]
        is_permutation(perm, counts.len()) && descending(
            perm,
            counts.map_values(|c: (Seq<char>, u64)| c.1),
        ) && sorted == permute(counts, perm)
}

/// Counts as text and number.
pub open spec fn count_texts(v: Seq<(String, u64)>) -> Seq<(Seq<char>, u64)> {
    v.map_values(|c: (String, u64)| (c.0@, c.1))
}

/// The message counts from the highest down.
pub fn ranked_counts(counts: &Table<u64>) -> (r: Vec<(String, u64)>)
    ensures
        ranked(counts.entries(), count_texts(r@)),
{
    let ghost all = counts.entries();
    let n: usize = counts.len();
    let mut keys: Vec<u64> = Vec::new();
    let mut i: usize = 0;
    while i < n
        invariant
            i <= n,
            n == all.len(),
            all == counts.entries(),
            keys@.len() == i,
            forall|j: int| 0 <= j < i ==> (#[trigger] keys@[j]) == all[j].1,
        decreases n - i,
    {
        keys.push(*counts.value_at(i));
        i = i + 1;
    }
    let perm = descending_order(&keys);
    assert(keys@ =~= all.map_values(|c: (Seq<char>, u64)| c.1));
    let mut out: Vec<(String, u64)> = Vec::new();
    let mut p: usize = 0;
    while p < perm.len()
        invariant
            p <= perm@.len(),
            out@.len() == p,
            all == counts.entries(),
            is_permutation(perm@, all.len()),
            forall|j: int|
                0 <= j < p ==> ((#[trigger] out@[j]).0@, out@[j].1) == all[perm@[j] as int],
        decreases perm@.len() - p,
    {
        let w: usize = perm[p];
        out.push((counts.key_at(w).clone(), *counts.value_at(w)));
        p = p + 1;
    }
    assert(count_texts(out@) =~= permute(all, perm@));
    out
}

/// All messages that were counted.
pub fn total_messages(counts: &Table<u64>) -> (r: u64)
    requires
        message_total(counts.entries()) <= u64::MAX,
    ensures
        r == message_total(counts.entries()),
{
    let ghost all = counts.entries();
    let n: usize = counts.len();
    let mut sum: u64 = 0;
    let mut i: usize = 0;
    assert(all.take(0) =~= Seq::empty());
    while i < n
        invariant
            i <= n,
            n == all.len(),
            all == counts.entries(),
            sum == message_total(all.take(i as int)),
            message_total(all) <= u64::MAX,
        decreases n - i,
    {
        proof {
            assert(all.take(i + 1).drop_last() =~= all.take(i as int));
            assert(all.take(i + 1).last() == all[i as int]);
            lemma_total_prefix(all, i + 1);
        }
        sum = sum + *counts.value_at(i);
        i = i + 1;
    }
    assert(all.take(i as int) =~= all);
    sum
}

proof fn lemma_total_prefix(counts: Seq<(Seq<char>, u64)>, n: int)
    requires
        0 <= n <= counts.len(),
    ensures
        message_total(counts.take(n)) <= message_total(counts),
    decreases counts.len(),
{
    if n == counts.len() {
        assert(counts.take(n) =~= counts);
    } else {
        lemma_total_prefix(counts.drop_last(), n);
        assert(counts.drop_last().take(n) =~= counts.take(n));
    }
}

/// The reason of a change as it stands in a table: commas and line ends would
/// break the row.
pub open spec fn table_cell(reason: Seq<char>) -> Seq<char> {
    replace_char(replace_char(reason, ',', ";"@), '\n', " "@)
}

/// The row of a change.
pub open spec fn event_row(e: MemberEventView) -> Seq<char> {
    decimal(e.ts_ms as nat) + ","@ + date_text(date_of(e.ts_ms as int / 1000 / 86400)) + ","@
        + e.event_type + ","@ + e.sender + ","@ + e.target + ","@ + table_cell(e.reason) + "\n"@
}

/// The rows of the first `n` changes.
pub open spec fn event_rows(events: Seq<MemberEventView>, n: int) -> Seq<char>
    decreases n,
{
    if n <= 0 {
        Seq::empty()
    } else {
        event_rows(events, n - 1) + event_row(events[n - 1])
    }
}

/// The row of a count.
pub open spec fn count_row(c: (Seq<char>, u64)) -> Seq<char> {
    c.0 + ","@ + decimal(c.1 as nat) + "\n"@
}

/// The rows of the first `n` counts.
pub open spec fn count_rows(counts: Seq<(Seq<char>, u64)>, n: int) -> Seq<char>
    decreases n,
{
    if n <= 0 {
        Seq::empty()
    } else {
        count_rows(counts, n - 1) + count_row(counts[n - 1])
    }
}

/// The kinds of changes that the summary counts.
pub struct Sums {
    pub bans: nat,
    pub kicks: nat,
    pub joins: nat,
    pub leaves: nat,
}

pub open spec fn sums_of(events: Seq<MemberEventView>) -> Sums {
    let n = events.len() as int;
    Sums {
        bans: kind_count(events, "ban"@, n),
        kicks: kind_count(events, "kick"@, n),
        joins: kind_count(events, "join"@, n),
        leaves: kind_count(events, "leave"@, n),
    }
}

/// The report as comma-separated values.
pub open spec fn csv_report(
    events: Seq<MemberEventView>,
    counts: Seq<(Seq<char>, u64)>,
    total: u64,
    days: u32,
) -> Seq<char> {
    let s = sums_of(events);
    let period = decimal(days as nat);
    "# Membership Events (last "@ + period + " days)\n"@
        + "timestamp_ms,date,event_type,sender,target,reason\n"@ + event_rows(
        events,
        events.len() as int,
    ) + "\n# Message Counts by User (last "@ + period + " days)\n"@ + "user_id,message_count\n"@
        + count_rows(counts, counts.len() as int) + "\n# Summary\nmetric,value\nperiod_days,"@ + period
        + "\nbans,"@ + decimal(s.bans) + "\nkicks,"@ + decimal(s.kicks) + "\njoins,"@ + decimal(
        s.joins,
    ) + "\nleaves,"@ + decimal(s.leaves) + "\ntotal_messages,"@ + decimal(total as nat)
        + "\nactive_users,"@ + decimal(counts.len()) + "\n"@
}

fn push_event_row(out: &mut Vec<char>, e: &MemberEvent)
    ensures
        final(out)@ == old(out)@ + event_row(e@),
{
    let date = format_unix_date(e.ts_ms / 1000);
    let cell = replaced_char(&replaced_char(&chars_of(&e.reason), ',', ";"), '\n', " ");
    let mut row: Vec<char> = Vec::new();
    push_decimal(&mut row, e.ts_ms as u128);
    assert(row@ =~= decimal(e.ts_ms as nat));
    push_str(&mut row, ",");
    push_str(&mut row, &date);
    push_str(&mut row, ",");
    push_str(&mut row, &e.event_type);
    push_str(&mut row, ",");
    push_str(&mut row, &e.sender);
    push_str(&mut row, ",");
    push_str(&mut row, &e.target);
    push_str(&mut row, ",");
    push_chars(&mut row, &cell);
    push_str(&mut row, "\n");
    push_chars(out, &row);
}

fn push_count_row(out: &mut Vec<char>, c: &(String, u64))
    ensures
        final(out)@ == old(out)@ + count_row((c.0@, c.1)),
{
    let mut row = chars_of(&c.0);
    push_str(&mut row, ",");
    push_decimal(&mut row, c.1 as u128);
    push_str(&mut row, "\n");
    push_chars(out, &row);
}

fn event_rows_of(events: &Vec<MemberEvent>) -> (r: Vec<char>)
    ensures
        r@ == event_rows(events@.map_values(|e: MemberEvent| e@), events@.len() as int),
{
    let ghost views = events@.map_values(|e: MemberEvent| e@);
    let mut out: Vec<char> = Vec::new();
    let mut i: usize = 0;
    while i < events.len()
        invariant
            i <= events@.len(),
            views == events@.map_values(|e: MemberEvent| e@),
            out@ == event_rows(views, i as int),
        decreases events@.len() - i,
    {
        assert(views[i as int] == events@[i as int]@);
        push_event_row(&mut out, &events[i]);
        i = i + 1;
    }
    out
}

fn count_rows_of(counts: &Vec<(String, u64)>) -> (r: Vec<char>)
    ensures
        r@ == count_rows(count_texts(counts@), counts@.len() as int),
{
    let ghost all = count_texts(counts@);
    let mut out: Vec<char> = Vec::new();
    let mut i: usize = 0;
    while i < counts.len()
        invariant
            i <= counts@.len(),
            all == count_texts(counts@),
            out@ == count_rows(all, i as int),
        decreases counts@.len() - i,
    {
        assert(all[i as int] == (counts@[i as int].0@, counts@[i as int].1));
        push_count_row(&mut out, &counts[i]);
        i = i + 1;
    }
    out
}

/// The report as comma-separated values: the changes, the ranked counts, and a
/// summary.
pub fn csv(events: &Vec<MemberEvent>, counts: &Vec<(String, u64)>, total: u64, days: u32) -> (r:
    String)
    ensures
        r@ == csv_report(
            events@.map_values(|e: MemberEvent| e@),
            count_texts(counts@),
            total,
            days,
        ),
{
    let ghost views = events@.map_values(|e: MemberEvent| e@);
    let mut out = chars_of("# Membership Events (last ");
    push_decimal(&mut out, days as u128);
    push_str(&mut out, " days)\n");
    push_str(&mut out, "timestamp_ms,date,event_type,sender,target,reason\n");
    push_chars(&mut out, &event_rows_of(events));
    push_str(&mut out, "\n# Message Counts by User (last ");
    push_decimal(&mut out, days as u128);
    push_str(&mut out, " days)\n");
    push_str(&mut out, "user_id,message_count\n");
    push_chars(&mut out, &count_rows_of(counts));
    push_str(&mut out, "\n# Summary\nmetric,value\nperiod_days,");
    push_decimal(&mut out, days as u128);
    push_str(&mut out, "\nbans,");
    push_decimal(&mut out, count_kind(events, "ban") as u128);
    push_str(&mut out, "\nkicks,");
    push_decimal(&mut out, count_kind(events, "kick") as u128);
    push_str(&mut out, "\njoins,");
    push_decimal(&mut out, count_kind(events, "join") as u128);
    push_str(&mut out, "\nleaves,");
    push_decimal(&mut out, count_kind(events, "leave") as u128);
    push_str(&mut out, "\ntotal_messages,");
    push_decimal(&mut out, total as u128);
    push_str(&mut out, "\nactive_users,");
    push_decimal(&mut out, counts.len() as u128);
    push_str(&mut out, "\n");
    assert(views.len() == events@.len());
    string_of(&out)
}

/// The lines of the first `n` senders of the summary.
pub open spec fn sender_lines(counts: Seq<(Seq<char>, u64)>, n: int) -> Seq<char>
    decreases n,
{
    if n <= 0 {
        Seq::empty()
    } else {
        sender_lines(counts, n - 1) + (if n > 1 {
            "\n"@
        } else {
            Seq::empty()
        }) + "  "@ + counts[n - 1].0 + ": "@ + decimal(counts[n - 1].1 as nat)
    }
}

/// The report in words.
pub open spec fn summary_report(
    room_name: Seq<char>,
    events: Seq<MemberEventView>,
    counts: Seq<(Seq<char>, u64)>,
    total: u64,
    days: u32,
) -> Seq<char> {
    let s = sums_of(events);
    "Room: "@ + room_name + "\nPeriod: last "@ + decimal(days as nat) + " days\nBans: "@ + decimal(
        s.bans,
    ) + "\nKicks: "@ + decimal(s.kicks) + "\nJoins: "@ + decimal(s.joins) + "\nLeaves: "@ + decimal(
        s.leaves,
    ) + "\nTotal messages: "@ + decimal(total as nat) + "\nActive users: "@ + decimal(
        counts.len(),
    ) + "\n\nTop 10 message senders:\n"@ + sender_lines(
        counts,
        (if counts.len() < TOP_SENDERS {
            counts.len() as int
        } else {
            TOP_SENDERS as int
        }),
    )
}

/// The report in words.
pub fn metrics_text(
    room_name: &str,
    events: &Vec<MemberEvent>,
    counts: &Vec<(String, u64)>,
    total: u64,
    days: u32,
) -> (r: String)
    ensures
        r@ == summary_report(
            room_name@,
            events@.map_values(|e: MemberEvent| e@),
            count_texts(counts@),
            total,
            days,
        ),
{
    let ghost views = events@.map_values(|e: MemberEvent| e@);
    let ghost all = count_texts(counts@);
    let mut out = chars_of("Room: ");
    push_str(&mut out, room_name);
    push_str(&mut out, "\nPeriod: last ");
    push_decimal(&mut out, days as u128);
    push_str(&mut out, " days\nBans: ");
    push_decimal(&mut out, count_kind(events, "ban") as u128);
    push_str(&mut out, "\nKicks: ");
    push_decimal(&mut out, count_kind(events, "kick") as u128);
    push_str(&mut out, "\nJoins: ");
    push_decimal(&mut out, count_kind(events, "join") as u128);
    push_str(&mut out, "\nLeaves: ");
    push_decimal(&mut out, count_kind(events, "leave") as u128);
    push_str(&mut out, "\nTotal messages: ");
    push_decimal(&mut out, total as u128);
    push_str(&mut out, "\nActive users: ");
    push_decimal(&mut out, counts.len() as u128);
    push_str(&mut out, "\n\nTop 10 message senders:\n");
    let top: usize = if counts.len() < TOP_SENDERS {
        counts.len()
    } else {
        TOP_SENDERS
    };
    let mut lines: Vec<char> = Vec::new();
    let mut i: usize = 0;
    while i < top
        invariant
            i <= top <= counts@.len(),
            all == count_texts(counts@),
            lines@ == sender_lines(all, i as int),
        decreases top - i,
    {
        let ghost before = lines@;
        if i > 0 {
            push_str(&mut lines, "\n");
        }
        push_str(&mut lines, "  ");
        push_str(&mut lines, &counts[i].0);
        push_str(&mut lines, ": ");
        push_decimal(&mut lines, counts[i].1 as u128);
        proof {
            assert(all[i as int] == (counts@[i as int].0@, counts@[i as int].1));
            assert(lines@ =~= sender_lines(all, i + 1));
        }
        i = i + 1;
    }
    push_chars(&mut out, &lines);
    assert(views.len() == events@.len());
    string_of(&out)
}

/// The name of the report file.
pub open spec fn report_name(room_name: Seq<char>, now_secs: u64) -> Seq<char> {
    room_name.map_values(
        |c: char|
            if alphanumeric(c) || c == '-' {
                c
            } else {
                '_'
            },
    ) + "_metrics_"@ + date_text(date_of(now_secs as int / 86400)) + ".csv"@
}

/// The name of the report file.
pub fn report_file_name(room_name: &str, now_secs: u64) -> (r: String)
    ensures
        r@ == report_name(room_name@, now_secs),
{
    let name = chars_of(room_name);
    let mut out: Vec<char> = Vec::new();
    let mut i: usize = 0;
    while i < name.len()
        invariant
            i <= name@.len(),
            name@ == room_name@,
            out@.len() == i,
            forall|j: int|
                0 <= j < i ==> (#[trigger] out@[j]) == (if alphanumeric(name@[j]) || name@[j]
                    == '-' {
                    name@[j]
                } else {
                    '_'
                }),
        decreases name@.len() - i,
    {
        let c: char = name[i];
        out.push(
            if c.is_alphanumeric() || c == '-' {
                c
            } else {
                '_'
            },
        );
        i = i + 1;
    }
    assert(out@ =~= room_name@.map_values(
        |c: char|
            if alphanumeric(c) || c == '-' {
                c
            } else {
                '_'
            },
    ));
    push_str(&mut out, "_metrics_");
    push_str(&mut out, &format_unix_date(now_secs));
    push_str(&mut out, ".csv");
    string_of(&out)
}

/// What is reported when the room of a report is not known.
pub fn no_such_room() -> (r: MatrixEvent)
    ensures
        r matches MatrixEvent::MetricsFailed { error } && error@ == "Room not found"@,
{
    MatrixEvent::MetricsFailed { error: "Room not found".to_owned() }
}

/// What is reported about a report that was written to a file, or could not be.
pub fn finish_metrics(
    room_name: &str,
    metrics: &Metrics,
    days: u32,
    path: String,
    written: Result<(), String>,
) -> (r: MatrixEvent)
    requires
        message_total(metrics.tally().counts) <= u64::MAX,
        metrics.tally().events.len() + metrics.tally().counts.len() <= usize::MAX,
    ensures
        match written {
            Ok(_) => r matches MatrixEvent::MetricsReady { path: at, event_count, metrics_text } && at
                == path && event_count == metrics.tally().events.len() + metrics.tally().counts.len()
                && exists|sorted: Seq<(Seq<char>, u64)>| #[trigger]
                ranked(metrics.tally().counts, sorted) && metrics_text@ == summary_report(
                    room_name@,
                    metrics.tally().events,
                    sorted,
                    message_total(metrics.tally().counts) as u64,
                    days,
                ),
            Err(why) => r == (MatrixEvent::MetricsFailed { error: why }),
        },
{
    match written {
        Err(error) => MatrixEvent::MetricsFailed { error },
        Ok(_) => {
            let counts = ranked_counts(&metrics.counts);
            let total: u64 = total_messages(&metrics.counts);
            let text = metrics_text(room_name, &metrics.events, &counts, total, days);
            assert(ranked(metrics.tally().counts, count_texts(counts@)));
            MatrixEvent::MetricsReady {
                path,
                event_count: metrics.events.len() + metrics.counts.len(),
                metrics_text: text,
            }
        },
    }
}

proof fn lemma_replace_char(s: Seq<char>, c: char, to: Seq<char>, d: char)
    requires
        !to.contains(d),
        d == c || !s.contains(d),
    ensures
        !replace_char(s, c, to).contains(d),
    decreases s.len(),
{
    if s.len() > 0 {
        let rest = replace_char(s.drop_last(), c, to);
        assert forall|i: int| 0 <= i < s.drop_last().len() implies s.drop_last()[i] != d || d == c by {
            assert(s.drop_last()[i] == s[i]);
        }
        lemma_replace_char(s.drop_last(), c, to, d);
        let all = replace_char(s, c, to);
        assert forall|i: int| 0 <= i < all.len() implies all[i] != d by {
            if i < rest.len() {
                assert(all[i] == rest[i]);
            } else if s.last() == c {
                assert(all[i] == to[i - rest.len()]);
            } else {
                assert(all[i] == s[s.len() - 1]);
            }
        }
    }
}

/// The reason of a change, whatever it holds, takes up one cell of its row.
pub proof fn law_reason_is_one_cell(reason: Seq<char>)
    ensures
        !table_cell(reason).contains(','),
        !table_cell(reason).contains('\n'),
{
    reveal_strlit(";");
    reveal_strlit(" ");
    let semi = replace_char(reason, ',', ";"@);
    lemma_replace_char(reason, ',', ";"@, ',');
    lemma_replace_char(semi, '\n', " "@, ',');
    lemma_replace_char(semi, '\n', " "@, '\n');
}

/// A raw event of a kind, at a time.
pub open spec fn event_is(raw: Seq<char>, kind: Seq<char>, at: u64) -> bool {
    json_string(raw, "/type"@) == Some(kind) && json_number(raw, "/origin_server_ts"@) == Some(at)
}

proof fn lemma_kinds_differ()
    ensures
        "m.room.member"@ != "m.room.message"@,
{
    reveal_strlit("m.room.member");
    reveal_strlit("m.room.message");
    assert("m.room.member"@.len() == 13);
    assert("m.room.message"@.len() == 14);
}

/// A membership change in the period is listed, and changes no message count; a
/// message in the period is counted for its sender, and lists no change. What is
/// older than the period ends the count, and adds nothing.
pub proof fn law_events_of_the_period_count(t: Tally, raw: Seq<char>, at: u64, cutoff_ms: u64)
    requires
        !t.done,
        message_total(t.counts) < u64::MAX,
    ensures
        ({
            let then = counted(t, raw, cutoff_ms);
            &&& event_is(raw, "m.room.member"@, at) && at >= cutoff_ms ==> then.events.len()
                == t.events.len() + 1 && then.counts == t.counts && !then.done
            &&& event_is(raw, "m.room.message"@, at) && at >= cutoff_ms ==> then.events == t.events
                && message_total(then.counts) == message_total(t.counts) + 1 && !then.done
            &&& json_number(raw, "/origin_server_ts"@) == Some(at) && 0 < at < cutoff_ms ==> then.done
                && then.events == t.events && then.counts == t.counts
            &&& then.pages == t.pages
        }),
{
    lemma_kinds_differ();
    law_each_message_counts(t.counts, field_or(raw, "/sender"@, ""@));
}

/// A message is counted for its sender, one more than before, and for nobody else.
pub proof fn law_messages_count_for_their_sender(
    t: Tally,
    raw: Seq<char>,
    at: u64,
    cutoff_ms: u64,
    sender: Seq<char>,
    other: Seq<char>,
)
    requires
        !t.done,
        message_total(t.counts) < u64::MAX,
        event_is(raw, "m.room.message"@, at),
        at >= cutoff_ms,
        json_string(raw, "/sender"@) == Some(sender),
        other != sender,
        distinct_keys(t.counts),
    ensures
        ({
            let then = counted(t, raw, cutoff_ms).counts;
            let before: u64 = match entries_get(t.counts, sender) {
                Some(c) => c,
                None => 0,
            };
            &&& entries_get(then, sender) == Some((before + 1) as u64)
            &&& entries_get(then, other) == entries_get(t.counts, other)
        }),
{
    lemma_kinds_differ();
    let before: u64 = match entries_get(t.counts, sender) {
        Some(c) => c,
        None => 0,
    };
    law_each_message_counts(t.counts, sender);
    law_insert_get(t.counts, sender, (before + 1) as u64, other);
}

/// Who leaves by themselves leaves; who is made to leave by another is kicked. All
/// other changes keep their kind, and every change keeps its time, who made it,
/// whom it is about, and why.
pub proof fn law_kicks_are_told_from_leaves(raw: Seq<char>, sender: Seq<char>, target: Seq<char>)
    requires
        json_string(raw, "/sender"@) == Some(sender),
        json_string(raw, "/state_key"@) == Some(target),
    ensures
        ({
            let e = member_event(raw);
            let change = json_string(raw, "/content/membership"@);
            let at = json_number(raw, "/origin_server_ts"@);
            let why = json_string(raw, "/content/reason"@);
            &&& change == Some("leave"@) && sender == target ==> e.event_type == "leave"@
            &&& change == Some("leave"@) && sender != target ==> e.event_type == "kick"@
            &&& change is Some && change != Some("leave"@) ==> Some(e.event_type) == change
            &&& e.sender == sender && e.target == target
            &&& at is Some ==> e.ts_ms == at->0
            &&& why is Some ==> e.reason == why->0
        }),
{
}

/// Once the beginning of the period is reached, nothing older is counted.
pub proof fn law_nothing_older_counts(t: Tally, raws: Seq<String>, cutoff_ms: u64, i: int, n: int)
    requires
        0 <= i < n <= raws.len(),
        0 < event_time(raws[i]@) < cutoff_ms,
    ensures
        counted_all(t, raws, cutoff_ms, n).done,
        counted_all(t, raws, cutoff_ms, n).events == counted_all(t, raws, cutoff_ms, i).events,
        counted_all(t, raws, cutoff_ms, n).counts == counted_all(t, raws, cutoff_ms, i).counts,
    decreases n,
{
    if i < n - 1 {
        law_nothing_older_counts(t, raws, cutoff_ms, i, n - 1);
    }
}

/// The summary counts each kind of change as often as it happened.
pub proof fn law_summary_counts_kinds(events: Seq<MemberEventView>, e: MemberEventView)
    ensures
        ({
            let s = sums_of(events);
            let then = sums_of(events.push(e));
            &&& then.bans == s.bans + (if e.event_type == "ban"@ {
                1int
            } else {
                0
            })
            &&& then.kicks == s.kicks + (if e.event_type == "kick"@ {
                1int
            } else {
                0
            })
            &&& then.joins == s.joins + (if e.event_type == "join"@ {
                1int
            } else {
                0
            })
            &&& then.leaves == s.leaves + (if e.event_type == "leave"@ {
                1int
            } else {
                0
            })
        }),
{
    let all = events.push(e);
    let n = events.len() as int;
    lemma_kind_prefix(events, e, "ban"@, n);
    lemma_kind_prefix(events, e, "kick"@, n);
    lemma_kind_prefix(events, e, "join"@, n);
    lemma_kind_prefix(events, e, "leave"@, n);
    assert(all[n] == e);
}

proof fn lemma_kind_prefix(events: Seq<MemberEventView>, e: MemberEventView, kind: Seq<char>, n: int)
    requires
        0 <= n <= events.len(),
    ensures
        kind_count(events.push(e), kind, n) == kind_count(events, kind, n),
    decreases n,
{
    if n > 0 {
        lemma_kind_prefix(events, e, kind, n - 1);
        assert(events.push(e)[n - 1] == events[n - 1]);
    }
}

/// In a ranking nobody stands before somebody with more messages, and as many
/// stand in it as were counted.
pub proof fn law_ranking_goes_down(
    counts: Seq<(Seq<char>, u64)>,
    sorted: Seq<(Seq<char>, u64)>,
    i: int,
    j: int,
)
    requires
        ranked(counts, sorted),
        0 <= i < j < sorted.len(),
    ensures
        sorted.len() == counts.len(),
        sorted[i].1 >= sorted[j].1,
{
    let perm = choose|perm: Seq<usize>| #[trigger]
        is_permutation(perm, counts.len()) && descending(
            perm,
            counts.map_values(|c: (Seq<char>, u64)| c.1),
        ) && sorted == permute(counts, perm);
    let keys = counts.map_values(|c: (Seq<char>, u64)| c.1);
    assert(keys[perm[i] as int] == counts[perm[i] as int].1);
    assert(keys[perm[j] as int] == counts[perm[j] as int].1);
}

/// The report has one row for each change and for each sender, in their order.
pub proof fn law_report_rows(
    events: Seq<MemberEventView>,
    e: MemberEventView,
    counts: Seq<(Seq<char>, u64)>,
    c: (Seq<char>, u64),
)
    ensures
        event_rows(events.push(e), events.len() as int + 1) == event_rows(
            events,
            events.len() as int,
        ) + (decimal(e.ts_ms as nat) + ","@ + date_text(date_of(e.ts_ms as int / 1000 / 86400)) + ","@
            + e.event_type + ","@ + e.sender + ","@ + e.target + ","@ + table_cell(e.reason) + "\n"@),
        count_rows(counts.push(c), counts.len() as int + 1) == count_rows(
            counts,
            counts.len() as int,
        ) + (c.0 + ","@ + decimal(c.1 as nat) + "\n"@),
{
    lemma_event_rows(events, e, events.len() as int);
    lemma_count_rows(counts, c, counts.len() as int);
    assert(events.push(e)[events.len() as int] == e);
    assert(counts.push(c)[counts.len() as int] == c);
}

proof fn lemma_event_rows(events: Seq<MemberEventView>, e: MemberEventView, n: int)
    requires
        0 <= n <= events.len(),
    ensures
        event_rows(events.push(e), n) == event_rows(events, n),
    decreases n,
{
    if n > 0 {
        lemma_event_rows(events, e, n - 1);
        assert(events.push(e)[n - 1] == events[n - 1]);
    }
}

proof fn lemma_count_rows(counts: Seq<(Seq<char>, u64)>, c: (Seq<char>, u64), n: int)
    requires
        0 <= n <= counts.len(),
    ensures
        count_rows(counts.push(c), n) == count_rows(counts, n),
    decreases n,
{
    if n > 0 {
        lemma_count_rows(counts, c, n - 1);
        assert(counts.push(c)[n - 1] == counts[n - 1]);
    }
}

/// A report file is named by its room, where characters that do not suit a file name
/// are replaced, and by its day.
pub proof fn law_report_is_named_by_room_and_day(room_name: Seq<char>, now_secs: u64, i: int)
    requires
        0 <= i < room_name.len(),
    ensures
        ({
            let name = report_name(room_name, now_secs);
            let end = "_metrics_"@ + date_text(date_of(now_secs as int / 86400)) + ".csv"@;
            &&& name.len() == room_name.len() + end.len()
            &&& name.skip(room_name.len() as int) == end
            &&& alphanumeric(room_name[i]) || room_name[i] == '-' ==> name[i] == room_name[i]
            &&& !alphanumeric(room_name[i]) && room_name[i] != '-' ==> name[i] == '_'
        }),
{
    let name = report_name(room_name, now_secs);
    let end = "_metrics_"@ + date_text(date_of(now_secs as int / 86400)) + ".csv"@;
    assert(name.skip(room_name.len() as int) == end);
}

/// The summary lists senders one to a line, each with their count, and ten of them
/// at most.
pub proof fn law_summary_lists_ten_senders(
    room_name: Seq<char>,
    events: Seq<MemberEventView>,
    counts: Seq<(Seq<char>, u64)>,
    total: u64,
    days: u32,
    n: int,
)
    requires
        0 < n < counts.len(),
    ensures
        sender_lines(counts, 1) == "  "@ + counts[0].0 + ": "@ + decimal(counts[0].1 as nat),
        sender_lines(counts, n + 1) == sender_lines(counts, n) + "\n"@ + "  "@ + counts[n].0 + ": "@
            + decimal(counts[n].1 as nat),
        counts.len() >= 10 ==> ends_with(
            summary_report(room_name, events, counts, total, days),
            "\n\nTop 10 message senders:\n"@ + sender_lines(counts, 10),
        ),
        counts.len() < 10 ==> ends_with(
            summary_report(room_name, events, counts, total, days),
            "\n\nTop 10 message senders:\n"@ + sender_lines(counts, counts.len() as int),
        ),
{
    reveal_with_fuel(sender_lines, 2);
    assert(sender_lines(counts, 1) == "  "@ + counts[0].0 + ": "@ + decimal(counts[0].1 as nat));
    let k: int = if counts.len() < 10 {
        counts.len() as int
    } else {
        10
    };
    let s = sums_of(events);
    let head = "Room: "@ + room_name + "\nPeriod: last "@ + decimal(days as nat) + " days\nBans: "@
        + decimal(s.bans) + "\nKicks: "@ + decimal(s.kicks) + "\nJoins: "@ + decimal(s.joins)
        + "\nLeaves: "@ + decimal(s.leaves) + "\nTotal messages: "@ + decimal(total as nat)
        + "\nActive users: "@ + decimal(counts.len());
    let title = "\n\nTop 10 message senders:\n"@;
    lemma_ends(head, title);
    lemma_behind(head + title, title, sender_lines(counts, k));
}

proof fn lemma_ends(a: Seq<char>, b: Seq<char>)
    ensures
        ends_with(a + b, b),
{
    let all = a + b;
    assert(all.subrange(all.len() - b.len(), all.len() as int) == b);
}

proof fn lemma_behind(a: Seq<char>, b: Seq<char>, c: Seq<char>)
    requires
        ends_with(a, b),
    ensures
        ends_with(a + c, b + c),
{
    let n = a.len() - b.len();
    let all = a + c;
    let end = b + c;
    assert(a.subrange(n, a.len() as int) == b);
    assert(all.subrange(n, all.len() as int) == end) by {
        assert forall|i: int| 0 <= i < end.len() implies all.subrange(n, all.len() as int)[i]
            == end[i] by {
            if i < b.len() {
                assert(a.subrange(n, a.len() as int)[i] == b[i]);
            }
        }
    }
}

/// The report ends with the numbers of its summary.
pub proof fn law_report_ends_with_its_totals(
    events: Seq<MemberEventView>,
    counts: Seq<(Seq<char>, u64)>,
    total: u64,
    days: u32,
)
    ensures
        ({
            let s = sums_of(events);
            ends_with(
                csv_report(events, counts, total, days),
                "\nbans,"@ + decimal(s.bans) + "\nkicks,"@ + decimal(s.kicks) + "\njoins,"@ + decimal(
                    s.joins,
                ) + "\nleaves,"@ + decimal(s.leaves) + "\ntotal_messages,"@ + decimal(total as nat)
                    + "\nactive_users,"@ + decimal(counts.len()) + "\n"@,
            )
        }),
{
    let s = sums_of(events);
    let period = decimal(days as nat);
    let a0 = "# Membership Events (last "@ + period + " days)\n"@
        + "timestamp_ms,date,event_type,sender,target,reason\n"@ + event_rows(
        events,
        events.len() as int,
    ) + "\n# Message Counts by User (last "@ + period + " days)\n"@ + "user_id,message_count\n"@
        + count_rows(counts, counts.len() as int) + "\n# Summary\nmetric,value\nperiod_days,"@
        + period;
    let b1 = "\nbans,"@;
    lemma_ends(a0, b1);
    let a1 = a0 + b1;
    lemma_behind(a1, b1, decimal(s.bans));
    let a2 = a1 + decimal(s.bans);
    let b2 = b1 + decimal(s.bans);
    lemma_behind(a2, b2, "\nkicks,"@);
    let a3 = a2 + "\nkicks,"@;
    let b3 = b2 + "\nkicks,"@;
    lemma_behind(a3, b3, decimal(s.kicks));
    let a4 = a3 + decimal(s.kicks);
    let b4 = b3 + decimal(s.kicks);
    lemma_behind(a4, b4, "\njoins,"@);
    let a5 = a4 + "\njoins,"@;
    let b5 = b4 + "\njoins,"@;
    lemma_behind(a5, b5, decimal(s.joins));
    let a6 = a5 + decimal(s.joins);
    let b6 = b5 + decimal(s.joins);
    lemma_behind(a6, b6, "\nleaves,"@);
    let a7 = a6 + "\nleaves,"@;
    let b7 = b6 + "\nleaves,"@;
    lemma_behind(a7, b7, decimal(s.leaves));
    let a8 = a7 + decimal(s.leaves);
    let b8 = b7 + decimal(s.leaves);
    lemma_behind(a8, b8, "\ntotal_messages,"@);
    let a9 = a8 + "\ntotal_messages,"@;
    let b9 = b8 + "\ntotal_messages,"@;
    lemma_behind(a9, b9, decimal(total as nat));
    let a10 = a9 + decimal(total as nat);
    let b10 = b9 + decimal(total as nat);
    lemma_behind(a10, b10, "\nactive_users,"@);
    let a11 = a10 + "\nactive_users,"@;
    let b11 = b10 + "\nactive_users,"@;
    lemma_behind(a11, b11, decimal(counts.len()));
    let a12 = a11 + decimal(counts.len());
    let b12 = b11 + decimal(counts.len());
    lemma_behind(a12, b12, "\n"@);
}

/// A period of some days begins that many days ago, a day having 86400 seconds, or at
/// the beginning of time.
pub proof fn law_periods_begin_days_ago(now_ms: u64, days: u32, begin: u64)
    requires
        call_ensures(cutoff, (now_ms, days), begin),
    ensures
        now_ms >= days * 86400000 ==> begin + days * 86400000 == now_ms,
        now_ms < days * 86400000 ==> begin == 0,
{
}

/// Pages are read while there are more and the beginning of the period is not
/// reached, two hundred at most.
pub proof fn law_pages_are_read_to_the_beginning(m: &Metrics, has_token: bool, more: bool)
    requires
        call_ensures(Metrics::wants_page, (m, has_token), more),
    ensures
        m.tally().done ==> !more,
        m.tally().pages >= 200 ==> !more,
        m.tally().pages > 0 && !has_token ==> !more,
        !m.tally().done && m.tally().pages == 0 ==> more,
        !m.tally().done && 0 < m.tally().pages < 200 && has_token ==> more,
{
}

} // verus!

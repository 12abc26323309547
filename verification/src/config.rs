//! The settings of the user.

use vstd::prelude::*;
use vstd::std_specs::cmp::PartialEqSpecImpl;
use crate::text::{chars_of, distinct, distinct_texts, find_char, find_char_from, has_text, is_space,
    lemma_find_char, slice_of, string_of, trim, trim_end, trim_start, trimmed, views};

verus! {

pub const APP_ID: &'static str = "me.ramkrishna.hikyaku";

pub const APP_NAME: &'static str = "Hikyaku";

/// User-facing settings.
#[derive(Debug, Clone, PartialEq)]
pub struct Settings {
    pub rooms: RoomSettings,
    pub sync: SyncSettings,
    pub appearance: AppearanceSettings,
    pub ollama: OllamaSettings,
    pub plugins: PluginsSettings,
    pub watch: WatchSettings,
    /// Pinned contacts for completion: "Display Name|@user:server" entries.
    pub rolodex: Vec<String>,
}

/// Settings of the room interest watcher.
#[derive(Debug, Clone, PartialEq)]
pub struct WatchSettings {
    pub enabled: bool,
    pub terms: Vec<String>,
}

/// Which plugins are active.
#[derive(Debug, Clone, Copy, PartialEq, Eq, Structural)]
pub struct PluginsSettings {
    /// The contact book.
    pub rolodex: bool,
    /// Pinning of messages.
    pub pinning: bool,
    /// The tracker of room topics.
    pub motd: bool,
    /// The community health monitor.
    pub community_health: bool,
}

#[derive(Debug, Clone, PartialEq)]
pub struct OllamaSettings {
    pub endpoint: String,
    pub model: String,
    /// Whether summaries are enabled.
    pub enabled: bool,
    /// Whether the setup dialog has been shown.
    pub setup_done: bool,
    /// Extra instructions for summaries.
    pub room_preview_extra: String,
    /// Whether summaries look for conflicts and spam.
    pub detect_conflict: bool,
    /// Whether summaries look for breaches of a code of conduct.
    pub detect_coc: bool,
}

#[derive(Debug, Clone)]
pub struct RoomSettings {
    /// The pinned rooms, each once.
    pub pinned_rooms: Vec<String>,
}

/// Whether every text of the first list stands in the second.
pub open spec fn all_listed(a: Seq<Seq<char>>, b: Seq<Seq<char>>) -> bool {
    forall|i: int| 0 <= i < a.len() ==> b.contains(#[trigger] a[i])
}

/// Whether every text of the first list stands in the second.
fn lists_all(a: &Vec<String>, b: &Vec<String>) -> (r: bool)
    ensures
        r == all_listed(views(a@), views(b@)),
{
    let mut i: usize = 0;
    while i < a.len()
        invariant
            i <= a@.len(),
            forall|k: int| 0 <= k < i ==> views(b@).contains(#[trigger] views(a@)[k]),
        decreases a@.len() - i,
    {
        assert(views(a@)[i as int] == a@[i as int]@);
        if !has_text(b, &a[i]) {
            return false;
        }
        i = i + 1;
    }
    true
}

impl PartialEq for RoomSettings {
    /// The same rooms are pinned, in whatever order they are listed.
    fn eq(&self, other: &Self) -> (r: bool) {
        lists_all(&self.pinned_rooms, &other.pinned_rooms) && lists_all(
            &other.pinned_rooms,
            &self.pinned_rooms,
        )
    }
}

impl PartialEqSpecImpl for RoomSettings {
    open spec fn obeys_eq_spec() -> bool {
        true
    }

    open spec fn eq_spec(&self, other: &Self) -> bool {
        all_listed(views(self.pinned_rooms@), views(other.pinned_rooms@)) && all_listed(
            views(other.pinned_rooms@),
            views(self.pinned_rooms@),
        )
    }
}

#[derive(Debug, Clone, PartialEq)]
pub struct AppearanceSettings {
    pub font_family: String,
    pub font_size: u32,
    pub tint_color: String,
    /// Gradient end color for the message area; empty for a solid tint.
    pub tint_color2: String,
    pub sidebar_tint_color: String,
    /// Gradient end color for the sidebar; empty for a solid tint.
    pub sidebar_tint_color2: String,
    /// Color sender names by their user id.
    pub colorize_nicks: bool,
    /// Highlight color for bookmarked messages.
    pub bookmark_highlight_color: String,
    /// Background color for new messages.
    pub new_message_highlight_color: String,
}

#[derive(Debug, Clone, Copy, PartialEq, Eq, Structural)]
pub struct SyncSettings {
    pub timeline_limit: u32,
    pub timeout_secs: u64,
}

/// The settings as they are stored: lists may hold a text twice, and numbers may
/// be out of range.
#[derive(Debug)]
pub struct StoredSettings {
    pub pinned_rooms: Vec<String>,
    pub timeline_limit: i32,
    pub timeout_secs: i32,
    pub font_size: i32,
    pub font_family: String,
    pub tint_color: String,
    pub tint_color2: String,
    pub sidebar_tint_color: String,
    pub sidebar_tint_color2: String,
    pub colorize_nicks: bool,
    pub bookmark_highlight_color: String,
    pub new_message_highlight_color: String,
    pub ollama: OllamaSettings,
    pub plugins: PluginsSettings,
    pub watch: WatchSettings,
    pub rolodex: Vec<String>,
}

/// A number that is no less than a bound.
pub open spec fn at_least(n: i32, low: i32) -> i32 {
    if n < low {
        low
    } else {
        n
    }
}

/// Reads the stored settings. At least one event and one second are asked for in
/// a sync, and the font is not too small to read.
pub fn settings(stored: StoredSettings) -> (r: Settings)
    ensures
        views(r.rooms.pinned_rooms@) == distinct(
            views(stored.pinned_rooms@),
            stored.pinned_rooms@.len() as int,
        ),
        r.sync.timeline_limit == at_least(stored.timeline_limit, 1),
        r.sync.timeout_secs == at_least(stored.timeout_secs, 1),
        r.appearance.font_size == at_least(stored.font_size, 6),
        r.appearance.font_family == stored.font_family,
        r.appearance.tint_color == stored.tint_color,
        r.appearance.tint_color2 == stored.tint_color2,
        r.appearance.sidebar_tint_color == stored.sidebar_tint_color,
        r.appearance.sidebar_tint_color2 == stored.sidebar_tint_color2,
        r.appearance.colorize_nicks == stored.colorize_nicks,
        r.appearance.bookmark_highlight_color == stored.bookmark_highlight_color,
        r.appearance.new_message_highlight_color == stored.new_message_highlight_color,
        r.ollama == stored.ollama,
        r.plugins == stored.plugins,
        r.watch == stored.watch,
        r.rolodex == stored.rolodex,
{
    let pinned_rooms = distinct_texts(&stored.pinned_rooms);
    Settings {
        rooms: RoomSettings { pinned_rooms },
        sync: SyncSettings {
            timeline_limit: raised(stored.timeline_limit, 1) as u32,
            timeout_secs: raised(stored.timeout_secs, 1) as u64,
        },
        appearance: AppearanceSettings {
            font_family: stored.font_family,
            font_size: raised(stored.font_size, 6) as u32,
            tint_color: stored.tint_color,
            tint_color2: stored.tint_color2,
            sidebar_tint_color: stored.sidebar_tint_color,
            sidebar_tint_color2: stored.sidebar_tint_color2,
            colorize_nicks: stored.colorize_nicks,
            bookmark_highlight_color: stored.bookmark_highlight_color,
            new_message_highlight_color: stored.new_message_highlight_color,
        },
        ollama: stored.ollama,
        plugins: stored.plugins,
        watch: stored.watch,
        rolodex: stored.rolodex,
    }
}

fn raised(n: i32, low: i32) -> (r: i32)
    ensures
        r == at_least(n, low),
{
    if n < low {
        low
    } else {
        n
    }
}

/// Whether the numbers of the settings can be stored and are not raised when they
/// are read.
pub open spec fn storable(s: Settings) -> bool {
    &&& 1 <= s.sync.timeline_limit <= i32::MAX
    &&& 1 <= s.sync.timeout_secs <= i32::MAX
    &&& 6 <= s.appearance.font_size <= i32::MAX
}

/// The settings as they are stored. Numbers are stored in 32 bits.
pub fn save_settings(s: Settings) -> (r: StoredSettings)
    ensures
        r.pinned_rooms == s.rooms.pinned_rooms,
        s.sync.timeline_limit <= i32::MAX ==> r.timeline_limit == s.sync.timeline_limit,
        s.sync.timeout_secs <= i32::MAX ==> r.timeout_secs == s.sync.timeout_secs,
        s.appearance.font_size <= i32::MAX ==> r.font_size == s.appearance.font_size,
        r.timeline_limit == s.sync.timeline_limit as i32,
        r.timeout_secs == s.sync.timeout_secs as i32,
        r.font_size == s.appearance.font_size as i32,
        r.font_family == s.appearance.font_family,
        r.tint_color == s.appearance.tint_color,
        r.tint_color2 == s.appearance.tint_color2,
        r.sidebar_tint_color == s.appearance.sidebar_tint_color,
        r.sidebar_tint_color2 == s.appearance.sidebar_tint_color2,
        r.colorize_nicks == s.appearance.colorize_nicks,
        r.bookmark_highlight_color == s.appearance.bookmark_highlight_color,
        r.new_message_highlight_color == s.appearance.new_message_highlight_color,
        r.ollama == s.ollama,
        r.plugins == s.plugins,
        r.watch == s.watch,
        r.rolodex == s.rolodex,
{
    StoredSettings {
        pinned_rooms: s.rooms.pinned_rooms,
        timeline_limit: #[verifier::truncate]
        (s.sync.timeline_limit as i32),
        timeout_secs: #[verifier::truncate]
        (s.sync.timeout_secs as i32),
        font_size: #[verifier::truncate]
        (s.appearance.font_size as i32),
        font_family: s.appearance.font_family,
        tint_color: s.appearance.tint_color,
        tint_color2: s.appearance.tint_color2,
        sidebar_tint_color: s.appearance.sidebar_tint_color,
        sidebar_tint_color2: s.appearance.sidebar_tint_color2,
        colorize_nicks: s.appearance.colorize_nicks,
        bookmark_highlight_color: s.appearance.bookmark_highlight_color,
        new_message_highlight_color: s.appearance.new_message_highlight_color,
        ollama: s.ollama,
        plugins: s.plugins,
        watch: s.watch,
        rolodex: s.rolodex,
    }
}

/// A contact of the rolodex: what stands before and behind the first bar, without
/// the white space around it. None where there is no bar or a part is empty.
pub open spec fn contact_of(entry: Seq<char>) -> Option<(Seq<char>, Seq<char>)> {
    let p = find_char(entry, '|', 0);
    let name = trim(entry.subrange(0, p));
    let uid = trim(entry.skip(p + 1));
    if p < entry.len() && name.len() > 0 && uid.len() > 0 {
        Some((name, uid))
    } else {
        None
    }
}

/// The contacts of the first `n` entries.
pub open spec fn contacts(entries: Seq<Seq<char>>, n: int) -> Seq<(Seq<char>, Seq<char>)>
    decreases n,
{
    if n <= 0 {
        Seq::empty()
    } else {
        match contact_of(entries[n - 1]) {
            Some(c) => contacts(entries, n - 1).push(c),
            None => contacts(entries, n - 1),
        }
    }
}

/// Reads the entries of the rolodex as display names and user ids. Entries that
/// cannot be read are passed over.
pub fn parse_rolodex(entries: &Vec<String>) -> (r: Vec<(String, String)>)
    ensures
        r@.map_values(|c: (String, String)| (c.0@, c.1@)) == contacts(
            views(entries@),
            entries@.len() as int,
        ),
{
    let ghost all = views(entries@);
    let mut out: Vec<(String, String)> = Vec::new();
    let mut i: usize = 0;
    assert(out@.map_values(|c: (String, String)| (c.0@, c.1@)) =~= Seq::empty());
    while i < entries.len()
        invariant
            i <= entries@.len(),
            all == views(entries@),
            out@.map_values(|c: (String, String)| (c.0@, c.1@)) == contacts(all, i as int),
        decreases entries@.len() - i,
    {
        let ghost before = out@.map_values(|c: (String, String)| (c.0@, c.1@));
        assert(all[i as int] == entries@[i as int]@);
        let v = chars_of(&entries[i]);
        let p: usize = find_char_from(&v, '|', 0);
        if p < v.len() {
            let name = trimmed(&slice_of(&v, 0, p));
            let rest = slice_of(&v, p + 1, v.len());
            assert(rest@ =~= v@.skip(p + 1));
            let uid = trimmed(&rest);
            if name.len() > 0 && uid.len() > 0 {
                out.push((string_of(&name), string_of(&uid)));
                assert(out@.map_values(|c: (String, String)| (c.0@, c.1@)) =~= before.push(
                    (name@, uid@),
                ));
            }
        }
        i = i + 1;
    }
    out
}

proof fn lemma_distinct_twice(ids: Seq<Seq<char>>, n: int)
    requires
        0 <= n <= ids.len(),
        ids.no_duplicates(),
    ensures
        distinct(ids, n) == ids.take(n),
    decreases n,
{
    if n > 0 {
        lemma_distinct_twice(ids, n - 1);
        let rest = ids.take(n - 1);
        assert(!rest.contains(ids[n - 1])) by {
            if rest.contains(ids[n - 1]) {
                let i = choose|i: int| 0 <= i < rest.len() && rest[i] == ids[n - 1];
                assert(ids[i] == ids[n - 1]);
            }
        }
        assert(ids.take(n) =~= rest.push(ids[n - 1]));
    } else {
        assert(ids.take(n) =~= Seq::empty());
    }
}

/// Settings that are saved and read again are what they were: the pinned rooms,
/// which stand once each, come back in their order, and numbers in range come
/// back as they were.
pub proof fn law_settings_round_trip(s: Settings)
    requires
        storable(s),
        views(s.rooms.pinned_rooms@).no_duplicates(),
    ensures
        distinct(views(s.rooms.pinned_rooms@), s.rooms.pinned_rooms@.len() as int) == views(
            s.rooms.pinned_rooms@,
        ),
        at_least(s.sync.timeline_limit as i32, 1) == s.sync.timeline_limit,
        at_least(s.sync.timeout_secs as i32, 1) == s.sync.timeout_secs,
        at_least(s.appearance.font_size as i32, 6) == s.appearance.font_size,
{
    let ids = views(s.rooms.pinned_rooms@);
    lemma_distinct_twice(ids, ids.len() as int);
    assert(ids.take(ids.len() as int) =~= ids);
}

/// An entry of the rolodex is read as a name and a user id, which stand on either
/// side of a bar; white space around them does not count.
pub proof fn law_contacts_are_read(name: Seq<char>, uid: Seq<char>, before: Seq<char>, behind: Seq<char>)
    requires
        name.len() > 0,
        uid.len() > 0,
        !name.contains('|'),
        !is_space(name[0]) && !is_space(name.last()),
        !is_space(uid[0]) && !is_space(uid.last()),
        before.len() == 0 || before == seq![' '],
        behind.len() == 0 || behind == seq![' '],
    ensures
        contact_of(name + before + seq!['|'] + behind + uid) == Some((name, uid)),
        contact_of(seq!['|'] + uid) is None,
        contact_of(name + seq!['|']) is None,
        contact_of(name) is None,
{
    let left = name + before;
    let entry = name + before + seq!['|'] + behind + uid;
    let k = left.len() as int;
    assert(entry[k] == '|');
    assert forall|j: int| 0 <= j < k implies (#[trigger] entry[j]) != '|' by {
        if j < name.len() {
            assert(entry[j] == name[j]);
            assert(name.contains(name[j]));
        } else {
            assert(entry[j] == before[0]);
        }
    }
    lemma_bar(entry, k);
    assert(entry.subrange(0, k) == left);
    assert(entry.skip(k + 1) == behind + uid);
    lemma_trim_around(Seq::empty(), name, before);
    assert(Seq::<char>::empty() + name + before == left);
    lemma_trim_around(behind, uid, Seq::empty());
    assert(behind + uid + Seq::<char>::empty() == behind + uid);
    let nameless = seq!['|'] + uid;
    lemma_bar(nameless, 0);
    assert(nameless.subrange(0, 0).len() == 0);
    let idless = name + seq!['|'];
    assert forall|j: int| 0 <= j < name.len() implies (#[trigger] idless[j]) != '|' by {
        assert(name.contains(name[j]));
    }
    lemma_bar(idless, name.len() as int);
    assert(idless.skip(name.len() as int + 1).len() == 0);
    assert forall|j: int| 0 <= j < name.len() implies (#[trigger] name[j]) != '|' by {
        assert(name.contains(name[j]));
    }
    lemma_bar(name, name.len() as int);
}

proof fn lemma_bar(s: Seq<char>, k: int)
    requires
        0 <= k <= s.len(),
        k < s.len() ==> s[k] == '|',
        forall|j: int| 0 <= j < k ==> (#[trigger] s[j]) != '|',
    ensures
        find_char(s, '|', 0) == k,
{
    lemma_find_char(s, '|', 0);
    let f = find_char(s, '|', 0);
    if f < k {
        assert(s[f] != '|');
    } else if f > k {
        assert(s[k] != '|');
    }
}

proof fn lemma_trim_around(before: Seq<char>, s: Seq<char>, behind: Seq<char>)
    requires
        s.len() > 0,
        !is_space(s[0]),
        !is_space(s.last()),
        before.len() == 0 || before == seq![' '],
        behind.len() == 0 || behind == seq![' '],
    ensures
        trim(before + s + behind) == s,
{
    let all = before + s + behind;
    reveal_with_fuel(trim_start, 2);
    reveal_with_fuel(trim_end, 2);
    assert(is_space(' '));
    let rest = s + behind;
    assert(rest[0] == s[0]);
    if before.len() > 0 {
        assert(all[0] == ' ');
        assert(all.drop_first() == rest);
    } else {
        assert(all == rest);
    }
    assert(trim_start(all) == rest);
    if behind.len() > 0 {
        assert(rest.last() == ' ');
        assert(rest.drop_last() == s);
    } else {
        assert(rest == s);
    }
}

/// The contacts that can be read are listed in their order, and nothing else.
pub proof fn law_readable_contacts_are_listed(entries: Seq<Seq<char>>, entry: Seq<char>)
    ensures
        ({
            let before = contacts(entries, entries.len() as int);
            let then = contacts(entries.push(entry), entries.len() as int + 1);
            &&& contact_of(entry) is Some ==> then == before.push(contact_of(entry)->0)
            &&& contact_of(entry) is None ==> then == before
        }),
{
    lemma_contacts_prefix(entries, entry, entries.len() as int);
    assert(entries.push(entry)[entries.len() as int] == entry);
}

proof fn lemma_contacts_prefix(entries: Seq<Seq<char>>, entry: Seq<char>, n: int)
    requires
        0 <= n <= entries.len(),
    ensures
        contacts(entries.push(entry), n) == contacts(entries, n),
    decreases n,
{
    if n > 0 {
        lemma_contacts_prefix(entries, entry, n - 1);
        assert(entries.push(entry)[n - 1] == entries[n - 1]);
    }
}

/// A number is raised to the bound when it is below, and kept otherwise.
pub proof fn law_numbers_are_only_raised(n: i32, low: i32)
    ensures
        at_least(n, low) >= low,
        n >= low ==> at_least(n, low) == n,
        n < low ==> at_least(n, low) == low,
{
}

} // verus!

//! Bookkeeping of persisted browser state: database versions, table
//! migrations and browser sessions.

use vstd::prelude::*;

use crate::engine::{contains_string, opt_view};
use crate::group::Group;
use crate::text::string_views;

verus! {

/// Latest database version this browser knows.
pub const LATEST_DB_VERSION: u8 = 1;

/// Database migration version.
///
/// This version is used to detect the current database state and automatically
/// migrate tables when required.
#[derive(PartialEq, Eq, Structural, Copy, Clone, Debug)]
pub enum DbVersion {
    /// Any version before versioning was introduced.
    Zero,
    /// First versioned database.
    _One,
    /// One past the latest version.
    Last,
}

/// Stored number of a database version.
pub open spec fn db_version_number(v: DbVersion) -> u8 {
    match v {
        DbVersion::Zero => 0,
        DbVersion::_One => 1,
        DbVersion::Last => 2,
    }
}

impl DbVersion {
    /// Stored number of the version.
    pub fn number(&self) -> (n: u8)
        ensures
            n == db_version_number(*self),
    {
        match self {
            DbVersion::Zero => 0,
            DbVersion::_One => 1,
            DbVersion::Last => 2,
        }
    }
}

impl Default for DbVersion {
    /// A database without versioning.
    fn default() -> (v: Self)
        ensures
            v == DbVersion::Zero,
    {
        DbVersion::Zero
    }
}

/// Known version stored as `number`, if any.
pub open spec fn version_of_number(number: u8) -> Option<DbVersion> {
    if number == 0 {
        Some(DbVersion::Zero)
    } else if number == 1 {
        Some(DbVersion::_One)
    } else {
        None
    }
}

/// A known version's stored number reads back as that version, and every
/// number up to the latest version is known.
pub proof fn law_db_version_round_trip(v: DbVersion, number: u8)
    ensures
        v != DbVersion::Last ==> version_of_number(db_version_number(v)) == Some(v),
        version_of_number(number) is Some <==> number <= LATEST_DB_VERSION,
{
}

/// The local database is newer than this browser.
#[derive(PartialEq, Eq, Structural, Copy, Clone, Debug)]
pub struct UnknownDbVersion {
    /// Version found in the database.
    pub found: u8,
    /// Latest version this browser knows.
    pub latest: u8,
}

/// Version of a database that stores `number`, refused where it is newer
/// than the latest known version.
pub fn db_version(number: u8) -> (r: Result<DbVersion, UnknownDbVersion>)
    ensures
        r == match version_of_number(number) {
            Some(v) => Ok(v),
            None => Err(UnknownDbVersion { found: number, latest: LATEST_DB_VERSION }),
        },
{
    if number == 0 {
        Ok(DbVersion::Zero)
    } else if number == 1 {
        Ok(DbVersion::_One)
    } else {
        Err(UnknownDbVersion { found: number, latest: LATEST_DB_VERSION })
    }
}

/// Database work needed to bring a database to the latest version.
#[derive(PartialEq, Eq, Structural, Copy, Clone, Debug)]
pub struct MigrationPlan {
    /// Create the version table and record version zero in it.
    pub create_version_table: bool,
    /// Create the cookie exception, history and session tables.
    pub create_tables: bool,
    /// Record the latest version.
    pub update_version: bool,
}

/// Migrations for a database found at `version`: a database without
/// versioning gets the version table and its tables, and every older
/// database has its version raised to the latest.
pub fn migration_plan(version: DbVersion) -> (plan: MigrationPlan)
    ensures
        plan == (MigrationPlan {
            create_version_table: version == DbVersion::Zero,
            create_tables: version == DbVersion::Zero,
            update_version: db_version_number(version) < LATEST_DB_VERSION,
        }),
{
    let unversioned = version == DbVersion::Zero;
    MigrationPlan {
        create_version_table: unversioned,
        create_tables: unversioned,
        update_version: version.number() < LATEST_DB_VERSION,
    }
}

/// Abstract form of a stored session entry.
pub struct SessionEntryView {
    pub pid: u32,
    pub window_id: usize,
    pub group_id: u128,
    pub session_data: Seq<u8>,
    pub uri: Seq<char>,
    pub focused: bool,
}

/// Database browser session entry.
pub struct SessionEntry {
    pub pid: u32,
    pub window_id: usize,
    pub group_id: u128,
    pub session_data: Vec<u8>,
    pub uri: String,
    pub focused: bool,
}

impl View for SessionEntry {
    type V = SessionEntryView;

    open spec fn view(&self) -> SessionEntryView {
        SessionEntryView {
            pid: self.pid,
            window_id: self.window_id,
            group_id: self.group_id,
            session_data: self.session_data@,
            uri: self.uri@,
            focused: self.focused,
        }
    }
}

/// Views of session entries.
pub open spec fn session_views(s: Seq<SessionEntry>) -> Seq<SessionEntryView> {
    s.map_values(|e: SessionEntry| e@)
}

/// Whether a session is not owned by a running browser process: sessions of
/// this process are kept, as the PID may have been reused.
pub open spec fn is_orphan(e: SessionEntryView, own_pid: u32, running: Seq<u32>) -> bool {
    e.pid == own_pid || !running.contains(e.pid)
}

/// Orphan sessions, in their stored order.
pub open spec fn orphans(s: Seq<SessionEntryView>, own_pid: u32, running: Seq<u32>) -> Seq<SessionEntryView>
    decreases s.len(),
{
    if s.len() == 0 {
        Seq::empty()
    } else {
        let rest = orphans(s.drop_first(), own_pid, running);
        if is_orphan(s[0], own_pid, running) {
            seq![s[0]] + rest
        } else {
            rest
        }
    }
}

/// Whether `pid` is in the list.
fn contains_pid(pids: &Vec<u32>, pid: u32) -> (r: bool)
    ensures
        r == pids@.contains(pid),
{
    let mut i: usize = 0;
    while i < pids.len()
        invariant
            i <= pids.len(),
            forall|j: int| 0 <= j < i ==> pids@[j] != pid,
        decreases pids.len() - i,
    {
        if pids[i] == pid {
            return true;
        }
        i = i + 1;
    }
    false
}

/// Sessions not owned by any active process, given this process's PID and
/// the PIDs of the other running browser processes.
pub fn orphan_sessions(sessions: Vec<SessionEntry>, own_pid: u32, running_pids: &Vec<u32>) -> (kept:
    Vec<SessionEntry>)
    ensures
        session_views(kept@) == orphans(session_views(sessions@), own_pid, running_pids@),
{
    let ghost all = session_views(sessions@);
    let mut rest = sessions;
    let mut kept: Vec<SessionEntry> = Vec::new();
    while rest.len() > 0
        invariant
            orphans(all, own_pid, running_pids@) == session_views(kept@) + orphans(
                session_views(rest@),
                own_pid,
                running_pids@,
            ),
        decreases rest.len(),
    {
        let ghost before = rest@;
        let entry = rest.remove(0);
        proof {
            assert(session_views(rest@) =~= session_views(before).drop_first());
            assert(session_views(before)[0] == entry@);
        }
        let orphan = entry.pid == own_pid || !contains_pid(running_pids, entry.pid);
        if orphan {
            let ghost kept_before = session_views(kept@);
            kept.push(entry);
            proof {
                assert(session_views(kept@) =~= kept_before + seq![entry@]);
                assert(session_views(kept@) + orphans(session_views(rest@), own_pid, running_pids@)
                    =~= kept_before + (seq![entry@] + orphans(session_views(rest@), own_pid, running_pids@)));
            }
        }
    }
    assert(session_views(rest@) =~= Seq::empty());
    assert(session_views(kept@) + Seq::<SessionEntryView>::empty() =~= session_views(kept@));
    kept
}

/// Object for writing sessions to the DB.
pub struct SessionRecord<'a> {
    pub group: &'a Group,
    pub data: Vec<u8>,
    pub uri: String,
    pub focused: bool,
}

impl<'a> SessionRecord<'a> {
    /// Record of an engine's session in `group`, from the engine's session
    /// data and URI; ephemeral tab groups are never persisted.
    pub fn new(group: &'a Group, data: Vec<u8>, uri: String, focused: bool) -> (r: Option<Self>)
        ensures
            group@.ephemeral ==> r is None,
            !group@.ephemeral ==> (r matches Some(rec) && rec.group@ == group@ && rec.data@
                == data@ && rec.uri@ == uri@ && rec.focused == focused),
    {
        if group.is_ephemeral() {
            return None;
        }
        Some(SessionRecord { group, data, uri, focused })
    }
}

/// Whether session `a` restores no later than `b`: ordered by process, then
/// by window.
pub open spec fn restores_before(a: SessionEntryView, b: SessionEntryView) -> bool {
    a.pid < b.pid || (a.pid == b.pid && a.window_id <= b.window_id)
}

/// Position at which `e` is inserted into ordered sessions: after every
/// session that restores no later than it.
pub open spec fn insertion_point(s: Seq<SessionEntryView>, e: SessionEntryView) -> int
    decreases s.len(),
{
    if s.len() == 0 || !restores_before(s[0], e) {
        0
    } else {
        1 + insertion_point(s.drop_first(), e)
    }
}

/// Sessions in restoration order: sorted by process and window, sessions of
/// the same window keeping their stored order.
pub open spec fn restore_order(s: Seq<SessionEntryView>) -> Seq<SessionEntryView>
    decreases s.len(),
{
    if s.len() == 0 {
        Seq::empty()
    } else {
        let sorted = restore_order(s.drop_last());
        sorted.insert(insertion_point(sorted, s.last()), s.last())
    }
}

/// Whether sessions are in restoration order.
pub open spec fn in_restore_order(s: Seq<SessionEntryView>) -> bool {
    forall|i: int, j: int| 0 <= i < j < s.len() ==> restores_before(#[trigger] s[i], #[trigger] s[j])
}

/// The insertion point lies within the sessions.
proof fn lemma_insertion_point_bounds(s: Seq<SessionEntryView>, e: SessionEntryView)
    ensures
        0 <= insertion_point(s, e) <= s.len(),
        forall|k: int| 0 <= k < insertion_point(s, e) ==> restores_before(#[trigger] s[k], e),
        insertion_point(s, e) < s.len() ==> !restores_before(s[insertion_point(s, e)], e),
    decreases s.len(),
{
    if s.len() > 0 && restores_before(s[0], e) {
        lemma_insertion_point_bounds(s.drop_first(), e);
        assert forall|k: int| 0 <= k < insertion_point(s, e) implies restores_before(#[trigger] s[k], e) by {
            if k > 0 {
                assert(s[k] == s.drop_first()[k - 1]);
            }
        }
    }
}

/// Restoration order is sorted and holds the same sessions.
proof fn lemma_restore_order(s: Seq<SessionEntryView>)
    ensures
        in_restore_order(restore_order(s)),
        restore_order(s).to_multiset() == s.to_multiset(),
        restore_order(s).len() == s.len(),
    decreases s.len(),
{
    broadcast use vstd::seq_lib::group_to_multiset_ensures;
    if s.len() > 0 {
        let rest = s.drop_last();
        let e = s.last();
        lemma_restore_order(rest);
        let sorted = restore_order(rest);
        let p = insertion_point(sorted, e);
        lemma_insertion_point_bounds(sorted, e);
        let r = sorted.insert(p, e);
        assert forall|i: int, j: int| 0 <= i < j < r.len() implies restores_before(#[trigger] r[i], #[trigger] r[j]) by {
            if j < p {
                assert(r[i] == sorted[i] && r[j] == sorted[j]);
            } else if j == p {
                assert(r[i] == sorted[i]);
            } else if i < p {
                assert(r[i] == sorted[i] && r[j] == sorted[j - 1]);
                if p < sorted.len() {
                    assert(restores_before(sorted[i], sorted[p]));
                }
            } else if i == p {
                assert(r[j] == sorted[j - 1]);
                assert(!restores_before(sorted[p], e));
                if j - 1 > p {
                    assert(restores_before(sorted[p], sorted[j - 1]));
                }
            } else {
                assert(r[i] == sorted[i - 1] && r[j] == sorted[j - 1]);
            }
        }
        vstd::seq_lib::lemma_seq_union_to_multiset_commutative(sorted.take(p), sorted.skip(p));
        assert(sorted =~= sorted.take(p) + sorted.skip(p));
        assert(r =~= sorted.take(p) + (seq![e] + sorted.skip(p)));
        vstd::seq_lib::lemma_multiset_commutative(sorted.take(p), seq![e] + sorted.skip(p));
        vstd::seq_lib::lemma_multiset_commutative(seq![e], sorted.skip(p));
        vstd::seq_lib::lemma_multiset_commutative(sorted.take(p), sorted.skip(p));
        vstd::seq_lib::lemma_multiset_commutative(rest, seq![e]);
        assert(s =~= rest + seq![e]);
    }
}

/// Sessions put in restoration order are sorted by process and window, and
/// are the stored sessions, none lost or added.
pub proof fn law_restore_order_sorted_permutation(s: Seq<SessionEntryView>)
    ensures
        in_restore_order(restore_order(s)),
        restore_order(s).to_multiset() == s.to_multiset(),
{
    lemma_restore_order(s);
}

/// Whether session `e` restores no later than `other`.
fn restores_no_later(e: &SessionEntry, other: &SessionEntry) -> (r: bool)
    ensures
        r == restores_before(e@, other@),
{
    e.pid < other.pid || (e.pid == other.pid && e.window_id <= other.window_id)
}

/// Sessions requiring restoration, sorted by process and window; sessions of
/// one window keep their stored order.
pub fn sort_for_restore(sessions: Vec<SessionEntry>) -> (sorted: Vec<SessionEntry>)
    ensures
        session_views(sorted@) == restore_order(session_views(sessions@)),
{
    let ghost all = session_views(sessions@);
    let mut rest = sessions;
    let mut sorted: Vec<SessionEntry> = Vec::new();
    let ghost done: int = 0;
    while rest.len() > 0
        invariant
            0 <= done <= all.len(),
            session_views(rest@) == all.skip(done),
            session_views(sorted@) == restore_order(all.take(done)),
        decreases rest.len(),
    {
        let ghost before = rest@;
        let entry = rest.remove(0);
        proof {
            assert(session_views(before)[0] == entry@);
            assert(session_views(before) == all.skip(done));
            assert(session_views(before).len() == before.len());
            assert(done < all.len());
            assert(all.skip(done)[0] == all[done]);
            assert(all[done] == entry@);
            assert(rest@ == before.remove(0));
            assert forall|k: int| 0 <= k < session_views(rest@).len() implies #[trigger] session_views(rest@)[k]
                == all.skip(done + 1)[k] by {
                assert(session_views(rest@)[k] == rest@[k]@);
                assert(rest@[k] == before[k + 1]);
                assert(session_views(before)[k + 1] == before[k + 1]@);
                assert(all.skip(done)[k + 1] == all[done + k + 1]);
            }
            assert(session_views(rest@) =~= all.skip(done + 1));
            assert(all.take(done + 1).drop_last() =~= all.take(done));
            assert(all.take(done + 1).last() == entry@);
        }
        let ghost s = session_views(sorted@);
        assert(s.skip(0) =~= s);
        let mut p: usize = 0;
        while p < sorted.len() && restores_no_later(&sorted[p], &entry)
            invariant
                p <= sorted.len(),
                s == session_views(sorted@),
                insertion_point(s.skip(p as int), entry@) + p == insertion_point(s, entry@),
            decreases sorted.len() - p,
        {
            proof {
                assert(s.skip(p as int)[0] == s[p as int]);
                assert(s.skip(p as int).drop_first() =~= s.skip(p + 1));
            }
            p = p + 1;
        }
        proof {
            if p < sorted.len() {
                assert(s.skip(p as int)[0] == s[p as int]);
            }
        }
        sorted.insert(p, entry);
        proof {
            done = done + 1;
            assert(session_views(sorted@) =~= s.insert(p as int, entry@));
        }
    }
    proof {
        assert(all.take(done) =~= all);
    }
    sorted
}

/// Whether each restored session needs a new window: sessions of the same
/// process and window share one, the first session uses the initial window.
pub open spec fn new_window_flags(s: Seq<SessionEntryView>) -> Seq<bool> {
    Seq::new(s.len(), |i: int| i > 0 && (s[i].pid != s[i - 1].pid || s[i].window_id != s[i - 1].window_id))
}

/// For each session in restoration order, whether it opens a new window.
pub fn new_windows(sessions: &Vec<SessionEntry>) -> (flags: Vec<bool>)
    ensures
        flags@ == new_window_flags(session_views(sessions@)),
{
    let ghost v = session_views(sessions@);
    let mut flags: Vec<bool> = Vec::new();
    let mut i: usize = 0;
    while i < sessions.len()
        invariant
            i <= sessions.len(),
            v == session_views(sessions@),
            flags@ == new_window_flags(v).take(i as int),
        decreases sessions.len() - i,
    {
        let fresh = i > 0 && (sessions[i].pid != sessions[i - 1].pid || sessions[i].window_id
            != sessions[i - 1].window_id);
        flags.push(fresh);
        i = i + 1;
        assert(flags@ =~= new_window_flags(v).take(i as int));
    }
    assert(new_window_flags(v).take(sessions.len() as int) =~= new_window_flags(v));
    flags
}

/// Whether stored website data is removed at startup: data of a named domain
/// that has no cookie exception.
pub open spec fn removes_website_data(domain: Option<Seq<char>>, whitelisted: Seq<Seq<char>>) -> bool {
    domain matches Some(d) && !whitelisted.contains(d)
}

/// For each stored website data entry, by its domain name, whether it is
/// removed given the hosts with cookie exceptions.
pub fn website_data_to_remove(domains: &Vec<Option<String>>, whitelisted: &Vec<String>) -> (remove: Vec<bool>)
    ensures
        remove.len() == domains.len(),
        forall|i: int|
            0 <= i < domains.len() ==> remove[i] == removes_website_data(
                opt_view(#[trigger] domains[i]),
                string_views(whitelisted@),
            ),
{
    let mut remove: Vec<bool> = Vec::new();
    let mut i: usize = 0;
    while i < domains.len()
        invariant
            i <= domains.len(),
            remove.len() == i,
            forall|j: int|
                0 <= j < i ==> remove[j] == removes_website_data(
                    opt_view(#[trigger] domains[j]),
                    string_views(whitelisted@),
                ),
        decreases domains.len() - i,
    {
        let removed = match &domains[i] {
            Some(domain) => !contains_string(whitelisted, domain),
            None => false,
        };
        remove.push(removed);
        i = i + 1;
    }
    remove
}

} // verus!

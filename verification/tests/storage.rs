use kumo::group::Group;
use kumo::storage::{
    db_version, migration_plan, orphan_sessions, DbVersion, MigrationPlan, SessionEntry,
    SessionRecord, UnknownDbVersion, LATEST_DB_VERSION,
};

#[test]
fn db_versions() {
    assert_eq!(db_version(0), Ok(DbVersion::Zero));
    assert_eq!(db_version(1), Ok(DbVersion::_One));
    assert_eq!(db_version(2), Err(UnknownDbVersion { found: 2, latest: 1 }));
    assert_eq!(db_version(255), Err(UnknownDbVersion { found: 255, latest: LATEST_DB_VERSION }));
    assert_eq!(DbVersion::default(), DbVersion::Zero);
    assert_eq!(DbVersion::Last.number(), 2);
}

#[test]
fn migration_plans() {
    assert_eq!(migration_plan(DbVersion::Zero), MigrationPlan {
        create_version_table: true,
        create_tables: true,
        update_version: true,
    });
    assert_eq!(migration_plan(DbVersion::_One), MigrationPlan {
        create_version_table: false,
        create_tables: false,
        update_version: false,
    });
}

fn entry(pid: u32, window_id: usize) -> SessionEntry {
    SessionEntry {
        pid,
        window_id,
        group_id: 0,
        session_data: vec![1, 2],
        uri: format!("https://example.org/{pid}"),
        focused: false,
    }
}

#[test]
fn orphans_keep_own_and_dead_processes() {
    let sessions = vec![entry(10, 0), entry(20, 1), entry(30, 2), entry(20, 3), entry(10, 4)];
    let running = vec![10, 20];
    let kept = orphan_sessions(sessions, 10, &running);
    let kept: Vec<(u32, usize)> = kept.iter().map(|e| (e.pid, e.window_id)).collect();
    assert_eq!(kept, vec![(10, 0), (30, 2), (10, 4)]);
}

#[test]
fn orphans_of_empty_list() {
    assert!(orphan_sessions(Vec::new(), 1, &vec![2]).is_empty());
}

#[test]
fn ephemeral_groups_are_not_recorded() {
    let ephemeral = Group::with_uuid(7, "temp".to_string(), true);
    assert!(SessionRecord::new(&ephemeral, vec![1], "https://a.org".to_string(), true).is_none());

    let persisted = Group::with_uuid(8, "work".to_string(), false);
    let record = SessionRecord::new(&persisted, vec![1, 2], "https://a.org".to_string(), true).unwrap();
    assert_eq!(record.data, vec![1, 2]);
    assert_eq!(record.uri, "https://a.org");
    assert!(record.focused);
    assert_eq!(record.group.id().uuid(), 8);
}

use kumo::storage::{new_windows, sort_for_restore};

#[test]
fn sessions_sorted_for_restore_stably() {
    let mut sessions = vec![entry(20, 1), entry(10, 2), entry(20, 0), entry(10, 2), entry(10, 1)];
    sessions[1].uri = "first".to_string();
    sessions[3].uri = "second".to_string();
    let sorted = sort_for_restore(sessions);
    let order: Vec<(u32, usize)> = sorted.iter().map(|e| (e.pid, e.window_id)).collect();
    assert_eq!(order, vec![(10, 1), (10, 2), (10, 2), (20, 0), (20, 1)]);
    // Sessions of the same window keep their stored order.
    assert_eq!(sorted[1].uri, "first");
    assert_eq!(sorted[2].uri, "second");

    assert_eq!(new_windows(&sorted), vec![false, true, false, true, true]);
    assert!(new_windows(&Vec::new()).is_empty());
}

use kumo::storage::website_data_to_remove;

#[test]
fn website_data_removed_without_cookie_exception() {
    let domains = vec![Some("example.org".to_string()), None, Some("keep.org".to_string())];
    let whitelisted = vec!["keep.org".to_string()];
    assert_eq!(website_data_to_remove(&domains, &whitelisted), vec![true, false, false]);
    assert_eq!(website_data_to_remove(&domains, &Vec::new()), vec![true, false, true]);
}

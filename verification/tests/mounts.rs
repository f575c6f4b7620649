use dm_test_cleanup::mount_sweep::{dm_test_fs_unmount, MountSweep};
use dm_test_cleanup::mountinfo::{keep_present, marked_points};
use dm_test_cleanup::protocol::{Action, CleanupError, Event, Stage};

fn row(id: u32, point: &str) -> String {
    format!("{} 1 8:{} / {} rw,relatime shared:1 - xfs /dev/mapper/x rw\n", id, id, point)
}

/// Runs a mount sweep over `table`; `stuck` names the mount points whose
/// detach fails. Returns the detaches attempted and the last action.
fn sweep_mounts(table: Option<&str>, stuck: &[&str]) -> (Vec<String>, Action) {
    let mut attempted = Vec::new();
    let (mut sweep, mut action) = MountSweep::begin();
    loop {
        let event = match action {
            Action::ReadMounts => match table {
                Some(text) => Event::MountTable(text.as_bytes().to_vec()),
                None => Event::Failed,
            },
            Action::Detach(point) => {
                let fails = stuck.contains(&point.as_str());
                attempted.push(point);
                if fails {
                    Event::Failed
                } else {
                    Event::Succeeded
                }
            }
            last => return (attempted, last),
        };
        let (next, then) = dm_test_fs_unmount(sweep, event);
        sweep = next;
        action = then;
    }
}

#[test]
fn begin_asks_for_the_mount_table() {
    let (_, action) = MountSweep::begin();
    assert_eq!(action, Action::ReadMounts);
}

#[test]
fn only_the_marked_mount_is_detached() {
    let table = row(30, "/mnt/foo_dm-rs_test_delme") + &row(31, "/mnt/bar");
    let (attempted, last) = sweep_mounts(Some(&table), &[]);
    assert_eq!(attempted, vec!["/mnt/foo_dm-rs_test_delme".to_string()]);
    assert_eq!(last, Action::Done);
}

#[test]
fn marked_points_follow_the_table() {
    let table = row(1, "/") + &row(2, "/b_dm-rs_test_delme") + &row(3, "/proc")
        + &row(4, "/a_dm-rs_test_delme");
    assert_eq!(
        marked_points(table.as_bytes()),
        vec!["/b_dm-rs_test_delme".to_string(), "/a_dm-rs_test_delme".to_string()]
    );
}

#[test]
fn marked_points_of_an_empty_table() {
    assert_eq!(marked_points(b""), Vec::<String>::new());
    assert_eq!(marked_points(b"\n\n# note\n"), Vec::<String>::new());
}

#[test]
fn malformed_lines_are_passed_over() {
    let table = "what is _dm-rs_test_delme this\n".to_string()
        + &row(7, "/mnt/x_dm-rs_test_delme")
        + "12 garbage_dm-rs_test_delme\n";
    assert_eq!(marked_points(table.as_bytes()), vec!["/mnt/x_dm-rs_test_delme".to_string()]);
}

#[test]
fn escaped_mount_points_are_unescaped() {
    let table = row(9, "/mnt/with\\040space_dm-rs_test_delme");
    assert_eq!(
        marked_points(table.as_bytes()),
        vec!["/mnt/with space_dm-rs_test_delme".to_string()]
    );
}

#[test]
fn mount_points_that_are_not_utf8_are_passed_over() {
    let table = row(9, "/mnt/\\377_dm-rs_test_delme") + &row(10, "/mnt/ok_dm-rs_test_delme");
    assert_eq!(marked_points(table.as_bytes()), vec!["/mnt/ok_dm-rs_test_delme".to_string()]);
}

#[test]
fn the_marker_elsewhere_in_a_line_does_not_count() {
    let table = "40 1 8:1 /root_dm-rs_test_delme /mnt/plain rw - xfs /dev/x_dm-rs_test_delme rw\n";
    assert_eq!(marked_points(table.as_bytes()), Vec::<String>::new());
}

#[test]
fn keep_present_drops_the_missing() {
    let entries = vec![None, Some("a".to_string()), None, Some("b".to_string())];
    assert_eq!(keep_present(entries), vec!["a".to_string(), "b".to_string()]);
    assert_eq!(keep_present(vec![None, None]), Vec::<String>::new());
}

#[test]
fn no_marked_mounts_is_success_at_once() {
    let table = row(1, "/") + &row(2, "/home");
    let (attempted, last) = sweep_mounts(Some(&table), &[]);
    assert!(attempted.is_empty());
    assert_eq!(last, Action::Done);
}

#[test]
fn unreadable_mount_table_is_fatal() {
    let (attempted, last) = sweep_mounts(None, &[]);
    assert!(attempted.is_empty());
    assert_eq!(last, Action::Fail(CleanupError::MountRead));
}

#[test]
fn first_detach_failure_stops_the_sweep() {
    let table = row(1, "/a_dm-rs_test_delme") + &row(2, "/b_dm-rs_test_delme")
        + &row(3, "/c_dm-rs_test_delme");
    let (attempted, last) = sweep_mounts(Some(&table), &["/b_dm-rs_test_delme"]);
    assert_eq!(
        attempted,
        vec!["/a_dm-rs_test_delme".to_string(), "/b_dm-rs_test_delme".to_string()]
    );
    assert_eq!(last, Action::Fail(CleanupError::Detach("/b_dm-rs_test_delme".to_string())));
}

#[test]
fn an_ended_mount_sweep_stays_ended() {
    let (sweep, _) = MountSweep::begin();
    let (sweep, action) = dm_test_fs_unmount(sweep, Event::Failed);
    assert_eq!(action, Action::Fail(CleanupError::MountRead));
    let (sweep, action) = dm_test_fs_unmount(sweep, Event::Succeeded);
    assert_eq!(action, Action::Halted);
    let (_, action) = dm_test_fs_unmount(sweep, Event::MountTable(Vec::new()));
    assert_eq!(action, Action::Halted);
}

#[test]
fn a_reply_that_does_not_fit_counts_as_failure() {
    let (sweep, _) = MountSweep::begin();
    let (_, action) = dm_test_fs_unmount(sweep, Event::Devices(Vec::new()));
    assert_eq!(action, Action::Fail(CleanupError::MountRead));

    let (sweep, _) = MountSweep::begin();
    let table = row(1, "/a_dm-rs_test_delme");
    let (sweep, action) = dm_test_fs_unmount(sweep, Event::MountTable(table.into_bytes()));
    assert_eq!(action, Action::Detach("/a_dm-rs_test_delme".to_string()));
    let (_, action) = dm_test_fs_unmount(sweep, Event::MountTable(Vec::new()));
    assert_eq!(action, Action::Fail(CleanupError::Detach("/a_dm-rs_test_delme".to_string())));
}

#[test]
fn errors_name_their_stage() {
    assert_eq!(CleanupError::MountRead.stage(), Stage::Mounts);
    assert_eq!(CleanupError::Detach("x".to_string()).stage(), Stage::Mounts);
    assert_eq!(CleanupError::DmInit.stage(), Stage::Devices);
    assert_eq!(CleanupError::DmList.stage(), Stage::Devices);
    assert_eq!(CleanupError::Remaining(vec!["x".to_string()]).stage(), Stage::Devices);
    assert_eq!(
        CleanupError::MountRead.context(),
        "Failed to ensure all test-generated filesystems were unmounted"
    );
    assert_eq!(
        CleanupError::DmList.context(),
        "Failed to ensure removal of all test-generated DM devices"
    );
    assert_eq!(CleanupError::DmInit.cause(), "Unable to initialize DM");
    assert_eq!(CleanupError::DmList.cause(), "failed while listing DM devices, giving up");
    assert_eq!(
        CleanupError::Remaining(Vec::new()).cause(),
        "Some test-generated DM devices remaining"
    );
}

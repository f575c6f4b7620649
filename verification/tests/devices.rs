use dm_test_cleanup::device_sweep::{dm_test_devices_remove, DeviceSweep};
use dm_test_cleanup::protocol::{Action, CleanupError, Event};
use dm_test_cleanup::teardown::{clean_up, Teardown};

/// A stand-in for the kernel: devices in listing order, each with the names
/// of the devices that hold it open, and a flag for one that is held for
/// good.
struct Kernel {
    devices: Vec<(String, Vec<String>, bool)>,
    listings: usize,
    attempts: Vec<String>,
    opens: bool,
    lists: bool,
}

fn kernel(devices: &[(&str, &[&str], bool)]) -> Kernel {
    Kernel {
        devices: devices
            .iter()
            .map(|(n, h, p)| (n.to_string(), h.iter().map(|x| x.to_string()).collect(), *p))
            .collect(),
        listings: 0,
        attempts: Vec::new(),
        opens: true,
        lists: true,
    }
}

fn names_of(kernel: &Kernel) -> Vec<String> {
    kernel.devices.iter().map(|d| d.0.clone()).collect()
}

fn perform(kernel: &mut Kernel, action: &Action) -> Option<Event> {
    match action {
        Action::OpenDm => Some(if kernel.opens { Event::Succeeded } else { Event::Failed }),
        Action::ListDevices => {
            kernel.listings += 1;
            Some(if kernel.lists { Event::Devices(names_of(kernel)) } else { Event::Failed })
        }
        Action::Remove(name) => {
            kernel.attempts.push(name.clone());
            let at = kernel.devices.iter().position(|d| &d.0 == name);
            let free = match at {
                Some(i) => {
                    !kernel.devices[i].2
                        && !kernel.devices[i].1.iter().any(|h| names_of(kernel).contains(h))
                }
                None => false,
            };
            if free {
                kernel.devices.remove(at.unwrap());
                Some(Event::Succeeded)
            } else {
                Some(Event::Failed)
            }
        }
        _ => None,
    }
}

fn sweep_devices(kernel: &mut Kernel) -> Action {
    let (mut sweep, mut action) = DeviceSweep::begin();
    loop {
        let event = match perform(kernel, &action) {
            Some(event) => event,
            None => return action,
        };
        let (next, then) = dm_test_devices_remove(sweep, event);
        sweep = next;
        action = then;
    }
}

#[test]
fn begin_asks_for_the_interface() {
    let (_, action) = DeviceSweep::begin();
    assert_eq!(action, Action::OpenDm);
}

#[test]
fn no_matching_devices_is_success_after_one_listing() {
    let mut k = kernel(&[("root", &[], false), ("swap", &[], false)]);
    assert_eq!(sweep_devices(&mut k), Action::Done);
    assert_eq!(k.listings, 1);
    assert!(k.attempts.is_empty());
    assert_eq!(names_of(&k), vec!["root".to_string(), "swap".to_string()]);
}

#[test]
fn no_devices_at_all_is_success() {
    let mut k = kernel(&[]);
    assert_eq!(sweep_devices(&mut k), Action::Done);
    assert_eq!(k.listings, 1);
}

#[test]
fn unmarked_devices_are_never_candidates() {
    let mut k = kernel(&[
        ("root", &[], false),
        ("a_dm-rs_test_delme", &[], false),
        ("home", &[], false),
        ("var", &[], false),
    ]);
    assert_eq!(sweep_devices(&mut k), Action::Done);
    assert_eq!(k.attempts, vec!["a_dm-rs_test_delme".to_string()]);
    assert_eq!(names_of(&k), vec!["root".to_string(), "home".to_string(), "var".to_string()]);
}

#[test]
fn permanent_holder_is_named_alone() {
    let mut k = kernel(&[("a_dm-rs_test_delme", &[], true), ("b_dm-rs_test_delme", &[], false)]);
    let last = sweep_devices(&mut k);
    assert_eq!(last, Action::Fail(CleanupError::Remaining(vec!["a_dm-rs_test_delme".to_string()])));
    assert_eq!(k.listings, 2);
    assert_eq!(
        k.attempts,
        vec![
            "a_dm-rs_test_delme".to_string(),
            "b_dm-rs_test_delme".to_string(),
            "a_dm-rs_test_delme".to_string(),
        ]
    );
}

#[test]
fn chain_of_three_converges_in_three_passes() {
    let d1 = "d1_dm-rs_test_delme";
    let d2 = "d2_dm-rs_test_delme";
    let d3 = "d3_dm-rs_test_delme";
    let mut k = kernel(&[(d1, &[d2], false), (d2, &[d3], false), (d3, &[], false)]);
    assert_eq!(sweep_devices(&mut k), Action::Done);
    assert!(k.devices.is_empty());
    // three passes that each remove one device, and the one that finds nothing
    assert_eq!(k.listings, 4);
    assert_eq!(k.attempts, vec![d1, d2, d3, d1, d2, d1]);
}

#[test]
fn chain_listed_top_down_goes_in_one_pass() {
    let d1 = "d1_dm-rs_test_delme";
    let d2 = "d2_dm-rs_test_delme";
    let d3 = "d3_dm-rs_test_delme";
    let mut k = kernel(&[(d3, &[], false), (d2, &[d3], false), (d1, &[d2], false)]);
    assert_eq!(sweep_devices(&mut k), Action::Done);
    assert_eq!(k.listings, 2);
    assert_eq!(k.attempts, vec![d3, d2, d1]);
}

#[test]
fn remaining_devices_keep_the_order_met() {
    let mut k = kernel(&[
        ("z_dm-rs_test_delme", &[], true),
        ("m_dm-rs_test_delme", &["root"], false),
        ("root", &[], false),
        ("a_dm-rs_test_delme", &[], true),
    ]);
    assert_eq!(
        sweep_devices(&mut k),
        Action::Fail(CleanupError::Remaining(vec![
            "z_dm-rs_test_delme".to_string(),
            "m_dm-rs_test_delme".to_string(),
            "a_dm-rs_test_delme".to_string(),
        ]))
    );
    assert_eq!(k.listings, 1);
}

#[test]
fn interface_failure_is_fatal() {
    let mut k = kernel(&[("a_dm-rs_test_delme", &[], false)]);
    k.opens = false;
    assert_eq!(sweep_devices(&mut k), Action::Fail(CleanupError::DmInit));
    assert_eq!(k.listings, 0);
    assert!(k.attempts.is_empty());
}

#[test]
fn listing_failure_is_fatal() {
    let mut k = kernel(&[("a_dm-rs_test_delme", &[], false)]);
    k.lists = false;
    assert_eq!(sweep_devices(&mut k), Action::Fail(CleanupError::DmList));
    assert_eq!(k.listings, 1);
    assert!(k.attempts.is_empty());
}

#[test]
fn an_ended_device_sweep_stays_ended() {
    let (sweep, _) = DeviceSweep::begin();
    let (sweep, action) = dm_test_devices_remove(sweep, Event::Failed);
    assert_eq!(action, Action::Fail(CleanupError::DmInit));
    let (_, action) = dm_test_devices_remove(sweep, Event::Succeeded);
    assert_eq!(action, Action::Halted);
}

fn mount_row(id: u32, point: &str) -> String {
    format!("{} 1 8:{} / {} rw,relatime shared:1 - xfs /dev/mapper/x rw\n", id, id, point)
}

/// Runs a whole teardown and returns every action asked for, in order.
fn tear_down(kernel: &mut Kernel, table: Option<&str>, stuck: &[&str]) -> Vec<Action> {
    let mut log = Vec::new();
    let (mut state, mut action) = Teardown::begin();
    loop {
        let event = match &action {
            Action::ReadMounts => match table {
                Some(text) => Event::MountTable(text.as_bytes().to_vec()),
                None => Event::Failed,
            },
            Action::Detach(point) => {
                if stuck.contains(&point.as_str()) {
                    Event::Failed
                } else {
                    Event::Succeeded
                }
            }
            other => match perform(kernel, other) {
                Some(event) => event,
                None => {
                    log.push(action);
                    assert!(state.is_ended());
                    return log;
                }
            },
        };
        log.push(action);
        assert!(!state.is_ended());
        let (next, then) = clean_up(state, event);
        state = next;
        action = then;
    }
}

#[test]
fn mounts_go_before_devices() {
    let table = mount_row(1, "/") + &mount_row(2, "/mnt/fs_dm-rs_test_delme");
    let mut k = kernel(&[("a_dm-rs_test_delme", &[], false), ("root", &[], false)]);
    let log = tear_down(&mut k, Some(&table), &[]);
    assert_eq!(
        log,
        vec![
            Action::ReadMounts,
            Action::Detach("/mnt/fs_dm-rs_test_delme".to_string()),
            Action::OpenDm,
            Action::ListDevices,
            Action::Remove("a_dm-rs_test_delme".to_string()),
            Action::ListDevices,
            Action::Done,
        ]
    );
}

#[test]
fn failed_mount_sweep_skips_the_devices() {
    let table = mount_row(2, "/mnt/fs_dm-rs_test_delme");
    let mut k = kernel(&[("a_dm-rs_test_delme", &[], false)]);
    let log = tear_down(&mut k, Some(&table), &["/mnt/fs_dm-rs_test_delme"]);
    assert_eq!(
        log,
        vec![
            Action::ReadMounts,
            Action::Detach("/mnt/fs_dm-rs_test_delme".to_string()),
            Action::Fail(CleanupError::Detach("/mnt/fs_dm-rs_test_delme".to_string())),
        ]
    );
    assert_eq!(k.listings, 0);
    assert_eq!(names_of(&k), vec!["a_dm-rs_test_delme".to_string()]);
}

#[test]
fn unreadable_mount_table_ends_the_teardown() {
    let mut k = kernel(&[("a_dm-rs_test_delme", &[], false)]);
    let log = tear_down(&mut k, None, &[]);
    assert_eq!(log, vec![Action::ReadMounts, Action::Fail(CleanupError::MountRead)]);
    assert_eq!(k.listings, 0);
}

#[test]
fn leftover_devices_fail_the_teardown() {
    let mut k = kernel(&[("a_dm-rs_test_delme", &[], true), ("b_dm-rs_test_delme", &[], false)]);
    let log = tear_down(&mut k, Some(""), &[]);
    assert_eq!(
        log.last(),
        Some(&Action::Fail(CleanupError::Remaining(vec!["a_dm-rs_test_delme".to_string()])))
    );
    assert_eq!(names_of(&k), vec!["a_dm-rs_test_delme".to_string()]);
}

#[test]
fn an_ended_teardown_stays_ended() {
    let (state, _) = Teardown::begin();
    let (state, action) = clean_up(state, Event::Failed);
    assert_eq!(action, Action::Fail(CleanupError::MountRead));
    assert!(state.is_ended());
    let (state, action) = clean_up(state, Event::Succeeded);
    assert_eq!(action, Action::Halted);
    assert!(state.is_ended());
}

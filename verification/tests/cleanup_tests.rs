use dm_cleanup::cleanup::{clean_up, Action, Event};
use dm_cleanup::errors::CleanupError;

const M: &str = "_dm-rs_test_delme";

/// A simulated kernel: a mount table, a set of device-mapper devices with
/// stacking dependencies, and the failure modes cleanup has to cope with.
struct World {
    /// Mounted paths, or the cause when the mount table cannot be read.
    mounts: Result<Vec<String>, String>,
    /// Paths whose unmount always fails.
    unmount_fails: Vec<String>,
    /// Whether the control channel can be opened.
    dm_ready: Result<(), String>,
    /// Live device names, or the cause when listing always fails.
    devices: Result<Vec<String>, String>,
    /// `(upper, lower)`: `upper` is stacked on `lower`, so `lower` cannot be
    /// removed while `upper` lives.
    backing: Vec<(String, String)>,
    /// Devices that can never be removed (held open elsewhere).
    busy: Vec<String>,
    /// Everything cleanup did, in order.
    log: Vec<String>,
}

impl World {
    fn new() -> World {
        World {
            mounts: Ok(Vec::new()),
            unmount_fails: Vec::new(),
            dm_ready: Ok(()),
            devices: Ok(Vec::new()),
            backing: Vec::new(),
            busy: Vec::new(),
            log: Vec::new(),
        }
    }

    fn unmount(&mut self, path: &str) -> Result<(), String> {
        if self.unmount_fails.iter().any(|p| p == path) {
            return Err(format!("{} is busy", path));
        }
        if let Ok(mounts) = &mut self.mounts {
            mounts.retain(|p| p != path);
        }
        Ok(())
    }

    fn remove(&mut self, name: &str) -> bool {
        if self.busy.iter().any(|d| d == name) {
            return false;
        }
        let devices = match &mut self.devices {
            Ok(d) => d,
            Err(_) => return false,
        };
        let live = |d: &str, devices: &Vec<String>| devices.iter().any(|x| x == d);
        if self
            .backing
            .iter()
            .any(|(upper, lower)| lower == name && live(upper, devices))
        {
            return false;
        }
        devices.retain(|d| d != name);
        true
    }
}

/// Run a whole cleanup against the world, the way a live driver would.
fn drive(world: &mut World) -> Result<(), CleanupError> {
    let mut machine = clean_up();
    let mut steps: u32 = 0;
    loop {
        steps += 1;
        assert!(steps < 10_000, "cleanup did not terminate");
        if machine.is_finished() {
            return machine.into_result();
        }
        let event = match machine.current_action() {
            Action::ListMounts => {
                world.log.push("list_mounts".to_string());
                Event::MountsListed { mounts: world.mounts.clone() }
            }
            Action::Unmount { path } => {
                world.log.push(format!("unmount {}", path));
                let outcome = world.unmount(&path);
                Event::UnmountDone { outcome }
            }
            Action::AccessDm => {
                world.log.push("access_dm".to_string());
                Event::DmReady { outcome: world.dm_ready.clone() }
            }
            Action::ListDevices => {
                world.log.push("list_devices".to_string());
                Event::DevicesListed { devices: world.devices.clone() }
            }
            Action::RemoveDevice { name } => {
                world.log.push(format!("remove {}", name));
                let ok = world.remove(&name);
                Event::RemoveDone { ok }
            }
            Action::Done => unreachable!(),
        };
        machine = machine.step(event);
    }
}

#[test]
fn scenario_stacked_devices() {
    // Two marked devices, one backing the other, listed bottom-first: the
    // first pass frees the top, the second frees its backing store, and the
    // unmarked device is left alone.
    let mut w = World::new();
    let bottom = format!("y{}", M);
    let top = format!("x{}", M);
    w.devices = Ok(vec!["keep".to_string(), bottom.clone(), top.clone()]);
    w.backing = vec![(top.clone(), bottom.clone())];
    assert!(drive(&mut w).is_ok());
    assert_eq!(w.devices.as_ref().unwrap(), &vec!["keep".to_string()]);
    // Pass one (bottom fails, top succeeds), pass two (bottom succeeds),
    // pass three (nothing marked remains).
    let listings = w.log.iter().filter(|l| *l == "list_devices").count();
    assert_eq!(listings, 3);
    assert!(!w.log.iter().any(|l| l == "remove keep"));
}

#[test]
fn cleanup_is_idempotent() {
    let mut w = World::new();
    w.mounts = Ok(vec![format!("/mnt/a{}", M)]);
    w.devices = Ok(vec![format!("a{}", M), "other".to_string()]);
    assert!(drive(&mut w).is_ok());
    assert_eq!(w.devices.as_ref().unwrap(), &vec!["other".to_string()]);

    // Second run with nothing created in between: succeeds as a no-op.
    w.log.clear();
    assert!(drive(&mut w).is_ok());
    assert!(!w.log.iter().any(|l| l.starts_with("unmount ")));
    assert!(!w.log.iter().any(|l| l.starts_with("remove ")));
}

#[test]
fn only_marked_names_are_touched() {
    let mut w = World::new();
    w.mounts = Ok(vec![
        "/mnt/keepme".to_string(),
        format!("/mnt/del{}", M),
    ]);
    w.devices = Ok(vec!["foo".to_string(), format!("foo{}", M)]);
    assert!(drive(&mut w).is_ok());
    assert_eq!(w.mounts.as_ref().unwrap(), &vec!["/mnt/keepme".to_string()]);
    assert_eq!(w.devices.as_ref().unwrap(), &vec!["foo".to_string()]);
    assert!(w.log.iter().any(|l| *l == format!("unmount /mnt/del{}", M)));
    assert!(!w.log.iter().any(|l| l == "unmount /mnt/keepme"));
    assert!(w.log.iter().any(|l| *l == format!("remove foo{}", M)));
    assert!(!w.log.iter().any(|l| l == "remove foo"));
}

#[test]
fn unmount_precedes_removal() {
    // A marked device backs a marked mount: the unmount must come first.
    let mut w = World::new();
    let dev = format!("d{}", M);
    w.mounts = Ok(vec![format!("/mnt/d{}", M)]);
    w.devices = Ok(vec![dev.clone()]);
    assert!(drive(&mut w).is_ok());
    let unmount_at = w
        .log
        .iter()
        .position(|l| l.starts_with("unmount "))
        .expect("no unmount happened");
    let remove_at = w
        .log
        .iter()
        .position(|l| l.starts_with("remove "))
        .expect("no removal happened");
    assert!(unmount_at < remove_at);
}

#[test]
fn unmount_failure_fails_fast() {
    let mut w = World::new();
    let a = format!("/m/a{}", M);
    let b = format!("/m/b{}", M);
    w.mounts = Ok(vec![a.clone(), b.clone()]);
    w.unmount_fails = vec![a.clone()];
    match drive(&mut w).unwrap_err() {
        CleanupError::Unmount { path, cause } => {
            assert_eq!(path, a);
            assert_eq!(cause, format!("{} is busy", a));
        }
        other => panic!("wrong error: {:?}", other),
    }
    // The second mount was never attempted and is still mounted.
    assert!(!w.log.iter().any(|l| *l == format!("unmount {}", b)));
    assert!(w.mounts.as_ref().unwrap().contains(&b));
    // Devices were never reached.
    assert!(!w.log.iter().any(|l| l == "list_devices"));
}

#[test]
fn chain_removed_within_k_passes() {
    // Five stacked devices listed bottom-first: the worst order.  Each pass
    // frees exactly one, so five passes and one final empty listing.
    let mut w = World::new();
    let names: Vec<String> = (1..=5).map(|i| format!("d{}{}", i, M)).collect();
    // d1 is on top of d2, d2 on d3, ... d4 on d5.
    w.backing = (0..4)
        .map(|i| (names[i].clone(), names[i + 1].clone()))
        .collect();
    let mut listed = names.clone();
    listed.reverse();
    w.devices = Ok(listed);
    assert!(drive(&mut w).is_ok());
    assert!(w.devices.as_ref().unwrap().is_empty());
    let listings = w.log.iter().filter(|l| *l == "list_devices").count();
    assert_eq!(listings, 6);
}

#[test]
fn busy_device_reported_as_residual() {
    let mut w = World::new();
    let stuck = format!("stuck{}", M);
    let gone = format!("gone{}", M);
    w.devices = Ok(vec![stuck.clone(), gone.clone()]);
    w.busy = vec![stuck.clone()];
    match drive(&mut w).unwrap_err() {
        CleanupError::Residual { remaining } => assert_eq!(remaining, vec![stuck.clone()]),
        other => panic!("wrong error: {:?}", other),
    }
    // The removable device was still removed before the loop gave up.
    assert_eq!(w.devices.as_ref().unwrap(), &vec![stuck]);
}

#[test]
fn mount_listing_failure_is_fatal() {
    let mut w = World::new();
    w.mounts = Err("cannot read the mount table".to_string());
    match drive(&mut w).unwrap_err() {
        CleanupError::MountListing { cause } => {
            assert_eq!(cause, "cannot read the mount table");
        }
        other => panic!("wrong error: {:?}", other),
    }
    assert!(!w.log.iter().any(|l| l == "access_dm"));
}

#[test]
fn device_listing_failure_is_fatal() {
    let mut w = World::new();
    w.devices = Err("ioctl failed".to_string());
    match drive(&mut w).unwrap_err() {
        CleanupError::DeviceListing { cause } => assert_eq!(cause, "ioctl failed"),
        other => panic!("wrong error: {:?}", other),
    }
}

#[test]
fn context_failure_is_fatal() {
    let mut w = World::new();
    w.dm_ready = Err("cannot open the control channel".to_string());
    w.devices = Ok(vec![format!("a{}", M)]);
    match drive(&mut w).unwrap_err() {
        CleanupError::Initialization { cause } => {
            assert_eq!(cause, "cannot open the control channel");
        }
        other => panic!("wrong error: {:?}", other),
    }
    assert!(!w.log.iter().any(|l| l == "list_devices"));
}

#[test]
fn mismatched_event_leaves_machine_unchanged() {
    let machine = clean_up();
    let machine = machine.step(Event::RemoveDone { ok: true });
    assert!(!machine.is_finished());
    assert!(matches!(machine.current_action(), Action::ListMounts));
}

use mataho::controller::TahomaSetupResponse;
use mataho::device::{Device, DeviceAction, DeviceDefinition};
use mataho::errors::MatahoError;
use mataho::group::DeviceGroup;
use mataho::service::MatahoService;

fn grp_device(label: &str, url: &str) -> Device {
    let actions = vec![DeviceAction::new("open".to_string(), 0, None)];
    Device::new(
        label.to_string(),
        "io:GarageOpenerIOComponent".to_string(),
        DeviceDefinition::new(actions),
        url.to_string(),
        true,
    )
}

fn grp_service() -> MatahoService {
    let devices = vec![
        grp_device("Garage", "io://box/100"),
        grp_device("Gate", "io://box/200"),
    ];
    MatahoService::new(TahomaSetupResponse { devices }, Vec::new())
}

#[test]
fn duplicate_group_name_is_rejected() {
    let mut service = grp_service();
    service.create_group("Upstairs").expect("first creation");
    assert_eq!(service.groups().len(), 1);
    match service.create_group("Upstairs") {
        Err(MatahoError::DuplicateName) => {}
        other => panic!("expected a duplicate-name failure, got {:?}", other),
    }
    assert_eq!(service.groups().len(), 1);
}

#[test]
fn group_names_are_case_sensitive() {
    let mut service = grp_service();
    service.create_group("Upstairs").expect("first creation");
    service.create_group("upstairs").expect("different case is a different name");
    assert_eq!(service.groups().len(), 2);
}

#[test]
fn adding_same_member_twice_is_rejected() {
    let mut service = grp_service();
    service.create_group("All doors").expect("creation");
    service.add_to_group("All doors", "Garage").expect("first add");
    match service.add_to_group("All doors", "Garage") {
        Err(MatahoError::AlreadyMember) => {}
        other => panic!("expected an already-member failure, got {:?}", other),
    }
    let group = service.find_group_by_name("All doors").expect("group exists");
    assert_eq!(group.devices(), &vec!["100".to_string()]);
}

#[test]
fn removing_absent_member_is_rejected() {
    let mut service = grp_service();
    service.create_group("All doors").expect("creation");
    match service.remove_from_group("All doors", "Garage") {
        Err(MatahoError::NotMember) => {}
        other => panic!("expected a not-member failure, got {:?}", other),
    }
}

#[test]
fn membership_stores_resolved_device_id() {
    let mut service = grp_service();
    service.create_group("All doors").expect("creation");
    // The member is given by (fuzzily matchable) label; the stored entry
    // is the resolved device id, the last segment of the device URL.
    service.add_to_group("All doors", "garge").expect("fuzzy add");
    let group = service.find_group_by_name("All doors").expect("group exists");
    assert_eq!(group.devices(), &vec!["100".to_string()]);
    service.remove_from_group("All doors", "Garage").expect("remove by label");
    let group = service.find_group_by_name("All doors").expect("group exists");
    assert!(group.devices().is_empty());
}

#[test]
fn group_operations_on_missing_group_fail() {
    let mut service = grp_service();
    match service.delete_group("Nowhere") {
        Err(MatahoError::NotFound) => {}
        other => panic!("expected not found, got {:?}", other),
    }
    match service.add_to_group("Nowhere", "Garage") {
        Err(MatahoError::NotFound) => {}
        other => panic!("expected not found, got {:?}", other),
    }
    match service.remove_from_group("Nowhere", "Garage") {
        Err(MatahoError::NotFound) => {}
        other => panic!("expected not found, got {:?}", other),
    }
}

#[test]
fn adding_unresolvable_device_fails() {
    let mut service = grp_service();
    service.create_group("All doors").expect("creation");
    match service.add_to_group("All doors", "zzz-q") {
        Err(MatahoError::NotFound) => {}
        other => panic!("expected not found, got {:?}", other),
    }
}

#[test]
fn delete_group_removes_it() {
    let mut service = grp_service();
    service.create_group("First").expect("creation");
    service.create_group("Second").expect("creation");
    service.delete_group("First").expect("deletion");
    assert_eq!(service.groups().len(), 1);
    assert!(service.find_group_by_name("First").is_none());
    assert!(service.find_group_by_name("Second").is_some());
}

#[test]
fn find_group_by_name_mut_edits_in_place() {
    let mut service = grp_service();
    service.create_group("Doors").expect("creation");
    {
        let group = service.find_group_by_name_mut("Doors").expect("group exists");
        group.add_device("100").expect("direct add");
    }
    let group = service.find_group_by_name("Doors").expect("group exists");
    assert!(group.has_device("100"));
    assert!(service.find_group_by_name_mut("Elsewhere").is_none());
}

#[test]
fn stale_member_id_fails_cleanly() {
    let mut stale = DeviceGroup::new("Stale");
    stale.add_device("no-such-device").expect("direct add");
    let devices = vec![grp_device("Garage", "io://box/100")];
    let service = MatahoService::new(TahomaSetupResponse { devices }, vec![stale]);
    let group = service.find_group_by_name("Stale").expect("group exists");
    match service.get_group_devices(group) {
        Err(MatahoError::NotFound) => {}
        Ok(_) => panic!("a stale member id must not resolve"),
        Err(other) => panic!("expected not found, got {:?}", other),
    }
}

#[test]
fn group_ids_are_distinct() {
    let a = DeviceGroup::new("A");
    let b = DeviceGroup::new("B");
    assert_ne!(a.id(), b.id());
    assert_eq!(a.name(), "A");
}

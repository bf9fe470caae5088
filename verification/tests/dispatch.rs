use mataho::controller::TahomaApiController;
use mataho::controller::TahomaSetupResponse;
use mataho::device::{Device, DeviceAction, DeviceDefinition};
use mataho::dispatch::{execute_on_device, execute_on_group};
use mataho::errors::MatahoError;
use mataho::model::{Configuration, MatchMode};
use mataho::service::MatahoService;

fn dsp_device(label: &str, url: &str, actions: &[&str]) -> Device {
    let mut list: Vec<DeviceAction> = Vec::new();
    for a in actions {
        list.push(DeviceAction::new(a.to_string(), 0, None));
    }
    Device::new(
        label.to_string(),
        "io:GarageOpenerIOComponent".to_string(),
        DeviceDefinition::new(list),
        url.to_string(),
        true,
    )
}

fn dsp_service() -> MatahoService {
    let devices = vec![
        dsp_device("Front shutter", "io://box/1", &["open", "close"]),
        dsp_device("Back shutter", "io://box/2", &["open", "close"]),
        dsp_device("Old gate", "io://box/3", &["open"]),
    ];
    MatahoService::new(TahomaSetupResponse { devices }, Vec::new())
}

#[test]
fn single_device_request_carries_command_and_params() {
    let service = dsp_service();
    let args = vec!["25".to_string()];
    let req = execute_on_device(&service, "1", MatchMode::Fuzzy, "close", &args)
        .expect("supported action");
    assert_eq!(req.label, "Exec close on io://box/1");
    assert_eq!(req.actions.len(), 1);
    assert_eq!(req.actions[0].device_url, "io://box/1");
    assert_eq!(req.actions[0].command, "close");
    assert_eq!(req.actions[0].params, args);
}

#[test]
fn unsupported_action_on_device_is_rejected() {
    let service = dsp_service();
    match execute_on_device(&service, "Old gate", MatchMode::Fuzzy, "close", &Vec::new()) {
        Err(MatahoError::UnsupportedAction) => {}
        other => panic!("expected an unsupported-action failure, got {:?}", other.map(|r| r.label)),
    }
}

#[test]
fn unknown_device_is_not_found() {
    let service = dsp_service();
    match execute_on_device(&service, "zzz-q", MatchMode::Fuzzy, "open", &Vec::new()) {
        Err(MatahoError::NotFound) => {}
        other => panic!("expected not found, got {:?}", other.map(|r| r.label)),
    }
}

#[test]
fn group_exec_is_all_or_nothing() {
    let mut service = dsp_service();
    service.create_group("Everything").expect("creation");
    service.add_to_group("Everything", "1").expect("member");
    service.add_to_group("Everything", "2").expect("member");
    service.add_to_group("Everything", "3").expect("member");
    // One member lacks "close": the whole call is rejected, and since no
    // request value exists at all, nothing can reach the remote side.
    match execute_on_group(&service, "Everything", "close", &Vec::new()) {
        Err(MatahoError::UnsupportedAction) => {}
        other => panic!("expected an unsupported-action failure, got {:?}", other.map(|r| r.label)),
    }
}

#[test]
fn group_exec_batches_every_member() {
    let mut service = dsp_service();
    service.create_group("Shutters").expect("creation");
    service.add_to_group("Shutters", "1").expect("member");
    service.add_to_group("Shutters", "2").expect("member");
    let req = execute_on_group(&service, "Shutters", "close", &Vec::new())
        .expect("every member supports the action");
    assert_eq!(req.label, "Exec close on 2 devices");
    assert_eq!(req.actions.len(), 2);
    assert_eq!(req.actions[0].device_url, "io://box/1");
    assert_eq!(req.actions[1].device_url, "io://box/2");
    assert!(req.actions.iter().all(|a| a.command == "close"));
}

#[test]
fn group_exec_on_missing_group_is_not_found() {
    let service = dsp_service();
    match execute_on_group(&service, "Nowhere", "open", &Vec::new()) {
        Err(MatahoError::NotFound) => {}
        other => panic!("expected not found, got {:?}", other.map(|r| r.label)),
    }
}

#[test]
fn default_configuration_values() {
    let c = Configuration::new();
    assert_eq!(c.hostname, "https://127.0.0.1");
    assert_eq!(c.port, 8443);
    assert_eq!(c.api_token, "REPLACE_WITH_TOKEN");
}

#[test]
fn endpoint_joins_hostname_port_and_path() {
    let config = Configuration {
        hostname: "https://192.168.1.30".to_string(),
        port: 8443,
        api_token: "token".to_string(),
    };
    let controller = TahomaApiController::new(&config);
    assert_eq!(
        controller.endpoint("/enduser-mobile-web/1/enduserAPI/setup"),
        "https://192.168.1.30:8443//enduser-mobile-web/1/enduserAPI/setup",
    );
    assert_eq!(controller.hostname(), "https://192.168.1.30");
    assert_eq!(controller.port(), 8443);
    assert_eq!(controller.api_token(), "token");
}

#[test]
fn config_dir_chain_takes_first_provider() {
    let dir = MatahoService::get_config_dir(
        Some("/override".to_string()),
        Some("/xdg".to_string()),
        Some("/home/u".to_string()),
    );
    assert_eq!(dir, Some("/override".to_string()));
    let dir = MatahoService::get_config_dir(None, Some("/xdg".to_string()), Some("/home/u".to_string()));
    assert_eq!(dir, Some("/xdg/mataho".to_string()));
    let dir = MatahoService::get_config_dir(None, None, Some("/home/u".to_string()));
    assert_eq!(dir, Some("/home/u/.config/mataho".to_string()));
    assert_eq!(MatahoService::get_config_dir(None, None, None), None);
}

#[test]
fn config_paths_join_the_directory() {
    assert_eq!(MatahoService::config_file_path("/etc/mataho"), "/etc/mataho/config.json");
    assert_eq!(MatahoService::groups_file_path("/etc/mataho"), "/etc/mataho/groups.json");
}

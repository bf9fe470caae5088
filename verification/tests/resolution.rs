use fuzzy_matcher::FuzzyMatcher;
use mataho::controller::TahomaSetupResponse;
use mataho::device::{Device, DeviceAction, DeviceDefinition};
use mataho::errors::MatahoError;
use mataho::model::{DeviceTypeFilter, MatchMode};
use mataho::service::MatahoService;

fn res_device(label: &str, url: &str, actions: &[&str]) -> Device {
    let mut list: Vec<DeviceAction> = Vec::new();
    for a in actions {
        list.push(DeviceAction::new(a.to_string(), 0, None));
    }
    Device::new(
        label.to_string(),
        "io:RollerShutterWithLowSpeedManagementIOComponent".to_string(),
        DeviceDefinition::new(list),
        url.to_string(),
        true,
    )
}

fn res_service(devices: Vec<Device>) -> MatahoService {
    MatahoService::new(TahomaSetupResponse { devices }, Vec::new())
}

#[test]
fn device_id_is_last_url_segment() {
    let d = res_device("Garage", "io://1234-5678-0000/13579", &["open"]);
    assert_eq!(d.id(), "13579");
    let plain = res_device("Plain", "no-slash-here", &["open"]);
    assert_eq!(plain.id(), "no-slash-here");
    let trailing = res_device("Trailing", "ends-with/", &["open"]);
    assert_eq!(trailing.id(), "");
}

#[test]
fn identifier_priority_id_wins_over_label() {
    // One device's id equals the query; another device's label equals it too.
    let by_id = res_device("Something else", "io://box/abc", &["open"]);
    let by_label = res_device("abc", "io://box/999", &["open"]);
    let service = res_service(vec![by_id, by_label]);
    for mode in [MatchMode::Exact, MatchMode::Fuzzy] {
        let found = service.find_device("abc", mode).expect("id match must win");
        assert_eq!(found.url(), "io://box/abc");
    }
}

#[test]
fn exact_label_match_is_case_insensitive() {
    let d = res_device("Garage", "io://box/1", &["open"]);
    let service = res_service(vec![d]);
    let found = service.find_device("gArAgE", MatchMode::Exact).expect("case-folded match");
    assert_eq!(found.label(), "Garage");
}

#[test]
fn exact_match_short_circuits_fuzzy() {
    // "garage" matches the first device exactly (case-insensitively), even
    // though the second device's label would also score against it.
    let a = res_device("Garage", "io://box/1", &["open"]);
    let b = res_device("garage and garage again", "io://box/2", &["open"]);
    let service = res_service(vec![a, b]);
    let found = service.find_device("garage", MatchMode::Fuzzy).expect("exact match wins");
    assert_eq!(found.label(), "Garage");
}

#[test]
fn fuzzy_finds_subsequence_match() {
    let a = res_device("Garage door", "io://box/1", &["open"]);
    let b = res_device("Entrance gate", "io://box/2", &["open"]);
    let service = res_service(vec![a, b]);
    let found = service.find_device("grge", MatchMode::Fuzzy).expect("subsequence match");
    assert_eq!(found.label(), "Garage door");
}

#[test]
fn ambiguity_on_tied_scores() {
    let a = res_device("Kitchen Shutter", "io://box/1", &["open"]);
    let b = res_device("Kitchen Shutters", "io://box/2", &["open"]);
    let service = res_service(vec![a, b]);
    let matcher = fuzzy_matcher::skim::SkimMatcherV2::default();
    let score_a = matcher.fuzzy_match("kitchen shutter", "kitchen").unwrap();
    let score_b = matcher.fuzzy_match("kitchen shutters", "kitchen").unwrap();
    let outcome = service.find_device("Kitchen", MatchMode::Fuzzy);
    if score_a == score_b {
        match outcome {
            Err(MatahoError::AmbiguousMatch(labels)) => {
                assert_eq!(labels, vec![
                    "Kitchen Shutter".to_string(),
                    "Kitchen Shutters".to_string(),
                ]);
            }
            other => panic!("expected an ambiguous match, got {:?}", other.map(|d| d.label().to_string())),
        }
    } else {
        let expected = if score_a > score_b { "Kitchen Shutter" } else { "Kitchen Shutters" };
        assert_eq!(outcome.expect("single best candidate").label(), expected);
    }
}

#[test]
fn exact_mode_suppresses_fuzzy() {
    let d = res_device("Kitchen", "io://box/1", &["open"]);
    let service = res_service(vec![d]);
    // The misspelled query would succeed fuzzily, but exact mode fails it.
    assert!(service.find_device("Kithen", MatchMode::Fuzzy).is_ok());
    match service.find_device("Kithen", MatchMode::Exact) {
        Err(MatahoError::NotFound) => {}
        other => panic!("expected a clean failure, got {:?}", other.map(|d| d.label().to_string())),
    }
}

#[test]
fn no_match_at_all_is_not_found() {
    let d = res_device("Garage", "io://box/1", &["open"]);
    let service = res_service(vec![d]);
    match service.find_device("zzz-q", MatchMode::Fuzzy) {
        Err(MatahoError::NotFound) => {}
        other => panic!("expected not found, got {:?}", other.map(|d| d.label().to_string())),
    }
}

#[test]
fn device_type_filter_matches_tag() {
    let d = res_device("Garage", "io://box/1", &["open"]);
    assert!(d.has_type(DeviceTypeFilter::All));
    assert!(d.has_type(DeviceTypeFilter::RollerShutter));
    assert!(!d.has_type(DeviceTypeFilter::GarageDoor));
    assert_eq!(DeviceTypeFilter::GarageDoor.as_str(), "io:GarageOpenerIOComponent");
    assert_eq!(DeviceTypeFilter::All.as_str(), "");
}

#[test]
fn supports_action_by_exact_name() {
    let d = res_device("Garage", "io://box/1", &["open", "close"]);
    assert!(d.supports_action("open"));
    assert!(d.supports_action("close"));
    assert!(!d.supports_action("Open"));
    assert!(!d.supports_action("stop"));
}

#[test]
fn action_accessors_carry_fields() {
    let a = DeviceAction::new("setClosure".to_string(), 1, Some("p1".to_string()));
    assert_eq!(a.name(), "setClosure");
    assert_eq!(a.params_count(), 1);
    assert_eq!(a.params_signature(), Some("p1"));
    let b = DeviceAction::new("open".to_string(), 0, None);
    assert_eq!(b.params_signature(), None);
}

use ha_bridge::reconcile::{Reconciler, StoveMetadata, StoveStatus};
use ha_bridge::stove::Controls;

fn status(version: u32, heating_power: i32) -> StoveStatus {
    StoveStatus {
        stove_id: "12345".to_string(),
        name: "Salon Poêle".to_string(),
        oem: "RIKA".to_string(),
        stove_type: "DOMO".to_string(),
        main_board_version: version,
        controls: Controls {
            on_off: Some(true),
            operating_mode: Some(2),
            target_temperature: Some("21".to_string()),
            set_back_temperature: None,
            heating_power: Some(heating_power),
            heating_times_active_for_comfort: None,
            frost_protection_active: None,
            frost_protection_temperature: None,
        },
    }
}

#[test]
fn stove_metadata_is_derived_from_status() {
    let m = StoveMetadata::from_status(&status(223, 50));
    assert_eq!(m.manufacturer, "RIKA");
    assert_eq!(m.model, "DOMO");
    assert_eq!(m.id, "12345");
    assert_eq!(m.unique_id, "RIKA_DOMO_Salon_Poele-12345");
    assert_eq!(m.object_id, "RIKA_DOMO_Salon_Poele");
    assert_eq!(m.version, "2.23");
    assert_eq!(m.topic_prefix, "rika-firenet/RIKA_DOMO_Salon_Poele-12345");
    assert_eq!(StoveMetadata::from_status(&status(7, 50)).version, "7.");
}

#[test]
fn reconcile_publishes_only_on_configuration_change() {
    let mut reconciler = Reconciler::new();
    let key = "12345".to_string();
    let (publish, _) = reconciler.reconcile(key.clone(), &status(223, 50));
    assert!(publish, "nothing was published yet");
    let (publish, _) = reconciler.reconcile(key.clone(), &status(223, 50));
    assert!(!publish, "identical status");
    let (publish, _) = reconciler.reconcile(key.clone(), &status(223, 80));
    assert!(!publish, "only a transient value changed");
    let (publish, snapshot) = reconciler.reconcile(key.clone(), &status(224, 80));
    assert!(publish, "firmware version changed");
    assert_eq!(snapshot.version, "2.24");
    let (publish, _) = reconciler.reconcile("other".to_string(), &status(224, 80));
    assert!(publish, "another key has its own snapshot");
    let (publish, _) = reconciler.reconcile(key, &status(224, 10));
    assert!(!publish);
}

#[test]
fn metadata_comparison() {
    let a = StoveMetadata::from_status(&status(223, 50));
    let b = a.duplicate();
    assert!(a.same_configuration(&b));
    let c = StoveMetadata::from_status(&status(230, 50));
    assert!(!a.same_configuration(&c));
}

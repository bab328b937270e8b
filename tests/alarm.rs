use ha_bridge::alarm::{AlarmDeviceIdentity, SiteDevices};

fn device(label: Option<&str>, definition_label: &str) -> AlarmDeviceIdentity {
    AlarmDeviceIdentity {
        site_id: "site-1".to_string(),
        device_id: "dev 9".to_string(),
        label: label.map(|l| l.to_string()),
        definition_label: definition_label.to_string(),
        device_type: "\"box\"".to_string(),
    }
}

#[test]
fn names_alarm_devices() {
    let labelled = device(Some("Entrée"), "Somfy Link");
    assert_eq!(labelled.name(), "Entrée");
    assert_eq!(labelled.unique_id(), "Somfy-site-1-dev_9");
    assert_eq!(labelled.object_id(), "Somfy__box__Entree");
    assert_eq!(labelled.topic_prefix(), "somfy-protect/Somfy-site-1-dev_9");
    assert_eq!(labelled.state_topic(), "somfy-protect/Somfy-site-1-dev_9/state");
    let bare = device(None, "Indoor Siren");
    assert_eq!(bare.name(), "Indoor Siren (id=dev 9)");
}

#[test]
fn splits_manufacturer_and_model() {
    assert_eq!(
        device(None, "Somfy Indoor Siren").manufacturer_and_model(),
        ("Somfy".to_string(), "Indoor Siren".to_string())
    );
    assert_eq!(
        device(None, "Myfox Security Camera").manufacturer_and_model(),
        ("Myfox".to_string(), "Security Camera".to_string())
    );
    assert_eq!(
        device(None, "Acme Key Fob").manufacturer_and_model(),
        ("Somfy".to_string(), "Acme Key Fob".to_string())
    );
    assert_eq!(
        device(None, "Link").manufacturer_and_model(),
        ("Somfy".to_string(), "Link".to_string())
    );
}

#[test]
fn site_devices_follow_the_box() {
    let mut site: SiteDevices<&str> = SiteDevices::new();
    site.add_device("siren".to_string(), false, "first siren");
    assert_eq!(site.devices()[0].via_device, None);
    site.add_device("box".to_string(), true, "the box");
    site.add_device("siren".to_string(), false, "siren seen again");
    site.add_device("camera".to_string(), false, "camera");
    let devices = site.devices();
    assert_eq!(devices.len(), 3);
    assert_eq!(devices[0].device_id, "siren");
    assert_eq!(devices[0].device, "first siren");
    assert_eq!(devices[0].via_device, Some("box".to_string()));
    assert_eq!(devices[1].device_id, "box");
    assert_eq!(devices[1].via_device, Some("box".to_string()));
    assert_eq!(devices[2].via_device, Some("box".to_string()));
}

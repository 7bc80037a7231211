use bee::audio::{candidate_order, list_devices, open_failure_message, DeviceChoice};

fn names(v: &[&str]) -> Vec<String> {
    v.iter().map(|s| s.to_string()).collect()
}

#[test]
fn devices_mark_the_default() {
    let d = list_devices(&names(&["Mic", "USB"]), Some("USB"));
    assert_eq!(d.len(), 2);
    assert!(!d[0].is_default);
    assert!(d[1].is_default);
    assert!(list_devices(&names(&["Mic"]), None).iter().all(|x| !x.is_default));
}

#[test]
fn candidates_prefer_settings_then_default() {
    let n = names(&["Built-in", "USB", "Headset"]);
    let order = candidate_order(Some("Headset"), Some("Missing"), &n, Some("Built-in"));
    assert_eq!(
        order,
        vec![DeviceChoice::Listed(2), DeviceChoice::Default, DeviceChoice::Listed(1)]
    );
    let order = candidate_order(None, None, &n, None);
    assert_eq!(
        order,
        vec![DeviceChoice::Listed(0), DeviceChoice::Listed(1), DeviceChoice::Listed(2)]
    );
    let order = candidate_order(Some("USB"), Some("USB"), &n, Some("Other"));
    assert_eq!(
        order,
        vec![
            DeviceChoice::Listed(1),
            DeviceChoice::Default,
            DeviceChoice::Listed(0),
            DeviceChoice::Listed(2)
        ]
    );
    assert!(candidate_order(Some("x"), None, &[], None).is_empty());
}

#[test]
fn failure_message_lists_attempts() {
    let attempts = vec![
        ("USB".to_string(), "busy".to_string()),
        ("Mic".to_string(), "denied".to_string()),
    ];
    assert_eq!(
        open_failure_message(&attempts),
        "No available microphone could be opened (USB: busy; Mic: denied)"
    );
    assert_eq!(open_failure_message(&[]), "No available microphone could be opened ()");
}

#[test]
fn no_device_message() {
    assert_eq!(bee::audio::no_microphone_message(), "No microphone detected");
}

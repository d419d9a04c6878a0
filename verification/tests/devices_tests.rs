use meowmic::devices::{device_names_changed, devices_changed, installer_command, DeviceChangePayload};

fn names(v: &[&str]) -> Vec<String> {
    v.iter().map(|s| s.to_string()).collect()
}

#[test]
fn order_and_repeats_are_not_a_change() {
    assert!(!device_names_changed(&names(&["A", "B"]), &names(&["B", "A", "A"])));
}

#[test]
fn added_or_removed_device_is_a_change() {
    assert!(device_names_changed(&names(&["A"]), &names(&["A", "B"])));
    assert!(device_names_changed(&names(&["A", "B"]), &names(&["A"])));
    assert!(device_names_changed(&names(&[]), &names(&["A"])));
}

#[test]
fn either_direction_triggers_the_announcement() {
    let a = names(&["Mic"]);
    let o = names(&["Speakers"]);
    assert!(!devices_changed(&a, &a, &o, &o));
    assert!(devices_changed(&a, &a, &o, &names(&["Speakers", "Headset"])));
    assert!(devices_changed(&a, &names(&[]), &o, &o));
}

#[test]
fn payload_holds_both_lists() {
    let p = DeviceChangePayload { input_devices: names(&["Mic"]), output_devices: names(&["Out"]) };
    assert_eq!(p.input_devices.len(), 1);
    assert_eq!(p.output_devices[0], "Out");
}

#[test]
fn installer_is_started_elevated() {
    assert_eq!(
        installer_command("C:\\tmp\\VBCABLE_Setup_x64.exe"),
        "Start-Process -FilePath 'C:\\tmp\\VBCABLE_Setup_x64.exe' -Verb RunAs"
    );
}

use mic_capture::devices::{assemble_device_list, select_device, DeviceChoice};
use mic_capture::errors::MicError;

/// The list puts the default first and de-duplicates by name.
#[test]
fn list_dedups_against_default() {
    let out = assemble_device_list(
        Some("Built-in".to_string()),
        vec!["Built-in".to_string(), "USB Mic".to_string(), "USB Mic".to_string()],
    );
    assert_eq!(out.len(), 2);
    assert_eq!(out[0].id, "default");
    assert_eq!(out[0].name, "Built-in");
    assert!(out[0].is_default);
    assert_eq!(out[1].id, "USB Mic");
    assert_eq!(out[1].name, "USB Mic");
    assert!(!out[1].is_default);
}

/// Without a default device, the enumerated names keep their order, each once.
#[test]
fn list_without_default() {
    let out = assemble_device_list(
        None,
        vec!["A".to_string(), "B".to_string(), "A".to_string(), "C".to_string()],
    );
    let names: Vec<&str> = out.iter().map(|d| d.name.as_str()).collect();
    assert_eq!(names, vec!["A", "B", "C"]);
    assert!(out.iter().all(|d| !d.is_default));
}

/// A requested name picks the first enumerated device of that name.
#[test]
fn select_picks_named_device() {
    let available = vec!["A".to_string(), "B".to_string(), "B".to_string()];
    let r = select_device(&Some("B".to_string()), &available, true);
    assert_eq!(r, Ok(DeviceChoice::Named(1)));
}

/// No request, a "default" request, and an unknown name all fall back to
/// the system default.
#[test]
fn select_falls_back_to_default() {
    let available = vec!["A".to_string()];
    assert_eq!(select_device(&None, &available, true), Ok(DeviceChoice::SystemDefault));
    assert_eq!(
        select_device(&Some("default".to_string()), &available, true),
        Ok(DeviceChoice::SystemDefault)
    );
    assert_eq!(
        select_device(&Some("Missing".to_string()), &available, true),
        Ok(DeviceChoice::SystemDefault)
    );
}

/// With no default device at all, selection fails with `NoDeviceAvailable`.
#[test]
fn select_without_any_device() {
    assert_eq!(
        select_device(&None, &Vec::new(), false),
        Err(MicError::NoDeviceAvailable)
    );
    assert_eq!(
        select_device(&Some("Missing".to_string()), &Vec::new(), false),
        Err(MicError::NoDeviceAvailable)
    );
}

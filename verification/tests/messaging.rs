use holyrig::messaging::{command_failure_text, DeviceMessage, DeviceReaction};

#[test]
fn device_reports_decide_the_manager_reaction() {
    assert_eq!(
        DeviceMessage::Connected { device_id: 3 }.reaction(),
        DeviceReaction::Connect { device_id: 3 }
    );
    assert_eq!(
        DeviceMessage::Disconnected { device_id: 0 }.reaction(),
        DeviceReaction::Disconnect { device_id: 0 }
    );
    assert_eq!(
        DeviceMessage::Error { device_id: 12, error: "port vanished".to_string() }.reaction(),
        DeviceReaction::Report { message: "Device (id: 12) failed: port vanished".to_string() }
    );
    assert_eq!(DeviceMessage::Error { device_id: 5, error: String::new() }.device_id(), 5);
}

#[test]
fn failed_commands_are_reported_with_device_and_reason() {
    assert_eq!(
        command_failure_text("set_freq", 1, "timeout"),
        "Command set_freq of device 1 failed: timeout"
    );
}

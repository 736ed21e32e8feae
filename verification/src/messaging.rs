//! Messages passed between the rig manager, the devices and the user interface.
use vstd::prelude::*;

use crate::name_map::NameMap;
use crate::rig::RigSettings;
use crate::text::{decimal_chars, push_decimal, push_str, string_from_chars};

verus! {

/// Messages for and from the user interface.
#[derive(Debug, Clone)]
pub enum GuiMessage {
    UpdateSettings { settings: RigSettings },
    SettingsChanged { settings: RigSettings },
    ShowError { message: String },
    UpdateStatus { status: String },
    OpenWindow { window_type: String },
    CloseWindow { window_type: String },
}

/// Something that serves messages until it is shut down.
pub trait MessageHandler {
    /// Serve messages until there are no more.
    fn handle_messages(&mut self) -> Result<(), String>;

    /// Stop serving.
    fn shutdown(&mut self) -> Result<(), String>;
}

/// What a serial device reports to its manager.
#[derive(Debug, Clone, PartialEq, Eq)]
pub enum DeviceMessage {
    Error { device_id: usize, error: String },
    Disconnected { device_id: usize },
    Connected { device_id: usize },
}

/// Requests to the device manager.
#[derive(Debug, Clone)]
pub enum ManagerCommand {
    CreateOrUpdateDevice { settings: RigSettings },
    ExecuteCommand { device_id: usize, command_name: String, params: NameMap<String> },
    RemoveDevice { device_id: usize },
}

impl DeviceMessage {
    /// The device the message is about.
    pub fn device_id(&self) -> (r: usize)
        ensures
            r == match *self {
                DeviceMessage::Error { device_id, .. } => device_id,
                DeviceMessage::Disconnected { device_id } => device_id,
                DeviceMessage::Connected { device_id } => device_id,
            },
    {
        match self {
            DeviceMessage::Error { device_id, .. } => *device_id,
            DeviceMessage::Disconnected { device_id } => *device_id,
            DeviceMessage::Connected { device_id } => *device_id,
        }
    }
}

/// What the device manager does when a device reports.
#[derive(Debug, Clone, PartialEq, Eq)]
pub enum DeviceReaction {
    /// Announce the connection, initialize the rig, then poll its status.
    Connect { device_id: usize },
    /// Announce the disconnection.
    Disconnect { device_id: usize },
    /// Report the failure with this text.
    Report { message: String },
}

impl DeviceMessage {
    /// How the device manager answers this report.
    pub fn reaction(&self) -> (r: DeviceReaction)
        ensures
            match *self {
                DeviceMessage::Connected { device_id } => r == DeviceReaction::Connect { device_id },
                DeviceMessage::Disconnected { device_id } => r == DeviceReaction::Disconnect { device_id },
                DeviceMessage::Error { device_id, error } => r matches DeviceReaction::Report { message }
                    && message@ == "Device (id: "@ + decimal_chars(device_id as nat) + ") failed: "@ + error@,
            },
    {
        match self {
            DeviceMessage::Connected { device_id } => DeviceReaction::Connect { device_id: *device_id },
            DeviceMessage::Disconnected { device_id } => DeviceReaction::Disconnect { device_id: *device_id },
            DeviceMessage::Error { device_id, error } => {
                let mut out: Vec<char> = Vec::new();
                push_str(&mut out, "Device (id: ");
                push_decimal(&mut out, *device_id as u128);
                push_str(&mut out, ") failed: ");
                push_str(&mut out, error.as_str());
                DeviceReaction::Report { message: string_from_chars(out.as_slice()) }
            },
        }
    }
}

/// What the device manager reports when a rig command fails.
pub fn command_failure_text(command_name: &str, device_id: usize, error: &str) -> (s: String)
    ensures
        s@ == "Command "@ + command_name@ + " of device "@ + decimal_chars(device_id as nat) + " failed: "@ + error@,
{
    let mut out: Vec<char> = Vec::new();
    push_str(&mut out, "Command ");
    push_str(&mut out, command_name);
    push_str(&mut out, " of device ");
    push_decimal(&mut out, device_id as u128);
    push_str(&mut out, " failed: ");
    push_str(&mut out, error);
    string_from_chars(out.as_slice())
}

} // verus!

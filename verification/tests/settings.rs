use holyrig::rig::{RigSettings, Settings};

fn rig(id: usize, port: &str) -> RigSettings {
    let mut s = RigSettings::default().with_id(id);
    s.port = port.to_string();
    s
}

#[test]
fn storing_settings_replaces_the_rig_with_that_id() {
    let mut settings = Settings::from_rigs(vec![rig(0, "COM1"), rig(1, "COM2")]);
    settings.upsert(rig(1, "COM9"));
    let ports: Vec<_> = settings.rigs.iter().map(|r| (r.id, r.port.clone())).collect();
    assert_eq!(ports, vec![(0, "COM1".to_string()), (1, "COM9".to_string())]);
}

#[test]
fn storing_settings_of_a_new_rig_adds_it_last() {
    let mut settings = Settings::from_rigs(vec![rig(0, "COM1")]);
    settings.upsert(rig(4, "/dev/ttyUSB0"));
    assert_eq!(settings.rigs.len(), 2);
    assert_eq!(settings.rigs[1].id, 4);
    assert_eq!(settings.rigs[1].port, "/dev/ttyUSB0");
}

#[test]
fn removing_a_rig_takes_out_the_first_with_its_id() {
    let mut settings = Settings::from_rigs(vec![rig(0, "a"), rig(2, "b"), rig(2, "c")]);
    assert!(settings.remove_rig(2));
    let ports: Vec<_> = settings.rigs.iter().map(|r| r.port.clone()).collect();
    assert_eq!(ports, vec!["a".to_string(), "c".to_string()]);
    assert!(!settings.remove_rig(7));
    assert_eq!(settings.rigs.len(), 2);
}

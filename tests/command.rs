use ha_bridge::command::{split_command_topic, CommandError, MqttMessage, RikaFirenetCommand};
use ha_bridge::stove::StoveCommand;

fn message(topic: &str, payload: &str) -> MqttMessage {
    MqttMessage { topic: topic.to_string(), payload: payload.to_string() }
}

#[test]
fn decodes_stove_commands() {
    let cmd = RikaFirenetCommand::try_from(message("rika-firenet/RIKA_DOMO-1/power-on/set", "true")).unwrap();
    assert_eq!(cmd.topic_prefix, "rika-firenet/RIKA_DOMO-1");
    assert_eq!(cmd.command, StoveCommand::OnOff(true));
    let cases = [
        ("operating-mode", "2", StoveCommand::OperatingMode(2)),
        ("target-temp", "21.5", StoveCommand::TargetTemperature("21.5".to_string())),
        ("idle-temp", "16", StoveCommand::IdleTemperature("16".to_string())),
        ("power-heating", "-7", StoveCommand::PowerHeating(-7)),
        ("power-heating", "+70", StoveCommand::PowerHeating(70)),
        ("daily-schedules-enable", "false", StoveCommand::DailySchedulesEnabled(false)),
        ("frost-protection-enable", "true", StoveCommand::FrostProtectionEnabled(true)),
        ("frost-protection-temp", "4", StoveCommand::FrostProtectionTemperature("4".to_string())),
    ];
    for (attribute, payload, expected) in cases {
        let topic = format!("rika-firenet/s/{attribute}/set");
        let cmd = RikaFirenetCommand::try_from(message(&topic, payload)).unwrap();
        assert_eq!(cmd.command, expected);
        assert_eq!(cmd.topic_prefix, "rika-firenet/s");
    }
}

#[test]
fn rejects_malformed_commands() {
    let err = |topic: &str, payload: &str| RikaFirenetCommand::try_from(message(topic, payload)).unwrap_err();
    assert_eq!(err("rika-firenet/s/power-on", "true"), CommandError::UnparsableTopic);
    assert_eq!(err("rika-firenet//power-on/set", "true"), CommandError::UnparsableTopic);
    assert_eq!(err("other/s/power-on/set", "true"), CommandError::UnparsableTopic);
    assert_eq!(err("rika-firenet/s/x/power-on/set", "true"), CommandError::UnparsableTopic);
    assert_eq!(
        err("rika-firenet/s/colour/set", "red"),
        CommandError::UnsupportedAttribute("colour".to_string())
    );
    assert_eq!(err("rika-firenet/s/power-on/set", "yes"), CommandError::InvalidPayload);
    assert_eq!(err("rika-firenet/s/operating-mode/set", "2147483648"), CommandError::InvalidPayload);
    assert_eq!(err("rika-firenet/s/operating-mode/set", "-"), CommandError::InvalidPayload);
    assert_eq!(err("rika-firenet/s/target-temp/set", "warm"), CommandError::InvalidPayload);
    let min = RikaFirenetCommand::try_from(message("rika-firenet/s/power-heating/set", "-2147483648")).unwrap();
    assert_eq!(min.command, StoveCommand::PowerHeating(i32::MIN));
}

#[test]
fn temperatures_are_written_back_as_decimals() {
    let cmd = RikaFirenetCommand::try_from(message("rika-firenet/s/target-temp/set", "021.50")).unwrap();
    assert_eq!(cmd.command, StoveCommand::TargetTemperature("21.50".to_string()));
}

#[test]
fn splits_command_topics() {
    let parts = split_command_topic("rika-firenet/abc/idle-temp/set").unwrap();
    assert_eq!(parts.prefix, "rika-firenet/abc");
    assert_eq!(parts.attribute, "idle-temp");
    assert!(split_command_topic("rika-firenet/abc/idle-temp/get").is_none());
    assert!(split_command_topic("rika-firenet/abc//set").is_none());
}

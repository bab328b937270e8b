use ha_bridge::coalesce::Coalescer;
use ha_bridge::delay::Delay;
use ha_bridge::stove::{apply_all, Controls, StoveCommand};

fn secs(s: u64) -> Delay {
    Delay::from_secs(s)
}

fn controls() -> Controls {
    Controls {
        on_off: Some(false),
        operating_mode: Some(0),
        target_temperature: Some("20".to_string()),
        set_back_temperature: Some("16".to_string()),
        heating_power: Some(50),
        heating_times_active_for_comfort: Some(false),
        frost_protection_active: Some(true),
        frost_protection_temperature: Some("5".to_string()),
    }
}

#[test]
fn coalescer_flushes_three_commands_once() {
    let key = "rika-firenet/stove".to_string();
    let mut coalescer = Coalescer::new(secs(5));
    let t0 = 1000;
    assert_eq!(coalescer.submit(key.clone(), StoveCommand::TargetTemperature("21".to_string()), secs(t0)), secs(t0 + 5));
    assert_eq!(coalescer.submit(key.clone(), StoveCommand::OnOff(true), secs(t0 + 1)), secs(t0 + 6));
    assert_eq!(coalescer.submit(key.clone(), StoveCommand::TargetTemperature("23".to_string()), secs(t0 + 2)), secs(t0 + 7));
    assert_eq!(coalescer.deadline(&key), Some(secs(t0 + 7)));

    // The timers armed by the first two commands find newer commands.
    assert!(coalescer.flush(&key, secs(t0 + 5)).is_none());
    assert!(coalescer.flush(&key, secs(t0 + 6)).is_none());
    let flushed = coalescer.flush(&key, secs(t0 + 7)).expect("one flush at t0 + 7s");
    assert_eq!(flushed.len(), 3);
    assert!(coalescer.flush(&key, secs(t0 + 8)).is_none());
    assert_eq!(coalescer.deadline(&key), None);

    let mut merged = controls();
    apply_all(&mut merged, flushed);
    assert_eq!(merged.target_temperature, Some("23".to_string()));
    assert_eq!(merged.on_off, Some(true));
    assert_eq!(merged.heating_power, Some(50));
    assert_eq!(merged.frost_protection_temperature, Some("5".to_string()));
}

#[test]
fn coalescer_keys_do_not_delay_each_other() {
    let a = "rika-firenet/a".to_string();
    let b = "rika-firenet/b".to_string();
    let mut coalescer = Coalescer::new(secs(2));
    coalescer.submit(a.clone(), StoveCommand::PowerHeating(30), secs(0));
    coalescer.submit(b.clone(), StoveCommand::PowerHeating(60), secs(1));
    coalescer.submit(b.clone(), StoveCommand::OperatingMode(2), secs(1));
    assert_eq!(coalescer.deadline(&a), Some(secs(2)));
    let flushed_a = coalescer.flush(&a, secs(2)).expect("a is due at 2s");
    assert_eq!(flushed_a, vec![StoveCommand::PowerHeating(30)]);
    assert!(coalescer.flush(&b, secs(2)).is_none());
    let flushed_b = coalescer.flush(&b, secs(3)).expect("b is due at 3s");
    assert_eq!(flushed_b, vec![StoveCommand::PowerHeating(60), StoveCommand::OperatingMode(2)]);
    assert!(coalescer.flush(&"unknown".to_string(), secs(100)).is_none());
}

#[test]
fn commands_apply_last_write_wins() {
    let mut c = controls();
    StoveCommand::FrostProtectionEnabled(false).apply_to(&mut c);
    assert_eq!(c.frost_protection_active, Some(false));
    apply_all(
        &mut c,
        vec![
            StoveCommand::IdleTemperature("14".to_string()),
            StoveCommand::DailySchedulesEnabled(true),
            StoveCommand::IdleTemperature("15.5".to_string()),
            StoveCommand::FrostProtectionTemperature("7".to_string()),
            StoveCommand::OperatingMode(1),
        ],
    );
    assert_eq!(c.set_back_temperature, Some("15.5".to_string()));
    assert_eq!(c.heating_times_active_for_comfort, Some(true));
    assert_eq!(c.frost_protection_temperature, Some("7".to_string()));
    assert_eq!(c.operating_mode, Some(1));
    assert_eq!(c.on_off, Some(false));
    let before = c.clone();
    apply_all(&mut c, Vec::new());
    assert_eq!(c, before);
}

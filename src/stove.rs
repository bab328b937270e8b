//! Stove controls and the commands that change them, merged in order so that
//! the last command for each attribute wins.
use vstd::prelude::*;

verus! {

/// The controls of a stove that commands set; `None` where the stove reported
/// no value. Temperatures are kept as the decimal text the stove takes.
#[derive(Clone, Debug, PartialEq, Eq)]
pub struct Controls {
    pub on_off: Option<bool>,
    pub operating_mode: Option<i32>,
    pub target_temperature: Option<String>,
    pub set_back_temperature: Option<String>,
    pub heating_power: Option<i32>,
    pub heating_times_active_for_comfort: Option<bool>,
    pub frost_protection_active: Option<bool>,
    pub frost_protection_temperature: Option<String>,
}

/// A change requested for one attribute of a stove.
#[derive(Clone, Debug, PartialEq, Eq)]
pub enum StoveCommand {
    OnOff(bool),
    OperatingMode(i32),
    TargetTemperature(String),
    IdleTemperature(String),
    PowerHeating(i32),
    DailySchedulesEnabled(bool),
    FrostProtectionEnabled(bool),
    FrostProtectionTemperature(String),
}

/// The attribute that a command sets, numbered in declaration order.
pub open spec fn attribute_of(c: StoveCommand) -> int {
    match c {
        StoveCommand::OnOff(_) => 0,
        StoveCommand::OperatingMode(_) => 1,
        StoveCommand::TargetTemperature(_) => 2,
        StoveCommand::IdleTemperature(_) => 3,
        StoveCommand::PowerHeating(_) => 4,
        StoveCommand::DailySchedulesEnabled(_) => 5,
        StoveCommand::FrostProtectionEnabled(_) => 6,
        StoveCommand::FrostProtectionTemperature(_) => 7,
    }
}

/// `c` with the attribute of `cmd` set to its value, and nothing else changed.
pub open spec fn applied(c: Controls, cmd: StoveCommand) -> Controls {
    match cmd {
        StoveCommand::OnOff(v) => Controls { on_off: Some(v), ..c },
        StoveCommand::OperatingMode(v) => Controls { operating_mode: Some(v), ..c },
        StoveCommand::TargetTemperature(v) => Controls { target_temperature: Some(v), ..c },
        StoveCommand::IdleTemperature(v) => Controls { set_back_temperature: Some(v), ..c },
        StoveCommand::PowerHeating(v) => Controls { heating_power: Some(v), ..c },
        StoveCommand::DailySchedulesEnabled(v) => Controls {
            heating_times_active_for_comfort: Some(v),
            ..c
        },
        StoveCommand::FrostProtectionEnabled(v) => Controls { frost_protection_active: Some(v), ..c },
        StoveCommand::FrostProtectionTemperature(v) => Controls {
            frost_protection_temperature: Some(v),
            ..c
        },
    }
}

/// `c` after each of `cmds`, in order.
pub open spec fn applied_all(c: Controls, cmds: Seq<StoveCommand>) -> Controls
    decreases cmds.len(),
{
    if cmds.len() == 0 {
        c
    } else {
        applied(applied_all(c, cmds.drop_last()), cmds.last())
    }
}

/// Whether `a` and `b` hold the same value for attribute number `attr`.
pub open spec fn same_attribute(a: Controls, b: Controls, attr: int) -> bool {
    if attr == 0 {
        a.on_off == b.on_off
    } else if attr == 1 {
        a.operating_mode == b.operating_mode
    } else if attr == 2 {
        a.target_temperature == b.target_temperature
    } else if attr == 3 {
        a.set_back_temperature == b.set_back_temperature
    } else if attr == 4 {
        a.heating_power == b.heating_power
    } else if attr == 5 {
        a.heating_times_active_for_comfort == b.heating_times_active_for_comfort
    } else if attr == 6 {
        a.frost_protection_active == b.frost_protection_active
    } else if attr == 7 {
        a.frost_protection_temperature == b.frost_protection_temperature
    } else {
        true
    }
}

impl StoveCommand {
    /// Sets the command's attribute in `controls`.
    pub fn apply_to(self, controls: &mut Controls)
        ensures
            *final(controls) == applied(*old(controls), self),
    {
        match self {
            StoveCommand::OnOff(enabled) => controls.on_off = Some(enabled),
            StoveCommand::OperatingMode(mode) => controls.operating_mode = Some(mode),
            StoveCommand::TargetTemperature(temp) => controls.target_temperature = Some(temp),
            StoveCommand::IdleTemperature(temp) => controls.set_back_temperature = Some(temp),
            StoveCommand::PowerHeating(percent) => controls.heating_power = Some(percent),
            StoveCommand::DailySchedulesEnabled(enabled) => {
                controls.heating_times_active_for_comfort = Some(enabled)
            },
            StoveCommand::FrostProtectionEnabled(enabled) => {
                controls.frost_protection_active = Some(enabled)
            },
            StoveCommand::FrostProtectionTemperature(temp) => {
                controls.frost_protection_temperature = Some(temp)
            },
        }
    }
}

/// Applies `commands` to `controls` in the order they arrived.
pub fn apply_all(controls: &mut Controls, commands: Vec<StoveCommand>)
    ensures
        *final(controls) == applied_all(*old(controls), commands@),
{
    let ghost start = *controls;
    let ghost all = commands@;
    let mut rest = commands;
    while rest.len() > 0
        invariant
            rest@.len() <= all.len(),
            rest@ == all.subrange(all.len() - rest@.len(), all.len() as int),
            *controls == applied_all(start, all.subrange(0, all.len() - rest@.len())),
        decreases rest@.len(),
    {
        let ghost done = all.len() - rest@.len();
        let command = rest.remove(0);
        assert(command == all[done]);
        command.apply_to(controls);
        assert(all.subrange(0, done + 1).drop_last() =~= all.subrange(0, done));
        assert(rest@ =~= all.subrange(all.len() - rest@.len(), all.len() as int));
    }
    assert(all.subrange(0, all.len() as int) =~= all);
}

/// A command leaves every attribute but its own as it was, and sets its own
/// to the same value whatever the controls held before.
pub proof fn lemma_applied_frame(a: Controls, b: Controls, cmd: StoveCommand, attr: int)
    ensures
        attribute_of(cmd) != attr ==> same_attribute(applied(a, cmd), a, attr),
        same_attribute(applied(a, cmd), applied(b, cmd), attribute_of(cmd)),
{
}

/// An attribute that no command of a batch sets keeps its value.
pub proof fn lemma_untouched_attribute_kept(c: Controls, cmds: Seq<StoveCommand>, attr: int)
    requires
        forall|j: int| 0 <= j < cmds.len() ==> attribute_of(#[trigger] cmds[j]) != attr,
    ensures
        same_attribute(applied_all(c, cmds), c, attr),
    decreases cmds.len(),
{
    if cmds.len() > 0 {
        let init = cmds.drop_last();
        assert forall|j: int| 0 <= j < init.len() implies attribute_of(#[trigger] init[j]) != attr by {
            assert(init[j] == cmds[j]);
        }
        lemma_untouched_attribute_kept(c, init, attr);
        lemma_applied_frame(applied_all(c, init), c, cmds.last(), attr);
    }
}

/// Last write wins: after a batch of commands, the attribute of a command
/// that no later command of the batch sets holds that command's value.
pub proof fn lemma_last_write_wins(c: Controls, cmds: Seq<StoveCommand>, i: int)
    requires
        0 <= i < cmds.len(),
        forall|j: int| i < j < cmds.len() ==> attribute_of(#[trigger] cmds[j]) != attribute_of(cmds[i]),
    ensures
        same_attribute(applied_all(c, cmds), applied(c, cmds[i]), attribute_of(cmds[i])),
    decreases cmds.len(),
{
    let init = cmds.drop_last();
    if i == cmds.len() - 1 {
        lemma_applied_frame(applied_all(c, init), c, cmds[i], attribute_of(cmds[i]));
    } else {
        assert(init[i] == cmds[i]);
        assert forall|j: int| i < j < init.len() implies attribute_of(#[trigger] init[j]) != attribute_of(init[i]) by {
            assert(init[j] == cmds[j]);
        }
        lemma_last_write_wins(c, init, i);
        lemma_applied_frame(applied_all(c, init), c, cmds.last(), attribute_of(cmds[i]));
    }
}

} // verus!

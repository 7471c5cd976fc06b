use climate_controller::config::{
    plan_condition, plan_stage_set, undefined_peripheral_names, used_peripheral_names, ConditionDesc, ConditionError,
    ControllerDesc, PeripheralDesc, PlanError, PlannedCondition, SettingDesc, StageDesc,
    StageSetDesc, TempRange, VentDesc,
};
use climate_controller::peripheral::{
    build_entry, AnyCommand, CommandValue, PeripheralChannel, PinState, PlannedCommand, VentState,
};
use climate_controller::time_range::{TimeDesc, TimeOfDay, TimeRange, TimeRangeDesc, TimeRangeError};

fn temp(start: f32, end: f32) -> ConditionDesc {
    ConditionDesc::TempRange(TempRange { start: start.to_bits(), end: end.to_bits() })
}

fn stage(settings: Vec<(&str, SettingDesc)>, name: &str) -> StageDesc {
    StageDesc {
        settings: settings.into_iter().map(|(k, v)| (String::from(k), v)).collect(),
        condition: temp(70.0, 80.0),
        exit_condition: None,
        name: String::from(name),
    }
}

fn peripherals() -> Vec<(String, PeripheralDesc)> {
    vec![
        (String::from("fan"), PeripheralDesc::Pin(17, PinState::Off)),
        (String::from("vent"), PeripheralDesc::Vent(VentDesc { on: 5, off: 6 }, VentState(0))),
        (String::from("heater"), PeripheralDesc::Pin(22, PinState::On)),
    ]
}

#[test]
fn used_names_once_in_order_of_first_use() {
    let stages = vec![
        stage(vec![("vent", SettingDesc::Vent(VentState(1))), ("fan", SettingDesc::Pin(PinState::On))], "a"),
        stage(vec![("fan", SettingDesc::Pin(PinState::Off)), ("pump", SettingDesc::Pin(PinState::On))], "b"),
    ];
    assert_eq!(
        used_peripheral_names(&stages),
        vec![String::from("vent"), String::from("fan"), String::from("pump")]
    );
}

#[test]
fn setting_into_any() {
    assert_eq!(SettingDesc::Pin(PinState::On).into_any(), AnyCommand::new(PinState::On));
    assert_eq!(
        SettingDesc::Vent(VentState(9)).into_any().command,
        CommandValue::Vent(VentState(9))
    );
}

#[test]
fn peripheral_default_command() {
    assert_eq!(PeripheralDesc::Pin(3, PinState::On).default_command(), CommandValue::Pin(PinState::On));
    let vent = PeripheralDesc::Vent(VentDesc { on: 1, off: 2 }, VentState(4));
    assert_eq!(vent.default_command(), CommandValue::Vent(VentState(4)));
}

#[test]
fn stage_set_plan() {
    let set = StageSetDesc {
        stages: vec![
            stage(vec![("vent", SettingDesc::Vent(VentState(10))), ("pump", SettingDesc::Pin(PinState::On))], "open"),
            stage(vec![("fan", SettingDesc::Pin(PinState::On)), ("vent", SettingDesc::Pin(PinState::On))], "fan"),
        ],
        name: String::from("air"),
    };
    let plan = plan_stage_set(&peripherals(), &set).unwrap();
    // "pump" names no peripheral and is passed over.
    assert_eq!(plan.peripherals, vec![1, 0]);
    assert_eq!(plan.name, "air");
    assert_eq!(plan.stages.len(), 2);
    assert_eq!(
        plan.stages[0].commands,
        vec![
            PlannedCommand { peripheral: 1, value: CommandValue::Vent(VentState(10)) },
            PlannedCommand { peripheral: 0, value: CommandValue::Pin(PinState::Off) },
        ]
    );
    // A pin setting for the vent is of the wrong kind: the vent's default stands.
    assert_eq!(
        plan.stages[1].commands,
        vec![
            PlannedCommand { peripheral: 1, value: CommandValue::Vent(VentState(0)) },
            PlannedCommand { peripheral: 0, value: CommandValue::Pin(PinState::On) },
        ]
    );
    assert_eq!(plan.stages[0].refused, vec![false, false]);
    assert_eq!(plan.stages[1].refused, vec![true, false]);
    assert_eq!(plan.stages[1].name, "fan");
    assert_eq!(
        plan.stages[1].condition,
        Some(PlannedCondition::TempRange(TempRange { start: 70.0f32.to_bits(), end: 80.0f32.to_bits() }))
    );
    assert_eq!(plan.stages[1].exit_condition, None);
    // The default stage repeats the defaults once per stage.
    let defaults = vec![
        PlannedCommand { peripheral: 1, value: CommandValue::Vent(VentState(0)) },
        PlannedCommand { peripheral: 0, value: CommandValue::Pin(PinState::Off) },
    ];
    let mut twice = defaults.clone();
    twice.extend(defaults);
    assert_eq!(plan.default.commands, twice);
    assert_eq!(plan.default.refused, vec![false; 4]);
    assert_eq!(plan.default.name, "Default Stage for air");
    assert_eq!(plan.default.condition, None);
    assert_eq!(plan.default.exit_condition, None);
}

#[test]
fn controller_plan_keeps_sets_and_peripherals() {
    let window = ConditionDesc::TimeRange(TimeRangeDesc {
        start: TimeDesc { hours: 8, minutes: 0 },
        end: TimeDesc { hours: 20, minutes: 0 },
    });
    let mut heat = stage(vec![("heater", SettingDesc::Pin(PinState::On))], "heat");
    heat.exit_condition = Some(window);
    let desc = ControllerDesc {
        peripherals: peripherals(),
        stage_sets: vec![
            StageSetDesc { stages: vec![heat], name: String::from("heating") },
            StageSetDesc { stages: Vec::new(), name: String::from("idle") },
        ],
    };
    let plan = desc.initialize().unwrap();
    assert_eq!(plan.peripherals, peripherals());
    assert_eq!(plan.stage_sets.len(), 2);
    let heating = &plan.stage_sets[0];
    assert_eq!(heating.peripherals, vec![2]);
    assert_eq!(
        heating.stages[0].commands,
        vec![PlannedCommand { peripheral: 2, value: CommandValue::Pin(PinState::On) }]
    );
    assert_eq!(
        heating.stages[0].exit_condition,
        Some(PlannedCondition::TimeRange(TimeRange {
            start: TimeOfDay { hour: 8, minute: 0, second: 0, nanosecond: 0 },
            end: TimeOfDay { hour: 20, minute: 0, second: 0, nanosecond: 0 },
        }))
    );
    assert_eq!(
        heating.default.commands,
        vec![PlannedCommand { peripheral: 2, value: CommandValue::Pin(PinState::On) }]
    );
    let idle = &plan.stage_sets[1];
    assert!(idle.peripherals.is_empty());
    assert!(idle.stages.is_empty());
    assert!(idle.default.commands.is_empty());
    assert_eq!(idle.default.name, "Default Stage for idle");
}

#[test]
fn stage_without_settings_still_commands_set_peripherals() {
    let set = StageSetDesc {
        stages: vec![
            stage(vec![("heater", SettingDesc::Pin(PinState::Off))], "cool"),
            stage(Vec::new(), "rest"),
        ],
        name: String::from("h"),
    };
    let plan = plan_stage_set(&peripherals(), &set).unwrap();
    assert_eq!(
        plan.stages[1].commands,
        vec![PlannedCommand { peripheral: 2, value: CommandValue::Pin(PinState::On) }]
    );
}

fn window(sh: u8, sm: u8, eh: u8, em: u8) -> ConditionDesc {
    ConditionDesc::TimeRange(TimeRangeDesc {
        start: TimeDesc { hours: sh, minutes: sm },
        end: TimeDesc { hours: eh, minutes: em },
    })
}

#[test]
fn plan_condition_checks_time_windows() {
    assert!(plan_condition(window(8, 0, 20, 0)).is_ok());
    assert!(matches!(plan_condition(window(24, 0, 20, 0)), Err(TimeRangeError::InvalidStart(_))));
    assert!(matches!(plan_condition(window(8, 0, 20, 60)), Err(TimeRangeError::InvalidEnd(_))));
    assert!(plan_condition(temp(1.0, 2.0)).is_ok());
}

#[test]
fn invalid_time_window_fails_the_plan_at_first_bad_condition() {
    let good = stage(Vec::new(), "good");
    let mut bad_exit = stage(Vec::new(), "bad exit");
    bad_exit.exit_condition = Some(window(6, 0, 6, 75));
    let mut bad_condition = stage(Vec::new(), "bad");
    bad_condition.condition = window(25, 0, 6, 0);
    let desc = ControllerDesc {
        peripherals: peripherals(),
        stage_sets: vec![
            StageSetDesc { stages: vec![stage(Vec::new(), "ok")], name: String::from("first") },
            StageSetDesc { stages: vec![good, bad_exit, bad_condition], name: String::from("second") },
        ],
    };
    assert!(matches!(
        desc.initialize().err(),
        Some(PlanError {
            set: 1,
            invalid: ConditionError { stage: 1, exit: true, error: TimeRangeError::InvalidEnd(_) },
        })
    ));
}

#[test]
fn plan_commands_fit_channels_opened_by_kind() {
    let set = StageSetDesc {
        stages: vec![stage(vec![("vent", SettingDesc::Pin(PinState::On)), ("fan", SettingDesc::Pin(PinState::On))], "x")],
        name: String::from("s"),
    };
    let plan = plan_stage_set(&peripherals(), &set).unwrap();
    let (fan, _fan_rx) = tokio::sync::watch::channel(PinState::Off);
    let (vent, _vent_rx) = tokio::sync::watch::channel(VentState(0));
    let (heater, _heater_rx) = tokio::sync::watch::channel(PinState::On);
    let channels = vec![
        PeripheralChannel::Pin(fan),
        PeripheralChannel::Vent(vent),
        PeripheralChannel::Pin(heater),
    ];
    assert!(build_entry(&plan.stages[0].commands, &channels).is_some());
    assert!(build_entry(&plan.default.commands, &channels).is_some());
}

#[test]
fn undefined_names_are_reported_once_in_order() {
    let stages = vec![
        stage(vec![("pump", SettingDesc::Pin(PinState::On)), ("fan", SettingDesc::Pin(PinState::On))], "a"),
        stage(vec![("mister", SettingDesc::Pin(PinState::On)), ("pump", SettingDesc::Pin(PinState::Off))], "b"),
    ];
    assert_eq!(
        undefined_peripheral_names(&peripherals(), &stages),
        vec![String::from("pump"), String::from("mister")]
    );
    assert!(undefined_peripheral_names(&peripherals(), &Vec::new()).is_empty());
}

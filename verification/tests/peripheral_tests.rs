use climate_controller::peripheral::{
    build_entry, choose_command, AnyCommand, CommandPreset, CommandSendError, CommandValue,
    GenericCommand, PeripheralChannel, PinState, PlannedCommand, VentState,
};

#[test]
fn relays_are_active_low() {
    assert!(PinState::Off.drives_pin_high());
    assert!(!PinState::On.drives_pin_high());
}

#[test]
fn any_command_keeps_its_value() {
    assert_eq!(AnyCommand::new(PinState::On).into_any(), CommandValue::Pin(PinState::On));
    let v = VentState(3.5f32.to_bits());
    assert_eq!(AnyCommand::new(v).into_any(), CommandValue::Vent(v));
}

#[test]
fn matching_request_is_taken() {
    let chosen = choose_command(
        CommandValue::Pin(PinState::Off),
        Some(AnyCommand::new(PinState::On)),
    );
    assert_eq!(chosen, CommandValue::Pin(PinState::On));
}

#[test]
fn mismatched_request_falls_back_to_default() {
    let chosen = choose_command(
        CommandValue::Pin(PinState::Off),
        Some(AnyCommand::new(VentState(1.0f32.to_bits()))),
    );
    assert_eq!(chosen, CommandValue::Pin(PinState::Off));
}

#[test]
fn no_request_gives_default() {
    let default = CommandValue::Vent(VentState(0));
    assert_eq!(choose_command(default, None), default);
}

#[test]
fn preset_delivers_to_live_receiver() {
    let (sender, receiver) = tokio::sync::watch::channel(PinState::Off);
    let mut preset = CommandPreset::new(sender, 3, PinState::On);
    assert_eq!(preset.value(), PinState::On);
    assert_eq!(preset.peripheral(), 3);
    assert_eq!(preset.send(), Ok(()));
    assert_eq!(*receiver.borrow(), PinState::On);
}

#[test]
fn preset_fails_without_receiver() {
    let (sender, receiver) = tokio::sync::watch::channel(VentState(0));
    drop(receiver);
    let mut command = GenericCommand::Vent(CommandPreset::new(sender, 1, VentState(7)));
    assert_eq!(command.command_value(), CommandValue::Vent(VentState(7)));
    assert_eq!(command.peripheral(), 1);
    assert_eq!(command.send(), Err(CommandSendError::Closed));
}

#[test]
fn build_entry_binds_commands_to_their_channels() {
    let (pin_tx, pin_rx) = tokio::sync::watch::channel(PinState::Off);
    let (vent_tx, vent_rx) = tokio::sync::watch::channel(VentState(0));
    let channels = vec![PeripheralChannel::Vent(vent_tx), PeripheralChannel::Pin(pin_tx)];
    let commands = vec![
        PlannedCommand { peripheral: 1, value: CommandValue::Pin(PinState::On) },
        PlannedCommand { peripheral: 0, value: CommandValue::Vent(VentState(5)) },
    ];
    let mut entry = build_entry(&commands, &channels).unwrap();
    assert_eq!(entry.len(), 2);
    assert_eq!(entry[0].peripheral(), 1);
    assert_eq!(entry[1].command_value(), CommandValue::Vent(VentState(5)));
    for command in &mut entry {
        assert_eq!(command.send(), Ok(()));
    }
    assert_eq!(*pin_rx.borrow(), PinState::On);
    assert_eq!(*vent_rx.borrow(), VentState(5));
}

#[test]
fn build_entry_refuses_wrong_kind_or_missing_channel() {
    let (pin_tx, _pin_rx) = tokio::sync::watch::channel(PinState::Off);
    let channels = vec![PeripheralChannel::Pin(pin_tx)];
    let wrong_kind = vec![PlannedCommand { peripheral: 0, value: CommandValue::Vent(VentState(1)) }];
    assert!(build_entry(&wrong_kind, &channels).is_none());
    let missing = vec![PlannedCommand { peripheral: 1, value: CommandValue::Pin(PinState::On) }];
    assert!(build_entry(&missing, &channels).is_none());
    assert_eq!(build_entry(&Vec::new(), &channels).map(|e| e.len()), Some(0));
}

#[test]
fn build_entry_sends_each_command_on_its_own_peripherals_channel() {
    let (fan, fan_rx) = tokio::sync::watch::channel(PinState::Off);
    let (heater, heater_rx) = tokio::sync::watch::channel(PinState::Off);
    let channels = vec![PeripheralChannel::Pin(fan), PeripheralChannel::Pin(heater)];
    let commands = vec![PlannedCommand { peripheral: 1, value: CommandValue::Pin(PinState::On) }];
    let mut entry = build_entry(&commands, &channels).unwrap();
    assert_eq!(entry[0].send(), Ok(()));
    assert_eq!(*heater_rx.borrow(), PinState::On);
    assert_eq!(*fan_rx.borrow(), PinState::Off);
}

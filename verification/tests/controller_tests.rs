use climate_controller::controller::{Phase, Stage, StageSet, Step};
use climate_controller::peripheral::{CommandPreset, CommandSendError, GenericCommand, PinState};

fn stage(condition: Option<u8>, stay: Option<u8>, name: &str) -> Stage<u8> {
    Stage::new(Vec::new(), condition, stay, String::from(name))
}

#[test]
fn stage_without_condition_can_always_enter() {
    let s = stage(None, None, "always");
    assert!(s.can_enter(false));
    assert!(s.can_enter(true));
    assert!(!s.should_exit(false, false));
}

#[test]
fn stage_with_condition_enters_when_met() {
    let s = stage(Some(1), None, "warm");
    assert!(s.can_enter(true));
    assert!(!s.can_enter(false));
    assert!(s.should_exit(true, false));
    assert!(!s.should_exit(false, true));
}

#[test]
fn stay_condition_decides_exit() {
    let s = stage(Some(1), Some(2), "hold");
    assert!(!s.should_exit(true, false));
    assert!(s.should_exit(false, true));
}

#[test]
fn stage_accessors() {
    let s = stage(Some(4), Some(5), "night");
    assert_eq!(s.name(), "night");
    assert_eq!(s.describe(), "Stage(\"night\")");
    assert_eq!(*s.condition(), Some(4));
    assert_eq!(*s.stay_condition(), Some(5));
}

#[test]
fn stage_enter_sends_commands_in_order() {
    let (tx_a, rx_a) = tokio::sync::watch::channel(PinState::Off);
    let (tx_b, rx_b) = tokio::sync::watch::channel(PinState::On);
    drop(rx_b);
    let mut s: Stage<u8> = Stage::new(
        vec![
            GenericCommand::Pin(CommandPreset::new(tx_a, 0, PinState::On)),
            GenericCommand::Pin(CommandPreset::new(tx_b, 1, PinState::Off)),
        ],
        None,
        None,
        String::from("fans"),
    );
    let results = s.enter();
    assert_eq!(results, vec![Ok(()), Err(CommandSendError::Closed)]);
    assert_eq!(*rx_a.borrow(), PinState::On);
}

fn two_stage_set() -> StageSet<u8> {
    StageSet::new(
        vec![stage(Some(1), None, "first"), stage(Some(2), Some(3), "second")],
        stage(None, None, "Default Stage for set"),
        String::from("set"),
    )
}

#[test]
fn stage_set_new_starts_in_default() {
    let set = two_stage_set();
    assert_eq!(set.phase(), Phase::Choosing(0));
    assert!(set.is_in_default());
    assert!(set.is_awaiting());
    assert_eq!(set.stage_count(), 2);
    assert_eq!(set.name(), "set");
    assert_eq!(set.stage(1).name(), "second");
    assert_eq!(set.default_stage().name(), "Default Stage for set");
}

#[test]
fn first_met_stage_is_entered() {
    let mut set = two_stage_set();
    assert_eq!(set.advance(), Step::CheckEntry(0));
    assert!(set.is_awaiting());
    assert_eq!(set.report(false), Step::CheckEntry(1));
    assert_eq!(set.report(true), Step::Enter(1));
    assert_eq!(set.phase(), Phase::Staying(1));
    assert!(!set.is_in_default());
}

#[test]
fn earlier_stage_wins() {
    let mut set = two_stage_set();
    assert_eq!(set.advance(), Step::CheckEntry(0));
    assert_eq!(set.report(true), Step::Enter(0));
    // Stage 0 has no stay condition: its condition is checked again.
    assert_eq!(set.advance(), Step::CheckEntry(0));
    assert_eq!(set.report(true), Step::Wait);
    assert_eq!(set.phase(), Phase::Staying(0));
}

#[test]
fn stay_condition_keeps_stage_then_default_follows() {
    let mut set = two_stage_set();
    set.advance();
    set.report(false);
    assert_eq!(set.report(true), Step::Enter(1));
    assert_eq!(set.advance(), Step::CheckStay(1));
    assert_eq!(set.report(true), Step::Wait);
    assert_eq!(set.advance(), Step::CheckStay(1));
    // The stay condition fails: a new round starts at once.
    assert_eq!(set.report(false), Step::CheckEntry(0));
    assert_eq!(set.report(false), Step::CheckEntry(1));
    assert_eq!(set.report(false), Step::EnterDefault);
    assert!(set.is_in_default());
    // The default stage is not entered again.
    assert_eq!(set.advance(), Step::CheckEntry(0));
    assert_eq!(set.report(false), Step::CheckEntry(1));
    assert_eq!(set.report(false), Step::Wait);
}

#[test]
fn nothing_met_at_start_does_not_enter_default() {
    let mut set = two_stage_set();
    set.advance();
    set.report(false);
    assert_eq!(set.report(false), Step::Wait);
    assert_eq!(set.phase(), Phase::Choosing(0));
}

#[test]
fn unconditioned_stage_shadows_later_stages() {
    let mut set = StageSet::new(
        vec![stage(Some(1), None, "a"), stage(None, None, "b"), stage(Some(2), None, "c")],
        stage(None, None, "default"),
        String::from("s"),
    );
    assert_eq!(set.advance(), Step::CheckEntry(0));
    assert_eq!(set.report(false), Step::Enter(1));
    // Without any condition the stage is never left.
    assert_eq!(set.advance(), Step::Wait);
    assert_eq!(set.advance(), Step::Wait);
    assert_eq!(set.phase(), Phase::Staying(1));
}

#[test]
fn empty_set_waits() {
    let mut set: StageSet<u8> = StageSet::new(Vec::new(), stage(None, None, "d"), String::from("e"));
    assert_eq!(set.advance(), Step::Wait);
    assert_eq!(set.advance(), Step::Wait);
}

#[test]
fn stage_set_enters_stage_and_default() {
    let (tx, rx) = tokio::sync::watch::channel(PinState::Off);
    let (tx_d, rx_d) = tokio::sync::watch::channel(PinState::On);
    let mut set: StageSet<u8> = StageSet::new(
        vec![Stage::new(
            vec![GenericCommand::Pin(CommandPreset::new(tx, 0, PinState::On))],
            Some(1),
            None,
            String::from("on"),
        )],
        Stage::new(
            vec![GenericCommand::Pin(CommandPreset::new(tx_d, 1, PinState::Off))],
            None,
            None,
            String::from("default"),
        ),
        String::from("s"),
    );
    assert_eq!(set.enter_stage(0), vec![Ok(())]);
    assert_eq!(*rx.borrow(), PinState::On);
    assert_eq!(set.enter_default(), vec![Ok(())]);
    assert_eq!(*rx_d.borrow(), PinState::Off);
    assert_eq!(set.phase(), Phase::Choosing(0));
}

//! The controller's configuration, and the plan that turns it into stages.
//!
//! A configuration names peripherals and groups stages into stage sets. Each
//! stage sets some of the peripherals. Every stage of a set sends a command to
//! each peripheral that some stage of the set names: the stage's own setting
//! where it has one, the peripheral's default command where it has none. The
//! set's default stage sends the peripherals' default commands.
use crate::peripheral::{
    channel_fits, chosen_command, choose_command, commands_fit, AnyCommand, CommandValue,
    PeripheralChannel, PinState, PlannedCommand, VentState,
};
use crate::time_range::{time_range_of, TimeEnd, TimeOfDay, TimeRange, TimeRangeDesc, TimeRangeError};
use vstd::prelude::*;

verus! {

/// The two pins that open and close a vent.
#[derive(Clone, Copy, Debug, PartialEq, Eq, Structural)]
pub struct VentDesc {
    pub on: u8,
    pub off: u8,
}

/// A peripheral, with the command it starts with and falls back to.
#[derive(Clone, Copy, Debug, PartialEq, Eq, Structural)]
pub enum PeripheralDesc {
    /// A relay on a pin, by its number.
    Pin(u8, PinState),
    /// A vent.
    Vent(VentDesc, VentState),
}

/// The command a stage gives a peripheral.
#[derive(Clone, Copy, Debug, PartialEq, Eq, Structural)]
pub enum SettingDesc {
    Pin(PinState),
    Vent(VentState),
}

/// A temperature window in degrees Fahrenheit, from `start` (included) to
/// `end` (excluded). Each bound is a single-precision number, held by its bit
/// pattern.
#[derive(Clone, Copy, Debug, PartialEq, Eq, Structural)]
pub struct TempRange {
    pub start: u32,
    pub end: u32,
}

/// A condition, as the configuration describes it.
#[derive(Clone, Copy, Debug, PartialEq, Eq, Structural)]
pub enum ConditionDesc {
    TempRange(TempRange),
    TimeRange(TimeRangeDesc),
}

/// A stage as the configuration describes it: the commands it gives the
/// peripherals, by peripheral name, its condition and the condition under
/// which it is not left.
pub struct StageDesc {
    pub settings: Vec<(String, SettingDesc)>,
    pub condition: ConditionDesc,
    pub exit_condition: Option<ConditionDesc>,
    pub name: String,
}

/// A set of stages as the configuration describes it.
pub struct StageSetDesc {
    pub stages: Vec<StageDesc>,
    pub name: String,
}

/// The whole configuration of the controller: its peripherals by name, and
/// its stage sets.
pub struct ControllerDesc {
    pub peripherals: Vec<(String, PeripheralDesc)>,
    pub stage_sets: Vec<StageSetDesc>,
}

/// The command that a setting stands for.
pub open spec fn setting_command(setting: SettingDesc) -> CommandValue {
    match setting {
        SettingDesc::Pin(p) => CommandValue::Pin(p),
        SettingDesc::Vent(v) => CommandValue::Vent(v),
    }
}

impl SettingDesc {
    /// The setting as a command whose peripheral is not known yet.
    pub fn into_any(self) -> (r: AnyCommand)
        ensures
            r.command == setting_command(self),
    {
        match self {
            SettingDesc::Pin(inner) => AnyCommand::new(inner),
            SettingDesc::Vent(inner) => AnyCommand::new(inner),
        }
    }
}

/// The command that a peripheral starts with and falls back to.
pub open spec fn default_command(p: PeripheralDesc) -> CommandValue {
    match p {
        PeripheralDesc::Pin(_, s) => CommandValue::Pin(s),
        PeripheralDesc::Vent(_, s) => CommandValue::Vent(s),
    }
}

impl PeripheralDesc {
    /// The command that the peripheral starts with and falls back to.
    pub fn default_command(&self) -> (r: CommandValue)
        ensures
            r == default_command(*self),
    {
        match self {
            PeripheralDesc::Pin(_, s) => CommandValue::Pin(*s),
            PeripheralDesc::Vent(_, s) => CommandValue::Vent(*s),
        }
    }
}

/// The keys of a list of named entries.
pub open spec fn keys<T>(entries: Seq<(String, T)>) -> Seq<Seq<char>> {
    entries.map_values(|e: (String, T)| e.0@)
}

/// The index of the first entry whose key is `key`.
pub open spec fn first_with_key(keys: Seq<Seq<char>>, key: Seq<char>) -> Option<int>
    decreases keys.len(),
{
    if keys.len() == 0 {
        None
    } else {
        match first_with_key(keys.drop_last(), key) {
            Some(i) => Some(i),
            None => if keys.last() == key {
                Some(keys.len() - 1)
            } else {
                None
            },
        }
    }
}

/// All the peripheral names that the stages' settings use, stage by stage, in
/// order, with repetitions.
pub open spec fn all_setting_names(stages: Seq<StageDesc>) -> Seq<Seq<char>>
    decreases stages.len(),
{
    if stages.len() == 0 {
        Seq::empty()
    } else {
        all_setting_names(stages.drop_last()) + keys(stages.last().settings@)
    }
}

/// The names in order, each kept at its first appearance only.
pub open spec fn first_appearances(names: Seq<Seq<char>>) -> Seq<Seq<char>>
    decreases names.len(),
{
    if names.len() == 0 {
        Seq::empty()
    } else {
        let earlier = first_appearances(names.drop_last());
        if earlier.contains(names.last()) {
            earlier
        } else {
            earlier.push(names.last())
        }
    }
}

/// The names of the peripherals that the stages of a set use: each name that
/// a setting of a stage uses, once, in the order of first use.
pub open spec fn used_names(stages: Seq<StageDesc>) -> Seq<Seq<char>> {
    first_appearances(all_setting_names(stages))
}

/// The names that a list of strings holds.
pub open spec fn names_view(names: Seq<String>) -> Seq<Seq<char>> {
    names.map_values(|n: String| n@)
}

/// Whether a list of names holds a name.
fn contains_name(names: &Vec<String>, name: &String) -> (r: bool)
    ensures
        r == names_view(names@).contains(name@),
{
    let n: usize = names.len();
    for i in 0..n
        invariant
            n == names.len(),
            forall|j: int| 0 <= j < i ==> names_view(names@)[j] != name@,
    {
        if names[i] == *name {
            assert(names_view(names@)[i as int] == name@);
            return true;
        }
    }
    false
}

/// The names of the peripherals that the stages of a set use, each once, in
/// the order of first use.
pub fn used_peripheral_names(stages: &Vec<StageDesc>) -> (r: Vec<String>)
    ensures
        names_view(r@) == used_names(stages@),
{
    let mut names: Vec<String> = Vec::new();
    let n: usize = stages.len();
    for s in 0..n
        invariant
            n == stages.len(),
            names_view(names@) == first_appearances(all_setting_names(stages@.take(s as int))),
    {
        let settings = &stages[s].settings;
        let m: usize = settings.len();
        let ghost before = all_setting_names(stages@.take(s as int));
        for k in 0..m
            invariant
                n == stages.len(),
                s < n,
                settings == stages@[s as int].settings,
                m == settings.len(),
                before == all_setting_names(stages@.take(s as int)),
                names_view(names@) == first_appearances(
                    before + keys(settings@).take(k as int),
                ),
        {
            let key = &settings[k].0;
            let ghost prefix = before + keys(settings@).take(k as int);
            let ghost next = before + keys(settings@).take(k + 1);
            assert(next.drop_last() =~= prefix);
            assert(next.last() == key@);
            if !contains_name(&names, key) {
                names.push(key.clone());
                assert(names_view(names@) =~= first_appearances(prefix).push(key@));
            }
        }
        proof {
            let taken = stages@.take(s + 1);
            assert(taken.drop_last() =~= stages@.take(s as int));
            assert(keys(settings@).take(m as int) =~= keys(settings@));
        }
    }
    assert(stages@.take(n as int) =~= stages@);
    names
}

/// The first entry with a key is one with that key; without such an entry no
/// entry has the key.
pub proof fn lemma_first_with_key(keys: Seq<Seq<char>>, key: Seq<char>)
    ensures
        first_with_key(keys, key) matches Some(i) ==> {
            &&& 0 <= i < keys.len()
            &&& keys[i] == key
            &&& forall|j: int| 0 <= j < i ==> keys[j] != key
        },
        first_with_key(keys, key) is None ==> !keys.contains(key),
    decreases keys.len(),
{
    if keys.len() > 0 {
        let earlier = keys.drop_last();
        lemma_first_with_key(earlier, key);
        assert forall|j: int| 0 <= j < earlier.len() implies #[trigger] earlier[j] == keys[j] by {}
        if first_with_key(earlier, key) is None {
            assert forall|j: int| 0 <= j < keys.len() - 1 implies keys[j] != key by {
                assert(earlier[j] == keys[j]);
            }
            if !(keys.last() == key) {
                assert forall|j: int| 0 <= j < keys.len() implies keys[j] != key by {
                    if j < keys.len() - 1 {
                        assert(earlier[j] == keys[j]);
                    }
                }
            }
        } else {
            let i = first_with_key(earlier, key)->0;
            assert forall|j: int| 0 <= j < i implies keys[j] != key by {
                assert(earlier[j] == keys[j]);
            }
        }
    }
}

/// The index of the first entry with the given key.
pub(crate) fn find_key<T>(entries: &Vec<(String, T)>, key: &String) -> (r: Option<usize>)
    ensures
        r matches Some(i) ==> first_with_key(keys(entries@), key@) == Some(i as int) && i
            < entries.len(),
        r is None ==> first_with_key(keys(entries@), key@) is None,
{
    let n: usize = entries.len();
    for i in 0..n
        invariant
            n == entries.len(),
            first_with_key(keys(entries@).take(i as int), key@) is None,
    {
        let ghost next = keys(entries@).take(i + 1);
        assert(next.drop_last() =~= keys(entries@).take(i as int));
        if entries[i].0 == *key {
            assert(first_with_key(next, key@) == Some(i as int));
            proof {
                lemma_first_with_key_prefix(keys(entries@), key@, i + 1);
            }
            return Some(i);
        }
    }
    assert(keys(entries@).take(n as int) =~= keys(entries@));
    None
}

/// A first entry found within a prefix is the first entry of the whole list.
proof fn lemma_first_with_key_prefix(keys: Seq<Seq<char>>, key: Seq<char>, n: int)
    requires
        0 <= n <= keys.len(),
        first_with_key(keys.take(n), key) is Some,
    ensures
        first_with_key(keys, key) == first_with_key(keys.take(n), key),
    decreases keys.len() - n,
{
    if n < keys.len() {
        let next = keys.take(n + 1);
        assert(next.drop_last() =~= keys.take(n));
        lemma_first_with_key_prefix(keys, key, n + 1);
    } else {
        assert(keys.take(n) =~= keys);
    }
}

/// The setting that a stage gives the peripheral of a name: its first
/// setting for that name.
pub open spec fn setting_for(settings: Seq<(String, SettingDesc)>, name: Seq<char>) -> Option<
    SettingDesc,
> {
    match first_with_key(keys(settings), name) {
        Some(i) => Some(settings[i].1),
        None => None,
    }
}

/// The indices of the peripherals that the names name (the first of each
/// name), in the order of the names; names of no peripheral are passed over.
pub open spec fn resolved(peripherals: Seq<Seq<char>>, names: Seq<Seq<char>>) -> Seq<usize>
    decreases names.len(),
{
    if names.len() == 0 {
        Seq::empty()
    } else {
        let earlier = resolved(peripherals, names.drop_last());
        match first_with_key(peripherals, names.last()) {
            Some(i) => earlier.push(i as usize),
            None => earlier,
        }
    }
}

/// Every resolved index is that of a peripheral.
pub proof fn lemma_resolved_in_range(peripherals: Seq<Seq<char>>, names: Seq<Seq<char>>)
    ensures
        forall|t: int|
            0 <= t < resolved(peripherals, names).len() ==> #[trigger] resolved(peripherals, names)[t]
                < peripherals.len(),
    decreases names.len(),
{
    if names.len() > 0 {
        let earlier = resolved(peripherals, names.drop_last());
        lemma_resolved_in_range(peripherals, names.drop_last());
        lemma_first_with_key(peripherals, names.last());
        let all = resolved(peripherals, names);
        assert forall|t: int| 0 <= t < all.len() implies #[trigger] all[t] < peripherals.len() by {
            if t < earlier.len() {
                assert(all[t] == earlier[t]);
            }
        }
    }
}

/// What a stage asks of the peripheral at index `p`: its setting for the
/// peripheral's name where it has one of the peripheral's kind, else the
/// peripheral's default command.
pub open spec fn planned_command(
    peripherals: Seq<(String, PeripheralDesc)>,
    p: usize,
    settings: Seq<(String, SettingDesc)>,
) -> PlannedCommand {
    let request = match setting_for(settings, peripherals[p as int].0@) {
        Some(setting) => Some(AnyCommand { command: setting_command(setting) }),
        None => None,
    };
    PlannedCommand {
        peripheral: p,
        value: chosen_command(default_command(peripherals[p as int].1), request),
    }
}

/// A stage's setting for the peripheral at `p` is refused: it has one, and it
/// is of another kind than the peripheral's commands.
pub open spec fn request_refused(
    peripherals: Seq<(String, PeripheralDesc)>,
    p: usize,
    settings: Seq<(String, SettingDesc)>,
) -> bool {
    match setting_for(settings, peripherals[p as int].0@) {
        Some(setting) => !setting_command(setting).same_kind(default_command(peripherals[p as int].1)),
        None => false,
    }
}

/// For each of the set's peripherals, in order, whether the stage's setting
/// for it is refused.
pub open spec fn refused_requests(
    peripherals: Seq<(String, PeripheralDesc)>,
    used: Seq<usize>,
    settings: Seq<(String, SettingDesc)>,
) -> Seq<bool> {
    Seq::new(used.len(), |t: int| request_refused(peripherals, used[t], settings))
}

/// The commands a stage sends: one for each of the set's peripherals, in order.
pub open spec fn stage_commands(
    peripherals: Seq<(String, PeripheralDesc)>,
    used: Seq<usize>,
    settings: Seq<(String, SettingDesc)>,
) -> Seq<PlannedCommand> {
    Seq::new(used.len(), |t: int| planned_command(peripherals, used[t], settings))
}

/// The default command of each of the set's peripherals, in order.
pub open spec fn default_commands(peripherals: Seq<(String, PeripheralDesc)>, used: Seq<usize>) -> Seq<
    PlannedCommand,
> {
    Seq::new(
        used.len(),
        |t: int|
            PlannedCommand {
                peripheral: used[t],
                value: default_command(peripherals[used[t] as int].1),
            },
    )
}

/// A sequence repeated `times` times.
pub open spec fn repeated<T>(s: Seq<T>, times: nat) -> Seq<T>
    decreases times,
{
    if times == 0 {
        Seq::empty()
    } else {
        repeated(s, (times - 1) as nat) + s
    }
}

/// A condition, ready to be built: a time window is checked and made.
#[derive(Clone, Copy, Debug, PartialEq, Eq, Structural)]
pub enum PlannedCondition {
    TempRange(TempRange),
    TimeRange(TimeRange),
}

/// The condition that a description stands for; a time window that is not
/// one fails at the end that is not a time of day.
pub open spec fn planned_condition(c: ConditionDesc) -> Result<PlannedCondition, TimeEnd> {
    match c {
        ConditionDesc::TempRange(r) => Ok(PlannedCondition::TempRange(r)),
        ConditionDesc::TimeRange(d) => match time_range_of(d) {
            Ok(t) => Ok(PlannedCondition::TimeRange(t)),
            Err(e) => Err(e),
        },
    }
}

/// What making a condition gave, with an error reduced to the end that failed.
pub open spec fn condition_outcome(r: Result<PlannedCondition, TimeRangeError>) -> Result<
    PlannedCondition,
    TimeEnd,
> {
    match r {
        Ok(c) => Ok(c),
        Err(e) => Err(e.failed_end()),
    }
}

/// Makes the condition that a description stands for. A time window that is
/// not one is an error here where the original program panics (its
/// `into_generic` unwraps the window); the caller decides what to do.
pub fn plan_condition(c: ConditionDesc) -> (r: Result<PlannedCondition, TimeRangeError>)
    ensures
        condition_outcome(r) == planned_condition(c),
{
    match c {
        ConditionDesc::TempRange(range) => Ok(PlannedCondition::TempRange(range)),
        ConditionDesc::TimeRange(desc) => match TimeRange::from_desc(desc) {
            Ok(t) => Ok(PlannedCondition::TimeRange(t)),
            Err(e) => Err(e),
        },
    }
}

/// A stage's condition and its exit condition both stand for conditions.
pub open spec fn stage_valid(stage: StageDesc) -> bool {
    &&& planned_condition(stage.condition) is Ok
    &&& stage.exit_condition matches Some(c) ==> planned_condition(c) is Ok
}

/// A condition of a stage that cannot be made.
#[derive(Clone, Copy, Debug, PartialEq, Eq)]
pub struct ConditionError {
    /// The stage's index in its set.
    pub stage: usize,
    /// The exit condition (else the condition).
    pub exit: bool,
    pub error: TimeRangeError,
}

/// The error is that of the first condition of the stages, in order (a stage's
/// condition before its exit condition), that cannot be made.
pub open spec fn first_invalid_in_set(stages: Seq<StageDesc>, e: ConditionError) -> bool {
    &&& e.stage < stages.len()
    &&& forall|s: int| 0 <= s < e.stage ==> stage_valid(#[trigger] stages[s])
    &&& if e.exit {
        &&& planned_condition(stages[e.stage as int].condition) is Ok
        &&& stages[e.stage as int].exit_condition matches Some(c) && planned_condition(c) == Err::<
            PlannedCondition,
            TimeEnd,
        >(e.error.failed_end())
    } else {
        planned_condition(stages[e.stage as int].condition) == Err::<PlannedCondition, TimeEnd>(
            e.error.failed_end(),
        )
    }
}

/// A condition of the configuration that cannot be made: in which stage set.
#[derive(Clone, Copy, Debug, PartialEq, Eq)]
pub struct PlanError {
    pub set: usize,
    pub invalid: ConditionError,
}

/// A stage, ready to be built: its commands, its conditions and its name.
pub struct StagePlan {
    pub commands: Vec<PlannedCommand>,
    /// For each command, whether the stage's own setting was refused for
    /// being of another kind than the peripheral's commands.
    pub refused: Vec<bool>,
    pub condition: Option<PlannedCondition>,
    pub exit_condition: Option<PlannedCondition>,
    pub name: String,
}

/// A stage set, ready to be built.
pub struct StageSetPlan {
    /// The indices of the peripherals that the set's stages command.
    pub peripherals: Vec<usize>,
    pub stages: Vec<StagePlan>,
    pub default: StagePlan,
    pub name: String,
}

/// The controller, ready to be built: its peripherals and its stage sets.
pub struct ControllerPlan {
    pub peripherals: Vec<(String, PeripheralDesc)>,
    pub stage_sets: Vec<StageSetPlan>,
}

/// The set's peripherals: those that its stages name, in the order of first
/// use, where a peripheral of that name exists.
pub open spec fn set_peripherals(
    peripherals: Seq<(String, PeripheralDesc)>,
    stages: Seq<StageDesc>,
) -> Seq<usize> {
    resolved(keys(peripherals), used_names(stages))
}

/// A stage's plan is that of its description.
pub open spec fn planned_stage(
    peripherals: Seq<(String, PeripheralDesc)>,
    used: Seq<usize>,
    stage: StageDesc,
    plan: StagePlan,
) -> bool {
    &&& plan.commands@ == stage_commands(peripherals, used, stage.settings@)
    &&& plan.refused@ == refused_requests(peripherals, used, stage.settings@)
    &&& plan.condition == Some(planned_condition(stage.condition)->Ok_0)
    &&& plan.exit_condition == match stage.exit_condition {
        Some(c) => Some(planned_condition(c)->Ok_0),
        None => None,
    }
    &&& plan.name@ == stage.name@
}

/// A stage set's plan is that of its description. Its default stage sends, for
/// each of the set's stages, the default commands of the set's peripherals.
pub open spec fn planned_set(
    peripherals: Seq<(String, PeripheralDesc)>,
    set: StageSetDesc,
    plan: StageSetPlan,
) -> bool {
    let used = set_peripherals(peripherals, set.stages@);
    &&& plan.peripherals@ == used
    &&& plan.stages.len() == set.stages.len()
    &&& forall|s: int|
        0 <= s < set.stages.len() ==> planned_stage(
            peripherals,
            used,
            #[trigger] set.stages@[s],
            plan.stages@[s],
        )
    &&& plan.default.commands@ == repeated(
        default_commands(peripherals, used),
        set.stages@.len(),
    )
    &&& plan.default.refused@ == Seq::new(plan.default.commands@.len(), |t: int| false)
    &&& plan.default.condition is None
    &&& plan.default.exit_condition is None
    &&& plan.default.name@ == "Default Stage for "@ + set.name@
    &&& plan.name@ == set.name@
}

/// The names, in order, that name no peripheral.
pub open spec fn unresolved(peripherals: Seq<Seq<char>>, names: Seq<Seq<char>>) -> Seq<Seq<char>>
    decreases names.len(),
{
    if names.len() == 0 {
        Seq::empty()
    } else {
        let earlier = unresolved(peripherals, names.drop_last());
        if first_with_key(peripherals, names.last()) is None {
            earlier.push(names.last())
        } else {
            earlier
        }
    }
}

/// The unresolved names are exactly the names that name no peripheral.
pub proof fn lemma_unresolved(peripherals: Seq<Seq<char>>, names: Seq<Seq<char>>)
    ensures
        forall|n: Seq<char>|
            #[trigger] unresolved(peripherals, names).contains(n) <==> (names.contains(n)
                && first_with_key(peripherals, n) is None),
    decreases names.len(),
{
    if names.len() > 0 {
        let earlier_names = names.drop_last();
        let earlier = unresolved(peripherals, earlier_names);
        lemma_unresolved(peripherals, earlier_names);
        assert forall|n: Seq<char>| names.contains(n) <==> (earlier_names.contains(n) || n
            == names.last()) by {
            if names.contains(n) {
                let i = choose|i: int| 0 <= i < names.len() && names[i] == n;
                if i < names.len() - 1 {
                    assert(earlier_names[i] == n);
                }
            }
            if earlier_names.contains(n) {
                let i = choose|i: int| 0 <= i < earlier_names.len() && earlier_names[i] == n;
                assert(names[i] == n);
            }
            if n == names.last() {
                assert(names[names.len() - 1] == n);
            }
        }
        if first_with_key(peripherals, names.last()) is None {
            assert forall|n: Seq<char>| earlier.push(names.last()).contains(n) <==> (
            earlier.contains(n) || n == names.last()) by {
                if earlier.push(names.last()).contains(n) {
                    let i = choose|i: int|
                        0 <= i < earlier.len() + 1 && earlier.push(names.last())[i] == n;
                    if i < earlier.len() {
                        assert(earlier[i] == n);
                    }
                }
                if earlier.contains(n) {
                    let i = choose|i: int| 0 <= i < earlier.len() && earlier[i] == n;
                    assert(earlier.push(names.last())[i] == n);
                }
                if n == names.last() {
                    assert(earlier.push(names.last())[earlier.len() as int] == n);
                }
            }
        }
        assert forall|n: Seq<char>| #[trigger] unresolved(peripherals, names).contains(n) <==> (
        names.contains(n) && first_with_key(peripherals, n) is None) by {
            assert(earlier.contains(n) <==> (earlier_names.contains(n) && first_with_key(
                peripherals,
                n,
            ) is None));
        }
    }
}

/// The names that the settings of a set's stages use and that name no
/// peripheral: each once, in the order of first use.
pub fn undefined_peripheral_names(
    peripherals: &Vec<(String, PeripheralDesc)>,
    stages: &Vec<StageDesc>,
) -> (r: Vec<String>)
    ensures
        names_view(r@) == unresolved(keys(peripherals@), used_names(stages@)),
{
    let names = used_peripheral_names(stages);
    let mut missing: Vec<String> = Vec::new();
    let n: usize = names.len();
    for t in 0..n
        invariant
            n == names.len(),
            names_view(missing@) == unresolved(keys(peripherals@), names_view(names@).take(t as int)),
    {
        let ghost next = names_view(names@).take(t + 1);
        assert(next.drop_last() =~= names_view(names@).take(t as int));
        if find_key(peripherals, &names[t]).is_none() {
            missing.push(names[t].clone());
            assert(names_view(missing@) =~= unresolved(
                keys(peripherals@),
                names_view(names@).take(t as int),
            ).push(names_view(names@)[t as int]));
        }
    }
    assert(names_view(names@).take(n as int) =~= names_view(names@));
    missing
}

/// The indices of the named peripherals, the first of each name, in order.
fn resolve_names(peripherals: &Vec<(String, PeripheralDesc)>, names: &Vec<String>) -> (r: Vec<
    usize,
>)
    ensures
        r@ == resolved(keys(peripherals@), names_view(names@)),
{
    let mut found: Vec<usize> = Vec::new();
    let n: usize = names.len();
    for t in 0..n
        invariant
            n == names.len(),
            found@ == resolved(keys(peripherals@), names_view(names@).take(t as int)),
    {
        let ghost next = names_view(names@).take(t + 1);
        assert(next.drop_last() =~= names_view(names@).take(t as int));
        match find_key(peripherals, &names[t]) {
            Some(p) => found.push(p),
            None => {},
        }
    }
    assert(names_view(names@).take(n as int) =~= names_view(names@));
    found
}

/// The commands of one stage.
fn plan_commands(
    peripherals: &Vec<(String, PeripheralDesc)>,
    used: &Vec<usize>,
    settings: &Vec<(String, SettingDesc)>,
) -> (r: Vec<PlannedCommand>)
    requires
        forall|t: int| 0 <= t < used.len() ==> #[trigger] used@[t] < peripherals.len(),
    ensures
        r@ == stage_commands(peripherals@, used@, settings@),
{
    let mut commands: Vec<PlannedCommand> = Vec::new();
    let n: usize = used.len();
    for t in 0..n
        invariant
            n == used.len(),
            forall|t: int| 0 <= t < used.len() ==> #[trigger] used@[t] < peripherals.len(),
            commands.len() == t,
            forall|j: int|
                0 <= j < t ==> #[trigger] commands@[j] == planned_command(
                    peripherals@,
                    used@[j],
                    settings@,
                ),
    {
        let p: usize = used[t];
        let entry = &peripherals[p];
        let request = match find_key(settings, &entry.0) {
            Some(i) => Some(settings[i].1.into_any()),
            None => None,
        };
        let value = choose_command(entry.1.default_command(), request);
        commands.push(PlannedCommand { peripheral: p, value });
    }
    assert(commands@ =~= stage_commands(peripherals@, used@, settings@));
    commands
}

/// Which of a stage's settings are refused.
fn plan_refusals(
    peripherals: &Vec<(String, PeripheralDesc)>,
    used: &Vec<usize>,
    settings: &Vec<(String, SettingDesc)>,
) -> (r: Vec<bool>)
    requires
        forall|t: int| 0 <= t < used.len() ==> #[trigger] used@[t] < peripherals.len(),
    ensures
        r@ == refused_requests(peripherals@, used@, settings@),
{
    let mut refused: Vec<bool> = Vec::new();
    let n: usize = used.len();
    for t in 0..n
        invariant
            n == used.len(),
            forall|t: int| 0 <= t < used.len() ==> #[trigger] used@[t] < peripherals.len(),
            refused.len() == t,
            forall|j: int|
                0 <= j < t ==> #[trigger] refused@[j] == request_refused(
                    peripherals@,
                    used@[j],
                    settings@,
                ),
    {
        let p: usize = used[t];
        let entry = &peripherals[p];
        let flag = match find_key(settings, &entry.0) {
            Some(i) => !settings[i].1.into_any().into_any().is_same_kind(&entry.1.default_command()),
            None => false,
        };
        refused.push(flag);
    }
    assert(refused@ =~= refused_requests(peripherals@, used@, settings@));
    refused
}

/// The default commands of the set's peripherals.
fn plan_defaults(peripherals: &Vec<(String, PeripheralDesc)>, used: &Vec<usize>) -> (r: Vec<
    PlannedCommand,
>)
    requires
        forall|t: int| 0 <= t < used.len() ==> #[trigger] used@[t] < peripherals.len(),
    ensures
        r@ == default_commands(peripherals@, used@),
{
    let mut commands: Vec<PlannedCommand> = Vec::new();
    let n: usize = used.len();
    for t in 0..n
        invariant
            n == used.len(),
            forall|t: int| 0 <= t < used.len() ==> #[trigger] used@[t] < peripherals.len(),
            commands.len() == t,
            forall|j: int|
                0 <= j < t ==> #[trigger] commands@[j] == default_commands(peripherals@, used@)[j],
    {
        let p: usize = used[t];
        commands.push(PlannedCommand { peripheral: p, value: peripherals[p].1.default_command() });
    }
    assert(commands@ =~= default_commands(peripherals@, used@));
    commands
}

/// Plans one stage set. It fails where a condition of a stage cannot be made.
pub fn plan_stage_set(peripherals: &Vec<(String, PeripheralDesc)>, set: &StageSetDesc) -> (r:
    Result<StageSetPlan, ConditionError>)
    ensures
        r is Ok <==> forall|s: int| 0 <= s < set.stages.len() ==> stage_valid(#[trigger] set.stages@[s]),
        r matches Ok(plan) ==> planned_set(peripherals@, *set, plan),
        r matches Err(e) ==> first_invalid_in_set(set.stages@, e),
{
    let names = used_peripheral_names(&set.stages);
    let used = resolve_names(peripherals, &names);
    proof {
        lemma_resolved_in_range(keys(peripherals@), names_view(names@));
    }
    let defaults = plan_defaults(peripherals, &used);
    let mut stages: Vec<StagePlan> = Vec::new();
    let mut default_entry: Vec<PlannedCommand> = Vec::new();
    let n: usize = set.stages.len();
    for s in 0..n
        invariant
            n == set.stages.len(),
            used@ == set_peripherals(peripherals@, set.stages@),
            forall|t: int| 0 <= t < used.len() ==> #[trigger] used@[t] < peripherals.len(),
            defaults@ == default_commands(peripherals@, used@),
            stages.len() == s,
            forall|j: int|
                0 <= j < s ==> planned_stage(
                    peripherals@,
                    used@,
                    #[trigger] set.stages@[j],
                    stages@[j],
                ),
            default_entry@ == repeated(default_commands(peripherals@, used@), s as nat),
            forall|j: int| 0 <= j < s ==> stage_valid(#[trigger] set.stages@[j]),
    {
        let stage = &set.stages[s];
        let condition = match plan_condition(stage.condition) {
            Ok(c) => c,
            Err(error) => return Err(ConditionError { stage: s, exit: false, error }),
        };
        let exit_condition = match stage.exit_condition {
            Some(c) => match plan_condition(c) {
                Ok(planned) => Some(planned),
                Err(error) => return Err(ConditionError { stage: s, exit: true, error }),
            },
            None => None,
        };
        let commands = plan_commands(peripherals, &used, &stage.settings);
        let refused = plan_refusals(peripherals, &used, &stage.settings);
        stages.push(
            StagePlan {
                commands,
                refused,
                condition: Some(condition),
                exit_condition,
                name: stage.name.clone(),
            },
        );
        let mut more = defaults.clone();
        default_entry.append(&mut more);
        assert(default_entry@ =~= repeated(default_commands(peripherals@, used@), (s + 1) as nat));
    }
    let mut default_refused: Vec<bool> = Vec::new();
    let m: usize = default_entry.len();
    for t in 0..m
        invariant
            default_refused.len() == t,
            forall|j: int| 0 <= j < t ==> !#[trigger] default_refused@[j],
    {
        default_refused.push(false);
    }
    assert(default_refused@ =~= Seq::new(default_entry@.len(), |t: int| false));
    let default = StagePlan {
        commands: default_entry,
        refused: default_refused,
        condition: None,
        exit_condition: None,
        name: String::from_str("Default Stage for ").concat(set.name.as_str()),
    };
    Ok(StageSetPlan { peripherals: used, stages, default, name: set.name.clone() })
}

/// Every condition of every stage of the configuration can be made.
pub open spec fn controller_valid(sets: Seq<StageSetDesc>) -> bool {
    forall|j: int, s: int|
        0 <= j < sets.len() && 0 <= s < sets[j].stages.len() ==> stage_valid(
            #[trigger] sets[j].stages@[s],
        )
}

impl ControllerDesc {
    /// Plans the controller: every stage set of the configuration, in order.
    /// The peripherals are handed on as they are; the caller starts each one
    /// and builds the stages from the plan. It fails at the first condition,
    /// in order, that cannot be made: a time window with an hour from 24 or a
    /// minute from 60. This error stands where the original program panics
    /// (while building that condition); the caller decides what to do.
    pub fn initialize(self) -> (r: Result<ControllerPlan, PlanError>)
        ensures
            r is Ok <==> controller_valid(self.stage_sets@),
            r matches Ok(plan) ==> {
                &&& plan.peripherals@ == self.peripherals@
                &&& plan.stage_sets.len() == self.stage_sets.len()
                &&& forall|j: int|
                    0 <= j < self.stage_sets.len() ==> planned_set(
                        self.peripherals@,
                        #[trigger] self.stage_sets@[j],
                        plan.stage_sets@[j],
                    )
            },
            r matches Err(e) ==> {
                &&& e.set < self.stage_sets.len()
                &&& forall|j: int, s: int|
                    0 <= j < e.set && 0 <= s < self.stage_sets@[j].stages.len() ==> stage_valid(
                        #[trigger] self.stage_sets@[j].stages@[s],
                    )
                &&& first_invalid_in_set(self.stage_sets@[e.set as int].stages@, e.invalid)
            },
    {
        let mut sets: Vec<StageSetPlan> = Vec::new();
        let n: usize = self.stage_sets.len();
        for j in 0..n
            invariant
                n == self.stage_sets.len(),
                sets.len() == j,
                forall|i: int|
                    0 <= i < j ==> planned_set(
                        self.peripherals@,
                        #[trigger] self.stage_sets@[i],
                        sets@[i],
                    ),
                forall|i: int, s: int|
                    0 <= i < j && 0 <= s < self.stage_sets@[i].stages.len() ==> stage_valid(
                        #[trigger] self.stage_sets@[i].stages@[s],
                    ),
        {
            match plan_stage_set(&self.peripherals, &self.stage_sets[j]) {
                Ok(plan) => sets.push(plan),
                Err(invalid) => {
                    proof {
                        let bad = self.stage_sets@[j as int].stages@[invalid.stage as int];
                        assert(!stage_valid(bad));
                    }
                    return Err(PlanError { set: j, invalid });
                },
            }
        }
        Ok(ControllerPlan { peripherals: self.peripherals, stage_sets: sets })
    }
}

/// Keeping first appearances keeps every name once, and keeps exactly the names
/// there are.
pub proof fn lemma_first_appearances(names: Seq<Seq<char>>)
    ensures
        first_appearances(names).no_duplicates(),
        forall|n: Seq<char>| first_appearances(names).contains(n) <==> names.contains(n),
    decreases names.len(),
{
    if names.len() > 0 {
        let earlier = names.drop_last();
        lemma_first_appearances(earlier);
        assert forall|n: Seq<char>| names.contains(n) <==> (earlier.contains(n) || n == names.last()) by {
            if names.contains(n) {
                let i = choose|i: int| 0 <= i < names.len() && names[i] == n;
                if i < names.len() - 1 {
                    assert(earlier[i] == n);
                }
            }
            if earlier.contains(n) {
                let i = choose|i: int| 0 <= i < earlier.len() && earlier[i] == n;
                assert(names[i] == n);
            }
            if n == names.last() {
                assert(names[names.len() - 1] == n);
            }
        }
        let kept = first_appearances(earlier);
        if !kept.contains(names.last()) {
            assert forall|n: Seq<char>| kept.push(names.last()).contains(n) <==> (kept.contains(n)
                || n == names.last()) by {
                if kept.push(names.last()).contains(n) {
                    let i = choose|i: int| 0 <= i < kept.len() + 1 && kept.push(names.last())[i] == n;
                    if i < kept.len() {
                        assert(kept[i] == n);
                    }
                }
                if kept.contains(n) {
                    let i = choose|i: int| 0 <= i < kept.len() && kept[i] == n;
                    assert(kept.push(names.last())[i] == n);
                }
                if n == names.last() {
                    assert(kept.push(names.last())[kept.len() as int] == n);
                }
            }
        }
    }
}

/// The peripherals of a set are named exactly by the names that its stages'
/// settings use, each name once.
pub proof fn lemma_used_names(stages: Seq<StageDesc>)
    ensures
        used_names(stages).no_duplicates(),
        forall|n: Seq<char>|
            used_names(stages).contains(n) <==> all_setting_names(stages).contains(n),
{
    lemma_first_appearances(all_setting_names(stages));
}

/// Each resolved index is that of a peripheral whose name is among the names,
/// and distinct names resolve to distinct peripherals.
pub proof fn lemma_resolved(peripherals: Seq<Seq<char>>, names: Seq<Seq<char>>)
    requires
        peripherals.len() <= usize::MAX,
    ensures
        forall|t: int|
            0 <= t < resolved(peripherals, names).len() ==> names.contains(
                peripherals[#[trigger] resolved(peripherals, names)[t] as int],
            ),
        names.no_duplicates() ==> resolved(peripherals, names).no_duplicates(),
    decreases names.len(),
{
    if names.len() > 0 {
        let earlier_names = names.drop_last();
        let earlier = resolved(peripherals, earlier_names);
        let all = resolved(peripherals, names);
        lemma_resolved(peripherals, earlier_names);
        lemma_resolved_in_range(peripherals, earlier_names);
        lemma_first_with_key(peripherals, names.last());
        assert forall|n: Seq<char>| earlier_names.contains(n) implies names.contains(n) by {
            let i = choose|i: int| 0 <= i < earlier_names.len() && earlier_names[i] == n;
            assert(names[i] == n);
        }
        assert forall|t: int| 0 <= t < all.len() implies names.contains(
            peripherals[#[trigger] all[t] as int],
        ) by {
            if t < earlier.len() {
                assert(all[t] == earlier[t]);
            } else {
                let i = first_with_key(peripherals, names.last())->0;
                assert(all[t] as int == i);
                assert(names[names.len() - 1] == names.last());
            }
        }
        if names.no_duplicates() {
            assert(earlier_names.no_duplicates()) by {
                assert forall|a: int, b: int|
                    0 <= a < earlier_names.len() && 0 <= b < earlier_names.len() && a != b
                    implies earlier_names[a] != earlier_names[b] by {
                    assert(names[a] == earlier_names[a] && names[b] == earlier_names[b]);
                }
            }
            assert(!earlier_names.contains(names.last())) by {
                if earlier_names.contains(names.last()) {
                    let i = choose|i: int| 0 <= i < earlier_names.len() && earlier_names[i] == names.last();
                    assert(names[i] == names[names.len() - 1]);
                }
            }
            if let Some(i) = first_with_key(peripherals, names.last()) {
                assert forall|t: int| 0 <= t < earlier.len() implies earlier[t] != i as usize by {
                    if earlier[t] == i as usize {
                        assert(earlier_names.contains(peripherals[earlier[t] as int]));
                    }
                }
                assert forall|a: int, b: int|
                    0 <= a < all.len() && 0 <= b < all.len() && a != b implies all[a] != all[b] by {
                    if a < earlier.len() && b < earlier.len() {
                        assert(all[a] == earlier[a] && all[b] == earlier[b]);
                    } else if a < earlier.len() {
                        assert(all[a] == earlier[a]);
                    } else if b < earlier.len() {
                        assert(all[b] == earlier[b]);
                    }
                }
            }
        }
    }
}

/// A set commands each of its peripherals once, and only peripherals whose
/// names its stages use.
pub proof fn lemma_set_peripherals(peripherals: Seq<(String, PeripheralDesc)>, stages: Seq<StageDesc>)
    requires
        peripherals.len() <= usize::MAX,
    ensures
        set_peripherals(peripherals, stages).no_duplicates(),
        forall|t: int|
            0 <= t < set_peripherals(peripherals, stages).len() ==> {
                &&& set_peripherals(peripherals, stages)[t] < peripherals.len()
                &&& all_setting_names(stages).contains(
                    peripherals[#[trigger] set_peripherals(peripherals, stages)[t] as int].0@,
                )
            },
{
    let ks = keys(peripherals);
    let used = used_names(stages);
    lemma_used_names(stages);
    lemma_resolved(ks, used);
    lemma_resolved_in_range(ks, used);
    let all = set_peripherals(peripherals, stages);
    assert forall|t: int| 0 <= t < all.len() implies all_setting_names(stages).contains(
        peripherals[#[trigger] all[t] as int].0@,
    ) by {
        assert(ks[all[t] as int] == peripherals[all[t] as int].0@);
        assert(used.contains(ks[all[t] as int]));
    }
}

/// Every stage of a set sends one command to each of the set's peripherals,
/// in the same order: its own setting for the peripheral where it has one of
/// the peripheral's kind, else the peripheral's default command.
pub proof fn lemma_planned_stage_commands(
    peripherals: Seq<(String, PeripheralDesc)>,
    set: StageSetDesc,
    plan: StageSetPlan,
    s: int,
    t: int,
)
    requires
        planned_set(peripherals, set, plan),
        0 <= s < set.stages.len(),
        0 <= t < plan.peripherals.len(),
    ensures
        plan.stages@[s].commands.len() == plan.peripherals.len(),
        plan.stages@[s].commands@[t].peripheral == plan.peripherals@[t],
        ({
            let p = plan.peripherals@[t] as int;
            let command = plan.stages@[s].commands@[t].value;
            match setting_for(set.stages@[s].settings@, peripherals[p].0@) {
                Some(setting) => command == if setting_command(setting).same_kind(
                    default_command(peripherals[p].1),
                ) {
                    setting_command(setting)
                } else {
                    default_command(peripherals[p].1)
                },
                None => command == default_command(peripherals[p].1),
            }
        }),
{
    assert(planned_stage(
        peripherals,
        set_peripherals(peripherals, set.stages@),
        set.stages@[s],
        plan.stages@[s],
    ));
}

/// One channel per peripheral, in order, each of the kind of the peripheral's
/// default command.
pub open spec fn channels_for(
    peripherals: Seq<(String, PeripheralDesc)>,
    channels: Seq<PeripheralChannel>,
) -> bool {
    &&& channels.len() == peripherals.len()
    &&& forall|i: int|
        0 <= i < channels.len() ==> channel_fits(#[trigger] channels[i], default_command(peripherals[i].1))
}

/// Repeating commands that fit the channels gives commands that fit them.
proof fn lemma_repeated_fits(commands: Seq<PlannedCommand>, channels: Seq<PeripheralChannel>, times: nat)
    requires
        commands_fit(commands, channels),
    ensures
        commands_fit(repeated(commands, times), channels),
    decreases times,
{
    if times > 0 {
        lemma_repeated_fits(commands, channels, (times - 1) as nat);
        let earlier = repeated(commands, (times - 1) as nat);
        let all = repeated(commands, times);
        assert forall|t: int| 0 <= t < all.len() implies {
            &&& (#[trigger] all[t]).peripheral < channels.len()
            &&& channel_fits(channels[all[t].peripheral as int], all[t].value)
        } by {
            if t < earlier.len() {
                assert(all[t] == earlier[t]);
            } else {
                assert(all[t] == commands[t - earlier.len()]);
            }
        }
    }
}

/// A planned stage set's commands, its default stage's too, all fit channels
/// opened one per peripheral by the kind of its default command: a command is
/// always of its peripheral's kind, since a request of another kind is refused.
pub proof fn lemma_plan_fits_channels(
    peripherals: Seq<(String, PeripheralDesc)>,
    set: StageSetDesc,
    plan: StageSetPlan,
    channels: Seq<PeripheralChannel>,
)
    requires
        planned_set(peripherals, set, plan),
        channels_for(peripherals, channels),
        peripherals.len() <= usize::MAX,
    ensures
        forall|s: int|
            0 <= s < plan.stages.len() ==> commands_fit(#[trigger] plan.stages@[s].commands@, channels),
        commands_fit(plan.default.commands@, channels),
{
    let used = set_peripherals(peripherals, set.stages@);
    lemma_set_peripherals(peripherals, set.stages@);
    assert forall|s: int| 0 <= s < plan.stages.len() implies commands_fit(
        #[trigger] plan.stages@[s].commands@,
        channels,
    ) by {
        assert(planned_stage(peripherals, used, set.stages@[s], plan.stages@[s]));
        let cs = plan.stages@[s].commands@;
        assert forall|t: int| 0 <= t < cs.len() implies {
            &&& (#[trigger] cs[t]).peripheral < channels.len()
            &&& channel_fits(channels[cs[t].peripheral as int], cs[t].value)
        } by {
            assert(cs[t] == planned_command(peripherals, used[t], set.stages@[s].settings@));
            assert(used[t] < peripherals.len());
            assert(channel_fits(channels[used[t] as int], default_command(peripherals[used[t] as int].1)));
        }
    }
    let defaults = default_commands(peripherals, used);
    assert forall|t: int| 0 <= t < defaults.len() implies {
        &&& (#[trigger] defaults[t]).peripheral < channels.len()
        &&& channel_fits(channels[defaults[t].peripheral as int], defaults[t].value)
    } by {
        assert(used[t] < peripherals.len());
        assert(channel_fits(channels[used[t] as int], default_command(peripherals[used[t] as int].1)));
    }
    lemma_repeated_fits(defaults, channels, set.stages@.len());
}

/// The names of a configuration are unique, as the maps it is read from make
/// them: no two peripherals share a name, and no stage sets a name twice.
pub open spec fn names_unique(desc: ControllerDesc) -> bool {
    &&& keys(desc.peripherals@).no_duplicates()
    &&& forall|j: int, s: int|
        0 <= j < desc.stage_sets.len() && 0 <= s < desc.stage_sets@[j].stages.len() ==> keys(
            (#[trigger] desc.stage_sets@[j].stages@[s]).settings@,
        ).no_duplicates()
}

/// Where keys are unique, the first entry with an entry's key is that entry:
/// looking a name up finds the one entry with that name.
pub proof fn lemma_unique_key_found(keys: Seq<Seq<char>>, i: int)
    requires
        keys.no_duplicates(),
        0 <= i < keys.len(),
    ensures
        first_with_key(keys, keys[i]) == Some(i),
{
    lemma_first_with_key(keys, keys[i]);
    assert(keys.contains(keys[i]));
}

/// With unique names, each peripheral is found under its own name, and a
/// stage's setting for a name it sets is its one entry of that name.
pub proof fn lemma_unique_names_planned(desc: ControllerDesc, p: int, j: int, s: int, i: int)
    requires
        names_unique(desc),
        0 <= p < desc.peripherals.len(),
        0 <= j < desc.stage_sets.len(),
        0 <= s < desc.stage_sets@[j].stages.len(),
        0 <= i < desc.stage_sets@[j].stages@[s].settings.len(),
    ensures
        first_with_key(keys(desc.peripherals@), desc.peripherals@[p].0@) == Some(p),
        ({
            let settings = desc.stage_sets@[j].stages@[s].settings@;
            setting_for(settings, settings[i].0@) == Some(settings[i].1)
        }),
{
    let settings = desc.stage_sets@[j].stages@[s].settings@;
    assert(keys(settings).no_duplicates());
    lemma_unique_key_found(keys(settings), i);
    lemma_unique_key_found(keys(desc.peripherals@), p);
}

/// A planned condition is the one that its description gives: a temperature
/// range is kept as it is, and a time window runs from its configured start to
/// its configured end, on the minute, where both are times of day.
pub open spec fn stands_for(desc: ConditionDesc, planned: PlannedCondition) -> bool {
    match desc {
        ConditionDesc::TempRange(r) => planned == PlannedCondition::TempRange(r),
        ConditionDesc::TimeRange(d) => (d.start.hours < 24 && d.start.minutes < 60 && d.end.hours
            < 24 && d.end.minutes < 60) ==> planned == PlannedCondition::TimeRange(
            TimeRange {
                start: TimeOfDay {
                    hour: d.start.hours,
                    minute: d.start.minutes,
                    second: 0,
                    nanosecond: 0,
                },
                end: TimeOfDay { hour: d.end.hours, minute: d.end.minutes, second: 0, nanosecond: 0 },
            },
        ),
    }
}

/// Each stage of a planned set enters on its own condition and leaves on its
/// own exit condition, each made from its own description, whatever the other
/// one is; a stage without an exit condition has none.
pub proof fn lemma_stage_conditions_kept(
    peripherals: Seq<(String, PeripheralDesc)>,
    set: StageSetDesc,
    plan: StageSetPlan,
    s: int,
)
    requires
        planned_set(peripherals, set, plan),
        0 <= s < set.stages.len(),
    ensures
        plan.stages@[s].condition matches Some(c) && stands_for(set.stages@[s].condition, c),
        set.stages@[s].exit_condition is None ==> plan.stages@[s].exit_condition is None,
        set.stages@[s].exit_condition matches Some(e) ==> (plan.stages@[s].exit_condition matches Some(
            c,
        ) && stands_for(e, c)),
{
    assert(planned_stage(
        peripherals,
        set_peripherals(peripherals, set.stages@),
        set.stages@[s],
        plan.stages@[s],
    ));
}

/// Repeating a sequence gives as many copies of it as times, one after the other.
pub proof fn lemma_repeated_index<T>(s: Seq<T>, times: nat)
    ensures
        repeated(s, times).len() == times * s.len(),
        forall|k: int|
            0 <= k < repeated(s, times).len() ==> #[trigger] repeated(s, times)[k] == s[k
                % s.len() as int],
    decreases times,
{
    if times > 0 {
        let n = (times - 1) as nat;
        lemma_repeated_index(s, n);
        vstd::arithmetic::mul::lemma_mul_is_distributive_add_other_way(s.len() as int, n as int, 1);
        assert forall|k: int|
            0 <= k < repeated(s, times).len() implies #[trigger] repeated(s, times)[k] == s[k
                % s.len() as int] by {
            if k >= n * s.len() {
                vstd::arithmetic::div_mod::lemma_fundamental_div_mod_converse(
                    k,
                    s.len() as int,
                    n as int,
                    k - n * s.len(),
                );
            } else {
                assert(repeated(s, times)[k] == repeated(s, n)[k]);
            }
        }
    } else {
        vstd::arithmetic::mul::lemma_mul_basics(s.len() as int);
    }
}

/// The default stage of a set sends, once for each of the set's stages, one
/// command to each of the set's peripherals in order: the peripheral's
/// configured default, a pin's default state or a vent's default position.
pub proof fn lemma_default_stage_sends_defaults(
    peripherals: Seq<(String, PeripheralDesc)>,
    set: StageSetDesc,
    plan: StageSetPlan,
)
    requires
        peripherals.len() <= usize::MAX,
        planned_set(peripherals, set, plan),
    ensures
        plan.default.commands.len() == set.stages.len() * plan.peripherals.len(),
        forall|k: int|
            0 <= k < plan.default.commands.len() ==> {
                let p = plan.peripherals@[k % plan.peripherals.len() as int];
                &&& p < peripherals.len()
                &&& (#[trigger] plan.default.commands@[k]).peripheral == p
                &&& plan.default.commands@[k].value == match peripherals[p as int].1 {
                    PeripheralDesc::Pin(_, s) => CommandValue::Pin(s),
                    PeripheralDesc::Vent(_, s) => CommandValue::Vent(s),
                }
            },
{
    let used = set_peripherals(peripherals, set.stages@);
    lemma_set_peripherals(peripherals, set.stages@);
    lemma_repeated_index(default_commands(peripherals, used), set.stages@.len());
    assert forall|k: int| 0 <= k < plan.default.commands.len() implies {
        let p = plan.peripherals@[k % plan.peripherals.len() as int];
        &&& p < peripherals.len()
        &&& (#[trigger] plan.default.commands@[k]).peripheral == p
        &&& plan.default.commands@[k].value == match peripherals[p as int].1 {
            PeripheralDesc::Pin(_, s) => CommandValue::Pin(s),
            PeripheralDesc::Vent(_, s) => CommandValue::Vent(s),
        }
    } by {
        let t = k % used.len() as int;
        vstd::arithmetic::div_mod::lemma_mod_bound(k, used.len() as int);
        assert(plan.default.commands@[k] == default_commands(peripherals, used)[t]);
    }
}

} // verus!

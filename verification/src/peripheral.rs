//! Peripheral commands: what a pin or a vent is told to do, and the presets
//! that deliver such a command to a running peripheral.
use tokio::sync::watch::error::SendError;
use tokio::sync::watch::Sender;
use vstd::prelude::*;

verus! {

/// The state a relay pin is driven to.
#[derive(Clone, Copy, Debug, PartialEq, Eq, Structural)]
pub enum PinState {
    Off,
    On,
}

impl PinState {
    /// The relays are active low: a pin that is off is driven high, one that
    /// is on is driven low.
    pub fn drives_pin_high(self) -> (r: bool)
        ensures
            r == (self == PinState::Off),
    {
        match self {
            PinState::Off => true,
            PinState::On => false,
        }
    }
}

/// The position a vent is moved to, in seconds of motor travel from closed.
/// The position is a single-precision number; it is held here by its bit
/// pattern, which stands for it one for one.
#[derive(Clone, Copy, Debug, PartialEq, Eq, Structural)]
pub struct VentState(pub u32);

/// A command for one of the peripherals: a pin state or a vent position.
#[derive(Clone, Copy, Debug, PartialEq, Eq, Structural)]
pub enum CommandValue {
    Pin(PinState),
    Vent(VentState),
}

impl CommandValue {
    /// Two commands are meant for the same kind of peripheral.
    pub open spec fn same_kind(self, other: CommandValue) -> bool {
        match (self, other) {
            (CommandValue::Pin(_), CommandValue::Pin(_)) => true,
            (CommandValue::Vent(_), CommandValue::Vent(_)) => true,
            _ => false,
        }
    }

    /// Whether two commands are meant for the same kind of peripheral.
    pub fn is_same_kind(&self, other: &CommandValue) -> (r: bool)
        ensures
            r == self.same_kind(*other),
    {
        match (self, other) {
            (CommandValue::Pin(_), CommandValue::Pin(_)) => true,
            (CommandValue::Vent(_), CommandValue::Vent(_)) => true,
            _ => false,
        }
    }
}

/// A value that a peripheral accepts as a command.
pub trait PeripheralCommand: Sized {
    /// The command that this value stands for.
    spec fn command(self) -> CommandValue;

    /// Converts the value into the command it stands for.
    fn to_command(self) -> (r: CommandValue)
        ensures
            r == self.command(),
    ;
}

impl PeripheralCommand for PinState {
    open spec fn command(self) -> CommandValue {
        CommandValue::Pin(self)
    }

    fn to_command(self) -> (r: CommandValue) {
        CommandValue::Pin(self)
    }
}

impl PeripheralCommand for VentState {
    open spec fn command(self) -> CommandValue {
        CommandValue::Vent(self)
    }

    fn to_command(self) -> (r: CommandValue) {
        CommandValue::Vent(self)
    }
}

/// A command whose peripheral is not known yet, as a configuration gives it.
#[derive(Clone, Copy, Debug, PartialEq, Eq, Structural)]
pub struct AnyCommand {
    pub command: CommandValue,
}

impl AnyCommand {
    /// Wraps a command of any peripheral.
    pub fn new<T: PeripheralCommand>(command: T) -> (r: AnyCommand)
        ensures
            r.command == command.command(),
    {
        AnyCommand { command: command.to_command() }
    }

    /// The command inside.
    pub fn into_any(self) -> (r: CommandValue)
        ensures
            r == self.command,
    {
        self.command
    }
}

/// The command that a peripheral whose default command is `default` takes from
/// an optional requested command: the request where there is one for the same
/// kind of peripheral, else the default.
pub open spec fn chosen_command(default: CommandValue, request: Option<AnyCommand>) -> CommandValue {
    match request {
        Some(any) => if any.command.same_kind(default) {
            any.command
        } else {
            default
        },
        None => default,
    }
}

/// Picks the command for a peripheral: a requested command of the wrong kind
/// is refused, and the peripheral's default stands in for it.
pub fn choose_command(default: CommandValue, request: Option<AnyCommand>) -> (r: CommandValue)
    ensures
        r == chosen_command(default, request),
{
    match request {
        Some(any) => {
            let value = any.into_any();
            if value.is_same_kind(&default) {
                value
            } else {
                default
            }
        },
        None => default,
    }
}

/// Why a command could not be delivered.
#[derive(Clone, Copy, Debug, PartialEq, Eq, Structural)]
pub enum CommandSendError {
    /// The peripheral no longer listens: its channel has no receiver left.
    Closed,
}

/// A command addressed to a peripheral: the peripheral's index among the
/// configuration's peripherals, and the command.
#[derive(Clone, Copy, Debug, PartialEq, Eq, Structural)]
pub struct PlannedCommand {
    pub peripheral: usize,
    pub value: CommandValue,
}

/// A command bound to the channel of the peripheral that carries it out.
#[verifier::reject_recursive_types(T)]
pub struct CommandPreset<T> {
    sender: Sender<T>,
    peripheral: usize,
    value: T,
    /// The values handed to the channel, in order.
    handed: Ghost<Seq<T>>,
}

impl<T: Copy> CommandPreset<T> {
    /// The command that this preset sends.
    pub closed spec fn command_value(self) -> T {
        self.value
    }

    /// The index of the peripheral whose channel this preset holds.
    pub closed spec fn peripheral_index(self) -> usize {
        self.peripheral
    }

    /// The channel this preset sends on.
    pub closed spec fn channel(self) -> Sender<T> {
        self.sender
    }

    /// The values this preset has handed to its channel, in order.
    pub closed spec fn handed(self) -> Seq<T> {
        self.handed@
    }

    /// Binds a command to the channel of the peripheral at `peripheral`.
    pub fn new(sender: Sender<T>, peripheral: usize, value: T) -> (r: CommandPreset<T>)
        ensures
            r.command_value() == value,
            r.peripheral_index() == peripheral,
            r.channel() == sender,
            r.handed() == Seq::<T>::empty(),
    {
        CommandPreset { sender, peripheral, value, handed: Ghost(Seq::empty()) }
    }

    /// The command that this preset sends.
    pub fn value(&self) -> (r: T)
        ensures
            r == self.command_value(),
    {
        self.value
    }

    /// The index of the peripheral whose channel this preset holds.
    pub fn peripheral(&self) -> (r: usize)
        ensures
            r == self.peripheral_index(),
    {
        self.peripheral
    }

    /// Sends the command to the peripheral: hands its value to its channel.
    /// Delivery fails when the peripheral's receiver is gone.
    pub fn send(&mut self) -> (r: Result<(), CommandSendError>)
        ensures
            final(self).channel() == old(self).channel(),
            final(self).peripheral_index() == old(self).peripheral_index(),
            final(self).command_value() == old(self).command_value(),
            final(self).handed() == old(self).handed().push(old(self).command_value()),
    {
        let result = watch_send(&self.sender, self.value);
        self.handed = Ghost(self.handed@.push(self.value));
        match result {
            Ok(()) => Ok(()),
            Err(_) => Err(CommandSendError::Closed),
        }
    }
}

/// A command preset for a pin or for a vent.
pub enum GenericCommand {
    Pin(CommandPreset<PinState>),
    Vent(CommandPreset<VentState>),
}

impl GenericCommand {
    /// The command that this preset sends, and to which peripheral.
    pub open spec fn command(self) -> PlannedCommand {
        match self {
            GenericCommand::Pin(p) => PlannedCommand {
                peripheral: p.peripheral_index(),
                value: CommandValue::Pin(p.command_value()),
            },
            GenericCommand::Vent(v) => PlannedCommand {
                peripheral: v.peripheral_index(),
                value: CommandValue::Vent(v.command_value()),
            },
        }
    }

    /// The command that this preset sends.
    pub fn command_value(&self) -> (r: CommandValue)
        ensures
            r == self.command().value,
    {
        match self {
            GenericCommand::Pin(p) => CommandValue::Pin(p.value()),
            GenericCommand::Vent(v) => CommandValue::Vent(v.value()),
        }
    }

    /// The index of the peripheral that this preset sends to.
    pub fn peripheral(&self) -> (r: usize)
        ensures
            r == self.command().peripheral,
    {
        match self {
            GenericCommand::Pin(p) => p.peripheral(),
            GenericCommand::Vent(v) => v.peripheral(),
        }
    }

    /// The commands this preset has handed to its channel, in order.
    pub open spec fn sent(self) -> Seq<CommandValue> {
        match self {
            GenericCommand::Pin(p) => p.handed().map_values(|v: PinState| CommandValue::Pin(v)),
            GenericCommand::Vent(v) => v.handed().map_values(|x: VentState| CommandValue::Vent(x)),
        }
    }

    /// Sends the command to its peripheral: hands its value to its channel.
    /// The preset keeps its channel and its command.
    pub fn send(&mut self) -> (r: Result<(), CommandSendError>)
        ensures
            same_preset(*final(self), *old(self)),
            final(self).sent() == old(self).sent().push(old(self).command().value),
    {
        match self {
            GenericCommand::Pin(p) => {
                let ghost before = p.handed();
                let ghost value = p.command_value();
                let r = p.send();
                assert(p.handed().map_values(|v: PinState| CommandValue::Pin(v)) =~= before.map_values(
                    |v: PinState| CommandValue::Pin(v),
                ).push(CommandValue::Pin(value)));
                r
            },
            GenericCommand::Vent(v) => {
                let ghost before = v.handed();
                let ghost value = v.command_value();
                let r = v.send();
                assert(v.handed().map_values(|x: VentState| CommandValue::Vent(x))
                    =~= before.map_values(|x: VentState| CommandValue::Vent(x)).push(
                    CommandValue::Vent(value),
                ));
                r
            },
        }
    }
}

/// Two presets are for the same kind of peripheral, hold the same channel, and
/// send the same command to the same peripheral.
pub open spec fn same_preset(a: GenericCommand, b: GenericCommand) -> bool {
    match (a, b) {
        (GenericCommand::Pin(p), GenericCommand::Pin(q)) => {
            &&& p.channel() == q.channel()
            &&& p.peripheral_index() == q.peripheral_index()
            &&& p.command_value() == q.command_value()
        },
        (GenericCommand::Vent(p), GenericCommand::Vent(q)) => {
            &&& p.channel() == q.channel()
            &&& p.peripheral_index() == q.peripheral_index()
            &&& p.command_value() == q.command_value()
        },
        _ => false,
    }
}

/// The channel of a running peripheral, by its kind.
pub enum PeripheralChannel {
    Pin(Sender<PinState>),
    Vent(Sender<VentState>),
}

/// A command fits a channel when both are for the same kind of peripheral.
pub open spec fn channel_fits(channel: PeripheralChannel, value: CommandValue) -> bool {
    match (channel, value) {
        (PeripheralChannel::Pin(_), CommandValue::Pin(_)) => true,
        (PeripheralChannel::Vent(_), CommandValue::Vent(_)) => true,
        _ => false,
    }
}

/// A preset sends on the given channel: a pin preset on a pin channel, a vent
/// preset on a vent channel, each on that very channel.
pub open spec fn bound_to(command: GenericCommand, channel: PeripheralChannel) -> bool {
    match (command, channel) {
        (GenericCommand::Pin(p), PeripheralChannel::Pin(s)) => p.channel() == s,
        (GenericCommand::Vent(v), PeripheralChannel::Vent(s)) => v.channel() == s,
        _ => false,
    }
}

/// Every command names a channel among `channels` that it fits.
pub open spec fn commands_fit(commands: Seq<PlannedCommand>, channels: Seq<PeripheralChannel>) -> bool {
    forall|t: int|
        0 <= t < commands.len() ==> {
            &&& (#[trigger] commands[t]).peripheral < channels.len()
            &&& channel_fits(channels[commands[t].peripheral as int], commands[t].value)
        }
}

/// Binds each command to the channel of its peripheral (the channel at the
/// command's peripheral index), in order; there is
/// nothing to bind where a command names no channel or one of another kind.
pub fn build_entry(commands: &Vec<PlannedCommand>, channels: &Vec<PeripheralChannel>) -> (r: Option<
    Vec<GenericCommand>,
>)
    ensures
        r is Some <==> commands_fit(commands@, channels@),
        r matches Some(entry) ==> entry@.map_values(|c: GenericCommand| c.command()) == commands@,
        r matches Some(entry) ==> forall|t: int|
            0 <= t < entry.len() ==> bound_to(
                #[trigger] entry@[t],
                channels@[commands@[t].peripheral as int],
            ),
{
    let mut entry: Vec<GenericCommand> = Vec::new();
    let n: usize = commands.len();
    for t in 0..n
        invariant
            n == commands.len(),
            entry.len() == t,
            forall|j: int| 0 <= j < t ==> (#[trigger] entry@[j]).command() == commands@[j],
            forall|j: int|
                0 <= j < t ==> bound_to(
                    #[trigger] entry@[j],
                    channels@[commands@[j].peripheral as int],
                ),
            commands_fit(commands@.take(t as int), channels@),
    {
        let command = commands[t];
        if command.peripheral >= channels.len() {
            assert(!commands_fit(commands@, channels@)) by {
                assert(commands@[t as int] == command);
            }
            return None;
        }
        let bound = match (&channels[command.peripheral], command.value) {
            (PeripheralChannel::Pin(sender), CommandValue::Pin(value)) => GenericCommand::Pin(
                CommandPreset::new(watch_sender_clone(sender), command.peripheral, value),
            ),
            (PeripheralChannel::Vent(sender), CommandValue::Vent(value)) => GenericCommand::Vent(
                CommandPreset::new(watch_sender_clone(sender), command.peripheral, value),
            ),
            _ => {
                assert(!commands_fit(commands@, channels@)) by {
                    assert(commands@[t as int] == command);
                }
                return None;
            },
        };
        entry.push(bound);
        assert(commands_fit(commands@.take(t + 1), channels@)) by {
            assert forall|j: int| 0 <= j < t + 1 implies {
                &&& (#[trigger] commands@.take(t + 1)[j]).peripheral < channels.len()
                &&& channel_fits(
                    channels@[commands@.take(t + 1)[j].peripheral as int],
                    commands@.take(t + 1)[j].value,
                )
            } by {
                if j < t {
                    assert(commands@.take(t + 1)[j] == commands@.take(t as int)[j]);
                }
            }
        }
    }
    assert(commands@.take(n as int) =~= commands@);
    assert(entry@.map_values(|c: GenericCommand| c.command()) =~= commands@);
    Some(entry)
}

/// `tokio::sync::watch::Sender::clone`. Its source makes a sender that holds
/// the same shared channel as the original (it only bumps the sender count),
/// so the contract counts the clone as the same sender.
#[verifier::external_body]
fn watch_sender_clone<T>(sender: &Sender<T>) -> (r: Sender<T>)
    ensures
        r == *sender,
{
    sender.clone()
}

/// `tokio::sync::watch::Sender::send`. Its source fails, handing the value
/// back, when the channel has no receiver at that moment, and otherwise stores
/// the value and wakes the receivers. Whether a receiver is still alive is
/// decided at run time by other tasks, so nothing is stated of the result.
#[verifier::external_body]
fn watch_send<T>(sender: &Sender<T>, value: T) -> (r: Result<(), SendError<T>>) {
    sender.send(value)
}

#[verifier::external_type_specification]
#[verifier::external_body]
#[verifier::reject_recursive_types(T)]
pub struct ExWatchSender<T>(Sender<T>);

#[verifier::external_type_specification]
#[verifier::external_body]
#[verifier::reject_recursive_types(T)]
pub struct ExWatchSendError<T>(SendError<T>);

} // verus!

//! What the web page reports: the stage each stage set last entered, and the
//! last temperature.
use crate::config::{find_key, first_with_key, keys};
use vstd::prelude::*;

verus! {

/// A message to the status record.
pub enum Info {
    /// The stage set (first) entered the stage (second).
    StateEnter(String, String),
    /// A temperature was read, in degrees Fahrenheit; the single-precision
    /// number is held by its bit pattern.
    TemperatureGot(u32),
}

/// The stage each stage set last entered, and the last temperature read.
pub struct ServerData {
    set_states: Vec<(String, String)>,
    last_temperature: u32,
}

/// The stage that a set last entered, by the record's entries.
pub open spec fn stage_in(entries: Seq<(String, String)>, set: Seq<char>) -> Option<Seq<char>> {
    match first_with_key(keys(entries), set) {
        Some(i) => Some(entries[i].1@),
        None => None,
    }
}

/// The record `after` is the record `before` with the message recorded: the
/// set's stage replaces what the set had and every other set keeps its stage;
/// a temperature replaces the last one and every set keeps its stage.
pub open spec fn applied(before: ServerData, info: Info, after: ServerData) -> bool {
    match info {
        Info::StateEnter(set, stage) => {
            &&& after.stage_of(set@) == Some(stage@)
            &&& forall|other: Seq<char>|
                other != set@ ==> after.stage_of(other) == before.stage_of(other)
            &&& after.temperature() == before.temperature()
        },
        Info::TemperatureGot(t) => {
            &&& after.temperature() == t
            &&& forall|set: Seq<char>| after.stage_of(set) == before.stage_of(set)
        },
    }
}

/// The stage of a set after a run of messages: that of the last message about
/// the set, or `prior` where no message is about it.
pub open spec fn last_stage_in(messages: Seq<Info>, set: Seq<char>, prior: Option<Seq<char>>) -> Option<
    Seq<char>,
>
    decreases messages.len(),
{
    if messages.len() == 0 {
        prior
    } else {
        match messages.last() {
            Info::StateEnter(s, stage) => if s@ == set {
                Some(stage@)
            } else {
                last_stage_in(messages.drop_last(), set, prior)
            },
            Info::TemperatureGot(_) => last_stage_in(messages.drop_last(), set, prior),
        }
    }
}

/// The temperature after a run of messages: that of the last temperature
/// message, or `prior` where there is none.
pub open spec fn last_temperature_in(messages: Seq<Info>, prior: u32) -> u32
    decreases messages.len(),
{
    if messages.len() == 0 {
        prior
    } else {
        match messages.last() {
            Info::TemperatureGot(t) => t,
            Info::StateEnter(_, _) => last_temperature_in(messages.drop_last(), prior),
        }
    }
}

/// Recording messages one after another leaves each set at the stage of the
/// last message about it (or where it was, where none is about it), and the
/// temperature at the last one read (or where it was).
pub proof fn lemma_messages_accumulate(records: Seq<ServerData>, messages: Seq<Info>)
    requires
        records.len() == messages.len() + 1,
        forall|i: int|
            0 <= i < messages.len() ==> applied(
                #[trigger] records[i],
                messages[i],
                records[i + 1],
            ),
    ensures
        forall|set: Seq<char>|
            #[trigger] records.last().stage_of(set) == last_stage_in(
                messages,
                set,
                records[0].stage_of(set),
            ),
        records.last().temperature() == last_temperature_in(messages, records[0].temperature()),
    decreases messages.len(),
{
    if messages.len() > 0 {
        let fewer = records.drop_last();
        let earlier = messages.drop_last();
        assert forall|i: int| 0 <= i < earlier.len() implies applied(
            #[trigger] fewer[i],
            earlier[i],
            fewer[i + 1],
        ) by {
            assert(applied(records[i], messages[i], records[i + 1]));
        }
        lemma_messages_accumulate(fewer, earlier);
        let n = messages.len() - 1;
        assert(applied(records[n], messages[n], records[n + 1]));
        assert(fewer.last() == records[n]);
        assert(records.last() == records[n + 1]);
        assert forall|set: Seq<char>| #[trigger] records.last().stage_of(set) == last_stage_in(
            messages,
            set,
            records[0].stage_of(set),
        ) by {
            assert(fewer[0] == records[0]);
        }
    }
}

impl ServerData {
    /// The record's entries: a stage set's name and its stage's name.
    pub closed spec fn entries(self) -> Seq<(String, String)> {
        self.set_states@
    }

    /// Each stage set has one entry at most, as in a map keyed by set.
    #[verifier::type_invariant]
    closed spec fn sets_once(self) -> bool {
        keys(self.set_states@).no_duplicates()
    }

    /// The stage that a set last entered, if it entered one.
    pub open spec fn stage_of(self, set: Seq<char>) -> Option<Seq<char>> {
        stage_in(self.entries(), set)
    }

    /// The last temperature read, as a bit pattern.
    pub closed spec fn temperature(self) -> u32 {
        self.last_temperature
    }

    /// An empty record: no stage entered, temperature zero.
    pub fn new() -> (r: ServerData)
        ensures
            forall|set: Seq<char>| r.stage_of(set) is None,
            r.temperature() == 0,
    {
        ServerData { set_states: Vec::new(), last_temperature: 0 }
    }

    /// Records a message: a set's stage replaces what the set had before; a
    /// temperature replaces the last one.
    pub fn apply(&mut self, info: Info)
        ensures
            applied(*old(self), info, *final(self)),
    {
        proof {
            use_type_invariant(&*self);
        }
        match info {
            Info::StateEnter(set, stage) => {
                let ghost old_entries = self.set_states@;
                let ghost set_name = set@;
                let mut entries: Vec<(String, String)> = Vec::new();
                std::mem::swap(&mut entries, &mut self.set_states);
                match find_key(&entries, &set) {
                    Some(i) => {
                        entries.set(i, (set, stage));
                        proof {
                            let new_entries = entries@;
                            crate::config::lemma_first_with_key(keys(old_entries), set_name);
                            assert(keys(old_entries)[i as int] == set_name);
                            assert(keys(new_entries) =~= keys(old_entries));
                            assert forall|other: Seq<char>| other != set_name implies stage_in(
                                new_entries,
                                other,
                            ) == stage_in(old_entries, other) by {
                                crate::config::lemma_first_with_key(keys(old_entries), other);
                                crate::config::lemma_first_with_key(keys(old_entries), set_name);
                            }
                        }
                    },
                    None => {
                        entries.push((set, stage));
                        proof {
                            let new_entries = entries@;
                            crate::config::lemma_first_with_key(keys(old_entries), set_name);
                            assert(keys(new_entries) =~= keys(old_entries).push(set_name));
                            assert(keys(new_entries).drop_last() =~= keys(old_entries));
                            assert forall|a: int, b: int|
                                0 <= a < keys(new_entries).len() && 0 <= b < keys(new_entries).len()
                                    && a != b implies keys(new_entries)[a] != keys(new_entries)[b] by {
                                if a < keys(old_entries).len() && b < keys(old_entries).len() {
                                } else if a < keys(old_entries).len() {
                                    assert(keys(old_entries).contains(keys(old_entries)[a]));
                                } else if b < keys(old_entries).len() {
                                    assert(keys(old_entries).contains(keys(old_entries)[b]));
                                }
                            }
                            assert forall|other: Seq<char>| other != set_name implies stage_in(
                                new_entries,
                                other,
                            ) == stage_in(old_entries, other) by {
                                crate::config::lemma_first_with_key(keys(old_entries), other);
                            }
                        }
                    },
                }
                std::mem::swap(&mut entries, &mut self.set_states);
            },
            Info::TemperatureGot(t) => {
                self.last_temperature = t;
            },
        }
    }

    /// The stage that a set last entered, if it entered one.
    pub fn stage_for(&self, set: &String) -> (r: Option<String>)
        ensures
            r matches Some(stage) ==> self.stage_of(set@) == Some(stage@),
            r is None ==> self.stage_of(set@) is None,
    {
        match find_key(&self.set_states, set) {
            Some(i) => Some(self.set_states[i].1.clone()),
            None => None,
        }
    }

    /// The record's entries, for display.
    pub fn set_states(&self) -> (r: &Vec<(String, String)>)
        ensures
            r@ == self.entries(),
            keys(r@).no_duplicates(),
    {
        proof {
            use_type_invariant(self);
        }
        &self.set_states
    }

    /// The last temperature read, as a bit pattern.
    pub fn last_temperature(&self) -> (r: u32)
        ensures
            r == self.temperature(),
    {
        self.last_temperature
    }
}

} // verus!

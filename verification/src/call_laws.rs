//! What holds of whole runs of a call: the way to its peer, its keeper and the receiving half
//! of its channel, whose events come in any order that each of them allows.

use vstd::prelude::*;

use crate::audio::{read_tells, ReadEvent};
use crate::channel_laws::{
    law_levels_told_are_levels_reported, levels_reported, levels_told, read_valid,
};
use crate::server::{
    announcements, asks_for_end, call_run, call_tells, deaths, farewells, keeper_run, keeper_tells,
    law_a_call_dies_once, law_states_come_in_order, readings, state_order, AudioUpdate, CallEvent,
    CallPhase, KeeperEvent, ServerState, UiUpdate,
};

verus! {

/// One moment of a call.
pub enum CallMoment {
    /// An event on the way to the peer and back.
    Progress(CallEvent),
    /// An event that the keeper takes in.
    Keeping(KeeperEvent),
    /// An event that the receiving half of the channel takes in.
    Receiving(ReadEvent),
}

/// The events on the way to the peer and back.
pub open spec fn progress_of(run: Seq<CallMoment>) -> Seq<CallEvent>
    decreases run.len(),
{
    if run.len() == 0 {
        Seq::empty()
    } else {
        match run.last() {
            CallMoment::Progress(event) => progress_of(run.drop_last()).push(event),
            _ => progress_of(run.drop_last()),
        }
    }
}

/// The events of the keeper.
pub open spec fn keeping_of(run: Seq<CallMoment>) -> Seq<KeeperEvent>
    decreases run.len(),
{
    if run.len() == 0 {
        Seq::empty()
    } else {
        match run.last() {
            CallMoment::Keeping(event) => keeping_of(run.drop_last()).push(event),
            _ => keeping_of(run.drop_last()),
        }
    }
}

/// The events of the receiving half.
pub open spec fn receiving_of(run: Seq<CallMoment>) -> Seq<ReadEvent>
    decreases run.len(),
{
    if run.len() == 0 {
        Seq::empty()
    } else {
        match run.last() {
            CallMoment::Receiving(event) => receiving_of(run.drop_last()).push(event),
            _ => receiving_of(run.drop_last()),
        }
    }
}

/// Whether the channel of a call has ended, and with it the way to the peer and back.
pub open spec fn channel_ended(server: bool, run: Seq<CallMoment>) -> bool {
    call_run(server, progress_of(run)) == Some(CallPhase::Ended)
}

/// Whether an event is a kill from the window.
pub open spec fn window_kills(event: KeeperEvent) -> bool {
    match event {
        KeeperEvent::WindowPolled(Some(UiUpdate::Kill)) => true,
        _ => false,
    }
}

/// Whether a run can happen: each part takes in only what answers what it is doing. The keeper
/// finds the stop flag raised only once the channel has ended, as `CallProgress::raises_stop`
/// says. There is no receiving half before the channel is open; it may go on after the channel
/// has ended.
pub open spec fn call_possible(server: bool, run: Seq<CallMoment>) -> bool
    decreases run.len(),
{
    run.len() == 0 || (call_possible(server, run.drop_last()) && match run.last() {
        CallMoment::Progress(_) => call_run(server, progress_of(run)) is Some,
        CallMoment::Keeping(event) => keeper_run(keeping_of(run)) is Some && (event
            == KeeperEvent::StopChecked(true) ==> channel_ended(server, run)),
        CallMoment::Receiving(_) => progress_of(run).contains(CallEvent::ChannelOpen)
            && read_valid(receiving_of(run)),
    })
}

/// What the window is told at a moment.
pub open spec fn moment_tells(server: bool, moment: CallMoment) -> Option<AudioUpdate> {
    match moment {
        CallMoment::Progress(event) => call_tells(server, event),
        CallMoment::Keeping(event) => keeper_tells(event),
        CallMoment::Receiving(event) => read_tells(event),
    }
}

/// All that the window is told in a run, in order.
pub open spec fn told(server: bool, run: Seq<CallMoment>) -> Seq<AudioUpdate>
    decreases run.len(),
{
    if run.len() == 0 {
        seq![AudioUpdate::ServerState(ServerState::InitAudioSystem)]
    } else {
        let earlier = told(server, run.drop_last());
        match moment_tells(server, run.last()) {
            Some(update) => earlier.push(update),
            None => earlier,
        }
    }
}

/// The states among some messages, in order.
pub open spec fn states_in(updates: Seq<AudioUpdate>) -> Seq<ServerState>
    decreases updates.len(),
{
    if updates.len() == 0 {
        Seq::empty()
    } else {
        match updates.last() {
            AudioUpdate::ServerState(state) => states_in(updates.drop_last()).push(state),
            _ => states_in(updates.drop_last()),
        }
    }
}

/// Whether a message says that the channel is open.
pub open spec fn says_active(update: AudioUpdate) -> bool {
    update == AudioUpdate::ServerState(ServerState::Active)
}

proof fn lemma_told_push(updates: Seq<AudioUpdate>, update: AudioUpdate)
    ensures
        updates.push(update).drop_last() == updates,
        updates.push(update).last() == update,
{
    assert(updates.push(update).drop_last() =~= updates);
}

proof fn lemma_call(server: bool, run: Seq<CallMoment>)
    requires
        call_possible(server, run),
    ensures
        call_run(server, progress_of(run)) is Some,
        keeper_run(keeping_of(run)) is Some,
        read_valid(receiving_of(run)),
        states_in(told(server, run)) == announcements(server, progress_of(run)),
        readings(told(server, run)) == levels_told(receiving_of(run)),
        deaths(told(server, run)) == farewells(keeping_of(run)),
        progress_of(run).contains(CallEvent::ChannelOpen) ==> exists|j: int|
            0 <= j < told(server, run).len() && says_active(#[trigger] told(server, run)[j]),
        forall|i: int|
            0 <= i < told(server, run).len() && (#[trigger] told(server, run)[i]) is DecibelReading
                ==> exists|j: int| 0 <= j < i && says_active(#[trigger] told(server, run)[j]),
    decreases run.len(),
{
    if run.len() == 0 {
        reveal_with_fuel(states_in, 2);
        reveal_with_fuel(readings, 2);
        reveal_with_fuel(deaths, 2);
        assert(told(server, run).drop_last() =~= Seq::empty());
        assert(states_in(told(server, run)) =~= seq![ServerState::InitAudioSystem]);
    } else {
        let before = run.drop_last();
        lemma_call(server, before);
        let earlier = told(server, before);
        match run.last() {
            CallMoment::Progress(event) => {
                assert(progress_of(run).drop_last() =~= progress_of(before));
                assert(progress_of(run).last() == event);
            },
            CallMoment::Keeping(event) => {
                assert(keeping_of(run).drop_last() =~= keeping_of(before));
                assert(keeping_of(run).last() == event);
            },
            CallMoment::Receiving(event) => {
                assert(receiving_of(run).drop_last() =~= receiving_of(before));
                assert(receiving_of(run).last() == event);
            },
        }
        if let Some(update) = moment_tells(server, run.last()) {
            lemma_told_push(earlier, update);
            let now = told(server, run);
            assert(now == earlier.push(update));
            if progress_of(run).contains(CallEvent::ChannelOpen) {
                if progress_of(before).contains(CallEvent::ChannelOpen) {
                    let j = choose|j: int|
                        0 <= j < earlier.len() && says_active(#[trigger] earlier[j]);
                    assert(says_active(now[j]));
                } else {
                    let k = choose|k: int|
                        0 <= k < progress_of(run).len() && progress_of(run)[k]
                            == CallEvent::ChannelOpen;
                    if k < progress_of(before).len() {
                        assert(progress_of(before)[k] == CallEvent::ChannelOpen);
                    }
                    assert(run.last() == CallMoment::Progress(CallEvent::ChannelOpen));
                    assert(says_active(now[earlier.len() as int]));
                }
            }
            assert forall|i: int| 0 <= i < now.len() && (#[trigger] now[i]) is DecibelReading
                implies exists|j: int| 0 <= j < i && says_active(#[trigger] now[j]) by {
                if i < earlier.len() {
                    assert(earlier[i] is DecibelReading);
                    let j = choose|j: int| 0 <= j < i && says_active(#[trigger] earlier[j]);
                    assert(says_active(now[j]));
                } else {
                    let j = choose|j: int|
                        0 <= j < earlier.len() && says_active(#[trigger] earlier[j]);
                    assert(says_active(now[j]));
                }
            }
        } else {
            if progress_of(run).contains(CallEvent::ChannelOpen) {
                let k = choose|k: int|
                    0 <= k < progress_of(run).len() && progress_of(run)[k] == CallEvent::ChannelOpen;
                assert(k < progress_of(before).len());
                assert(progress_of(before)[k] == CallEvent::ChannelOpen);
            }
        }
    }
}

/// Whatever happens to a call, and whether it serves or connects, the states that its window
/// is told of come in one order, each at most once and none left out. A level reading comes
/// only after the window was told that the call is active.
pub proof fn law_messages_come_in_order(server: bool, run: Seq<CallMoment>)
    requires
        call_possible(server, run),
    ensures
        states_in(told(server, run)).is_prefix_of(state_order()),
        forall|i: int|
            0 <= i < told(server, run).len() && (#[trigger] told(server, run)[i]) is DecibelReading
                ==> exists|j: int| 0 <= j < i && says_active(#[trigger] told(server, run)[j]),
{
    lemma_call(server, run);
    law_states_come_in_order(server, progress_of(run));
}

/// The level readings that the window of a call is told of are the levels that were reported to
/// its receiving half, each once and in order.
pub proof fn law_levels_reach_the_window(server: bool, run: Seq<CallMoment>)
    requires
        call_possible(server, run),
    ensures
        readings(told(server, run)) == levels_told(receiving_of(run)),
        readings(told(server, run)) == levels_reported(receiving_of(run)),
{
    lemma_call(server, run);
    law_levels_told_are_levels_reported(receiving_of(run));
}

/// The window of a call is told at most once that it died.
pub proof fn law_a_death_is_told_once(server: bool, run: Seq<CallMoment>)
    requires
        call_possible(server, run),
    ensures
        deaths(told(server, run)) <= 1,
{
    lemma_call(server, run);
    law_a_call_dies_once(keeping_of(run));
}

proof fn lemma_stop_follows_the_channel(server: bool, run: Seq<CallMoment>)
    requires
        call_possible(server, run),
    ensures
        keeping_of(run).contains(KeeperEvent::StopChecked(true)) ==> channel_ended(server, run),
    decreases run.len(),
{
    if run.len() > 0 {
        let before = run.drop_last();
        lemma_stop_follows_the_channel(server, before);
        match run.last() {
            CallMoment::Progress(event) => {
                assert(progress_of(run).drop_last() =~= progress_of(before));
                assert(progress_of(run).last() == event);
            },
            CallMoment::Keeping(event) => {
                let now = keeping_of(run);
                if event != KeeperEvent::StopChecked(true) && now.contains(
                    KeeperEvent::StopChecked(true),
                ) {
                    let k = choose|k: int|
                        0 <= k < now.len() && now[k] == KeeperEvent::StopChecked(true);
                    assert(keeping_of(before)[k] == KeeperEvent::StopChecked(true));
                }
            },
            CallMoment::Receiving(_) => {},
        }
    }
}

/// A call dies only of two things: its channel has ended, or its window killed it. So a server
/// that gave up waiting for its peer goes on until its window kills it.
pub proof fn law_a_call_dies_for_a_reason(server: bool, run: Seq<CallMoment>)
    requires
        call_possible(server, run),
        deaths(told(server, run)) == 1,
    ensures
        channel_ended(server, run) || exists|i: int|
            0 <= i < keeping_of(run).len() && window_kills(#[trigger] keeping_of(run)[i]),
{
    lemma_call(server, run);
    lemma_stop_follows_the_channel(server, run);
    let keeping = keeping_of(run);
    law_a_call_dies_once(keeping);
    let i = choose|i: int| 0 <= i < keeping.len() && asks_for_end(#[trigger] keeping[i]);
    match keeping[i] {
        KeeperEvent::StopChecked(stopped) => {
            assert(keeping.contains(KeeperEvent::StopChecked(true)));
        },
        _ => {
            assert(window_kills(keeping[i]));
        },
    }
}

} // verus!

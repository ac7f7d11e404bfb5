//! The state behind the window: what the user typed and chose, and the calls.

use vstd::prelude::*;

use crate::mixer::{Mixer, NoiseGate};
use crate::server::{
    deaths, last_of, latest_state, law_deaths_are_counted, law_the_newest_levels_are_kept,
    law_the_newest_state_counts, law_without_a_state_nothing_changes, readings, toggled,
    AudioUpdate, Server, ServerState, KEPT_READINGS,
};
use crate::settings::{
    changed, Application, AudioEncoding, Bandwidth, Bitrate, ConnectionSettings, SettingsChange,
    Signal, DEFAULT_LATENCY,
};

verus! {

/// The window. `P` is whatever the window needs to reach a call.
pub struct MyApp<P> {
    pub listen_str: String,
    pub servers: Vec<Server<P>>,
    pub current_settings: ConnectionSettings,
    pub cached_input_device_names: Vec<String>,
    pub cached_output_device_names: Vec<String>,
    pub mixer: Mixer,
}

/// What a call is started with.
pub struct Launch {
    /// The address as the user typed it.
    pub address: String,
    pub server: bool,
    pub settings: ConnectionSettings,
}

/// Whether `after` is what taking in a call's messages makes of `before`.
pub open spec fn absorbed<P>(
    before: Server<P>,
    updates: Seq<AudioUpdate>,
    after: Server<P>,
) -> bool {
    &&& after.port == before.port
    &&& after.is_server == before.is_server
    &&& after.muted == before.muted
    &&& after.state == latest_state(before.state, updates)
    &&& after.dbs@ == last_of(before.dbs@ + readings(updates), KEPT_READINGS as nat)
}

/// The places of the calls that died, one for each time that a call's messages say so, in
/// ascending order. `inbox` holds the messages of each call.
pub open spec fn dead_list(inbox: Seq<Vec<AudioUpdate>>) -> Seq<usize>
    decreases inbox.len(),
{
    if inbox.len() == 0 {
        Seq::empty()
    } else {
        dead_list(inbox.drop_last()) + Seq::new(
            deaths(inbox.last()@),
            |k: int| (inbox.len() - 1) as usize,
        )
    }
}

/// What is left of some calls when those at the listed places are taken out, the last place
/// first.
pub open spec fn swept<P>(servers: Seq<Server<P>>, dead: Seq<usize>) -> Seq<Server<P>>
    decreases dead.len(),
{
    if dead.len() == 0 {
        servers
    } else {
        swept(servers.remove(dead.last() as int), dead.drop_last())
    }
}

/// Whether there is a call at each of the places when its turn comes.
pub open spec fn can_sweep(len: nat, dead: Seq<usize>) -> bool
    decreases dead.len(),
{
    dead.len() == 0 || (dead.last() < len && can_sweep((len - 1) as nat, dead.drop_last()))
}

/// The calls whose messages do not say that they died, in order.
pub open spec fn survivors<P>(servers: Seq<Server<P>>, inbox: Seq<Vec<AudioUpdate>>) -> Seq<
    Server<P>,
>
    decreases inbox.len(),
{
    if inbox.len() == 0 {
        Seq::empty()
    } else {
        let earlier = survivors(servers.drop_last(), inbox.drop_last());
        if deaths(inbox.last()@) == 0 {
            earlier.push(servers.last())
        } else {
            earlier
        }
    }
}

impl<P> MyApp<P> {
    /// Each call is kept as it should be.
    pub open spec fn wf(&self) -> bool {
        forall|i: int| 0 <= i < self.servers@.len() ==> (#[trigger] self.servers@[i]).wf()
    }

    /// A window without calls, set to the default devices, by their names.
    pub fn new(input_device_name: String, output_device_name: String) -> (app: Self)
        ensures
            app.wf(),
            app.listen_str@ == Seq::<char>::empty(),
            app.servers@ == Seq::<Server<P>>::empty(),
            app.current_settings.encoding == (AudioEncoding::Opus {
                purpose: Application::Voip,
                bandwidth: Bandwidth::Auto,
                bit_rate: Bitrate::Auto,
                signal_type: Signal::Voice,
            }),
            app.current_settings.latency == DEFAULT_LATENCY,
            app.current_settings.input_device_name == input_device_name,
            app.current_settings.output_device_name == output_device_name,
            app.current_settings.in_range(),
            app.cached_input_device_names@ == Seq::<String>::empty(),
            app.cached_output_device_names@ == Seq::<String>::empty(),
            app.mixer.effects@ == Seq::<NoiseGate>::empty(),
    {
        MyApp {
            listen_str: String::new(),
            servers: Vec::new(),
            current_settings: ConnectionSettings::new(input_device_name, output_device_name),
            cached_input_device_names: Vec::new(),
            cached_output_device_names: Vec::new(),
            mixer: Mixer::new(),
        }
    }

    /// Whether all but the calls is as it was.
    pub open spec fn same_but_servers(&self, other: &Self) -> bool {
        &&& self.listen_str == other.listen_str
        &&& self.current_settings == other.current_settings
        &&& self.cached_input_device_names == other.cached_input_device_names
        &&& self.cached_output_device_names == other.cached_output_device_names
        &&& self.mixer == other.mixer
    }

    /// Asks for a call, as a server or as a client, with the address and the settings of
    /// the moment. It is listed behind the other calls.
    pub fn launch(&mut self, port: P, server: bool) -> (launch: Launch)
        requires
            old(self).wf(),
        ensures
            final(self).wf(),
            final(self).same_but_servers(old(self)),
            final(self).servers@.len() == old(self).servers@.len() + 1,
            final(self).servers@.drop_last() == old(self).servers@,
            final(self).servers@.last().port == port,
            final(self).servers@.last().is_server == server,
            final(self).servers@.last().state == ServerState::Init,
            !final(self).servers@.last().muted,
            final(self).servers@.last().dbs@ == Seq::<u32>::empty(),
            launch.address@ == old(self).listen_str@,
            launch.server == server,
            launch.settings == old(self).current_settings,
    {
        let settings = self.current_settings.clone();
        self.servers.push(Server::new(port, server));
        assert(self.servers@.drop_last() =~= old(self).servers@);
        Launch { address: self.listen_str.clone(), server, settings }
    }

    /// Takes in the names of the input devices that there are.
    pub fn list_input_devices(&mut self, names: Vec<String>)
        ensures
            *final(self) == (MyApp { cached_input_device_names: names, ..*old(self) }),
    {
        self.cached_input_device_names = names;
    }

    /// Takes an entry of the input device menu.
    pub fn choose_input_device(&mut self, i: usize)
        requires
            i < old(self).cached_input_device_names@.len(),
        ensures
            *final(self) == (MyApp {
                current_settings: changed(
                    old(self).current_settings,
                    SettingsChange::InputDevice(old(self).cached_input_device_names@[i as int]),
                ),
                ..*old(self)
            }),
    {
        let name = self.cached_input_device_names[i].clone();
        self.current_settings.input_device_name = name;
    }

    /// Takes in the messages of one call, and lists its place once for each time that they say
    /// that it died.
    pub fn receive_from(&mut self, i: usize, updates: &Vec<AudioUpdate>, dead: &mut Vec<usize>)
        requires
            old(self).wf(),
            i < old(self).servers@.len(),
        ensures
            final(self).wf(),
            final(self).same_but_servers(old(self)),
            final(self).servers@ == old(self).servers@.update(
                i as int,
                final(self).servers@[i as int],
            ),
            absorbed(old(self).servers@[i as int], updates@, final(self).servers@[i as int]),
            final(dead)@ == old(dead)@ + Seq::new(deaths(updates@), |k: int| i),
    {
        let died = self.servers[i].absorb(updates);
        let mut k: usize = 0;
        let ghost before = dead@;
        while k < died
            invariant
                k <= died,
                dead@ =~= before + Seq::new(k as nat, |n: int| i),
            decreases died - k,
        {
            dead.push(i);
            k = k + 1;
        }
    }

    /// Takes in the messages of each call, and returns the places of the calls that died.
    pub fn receive(&mut self, inbox: &Vec<Vec<AudioUpdate>>) -> (dead: Vec<usize>)
        requires
            old(self).wf(),
            inbox@.len() == old(self).servers@.len(),
        ensures
            final(self).wf(),
            final(self).same_but_servers(old(self)),
            final(self).servers@.len() == old(self).servers@.len(),
            forall|i: int|
                0 <= i < inbox@.len() ==> absorbed(
                    old(self).servers@[i],
                    inbox@[i]@,
                    #[trigger] final(self).servers@[i],
                ),
            dead@ == dead_list(inbox@),
    {
        let mut dead: Vec<usize> = Vec::new();
        let mut i: usize = 0;
        let ghost start = *self;
        assert(inbox@.take(0) =~= Seq::<Vec<AudioUpdate>>::empty());
        while i < inbox.len()
            invariant
                i <= inbox@.len(),
                inbox@.len() == start.servers@.len(),
                self.servers@.len() == start.servers@.len(),
                start.wf(),
                self.wf(),
                self.same_but_servers(&start),
                forall|j: int|
                    0 <= j < i ==> absorbed(
                        start.servers@[j],
                        inbox@[j]@,
                        #[trigger] self.servers@[j],
                    ),
                forall|j: int|
                    i <= j < inbox@.len() ==> #[trigger] self.servers@[j] == start.servers@[j],
                dead@ == dead_list(inbox@.take(i as int)),
            decreases inbox@.len() - i,
        {
            self.receive_from(i, &inbox[i], &mut dead);
            proof {
                assert(inbox@.take(i + 1).drop_last() =~= inbox@.take(i as int));
                assert(inbox@.take(i + 1).last() == inbox@[i as int]);
                assert(dead@ =~= dead_list(inbox@.take(i + 1)));
            }
            i = i + 1;
        }
        assert(inbox@.take(inbox@.len() as int) =~= inbox@);
        dead
    }

    /// Whether there is a call at each of the listed places when its turn to be taken out
    /// comes.
    pub fn can_sweep(&self, dead: &Vec<usize>) -> (can: bool)
        ensures
            can == can_sweep(self.servers@.len(), dead@),
    {
        let mut left: usize = self.servers.len();
        let mut k: usize = dead.len();
        assert(dead@.take(k as int) =~= dead@);
        while k > 0
            invariant
                k <= dead@.len(),
                can_sweep(left as nat, dead@.take(k as int)) == can_sweep(
                    self.servers@.len(),
                    dead@,
                ),
            decreases k,
        {
            k = k - 1;
            assert(dead@.take(k + 1).drop_last() =~= dead@.take(k as int));
            assert(dead@.take(k + 1).last() == dead@[k as int]);
            if dead[k] >= left {
                return false;
            }
            left = left - 1;
        }
        true
    }

    /// Takes the calls at the listed places out of the window, the last place first.
    pub fn sweep(&mut self, dead: Vec<usize>)
        requires
            old(self).wf(),
            can_sweep(old(self).servers@.len(), dead@),
        ensures
            final(self).wf(),
            final(self).same_but_servers(old(self)),
            final(self).servers@ == swept(old(self).servers@, dead@),
    {
        let ghost start = *self;
        let mut k: usize = dead.len();
        assert(dead@.take(k as int) =~= dead@);
        while k > 0
            invariant
                k <= dead@.len(),
                self.wf(),
                self.same_but_servers(&start),
                can_sweep(self.servers@.len(), dead@.take(k as int)),
                swept(self.servers@, dead@.take(k as int)) == swept(start.servers@, dead@),
            decreases k,
        {
            k = k - 1;
            assert(dead@.take(k + 1).drop_last() =~= dead@.take(k as int));
            assert(dead@.take(k + 1).last() == dead@[k as int]);
            let i: usize = dead[k];
            let _ = self.servers.remove(i);
        }
    }

    /// Mutes a call, or lifts the mute, and returns whether it is muted now.
    pub fn toggle_mute(&mut self, i: usize) -> (muted: bool)
        requires
            old(self).wf(),
            i < old(self).servers@.len(),
        ensures
            final(self).wf(),
            final(self).same_but_servers(old(self)),
            muted == !old(self).servers@[i as int].muted,
            final(self).servers@ == old(self).servers@.update(
                i as int,
                toggled(old(self).servers@[i as int]),
            ),
    {
        self.servers[i].toggle_mute()
    }
}

proof fn lemma_sweep_keeps_last<P>(servers: Seq<Server<P>>, dead: Seq<usize>, last: Server<P>)
    requires
        can_sweep(servers.len(), dead),
    ensures
        can_sweep(servers.len() + 1, dead),
        swept(servers.push(last), dead) == swept(servers, dead).push(last),
    decreases dead.len(),
{
    if dead.len() > 0 {
        let i = dead.last() as int;
        lemma_sweep_keeps_last(servers.remove(i), dead.drop_last(), last);
        assert(servers.push(last).remove(i) =~= servers.remove(i).push(last));
    }
}

/// When no call's messages say more than once that it died, the calls that died leave the
/// window, and all others stay, in order.
pub proof fn law_the_dead_leave<P>(servers: Seq<Server<P>>, inbox: Seq<Vec<AudioUpdate>>)
    requires
        servers.len() == inbox.len(),
        servers.len() <= usize::MAX,
        forall|i: int| 0 <= i < inbox.len() ==> deaths(#[trigger] inbox[i]@) <= 1,
    ensures
        can_sweep(servers.len(), dead_list(inbox)),
        swept(servers, dead_list(inbox)) == survivors(servers, inbox),
    decreases inbox.len(),
{
    if inbox.len() == 0 {
        assert(servers =~= Seq::empty());
    } else {
        let n = (inbox.len() - 1) as usize;
        let before = inbox.drop_last();
        assert forall|i: int| 0 <= i < before.len() implies deaths(#[trigger] before[i]@) <= 1 by {
            assert(before[i] == inbox[i]);
        }
        law_the_dead_leave(servers.drop_last(), before);
        assert(inbox.last() == inbox[inbox.len() - 1]);
        if deaths(inbox.last()@) == 0 {
            assert(dead_list(inbox) =~= dead_list(before));
            lemma_sweep_keeps_last(servers.drop_last(), dead_list(before), servers.last());
            assert(servers.drop_last().push(servers.last()) =~= servers);
        } else {
            assert(dead_list(inbox) =~= dead_list(before).push(n));
            assert(dead_list(inbox).drop_last() =~= dead_list(before));
            assert(servers.remove(n as int) =~= servers.drop_last());
        }
    }
}

/// Taking in messages from nobody's death leaves all calls in the window.
pub proof fn law_the_living_stay<P>(servers: Seq<Server<P>>, inbox: Seq<Vec<AudioUpdate>>)
    requires
        servers.len() == inbox.len(),
        forall|i: int| 0 <= i < inbox.len() ==> deaths(#[trigger] inbox[i]@) == 0,
    ensures
        dead_list(inbox) == Seq::<usize>::empty(),
        swept(servers, dead_list(inbox)) == servers,
    decreases inbox.len(),
{
    if inbox.len() > 0 {
        let before = inbox.drop_last();
        assert forall|i: int| 0 <= i < before.len() implies deaths(#[trigger] before[i]@) == 0 by {
            assert(before[i] == inbox[i]);
        }
        law_the_living_stay(servers.drop_last(), before);
        assert(inbox.last() == inbox[inbox.len() - 1]);
        assert(dead_list(inbox) =~= Seq::<usize>::empty());
    }
}

/// A call that has taken in messages shows the newest state among them, or the state before
/// where there is none; it keeps the newest 81 levels; and it is otherwise the call that it was.
pub proof fn law_what_a_call_takes_in<P>(
    before: Server<P>,
    updates: Seq<AudioUpdate>,
    after: Server<P>,
    i: int,
)
    requires
        before.dbs@.len() <= 81,
        absorbed(before, updates, after),
    ensures
        after.port == before.port,
        after.is_server == before.is_server,
        after.muted == before.muted,
        0 <= i < updates.len() && updates[i] is ServerState && (forall|j: int|
            i < j < updates.len() ==> (#[trigger] updates[j]) !is ServerState) ==> after.state
            == updates[i]->ServerState_0,
        (forall|j: int| 0 <= j < updates.len() ==> (#[trigger] updates[j]) !is ServerState)
            ==> after.state == before.state,
        ({
            let all = before.dbs@ + readings(updates);
            &&& all.len() <= 81 ==> after.dbs@ == all
            &&& all.len() > 81 ==> after.dbs@.len() == 81
            &&& 0 <= i < after.dbs@.len() ==> after.dbs@[after.dbs@.len() - 1 - i] == all[all.len()
                - 1 - i]
        }),
{
    if 0 <= i < updates.len() && updates[i] is ServerState && (forall|j: int|
        i < j < updates.len() ==> (#[trigger] updates[j]) !is ServerState) {
        law_the_newest_state_counts(before.state, updates, i, updates[i]->ServerState_0);
    }
    if forall|j: int| 0 <= j < updates.len() ==> (#[trigger] updates[j]) !is ServerState {
        law_without_a_state_nothing_changes(before.state, updates);
    }
    if 0 <= i {
        law_the_newest_levels_are_kept(before.dbs@, updates, i);
    } else {
        law_the_newest_levels_are_kept(before.dbs@, updates, 0);
    }
}

/// What is kept beside the calls is kept whole.
pub proof fn law_what_stays_beside_the_calls<P>(a: MyApp<P>, b: MyApp<P>)
    requires
        a.same_but_servers(&b),
    ensures
        a.listen_str == b.listen_str,
        a.current_settings == b.current_settings,
        a.cached_input_device_names == b.cached_input_device_names,
        a.cached_output_device_names == b.cached_output_device_names,
        a.mixer == b.mixer,
{
}

/// How often a place stands in a list.
pub open spec fn times(list: Seq<usize>, i: usize) -> nat
    decreases list.len(),
{
    if list.len() == 0 {
        0
    } else {
        times(list.drop_last(), i) + if list.last() == i {
            1nat
        } else {
            0nat
        }
    }
}

proof fn lemma_times_of_copies(list: Seq<usize>, n: nat, place: usize, i: usize)
    ensures
        times(list + Seq::new(n, |k: int| place), i) == times(list, i) + if place == i {
            n
        } else {
            0
        },
    decreases n,
{
    let more = list + Seq::new(n, |k: int| place);
    if n == 0 {
        assert(more =~= list);
    } else {
        let m = (n - 1) as nat;
        lemma_times_of_copies(list, m, place, i);
        assert(more.drop_last() =~= list + Seq::new(m, |k: int| place));
        assert(more.last() == place);
    }
}

/// The list of the dead holds each place as often as the call there reports its death, and no
/// other place, in ascending order.
pub proof fn law_the_list_of_the_dead(inbox: Seq<Vec<AudioUpdate>>, i: usize)
    requires
        inbox.len() <= usize::MAX,
    ensures
        i < inbox.len() ==> times(dead_list(inbox), i) == deaths(inbox[i as int]@),
        i >= inbox.len() ==> times(dead_list(inbox), i) == 0,
        forall|a: int, b: int|
            0 <= a <= b < dead_list(inbox).len() ==> #[trigger] dead_list(inbox)[a]
                <= #[trigger] dead_list(inbox)[b],
        forall|a: int|
            0 <= a < dead_list(inbox).len() ==> (#[trigger] dead_list(inbox)[a]) < inbox.len(),
    decreases inbox.len(),
{
    if inbox.len() > 0 {
        let before = inbox.drop_last();
        law_the_list_of_the_dead(before, i);
        let last = (inbox.len() - 1) as usize;
        let n = deaths(inbox.last()@);
        assert(dead_list(inbox) =~= dead_list(before) + Seq::new(n, |k: int| last));
        lemma_times_of_copies(dead_list(before), n, last, i);
        if i < last {
            assert(before[i as int] == inbox[i as int]);
        }
    }
}

/// Sweeping takes out the calls at the listed places, the last place first: nothing for an empty
/// list, the call at the place for a list of one, and for two lists together what is listed in
/// the second and then what is listed in the first. It can be done exactly when there is a call
/// at each place when its turn comes.
pub proof fn law_sweeping_in_parts<P>(
    servers: Seq<Server<P>>,
    first: Seq<usize>,
    second: Seq<usize>,
    one: usize,
)
    ensures
        swept(servers, Seq::empty()) == servers,
        can_sweep(servers.len(), Seq::empty()),
        swept(servers, seq![one]) == servers.remove(one as int),
        can_sweep(servers.len(), seq![one]) <==> one < servers.len(),
        swept(servers, first + second) == swept(swept(servers, second), first),
        can_sweep(servers.len(), second) ==> swept(servers, second).len() == servers.len()
            - second.len(),
        can_sweep(servers.len(), first + second) <==> can_sweep(servers.len(), second) && can_sweep(
            swept(servers, second).len(),
            first,
        ),
    decreases second.len(),
{
    reveal_with_fuel(swept, 2);
    reveal_with_fuel(can_sweep, 2);
    assert(seq![one].drop_last() =~= Seq::empty());
    if second.len() == 0 {
        assert(first + second =~= first);
    } else {
        let all = first + second;
        let i = second.last() as int;
        assert(all.last() == second.last());
        assert(all.drop_last() =~= first + second.drop_last());
        law_sweeping_in_parts(servers.remove(i), first, second.drop_last(), one);
    }
}

/// How many of the first `n` calls have no message of death.
pub open spec fn living_before(inbox: Seq<Vec<AudioUpdate>>, n: nat) -> nat
    decreases n,
{
    if n == 0 {
        0
    } else {
        living_before(inbox, (n - 1) as nat) + if inbox[n - 1]@.contains(AudioUpdate::Dead) {
            0nat
        } else {
            1nat
        }
    }
}

proof fn lemma_living_before(inbox: Seq<Vec<AudioUpdate>>, n: nat)
    requires
        n < inbox.len(),
    ensures
        living_before(inbox.drop_last(), n) == living_before(inbox, n),
    decreases n,
{
    if n > 0 {
        lemma_living_before(inbox, (n - 1) as nat);
    }
}

proof fn lemma_deaths_and_the_dead(updates: Seq<AudioUpdate>)
    ensures
        deaths(updates) == 0 <==> !updates.contains(AudioUpdate::Dead),
{
    law_deaths_are_counted(updates, AudioUpdate::Dead);
    if deaths(updates) != 0 {
        let j = choose|j: int| 0 <= j < updates.len() && (#[trigger] updates[j]) is Dead;
        assert(updates[j] == AudioUpdate::Dead);
    }
}

proof fn lemma_survivors<P>(servers: Seq<Server<P>>, inbox: Seq<Vec<AudioUpdate>>)
    requires
        servers.len() == inbox.len(),
    ensures
        survivors(servers, inbox).len() == living_before(inbox, inbox.len()),
        forall|i: int|
            0 <= i < inbox.len() && !(#[trigger] inbox[i])@.contains(AudioUpdate::Dead)
                ==> living_before(inbox, i as nat) < survivors(servers, inbox).len() && survivors(
                servers,
                inbox,
            )[living_before(inbox, i as nat) as int] == servers[i],
    decreases inbox.len(),
{
    if inbox.len() > 0 {
        let before = inbox.drop_last();
        lemma_survivors(servers.drop_last(), before);
        lemma_deaths_and_the_dead(inbox.last()@);
        let n = before.len();
        lemma_living_before(inbox, n);
        assert forall|i: int|
            0 <= i < inbox.len() && !(#[trigger] inbox[i])@.contains(
                AudioUpdate::Dead,
            ) implies living_before(inbox, i as nat) < survivors(servers, inbox).len() && survivors(
            servers,
            inbox,
        )[living_before(inbox, i as nat) as int] == servers[i] by {
            lemma_living_before(inbox, i as nat);
            if i < n {
                assert(before[i] == inbox[i]);
                assert(servers.drop_last()[i] == servers[i]);
            }
        }
    }
}

/// When no call reports its death more than once, exactly the calls without a message of death
/// are left in the window, each behind those of them that stood before it.
pub proof fn law_exactly_the_living_are_left<P>(
    servers: Seq<Server<P>>,
    inbox: Seq<Vec<AudioUpdate>>,
    i: int,
)
    requires
        servers.len() == inbox.len(),
        servers.len() <= usize::MAX,
        forall|k: int| 0 <= k < inbox.len() ==> deaths(#[trigger] inbox[k]@) <= 1,
        0 <= i < inbox.len(),
    ensures
        ({
            let left = swept(servers, dead_list(inbox));
            &&& left.len() == living_before(inbox, inbox.len())
            &&& !inbox[i]@.contains(AudioUpdate::Dead) ==> living_before(inbox, i as nat)
                < left.len() && left[living_before(inbox, i as nat) as int] == servers[i]
        }),
{
    law_the_dead_leave(servers, inbox);
    lemma_survivors(servers, inbox);
}

} // verus!

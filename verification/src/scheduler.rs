use crate::storage::{Component, Storage};
use vstd::prelude::*;

verus! {

/// A unit of work over a shared storage.
///
/// Implementors are the callables the scheduler dispatches: a value of the
/// implementing type stands for one registered callable, and `run` is one
/// invocation of it. Implementations may read and mutate the storage freely
/// but must keep it well-formed, which every storage operation does.
pub trait System: Sized {
    /// The component universe of the storage this system works against.
    type Comp: Component;

    /// Performs this system's work for one invocation.
    fn run(&mut self, storage: &mut Storage<Self::Comp>)
        requires
            old(storage).wf(),
        ensures
            final(storage).wf(),
    ;
}

/// A registered unit of work: a system together with its optional minimum
/// re-invocation interval (in milliseconds) and its gating state.
///
/// A unit starts never-run, so its first invocation is always eligible; an
/// interval-gated unit then re-arms itself to `now + interval` each time it
/// actually executes.
pub struct FunctionSystem<S: System> {
    system: S,
    call_interval: Option<u64>,
    last_call: u64,
    runs: Ghost<nat>,
}

impl<S: System> FunctionSystem<S> {
    /// The wrapped system.
    pub closed spec fn payload(&self) -> S {
        self.system
    }

    /// The minimum re-invocation interval, if the unit is gated.
    pub closed spec fn interval(&self) -> Option<u64> {
        self.call_interval
    }

    /// The earliest tick time at which a gated unit may execute again.
    pub closed spec fn next_eligible(&self) -> u64 {
        self.last_call
    }

    /// How many times the wrapped callable has actually executed.
    pub closed spec fn runs(&self) -> nat {
        self.runs@
    }

    /// A fresh unit as registration creates it: never run, eligible at once.
    pub open spec fn fresh(&self, system: S, call_interval: Option<u64>) -> bool {
        &&& self.payload() == system
        &&& self.interval() == call_interval
        &&& self.next_eligible() == 0
        &&& self.runs() == 0
    }

    /// Whether the unit is eligible to execute at tick time `now`: it has no
    /// interval, or its re-arm time has been reached.
    pub open spec fn gate_open(&self, now: u64) -> bool {
        match self.interval() {
            Option::None => true,
            Option::Some(_) => self.next_eligible() <= now,
        }
    }

    /// The re-arm time after an execution at `now`: `now + interval`,
    /// saturating at the largest representable time.
    pub open spec fn rearmed(&self, now: u64) -> u64 {
        match self.interval() {
            Option::None => self.next_eligible(),
            Option::Some(d) => if now + d <= u64::MAX {
                (now + d) as u64
            } else {
                u64::MAX
            },
        }
    }

    /// The effect of one `run` call at tick time `now`: an eligible unit has
    /// its callable execute exactly once and re-arms; an ineligible one is
    /// left untouched and its callable does not execute.
    pub open spec fn stepped(pre: Self, post: Self, now: u64) -> bool {
        if pre.gate_open(now) {
            &&& post.interval() == pre.interval()
            &&& post.next_eligible() == pre.rearmed(now)
            &&& post.runs() == pre.runs() + 1
        } else {
            post == pre
        }
    }

    /// Runs the unit against `storage` at tick time `now`, subject to its
    /// interval gate. A unit whose gate is closed returns silently: it does
    /// not touch the storage at all.
    pub fn run(&mut self, storage: &mut Storage<S::Comp>, now: u64)
        requires
            old(storage).wf(),
        ensures
            final(storage).wf(),
            Self::stepped(*old(self), *final(self), now),
            !old(self).gate_open(now) ==> *final(storage) == *old(storage),
    {
        match self.call_interval {
            Some(d) => {
                if self.last_call <= now {
                    self.last_call = if now <= u64::MAX - d {
                        now + d
                    } else {
                        u64::MAX
                    };
                    self.runs = Ghost(self.runs@ + 1);
                    self.system.run(storage);
                }
            },
            None => {
                self.runs = Ghost(self.runs@ + 1);
                self.system.run(storage);
            },
        }
    }
}

/// Conversion of a system into a registered unit. Every system converts.
pub trait IntoSystem: System {
    /// Wraps `self` as a never-run unit with the given optional minimum
    /// re-invocation interval in milliseconds.
    fn into(self, call_interval: Option<u64>) -> (u: FunctionSystem<Self>)
        ensures
            u.fresh(self, call_interval),
    ;
}

impl<S: System> IntoSystem for S {
    fn into(self, call_interval: Option<u64>) -> (u: FunctionSystem<S>) {
        FunctionSystem { system: self, call_interval, last_call: 0, runs: Ghost(0nat) }
    }
}

/// A bundle of systems (and possibly further plugins) that registers itself
/// into a scheduler being built.
///
/// What a plugin registers is part of its contract: the two spec functions
/// name the payload and interval of each unit, in registration order, and
/// `new` promises to append fresh units for exactly those descriptions.
pub trait Plugin<S: System> {
    /// The payload and interval of each startup unit this plugin registers,
    /// in registration order. The default names no registrations: a plugin
    /// whose `new` appends anything overrides it to match.
    open spec fn startup_registers() -> Seq<(S, Option<u64>)> {
        Seq::empty()
    }

    /// The payload and interval of each steady unit this plugin registers,
    /// in registration order. The default names no registrations: a plugin
    /// whose `new` appends anything overrides it to match.
    open spec fn steady_registers() -> Seq<(S, Option<u64>)> {
        Seq::empty()
    }

    /// Registers this plugin's units into `builder`: fresh units for exactly
    /// the registrations this plugin names, appended after what is already
    /// there, which stays untouched.
    fn new(builder: &mut Scheduler<S>)
        ensures
            Scheduler::registered(
                *old(builder),
                *final(builder),
                Self::startup_registers(),
                Self::steady_registers(),
            ),
    ;
}

/// The scheduler: an ordered sequence of one-shot startup units and an
/// ordered sequence of recurring steady units, executed against a storage
/// once per tick. Registration order is execution order.
pub struct Scheduler<S: System> {
    startup_systems: Vec<FunctionSystem<S>>,
    systems: Vec<FunctionSystem<S>>,
    retired: Ghost<Seq<FunctionSystem<S>>>,
}

impl<S: System> Scheduler<S> {
    /// The ordered startup units still awaiting their single execution.
    pub closed spec fn startup_units(&self) -> Seq<FunctionSystem<S>> {
        self.startup_systems@
    }

    /// The ordered steady units, run every tick subject to their gates.
    pub closed spec fn steady_units(&self) -> Seq<FunctionSystem<S>> {
        self.systems@
    }

    /// The startup units already executed and discarded, in execution order,
    /// each recorded in the state it retired in.
    pub closed spec fn retired_units(&self) -> Seq<FunctionSystem<S>> {
        self.retired@
    }

    /// `self` is `pre` with zero or more units appended to each sequence:
    /// what registration is allowed to do to a scheduler.
    pub open spec fn extends(&self, pre: Self) -> bool {
        &&& pre.startup_units().is_prefix_of(self.startup_units())
        &&& pre.steady_units().is_prefix_of(self.steady_units())
        &&& self.retired_units() == pre.retired_units()
    }

    /// `post` is `pre` with fresh units for the `startup` descriptions
    /// appended to the startup sequence and fresh units for the `steady`
    /// descriptions appended to the steady sequence, in order, everything
    /// already registered left untouched: the exact effect of a plugin
    /// registration.
    pub open spec fn registered(
        pre: Self,
        post: Self,
        startup: Seq<(S, Option<u64>)>,
        steady: Seq<(S, Option<u64>)>,
    ) -> bool {
        &&& post.startup_units().len() == pre.startup_units().len() + startup.len()
        &&& forall|i: int|
            0 <= i < pre.startup_units().len() ==> #[trigger] post.startup_units()[i]
                == pre.startup_units()[i]
        &&& forall|i: int|
            0 <= i < startup.len() ==> (#[trigger] post.startup_units()[pre.startup_units().len()
                + i]).fresh(startup[i].0, startup[i].1)
        &&& post.steady_units().len() == pre.steady_units().len() + steady.len()
        &&& forall|i: int|
            0 <= i < pre.steady_units().len() ==> #[trigger] post.steady_units()[i]
                == pre.steady_units()[i]
        &&& forall|i: int|
            0 <= i < steady.len() ==> (#[trigger] post.steady_units()[pre.steady_units().len()
                + i]).fresh(steady[i].0, steady[i].1)
        &&& post.retired_units() == pre.retired_units()
    }

    /// Creates a scheduler with no units.
    pub fn new() -> (s: Self)
        ensures
            s.startup_units() == Seq::<FunctionSystem<S>>::empty(),
            s.steady_units() == Seq::<FunctionSystem<S>>::empty(),
            s.retired_units() == Seq::<FunctionSystem<S>>::empty(),
    {
        Scheduler { startup_systems: Vec::new(), systems: Vec::new(), retired: Ghost(Seq::empty()) }
    }

    /// Appends an ungated unit for `system` to the steady sequence.
    pub fn add_system(&mut self, system: S)
        ensures
            final(self).steady_units() == old(self).steady_units().push(
                final(self).steady_units().last(),
            ),
            final(self).steady_units().last().fresh(system, Option::None),
            final(self).startup_units() == old(self).startup_units(),
            final(self).retired_units() == old(self).retired_units(),
            final(self).extends(*old(self)),
    {
        self.systems.push(IntoSystem::into(system, None));
        proof {
            assert(self.systems@.drop_last() =~= old(self).systems@);
        }
    }

    /// Appends an ungated unit for `system` to the startup sequence.
    pub fn add_startup_system(&mut self, system: S)
        ensures
            final(self).startup_units() == old(self).startup_units().push(
                final(self).startup_units().last(),
            ),
            final(self).startup_units().last().fresh(system, Option::None),
            final(self).steady_units() == old(self).steady_units(),
            final(self).retired_units() == old(self).retired_units(),
            final(self).extends(*old(self)),
    {
        self.startup_systems.push(IntoSystem::into(system, None));
        proof {
            assert(self.startup_systems@.drop_last() =~= old(self).startup_systems@);
        }
    }

    /// Appends a unit for `system`, gated by a minimum re-invocation interval
    /// of `call_interval` milliseconds, to the steady sequence.
    pub fn add_interval_system(&mut self, system: S, call_interval: u64)
        ensures
            final(self).steady_units() == old(self).steady_units().push(
                final(self).steady_units().last(),
            ),
            final(self).steady_units().last().fresh(system, Option::Some(call_interval)),
            final(self).startup_units() == old(self).startup_units(),
            final(self).retired_units() == old(self).retired_units(),
            final(self).extends(*old(self)),
    {
        self.systems.push(IntoSystem::into(system, Some(call_interval)));
        proof {
            assert(self.systems@.drop_last() =~= old(self).systems@);
        }
    }

    /// Appends an externally built sequence after the existing steady units,
    /// preserving both relative orders.
    pub fn merge_systems(&mut self, systems: Vec<FunctionSystem<S>>)
        ensures
            final(self).steady_units() == old(self).steady_units() + systems@,
            final(self).startup_units() == old(self).startup_units(),
            final(self).retired_units() == old(self).retired_units(),
            final(self).extends(*old(self)),
    {
        let mut incoming = systems;
        self.systems.append(&mut incoming);
    }

    /// Appends an externally built sequence after the existing startup units,
    /// preserving both relative orders.
    pub fn merge_startup_systems(&mut self, systems: Vec<FunctionSystem<S>>)
        ensures
            final(self).startup_units() == old(self).startup_units() + systems@,
            final(self).steady_units() == old(self).steady_units(),
            final(self).retired_units() == old(self).retired_units(),
            final(self).extends(*old(self)),
    {
        let mut incoming = systems;
        self.startup_systems.append(&mut incoming);
    }

    /// Builds a fresh scheduler, hands it to `P`'s registration procedure,
    /// and flattens the result into `self`: fresh units for exactly `P`'s
    /// registrations are appended after the existing ones, in `P`'s order.
    /// Nothing is deduplicated: adding the same plugin twice appends its
    /// units twice, each with independent gating state.
    pub fn add_plugin<P: Plugin<S>>(&mut self)
        ensures
            Self::registered(
                *old(self),
                *final(self),
                P::startup_registers(),
                P::steady_registers(),
            ),
            final(self).extends(*old(self)),
    {
        let mut plugin = Scheduler::<S>::new();
        let ghost empty_builder = plugin;
        P::new(&mut plugin);
        let ghost built = plugin;
        self.merge_systems(plugin.systems);
        self.merge_startup_systems(plugin.startup_systems);
        proof {
            assert forall|i: int| 0 <= i < P::startup_registers().len() implies (
            #[trigger] self.startup_units()[old(self).startup_units().len() + i]).fresh(
                P::startup_registers()[i].0,
                P::startup_registers()[i].1,
            ) by {
                assert(built.startup_units()[empty_builder.startup_units().len() + i].fresh(
                    P::startup_registers()[i].0,
                    P::startup_registers()[i].1,
                ));
                assert(self.startup_units()[old(self).startup_units().len() + i]
                    == built.startup_units()[i]);
            }
            assert forall|i: int| 0 <= i < P::steady_registers().len() implies (
            #[trigger] self.steady_units()[old(self).steady_units().len() + i]).fresh(
                P::steady_registers()[i].0,
                P::steady_registers()[i].1,
            ) by {
                assert(built.steady_units()[empty_builder.steady_units().len() + i].fresh(
                    P::steady_registers()[i].0,
                    P::steady_registers()[i].1,
                ));
                assert(self.steady_units()[old(self).steady_units().len() + i]
                    == built.steady_units()[i]);
            }
            assert(old(self).startup_units() =~= self.startup_units().subrange(
                0,
                old(self).startup_units().len() as int,
            ));
            assert(old(self).steady_units() =~= self.steady_units().subrange(
                0,
                old(self).steady_units().len() as int,
            ));
        }
    }

    /// Runs every unit of `systems` once, in order, against `storage` at tick
    /// time `now`; each unit self-gates via its interval logic. A pass in
    /// which no unit was eligible — in particular, over no units at all —
    /// leaves the storage unchanged.
    pub fn run_systems(
        systems: &mut Vec<FunctionSystem<S>>,
        storage: &mut Storage<S::Comp>,
        now: u64,
    )
        requires
            old(storage).wf(),
        ensures
            final(storage).wf(),
            final(systems)@.len() == old(systems)@.len(),
            forall|i: int|
                0 <= i < old(systems)@.len() ==> FunctionSystem::stepped(
                    old(systems)@[i],
                    #[trigger] final(systems)@[i],
                    now,
                ),
            (forall|i: int|
                0 <= i < old(systems)@.len() ==> !(#[trigger] old(systems)@[i]).gate_open(now))
                ==> *final(storage) == *old(storage),
    {
        let n = systems.len();
        let mut i: usize = 0;
        while i < n
            invariant
                i <= n,
                n == systems@.len(),
                n == old(systems)@.len(),
                storage.wf(),
                forall|k: int|
                    0 <= k < i ==> FunctionSystem::stepped(
                        old(systems)@[k],
                        #[trigger] systems@[k],
                        now,
                    ),
                forall|k: int| i <= k < n ==> systems@[k] == old(systems)@[k],
                (forall|k: int| 0 <= k < i ==> !(#[trigger] old(systems)@[k]).gate_open(now))
                    ==> *storage == *old(storage),
            decreases n - i,
        {
            let unit = &mut systems[i];
            unit.run(storage, now);
            i += 1;
        }
    }

    /// The effect of one tick at time `now`: every startup unit executed once
    /// and moved to the retired record, every steady unit stepped under its
    /// own gate, and the startup sequence left empty.
    pub open spec fn ran_at(pre: Self, post: Self, now: u64) -> bool {
        &&& post.startup_units().len() == 0
        &&& post.retired_units().len() == pre.retired_units().len() + pre.startup_units().len()
        &&& forall|i: int|
            0 <= i < pre.retired_units().len() ==> #[trigger] post.retired_units()[i]
                == pre.retired_units()[i]
        &&& forall|i: int|
            0 <= i < pre.startup_units().len() ==> FunctionSystem::stepped(
                pre.startup_units()[i],
                #[trigger] post.retired_units()[pre.retired_units().len() + i],
                now,
            )
        &&& post.steady_units().len() == pre.steady_units().len()
        &&& forall|i: int|
            0 <= i < pre.steady_units().len() ==> FunctionSystem::stepped(
                pre.steady_units()[i],
                #[trigger] post.steady_units()[i],
                now,
            )
    }

    /// One tick: executes every startup unit once, in registration order,
    /// then every steady unit under its own interval gate, then empties the
    /// startup sequence so it can never run again for this scheduler.
    ///
    /// The tick time is read from the wall clock, so it is existentially
    /// quantified: everything stated holds whatever the clock returned.
    pub fn run(&mut self, storage: &mut Storage<S::Comp>)
        requires
            old(storage).wf(),
        ensures
            final(storage).wf(),
            exists|now: u64| Self::ran_at(*old(self), *final(self), now),
            final(self).startup_units().len() == 0,
            final(self).steady_units().len() == old(self).steady_units().len(),
            final(self).retired_units().len() == old(self).retired_units().len() + old(
                self,
            ).startup_units().len(),
            old(self).startup_units().len() == 0 && old(self).steady_units().len() == 0
                ==> *final(storage) == *old(storage),
    {
        let now = now_millis();
        Self::run_systems(&mut self.startup_systems, storage, now);
        Self::run_systems(&mut self.systems, storage, now);
        self.retired = Ghost(self.retired@ + self.startup_systems@);
        self.startup_systems.clear();
        proof {
            assert(Self::ran_at(*old(self), *self, now));
        }
    }
}

/// Startup-once law: over two consecutive ticks, every startup unit present
/// at the first tick executes exactly once in total — once at the first tick,
/// where it retires, and never again — while every ungated steady unit
/// executes on both ticks.
pub proof fn lemma_startup_once<S: System>(
    s0: Scheduler<S>,
    s1: Scheduler<S>,
    s2: Scheduler<S>,
    n1: u64,
    n2: u64,
)
    requires
        Scheduler::ran_at(s0, s1, n1),
        Scheduler::ran_at(s1, s2, n2),
        forall|i: int|
            0 <= i < s0.startup_units().len() ==> (#[trigger] s0.startup_units()[i]).next_eligible()
                == 0,
    ensures
        s2.retired_units() == s1.retired_units(),
        forall|i: int|
            0 <= i < s0.startup_units().len() ==> (#[trigger] s2.retired_units()[s0.retired_units().len()
                + i]).runs() == s0.startup_units()[i].runs() + 1,
        forall|i: int|
            0 <= i < s0.steady_units().len() && (#[trigger] s0.steady_units()[i]).interval()
                is None ==> s2.steady_units()[i].runs() == s0.steady_units()[i].runs() + 2,
{
    assert(s2.retired_units() =~= s1.retired_units());
    assert forall|i: int| 0 <= i < s0.startup_units().len() implies (
    #[trigger] s2.retired_units()[s0.retired_units().len() + i]).runs() == s0.startup_units()[i].runs()
        + 1 by {
        let pre = s0.startup_units()[i];
        let post = s1.retired_units()[s0.retired_units().len() + i];
        assert(FunctionSystem::stepped(pre, post, n1));
        assert(pre.gate_open(n1));
    }
}

/// Interval gating law: a unit with interval `d` that executes at tick time
/// `t0` is gated against every later tick before `t0 + d` and open again at
/// every tick at or after `t0 + d`.
pub proof fn lemma_interval_gating<S: System>(
    pre: FunctionSystem<S>,
    post: FunctionSystem<S>,
    d: u64,
    t0: u64,
    now: u64,
)
    requires
        pre.interval() == Option::Some(d),
        pre.gate_open(t0),
        FunctionSystem::stepped(pre, post, t0),
        t0 + d <= u64::MAX,
    ensures
        post.gate_open(now) <==> now >= t0 + d,
{
}

/// Plugin flattening law: registering one bundle of units and then a second
/// appends the first bundle in full before the second, each with its internal
/// order preserved, after everything already registered — so flattening
/// nested plugins keeps registration order.
pub proof fn lemma_plugin_flattening<S: System>(
    s0: Scheduler<S>,
    s1: Scheduler<S>,
    s2: Scheduler<S>,
)
    requires
        s1.extends(s0),
        s2.extends(s1),
    ensures
        s2.extends(s0),
        s2.steady_units() == s0.steady_units() + s1.steady_units().skip(
            s0.steady_units().len() as int,
        ) + s2.steady_units().skip(s1.steady_units().len() as int),
        s2.startup_units() == s0.startup_units() + s1.startup_units().skip(
            s0.startup_units().len() as int,
        ) + s2.startup_units().skip(s1.startup_units().len() as int),
{
    assert(s0.steady_units().is_prefix_of(s2.steady_units()));
    assert(s0.startup_units().is_prefix_of(s2.startup_units()));
    assert(s2.steady_units() =~= s0.steady_units() + s1.steady_units().skip(
        s0.steady_units().len() as int,
    ) + s2.steady_units().skip(s1.steady_units().len() as int));
    assert(s2.startup_units() =~= s0.startup_units() + s1.startup_units().skip(
        s0.startup_units().len() as int,
    ) + s2.startup_units().skip(s1.startup_units().len() as int));
}

/// Registration composes: registering one plugin's descriptions and then
/// another's is one registration of the concatenated descriptions — the
/// first plugin's units stand in full before the second's, each in its own
/// internal order.
pub proof fn lemma_registered_compose<S: System>(
    s0: Scheduler<S>,
    s1: Scheduler<S>,
    s2: Scheduler<S>,
    startup1: Seq<(S, Option<u64>)>,
    steady1: Seq<(S, Option<u64>)>,
    startup2: Seq<(S, Option<u64>)>,
    steady2: Seq<(S, Option<u64>)>,
)
    requires
        Scheduler::registered(s0, s1, startup1, steady1),
        Scheduler::registered(s1, s2, startup2, steady2),
    ensures
        Scheduler::registered(s0, s2, startup1 + startup2, steady1 + steady2),
{
    assert forall|i: int| 0 <= i < (startup1 + startup2).len() implies (
    #[trigger] s2.startup_units()[s0.startup_units().len() + i]).fresh(
        (startup1 + startup2)[i].0,
        (startup1 + startup2)[i].1,
    ) by {
        if i < startup1.len() {
            assert(s2.startup_units()[s0.startup_units().len() + i] == s1.startup_units()[s0.startup_units().len()
                + i]);
            assert((startup1 + startup2)[i] == startup1[i]);
        } else {
            assert(s2.startup_units()[s1.startup_units().len() + (i - startup1.len())].fresh(
                startup2[i - startup1.len()].0,
                startup2[i - startup1.len()].1,
            ));
            assert((startup1 + startup2)[i] == startup2[i - startup1.len()]);
        }
    }
    assert forall|i: int| 0 <= i < (steady1 + steady2).len() implies (
    #[trigger] s2.steady_units()[s0.steady_units().len() + i]).fresh(
        (steady1 + steady2)[i].0,
        (steady1 + steady2)[i].1,
    ) by {
        if i < steady1.len() {
            assert(s2.steady_units()[s0.steady_units().len() + i] == s1.steady_units()[s0.steady_units().len()
                + i]);
            assert((steady1 + steady2)[i] == steady1[i]);
        } else {
            assert(s2.steady_units()[s1.steady_units().len() + (i - steady1.len())].fresh(
                steady2[i - steady1.len()].0,
                steady2[i - steady1.len()].1,
            ));
            assert((steady1 + steady2)[i] == steady2[i - steady1.len()]);
        }
    }
}

/// Relies on std::time::SystemTime::now and SystemTime::duration_since: the
/// wall-clock time since the Unix epoch, in milliseconds, saturating at the
/// largest representable value. Nothing is promised of the reading; interval
/// gating states what holds for every value. Aborts if the host clock reads
/// before the epoch, mirroring the fatal clock-failure policy.
#[verifier::external_body]
fn now_millis() -> u64 {
    let since = std::time::SystemTime::now().duration_since(std::time::UNIX_EPOCH);
    let ms = since.expect("the wall clock reads before the Unix epoch").as_millis();
    if ms > u64::MAX as u128 {
        u64::MAX
    } else {
        ms as u64
    }
}

} // verus!

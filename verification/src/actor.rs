//! The actor runtime, as a state machine.
//!
//! An actor owns a FIFO mailbox and a set of registered monitors
//! (death-watches), and is kept alive by the external clones of its port.
//! The operations here are the decisions of the runtime: what a `send`
//! does, what happens when an actor terminates — by returning, by abort,
//! or by panic — and when the reference count shuts an actor down. The
//! shell that actually spawns tasks performs each transition through these
//! functions, so the ordering and delivery rules proved here are the rules
//! of the running system.

use vstd::prelude::*;

verus! {

/// How an actor's task stands: still running, or finished by one of the
/// three termination paths.
#[derive(Clone, Copy, PartialEq, Eq, Structural)]
pub enum Liveness {
    Running,
    Returned,
    Aborted,
    Panicked,
}

/// Identifier of one monitor registration, for cancellation.
#[derive(Clone, Copy, PartialEq, Eq, Structural)]
pub struct MonitorId {
    id: u64,
}

impl View for MonitorId {
    type V = u64;

    closed spec fn view(&self) -> u64 {
        self.id
    }
}

impl MonitorId {
    /// Draws the next identifier from a monotonically increasing counter,
    /// so every registration in a process gets its own.
    pub fn new(counter: &mut u64) -> (r: MonitorId)
        requires
            *old(counter) < u64::MAX,
        ensures
            r@ == *old(counter),
            *final(counter) == *old(counter) + 1,
    {
        let id = *counter;
        *counter = *counter + 1;
        MonitorId { id }
    }
}

/// One registered monitor: when the actor carrying this entry terminates,
/// `command` is sent to the mailbox of actor `watcher`.
pub struct MonitorEntry<C> {
    pub id: u64,
    pub watcher: usize,
    pub command: C,
}

/// One actor of the system.
pub struct ActorModel<C> {
    /// Commands accepted and not yet processed, oldest first.
    pub mailbox: Vec<C>,
    /// Every command ever accepted, in arrival order.
    pub sent: Ghost<Seq<C>>,
    /// Every command processed so far, in processing order.
    pub processed: Ghost<Seq<C>>,
    /// Whether the actor still runs, and how it ended if not.
    pub liveness: Liveness,
    /// Registered death-watches, in registration order.
    pub monitors: Vec<MonitorEntry<C>>,
    /// How many port clones are held outside the actor's own task.
    pub external_ports: usize,
}

/// The mathematical state of one actor.
pub struct ActorView<C> {
    pub mailbox: Seq<C>,
    pub sent: Seq<C>,
    pub processed: Seq<C>,
    pub liveness: Liveness,
    pub monitors: Seq<MonitorEntry<C>>,
    pub external_ports: nat,
}

impl<C> View for ActorModel<C> {
    type V = ActorView<C>;

    open spec fn view(&self) -> ActorView<C> {
        ActorView {
            mailbox: self.mailbox@,
            sent: self.sent@,
            processed: self.processed@,
            liveness: self.liveness,
            monitors: self.monitors@,
            external_ports: self.external_ports as nat,
        }
    }
}

/// An actor's bookkeeping is consistent: what was accepted is what was
/// processed followed by what still waits, a terminated actor holds no
/// monitors (they fired when it ended), and every entry points at an
/// actor of the system and carries an identifier below the counter.
pub open spec fn actor_wf<C>(a: ActorView<C>, n_actors: int, next_id: u64) -> bool {
    &&& a.sent == a.processed + a.mailbox
    &&& (!(a.liveness is Running) ==> a.monitors.len() == 0)
    &&& forall|i: int|
        0 <= i < a.monitors.len() ==> (#[trigger] a.monitors[i]).watcher < n_actors
            && a.monitors[i].id < next_id
}

/// The supervised actor system.
pub struct ActorSystem<C> {
    actors: Vec<ActorModel<C>>,
    monitor_counter: u64,
}

impl<C> View for ActorSystem<C> {
    type V = Seq<ActorView<C>>;

    closed spec fn view(&self) -> Seq<ActorView<C>> {
        self.actors@.map_values(|m: ActorModel<C>| m@)
    }
}

impl<C> ActorSystem<C> {
    pub open spec fn wf(self) -> bool {
        forall|a: int|
            0 <= a < self@.len() ==> actor_wf(
                #[trigger] self@[a],
                self@.len() as int,
                self.spec_monitor_counter(),
            )
    }

    pub closed spec fn spec_monitor_counter(self) -> u64 {
        self.monitor_counter
    }

    /// An empty system.
    pub fn new() -> (s: ActorSystem<C>)
        ensures
            s.wf(),
            s@.len() == 0,
            s.spec_monitor_counter() == 0,
    {
        ActorSystem { actors: Vec::new(), monitor_counter: 0 }
    }

    pub fn len(&self) -> (n: usize)
        ensures
            n == self@.len(),
    {
        self.actors.len()
    }

    /// Whether actor `a` still runs.
    pub fn is_running(&self, a: usize) -> (r: bool)
        requires
            a < self@.len(),
        ensures
            r == (self@[a as int].liveness is Running),
    {
        match self.actors[a].liveness {
            Liveness::Running => true,
            _ => false,
        }
    }

    /// Starts a new actor: empty mailbox, no monitors, one external port.
    pub fn spawn(&mut self) -> (a: usize)
        requires
            old(self).wf(),
        ensures
            final(self).wf(),
            a == old(self)@.len(),
            final(self)@.len() == old(self)@.len() + 1,
            forall|b: int| 0 <= b < a ==> final(self)@[b] == old(self)@[b],
            final(self)@[a as int].mailbox =~= Seq::<C>::empty(),
            final(self)@[a as int].sent =~= Seq::<C>::empty(),
            final(self)@[a as int].processed =~= Seq::<C>::empty(),
            final(self)@[a as int].liveness is Running,
            final(self)@[a as int].monitors =~= Seq::<MonitorEntry<C>>::empty(),
            final(self)@[a as int].external_ports == 1,
            final(self).spec_monitor_counter() == old(self).spec_monitor_counter(),
    {
        let a = self.actors.len();
        self.actors.push(
            ActorModel {
                mailbox: Vec::new(),
                sent: Ghost(Seq::empty()),
                processed: Ghost(Seq::empty()),
                liveness: Liveness::Running,
                monitors: Vec::new(),
                external_ports: 1,
            },
        );
        proof {
            assert forall|b: int| 0 <= b < self@.len() implies actor_wf(
                #[trigger] self@[b],
                self@.len() as int,
                self.spec_monitor_counter(),
            ) by {
                if b < a {
                    assert(old(self)@[b] == self@[b]);
                    assert(actor_wf(
                        old(self)@[b],
                        old(self)@.len() as int,
                        old(self).spec_monitor_counter(),
                    ));
                } else {
                    assert(self@[b].sent =~= self@[b].processed + self@[b].mailbox);
                }
            }
        }
        a
    }

    /// Sends a command: enqueued in arrival order while the actor runs,
    /// returned to the caller once it has terminated.
    pub fn send(&mut self, a: usize, c: C) -> (r: Result<(), C>)
        requires
            old(self).wf(),
            a < old(self)@.len(),
        ensures
            final(self).wf(),
            final(self)@.len() == old(self)@.len(),
            final(self).spec_monitor_counter() == old(self).spec_monitor_counter(),
            forall|b: int| 0 <= b < old(self)@.len() && b != a ==> final(self)@[b] == old(self)@[b],
            match r {
                Ok(_) => {
                    &&& old(self)@[a as int].liveness is Running
                    &&& final(self)@[a as int].mailbox == old(self)@[a as int].mailbox.push(c)
                    &&& final(self)@[a as int].sent == old(self)@[a as int].sent.push(c)
                    &&& final(self)@[a as int].processed == old(self)@[a as int].processed
                    &&& final(self)@[a as int].liveness == old(self)@[a as int].liveness
                    &&& final(self)@[a as int].monitors == old(self)@[a as int].monitors
                    &&& final(self)@[a as int].external_ports == old(
                        self,
                    )@[a as int].external_ports
                },
                Err(cc) => {
                    &&& !(old(self)@[a as int].liveness is Running)
                    &&& cc == c
                    &&& final(self)@[a as int] == old(self)@[a as int]
                },
            },
    {
        let running = self.is_running(a);
        if !running {
            proof {
                assert(self@ =~= old(self)@);
            }
            return Err(c);
        }
        let mut actor = self.actors.remove(a);
        actor.mailbox.push(c);
        proof {
            actor.sent@ = actor.sent@.push(c);
        }
        self.actors.insert(a, actor);
        proof {
            assert(self@ =~= old(self)@.update(a as int, self@[a as int]));
            assert(self@[a as int].sent =~= self@[a as int].processed + self@[a as int].mailbox);
            assert forall|b: int| 0 <= b < self@.len() implies actor_wf(
                #[trigger] self@[b],
                self@.len() as int,
                self.spec_monitor_counter(),
            ) by {
                assert(actor_wf(
                    old(self)@[b],
                    old(self)@.len() as int,
                    old(self).spec_monitor_counter(),
                ));
            }
        }
        Ok(())
    }

    /// Takes the next command for processing: the head of the mailbox,
    /// while the actor runs and work is pending.
    pub fn process_next(&mut self, a: usize) -> (r: Option<C>)
        requires
            old(self).wf(),
            a < old(self)@.len(),
        ensures
            final(self).wf(),
            final(self)@.len() == old(self)@.len(),
            final(self).spec_monitor_counter() == old(self).spec_monitor_counter(),
            forall|b: int| 0 <= b < old(self)@.len() && b != a ==> final(self)@[b] == old(self)@[b],
            if old(self)@[a as int].liveness is Running && old(self)@[a as int].mailbox.len() > 0 {
                match r {
                    Option::Some(c) => {
                        &&& c == old(self)@[a as int].mailbox[0]
                        &&& final(self)@[a as int].mailbox == old(
                            self,
                        )@[a as int].mailbox.drop_first()
                        &&& final(self)@[a as int].processed == old(
                            self,
                        )@[a as int].processed.push(c)
                        &&& final(self)@[a as int].sent == old(self)@[a as int].sent
                        &&& final(self)@[a as int].liveness == old(self)@[a as int].liveness
                        &&& final(self)@[a as int].monitors == old(self)@[a as int].monitors
                        &&& final(self)@[a as int].external_ports == old(
                            self,
                        )@[a as int].external_ports
                    },
                    Option::None => false,
                }
            } else {
                r is None && final(self)@[a as int] == old(self)@[a as int]
            },
    {
        let running = self.is_running(a);
        if !running || self.actors[a].mailbox.len() == 0 {
            proof {
                assert(self@ =~= old(self)@);
            }
            return None;
        }
        let mut actor = self.actors.remove(a);
        let c = actor.mailbox.remove(0);
        proof {
            actor.processed@ = actor.processed@.push(c);
        }
        self.actors.insert(a, actor);
        proof {
            assert(self@ =~= old(self)@.update(a as int, self@[a as int]));
            assert(old(self)@[a as int].mailbox.drop_first() =~= old(
                self,
            )@[a as int].mailbox.skip(1));
            assert(self@[a as int].sent =~= self@[a as int].processed + self@[a as int].mailbox);
            assert forall|b: int| 0 <= b < self@.len() implies actor_wf(
                #[trigger] self@[b],
                self@.len() as int,
                self.spec_monitor_counter(),
            ) by {
                assert(actor_wf(
                    old(self)@[b],
                    old(self)@.len() as int,
                    old(self).spec_monitor_counter(),
                ));
            }
        }
        Some(c)
    }
}

/// Commands are processed first-in first-out: what an actor has processed
/// is exactly the oldest prefix of what was accepted, and every accepted,
/// still unprocessed command waits in the mailbox at its arrival position.
pub proof fn lemma_fifo_order<C>(sys: ActorSystem<C>, a: int)
    requires
        sys.wf(),
        0 <= a < sys@.len(),
    ensures
        sys@[a].processed == sys@[a].sent.take(sys@[a].processed.len() as int),
        forall|i: int|
            sys@[a].processed.len() <= i < sys@[a].sent.len() ==> #[trigger] sys@[a].sent[i]
                == sys@[a].mailbox[i - sys@[a].processed.len()],
{
    assert(sys@[a].sent == sys@[a].processed + sys@[a].mailbox);
    assert(sys@[a].processed =~= sys@[a].sent.take(sys@[a].processed.len() as int));
}


/// The view of `v` with one more registered monitor.
pub open spec fn with_monitor<C>(v: ActorView<C>, e: MonitorEntry<C>) -> ActorView<C> {
    ActorView {
        mailbox: v.mailbox,
        sent: v.sent,
        processed: v.processed,
        liveness: v.liveness,
        monitors: v.monitors.push(e),
        external_ports: v.external_ports,
    }
}

/// The view of `v` with a different external port count.
pub open spec fn with_ports<C>(v: ActorView<C>, n: nat) -> ActorView<C> {
    ActorView {
        mailbox: v.mailbox,
        sent: v.sent,
        processed: v.processed,
        liveness: v.liveness,
        monitors: v.monitors,
        external_ports: n,
    }
}

/// The view of `v` at the moment its task ends with `outcome`: the
/// monitors are taken out to be fired.
pub open spec fn terminated_view<C>(v: ActorView<C>, outcome: Liveness) -> ActorView<C> {
    ActorView {
        mailbox: v.mailbox,
        sent: v.sent,
        processed: v.processed,
        liveness: outcome,
        monitors: Seq::empty(),
        external_ports: v.external_ports,
    }
}

/// Firing one monitor: its command is accepted into the watcher's mailbox
/// exactly when the watcher still runs; a send to a dead watcher is
/// dropped, as every send to a dead actor is.
pub open spec fn deliver_one<C>(views: Seq<ActorView<C>>, e: MonitorEntry<C>) -> Seq<ActorView<C>> {
    if 0 <= e.watcher < views.len() && views[e.watcher as int].liveness is Running {
        let w = views[e.watcher as int];
        views.update(
            e.watcher as int,
            ActorView {
                mailbox: w.mailbox.push(e.command),
                sent: w.sent.push(e.command),
                processed: w.processed,
                liveness: w.liveness,
                monitors: w.monitors,
                external_ports: w.external_ports,
            },
        )
    } else {
        views
    }
}

/// Firing a list of monitors, in registration order.
pub open spec fn deliver_all<C>(views: Seq<ActorView<C>>, es: Seq<MonitorEntry<C>>) -> Seq<
    ActorView<C>,
>
    decreases es.len(),
{
    if es.len() == 0 {
        views
    } else {
        deliver_all(deliver_one(views, es[0]), es.drop_first())
    }
}

/// The commands that entries watching `w` carry, in registration order.
pub open spec fn commands_for<C>(es: Seq<MonitorEntry<C>>, w: int) -> Seq<C>
    decreases es.len(),
{
    if es.len() == 0 {
        Seq::empty()
    } else {
        let rest = commands_for(es.drop_first(), w);
        if es[0].watcher == w {
            seq![es[0].command] + rest
        } else {
            rest
        }
    }
}

/// Every registered monitor fires exactly once when its actor terminates:
/// a watcher that still runs receives exactly the commands of its entries,
/// appended in registration order, and a watcher that has already died
/// receives nothing; no other part of any actor changes.
pub proof fn lemma_deliver_all_effect<C>(
    views: Seq<ActorView<C>>,
    es: Seq<MonitorEntry<C>>,
    w: int,
)
    requires
        0 <= w < views.len(),
    ensures
        deliver_all(views, es).len() == views.len(),
        deliver_all(views, es)[w].liveness == views[w].liveness,
        deliver_all(views, es)[w].processed == views[w].processed,
        deliver_all(views, es)[w].monitors == views[w].monitors,
        deliver_all(views, es)[w].external_ports == views[w].external_ports,
        views[w].liveness is Running ==> deliver_all(views, es)[w].mailbox == views[w].mailbox
            + commands_for(es, w) && deliver_all(views, es)[w].sent == views[w].sent
            + commands_for(es, w),
        !(views[w].liveness is Running) ==> deliver_all(views, es)[w] == views[w],
    decreases es.len(),
{
    if es.len() == 0 {
        assert(views[w].mailbox + commands_for(es, w) =~= views[w].mailbox);
        assert(views[w].sent + commands_for(es, w) =~= views[w].sent);
    } else {
        let v1 = deliver_one(views, es[0]);
        lemma_deliver_all_effect(v1, es.drop_first(), w);
        if views[w].liveness is Running {
            assert(v1[w].mailbox + commands_for(es.drop_first(), w) =~= views[w].mailbox
                + commands_for(es, w));
            assert(v1[w].sent + commands_for(es.drop_first(), w) =~= views[w].sent + commands_for(
                es,
                w,
            ));
        }
    }
}

/// Registered monitors with `id` taken out, order kept.
pub open spec fn without_id<C>(es: Seq<MonitorEntry<C>>, id: u64) -> Seq<MonitorEntry<C>>
    decreases es.len(),
{
    if es.len() == 0 {
        Seq::empty()
    } else if es[0].id == id {
        without_id(es.drop_first(), id)
    } else {
        seq![es[0]] + without_id(es.drop_first(), id)
    }
}

/// Removing an entry keeps the remaining entries' bounds.
pub proof fn lemma_without_id_bounds<C>(es: Seq<MonitorEntry<C>>, id: u64, n: int, next: u64)
    requires
        forall|i: int|
            0 <= i < es.len() ==> (#[trigger] es[i]).watcher < n && es[i].id < next,
    ensures
        without_id(es, id).len() <= es.len(),
        forall|i: int|
            0 <= i < without_id(es, id).len() ==> (#[trigger] without_id(es, id)[i]).watcher < n
                && without_id(es, id)[i].id < next,
    decreases es.len(),
{
    if es.len() > 0 {
        let t = es.drop_first();
        assert forall|i: int| 0 <= i < t.len() implies (#[trigger] t[i]).watcher < n && t[i].id
            < next by {
            assert(t[i] == es[i + 1]);
        }
        lemma_without_id_bounds(t, id, n, next);
    }
}

/// A cancellable handle to one monitor registration.
pub struct MonitorHandle {
    pub monitor_id: MonitorId,
    pub target: usize,
}

impl MonitorHandle {
    /// Cancels this registration on the actor that carries it.
    pub fn cancel<C>(self, sys: &mut ActorSystem<C>)
        requires
            old(sys).wf(),
            self.target < old(sys)@.len(),
        ensures
            final(sys).wf(),
            final(sys)@.len() == old(sys)@.len(),
            final(sys).spec_monitor_counter() == old(sys).spec_monitor_counter(),
            forall|b: int|
                0 <= b < old(sys)@.len() && b != self.target ==> final(sys)@[b] == old(sys)@[b],
            final(sys)@[self.target as int].monitors == without_id(
                old(sys)@[self.target as int].monitors,
                self.monitor_id@,
            ),
            final(sys)@[self.target as int].mailbox == old(sys)@[self.target as int].mailbox,
            final(sys)@[self.target as int].liveness == old(sys)@[self.target as int].liveness,
    {
        sys.demonitor(self.target, self.monitor_id);
    }
}

impl<C> ActorSystem<C> {
    /// Ends actor `a`'s task with `outcome` — a normal return, an abort,
    /// or a panic — and fires every registered monitor exactly once, in
    /// registration order. All three termination paths converge here.
    pub fn terminate(&mut self, a: usize, outcome: Liveness)
        requires
            old(self).wf(),
            a < old(self)@.len(),
            !(outcome is Running),
            old(self)@[a as int].liveness is Running,
        ensures
            final(self).wf(),
            final(self)@.len() == old(self)@.len(),
            final(self).spec_monitor_counter() == old(self).spec_monitor_counter(),
            final(self)@ == deliver_all(
                old(self)@.update(a as int, terminated_view(old(self)@[a as int], outcome)),
                old(self)@[a as int].monitors,
            ),
            final(self)@[a as int].liveness == outcome,
            final(self)@[a as int].monitors.len() == 0,
    {
        let mut actor = self.actors.remove(a);
        let mut entries = actor.monitors;
        actor.monitors = Vec::new();
        actor.liveness = outcome;
        self.actors.insert(a, actor);
        let ghost base = self@;
        let ghost all_entries = entries@;
        proof {
            assert(base =~= old(self)@.update(
                a as int,
                terminated_view(old(self)@[a as int], outcome),
            ));
            assert forall|b: int| 0 <= b < self@.len() implies actor_wf(
                #[trigger] self@[b],
                self@.len() as int,
                self.spec_monitor_counter(),
            ) by {
                assert(actor_wf(
                    old(self)@[b],
                    old(self)@.len() as int,
                    old(self).spec_monitor_counter(),
                ));
                assert(self@[b].sent =~= self@[b].processed + self@[b].mailbox);
            }
            assert(entries@ == old(self)@[a as int].monitors);
            assert(actor_wf(
                old(self)@[a as int],
                old(self)@.len() as int,
                old(self).spec_monitor_counter(),
            ));
            assert forall|k: int| 0 <= k < entries@.len() implies (#[trigger] entries@[k]).watcher
                < self@.len() by {
                assert(old(self)@[a as int].monitors[k].watcher < old(self)@.len());
            }
        }
        while entries.len() > 0
            invariant
                self.wf(),
                self@.len() == old(self)@.len(),
                self.spec_monitor_counter() == old(self).spec_monitor_counter(),
                self@[a as int].liveness == outcome,
                !(outcome is Running),
                self@[a as int].monitors.len() == 0,
                a < self@.len(),
                forall|k: int|
                    0 <= k < entries@.len() ==> (#[trigger] entries@[k]).watcher < self@.len(),
                deliver_all(base, all_entries) == deliver_all(self@, entries@),
            decreases entries@.len(),
        {
            let ghost views_before = self@;
            let ghost entries_before = entries@;
            let e = entries.remove(0);
            let ghost ge = e;
            proof {
                assert(entries@ =~= entries_before.drop_first());
            }
            let w_idx = e.watcher;
            let running = self.is_running(w_idx);
            if running {
                let mut wactor = self.actors.remove(w_idx);
                wactor.mailbox.push(e.command);
                proof {
                    wactor.sent@ = wactor.sent@.push(ge.command);
                }
                self.actors.insert(w_idx, wactor);
                proof {
                    assert(self@ =~= deliver_one(views_before, ge));
                    assert forall|b: int| 0 <= b < self@.len() implies actor_wf(
                        #[trigger] self@[b],
                        self@.len() as int,
                        self.spec_monitor_counter(),
                    ) by {
                        assert(actor_wf(
                            views_before[b],
                            views_before.len() as int,
                            self.spec_monitor_counter(),
                        ));
                        assert(self@[b].sent =~= self@[b].processed + self@[b].mailbox);
                    }
                }
            } else {
                proof {
                    assert(self@ =~= deliver_one(views_before, ge));
                }
            }
        }
        proof {
            assert(entries@ =~= Seq::<MonitorEntry<C>>::empty());
            assert(deliver_all(self@, entries@) == self@);
        }
    }

    /// Registers a death-watch: when actor `target` terminates, `c` is
    /// sent to actor `watcher`. If `target` is already dead, the monitor
    /// fires synchronously, during this registration. Either way the
    /// identifier drawn is fresh.
    pub fn monitor(&mut self, watcher: usize, target: usize, c: C) -> (h: MonitorHandle)
        requires
            old(self).wf(),
            watcher < old(self)@.len(),
            target < old(self)@.len(),
            old(self).spec_monitor_counter() < u64::MAX,
        ensures
            final(self).wf(),
            final(self)@.len() == old(self)@.len(),
            final(self).spec_monitor_counter() == old(self).spec_monitor_counter() + 1,
            h.target == target,
            h.monitor_id@ == old(self).spec_monitor_counter(),
            old(self)@[target as int].liveness is Running ==> final(self)@ == old(self)@.update(
                target as int,
                with_monitor(
                    old(self)@[target as int],
                    (MonitorEntry {
                        id: old(self).spec_monitor_counter(),
                        watcher,
                        command: c,
                    }),
                ),
            ),
            !(old(self)@[target as int].liveness is Running) ==> final(self)@ == deliver_one(
                old(self)@,
                (MonitorEntry { id: old(self).spec_monitor_counter(), watcher, command: c }),
            ),
    {
        let monitor_id = MonitorId::new(&mut self.monitor_counter);
        let entry = MonitorEntry { id: monitor_id.id, watcher, command: c };
        let ghost gentry = entry;
        let running = self.is_running(target);
        if running {
            let mut actor = self.actors.remove(target);
            actor.monitors.push(entry);
            self.actors.insert(target, actor);
            proof {
                assert(self@ =~= old(self)@.update(
                    target as int,
                    with_monitor(old(self)@[target as int], gentry),
                ));
                assert forall|b: int| 0 <= b < self@.len() implies actor_wf(
                    #[trigger] self@[b],
                    self@.len() as int,
                    self.spec_monitor_counter(),
                ) by {
                    assert(actor_wf(
                        old(self)@[b],
                        old(self)@.len() as int,
                        old(self).spec_monitor_counter(),
                    ));
                    assert(self@[b].sent =~= self@[b].processed + self@[b].mailbox);
                }
            }
        } else {
            let w_running = self.is_running(watcher);
            if w_running {
                let mut wactor = self.actors.remove(watcher);
                wactor.mailbox.push(entry.command);
                proof {
                    wactor.sent@ = wactor.sent@.push(gentry.command);
                }
                self.actors.insert(watcher, wactor);
                proof {
                    assert(self@ =~= deliver_one(old(self)@, gentry));
                    assert forall|b: int| 0 <= b < self@.len() implies actor_wf(
                        #[trigger] self@[b],
                        self@.len() as int,
                        self.spec_monitor_counter(),
                    ) by {
                        assert(actor_wf(
                            old(self)@[b],
                            old(self)@.len() as int,
                            old(self).spec_monitor_counter(),
                        ));
                        assert(self@[b].sent =~= self@[b].processed + self@[b].mailbox);
                    }
                }
            } else {
                proof {
                    assert(self@ =~= deliver_one(old(self)@, gentry));
                    assert forall|b: int| 0 <= b < self@.len() implies actor_wf(
                        #[trigger] self@[b],
                        self@.len() as int,
                        self.spec_monitor_counter(),
                    ) by {
                        assert(actor_wf(
                            old(self)@[b],
                            old(self)@.len() as int,
                            old(self).spec_monitor_counter(),
                        ));
                    }
                }
            }
        }
        MonitorHandle { monitor_id, target }
    }

    /// Cancels the monitor registration `id` on actor `target`; every
    /// other registration stays, in order.
    pub fn demonitor(&mut self, target: usize, id: MonitorId)
        requires
            old(self).wf(),
            target < old(self)@.len(),
        ensures
            final(self).wf(),
            final(self)@.len() == old(self)@.len(),
            final(self).spec_monitor_counter() == old(self).spec_monitor_counter(),
            forall|b: int|
                0 <= b < old(self)@.len() && b != target ==> final(self)@[b] == old(self)@[b],
            final(self)@[target as int].mailbox == old(self)@[target as int].mailbox,
            final(self)@[target as int].sent == old(self)@[target as int].sent,
            final(self)@[target as int].processed == old(self)@[target as int].processed,
            final(self)@[target as int].liveness == old(self)@[target as int].liveness,
            final(self)@[target as int].external_ports == old(self)@[target as int].external_ports,
            final(self)@[target as int].monitors == without_id(
                old(self)@[target as int].monitors,
                id@,
            ),
    {
        let mut actor = self.actors.remove(target);
        let mut entries = actor.monitors;
        actor.monitors = Vec::new();
        let ghost all_entries = entries@;
        proof {
            assert(actor.monitors@ + without_id(entries@, id@) =~= without_id(all_entries, id@));
        }
        while entries.len() > 0
            invariant
                actor.mailbox@ == old(self)@[target as int].mailbox,
                actor.sent@ == old(self)@[target as int].sent,
                actor.processed@ == old(self)@[target as int].processed,
                actor.liveness == old(self)@[target as int].liveness,
                actor.external_ports == old(self)@[target as int].external_ports,
                actor.monitors@ + without_id(entries@, id@) == without_id(all_entries, id@),
            decreases entries@.len(),
        {
            let ghost entries_before = entries@;
            let e = entries.remove(0);
            let ghost ge = e;
            proof {
                assert(entries@ =~= entries_before.drop_first());
            }
            if e.id != id.id {
                let ghost ms_before = actor.monitors@;
                actor.monitors.push(e);
                proof {
                    assert(ms_before + (seq![ge] + without_id(entries@, id@)) =~= actor.monitors@
                        + without_id(entries@, id@));
                }
            }
        }
        proof {
            assert(entries@ =~= Seq::<MonitorEntry<C>>::empty());
            assert(actor.monitors@ + without_id(entries@, id@) =~= actor.monitors@);
        }
        self.actors.insert(target, actor);
        proof {
            assert(self@ =~= old(self)@.update(target as int, self@[target as int]));
            assert forall|b: int| 0 <= b < self@.len() implies actor_wf(
                #[trigger] self@[b],
                self@.len() as int,
                self.spec_monitor_counter(),
            ) by {
                assert(actor_wf(
                    old(self)@[b],
                    old(self)@.len() as int,
                    old(self).spec_monitor_counter(),
                ));
                if b == target {
                    lemma_without_id_bounds(
                        old(self)@[b].monitors,
                        id@,
                        old(self)@.len() as int,
                        old(self).spec_monitor_counter(),
                    );
                }
            }
        }
    }

    /// Forcibly cancels actor `a`'s task; a dead actor is left as it is.
    pub fn abort(&mut self, a: usize)
        requires
            old(self).wf(),
            a < old(self)@.len(),
        ensures
            final(self).wf(),
            final(self)@.len() == old(self)@.len(),
            final(self).spec_monitor_counter() == old(self).spec_monitor_counter(),
            old(self)@[a as int].liveness is Running ==> final(self)@ == deliver_all(
                old(self)@.update(
                    a as int,
                    terminated_view(old(self)@[a as int], Liveness::Aborted),
                ),
                old(self)@[a as int].monitors,
            ),
            !(old(self)@[a as int].liveness is Running) ==> final(self)@ == old(self)@,
            !(final(self)@[a as int].liveness is Running),
    {
        let running = self.is_running(a);
        if running {
            self.terminate(a, Liveness::Aborted);
        } else {
            proof {
                assert(self@ =~= old(self)@);
            }
        }
    }

    /// Hands out one more external clone of actor `a`'s port.
    pub fn clone_port(&mut self, a: usize)
        requires
            old(self).wf(),
            a < old(self)@.len(),
            old(self)@[a as int].external_ports < usize::MAX,
        ensures
            final(self).wf(),
            final(self).spec_monitor_counter() == old(self).spec_monitor_counter(),
            final(self)@ == old(self)@.update(
                a as int,
                with_ports(old(self)@[a as int], old(self)@[a as int].external_ports + 1),
            ),
    {
        let mut actor = self.actors.remove(a);
        actor.external_ports = actor.external_ports + 1;
        self.actors.insert(a, actor);
        proof {
            assert(self@ =~= old(self)@.update(
                a as int,
                with_ports(old(self)@[a as int], old(self)@[a as int].external_ports + 1),
            ));
            assert forall|b: int| 0 <= b < self@.len() implies actor_wf(
                #[trigger] self@[b],
                self@.len() as int,
                self.spec_monitor_counter(),
            ) by {
                assert(actor_wf(
                    old(self)@[b],
                    old(self)@.len() as int,
                    old(self).spec_monitor_counter(),
                ));
            }
        }
    }

    /// Drops one external clone of actor `a`'s port. When the last one
    /// goes — only the actor's own self-reference remains — the actor is
    /// aborted at once, its monitors firing; the self-reference alone
    /// never keeps an actor alive.
    pub fn drop_port(&mut self, a: usize)
        requires
            old(self).wf(),
            a < old(self)@.len(),
            old(self)@[a as int].external_ports >= 1,
        ensures
            final(self).wf(),
            final(self)@.len() == old(self)@.len(),
            final(self).spec_monitor_counter() == old(self).spec_monitor_counter(),
            final(self)@[a as int].external_ports == old(self)@[a as int].external_ports - 1,
            old(self)@[a as int].external_ports == 1 && old(self)@[a as int].liveness is Running
                ==> final(self)@ == deliver_all(
                old(self)@.update(
                    a as int,
                    terminated_view(
                        with_ports(old(self)@[a as int], 0),
                        Liveness::Aborted,
                    ),
                ),
                old(self)@[a as int].monitors,
            ) && final(self)@[a as int].liveness is Aborted,
            old(self)@[a as int].external_ports == 1 && !(old(
                self,
            )@[a as int].liveness is Running) ==> final(self)@ == old(self)@.update(
                a as int,
                with_ports(old(self)@[a as int], 0),
            ),
            old(self)@[a as int].external_ports > 1 ==> final(self)@ == old(self)@.update(
                a as int,
                with_ports(
                    old(self)@[a as int],
                    (old(self)@[a as int].external_ports - 1) as nat,
                ),
            ),
    {
        let mut actor = self.actors.remove(a);
        actor.external_ports = actor.external_ports - 1;
        let last = actor.external_ports == 0;
        self.actors.insert(a, actor);
        let ghost mid = self@;
        proof {
            assert(mid =~= old(self)@.update(
                a as int,
                with_ports(old(self)@[a as int], (old(self)@[a as int].external_ports - 1) as nat),
            ));
            assert forall|b: int| 0 <= b < self@.len() implies actor_wf(
                #[trigger] self@[b],
                self@.len() as int,
                self.spec_monitor_counter(),
            ) by {
                assert(actor_wf(
                    old(self)@[b],
                    old(self)@.len() as int,
                    old(self).spec_monitor_counter(),
                ));
            }
        }
        if last {
            let running = self.is_running(a);
            if running {
                self.terminate(a, Liveness::Aborted);
                proof {
                    let base = mid.update(
                        a as int,
                        terminated_view(mid[a as int], Liveness::Aborted),
                    );
                    assert(base =~= old(self)@.update(
                        a as int,
                        terminated_view(
                            with_ports(old(self)@[a as int], 0),
                            Liveness::Aborted,
                        ),
                    ));
                    lemma_deliver_all_effect(base, mid[a as int].monitors, a as int);
                }
            }
        }
    }
}

} // verus!

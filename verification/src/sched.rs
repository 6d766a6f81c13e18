//! The scheduler core: the task table (runnable, awaiting, pending-spawn),
//! token allocation, the pending-interest slot, and the decisions of the run
//! loop. The embedding program owns the OS readiness multiplexer; it performs
//! the registrations this core queues up and feeds the readiness events back
//! in as plain token values.

use vstd::prelude::*;

use crate::base::{Async, Await};

verus! {

/// The token permanently reserved for the main (top-level) computation.
/// It is never assigned to a spawned computation.
pub const MAIN_TOKEN: u64 = 1;

/// The kind of readiness a computation waits for.
#[derive(Clone, Copy, PartialEq, Eq, Structural, Debug)]
pub enum InterestKind {
    Read,
    Write,
}

/// A declared readiness interest: a descriptor and the kind of readiness.
#[derive(Clone, Copy, PartialEq, Eq, Structural, Debug)]
pub struct Interest {
    pub fd: i32,
    pub kind: InterestKind,
}

/// A registration the core asks the embedding program to perform with the
/// readiness multiplexer: wake `token` when `fd` is ready for `kind`.
/// Delivery is edge-triggered, so a consumed registration never fires again;
/// every new suspension re-declares its interest.
#[derive(Clone, Copy, PartialEq, Eq, Structural, Debug)]
pub struct Registration {
    pub fd: i32,
    pub kind: InterestKind,
    pub token: u64,
}

/// The handle available to every running computation: it can enqueue new
/// computations for future scheduling and declare which readiness event it
/// is currently waiting for. The core owns the context and lends it to each
/// computation for the duration of one poll; the context does not know which
/// token is being polled — the core does, from its own loop position.
pub struct Context<S> {
    spawned: Vec<S>,
    interest: Option<Interest>,
}

impl<S> Context<S> {
    /// The ordered queue of computations spawned but not yet absorbed.
    pub closed spec fn spawned_view(&self) -> Seq<S> {
        self.spawned@
    }

    /// The pending-interest slot: at most one unconsumed declaration.
    pub closed spec fn interest_view(&self) -> Option<Interest> {
        self.interest
    }

    pub fn new() -> (c: Context<S>)
        ensures
            c.spawned_view() == Seq::<S>::empty(),
            c.interest_view() is None,
    {
        Context { spawned: Vec::new(), interest: None }
    }

    /// Enqueue a computation; it takes effect only when the core next drains
    /// the queue, so a computation may spawn any number of others per poll.
    pub fn spawn(&mut self, g: S)
        ensures
            final(self).spawned_view() == old(self).spawned_view().push(g),
            final(self).interest_view() == old(self).interest_view(),
    {
        self.spawned.push(g);
    }

    /// Declare that the currently polled computation waits for `fd` to
    /// become readable. Overwrites the pending-interest slot.
    pub fn register_read(&mut self, fd: i32)
        ensures
            final(self).interest_view() == Some(Interest { fd, kind: InterestKind::Read }),
            final(self).spawned_view() == old(self).spawned_view(),
    {
        self.interest = Some(Interest { fd, kind: InterestKind::Read });
    }

    /// Declare that the currently polled computation waits for `fd` to
    /// become writable. Kept distinct from read interest: waking a writer on
    /// read readiness would resume it on the wrong condition.
    pub fn register_write(&mut self, fd: i32)
        ensures
            final(self).interest_view() == Some(Interest { fd, kind: InterestKind::Write }),
            final(self).spawned_view() == old(self).spawned_view(),
    {
        self.interest = Some(Interest { fd, kind: InterestKind::Write });
    }

    /// Declare no particular interest.
    pub fn register_all(&self) {
    }

    /// The unconsumed interest declaration, if one is pending.
    pub fn pending_interest(&self) -> (r: Option<Interest>)
        ensures
            r == self.interest_view(),
    {
        self.interest
    }

    /// How many spawned computations wait to be absorbed.
    pub fn spawned_len(&self) -> (n: usize)
        ensures
            n == self.spawned_view().len(),
    {
        self.spawned.len()
    }

    fn take_interest(&mut self) -> (r: Option<Interest>)
        ensures
            r == old(self).interest_view(),
            final(self).interest_view() is None,
            final(self).spawned_view() == old(self).spawned_view(),
    {
        let r = self.interest;
        self.interest = None;
        r
    }
}

/// The tokens of a token/computation table, in table order.
pub open spec fn toks_of<S>(table: Seq<(u64, S)>) -> Seq<u64> {
    table.map_values(|p: (u64, S)| p.0)
}

/// The scheduler core: owns the task table, the context (and with it the
/// pending-spawn queue and the pending-interest slot), the queue of
/// registrations for the embedding program to perform, and the token
/// counter. Tokens are assigned from the counter, which only grows, so a
/// token is never reused within a run and a stale readiness event is
/// harmless.
pub struct Core<S> {
    runnable: Vec<(u64, S)>,
    awaiting: Vec<(u64, S)>,
    regs: Vec<Registration>,
    ctx: Context<S>,
    last_task_id: u64,
}

/// How one core operation may change the tracked-token set: tokens are never
/// invented below the old counter, so a token once dropped (it is at or
/// below the counter from the moment it is assigned) can never come back.
pub open spec fn tokens_evolve(
    pre: Set<u64>,
    pre_last: u64,
    post: Set<u64>,
    post_last: u64,
) -> bool {
    &&& pre_last <= post_last
    &&& forall|t: u64| post.contains(t) ==> pre.contains(t) || (pre_last < t && t <= post_last)
}

impl<S> Core<S> {
    /// The runnable partition itself: token/computation pairs, in table
    /// order.
    pub closed spec fn runnable_view(&self) -> Seq<(u64, S)> {
        self.runnable@
    }

    /// The tokens of computations eligible to be polled this pass.
    pub closed spec fn runnable_toks(&self) -> Seq<u64> {
        toks_of(self.runnable@)
    }

    /// The tokens of computations suspended, waiting for a readiness event.
    pub closed spec fn awaiting_toks(&self) -> Seq<u64> {
        toks_of(self.awaiting@)
    }

    /// Every token currently present in the task table.
    pub open spec fn live_toks(&self) -> Set<u64> {
        self.runnable_toks().to_set() + self.awaiting_toks().to_set()
    }

    /// The registrations queued for the embedding program.
    pub closed spec fn regs_view(&self) -> Seq<Registration> {
        self.regs@
    }

    /// The context, as computations see it.
    pub closed spec fn ctx_view(&self) -> Context<S> {
        self.ctx
    }

    /// The token counter: the largest token assigned so far.
    pub closed spec fn counter(&self) -> u64 {
        self.last_task_id
    }

    /// Well-formedness of the task table: the two live partitions are
    /// disjoint and duplicate-free; every tracked token was assigned from
    /// the counter and is above the reserved main token; and the
    /// pending-interest slot is empty — the core consumes it after every
    /// poll, so at most one unconsumed declaration ever exists, and only
    /// while the computation that made it is being polled.
    pub open spec fn wf(&self) -> bool {
        &&& self.runnable_toks().no_duplicates()
        &&& self.awaiting_toks().no_duplicates()
        &&& (forall|t: u64|
            self.runnable_toks().contains(t) ==> !self.awaiting_toks().contains(t))
        &&& (forall|t: u64|
            self.live_toks().contains(t) ==> MAIN_TOKEN < t && t <= self.counter())
        &&& MAIN_TOKEN <= self.counter()
        &&& self.ctx_view().interest_view() is None
    }

    /// A fresh core: empty table, no queued registrations, counter at the
    /// reserved main token so the first spawned computation gets the token
    /// right above it.
    pub fn new() -> (c: Core<S>)
        ensures
            c.wf(),
            c.runnable_toks() == Seq::<u64>::empty(),
            c.awaiting_toks() == Seq::<u64>::empty(),
            c.regs_view() == Seq::<Registration>::empty(),
            c.ctx_view().spawned_view() == Seq::<S>::empty(),
            c.counter() == MAIN_TOKEN,
    {
        Core {
            runnable: Vec::new(),
            awaiting: Vec::new(),
            regs: Vec::new(),
            ctx: Context::new(),
            last_task_id: MAIN_TOKEN,
        }
    }

    /// The number of computations eligible to be polled this pass.
    pub fn runnable_len(&self) -> (n: usize)
        ensures
            n == self.runnable_toks().len(),
    {
        self.runnable.len()
    }

    /// The number of computations suspended on a readiness event.
    pub fn awaiting_len(&self) -> (n: usize)
        ensures
            n == self.awaiting_toks().len(),
    {
        self.awaiting.len()
    }

    /// Whether `tok` is currently in the runnable partition.
    pub fn is_runnable(&self, tok: u64) -> (r: bool)
        ensures
            r == self.runnable_toks().contains(tok),
    {
        let mut i: usize = 0;
        while i < self.runnable.len()
            invariant
                i <= self.runnable@.len(),
                forall|j: int| 0 <= j < i ==> self.runnable_toks()[j] != tok,
            decreases self.runnable@.len() - i,
        {
            if self.runnable[i].0 == tok {
                proof {
                    assert(self.runnable_toks()[i as int] == tok);
                }
                return true;
            }
            proof {
                assert(self.runnable_toks()[i as int] != tok);
            }
            i += 1;
        }
        false
    }

    /// Whether `tok` is currently in the awaiting partition.
    pub fn is_awaiting(&self, tok: u64) -> (r: bool)
        ensures
            r == self.awaiting_toks().contains(tok),
    {
        let mut i: usize = 0;
        while i < self.awaiting.len()
            invariant
                i <= self.awaiting@.len(),
                forall|j: int| 0 <= j < i ==> self.awaiting_toks()[j] != tok,
            decreases self.awaiting@.len() - i,
        {
            if self.awaiting[i].0 == tok {
                proof {
                    assert(self.awaiting_toks()[i as int] == tok);
                }
                return true;
            }
            proof {
                assert(self.awaiting_toks()[i as int] != tok);
            }
            i += 1;
        }
        false
    }

    /// Hand over the queued registrations, leaving the queue empty. The
    /// embedding program performs each with the readiness multiplexer; a
    /// registration failure there is fatal to the whole run.
    pub fn take_registrations(&mut self) -> (r: Vec<Registration>)
        ensures
            r@ == old(self).regs_view(),
            final(self).regs_view() == Seq::<Registration>::empty(),
            final(self).runnable_toks() == old(self).runnable_toks(),
            final(self).awaiting_toks() == old(self).awaiting_toks(),
            final(self).ctx_view() == old(self).ctx_view(),
            final(self).counter() == old(self).counter(),
            old(self).wf() ==> final(self).wf(),
    {
        let mut out: Vec<Registration> = Vec::new();
        core::mem::swap(&mut out, &mut self.regs);
        proof {
            assert(self.runnable_toks() == old(self).runnable_toks());
            assert(self.awaiting_toks() == old(self).awaiting_toks());
            assert(self.ctx == old(self).ctx);
            if old(self).wf() {
                assert(self.live_toks() =~= old(self).live_toks());
                assert(self.wf());
            }
        }
        out
    }

    /// Step 5 of a scheduling pass, one reported event at a time: an event
    /// for the reserved main token means the main computation must be
    /// re-driven (reported back as `true`); any other token moves the
    /// corresponding computation from awaiting back to runnable; a token no
    /// longer tracked — a stale event for a completed computation — is
    /// silently ignored.
    pub fn deliver_event(&mut self, tok: u64) -> (main_fired: bool)
        requires
            old(self).wf(),
        ensures
            final(self).wf(),
            main_fired == (tok == MAIN_TOKEN),
            final(self).regs_view() == old(self).regs_view(),
            final(self).ctx_view() == old(self).ctx_view(),
            final(self).counter() == old(self).counter(),
            tok == MAIN_TOKEN ==> final(self).runnable_toks() == old(self).runnable_toks()
                && final(self).awaiting_toks() == old(self).awaiting_toks(),
            tok != MAIN_TOKEN && old(self).awaiting_toks().contains(tok) ==> {
                &&& final(self).runnable_toks().to_set()
                    == old(self).runnable_toks().to_set().insert(tok)
                &&& final(self).awaiting_toks().to_set()
                    == old(self).awaiting_toks().to_set().remove(tok)
            },
            tok != MAIN_TOKEN && !old(self).awaiting_toks().contains(tok) ==> {
                &&& final(self).runnable_toks() == old(self).runnable_toks()
                &&& final(self).awaiting_toks() == old(self).awaiting_toks()
            },
            final(self).live_toks() =~= old(self).live_toks(),
            tokens_evolve(
                old(self).live_toks(),
                old(self).counter(),
                final(self).live_toks(),
                final(self).counter(),
            ),
    {
        if tok == MAIN_TOKEN {
            return true;
        }
        let mut i: usize = 0;
        while i < self.awaiting.len()
            invariant
                old(self).wf(),
                tok != MAIN_TOKEN,
                i <= self.awaiting@.len(),
                self.awaiting@ == old(self).awaiting@,
                self.runnable@ == old(self).runnable@,
                self.regs@ == old(self).regs@,
                self.ctx == old(self).ctx,
                self.last_task_id == old(self).last_task_id,
                forall|j: int| 0 <= j < i ==> self.awaiting_toks()[j] != tok,
            decreases self.awaiting@.len() - i,
        {
            if self.awaiting[i].0 == tok {
                let moved = self.awaiting.remove(i);
                self.runnable.push(moved);
                proof {
                    let old_a = old(self).awaiting_toks();
                    let old_r = old(self).runnable_toks();
                    assert(old_a[i as int] == old(self).awaiting@[i as int].0);
                    assert(old_a[i as int] == tok);
                    assert(old_a.contains(tok));
                    assert(self.runnable_toks() =~= old_r.push(tok));
                    assert(self.awaiting_toks() =~= old_a.remove(i as int));
                    lemma_toks_remove_set(old_a, i as int);
                    lemma_toks_push_set(old_r, tok);
                    assert(!old_r.contains(tok));
                    assert(self.runnable_toks().no_duplicates()) by {
                        let new_r = self.runnable_toks();
                        assert forall|p: int, q: int|
                            0 <= p < q < new_r.len() implies new_r[p] != new_r[q] by {
                            if q < old_r.len() {
                                assert(old_r[p] == new_r[p] && old_r[q] == new_r[q]);
                            } else {
                                assert(new_r[q] == tok);
                                assert(old_r[p] == new_r[p]);
                                assert(old_r.contains(new_r[p]));
                            }
                        }
                    }
                    assert(self.live_toks() =~= old(self).live_toks());
                    assert forall|t: u64|
                        self.runnable_toks().contains(t) implies !self.awaiting_toks().contains(
                        t,
                    ) by {
                        assert(self.runnable_toks().to_set().contains(t));
                        if t == tok {
                            assert(!self.awaiting_toks().to_set().contains(t));
                        } else {
                            assert(old_r.contains(t));
                            assert(!old_a.contains(t));
                            assert(!self.awaiting_toks().to_set().contains(t));
                        }
                    }
                    assert(self.wf());
                }
                return false;
            }
            proof {
                assert(self.awaiting_toks()[i as int] != tok);
            }
            i += 1;
        }
        proof {
            let old_a = old(self).awaiting_toks();
            if old_a.contains(tok) {
                let j = choose|j: int| 0 <= j < old_a.len() && old_a[j] == tok;
                assert(self.awaiting_toks()[j] == tok);
                assert(false);
            }
            assert forall|t: u64|
                self.runnable_toks().contains(t) implies !self.awaiting_toks().contains(t) by {
                assert(old(self).runnable_toks().contains(t));
                assert(!old(self).awaiting_toks().contains(t));
            }
            assert forall|t: u64|
                self.live_toks().contains(t) implies MAIN_TOKEN < t && t <= self.counter() by {
                assert(old(self).live_toks().contains(t));
            }
            assert(self.wf());
        }
        false
    }
}

impl<S> Core<S> {
    /// Step 1 of a scheduling pass: poll the main computation under the
    /// reserved token. If it completed, the whole run terminates with its
    /// result, the task table untouched and nothing newly queued for
    /// registration — this is the single success path. If it is not ready,
    /// the pending-interest slot is consumed, and a declared interest is
    /// queued for registration under the reserved main token.
    pub fn poll_main<R, G: Async<S, R>>(&mut self, g: &mut G) -> (r: Option<R>)
        requires
            old(self).wf(),
        ensures
            final(self).wf(),
            final(self).counter() == old(self).counter(),
            final(self).runnable_toks() == old(self).runnable_toks(),
            final(self).awaiting_toks() == old(self).awaiting_toks(),
            r is Some ==> final(self).regs_view() == old(self).regs_view(),
            r is None ==> ({
                let pre = old(self).regs_view();
                let post = final(self).regs_view();
                ||| post == pre
                ||| (post.len() == pre.len() + 1 && post.last().token == MAIN_TOKEN
                    && post.subrange(0, pre.len() as int) == pre)
            }),
            tokens_evolve(
                old(self).live_toks(),
                old(self).counter(),
                final(self).live_toks(),
                final(self).counter(),
            ),
    {
        let res = g.poll(&mut self.ctx);
        let intr = self.ctx.take_interest();
        proof {
            assert(self.live_toks() =~= old(self).live_toks());
        }
        match res {
            Await::Done(r) => Some(r),
            Await::NotReady => {
                match intr {
                    Some(v) => {
                        self.regs.push(
                            Registration { fd: v.fd, kind: v.kind, token: MAIN_TOKEN },
                        );
                        proof {
                            assert(self.regs@.subrange(0, old(self).regs@.len() as int) =~= old(
                                self,
                            ).regs@);
                        }
                    },
                    None => {},
                }
                None
            },
        }
    }
}

impl<S: Async<S, ()>> Core<S> {
    /// Steps 2 and 3 of a scheduling pass. Drive: every computation in the
    /// runnable partition is polled exactly once, the pending-interest slot
    /// consumed right after each poll, so the partition ends empty. Reap:
    /// one that completed leaves the table at once, its token never to be
    /// tracked again, its result dropped (spawned computations are
    /// fire-and-forget); its tokens are returned. One that is not ready
    /// moves to awaiting, its declared interest queued for registration
    /// under its own token — at most one registration per suspension, and
    /// never one inherited from an earlier poll. Step 4, absorbing the
    /// spawn queue, is `absorb_spawned`, called after this.
    pub fn drive_runnable(&mut self) -> (completed: Vec<u64>)
        requires
            old(self).wf(),
        ensures
            final(self).wf(),
            final(self).counter() == old(self).counter(),
            completed@.no_duplicates(),
            forall|t: u64| completed@.contains(t) ==> old(self).runnable_toks().contains(t),
            forall|t: u64| completed@.contains(t) ==> !final(self).live_toks().contains(t),
            final(self).awaiting_toks().to_set() == old(self).awaiting_toks().to_set() + (old(
                self,
            ).runnable_toks().to_set() - completed@.to_set()),
            final(self).runnable_toks().len() == 0,
            final(self).regs_view().len() >= old(self).regs_view().len(),
            final(self).regs_view().subrange(0, old(self).regs_view().len() as int) == old(
                self,
            ).regs_view(),
            forall|i: int|
                old(self).regs_view().len() <= i < final(self).regs_view().len() ==> ({
                    let t = (#[trigger] final(self).regs_view()[i]).token;
                    old(self).runnable_toks().contains(t) && !completed@.contains(t)
                }),
            final(self).regs_view().len() - old(self).regs_view().len() <= final(self)
                .awaiting_toks().len() - old(self).awaiting_toks().len(),
            tokens_evolve(
                old(self).live_toks(),
                old(self).counter(),
                final(self).live_toks(),
                final(self).counter(),
            ),
    {
        let ghost old_r: Seq<u64> = old(self).runnable_toks();
        let ghost old_a: Seq<u64> = old(self).awaiting_toks();
        let mut completed: Vec<u64> = Vec::new();
        proof {
            assert(self.runnable@ =~= old(self).runnable@.subrange(
                0,
                self.runnable@.len() as int,
            ));
            assert forall|t: u64|
                self.awaiting_toks().contains(t) implies MAIN_TOKEN < t && t
                    <= self.last_task_id by {
                assert(old(self).live_toks().contains(t));
            }
            assert(self.awaiting_toks().to_set() =~= old_a.to_set() + (old_r.subrange(
                self.runnable@.len() as int,
                old_r.len() as int,
            ).to_set() - completed@.to_set()));
            assert(self.regs@.subrange(0, old(self).regs@.len() as int) =~= old(self).regs@);
        }
        while self.runnable.len() > 0
            invariant
                old(self).wf(),
                old_r == old(self).runnable_toks(),
                old_a == old(self).awaiting_toks(),
                self.runnable@.len() <= old(self).runnable@.len(),
                self.runnable@ == old(self).runnable@.subrange(0, self.runnable@.len() as int),
                self.last_task_id == old(self).last_task_id,
                self.ctx.interest_view() is None,
                completed@.no_duplicates(),
                forall|t: u64|
                    completed@.contains(t) ==> old_r.subrange(
                        self.runnable@.len() as int,
                        old_r.len() as int,
                    ).contains(t),
                self.awaiting_toks().to_set() == old_a.to_set() + (old_r.subrange(
                    self.runnable@.len() as int,
                    old_r.len() as int,
                ).to_set() - completed@.to_set()),
                self.awaiting_toks().no_duplicates(),
                forall|t: u64|
                    self.awaiting_toks().contains(t) ==> MAIN_TOKEN < t && t <= self.last_task_id,
                self.regs@.len() >= old(self).regs@.len(),
                self.regs@.subrange(0, old(self).regs@.len() as int) == old(self).regs@,
                forall|i: int|
                    old(self).regs@.len() <= i < self.regs@.len() ==> ({
                        let t = (#[trigger] self.regs@[i]).token;
                        old_r.subrange(
                            self.runnable@.len() as int,
                            old_r.len() as int,
                        ).contains(t) && !completed@.contains(t)
                    }),
                self.regs@.len() - old(self).regs@.len() <= self.awaiting_toks().len()
                    - old_a.len(),
            decreases self.runnable@.len(),
        {
            let ghost k: int = self.runnable@.len() as int;
            let ghost suffix_pre: Seq<u64> = old_r.subrange(k, old_r.len() as int);
            let ghost suffix_post: Seq<u64> = old_r.subrange(k - 1, old_r.len() as int);
            let popped = self.runnable.pop().unwrap();
            let tok = popped.0;
            let mut task = popped.1;
            proof {
                assert(0 < k <= old_r.len());
                assert(self.runnable@ =~= old(self).runnable@.subrange(0, k - 1));
                assert(old(self).runnable@.subrange(0, k)[k - 1] == old(self).runnable@[k - 1]);
                assert(old_r[k - 1] == old(self).runnable@[k - 1].0);
                assert(tok == old_r[k - 1]);
                assert(old_r.contains(tok));
                lemma_suffix_step(old_r, k - 1);
                lemma_no_dup_suffix_excludes(old_r, k - 1);
                assert(!suffix_pre.contains(tok));
                assert(suffix_post.to_set() =~= suffix_pre.to_set().insert(tok));
                assert(suffix_post[0] == tok);
                assert(suffix_post.contains(tok));
                assert forall|t: u64| suffix_pre.contains(t) implies suffix_post.contains(t) by {
                    assert(suffix_pre.to_set().contains(t));
                    assert(suffix_post.to_set().contains(t));
                }
                assert(!completed@.contains(tok));
            }
            let ghost comp_pre: Seq<u64> = completed@;
            let ghost regs_pre: Seq<Registration> = self.regs@;
            let ghost awaiting_pre: Seq<u64> = self.awaiting_toks();
            let res = task.poll(&mut self.ctx);
            let intr = self.ctx.take_interest();
            match res {
                Await::Done(()) => {
                    completed.push(tok);
                    proof {
                        lemma_toks_push_set(comp_pre, tok);
                        assert(completed@ == comp_pre.push(tok));
                        assert(completed@.to_set() == comp_pre.to_set().insert(tok));
                        assert(self.awaiting_toks().to_set() =~= old_a.to_set() + (
                        suffix_post.to_set() - completed@.to_set()));
                        assert forall|t: u64| completed@.contains(t) implies suffix_post.contains(
                            t,
                        ) by {
                            assert(completed@.to_set().contains(t));
                            if t == tok {
                            } else {
                                assert(comp_pre.contains(t));
                                assert(suffix_pre.contains(t));
                            }
                        }
                        assert forall|i: int|
                            old(self).regs@.len() <= i < self.regs@.len() implies ({
                                let t = (#[trigger] self.regs@[i]).token;
                                suffix_post.contains(t) && !completed@.contains(t)
                            }) by {
                            let t = self.regs@[i].token;
                            assert(suffix_pre.contains(t));
                            assert(t != tok);
                            assert(!comp_pre.contains(t));
                        }
                    }
                },
                Await::NotReady => {
                    match intr {
                        Some(v) => {
                            self.regs.push(Registration { fd: v.fd, kind: v.kind, token: tok });
                            proof {
                                assert(self.regs@.subrange(0, old(self).regs@.len() as int) =~= old(
                                    self,
                                ).regs@);
                            }
                        },
                        None => {},
                    }
                    self.awaiting.push((tok, task));
                    proof {
                        assert(old(self).live_toks().contains(tok));
                        assert(!old_a.contains(tok));
                        assert(!awaiting_pre.to_set().contains(tok));
                        assert(!awaiting_pre.contains(tok));
                        lemma_toks_push_set(awaiting_pre, tok);
                        assert(self.awaiting_toks() =~= awaiting_pre.push(tok));
                        assert(MAIN_TOKEN < tok && tok <= self.last_task_id);
                        assert forall|t: u64|
                            self.awaiting_toks().contains(t) implies MAIN_TOKEN < t && t
                                <= self.last_task_id by {
                            assert(self.awaiting_toks().to_set().contains(t));
                            if t != tok {
                                assert(awaiting_pre.to_set().contains(t));
                                assert(awaiting_pre.contains(t));
                            }
                        }
                        assert(self.awaiting_toks().no_duplicates()) by {
                            let new_a = self.awaiting_toks();
                            assert forall|p: int, q: int|
                                0 <= p < q < new_a.len() implies new_a[p] != new_a[q] by {
                                if q < awaiting_pre.len() {
                                    assert(awaiting_pre[p] == new_a[p] && awaiting_pre[q]
                                        == new_a[q]);
                                } else {
                                    assert(new_a[q] == tok);
                                    assert(awaiting_pre[p] == new_a[p]);
                                    assert(awaiting_pre.contains(new_a[p]));
                                }
                            }
                        }
                        assert(self.awaiting_toks().to_set() =~= old_a.to_set() + (
                        suffix_post.to_set() - completed@.to_set()));
                        assert forall|i: int|
                            old(self).regs@.len() <= i < self.regs@.len() implies ({
                                let t = (#[trigger] self.regs@[i]).token;
                                suffix_post.contains(t) && !completed@.contains(t)
                            }) by {
                            let t = self.regs@[i].token;
                            if i < regs_pre.len() {
                                assert(regs_pre[i].token == t);
                                assert(suffix_pre.contains(t));
                            } else {
                                assert(t == tok);
                            }
                        }
                    }
                },
            }
        }
        proof {
            assert(old_r.subrange(0, old_r.len() as int) =~= old_r);
            let fin_a = self.awaiting_toks();
            assert(self.runnable_toks().len() == 0);
            assert(fin_a.to_set() == old_a.to_set() + (old_r.to_set() - completed@.to_set()));
            assert forall|t: u64|
                self.live_toks().contains(t) implies MAIN_TOKEN < t && t <= self.counter() by {
                if fin_a.to_set().contains(t) {
                    assert(fin_a.contains(t));
                } else {
                    assert(self.runnable_toks().to_set().contains(t));
                    assert(self.runnable_toks().contains(t));
                }
            }
            assert(self.wf());
            assert forall|t: u64| completed@.contains(t) implies !self.live_toks().contains(
                t,
            ) by {
                assert(old_r.contains(t));
                assert(!old_a.contains(t)) by {
                    if old_a.contains(t) {
                        assert(old(self).runnable_toks().contains(t));
                    }
                }
                assert(!(old_a.to_set() + (old_r.to_set() - completed@.to_set())).contains(t));
                assert(!fin_a.to_set().contains(t));
                if self.runnable_toks().to_set().contains(t) {
                    assert(self.runnable_toks().contains(t));
                }
            }
            assert(tokens_evolve(
                old(self).live_toks(),
                old(self).counter(),
                self.live_toks(),
                self.counter(),
            )) by {
                assert forall|t: u64|
                    self.live_toks().contains(t) implies old(self).live_toks().contains(t) by {
                    if fin_a.to_set().contains(t) {
                        assert(fin_a.contains(t));
                        if old_a.to_set().contains(t) {
                            assert(old(self).awaiting_toks().contains(t));
                        } else {
                            assert(old_r.to_set().contains(t));
                            assert(old(self).runnable_toks().contains(t));
                        }
                    } else {
                        assert(self.runnable_toks().to_set().contains(t));
                        assert(self.runnable_toks().contains(t));
                    }
                }
            }
        }
        completed
    }
}

impl<S> Core<S> {
    /// Step 4 of a scheduling pass: drain the pending-spawn queue in order,
    /// assigning each computation the next counter token and appending it
    /// to the runnable partition — first spawned, lowest token, every token
    /// fresh and above the reserved main token. A newly absorbed
    /// computation is not polled before the next drive. In the (practically
    /// unreachable) event that the token space runs out, the remaining
    /// spawns are dropped rather than any token reused.
    pub fn absorb_spawned(&mut self)
        requires
            old(self).wf(),
        ensures
            final(self).wf(),
            old(self).counter() <= final(self).counter(),
            final(self).awaiting_toks() == old(self).awaiting_toks(),
            final(self).regs_view() == old(self).regs_view(),
            final(self).ctx_view().spawned_view().len() == 0,
            ({
                let q = old(self).ctx_view().spawned_view();
                let base = old(self).runnable_view();
                let fuel = u64::MAX as int - old(self).counter() as int;
                let k: int = if q.len() <= fuel {
                    q.len() as int
                } else {
                    fuel
                };
                &&& final(self).counter() as int == old(self).counter() as int + k
                &&& final(self).runnable_view().len() == base.len() + k
                &&& (forall|j: int|
                    0 <= j < base.len() ==> #[trigger] final(self).runnable_view()[j] == base[j])
                &&& (forall|j: int|
                    0 <= j < k ==> (#[trigger] final(self).runnable_view()[base.len() + j]) == (
                    ((old(self).counter() as int + 1 + j) as u64), q[j]))
            }),
            tokens_evolve(
                old(self).live_toks(),
                old(self).counter(),
                final(self).live_toks(),
                final(self).counter(),
            ),
    {
        let ghost q: Seq<S> = self.ctx.spawned@;
        let ghost start: u64 = self.last_task_id;
        let ghost base: Seq<(u64, S)> = self.runnable@;
        while self.ctx.spawned.len() > 0
            invariant
                old(self).wf(),
                q == old(self).ctx_view().spawned_view(),
                start == old(self).last_task_id,
                base == old(self).runnable@,
                self.awaiting@ == old(self).awaiting@,
                self.regs@ == old(self).regs@,
                self.ctx.interest_view() is None,
                start <= self.last_task_id,
                ({
                    let c = q.len() as int - self.ctx.spawned@.len() as int;
                    let fuel = u64::MAX as int - start as int;
                    let a: int = if c <= fuel {
                        c
                    } else {
                        fuel
                    };
                    &&& 0 <= c <= q.len()
                    &&& self.ctx.spawned@ == q.subrange(c, q.len() as int)
                    &&& self.last_task_id as int == start as int + a
                    &&& self.runnable@.len() as int == base.len() as int + a
                    &&& (forall|j: int|
                        0 <= j < base.len() ==> #[trigger] self.runnable@[j] == base[j])
                    &&& (forall|j: int|
                        0 <= j < a ==> (#[trigger] self.runnable@[base.len() + j]) == (((
                        start as int + 1 + j) as u64), q[j]))
                }),
            decreases self.ctx.spawned@.len(),
        {
            let ghost c_pre: int = q.len() as int - self.ctx.spawned@.len() as int;
            let ghost run_pre: Seq<(u64, S)> = self.runnable@;
            let t = self.ctx.spawned.remove(0);
            proof {
                assert(q.subrange(c_pre, q.len() as int)[0] == q[c_pre]);
                assert(t == q[c_pre]);
                assert(self.ctx.spawned@ =~= q.subrange(c_pre + 1, q.len() as int));
            }
            if self.last_task_id < u64::MAX {
                self.last_task_id = self.last_task_id + 1;
                self.runnable.push((self.last_task_id, t));
                proof {
                    assert forall|j: int|
                        0 <= j < base.len() implies #[trigger] self.runnable@[j] == base[j] by {
                        assert(self.runnable@[j] == run_pre[j]);
                    }
                    assert forall|j: int|
                        0 <= j < c_pre + 1 implies (#[trigger] self.runnable@[base.len() + j])
                        == ((((start as int + 1 + j) as u64), q[j])) by {
                        if j < c_pre {
                            assert(self.runnable@[base.len() + j] == run_pre[base.len() + j]);
                        } else {
                            assert(self.runnable@[base.len() + j].0 == self.last_task_id);
                        }
                    }
                }
            }
        }
        proof {
            let fuel = u64::MAX as int - start as int;
            let k: int = if q.len() <= fuel {
                q.len() as int
            } else {
                fuel
            };
            let fin_r = self.runnable_toks();
            let fin_a = self.awaiting_toks();
            assert(fin_r.len() == self.runnable@.len());
            assert(forall|j: int|
                0 <= j < fin_r.len() ==> fin_r[j] == (#[trigger] self.runnable@[j]).0);
            assert(forall|j: int|
                0 <= j < base.len() ==> #[trigger] fin_r[j] == old(self).runnable_toks()[j]);
            assert forall|j: int|
                base.len() <= j < fin_r.len() implies start < #[trigger] fin_r[j] && fin_r[j]
                    <= self.last_task_id by {
                let jj = j - base.len();
                assert(self.runnable@[base.len() + jj] == (((start as int + 1 + jj) as u64),
                q[jj]));
            }
            assert forall|j: int|
                0 <= j < base.len() implies MAIN_TOKEN < #[trigger] fin_r[j] && fin_r[j]
                    <= start by {
                assert(old(self).runnable_toks().contains(fin_r[j]));
                assert(old(self).live_toks().contains(fin_r[j]));
            }
            assert(fin_r.no_duplicates()) by {
                assert forall|p: int, p2: int|
                    0 <= p < p2 < fin_r.len() implies fin_r[p] != fin_r[p2] by {
                    let bl = base.len() as int;
                    if p2 < bl {
                        assert(old(self).runnable_toks().no_duplicates());
                        assert(old(self).runnable_toks()[p] != old(self).runnable_toks()[p2]);
                    } else if p < bl {
                        assert(fin_r[p] <= start);
                        assert(start < fin_r[p2]);
                    } else {
                        let i1 = p - bl;
                        let i2 = p2 - bl;
                        assert(self.runnable@[base.len() + i1] == (((start as int + 1 + i1)
                            as u64), q[i1]));
                        assert(self.runnable@[base.len() + i2] == (((start as int + 1 + i2)
                            as u64), q[i2]));
                    }
                }
            }
            assert forall|t: u64| fin_a.contains(t) implies MAIN_TOKEN < t && t <= start by {
                assert(old(self).live_toks().contains(t));
            }
            assert forall|t: u64| fin_r.contains(t) implies !fin_a.contains(t) by {
                let j = choose|j: int| 0 <= j < fin_r.len() && fin_r[j] == t;
                if j < base.len() {
                    assert(old(self).runnable_toks().contains(t));
                    assert(!old(self).awaiting_toks().contains(t));
                } else {
                    assert(start < t);
                }
            }
            assert forall|t: u64|
                self.live_toks().contains(t) implies MAIN_TOKEN < t && t
                    <= self.last_task_id by {
                if fin_a.to_set().contains(t) {
                    assert(fin_a.contains(t));
                } else {
                    assert(fin_r.to_set().contains(t));
                    let j = choose|j: int| 0 <= j < fin_r.len() && fin_r[j] == t;
                    if j < base.len() {
                        assert(fin_r[j] <= start <= self.last_task_id);
                    }
                }
            }
            assert(self.wf());
            assert(tokens_evolve(
                old(self).live_toks(),
                old(self).counter(),
                self.live_toks(),
                self.counter(),
            )) by {
                assert forall|t: u64|
                    self.live_toks().contains(t) implies old(self).live_toks().contains(t) || (
                    start < t && t <= self.last_task_id) by {
                    if fin_a.to_set().contains(t) {
                        assert(fin_a.contains(t));
                        assert(old(self).awaiting_toks().contains(t));
                    } else {
                        assert(fin_r.to_set().contains(t));
                        let j = choose|j: int| 0 <= j < fin_r.len() && fin_r[j] == t;
                        if j < base.len() {
                            assert(old(self).runnable_toks()[j] == t);
                            assert(old(self).runnable_toks().contains(t));
                        }
                    }
                }
            }
        }
    }
}

/// The token set of the tail of a sequence, one step shorter: the head of
/// the tail joins the set.
proof fn lemma_suffix_step(s: Seq<u64>, k: int)
    requires
        0 <= k < s.len(),
    ensures
        s.subrange(k, s.len() as int).to_set() == s.subrange(
            k + 1,
            s.len() as int,
        ).to_set().insert(s[k]),
{
    let a = s.subrange(k, s.len() as int);
    let b = s.subrange(k + 1, s.len() as int);
    assert forall|x: u64| a.to_set().contains(x) implies b.to_set().insert(s[k]).contains(x) by {
        let j = choose|j: int| 0 <= j < a.len() && a[j] == x;
        if j > 0 {
            assert(b[j - 1] == x);
        }
    }
    assert forall|x: u64| b.to_set().insert(s[k]).contains(x) implies a.to_set().contains(x) by {
        if b.to_set().contains(x) {
            let j = choose|j: int| 0 <= j < b.len() && b[j] == x;
            assert(a[j + 1] == x);
        } else {
            assert(a[0] == s[k]);
        }
    }
    assert(a.to_set() =~= b.to_set().insert(s[k]));
}

/// In a duplicate-free sequence, the element at `k` does not occur after `k`.
proof fn lemma_no_dup_suffix_excludes(s: Seq<u64>, k: int)
    requires
        s.no_duplicates(),
        0 <= k < s.len(),
    ensures
        !s.subrange(k + 1, s.len() as int).contains(s[k]),
{
    let b = s.subrange(k + 1, s.len() as int);
    if b.contains(s[k]) {
        let j = choose|j: int| 0 <= j < b.len() && b[j] == s[k];
        assert(s[k + 1 + j] == s[k]);
        assert(false);
    }
}

/// Removing position `i` from a duplicate-free token sequence removes
/// exactly that token from the set of tokens.
proof fn lemma_toks_remove_set(s: Seq<u64>, i: int)
    requires
        s.no_duplicates(),
        0 <= i < s.len(),
    ensures
        s.remove(i).to_set() == s.to_set().remove(s[i]),
        s.remove(i).no_duplicates(),
{
    let r = s.remove(i);
    assert forall|t: u64| r.to_set().contains(t) implies s.to_set().remove(s[i]).contains(t) by {
        let j = choose|j: int| 0 <= j < r.len() && r[j] == t;
        if j < i {
            assert(s[j] == t);
        } else {
            assert(s[j + 1] == t);
        }
    }
    assert forall|t: u64| s.to_set().remove(s[i]).contains(t) implies r.to_set().contains(t) by {
        let j = choose|j: int| 0 <= j < s.len() && s[j] == t;
        if j < i {
            assert(r[j] == t);
        } else {
            assert(j != i);
            assert(r[j - 1] == t);
        }
    }
    assert(r.to_set() =~= s.to_set().remove(s[i]));
}

/// Pushing a token onto a token sequence adds exactly that token to the set.
proof fn lemma_toks_push_set(s: Seq<u64>, t: u64)
    ensures
        s.push(t).to_set() == s.to_set().insert(t),
{
    assert(s.push(t).to_set() =~= s.to_set().insert(t)) by {
        assert forall|x: u64| s.push(t).to_set().contains(x) implies s.to_set().insert(t).contains(
            x,
        ) by {
            let j = choose|j: int| 0 <= j < s.push(t).len() && s.push(t)[j] == x;
            if j < s.len() {
                assert(s[j] == x);
            }
        }
        assert forall|x: u64| s.to_set().insert(t).contains(x) implies s.push(t).to_set().contains(
            x,
        ) by {
            if s.to_set().contains(x) {
                let j = choose|j: int| 0 <= j < s.len() && s[j] == x;
                assert(s.push(t)[j] == x);
            } else {
                assert(s.push(t)[s.len() as int] == t);
            }
        }
    }
}

/// Law: between core operations the pending-interest slot is always empty —
/// the core consumes it right after every poll, so an interest declared
/// before one suspension is never carried over and attributed to a later
/// one; each suspension is registered only with what it declared itself.
pub proof fn lemma_interest_consumed_after_every_poll<S>(c: Core<S>)
    requires
        c.wf(),
    ensures
        c.ctx_view().interest_view() is None,
{
}

/// Law: the reserved main token is never assigned to spawned work, whatever
/// sequence of spawns occurred — in a well-formed core no tracked token
/// equals `MAIN_TOKEN`.
pub proof fn lemma_main_token_reserved<S>(c: Core<S>)
    requires
        c.wf(),
    ensures
        !c.live_toks().contains(MAIN_TOKEN),
{
    if c.live_toks().contains(MAIN_TOKEN) {
        assert(MAIN_TOKEN < MAIN_TOKEN);
    }
}

/// Law: a reaped token never returns. Every core operation ensures
/// `tokens_evolve`, under which a token absent from the table and at or
/// below the counter — true of a completed computation's token the moment
/// it is reaped — stays absent; the computation is never polled again.
pub proof fn lemma_done_token_never_returns(
    pre: Set<u64>,
    pre_last: u64,
    post: Set<u64>,
    post_last: u64,
    t: u64,
)
    requires
        tokens_evolve(pre, pre_last, post, post_last),
        !pre.contains(t),
        t <= pre_last,
    ensures
        !post.contains(t),
        t <= post_last,
{
}

/// Token evolution composes, so the two laws above extend over any number
/// of scheduling passes and event deliveries.
pub proof fn lemma_tokens_evolve_trans(
    a: Set<u64>,
    a_last: u64,
    b: Set<u64>,
    b_last: u64,
    c: Set<u64>,
    c_last: u64,
)
    requires
        tokens_evolve(a, a_last, b, b_last),
        tokens_evolve(b, b_last, c, c_last),
    ensures
        tokens_evolve(a, a_last, c, c_last),
{
}

} // verus!

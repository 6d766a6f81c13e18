//! Scenario tests that drive the scheduler core with scripted computations
//! and scripted readiness events, exactly as the embedding program would.

use std::cell::RefCell;
use std::rc::Rc;

use coopio::base::{Async, Await};
use coopio::net::{AcceptOutcome, TcpListener};
use coopio::sched::{Context, Core, InterestKind, MAIN_TOKEN};

enum Task {
    CompleteNow,
    SuspendOnceRead { fd: i32, suspended: bool },
    SuspendTwiceRead { fd: i32, times: u8 },
    SuspendSilently { suspended: bool },
    DeclareThenDone { fd: i32 },
    AcceptFlow { listener: TcpListener, tried: bool, result: Rc<RefCell<Option<i32>>> },
}

impl Async<Task, ()> for Task {
    fn poll(&mut self, ctx: &mut Context<Task>) -> Await<()> {
        match self {
            Task::CompleteNow => Await::Done(()),
            Task::SuspendOnceRead { fd, suspended } => {
                if *suspended {
                    Await::Done(())
                } else {
                    ctx.register_read(*fd);
                    *suspended = true;
                    Await::NotReady
                }
            }
            Task::SuspendTwiceRead { fd, times } => {
                if *times < 2 {
                    // edge-triggered delivery: interest must be re-declared
                    // before every suspension
                    ctx.register_read(*fd);
                    *times += 1;
                    Await::NotReady
                } else {
                    Await::Done(())
                }
            }
            Task::SuspendSilently { suspended } => {
                if *suspended {
                    Await::Done(())
                } else {
                    *suspended = true;
                    Await::NotReady
                }
            }
            Task::DeclareThenDone { fd } => {
                ctx.register_read(*fd);
                Await::Done(())
            }
            Task::AcceptFlow { listener, tried, result } => {
                let outcome = if *tried {
                    AcceptOutcome::Accepted(7)
                } else {
                    AcceptOutcome::WouldBlock
                };
                *tried = true;
                match listener.accept(ctx, outcome) {
                    None => Await::NotReady,
                    Some(Ok(conn)) => {
                        *result.borrow_mut() = Some(conn.fd());
                        Await::Done(())
                    }
                    Some(Err(_)) => Await::Done(()),
                }
            }
        }
    }
}

/// A main computation that spawns some tasks on its first poll and then
/// immediately completes with a value.
struct MainSpawnsThenDone {
    tasks: Vec<Task>,
    value: u64,
}

impl Async<Task, u64> for MainSpawnsThenDone {
    fn poll(&mut self, ctx: &mut Context<Task>) -> Await<u64> {
        for t in self.tasks.drain(..) {
            ctx.spawn(t);
        }
        Await::Done(self.value)
    }
}

/// A main computation that spawns some tasks on its first poll and then
/// parks forever.
struct MainSpawnsThenParks {
    tasks: Vec<Task>,
}

impl Async<Task, u64> for MainSpawnsThenParks {
    fn poll(&mut self, ctx: &mut Context<Task>) -> Await<u64> {
        for t in self.tasks.drain(..) {
            ctx.spawn(t);
        }
        Await::NotReady
    }
}

#[test]
fn main_completing_immediately_leaves_table_untouched() {
    let mut core: Core<Task> = Core::new();
    let mut main = MainSpawnsThenDone {
        tasks: vec![Task::CompleteNow, Task::CompleteNow, Task::CompleteNow],
        value: 42,
    };
    let r = core.poll_main(&mut main);
    assert_eq!(r, Some(42));
    assert_eq!(core.runnable_len(), 0);
    assert_eq!(core.awaiting_len(), 0);
    assert!(core.take_registrations().is_empty());
}

#[test]
fn pure_main_returns_without_any_reactor_wait() {
    let mut core: Core<Task> = Core::new();
    let mut main = MainSpawnsThenDone { tasks: vec![], value: 7 };
    let mut waits: usize = 0;
    let result;
    loop {
        if let Some(r) = core.poll_main(&mut main) {
            result = r;
            break;
        }
        core.drive_runnable();
        core.absorb_spawned();
        let _ = core.take_registrations();
        // the embedding loop would block on the reactor here
        waits += 1;
        if waits > 10 {
            panic!("run did not terminate");
        }
    }
    assert_eq!(result, 7);
    assert!(waits <= 1);
    assert_eq!(waits, 0);
}

#[test]
fn spawned_tokens_start_above_the_reserved_token() {
    let mut core: Core<Task> = Core::new();
    let mut main = MainSpawnsThenParks {
        tasks: vec![
            Task::SuspendOnceRead { fd: 10, suspended: false },
            Task::SuspendOnceRead { fd: 20, suspended: false },
            Task::SuspendOnceRead { fd: 30, suspended: false },
        ],
    };
    assert_eq!(core.poll_main(&mut main), None);
    core.drive_runnable();
    core.absorb_spawned();
    assert_eq!(MAIN_TOKEN, 1);
    assert!(!core.is_runnable(MAIN_TOKEN));
    assert!(!core.is_awaiting(MAIN_TOKEN));
    assert!(core.is_runnable(2));
    assert!(core.is_runnable(3));
    assert!(core.is_runnable(4));
    assert_eq!(core.runnable_len(), 3);
}

#[test]
fn readiness_for_two_of_three_resumes_exactly_those() {
    let mut core: Core<Task> = Core::new();
    let mut main = MainSpawnsThenParks {
        tasks: vec![
            Task::SuspendOnceRead { fd: 10, suspended: false },
            Task::SuspendOnceRead { fd: 20, suspended: false },
            Task::SuspendOnceRead { fd: 30, suspended: false },
        ],
    };
    assert_eq!(core.poll_main(&mut main), None);
    core.drive_runnable();
    core.absorb_spawned(); // absorb the three: tokens 2, 3, 4
    core.drive_runnable(); // each suspends once on its own socket
    assert_eq!(core.awaiting_len(), 3);
    let regs = core.take_registrations();
    assert_eq!(regs.len(), 3);
    for reg in &regs {
        assert_eq!(reg.kind, InterestKind::Read);
        let expected_fd = match reg.token {
            2 => 10,
            3 => 20,
            4 => 30,
            _ => panic!("unexpected token {}", reg.token),
        };
        assert_eq!(reg.fd, expected_fd);
    }
    // events for sockets 2 and 1 (in that order), omitting socket 3
    assert!(!core.deliver_event(3));
    assert!(!core.deliver_event(2));
    assert!(core.is_runnable(3));
    assert!(core.is_runnable(2));
    assert!(core.is_awaiting(4));
    assert!(!core.is_awaiting(2));
    assert!(!core.is_awaiting(3));
    assert!(!core.is_runnable(4));
}

#[test]
fn event_for_main_token_reports_main_fired() {
    let mut core: Core<Task> = Core::new();
    let mut main = MainSpawnsThenParks { tasks: vec![] };
    assert_eq!(core.poll_main(&mut main), None);
    assert!(core.deliver_event(MAIN_TOKEN));
    assert!(!core.deliver_event(99));
}

#[test]
fn completed_tasks_are_reaped_and_stale_events_ignored() {
    let mut core: Core<Task> = Core::new();
    let mut main = MainSpawnsThenParks {
        tasks: vec![Task::CompleteNow, Task::CompleteNow],
    };
    assert_eq!(core.poll_main(&mut main), None);
    core.drive_runnable();
    core.absorb_spawned(); // absorb: tokens 2 and 3 runnable
    let completed = core.drive_runnable(); // both complete and are reaped
    assert_eq!(completed.len(), 2);
    assert!(completed.contains(&2));
    assert!(completed.contains(&3));
    assert!(!core.is_runnable(2));
    assert!(!core.is_runnable(3));
    assert!(!core.is_awaiting(2));
    assert!(!core.is_awaiting(3));
    // a stale event for a reaped token is silently ignored
    assert!(!core.deliver_event(2));
    assert_eq!(core.runnable_len(), 0);
    assert_eq!(core.awaiting_len(), 0);
}

#[test]
fn interest_of_a_completed_poll_never_leaks_to_the_next() {
    let mut core: Core<Task> = Core::new();
    let mut main = MainSpawnsThenParks {
        tasks: vec![
            Task::DeclareThenDone { fd: 9 },
            Task::SuspendSilently { suspended: false },
        ],
    };
    assert_eq!(core.poll_main(&mut main), None);
    core.drive_runnable();
    core.absorb_spawned(); // absorb both
    core.drive_runnable(); // one declares and completes, one suspends silently
    // the completed poll's declaration is consumed and discarded, never
    // registered under the silent suspender's token
    assert!(core.take_registrations().is_empty());
    assert_eq!(core.awaiting_len(), 1);
}

#[test]
fn suspending_twice_registers_interest_before_each_suspension() {
    let mut core: Core<Task> = Core::new();
    let mut main = MainSpawnsThenParks {
        tasks: vec![Task::SuspendTwiceRead { fd: 12, times: 0 }],
    };
    assert_eq!(core.poll_main(&mut main), None);
    core.drive_runnable();
    core.absorb_spawned(); // absorb: token 2
    core.drive_runnable(); // first suspension, with a fresh declaration
    let regs = core.take_registrations();
    assert_eq!(regs.len(), 1);
    assert_eq!((regs[0].fd, regs[0].kind, regs[0].token), (12, InterestKind::Read, 2));
    assert!(!core.deliver_event(2));
    core.drive_runnable(); // second suspension, declared anew
    let regs = core.take_registrations();
    assert_eq!(regs.len(), 1);
    assert_eq!((regs[0].fd, regs[0].kind, regs[0].token), (12, InterestKind::Read, 2));
    assert!(core.is_awaiting(2));
}

#[test]
fn accept_wouldblock_then_readiness_yields_the_connection() {
    let result: Rc<RefCell<Option<i32>>> = Rc::new(RefCell::new(None));
    let mut core: Core<Task> = Core::new();
    let mut main = MainSpawnsThenParks {
        tasks: vec![Task::AcceptFlow {
            listener: TcpListener::new(5),
            tried: false,
            result: result.clone(),
        }],
    };
    assert_eq!(core.poll_main(&mut main), None);
    core.drive_runnable();
    core.absorb_spawned(); // absorb: token 2
    core.drive_runnable(); // accept would-block: suspends with read interest
    let regs = core.take_registrations();
    assert_eq!(regs.len(), 1);
    assert_eq!(regs[0].fd, 5);
    assert_eq!(regs[0].kind, InterestKind::Read);
    assert_eq!(regs[0].token, 2);
    assert!(core.is_awaiting(2));
    assert!(result.borrow().is_none());
    // readiness for the listener's token resumes the computation
    assert!(!core.deliver_event(2));
    assert!(core.is_runnable(2));
    let completed = core.drive_runnable(); // accept succeeds this time
    assert_eq!(completed, vec![2]);
    assert_eq!(*result.borrow(), Some(7));
    assert_eq!(core.awaiting_len(), 0);
    assert_eq!(core.runnable_len(), 0);
}

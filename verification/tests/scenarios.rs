//! End-to-end scheduling scenarios: concurrent counters under a spin
//! lock and under a semaphore, a bounded producer/consumer ring, and
//! dining philosophers. User programs are modeled as little state
//! machines stepped whenever the scheduler makes them current.

use std::collections::HashMap;

use ysos_proc::manager::{exit, sem_signal, sem_wait, switch, ProcessManager};
use ysos_proc::{ProcessContext, ProcessId, SpinLock};

const WATCHDOG: usize = 2_000_000;

/// Forks `n` children of the kernel process and enqueues them.
fn fork_children(m: &mut ProcessManager, n: usize) -> Vec<ProcessId> {
    let mut pids = Vec::new();
    for _ in 0..n {
        let c = m.fork().expect("a stack range must be free");
        m.push_ready(c);
        pids.push(c);
    }
    pids
}

fn all_dead(m: &ProcessManager, pids: &[ProcessId]) -> bool {
    pids.iter().all(|&p| !m.still_alive(p))
}

#[derive(Clone, Copy, PartialEq, Eq, Debug)]
enum Phase {
    Acquire,
    Increment,
    Release,
}

/// Eight children increment a shared counter 100 times each under a
/// spin lock; the final value is exactly 800.
#[test]
fn counter_spin_lock() {
    let mut m = ProcessManager::init(Vec::new(), 1);
    let mut ctx = ProcessContext::new();
    let pids = fork_children(&mut m, 8);

    let mut lock = SpinLock::new();
    let mut counter: isize = 0;
    let mut state: HashMap<u16, (Phase, u32)> = HashMap::new();
    for &p in &pids {
        state.insert(p.0, (Phase::Acquire, 100));
    }

    let mut steps = 0usize;
    loop {
        steps += 1;
        assert!(steps < WATCHDOG, "scheduler made no progress");
        let cur = m.current_pid;
        if let Some(&(phase, left)) = state.get(&cur.0) {
            match phase {
                Phase::Acquire => {
                    if lock.acquire() {
                        state.insert(cur.0, (Phase::Increment, left));
                    }
                    // a failed attempt simply spins until preempted
                },
                Phase::Increment => {
                    counter += 1;
                    state.insert(cur.0, (Phase::Release, left));
                },
                Phase::Release => {
                    lock.release();
                    if left == 1 {
                        state.remove(&cur.0);
                        exit(&mut m, 0, &mut ctx);
                        continue;
                    }
                    state.insert(cur.0, (Phase::Acquire, left - 1));
                },
            }
            switch(&mut m, &mut ctx);
        } else {
            // the kernel's turn: reap or idle
            if all_dead(&m, &pids) {
                break;
            }
            switch(&mut m, &mut ctx);
        }
    }
    assert_eq!(counter, 800);
    for &p in &pids {
        assert_eq!(m.wait_pid(p), Some(0));
    }
}

#[derive(Clone, Copy, PartialEq, Eq, Debug)]
enum SemPhase {
    Wait,
    Increment,
    Signal,
}

/// The same counter protected by a binary semaphore initialized to 1;
/// every interleaving the scheduler produces keeps the count exact.
#[test]
fn counter_semaphore() {
    let mut m = ProcessManager::init(Vec::new(), 1);
    let mut ctx = ProcessContext::new();
    const KEY: u32 = 1;
    assert_eq!(m.new_sem(KEY, 1), 0);
    let pids = fork_children(&mut m, 8);

    let mut counter: isize = 0;
    let mut state: HashMap<u16, (SemPhase, u32)> = HashMap::new();
    for &p in &pids {
        state.insert(p.0, (SemPhase::Wait, 100));
    }

    let mut steps = 0usize;
    loop {
        steps += 1;
        assert!(steps < WATCHDOG, "scheduler made no progress");
        let cur = m.current_pid;
        if let Some(&(phase, left)) = state.get(&cur.0) {
            match phase {
                SemPhase::Wait => {
                    // once the wait returns — immediately or after a
                    // wake-up — the caller owns the unit
                    state.insert(cur.0, (SemPhase::Increment, left));
                    sem_wait(&mut m, KEY, &mut ctx);
                },
                SemPhase::Increment => {
                    counter += 1;
                    state.insert(cur.0, (SemPhase::Signal, left));
                },
                SemPhase::Signal => {
                    sem_signal(&mut m, KEY, &mut ctx);
                    if left == 1 {
                        state.remove(&cur.0);
                        exit(&mut m, 0, &mut ctx);
                        continue;
                    }
                    state.insert(cur.0, (SemPhase::Wait, left - 1));
                },
            }
            if m.current_pid == cur {
                switch(&mut m, &mut ctx);
            }
        } else {
            if all_dead(&m, &pids) {
                break;
            }
            switch(&mut m, &mut ctx);
        }
    }
    assert_eq!(counter, 800);
}

#[derive(Clone, Copy, PartialEq, Eq, Debug)]
enum MqPhase {
    WaitSlot,
    WaitMutex,
    Touch,
    SignalMutex,
    SignalPeer,
}

/// Eight producers and eight consumers, ten operations each, with
/// semaphores empty=16, full=0 and a mutex: the message count never
/// leaves [0, 16] and ends at 0.
#[test]
fn producer_consumer() {
    let mut m = ProcessManager::init(Vec::new(), 1);
    let mut ctx = ProcessContext::new();
    const EMPTY: u32 = 10;
    const FULL: u32 = 11;
    const MUTEX: u32 = 12;
    assert_eq!(m.new_sem(EMPTY, 16), 0);
    assert_eq!(m.new_sem(FULL, 0), 0);
    assert_eq!(m.new_sem(MUTEX, 1), 0);
    let pids = fork_children(&mut m, 16);

    let mut messages: i32 = 0;
    // even children produce, odd children consume
    let mut role: HashMap<u16, bool> = HashMap::new();
    let mut state: HashMap<u16, (MqPhase, u32)> = HashMap::new();
    for (i, &p) in pids.iter().enumerate() {
        role.insert(p.0, i % 2 == 0);
        state.insert(p.0, (MqPhase::WaitSlot, 10));
    }

    let mut steps = 0usize;
    loop {
        steps += 1;
        assert!(steps < WATCHDOG, "scheduler made no progress");
        let cur = m.current_pid;
        if let Some(&(phase, left)) = state.get(&cur.0) {
            let producing = role[&cur.0];
            match phase {
                MqPhase::WaitSlot => {
                    state.insert(cur.0, (MqPhase::WaitMutex, left));
                    sem_wait(&mut m, if producing { EMPTY } else { FULL }, &mut ctx);
                },
                MqPhase::WaitMutex => {
                    state.insert(cur.0, (MqPhase::Touch, left));
                    sem_wait(&mut m, MUTEX, &mut ctx);
                },
                MqPhase::Touch => {
                    if producing {
                        messages += 1;
                    } else {
                        messages -= 1;
                    }
                    assert!(
                        (0..=16).contains(&messages),
                        "message count left the ring bounds"
                    );
                    state.insert(cur.0, (MqPhase::SignalMutex, left));
                },
                MqPhase::SignalMutex => {
                    state.insert(cur.0, (MqPhase::SignalPeer, left));
                    sem_signal(&mut m, MUTEX, &mut ctx);
                },
                MqPhase::SignalPeer => {
                    sem_signal(&mut m, if producing { FULL } else { EMPTY }, &mut ctx);
                    if left == 1 {
                        state.remove(&cur.0);
                        exit(&mut m, 0, &mut ctx);
                        continue;
                    }
                    state.insert(cur.0, (MqPhase::WaitSlot, left - 1));
                },
            }
            if m.current_pid == cur {
                switch(&mut m, &mut ctx);
            }
        } else {
            if all_dead(&m, &pids) {
                break;
            }
            switch(&mut m, &mut ctx);
        }
    }
    assert_eq!(messages, 0);
}

#[derive(Clone, Copy, PartialEq, Eq, Debug)]
enum DinnerPhase {
    WaitSeat,
    WaitLeft,
    WaitRight,
    Eat,
    DropLeft,
    DropRight,
    LeaveSeat,
}

/// Five philosophers, each chopstick a binary semaphore, each eating
/// twenty times. Liveness comes from a seats semaphore that admits at
/// most four diners at once, so the run terminates.
#[test]
fn dining_philosophers() {
    let mut m = ProcessManager::init(Vec::new(), 1);
    let mut ctx = ProcessContext::new();
    const CHOPSTICK: [u32; 5] = [20, 21, 22, 23, 24];
    const SEATS: u32 = 30;
    for &c in &CHOPSTICK {
        assert_eq!(m.new_sem(c, 1), 0);
    }
    assert_eq!(m.new_sem(SEATS, 4), 0);
    let pids = fork_children(&mut m, 5);

    let mut seat_of: HashMap<u16, usize> = HashMap::new();
    let mut state: HashMap<u16, (DinnerPhase, u32)> = HashMap::new();
    let mut meals: [u32; 5] = [0; 5];
    for (i, &p) in pids.iter().enumerate() {
        seat_of.insert(p.0, i);
        state.insert(p.0, (DinnerPhase::WaitSeat, 20));
    }

    let mut steps = 0usize;
    loop {
        steps += 1;
        assert!(steps < WATCHDOG, "the philosophers starved");
        let cur = m.current_pid;
        if let Some(&(phase, left)) = state.get(&cur.0) {
            let i = seat_of[&cur.0];
            let leftstick = CHOPSTICK[i];
            let rightstick = CHOPSTICK[(i + 1) % 5];
            match phase {
                DinnerPhase::WaitSeat => {
                    state.insert(cur.0, (DinnerPhase::WaitLeft, left));
                    sem_wait(&mut m, SEATS, &mut ctx);
                },
                DinnerPhase::WaitLeft => {
                    state.insert(cur.0, (DinnerPhase::WaitRight, left));
                    sem_wait(&mut m, leftstick, &mut ctx);
                },
                DinnerPhase::WaitRight => {
                    state.insert(cur.0, (DinnerPhase::Eat, left));
                    sem_wait(&mut m, rightstick, &mut ctx);
                },
                DinnerPhase::Eat => {
                    meals[i] += 1;
                    state.insert(cur.0, (DinnerPhase::DropLeft, left));
                },
                DinnerPhase::DropLeft => {
                    state.insert(cur.0, (DinnerPhase::DropRight, left));
                    sem_signal(&mut m, leftstick, &mut ctx);
                },
                DinnerPhase::DropRight => {
                    state.insert(cur.0, (DinnerPhase::LeaveSeat, left));
                    sem_signal(&mut m, rightstick, &mut ctx);
                },
                DinnerPhase::LeaveSeat => {
                    sem_signal(&mut m, SEATS, &mut ctx);
                    if left == 1 {
                        state.remove(&cur.0);
                        exit(&mut m, 0, &mut ctx);
                        continue;
                    }
                    state.insert(cur.0, (DinnerPhase::WaitSeat, left - 1));
                },
            }
            if m.current_pid == cur {
                switch(&mut m, &mut ctx);
            }
        } else {
            if all_dead(&m, &pids) {
                break;
            }
            switch(&mut m, &mut ctx);
        }
    }
    assert_eq!(meals, [20, 20, 20, 20, 20]);
}

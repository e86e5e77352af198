//! The process, thread and lock model against this very process, and the
//! unwind cursor over a synthetic frame chain.

use remoteprocess::Error;
use remoteprocess::FRAME_LIMIT;
use remoteprocess::LocalProcess;
use remoteprocess::Process;
use remoteprocess::Thread;
use remoteprocess::ThreadLock;
use remoteprocess::UnwindCursor;

fn own_pid() -> i32 {
    nix::unistd::Pid::this().as_raw()
}

#[test]
fn a_negative_pid_is_rejected_and_a_missing_one_fails() {
    assert!(Process::new(-1).is_err());
    // Largest permitted pid on this system family; nothing runs there.
    assert!(Process::new(0x7fff_fffe).is_err());
}

#[test]
fn the_running_process_can_be_inspected() {
    let process = Process::new(own_pid()).unwrap();
    assert_eq!(process.pid, own_pid());
    let exe = process.exe_path().unwrap();
    assert!(exe.starts_with('/'));
    let cwd = process.cwd().unwrap();
    assert!(cwd.starts_with('/'));
    let threads = process.threads().unwrap();
    assert!(!threads.is_empty());
    let mut saw_self = false;
    for t in &threads {
        assert_eq!(t.pid, process.pid);
        assert!(t.id().unwrap() >= 0);
        if t.tid == own_pid() {
            saw_self = true;
        }
    }
    assert!(saw_self);
}

#[test]
fn the_calling_thread_reads_as_running() {
    let tid = nix::unistd::gettid().as_raw();
    let me = Thread { tid, pid: own_pid() };
    // This thread is executing this very test, so its state byte is R.
    assert_eq!(me.active().unwrap(), true);
}

#[test]
fn active_on_a_vanished_thread_is_an_error() {
    let ghost_thread = Thread { tid: 0x7fff_fffe, pid: 0x7fff_fffe };
    assert!(ghost_thread.active().is_err());
}

#[test]
fn locking_a_vanished_thread_fails_and_grants_no_lock() {
    let ghost_thread = Thread { tid: 0x7fff_fffe, pid: 0x7fff_fffe };
    match ghost_thread.lock() {
        Err(Error::NixError(_)) => {},
        Err(_) => panic!("expected the OS error domain"),
        Ok(_) => panic!("no lock can exist on a vanished thread"),
    }
}

#[test]
fn releasing_a_lock_twice_is_harmless_and_leaves_threads_queryable() {
    let mut lock = ThreadLock { tid: 0x7fff_fffe, released: false };
    lock.release();
    assert!(lock.released);
    lock.release();
    assert!(lock.released);
    drop(lock);
    // The thread (this one) is still queryable after a release cycle.
    let me = Thread { tid: own_pid(), pid: own_pid() };
    assert!(me.active().is_ok());
}

#[test]
fn thread_handles_come_from_the_numeric_names_in_order() {
    let names: Vec<Vec<u8>> = vec![
        b"12".to_vec(),
        b".".to_vec(),
        b"..".to_vec(),
        b"4294967295".to_vec(),
        b"77".to_vec(),
    ];
    let ts = remoteprocess::threads_from_names(9, &names);
    let pairs: Vec<(i32, i32)> = ts.iter().map(|t| (t.tid, t.pid)).collect();
    // Dot entries and a value too large for a thread id contribute nothing.
    assert_eq!(pairs, vec![(12, 9), (77, 9)]);
}

fn code_in_this_binary() {}

#[test]
fn a_cursor_needs_a_traced_thread() {
    let process = Process::new(own_pid()).unwrap();
    let unwinder = process.unwinder().unwrap();
    let me = Thread { tid: own_pid(), pid: own_pid() };
    // This process does not trace itself, so the registers are unreadable
    // and no cursor comes back.
    assert!(unwinder.cursor(&me).is_err());
}

#[test]
fn the_own_mapping_table_parses_and_locates_running_code() {
    let process = Process::new(own_pid()).unwrap();
    let map = process.modules().unwrap();
    assert!(map.len() > 0);
    let f: fn() = code_in_this_binary;
    let addr = f as usize as u64;
    assert!(map.find(addr).is_some());
    let symbolicator = process.symbolicator().unwrap();
    let frame = symbolicator.symbolicate(addr, true).unwrap();
    assert_eq!(frame.addr, addr);
    assert!(frame.module.starts_with('/'));
}

/// Build a frame chain in this process's own memory: each frame is two
/// words, the saved frame pointer then the return address.
fn synthetic_stack(returns: &[u64]) -> (Vec<u64>, u64) {
    // frames[2k] is frame k's saved-bp slot, frames[2k + 1] its return slot.
    let mut frames: Vec<u64> = vec![0; returns.len() * 2];
    let base = frames.as_ptr() as u64;
    for (k, r) in returns.iter().enumerate() {
        frames[2 * k + 1] = *r;
        frames[2 * k] = if k + 1 < returns.len() { base + (2 * (k + 1) * 8) as u64 } else { 0 };
    }
    let first = base;
    (frames, first)
}

#[test]
fn the_cursor_walks_the_frame_chain_and_then_stays_finished() {
    let returns = [0x1111, 0x2222, 0x3333];
    let (frames, first_bp) = synthetic_stack(&returns);
    let mut cursor = UnwindCursor {
        ip: 0xAAAA,
        sp: 1,
        bp: first_bp,
        remaining: FRAME_LIMIT,
        started: false,
        done: false,
    };
    let mut got: Vec<u64> = Vec::new();
    while let Some(item) = cursor.next(&LocalProcess) {
        got.push(item.unwrap());
    }
    assert_eq!(got, vec![0xAAAA, 0x1111, 0x2222, 0x3333]);
    // End of the walk is final: further pulls yield nothing, not an error.
    assert!(cursor.next(&LocalProcess).is_none());
    assert!(cursor.next(&LocalProcess).is_none());
    drop(frames);
}

#[test]
fn the_cursor_yields_at_most_its_frame_budget() {
    // A frame whose saved bp points back at itself would walk forever
    // without the budget.
    let mut frames: Vec<u64> = vec![0, 0x9999];
    let base = frames.as_ptr() as u64;
    frames[0] = base;
    let mut cursor = UnwindCursor {
        ip: 0xAAAA,
        sp: 1,
        bp: base,
        remaining: FRAME_LIMIT,
        started: false,
        done: false,
    };
    let mut count = 0usize;
    while let Some(item) = cursor.next(&LocalProcess) {
        assert!(item.is_ok());
        count += 1;
        assert!(count <= FRAME_LIMIT);
    }
    assert_eq!(count, FRAME_LIMIT);
    assert!(cursor.next(&LocalProcess).is_none());
}

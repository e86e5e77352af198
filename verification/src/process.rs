//! The process / thread / lock lifecycle: attaching to a target process,
//! enumerating its threads, querying a thread's run state, and suspending a
//! thread for the lifetime of a scoped lock.

use vstd::prelude::*;
use std::collections::HashMap;

use crate::error::Error;
use crate::maps::{ModuleMap, parse_maps_text};
use crate::memory::{ProcessMemory, vm_read};
use crate::render::{dec_chars, u64_dec};
use crate::symbol::Symbolicator;

verus! {

/// Is every byte of `s` the code of a decimal digit?
pub open spec fn is_dec_digits(s: Seq<u8>) -> bool {
    forall|i: int| 0 <= i < s.len() ==> 48 <= #[trigger] s[i] <= 57
}

/// The number that the digit bytes `s` spell in decimal.
pub open spec fn dec_value_of(s: Seq<u8>) -> int
    decreases s.len(),
{
    if s.len() == 0 {
        0
    } else {
        dec_value_of(s.drop_last()) * 10 + (s.last() - 48)
    }
}

proof fn lemma_dec_value_nonneg(s: Seq<u8>)
    requires
        is_dec_digits(s),
    ensures
        dec_value_of(s) >= 0,
    decreases s.len(),
{
    if s.len() > 0 {
        assert(is_dec_digits(s.drop_last()));
        lemma_dec_value_nonneg(s.drop_last());
    }
}

proof fn lemma_dec_prefix_le(s: Seq<u8>, i: int)
    requires
        is_dec_digits(s),
        0 <= i <= s.len(),
    ensures
        dec_value_of(s.subrange(0, i)) <= dec_value_of(s),
    decreases s.len() - i,
{
    if i == s.len() {
        assert(s.subrange(0, i) =~= s);
    } else {
        let p = s.subrange(0, i + 1);
        assert(p.drop_last() =~= s.subrange(0, i));
        assert(is_dec_digits(s.subrange(0, i)));
        lemma_dec_value_nonneg(s.subrange(0, i));
        lemma_dec_prefix_le(s, i + 1);
    }
}

/// Parse `s` as an unsigned decimal number: the result exists exactly when
/// `s` is nonempty, wholly digits, and the value fits in a `u64`.
pub fn parse_dec_u64(s: &Vec<u8>) -> (r: Option<u64>)
    ensures
        r matches Some(v) ==> s@.len() > 0 && is_dec_digits(s@) && v == dec_value_of(s@),
        r is None ==> s@.len() == 0 || !is_dec_digits(s@) || dec_value_of(s@) > u64::MAX,
{
    if s.len() == 0 {
        return None;
    }
    let mut acc: u64 = 0;
    let mut i: usize = 0;
    while i < s.len()
        invariant
            0 <= i <= s@.len(),
            is_dec_digits(s@.subrange(0, i as int)),
            acc == dec_value_of(s@.subrange(0, i as int)),
        decreases s@.len() - i,
    {
        let b = s[i];
        if b < 48 || b > 57 {
            proof {
                assert(!is_dec_digits(s@));
            }
            return None;
        }
        let d = (b - 48) as u64;
        proof {
            assert(s@.subrange(0, i as int + 1).drop_last() =~= s@.subrange(0, i as int));
            assert(is_dec_digits(s@.subrange(0, i as int + 1)));
        }
        if acc > 1844674407370955161 || (acc == 1844674407370955161 && d > 5) {
            proof {
                assert(dec_value_of(s@.subrange(0, i as int + 1)) > u64::MAX);
                if is_dec_digits(s@) {
                    lemma_dec_prefix_le(s@, i as int + 1);
                }
            }
            return None;
        }
        acc = acc * 10 + d;
        i = i + 1;
    }
    proof {
        assert(s@.subrange(0, i as int) =~= s@);
    }
    Some(acc)
}

/// The position of the last `)` byte in `s`, or `-1` when there is none.
pub open spec fn last_paren(s: Seq<u8>) -> int
    decreases s.len(),
{
    if s.len() == 0 {
        -1
    } else if s.last() == 41 {
        s.len() - 1
    } else {
        last_paren(s.drop_last())
    }
}

proof fn lemma_last_paren_at(s: Seq<u8>, j: int)
    requires
        0 <= j < s.len(),
        s[j] == 41,
        forall|k: int| j < k < s.len() ==> s[k] != 41,
    ensures
        last_paren(s) == j,
    decreases s.len(),
{
    if j == s.len() - 1 {
    } else {
        assert(s.last() != 41);
        assert(s.drop_last()[j] == 41);
        lemma_last_paren_at(s.drop_last(), j);
    }
}

proof fn lemma_last_paren_none(s: Seq<u8>)
    requires
        forall|k: int| 0 <= k < s.len() ==> s[k] != 41,
    ensures
        last_paren(s) == -1,
    decreases s.len(),
{
    if s.len() > 0 {
        assert(s.last() != 41);
        lemma_last_paren_none(s.drop_last());
    }
}

/// The state byte of a `stat` line from the proc filesystem: the byte two
/// places after the last `)` (the parenthesised command name may itself hold
/// `)` and spaces, so the last one is the delimiter that counts). `None`
/// when the text is too short to have one.
pub open spec fn stat_state(s: Seq<u8>) -> Option<u8> {
    let j = last_paren(s);
    if j >= 0 && j + 2 < s.len() {
        Some(s[j + 2])
    } else {
        None
    }
}

/// Read the run state out of a `stat` line: `Some(true)` when the state byte
/// says running (`R`), `Some(false)` for every other state, `None` when the
/// line is malformed, exactly as [`stat_state`] says.
pub fn parse_stat_running(text: &Vec<u8>) -> (r: Option<bool>)
    ensures
        r matches Some(b) ==> stat_state(text@) matches Some(c) && (b <==> c == 82),
        r is None <==> stat_state(text@) is None,
{
    let n = text.len();
    let mut i: usize = n;
    while i > 0
        invariant
            n == text@.len(),
            0 <= i <= text@.len(),
            forall|k: int| i <= k < text@.len() ==> text@[k] != 41,
        decreases i,
    {
        if text[i - 1] == 41 {
            proof {
                lemma_last_paren_at(text@, i - 1);
            }
            if i < n - 1 {
                let c = text[i + 1];
                return Some(c == 82);
            } else {
                return None;
            }
        }
        i = i - 1;
    }
    proof {
        lemma_last_paren_none(text@);
    }
    None
}

/// Operating-system process identifier.
pub type Pid = i32;

/// Operating-system thread identifier.
pub type Tid = i32;

/// Does the parent chain of the pid map `m` that starts at `p` reach
/// `target` within `fuel` steps? A missing entry ends the chain without a
/// match; a chain that cycles (a self-referential entry included) burns its
/// fuel and ends without a match.
pub open spec fn chain_reaches(m: Map<Pid, Pid>, target: Pid, p: Pid, fuel: nat) -> bool
    decreases fuel,
{
    if p == target {
        true
    } else if fuel == 0 {
        false
    } else if m.contains_key(p) {
        chain_reaches(m, target, m[p], (fuel - 1) as nat)
    } else {
        false
    }
}

/// Is the pair `(child, parent)` a descendant entry of `target` in `m`: the
/// map holds it, and the parent chain from `parent` reaches `target` within
/// as many steps as the map has entries (a chain that has not arrived by
/// then has cycled and never will).
pub open spec fn is_descendant_pair(m: Map<Pid, Pid>, target: Pid, child: Pid, parent: Pid) -> bool {
    m.contains_key(child) && m[child] == parent && chain_reaches(m, target, parent, m.len())
}

/// Walk the parent chain from `current`, spending one unit of fuel per step,
/// and report whether it reaches `target`.
fn chain_hits(processes: &HashMap<Pid, Pid>, target: Pid, current: Pid, fuel: usize) -> (b: bool)
    ensures
        b == chain_reaches(processes@, target, current, fuel as nat),
    decreases fuel,
{
    broadcast use vstd::std_specs::hash::group_hash_axioms;

    if current == target {
        true
    } else if fuel == 0 {
        false
    } else {
        match processes.get(&current) {
            Some(next) => chain_hits(processes, target, *next, fuel - 1),
            None => false,
        }
    }
}

/// The subset of a pid-to-parent-pid snapshot whose entries descend from
/// `target_pid`: a pair is kept exactly when its parent chain reaches
/// `target_pid`. A chain that leaves the map, or cycles without reaching the
/// target, excludes its pair and terminates the walk.
pub fn filter_child_pids(target_pid: Pid, processes: &HashMap<Pid, Pid>) -> (r: Vec<(Pid, Pid)>)
    ensures
        forall|k: int| 0 <= k < r@.len() ==> is_descendant_pair(
            processes@,
            target_pid,
            #[trigger] r@[k].0,
            r@[k].1,
        ),
        forall|c: Pid| #[trigger] processes@.contains_key(c) && chain_reaches(
            processes@,
            target_pid,
            processes@[c],
            processes@.len(),
        ) ==> r@.contains((c, processes@[c])),
        forall|k1: int, k2: int| 0 <= k1 < k2 < r@.len() ==> (#[trigger] r@[k1]).0 != (
        #[trigger] r@[k2]).0,
{
    broadcast use vstd::std_specs::hash::group_hash_axioms;

    let ghost m = processes@;
    let fuel = processes.len();
    let mut ret: Vec<(Pid, Pid)> = Vec::new();
    let ghost mut seen: Set<Pid> = Set::empty();
    for pair in it: processes.iter()
        invariant
            m == processes@,
            fuel as nat == m.len(),
            forall|j: int| 0 <= j < it.seq().len() ==> m.contains_key(#[trigger] (*it.seq()[j].0))
                && m[*it.seq()[j].0] == *it.seq()[j].1,
            forall|k: int| 0 <= k < ret@.len() ==> is_descendant_pair(
                m,
                target_pid,
                #[trigger] ret@[k].0,
                ret@[k].1,
            ),
            forall|c: Pid| #[trigger] seen.contains(c) && chain_reaches(
                m,
                target_pid,
                m[c],
                m.len(),
            ) ==> ret@.contains((c, m[c])),
            forall|c: Pid| #[trigger] m.contains_key(c) && !seen.contains(c) ==> exists|j: int|
                it.index() <= j < it.seq().len() && it.seq()[j] == (&c, &m[c]),
            it.seq().no_duplicates(),
            forall|c: Pid| #[trigger] seen.contains(c) ==> exists|j: int| 0 <= j < it.index()
                && it.seq()[j] == (&c, &m[c]),
            forall|k: int| 0 <= k < ret@.len() ==> seen.contains((#[trigger] ret@[k]).0),
            forall|k1: int, k2: int| 0 <= k1 < k2 < ret@.len() ==> (#[trigger] ret@[k1]).0 != (
            #[trigger] ret@[k2]).0,
    {
        let child: Pid = *pair.0;
        let parent: Pid = *pair.1;
        proof {
            assert(pair == it.seq()[it.index()]);
            assert(m.contains_key(child) && m[child] == parent);
            assert(it.seq()[it.index()] == (&child, &m[child]));
            assert(!seen.contains(child)) by {
                if seen.contains(child) {
                    let j0 = choose|j: int|
                        0 <= j < it.index() && it.seq()[j] == (&child, &m[child]);
                    assert(it.seq()[j0] == it.seq()[it.index()]);
                    assert(false);
                }
            }
        }
        let ghost ret0 = ret@;
        let ghost seen0 = seen;
        if chain_hits(processes, target_pid, parent, fuel) {
            ret.push((child, parent));
        }
        proof {
            seen = seen.insert(child);
            assert forall|c: Pid| #[trigger] seen.contains(c) && chain_reaches(
                m,
                target_pid,
                m[c],
                m.len(),
            ) implies ret@.contains((c, m[c])) by {
                if c == child {
                    assert(ret@[ret@.len() - 1] == (child, parent));
                } else {
                    assert(seen0.contains(c));
                    assert(ret0.contains((c, m[c])));
                    let i = choose|i: int| 0 <= i < ret0.len() && ret0[i] == (c, m[c]);
                    assert(ret@[i] == (c, m[c]));
                }
            }
            assert forall|c: Pid| #[trigger] m.contains_key(c) && !seen.contains(c) implies
                exists|j: int|
                    it.index() + 1 <= j < it.seq().len() && it.seq()[j] == (&c, &m[c]) by {
                let j0 = choose|j: int|
                    it.index() <= j < it.seq().len() && it.seq()[j] == (&c, &m[c]);
                if j0 == it.index() {
                    assert(c == child);
                } else {
                    assert(it.index() + 1 <= j0 < it.seq().len() && it.seq()[j0] == (&c, &m[c]));
                }
            }
            assert forall|c: Pid| #[trigger] seen.contains(c) implies exists|j: int|
                0 <= j < it.index() + 1 && it.seq()[j] == (&c, &m[c]) by {
                if c == child {
                    assert(it.seq()[it.index()] == (&c, &m[c]));
                } else {
                    let j0 = choose|j: int| 0 <= j < it.index() && it.seq()[j] == (&c, &m[c]);
                    assert(0 <= j0 < it.index() + 1 && it.seq()[j0] == (&c, &m[c]));
                }
            }
            assert forall|k1: int, k2: int| 0 <= k1 < k2 < ret@.len() implies (
            #[trigger] ret@[k1]).0 != (#[trigger] ret@[k2]).0 by {
                if k2 < ret0.len() {
                    assert(ret@[k1] == ret0[k1] && ret@[k2] == ret0[k2]);
                } else {
                    assert(ret@[k2].0 == child);
                    assert(ret@[k1] == ret0[k1]);
                    assert(seen0.contains(ret0[k1].0));
                }
            }
        }
    }
    ret
}

/// Relies on `nix::fcntl::readlink`: on success the returned string is the
/// link's target, rendered lossily where it is not UTF-8.
#[verifier::external_body]
fn readlink_path(path: &str) -> (r: Result<String, Error>) {
    match nix::fcntl::readlink(path) {
        Ok(target) => Ok(target.to_string_lossy().into_owned()),
        Err(e) => Err(Error::NixError(e)),
    }
}

/// Relies on `nix::fcntl::open` and `nix::unistd::read` to bring a whole
/// (small, pseudo-filesystem) file into memory; the descriptor closes when
/// it drops.
#[verifier::external_body]
fn read_file_bytes(path: &str) -> (r: Result<Vec<u8>, Error>) {
    let fd = match nix::fcntl::open(path, nix::fcntl::OFlag::O_RDONLY, nix::sys::stat::Mode::empty()) {
        Ok(fd) => fd,
        Err(e) => return Err(Error::NixError(e)),
    };
    let mut out: Vec<u8> = Vec::new();
    let mut buf = [0u8; 4096];
    loop {
        match nix::unistd::read(&fd, &mut buf) {
            Ok(0) => return Ok(out),
            Ok(n) => out.extend_from_slice(&buf[..n]),
            Err(e) => return Err(Error::NixError(e)),
        }
    }
}

/// Relies on `nix::dir::Dir` to list a directory; each entry's name comes
/// back as its bytes, `.` and `..` included.
#[verifier::external_body]
fn list_dir_names(path: &str) -> (r: Result<Vec<Vec<u8>>, Error>) {
    let flags = nix::fcntl::OFlag::O_RDONLY | nix::fcntl::OFlag::O_DIRECTORY;
    let mut dir = nix::dir::Dir::open(path, flags, nix::sys::stat::Mode::empty())
        .map_err(Error::NixError)?;
    let mut names: Vec<Vec<u8>> = Vec::new();
    for entry in dir.iter() {
        let e = entry.map_err(Error::NixError)?;
        names.push(e.file_name().to_bytes().to_vec());
    }
    Ok(names)
}

/// Relies on `nix::sys::ptrace::attach`: on success the thread has been told
/// to stop and this process became its tracer.
#[verifier::external_body]
fn ptrace_attach(tid: Tid) -> (r: Result<(), Error>) {
    match nix::sys::ptrace::attach(nix::unistd::Pid::from_raw(tid)) {
        Ok(()) => Ok(()),
        Err(e) => Err(Error::NixError(e)),
    }
}

/// Relies on `nix::sys::wait::waitpid` with `__WALL`: only a status that
/// says the traced thread stopped counts as success — one that says it
/// exited instead (or anything else) does not, so no lock is granted on a
/// thread that died on the way down.
#[verifier::external_body]
fn wait_for_stop(tid: Tid) -> (r: Result<(), Error>) {
    match nix::sys::wait::waitpid(
        nix::unistd::Pid::from_raw(tid),
        Some(nix::sys::wait::WaitPidFlag::__WALL),
    ) {
        Ok(nix::sys::wait::WaitStatus::Stopped(_, _)) => Ok(()),
        Ok(_) => Err(Error::Other(String::from("thread vanished before it stopped"))),
        Err(e) => Err(Error::NixError(e)),
    }
}

/// Relies on `nix::sys::ptrace::detach` with no signal: the thread resumes
/// and this process stops tracing it. It does not unwind.
#[verifier::external_body]
fn ptrace_detach(tid: Tid) -> (r: Result<(), Error>)
    opens_invariants none
    no_unwind
{
    match nix::sys::ptrace::detach(nix::unistd::Pid::from_raw(tid), None) {
        Ok(()) => Ok(()),
        Err(e) => Err(Error::NixError(e)),
    }
}

/// The path of the `name` entry under the target's proc directory:
/// `/proc/<id>/<name>`.
pub open spec fn proc_entry_text(id: Pid, name: Seq<char>) -> Seq<char> {
    "/proc/"@ + dec_chars(id as int) + "/"@ + name
}

fn proc_entry_path(id: Pid, name: &str) -> (s: String)
    requires
        id >= 0,
    ensures
        s@ == proc_entry_text(id, name@),
{
    let mut s = String::from_str("/proc/");
    let dec = u64_dec(id as u64);
    s.append(dec.as_str());
    s.append("/");
    s.append(name);
    proof {
        assert(s@ =~= proc_entry_text(id, name@));
    }
    s
}

/// A handle on a target process, the capability from which everything else
/// is reached: thread enumeration, memory reads, unwinding, symbolication.
pub struct Process {
    /// The target's process id, nonnegative for a handle built by
    /// [`Process::new`].
    pub pid: Pid,
}

/// One thread of a target process.
#[derive(Clone, Copy, Debug)]
pub struct Thread {
    /// The thread's own id.
    pub tid: Tid,
    /// The id of the process it belongs to.
    pub pid: Pid,
}

/// A scoped suspension of one thread: while the lock lives, the thread is
/// stopped and its registers and stack are stable. Releasing it — explicitly
/// or by dropping it — resumes the thread; releasing twice does nothing the
/// second time.
pub struct ThreadLock {
    /// The suspended thread.
    pub tid: Tid,
    /// Whether the suspension has already been released.
    pub released: bool,
}

impl Process {
    /// Attach to the process with the given id. Fails with an OS error when
    /// no such process exists or it cannot be inspected; a negative id is
    /// rejected outright.
    pub fn new(pid: Pid) -> (r: Result<Process, Error>)
        ensures
            r matches Ok(p) ==> p.pid == pid && pid >= 0,
            pid < 0 ==> (match r {
                Err(Error::Other(m)) => m@ == "process id out of range"@,
                _ => false,
            }),
    {
        if pid < 0 {
            return Err(Error::Other(String::from_str("process id out of range")));
        }
        let path = proc_entry_path(pid, "exe");
        match readlink_path(path.as_str()) {
            Ok(_) => Ok(Process { pid }),
            Err(e) => Err(e),
        }
    }

    /// The path of the executable the target is running.
    pub fn exe_path(&self) -> (r: Result<String, Error>)
        requires
            self.pid >= 0,
    {
        let path = proc_entry_path(self.pid, "exe");
        readlink_path(path.as_str())
    }

    /// The target's current working directory. On some systems the value
    /// can lag the target's most recent change of directory.
    pub fn cwd(&self) -> (r: Result<String, Error>)
        requires
            self.pid >= 0,
    {
        let path = proc_entry_path(self.pid, "cwd");
        readlink_path(path.as_str())
    }

    /// The threads of the target, one handle each, every one carrying this
    /// process's id: [`spec_thread_list`] of the task-directory listing.
    /// Directory entries that do not spell a thread id are not thread
    /// entries and are skipped.
    pub fn threads(&self) -> (r: Result<Vec<Thread>, Error>)
        requires
            self.pid >= 0,
        ensures
            r matches Ok(ts) ==> forall|i: int| 0 <= i < ts@.len() ==> (#[trigger] ts@[i]).pid
                == self.pid && ts@[i].tid >= 0,
    {
        let path = proc_entry_path(self.pid, "task");
        let names = match list_dir_names(path.as_str()) {
            Ok(ns) => ns,
            Err(e) => { return Err(e); },
        };
        let ts = threads_from_names(self.pid, &names);
        proof {
            lemma_spec_thread_list_elems(self.pid, names@);
        }
        Ok(ts)
    }
}

/// Does the byte string spell a thread id: nonempty, wholly decimal digits,
/// and a value a thread id can hold?
pub open spec fn name_tid(s: Seq<u8>) -> Option<Tid> {
    if s.len() > 0 && is_dec_digits(s) && dec_value_of(s) <= 0x7fff_ffff {
        Some(dec_value_of(s) as Tid)
    } else {
        None
    }
}

/// The thread handles that a task-directory listing yields for `pid`: one
/// per name that spells a thread id ([`name_tid`]), in the listing's order;
/// every other entry (`.` and `..` among them) contributes nothing.
pub open spec fn spec_thread_list(pid: Pid, names: Seq<Vec<u8>>) -> Seq<Thread>
    decreases names.len(),
{
    if names.len() == 0 {
        Seq::empty()
    } else {
        let rest = spec_thread_list(pid, names.drop_last());
        match name_tid(names.last()@) {
            Some(t) => rest.push(Thread { tid: t, pid }),
            None => rest,
        }
    }
}

proof fn lemma_spec_thread_list_elems(pid: Pid, names: Seq<Vec<u8>>)
    ensures
        forall|i: int| 0 <= i < spec_thread_list(pid, names).len() ==> (
        #[trigger] spec_thread_list(pid, names)[i]).pid == pid && spec_thread_list(
            pid,
            names,
        )[i].tid >= 0,
    decreases names.len(),
{
    if names.len() > 0 {
        lemma_spec_thread_list_elems(pid, names.drop_last());
        if name_tid(names.last()@) is Some {
            lemma_dec_value_nonneg(names.last()@);
        }
        assert forall|i: int| 0 <= i < spec_thread_list(pid, names).len() implies (
        #[trigger] spec_thread_list(pid, names)[i]).pid == pid && spec_thread_list(
            pid,
            names,
        )[i].tid >= 0 by {
            let whole = spec_thread_list(pid, names);
            let rest = spec_thread_list(pid, names.drop_last());
            match name_tid(names.last()@) {
                Some(t) => {
                    if i < rest.len() {
                        assert(whole[i] == rest[i]);
                    } else {
                        assert(whole[i] == Thread { tid: t, pid });
                    }
                },
                None => {
                    assert(whole[i] == rest[i]);
                },
            }
        }
    }
}

/// Turn a task-directory listing into thread handles, exactly
/// [`spec_thread_list`] of it: each name that spells a decimal thread id
/// yields a handle carrying `pid`, in the listing's order, and nothing else
/// comes back.
pub fn threads_from_names(pid: Pid, names: &Vec<Vec<u8>>) -> (ts: Vec<Thread>)
    ensures
        ts@ == spec_thread_list(pid, names@),
{
    let mut ts: Vec<Thread> = Vec::new();
    let mut i: usize = 0;
    while i < names.len()
        invariant
            0 <= i <= names@.len(),
            ts@ == spec_thread_list(pid, names@.subrange(0, i as int)),
        decreases names@.len() - i,
    {
        proof {
            assert(names@.subrange(0, i as int + 1).drop_last() =~= names@.subrange(0, i as int));
            assert(names@.subrange(0, i as int + 1).last() == names@[i as int]);
        }
        match parse_dec_u64(&names[i]) {
            Some(v) => {
                if v <= 0x7fff_ffff {
                    ts.push(Thread { tid: v as i32, pid });
                }
            },
            None => {},
        }
        i = i + 1;
    }
    proof {
        assert(names@.subrange(0, i as int) =~= names@);
    }
    ts
}

impl Process {
    /// The binaries currently mapped executable into the target, scanned
    /// fresh from the target's mapping table. Scan again ("reload") when the
    /// target may have loaded or unloaded a binary since: staleness is a
    /// normal condition of a map, not a fault.
    pub fn modules(&self) -> (r: Result<ModuleMap, Error>)
        requires
            self.pid >= 0,
        ensures
            r matches Ok(m) ==> m.wf(),
    {
        let path = proc_entry_path(self.pid, "maps");
        let text = match read_file_bytes(path.as_str()) {
            Ok(t) => t,
            Err(e) => { return Err(e); },
        };
        let entries = parse_maps_text(&text);
        ModuleMap::from_entries(entries)
    }

    /// An address resolver over a fresh module map of the target.
    pub fn symbolicator(&self) -> (r: Result<Symbolicator, Error>)
        requires
            self.pid >= 0,
        ensures
            r matches Ok(s) ==> s.wf(),
    {
        let map = match self.modules() {
            Ok(m) => m,
            Err(e) => { return Err(e); },
        };
        Ok(Symbolicator::new(map))
    }
}

impl ProcessMemory for Process {
    fn read(&self, addr: usize, buf: &mut Vec<u8>) -> (r: Result<(), Error>) {
        vm_read(self.pid, addr, buf)
    }
}

impl Thread {
    /// The thread's stable identifier.
    pub fn id(&self) -> (r: Result<Tid, Error>)
        ensures
            r matches Ok(t) && t == self.tid,
    {
        Ok(self.tid)
    }

    /// Whether the thread is running right now, as a point-in-time reading
    /// of its `stat` entry ([`parse_stat_running`] says exactly how the text
    /// is judged). Valid without a lock — but a locked thread reads as idle,
    /// so snapshot this before locking where the pre-suspension state
    /// matters.
    pub fn active(&self) -> (r: Result<bool, Error>)
        requires
            self.tid >= 0,
    {
        let path = proc_entry_path(self.tid, "stat");
        let text = match read_file_bytes(path.as_str()) {
            Ok(t) => t,
            Err(e) => { return Err(e); },
        };
        match parse_stat_running(&text) {
            Some(b) => Ok(b),
            None => Err(Error::Other(String::from_str("malformed stat entry"))),
        }
    }

    /// Suspend this thread for inspection. On success the lock holds the
    /// thread stopped until released. When suspension cannot be completed no
    /// lock exists and the thread is left as it was: a thread told to stop
    /// that then cannot be waited on is resumed before the error returns.
    /// Do not lock a thread twice concurrently from the same observer: the
    /// second suspension's behaviour is the platform primitive's, not
    /// something this crate defines.
    pub fn lock(&self) -> (r: Result<ThreadLock, Error>)
        ensures
            r matches Ok(l) ==> l.tid == self.tid && !l.released,
    {
        match ptrace_attach(self.tid) {
            Ok(()) => {},
            Err(e) => { return Err(e); },
        }
        match wait_for_stop(self.tid) {
            Ok(()) => Ok(ThreadLock { tid: self.tid, released: false }),
            Err(e) => {
                let _ = ptrace_detach(self.tid);
                Err(e)
            },
        }
    }
}

impl ThreadLock {
    /// Resume the thread. The first release detaches; any further release
    /// does nothing, so releasing on every exit path is safe. A detach that
    /// fails because the thread is already gone is swallowed: there is
    /// nothing left to resume.
    pub fn release(&mut self)
        ensures
            final(self).released,
            final(self).tid == old(self).tid,
        opens_invariants none
        no_unwind
    {
        if !self.released {
            let _ = ptrace_detach(self.tid);
            self.released = true;
        }
    }
}

impl Drop for ThreadLock {
    /// Dropping the lock releases it, so the thread resumes on every exit
    /// path, error paths included.
    fn drop(&mut self)
        opens_invariants none
        no_unwind
    {
        self.release();
    }
}

} // verus!

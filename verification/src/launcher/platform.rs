//! Process control, behind a trait so the launcher is testable off the box.

use vstd::prelude::*;

use crate::strset::views;
use crate::text::owned;

verus! {

/// A process handle: the OS pid, for a real platform.
pub type Pid = u32;

/// Everything the room needs from the operating system to run an app.
///
/// An implementation keeps account of what it was asked: every spawn, with
/// its program and arguments, whether or not it started anything; every
/// pid a spawn handed out; every kill. `is_running` answers what
/// [`alive`] says of the process at the moment it is asked.
///
/// The model has defaults because an implementation built outside verified
/// code, over real processes, cannot state one; such an implementation is
/// held to these contracts by nothing, and the defaults describe nothing.
///
/// [`alive`]: Platform::alive
pub trait Platform {
    /// Whether process `pid` is alive, as this platform knows it.
    open spec fn alive(&self, pid: Pid) -> bool {
        false
    }

    /// Every spawn asked of this platform, program and arguments, oldest
    /// first.
    open spec fn spawns(&self) -> Seq<(Seq<char>, Seq<Seq<char>>)> {
        Seq::empty()
    }

    /// Every pid a spawn handed out, oldest first.
    open spec fn started(&self) -> Seq<Pid> {
        Seq::empty()
    }

    /// Every pid a kill was asked for, oldest first.
    open spec fn kills(&self) -> Seq<Pid> {
        Seq::empty()
    }

    /// Start a program and return a handle to it.
    fn spawn(&mut self, program: &str, args: &[String]) -> (r: Result<Pid, String>)
        ensures
            final(self).spawns() == old(self).spawns().push((program@, views(args@))),
            final(self).kills() == old(self).kills(),
            match r {
                Ok(pid) => final(self).started() == old(self).started().push(pid),
                Err(_) => final(self).started() == old(self).started(),
            },
    ;

    /// Stop a process. Stopping an already-dead process is not an error.
    fn kill(&mut self, pid: Pid) -> (r: Result<(), String>)
        ensures
            final(self).kills() == old(self).kills().push(pid),
            final(self).spawns() == old(self).spawns(),
            final(self).started() == old(self).started(),
    ;

    /// Whether the process is still alive.
    fn is_running(&mut self, pid: Pid) -> (r: bool)
        ensures
            r == old(self).alive(pid),
            final(self).spawns() == old(self).spawns(),
            final(self).started() == old(self).started(),
            final(self).kills() == old(self).kills(),
    ;
}

/// An in-memory platform for tests. Records every spawn and lets a test
/// simulate an app the user quit from inside itself.
#[derive(Debug)]
pub struct MockPlatform {
    next_pid: Pid,
    running: Vec<Pid>,
    spawned: Vec<(String, Vec<String>)>,
    asked: Vec<(String, Vec<String>)>,
    killed: Vec<Pid>,
    fail_next_kill: bool,
    fail_next_spawn: bool,
}

/// What a mock platform holds.
pub struct PlatformModel {
    /// The last pid handed out; none is ever handed out twice.
    pub next_pid: Pid,
    /// The pids alive, ascending.
    pub running: Seq<Pid>,
    /// Every program and its arguments spawned, in order.
    pub spawned: Seq<(Seq<char>, Seq<Seq<char>>)>,
    /// Every program and its arguments asked for, started or not, in order.
    pub asked: Seq<(Seq<char>, Seq<Seq<char>>)>,
    /// Every pid a kill was asked for, in order.
    pub killed: Seq<Pid>,
    /// Whether the next kill fails.
    pub fail_next_kill: bool,
    /// Whether the next spawn fails.
    pub fail_next_spawn: bool,
}

/// The model of a list of spawns.
pub open spec fn spawn_views(v: Seq<(String, Vec<String>)>) -> Seq<(Seq<char>, Seq<Seq<char>>)> {
    v.map_values(|s: (String, Vec<String>)| (s.0@, views(s.1@)))
}

/// `s` without `pid`.
pub open spec fn without_pid(s: Seq<Pid>, pid: Pid) -> Seq<Pid> {
    s.filter(other_than(pid))
}

/// Whether a pid is some pid other than `pid`.
pub open spec fn other_than(pid: Pid) -> spec_fn(Pid) -> bool {
    |p: Pid| p != pid
}

/// Strictly ascending.
pub open spec fn ascending(s: Seq<Pid>) -> bool {
    forall|i: int, j: int| 0 <= i < j < s.len() ==> s[i] < s[j]
}

impl View for MockPlatform {
    type V = PlatformModel;

    closed spec fn view(&self) -> PlatformModel {
        PlatformModel {
            next_pid: self.next_pid,
            running: self.running@,
            spawned: spawn_views(self.spawned@),
            asked: spawn_views(self.asked@),
            killed: self.killed@,
            fail_next_kill: self.fail_next_kill,
            fail_next_spawn: self.fail_next_spawn,
        }
    }
}

impl MockPlatform {
    #[verifier::type_invariant]
    closed spec fn inv(self) -> bool {
        &&& ascending(self.running@)
        &&& forall|i: int| 0 <= i < self.running@.len() ==> 0 < #[trigger] self.running@[i] <= self.next_pid
    }

    /// An empty mock platform.
    pub fn new() -> (r: Self)
        ensures
            r@.next_pid == 0,
            r@.running.len() == 0,
            r@.spawned.len() == 0,
            r@.asked.len() == 0,
            r@.killed.len() == 0,
            !r@.fail_next_kill,
            !r@.fail_next_spawn,
    {
        MockPlatform {
            next_pid: 0,
            running: Vec::new(),
            spawned: Vec::new(),
            asked: Vec::new(),
            killed: Vec::new(),
            fail_next_kill: false,
            fail_next_spawn: false,
        }
    }

    /// Every `(program, args)` pair spawned so far, in order.
    pub fn spawned(&self) -> (r: Vec<(String, Vec<String>)>)
        ensures
            spawn_views(r@) == self@.spawned,
    {
        let mut out: Vec<(String, Vec<String>)> = Vec::new();
        let mut i: usize = 0;
        while i < self.spawned.len()
            invariant
                i <= self.spawned@.len(),
                spawn_views(out@) == spawn_views(self.spawned@).subrange(0, i as int),
            decreases self.spawned@.len() - i,
        {
            let program = self.spawned[i].0.clone();
            let args = crate::event::clone_strings(&self.spawned[i].1);
            let ghost prev = out@;
            out.push((program, args));
            assert(spawn_views(out@) =~= spawn_views(prev).push(spawn_views(self.spawned@)[i as int]));
            i = i + 1;
            assert(spawn_views(out@) =~= spawn_views(self.spawned@).subrange(0, i as int));
        }
        assert(spawn_views(self.spawned@).subrange(0, self.spawned@.len() as int) =~= spawn_views(self.spawned@));
        out
    }

    /// Every pid still alive, ascending. Lets a test check that nothing was
    /// left running behind the room's back.
    pub fn running_pids(&self) -> (r: Vec<Pid>)
        ensures
            r@ == self@.running,
            ascending(r@),
    {
        proof {
            use_type_invariant(self);
        }
        self.running.clone()
    }

    /// Mark a process as having exited on its own, without the room killing
    /// it.
    pub fn simulate_exit(&mut self, pid: Pid)
        ensures
            final(self)@ == (PlatformModel {
                running: without_pid(old(self)@.running, pid),
                ..old(self)@
            }),
    {
        self.forget(pid);
    }

    /// Make the next spawn fail, the way a missing binary or an exhausted
    /// process table does.
    pub fn fail_next_spawn(&mut self)
        ensures
            final(self)@ == (PlatformModel { fail_next_spawn: true, ..old(self)@ }),
    {
        proof {
            use_type_invariant(&*self);
        }
        self.fail_next_spawn = true;
    }

    /// Make the next call to `kill` return an error. One-shot: it resets
    /// after the next `kill` call.
    pub fn fail_next_kill(&mut self)
        ensures
            final(self)@ == (PlatformModel { fail_next_kill: true, ..old(self)@ }),
    {
        proof {
            use_type_invariant(&*self);
        }
        self.fail_next_kill = true;
    }

    fn forget(&mut self, pid: Pid)
        ensures
            final(self)@ == (PlatformModel {
                running: without_pid(old(self)@.running, pid),
                ..old(self)@
            }),
    {
        proof {
            use_type_invariant(&*self);
        }
        let ghost before = self.running@;
        let ghost keep = other_than(pid);
        let mut kept: Vec<Pid> = Vec::new();
        let mut i: usize = 0;
        proof {
            crate::seqs::lemma_filter_nothing(before, keep);
        }
        while i < self.running.len()
            invariant
                before == self.running@,
                keep == other_than(pid),
                ascending(before),
                forall|k: int| 0 <= k < before.len() ==> 0 < #[trigger] before[k] <= self.next_pid,
                i <= before.len(),
                kept@ == before.subrange(0, i as int).filter(keep),
                forall|k: int| 0 <= k < kept@.len() ==> before.subrange(0, i as int).contains(#[trigger] kept@[k]),
            decreases before.len() - i,
        {
            proof {
                crate::seqs::lemma_filter_prefix(before, keep, i as int);
                broadcast use vstd::seq_lib::group_filter_ensures;
            }
            let p = self.running[i];
            if p != pid {
                kept.push(p);
            }
            proof {
                assert forall|k: int| 0 <= k < kept@.len() implies before.subrange(0, i + 1).contains(#[trigger] kept@[k]) by {
                    if k < kept@.len() - 1 || p == pid {
                        let w = kept@[k];
                        assert(before.subrange(0, i as int).contains(w) || w == p);
                        if before.subrange(0, i as int).contains(w) {
                            let m = choose|m: int| 0 <= m < i && before.subrange(0, i as int)[m] == w;
                            assert(before.subrange(0, i + 1)[m] == w);
                        } else {
                            assert(before.subrange(0, i + 1)[i as int] == w);
                        }
                    } else {
                        assert(before.subrange(0, i + 1)[i as int] == kept@[k]);
                    }
                }
            }
            i = i + 1;
        }
        proof {
            crate::seqs::lemma_full_prefix(before);
            assert forall|a: int, b: int| 0 <= a < b < kept@.len() implies kept@[a] < kept@[b] by {
                lemma_filter_ascending(before, keep);
            }
            assert forall|k: int| 0 <= k < kept@.len() implies 0 < #[trigger] kept@[k] <= self.next_pid by {
                let w = kept@[k];
                assert(before.contains(w));
                let m = choose|m: int| 0 <= m < before.len() && before[m] == w;
                assert(0 < before[m] <= self.next_pid);
            }
        }
        self.running = kept;
    }
}

proof fn lemma_filter_ascending(s: Seq<Pid>, keep: spec_fn(Pid) -> bool)
    requires
        ascending(s),
    ensures
        ascending(s.filter(keep)),
    decreases s.len(),
{
    reveal(Seq::filter);
    if s.len() > 0 {
        let rest = s.drop_last();
        assert(ascending(rest)) by {
            assert forall|i: int, j: int| 0 <= i < j < rest.len() implies rest[i] < rest[j] by {
                assert(rest[i] == s[i] && rest[j] == s[j]);
            }
        }
        lemma_filter_ascending(rest, keep);
        if keep(s.last()) {
            let f = rest.filter(keep);
            assert forall|k: int| 0 <= k < f.len() implies f[k] < s.last() by {
                broadcast use vstd::seq_lib::group_filter_ensures;

                assert(f.contains(f[k]));
                rest.lemma_filter_contains_rev(keep, f[k]);
                let m = choose|m: int| 0 <= m < rest.len() && rest[m] == f[k];
                assert(s[m] < s[s.len() - 1]);
            }
            assert(s.filter(keep) == f.push(s.last()));
        }
    }
}

/// The pids `1..=n`, in order: those a mock that has handed out `n` pids
/// handed out.
pub open spec fn pids_through(n: Pid) -> Seq<Pid> {
    Seq::new(n as nat, |i: int| (i + 1) as Pid)
}

impl MockPlatform {
    /// Note a request to spawn `program` with `args`.
    fn note_ask(&mut self, program: &str, args: &[String])
        ensures
            final(self)@ == (PlatformModel {
                asked: old(self)@.asked.push((program@, views(args@))),
                ..old(self)@
            }),
    {
        proof {
            use_type_invariant(&*self);
        }
        let entry = (owned(program), crate::event::clone_strings(args));
        let mut asked: Vec<(String, Vec<String>)> = Vec::new();
        std::mem::swap(&mut asked, &mut self.asked);
        let ghost prev = asked@;
        asked.push(entry);
        assert(spawn_views(asked@) =~= spawn_views(prev).push((program@, views(args@))));
        self.asked = asked;
    }

    /// Note a request to kill `pid`.
    fn note_kill(&mut self, pid: Pid)
        ensures
            final(self)@ == (PlatformModel { killed: old(self)@.killed.push(pid), ..old(self)@ }),
    {
        proof {
            use_type_invariant(&*self);
        }
        let mut killed: Vec<Pid> = Vec::new();
        std::mem::swap(&mut killed, &mut self.killed);
        killed.push(pid);
        self.killed = killed;
    }
}

impl Platform for MockPlatform {
    /// The pids marked running.
    open spec fn alive(&self, pid: Pid) -> bool {
        self@.running.contains(pid)
    }

    /// Every spawn asked for.
    open spec fn spawns(&self) -> Seq<(Seq<char>, Seq<Seq<char>>)> {
        self@.asked
    }

    /// The pids handed out so far: one more with each spawn that started.
    open spec fn started(&self) -> Seq<Pid> {
        pids_through(self@.next_pid)
    }

    /// Every kill asked for.
    open spec fn kills(&self) -> Seq<Pid> {
        self@.killed
    }

    /// Hand out the next pid and mark it running; an empty program name,
    /// a one-shot simulated failure, or running out of pids fails instead.
    /// The request is noted either way.
    fn spawn(&mut self, program: &str, args: &[String]) -> (r: Result<Pid, String>)
        ensures
            program@.len() == 0 ==> final(self)@ == (PlatformModel {
                asked: old(self)@.asked.push((program@, views(args@))),
                ..old(self)@
            }) && (r matches Err(e) && e@ == "empty program name"@),
            program@.len() > 0 && old(self)@.fail_next_spawn ==> final(self)@ == (PlatformModel {
                fail_next_spawn: false,
                asked: old(self)@.asked.push((program@, views(args@))),
                ..old(self)@
            }) && (r matches Err(e) && e@ == "simulated spawn failure"@),
            program@.len() > 0 && !old(self)@.fail_next_spawn && old(self)@.next_pid == u32::MAX
                ==> final(self)@ == (PlatformModel {
                asked: old(self)@.asked.push((program@, views(args@))),
                ..old(self)@
            }) && (r matches Err(e) && e@ == "no pids left"@),
            program@.len() > 0 && !old(self)@.fail_next_spawn && old(self)@.next_pid < u32::MAX
                ==> r == Ok::<Pid, String>((old(self)@.next_pid + 1) as Pid) && final(self)@ == (PlatformModel {
                next_pid: (old(self)@.next_pid + 1) as Pid,
                running: old(self)@.running.push((old(self)@.next_pid + 1) as Pid),
                spawned: old(self)@.spawned.push((program@, views(args@))),
                asked: old(self)@.asked.push((program@, views(args@))),
                ..old(self)@
            }),
    {
        self.note_ask(program, args);
        proof {
            use_type_invariant(&*self);
        }
        if program.unicode_len() == 0 {
            return Err(owned("empty program name"));
        }
        // The realistic failure: the binary is not there, or the process
        // table is full.
        if self.fail_next_spawn {
            self.fail_next_spawn = false;
            return Err(owned("simulated spawn failure"));
        }
        if self.next_pid == u32::MAX {
            return Err(owned("no pids left"));
        }
        let pid = self.next_pid + 1;
        let mut running: Vec<Pid> = Vec::new();
        std::mem::swap(&mut running, &mut self.running);
        let ghost before = running@;
        running.push(pid);
        assert(ascending(running@)) by {
            assert forall|i: int, j: int| 0 <= i < j < running@.len() implies running@[i] < running@[j] by {
                if j == running@.len() - 1 {
                    assert(before[i] <= self.next_pid);
                } else {
                    assert(running@[i] == before[i] && running@[j] == before[j]);
                }
            }
        }
        let entry = (owned(program), crate::event::clone_strings(args));
        let mut spawned: Vec<(String, Vec<String>)> = Vec::new();
        std::mem::swap(&mut spawned, &mut self.spawned);
        let ghost prev = spawned@;
        spawned.push(entry);
        assert(spawn_views(spawned@) =~= spawn_views(prev).push((program@, views(args@))));
        let ghost old_next = self.next_pid;
        self.next_pid = pid;
        self.running = running;
        self.spawned = spawned;
        assert(pids_through(pid) =~= pids_through(old_next).push(pid));
        Ok(pid)
    }

    /// Mark `pid` stopped, unless a failure was asked for. The request is
    /// noted either way.
    fn kill(&mut self, pid: Pid) -> (r: Result<(), String>)
        ensures
            old(self)@.fail_next_kill ==> final(self)@ == (PlatformModel {
                fail_next_kill: false,
                killed: old(self)@.killed.push(pid),
                ..old(self)@
            }) && (r matches Err(e) && e@ == "simulated kill failure"@),
            !old(self)@.fail_next_kill ==> r is Ok && final(self)@ == (PlatformModel {
                running: without_pid(old(self)@.running, pid),
                killed: old(self)@.killed.push(pid),
                ..old(self)@
            }),
    {
        self.note_kill(pid);
        proof {
            use_type_invariant(&*self);
        }
        if self.fail_next_kill {
            self.fail_next_kill = false;
            return Err(owned("simulated kill failure"));
        }
        self.forget(pid);
        Ok(())
    }

    /// Whether `pid` is marked running.
    fn is_running(&mut self, pid: Pid) -> (r: bool)
        ensures
            r == old(self)@.running.contains(pid),
            final(self)@ == old(self)@,
    {
        let mut i: usize = 0;
        while i < self.running.len()
            invariant
                i <= self.running@.len(),
                forall|k: int| 0 <= k < i ==> self.running@[k] != pid,
            decreases self.running@.len() - i,
        {
            if self.running[i] == pid {
                return true;
            }
            i = i + 1;
        }
        false
    }
}

} // verus!

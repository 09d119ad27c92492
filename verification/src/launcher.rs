//! Starting and stopping the apps the room launches.
//!
//! Exactly one app runs at a time: launching while something is running
//! quits it first. Process control sits behind [`platform::Platform`] so the
//! rules are testable off the box.

pub mod platform;

use vstd::prelude::*;

use crate::config::{app_ids, AppSpec};
use crate::event::{is_empty_object, kind, opt_view, NewEvent};
use crate::record::Log;
use crate::strset::views;
use crate::text::{concat, str_eq};
use platform::{Pid, Platform};

verus! {

/// The position of the first app with id `id`.
pub open spec fn app_position(ids: Seq<Seq<char>>, id: Seq<char>) -> Option<int> {
    if ids.contains(id) {
        Some(choose|i: int| 0 <= i < ids.len() && ids[i] == id && forall|j: int| 0 <= j < i ==> ids[j] != id)
    } else {
        None
    }
}

/// The app registered under `id`, the first if there are several.
pub fn find_app<'a>(apps: &'a [AppSpec], id: &str) -> (r: Option<&'a AppSpec>)
    ensures
        match app_position(app_ids(apps@), id@) {
            Some(i) => r == Some(&apps@[i]),
            None => r is None,
        },
{
    let ghost ids = app_ids(apps@);
    let mut i: usize = 0;
    while i < apps.len()
        invariant
            ids == app_ids(apps@),
            i <= apps@.len(),
            forall|j: int| 0 <= j < i ==> ids[j] != id@,
        decreases apps@.len() - i,
    {
        assert(ids[i as int] == apps@[i as int].id@);
        if str_eq(apps[i].id.as_str(), id) {
            proof {
                let c = choose|k: int| 0 <= k < ids.len() && ids[k] == id@ && forall|j: int| 0 <= j < k ==> ids[j] != id@;
                if c < i {
                    assert(ids[c] != id@);
                }
                if c > i {
                    assert(ids[i as int] != id@);
                }
            }
            return Some(&apps[i]);
        }
        i = i + 1;
    }
    proof {
        if ids.contains(id@) {
            let k = choose|k: int| 0 <= k < ids.len() && ids[k] == id@;
            assert(ids[k] != id@);
        }
    }
    None
}

/// Why a launch of `id` was refused: nothing is registered under it.
pub fn no_such_app(id: &str) -> (r: String)
    ensures
        r@ == "no such app: "@ + id@,
{
    concat("no such app: ", id)
}

/// The app running, and the process it runs as.
#[derive(Debug, Clone)]
pub struct Running {
    /// Which app.
    pub app_id: String,
    /// Its process.
    pub pid: Pid,
}

/// Whether `e` is the row recording that app `app` stopped.
pub open spec fn exit_row(e: NewEvent, app: Seq<char>) -> bool {
    &&& e.kind@ == kind::APP_EXITED@
    &&& e.actors@.len() == 0
    &&& opt_view(e.subject) == Some(app)
    &&& is_empty_object(e.payload)
}

/// Whether `e` is the row recording that app `app` started.
pub open spec fn launch_row(e: NewEvent, app: Seq<char>) -> bool {
    &&& e.kind@ == kind::APP_LAUNCHED@
    &&& e.actors@.len() == 0
    &&& opt_view(e.subject) == Some(app)
    &&& is_empty_object(e.payload)
}

/// Whether `after` is `before` and then what stopping `running` records:
/// nothing when nothing ran, its exit when something did.
pub open spec fn quit_logged(
    before: Seq<NewEvent>,
    after: Seq<NewEvent>,
    running: Option<(Seq<char>, Pid)>,
) -> bool {
    match running {
        None => after == before,
        Some((app, _)) => {
            &&& after.len() == before.len() + 1
            &&& after.subrange(0, before.len() as int) == before
            &&& exit_row(after[before.len() as int], app)
        },
    }
}

/// Whether `after` is `before` and then what launching `app` over
/// `running` records: the old app's exit, if one ran, then the launch.
pub open spec fn launch_logged(
    before: Seq<NewEvent>,
    after: Seq<NewEvent>,
    running: Option<(Seq<char>, Pid)>,
    app: Seq<char>,
) -> bool {
    &&& after.len() >= 1
    &&& quit_logged(before, after.drop_last(), running)
    &&& launch_row(after.last(), app)
}

/// The program and arguments an app is started with.
pub open spec fn command_of(app: AppSpec) -> (Seq<char>, Seq<Seq<char>>) {
    (app.command@, views(app.args@))
}

/// The kills asked of the platform once `running` has been stopped, after
/// `kills`: its process, when one ran.
pub open spec fn quit_kills(kills: Seq<Pid>, running: Option<(Seq<char>, Pid)>) -> Seq<Pid> {
    match running {
        Some((_, pid)) => kills.push(pid),
        None => kills,
    }
}

/// Runs at most one app at a time and keeps the log in step with it.
#[derive(Debug)]
pub struct Launcher<P: Platform> {
    apps: Vec<AppSpec>,
    platform: P,
    current: Option<Running>,
}

/// The row that `app` stopped.
fn exit_event(app: &str) -> (r: NewEvent)
    ensures
        exit_row(r, app@),
{
    NewEvent::new(kind::APP_EXITED).subject(app)
}

/// The row that `app` started.
fn launch_event(app: &str) -> (r: NewEvent)
    ensures
        launch_row(r, app@),
{
    NewEvent::new(kind::APP_LAUNCHED).subject(app)
}

impl<P: Platform> Launcher<P> {
    /// The app running and its process, if any.
    pub closed spec fn running(&self) -> Option<(Seq<char>, Pid)> {
        match self.current {
            Some(r) => Some((r.app_id@, r.pid)),
            None => None,
        }
    }

    /// The registry, in order.
    pub closed spec fn registry(&self) -> Seq<AppSpec> {
        self.apps@
    }

    /// The platform the apps run on.
    pub closed spec fn host(&self) -> P {
        self.platform
    }

    /// A launcher over a registry, with nothing running.
    pub fn new(apps: Vec<AppSpec>, platform: P) -> (r: Self)
        ensures
            r.registry() == apps@,
            r.host() == platform,
            r.running() is None,
    {
        Launcher { apps, platform, current: None }
    }

    /// Every launchable app, in registry order.
    pub fn apps(&self) -> (r: &[AppSpec])
        ensures
            r@ == self.registry(),
    {
        self.apps.as_slice()
    }

    /// The platform, to look at.
    pub fn platform(&self) -> (r: &P)
        ensures
            *r == self.host(),
    {
        &self.platform
    }

    /// The platform, to act on directly.
    pub fn platform_mut(&mut self) -> (r: &mut P)
        ensures
            *r == old(self).host(),
            final(self).host() == *final(r),
            final(self).running() == old(self).running(),
            final(self).registry() == old(self).registry(),
    {
        &mut self.platform
    }

    /// The id of the app running, if any.
    pub fn current(&self) -> (r: Option<String>)
        ensures
            opt_view(r) == match self.running() {
                Some((app, _)) => Some(app),
                None => None,
            },
    {
        match &self.current {
            Some(running) => Some(running.app_id.clone()),
            None => None,
        }
    }

    /// The process of the app running, if any.
    pub fn current_pid(&self) -> (r: Option<Pid>)
        ensures
            r == match self.running() {
                Some((_, pid)) => Some(pid),
                None => None,
            },
    {
        match &self.current {
            Some(running) => Some(running.pid),
            None => None,
        }
    }

    /// Quit whatever is running, then start `id`.
    ///
    /// The log write is the commit point: if the launch cannot be recorded,
    /// the process just started is stopped again rather than left running
    /// where nothing knows of it.
    pub fn launch<L: Log>(&mut self, id: &str, log: &mut L) -> (r: Result<(), String>)
        ensures
            final(self).registry() == old(self).registry(),
            app_position(app_ids(old(self).registry()), id@) is None ==> (r matches Err(e) && e@
                == "no such app: "@ + id@) && final(self).running() == old(self).running()
                && final(log).recorded() == old(log).recorded() && final(self).host() == old(
                self,
            ).host(),
            app_position(app_ids(old(self).registry()), id@) matches Some(i) ==> {
                let cmd = command_of(old(self).registry()[i]);
                let quit = quit_kills(old(self).host().kills(), old(self).running());
                &&& r is Ok ==> (final(self).running() matches Some((app, pid)) && app == id@
                    && final(self).host().spawns() == old(self).host().spawns().push(cmd)
                    && final(self).host().started() == old(self).host().started().push(pid)
                    && final(self).host().kills() == quit && launch_logged(
                    old(log).recorded(),
                    final(log).recorded(),
                    old(self).running(),
                    id@,
                ))
                &&& r is Err ==> {
                    // Stopping the old app failed: nothing was started.
                    ||| old(self).running() is Some && final(self).running() == old(self).running()
                        && final(log).recorded() == old(log).recorded()
                        && final(self).host().spawns() == old(self).host().spawns()
                        && final(self).host().started() == old(self).host().started()
                        && final(self).host().kills() == quit
                    // The old app stopped; the spawn failed, or the launch
                    // could not be recorded and the new process was killed.
                    ||| final(self).running() is None && quit_logged(
                        old(log).recorded(),
                        final(log).recorded(),
                        old(self).running(),
                    ) && final(self).host().spawns() == old(self).host().spawns().push(cmd) && {
                        ||| final(self).host().started() == old(self).host().started()
                            && final(self).host().kills() == quit
                        ||| exists|pid: Pid|
                            final(self).host().started() == old(self).host().started().push(pid)
                                && #[trigger] final(self).host().kills() == quit.push(pid)
                    }
                }
            },
    {
        let (command, args) = match find_app(self.apps.as_slice(), id) {
            Some(spec) => (spec.command.clone(), crate::event::clone_strings(spec.args.as_slice())),
            None => return Err(no_such_app(id)),
        };
        self.quit(log)?;
        let ghost middle = log.recorded();
        let pid = self.platform.spawn(command.as_str(), args.as_slice())?;
        match log.record(launch_event(id)) {
            Ok(()) => {
                self.current = Some(Running { app_id: crate::text::owned(id), pid });
                assert(log.recorded().drop_last() =~= middle);
                Ok(())
            },
            Err(e) => {
                let _ = self.platform.kill(pid);
                Err(e)
            },
        }
    }

    /// Stop the running app, if any, and record that it stopped.
    ///
    /// If the process cannot be stopped, nothing changes: the app is still
    /// running and the log must not say otherwise.
    pub fn quit<L: Log>(&mut self, log: &mut L) -> (r: Result<(), String>)
        ensures
            final(self).registry() == old(self).registry(),
            final(self).host().spawns() == old(self).host().spawns(),
            final(self).host().started() == old(self).host().started(),
            final(self).host().kills() == quit_kills(old(self).host().kills(), old(self).running()),
            old(self).running() is None ==> r is Ok && final(self).running() is None
                && final(log).recorded() == old(log).recorded() && final(self).host() == old(
                self,
            ).host(),
            r is Ok ==> final(self).running() is None && quit_logged(
                old(log).recorded(),
                final(log).recorded(),
                old(self).running(),
            ),
            r is Err ==> final(self).running() == old(self).running() && final(log).recorded()
                == old(log).recorded(),
    {
        let (pid, app_id) = match &self.current {
            Some(running) => (running.pid, running.app_id.clone()),
            None => return Ok(()),
        };
        let ghost before = log.recorded();
        self.platform.kill(pid)?;
        log.record(exit_event(app_id.as_str()))?;
        self.current = None;
        assert(log.recorded().subrange(0, before.len() as int) =~= before);
        Ok(())
    }

    /// Notice an app that exited on its own (the user quit it from inside
    /// itself, or it crashed) and record the exit.
    ///
    /// Recorded before it is forgotten: if the log write fails, the app is
    /// still held as running and the next reap tries again.
    pub fn reap<L: Log>(&mut self, log: &mut L) -> (r: Result<(), String>)
        ensures
            final(self).registry() == old(self).registry(),
            final(self).host().spawns() == old(self).host().spawns(),
            final(self).host().started() == old(self).host().started(),
            final(self).host().kills() == old(self).host().kills(),
            match old(self).running() {
                None => r is Ok && final(self).running() is None
                    && final(log).recorded() == old(log).recorded(),
                Some((_, pid)) => if old(self).host().alive(pid) {
                    r is Ok && final(self).running() == old(self).running()
                        && final(log).recorded() == old(log).recorded()
                } else {
                    &&& r is Ok ==> final(self).running() is None && quit_logged(
                        old(log).recorded(),
                        final(log).recorded(),
                        old(self).running(),
                    )
                    &&& r is Err ==> final(self).running() == old(self).running()
                        && final(log).recorded() == old(log).recorded()
                },
            },
    {
        let (pid, app_id) = match &self.current {
            Some(running) => (running.pid, running.app_id.clone()),
            None => return Ok(()),
        };
        if self.platform.is_running(pid) {
            return Ok(());
        }
        let ghost before = log.recorded();
        log.record(exit_event(app_id.as_str()))?;
        self.current = None;
        assert(log.recorded().subrange(0, before.len() as int) =~= before);
        Ok(())
    }
}

} // verus!

//! When the models are in memory.
use crate::error::DaemonError;
use vstd::prelude::*;

verus! {

/// Keeps track of the loaded models: they are loaded on demand, and go after a time without use.
#[derive(Debug)]
pub struct ModelStore {
    pub loaded: bool,
    /// When they were last used, in nanoseconds.
    pub last_used: u128,
    pub ep_name: String,
}

/// Whole seconds between two points in time.
pub open spec fn seconds_between(from: u128, to: u128) -> int {
    if to > from {
        (to - from) / 1_000_000_000
    } else {
        0
    }
}

impl ModelStore {
    /// A store whose models have just been loaded.
    pub fn new(ep_name: &str, now: u128) -> (r: ModelStore)
        ensures
            r.loaded,
            r.last_used == now,
            r.ep_name@ == ep_name@,
    {
        ModelStore { loaded: true, last_used: now, ep_name: ep_name.to_owned() }
    }

    /// Whether the models have to be loaded before they can be used.
    pub fn needs_load(&self) -> (r: bool)
        ensures
            r == !self.loaded,
    {
        !self.loaded
    }

    /// Hands the models out. Where they had to be loaded first, `load` says how that went.
    pub fn get_or_load(&mut self, load: Result<(), String>, now: u128) -> (r: Result<
        (),
        DaemonError,
    >)
        ensures
            final(self).ep_name == old(self).ep_name,
            match (old(self).loaded, load) {
                (false, Err(e)) => {
                    &&& r matches Err(DaemonError::Camera(t)) && t@ == "model reload: "@ + e@
                    &&& !final(self).loaded
                    &&& final(self).last_used == old(self).last_used
                },
                _ => {
                    &&& r is Ok
                    &&& final(self).loaded
                    &&& final(self).last_used == now
                },
            },
    {
        if !self.loaded {
            match load {
                Ok(()) => {
                    self.loaded = true;
                },
                Err(e) => {
                    let mut t: String = "model reload: ".to_owned();
                    t.append(e.as_str());
                    return Err(DaemonError::Camera(t));
                },
            }
        }
        self.last_used = now;
        Ok(())
    }

    /// Notes that the models were used until now.
    pub fn touch(&mut self, now: u128)
        ensures
            final(self).loaded == old(self).loaded,
            final(self).ep_name == old(self).ep_name,
            final(self).last_used == now,
    {
        self.last_used = now;
    }

    /// Whether the models go now: they are loaded, nobody holds them, and they have not been
    /// used for `idle_unload_s` seconds. Zero seconds means never.
    pub open spec fn idle(self, idle_unload_s: u64, in_use: bool, now: u128) -> bool {
        &&& idle_unload_s > 0
        &&& self.loaded
        &&& seconds_between(self.last_used, now) >= idle_unload_s
        &&& !in_use
    }

    /// Lets the models go where they are idle. Returns whether they went.
    pub fn maybe_unload(&mut self, idle_unload_s: u64, in_use: bool, now: u128) -> (r: bool)
        ensures
            r == old(self).idle(idle_unload_s, in_use, now),
            final(self).loaded == (old(self).loaded && !r),
            final(self).last_used == old(self).last_used,
            final(self).ep_name == old(self).ep_name,
    {
        if idle_unload_s == 0 || !self.loaded {
            return false;
        }
        let elapsed: u128 = if now > self.last_used {
            (now - self.last_used) / 1_000_000_000
        } else {
            0
        };
        if elapsed >= idle_unload_s as u128 && !in_use {
            self.loaded = false;
            true
        } else {
            false
        }
    }

    /// Whether the models are in memory.
    pub fn is_loaded(&self) -> (r: bool)
        ensures
            r == self.loaded,
    {
        self.loaded
    }

    /// Loads the models again for another execution provider. `load` says how that went. The
    /// old ones are gone either way.
    pub fn reload_with_ep(&mut self, ep_name: &str, load: Result<(), String>, now: u128) -> (r:
        Result<(), DaemonError>)
        ensures
            final(self).ep_name@ == ep_name@,
            match load {
                Err(e) => {
                    &&& r matches Err(DaemonError::Camera(t)) && t@ == "model reload: "@ + e@
                    &&& !final(self).loaded
                    &&& final(self).last_used == old(self).last_used
                },
                Ok(()) => r is Ok && final(self).loaded && final(self).last_used == now,
            },
    {
        self.loaded = false;
        self.ep_name = ep_name.to_owned();
        self.get_or_load(load, now)
    }
}

/// The models never go while a session holds them, nor where idle unloading is switched off, nor
/// right after they were used.
pub proof fn models_in_use_stay(s: ModelStore, idle_unload_s: u64, in_use: bool, now: u128)
    ensures
        in_use ==> !s.idle(idle_unload_s, in_use, now),
        idle_unload_s == 0 ==> !s.idle(idle_unload_s, in_use, now),
        s.last_used == now ==> !s.idle(idle_unload_s, in_use, now),
{
}

/// Loaded models go exactly where unloading is on, nobody holds them, and as many full seconds as
/// asked for have passed since they were last used.
pub proof fn idle_models_go(s: ModelStore, idle_unload_s: u64, in_use: bool, now: u128)
    ensures
        s.idle(idle_unload_s, in_use, now) <==> {
            &&& s.loaded
            &&& !in_use
            &&& idle_unload_s >= 1
            &&& now >= s.last_used + idle_unload_s * 1_000_000_000
        },
{
}

} // verus!

use vstd::prelude::*;

verus! {

/// Frame timing of a running game loop. Instants are nanoseconds on a
/// monotonic timeline chosen by the caller; durations are nanoseconds too.
#[derive(Debug)]
pub struct ActiveClock {
    started: u64,
    prev_frame: u64,
    current_frame: u64,
}

impl ActiveClock {
    #[verifier::type_invariant]
    closed spec fn ordered(&self) -> bool {
        self.started <= self.prev_frame <= self.current_frame
    }

    /// Instant at which the clock was started.
    pub closed spec fn started_at(&self) -> u64 {
        self.started
    }

    /// Instant at which the previous frame began.
    pub closed spec fn prev_frame_at(&self) -> u64 {
        self.prev_frame
    }

    /// Instant at which the current frame began.
    pub closed spec fn current_frame_at(&self) -> u64 {
        self.current_frame
    }

    /// A clock started at `now`, whose first frame begins there too.
    pub fn start(now: u64) -> (r: ActiveClock)
        ensures
            r.started_at() == now,
            r.prev_frame_at() == now,
            r.current_frame_at() == now,
    {
        ActiveClock { started: now, prev_frame: now, current_frame: now }
    }

    /// Length of the previous frame: from its start to the start of the
    /// current one.
    pub fn delta(&self) -> (r: u64)
        ensures
            r == self.current_frame_at() - self.prev_frame_at(),
    {
        proof {
            use_type_invariant(self);
        }
        self.current_frame - self.prev_frame
    }

    /// Time from the start of the clock to `now`; zero for an instant before
    /// the start.
    pub fn elapsed_from_start(&self, now: u64) -> (r: u64)
        ensures
            now >= self.started_at() ==> r == now - self.started_at(),
            now < self.started_at() ==> r == 0,
    {
        if now >= self.started {
            now - self.started
        } else {
            0
        }
    }

    /// Begins a new frame at `now`: the current frame becomes the previous
    /// one. An instant before the current frame's start is taken as that
    /// start, so the timeline never runs backwards.
    pub fn tick(&mut self, now: u64)
        ensures
            final(self).started_at() == old(self).started_at(),
            final(self).prev_frame_at() == old(self).current_frame_at(),
            final(self).current_frame_at() == if now >= old(self).current_frame_at() {
                now
            } else {
                old(self).current_frame_at()
            },
    {
        proof {
            use_type_invariant(&*self);
        }
        let current = self.current_frame;
        self.prev_frame = current;
        if now >= current {
            self.current_frame = now;
        }
    }
}

/// The game clock: stopped until the game loop starts it.
#[derive(Debug)]
pub enum Clock {
    Inactive,
    Active(ActiveClock),
}

impl Default for Clock {
    fn default() -> (r: Clock)
        ensures
            r is Inactive,
    {
        Clock::Inactive
    }
}

impl Clock {
    /// Begins a new frame at `now` on a running clock; a stopped clock stays
    /// stopped.
    pub fn tick(&mut self, now: u64)
        ensures
            *old(self) is Inactive ==> *final(self) is Inactive,
            *old(self) matches Clock::Active(c) ==> *final(self) matches Clock::Active(d) && {
                &&& d.started_at() == c.started_at()
                &&& d.prev_frame_at() == c.current_frame_at()
                &&& d.current_frame_at() == if now >= c.current_frame_at() {
                    now
                } else {
                    c.current_frame_at()
                }
            },
    {
        match self {
            Clock::Inactive => {},
            Clock::Active(c) => {
                c.tick(now);
            },
        }
    }
}

} // verus!

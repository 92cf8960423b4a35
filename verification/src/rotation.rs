use vstd::prelude::*;

verus! {

/// Whether statistics cover the whole life of the process or the current
/// window only.
#[derive(Clone, Copy, Debug, PartialEq, Eq, Structural)]
pub enum RotationMode {
    Cumulative,
    Windowed,
}

/// The mode that a label names, if it names one.
pub open spec fn mode_of_label(label: Seq<char>) -> Option<RotationMode> {
    if label == "cumulative"@ {
        Some(RotationMode::Cumulative)
    } else if label == "windowed"@ {
        Some(RotationMode::Windowed)
    } else {
        None
    }
}

impl RotationMode {
    /// Reads a mode from its label: `cumulative` or `windowed`.
    pub fn from_label(label: &str) -> (res: Option<RotationMode>)
        ensures
            res == mode_of_label(label@),
    {
        let given: String = label.to_owned();
        if given == "cumulative".to_owned() {
            Some(RotationMode::Cumulative)
        } else if given == "windowed".to_owned() {
            Some(RotationMode::Windowed)
        } else {
            None
        }
    }
}

/// When accumulated statistics are rolled over. `window` is the length of a
/// window in milliseconds, and is read in windowed mode only.
#[derive(Clone, Copy, Debug, PartialEq, Eq, Structural)]
pub struct RotationPolicy {
    pub mode: RotationMode,
    pub window: u64,
}

impl RotationPolicy {
    /// A windowed policy needs a window of positive length.
    pub open spec fn valid(self) -> bool {
        self.mode == RotationMode::Windowed ==> self.window > 0
    }

    /// Whether a window that began at `start` is over at time `now`: never in
    /// cumulative mode, and in windowed mode once `window` milliseconds have
    /// passed.
    pub open spec fn due(self, start: u64, now: u64) -> bool {
        self.mode == RotationMode::Windowed && now >= start && now - start >= self.window
    }

    /// Whether the policy can be used.
    pub fn is_valid(&self) -> (res: bool)
        ensures
            res == self.valid(),
    {
        match self.mode {
            RotationMode::Cumulative => true,
            RotationMode::Windowed => self.window > 0,
        }
    }

    /// Whether a window that began at `start` is over at time `now`.
    pub fn is_due(&self, start: u64, now: u64) -> (res: bool)
        ensures
            res == self.due(start, now),
    {
        match self.mode {
            RotationMode::Cumulative => false,
            RotationMode::Windowed => now >= start && now - start >= self.window,
        }
    }
}

} // verus!

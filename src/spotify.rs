//! The volume controller: the last-known device volume and the commands that
//! move it.
use vstd::prelude::*;

verus! {

/// Volume assumed when the current playback reports none.
pub const UNKNOWN_VOLUME: u8 = 50;

/// `v + i`, capped at 100.
pub open spec fn raised(v: nat, i: nat) -> nat {
    if v + i > 100 { 100 } else { v + i }
}

/// `v - i`, floored at 0.
pub open spec fn lowered(v: nat, i: nat) -> nat {
    if v < i { 0 } else { (v - i) as nat }
}

/// Volume after `n` raises by `i` from `v`, one at a time.
pub open spec fn raised_n(v: nat, i: nat, n: nat) -> nat
    decreases n,
{
    if n == 0 { v } else { raised(raised_n(v, i, (n - 1) as nat), i) }
}

/// Volume after `n` lowerings by `i` from `v`, one at a time.
pub open spec fn lowered_n(v: nat, i: nat, n: nat) -> nat
    decreases n,
{
    if n == 0 { v } else { lowered(lowered_n(v, i, (n - 1) as nat), i) }
}

/// Volume seeded from the device's reported percentage: the report capped
/// at 100, or 50 when there is none.
pub open spec fn seeded(percent: Option<u32>) -> nat {
    match percent {
        Some(p) => if p > 100 { 100 } else { p as nat },
        None => UNKNOWN_VOLUME as nat,
    }
}

/// A volume change to send to the active device, with the level to restore
/// if the device refuses it.
#[derive(Clone, Copy, Debug, PartialEq, Eq)]
pub struct VolumeCommand {
    pub previous: u8,
    pub level: u8,
}

/// Controller for the volume of the active Spotify device.
#[derive(Debug)]
pub struct Spotify {
    volume: u8,
}

impl View for Spotify {
    type V = nat;

    closed spec fn view(&self) -> nat {
        self.volume as nat
    }
}

impl Spotify {
    /// The cached volume is a percentage.
    pub open spec fn wf(&self) -> bool {
        self@ <= 100
    }

    /// The controller of a fresh session, seeded from the volume that the
    /// current playback reports.
    pub fn login(volume_percent: Option<u32>) -> (r: Spotify)
        ensures
            r.wf(),
            r@ == seeded(volume_percent),
    {
        let volume: u8 = match volume_percent {
            Some(p) => if p > 100 { 100 } else { p as u8 },
            None => UNKNOWN_VOLUME,
        };
        Spotify { volume }
    }

    /// The last-known volume.
    pub fn volume(&self) -> (r: u8)
        ensures
            r as nat == self@,
    {
        self.volume
    }

    /// Raises the cached volume by `increment`, capped at 100, and returns the
    /// command to send.
    pub fn volume_up(&mut self, increment: u8) -> (r: VolumeCommand)
        requires
            old(self).wf(),
        ensures
            final(self).wf(),
            final(self)@ == raised(old(self)@, increment as nat),
            r.previous as nat == old(self)@,
            r.level as nat == final(self)@,
    {
        let previous = self.volume;
        let sum: u16 = previous as u16 + increment as u16;
        self.volume = if sum > 100 { 100 } else { sum as u8 };
        VolumeCommand { previous, level: self.volume }
    }

    /// Lowers the cached volume by `increment`, floored at 0, and returns the
    /// command to send.
    pub fn volume_down(&mut self, increment: u8) -> (r: VolumeCommand)
        requires
            old(self).wf(),
        ensures
            final(self).wf(),
            final(self)@ == lowered(old(self)@, increment as nat),
            r.previous as nat == old(self)@,
            r.level as nat == final(self)@,
    {
        let previous = self.volume;
        self.volume = previous.saturating_sub(increment);
        VolumeCommand { previous, level: self.volume }
    }

    /// Records how the device answered `command`: on failure the cached
    /// volume goes back to what it was before the command.
    pub fn settle(&mut self, command: VolumeCommand, succeeded: bool)
        requires
            old(self).wf(),
            command.previous <= 100,
        ensures
            final(self).wf(),
            final(self)@ == if succeeded { old(self)@ } else { command.previous as nat },
    {
        if !succeeded {
            self.volume = command.previous;
        }
    }
}

/// Raising `n` times by `i` from `v` ends at `min(100, v + n * i)`.
pub proof fn lemma_raised_n(v: nat, i: nat, n: nat)
    requires
        v <= 100,
    ensures
        raised_n(v, i, n) == if v + n * i > 100 { 100 } else { v + n * i },
    decreases n,
{
    if n > 0 {
        lemma_raised_n(v, i, (n - 1) as nat);
        assert(v + n * i == v + (n - 1) * i + i) by (nonlinear_arith)
            requires
                n > 0,
        ;
        assert((n - 1) * i <= n * i) by (nonlinear_arith)
            requires
                n > 0,
        ;
    } else {
        assert(n * i == 0) by (nonlinear_arith)
            requires
                n == 0,
        ;
    }
}

/// Lowering `n` times by `i` from `v` ends at `max(0, v - n * i)`.
pub proof fn lemma_lowered_n(v: nat, i: nat, n: nat)
    ensures
        lowered_n(v, i, n) == if v < n * i { 0 } else { (v - n * i) as nat },
    decreases n,
{
    if n > 0 {
        lemma_lowered_n(v, i, (n - 1) as nat);
        assert(n * i == (n - 1) * i + i) by (nonlinear_arith)
            requires
                n > 0,
        ;
    } else {
        assert(n * i == 0) by (nonlinear_arith)
            requires
                n == 0,
        ;
    }
}

} // verus!

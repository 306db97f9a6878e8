//! ARM/DISARM pending-confirmation state machine, and the scrolling log
//! of sent commands and how they resolved.
//!
//! CHIRP resolves at once (there is no rocket state to confirm). ARM and
//! DISARM open a pending window that [`CmdLogState::poll`] closes: when
//! telemetry reports the wanted state, when [`CMD_CONFIRM_FRAMES`] frames
//! have arrived without it, or when the link is lost. RECOVER goes out as
//! the same wire command as DISARM (the rocket tells them apart by its own
//! state); it is only logged under its own name, and its success is
//! reported so that the flight caches can be dropped: a new flight has
//! just been archived.
use vstd::prelude::*;
use crate::link::LinkStatus;
use crate::packet::{Command, State};

verus! {

/// Telemetry frames to see before declaring a pending ARM/DISARM failed.
pub const CMD_CONFIRM_FRAMES: u32 = 3;

/// Visible rows of the command log.
pub const CMD_LOG_LINES: usize = 3;

/// A command waiting for the rocket to reach state `want`; `recover`
/// marks a DISARM sent as RECOVER.
#[derive(Debug, Clone, Copy, PartialEq, Eq, Structural)]
pub struct Pending {
    pub want: u8,
    pub packets_at_send: u32,
    pub recover: bool,
}

/// How a pending command resolved.
#[derive(Debug, Clone, Copy, PartialEq, Eq, Structural)]
pub enum PollOutcome {
    Armed,
    Disarmed,
    RecoverSucceeded,
    /// Too many frames arrived without the wanted state.
    Failed,
    LinkLost,
}

/// The log line of an outcome.
pub open spec fn outcome_text(o: PollOutcome) -> &'static str {
    match o {
        PollOutcome::Armed => "ARMED OK",
        PollOutcome::Disarmed => "DISARMED OK",
        PollOutcome::RecoverSucceeded => "RECOVERED OK",
        PollOutcome::Failed => "CMD FAILED -- retry",
        PollOutcome::LinkLost => "CMD FAILED -- link lost",
    }
}

/// The log rows (oldest first), the latest status, and the pending
/// command.
pub struct CmdLogState {
    lines: Vec<&'static str>,
    tx_status: &'static str,
    pending: Option<Pending>,
}

/// What the display renders: the log rows, oldest first, and the latest
/// status.
pub struct CmdLogSnapshot {
    pub lines: Vec<&'static str>,
    pub tx_status: &'static str,
}

/// The log after pushing status `s`: the oldest row scrolls off.
pub open spec fn pushed(lines: Seq<&'static str>, s: &'static str) -> Seq<&'static str> {
    lines.drop_first().push(s)
}

/// How a pending command resolves, if it does: reaching the wanted
/// state, too many frames without it, or a lost link.
pub open spec fn resolution(p: Pending, current_state: Option<u8>, packets_now: u32, status: LinkStatus) -> Option<
    PollOutcome,
> {
    if current_state == Some(p.want) {
        Some(
            if p.want == State::ARMED {
                PollOutcome::Armed
            } else if p.recover {
                PollOutcome::RecoverSucceeded
            } else {
                PollOutcome::Disarmed
            },
        )
    } else if packets_now.wrapping_sub(p.packets_at_send) >= CMD_CONFIRM_FRAMES {
        Some(PollOutcome::Failed)
    } else if status == LinkStatus::Lost {
        Some(PollOutcome::LinkLost)
    } else {
        None
    }
}

impl CmdLogState {
    /// The log rows, oldest first.
    pub closed spec fn spec_lines(&self) -> Seq<&'static str> {
        self.lines@
    }

    /// The latest status.
    pub closed spec fn spec_tx_status(&self) -> &'static str {
        self.tx_status
    }

    /// The command waiting for confirmation.
    pub closed spec fn spec_pending(&self) -> Option<Pending> {
        self.pending
    }

    /// Always exactly [`CMD_LOG_LINES`] rows.
    pub closed spec fn wf(&self) -> bool {
        self.lines@.len() == CMD_LOG_LINES
    }

    /// Empty rows, no status, nothing pending.
    pub fn new() -> (r: Self)
        ensures
            r.wf(),
            r.spec_lines() == seq!["", "", ""],
            r.spec_tx_status() == "",
            r.spec_pending() is None,
    {
        let mut lines: Vec<&'static str> = Vec::new();
        lines.push("");
        lines.push("");
        lines.push("");
        CmdLogState { lines, tx_status: "", pending: None }
    }

    fn push_status(&mut self, s: &'static str)
        requires
            old(self).wf(),
        ensures
            final(self).wf(),
            final(self).spec_lines() == pushed(old(self).spec_lines(), s),
            final(self).spec_tx_status() == s,
            final(self).spec_pending() == old(self).spec_pending(),
    {
        self.tx_status = s;
        self.lines.remove(0);
        self.lines.push(s);
    }

    /// The rows and latest status, for the display.
    pub fn snapshot(&self) -> (r: CmdLogSnapshot)
        ensures
            r.lines@ == self.spec_lines(),
            r.tx_status == self.spec_tx_status(),
    {
        CmdLogSnapshot { lines: self.lines.clone(), tx_status: self.tx_status }
    }

    /// Record that `cmd` was just sent, `packets_at_send` being the frame
    /// counter at that moment, `recover` marking a DISARM sent as
    /// RECOVER. CHIRP logs at once; ARM and DISARM (or RECOVER) also start
    /// waiting for ARMED and IDLE. Other commands are not logged.
    pub fn record_send(&mut self, cmd: u8, packets_at_send: u32, recover: bool)
        requires
            old(self).wf(),
        ensures
            final(self).wf(),
            cmd == Command::CHIRP ==> {
                &&& final(self).spec_lines() == pushed(old(self).spec_lines(), "SENT CHIRP")
                &&& final(self).spec_tx_status() == "SENT CHIRP"
                &&& final(self).spec_pending() == old(self).spec_pending()
            },
            cmd == Command::ARM ==> {
                &&& final(self).spec_lines() == pushed(old(self).spec_lines(), "SENT ARM...")
                &&& final(self).spec_tx_status() == "SENT ARM..."
                &&& final(self).spec_pending() == Some(Pending { want: State::ARMED, packets_at_send, recover: false })
            },
            cmd == Command::DISARM && !recover ==> {
                &&& final(self).spec_lines() == pushed(old(self).spec_lines(), "SENT DISARM...")
                &&& final(self).spec_tx_status() == "SENT DISARM..."
                &&& final(self).spec_pending() == Some(Pending { want: State::IDLE, packets_at_send, recover: false })
            },
            cmd == Command::DISARM && recover ==> {
                &&& final(self).spec_lines() == pushed(old(self).spec_lines(), "SENT RECOVER...")
                &&& final(self).spec_tx_status() == "SENT RECOVER..."
                &&& final(self).spec_pending() == Some(Pending { want: State::IDLE, packets_at_send, recover: true })
            },
            cmd != Command::CHIRP && cmd != Command::ARM && cmd != Command::DISARM ==> {
                &&& final(self).spec_lines() == old(self).spec_lines()
                &&& final(self).spec_tx_status() == old(self).spec_tx_status()
                &&& final(self).spec_pending() == old(self).spec_pending()
            },
    {
        if cmd == Command::CHIRP {
            self.push_status("SENT CHIRP");
        } else if cmd == Command::ARM {
            self.pending = Some(Pending { want: State::ARMED, packets_at_send, recover: false });
            self.push_status("SENT ARM...");
        } else if cmd == Command::DISARM {
            self.pending = Some(Pending { want: State::IDLE, packets_at_send, recover });
            self.push_status(
                if recover {
                    "SENT RECOVER..."
                } else {
                    "SENT DISARM..."
                },
            );
        }
    }

    /// Resolve, or keep waiting on, a pending ARM/DISARM/RECOVER, given
    /// the rocket's last known state, the frame counter and the link's
    /// freshness. Returns how it resolved; nothing happens, and `None` is
    /// returned, when nothing is pending or it keeps waiting.
    pub fn poll(&mut self, current_state: Option<u8>, packets_now: u32, status: LinkStatus) -> (r: Option<PollOutcome>)
        requires
            old(self).wf(),
        ensures
            final(self).wf(),
            match old(self).spec_pending() {
                None => {
                    &&& r is None
                    &&& final(self).spec_lines() == old(self).spec_lines()
                    &&& final(self).spec_tx_status() == old(self).spec_tx_status()
                    &&& final(self).spec_pending() is None
                },
                Some(p) => {
                    &&& r == resolution(p, current_state, packets_now, status)
                    &&& match r {
                        Some(o) => {
                            &&& final(self).spec_lines() == pushed(old(self).spec_lines(), outcome_text(o))
                            &&& final(self).spec_tx_status() == outcome_text(o)
                            &&& final(self).spec_pending() is None
                        },
                        None => {
                            &&& final(self).spec_lines() == old(self).spec_lines()
                            &&& final(self).spec_tx_status() == old(self).spec_tx_status()
                            &&& final(self).spec_pending() == Some(p)
                        },
                    }
                },
            },
    {
        let pending = match self.pending {
            Some(p) => p,
            None => {
                return None;
            },
        };
        let outcome = if current_state == Some(pending.want) {
            if pending.want == State::ARMED {
                PollOutcome::Armed
            } else if pending.recover {
                PollOutcome::RecoverSucceeded
            } else {
                PollOutcome::Disarmed
            }
        } else if packets_now.wrapping_sub(pending.packets_at_send) >= CMD_CONFIRM_FRAMES {
            PollOutcome::Failed
        } else if status == LinkStatus::Lost {
            PollOutcome::LinkLost
        } else {
            return None;
        };
        self.pending = None;
        let text = match outcome {
            PollOutcome::Armed => "ARMED OK",
            PollOutcome::Disarmed => "DISARMED OK",
            PollOutcome::RecoverSucceeded => "RECOVERED OK",
            PollOutcome::Failed => "CMD FAILED -- retry",
            PollOutcome::LinkLost => "CMD FAILED -- link lost",
        };
        self.push_status(text);
        Some(outcome)
    }
}

/// A pending command never waits past [`CMD_CONFIRM_FRAMES`] frames or a
/// lost link: it always resolves then.
pub proof fn lemma_pending_always_resolves(p: Pending, current_state: Option<u8>, packets_now: u32, status: LinkStatus)
    requires
        packets_now.wrapping_sub(p.packets_at_send) >= CMD_CONFIRM_FRAMES || status == LinkStatus::Lost,
    ensures
        resolution(p, current_state, packets_now, status) is Some,
{
}

} // verus!

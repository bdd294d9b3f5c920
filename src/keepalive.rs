//! The push channel's keepalive state machine: from state and event to next
//! state and action. The caller owns the connection and the timers.
use vstd::prelude::*;
use crate::processor::deadline;

verus! {

#[derive(Clone, Copy, Debug, PartialEq, Eq, Structural)]
pub enum PushState {
    Connecting,
    Connected,
    /// The connection was declared dead; a new one is opened after a backoff.
    Reconnecting,
    /// Shut down; no reconnect follows.
    Closed,
}

/// Timing of the keepalive, in milliseconds.
#[derive(Clone, Copy, Debug, PartialEq, Eq)]
pub struct KeepaliveConfig {
    /// Probes are spaced by an interval drawn from `[probe_min, probe_max)`.
    pub probe_min: u64,
    pub probe_max: u64,
    /// How long an acknowledgment may take.
    pub ack_timeout: u64,
    /// How long to wait before connecting again.
    pub backoff: u64,
}

pub enum PushEvent {
    /// The connection is open. `draw` is a fresh random number.
    Opened { now: u64, draw: u64 },
    /// Opening the connection failed, or the open connection broke.
    Lost,
    /// Timer tick. `draw` is a fresh random number.
    Tick { now: u64, draw: u64 },
    /// The server acknowledged a probe.
    Ack,
    /// The server announced a change to a mod.
    ModChanged(String),
    /// The backoff after a dead connection has passed.
    BackoffElapsed,
    Shutdown,
}

pub enum PushAction {
    Nothing,
    SendProbe,
    /// Drop the connection and wait `backoff` before connecting again.
    Reconnect { backoff: u64 },
    Connect,
    /// Ask the command processor to fetch this mod again.
    Refresh(String),
    Close,
}

#[derive(Clone, Copy, Debug, PartialEq, Eq)]
pub struct Keepalive {
    pub config: KeepaliveConfig,
    pub state: PushState,
    /// When a probe is unanswered: the time by which its acknowledgment is due.
    pub awaiting_ack_until: Option<u64>,
    pub next_probe_at: u64,
}

/// The probe interval for a random number `draw`: `probe_min` plus `draw`
/// reduced modulo the span, so always within `[probe_min, probe_max)`. With a
/// uniform `draw` it is close to uniform, exactly so when the span divides
/// 2^64. It is `probe_min` when that range is empty.
pub open spec fn interval_of(c: KeepaliveConfig, draw: u64) -> u64 {
    if c.probe_min < c.probe_max {
        (c.probe_min + draw % ((c.probe_max - c.probe_min) as u64)) as u64
    } else {
        c.probe_min
    }
}

pub fn probe_interval(c: KeepaliveConfig, draw: u64) -> (r: u64)
    ensures
        r == interval_of(c, draw),
        c.probe_min < c.probe_max ==> c.probe_min <= r < c.probe_max,
{
    if c.probe_min < c.probe_max {
        let span = c.probe_max - c.probe_min;
        let off = draw % span;
        c.probe_min + off
    } else {
        c.probe_min
    }
}

/// The machine's step: next state and action for an event.
pub open spec fn next(k: Keepalive, ev: PushEvent) -> (Keepalive, PushAction) {
    match ev {
        PushEvent::Shutdown => if k.state is Closed {
            (k, PushAction::Nothing)
        } else {
            (Keepalive { state: PushState::Closed, awaiting_ack_until: None, ..k }, PushAction::Close)
        },
        PushEvent::Opened { now, draw } => if k.state is Connecting {
            (
                Keepalive {
                    state: PushState::Connected,
                    awaiting_ack_until: None,
                    next_probe_at: deadline(now, interval_of(k.config, draw)),
                    ..k
                },
                PushAction::Nothing,
            )
        } else {
            (k, PushAction::Nothing)
        },
        PushEvent::Lost => if k.state is Connecting || k.state is Connected {
            (
                Keepalive { state: PushState::Reconnecting, awaiting_ack_until: None, ..k },
                PushAction::Reconnect { backoff: k.config.backoff },
            )
        } else {
            (k, PushAction::Nothing)
        },
        PushEvent::Tick { now, draw } => if !(k.state is Connected) {
            (k, PushAction::Nothing)
        } else {
            match k.awaiting_ack_until {
                Some(d) => if d <= now {
                    (
                        Keepalive { state: PushState::Reconnecting, awaiting_ack_until: None, ..k },
                        PushAction::Reconnect { backoff: k.config.backoff },
                    )
                } else {
                    (k, PushAction::Nothing)
                },
                None => if k.next_probe_at <= now {
                    (
                        Keepalive {
                            awaiting_ack_until: Some(deadline(now, k.config.ack_timeout)),
                            next_probe_at: deadline(now, interval_of(k.config, draw)),
                            ..k
                        },
                        PushAction::SendProbe,
                    )
                } else {
                    (k, PushAction::Nothing)
                },
            }
        },
        PushEvent::Ack => if k.state is Connected {
            (Keepalive { awaiting_ack_until: None, ..k }, PushAction::Nothing)
        } else {
            (k, PushAction::Nothing)
        },
        PushEvent::ModChanged(id) => if k.state is Connected {
            (k, PushAction::Refresh(id))
        } else {
            (k, PushAction::Nothing)
        },
        PushEvent::BackoffElapsed => if k.state is Reconnecting {
            (Keepalive { state: PushState::Connecting, ..k }, PushAction::Connect)
        } else {
            (k, PushAction::Nothing)
        },
    }
}

fn deadline_exec(now: u64, span: u64) -> (r: u64)
    ensures
        r == deadline(now, span),
{
    if now > u64::MAX - span {
        u64::MAX
    } else {
        now + span
    }
}

impl Keepalive {
    /// A machine about to open its first connection.
    pub fn new(config: KeepaliveConfig) -> (r: Self)
        ensures
            r.config == config,
            r.state == PushState::Connecting,
            r.awaiting_ack_until is None,
            r.next_probe_at == 0,
    {
        Keepalive { config, state: PushState::Connecting, awaiting_ack_until: None, next_probe_at: 0 }
    }

    pub fn step(&mut self, ev: PushEvent) -> (r: PushAction)
        ensures
            (*final(self), r) == next(*old(self), ev),
    {
        match ev {
            PushEvent::Shutdown => {
                if self.state == PushState::Closed {
                    PushAction::Nothing
                } else {
                    self.state = PushState::Closed;
                    self.awaiting_ack_until = None;
                    PushAction::Close
                }
            },
            PushEvent::Opened { now, draw } => {
                if self.state == PushState::Connecting {
                    let i = probe_interval(self.config, draw);
                    self.state = PushState::Connected;
                    self.awaiting_ack_until = None;
                    self.next_probe_at = deadline_exec(now, i);
                }
                PushAction::Nothing
            },
            PushEvent::Lost => {
                if self.state == PushState::Connecting || self.state == PushState::Connected {
                    self.state = PushState::Reconnecting;
                    self.awaiting_ack_until = None;
                    PushAction::Reconnect { backoff: self.config.backoff }
                } else {
                    PushAction::Nothing
                }
            },
            PushEvent::Tick { now, draw } => {
                if self.state != PushState::Connected {
                    return PushAction::Nothing;
                }
                match self.awaiting_ack_until {
                    Some(d) => {
                        if d <= now {
                            self.state = PushState::Reconnecting;
                            self.awaiting_ack_until = None;
                            PushAction::Reconnect { backoff: self.config.backoff }
                        } else {
                            PushAction::Nothing
                        }
                    },
                    None => {
                        if self.next_probe_at <= now {
                            let i = probe_interval(self.config, draw);
                            self.awaiting_ack_until = Some(deadline_exec(now, self.config.ack_timeout));
                            self.next_probe_at = deadline_exec(now, i);
                            PushAction::SendProbe
                        } else {
                            PushAction::Nothing
                        }
                    },
                }
            },
            PushEvent::Ack => {
                if self.state == PushState::Connected {
                    self.awaiting_ack_until = None;
                }
                PushAction::Nothing
            },
            PushEvent::ModChanged(id) => {
                if self.state == PushState::Connected {
                    PushAction::Refresh(id)
                } else {
                    PushAction::Nothing
                }
            },
            PushEvent::BackoffElapsed => {
                if self.state == PushState::Reconnecting {
                    self.state = PushState::Connecting;
                    PushAction::Connect
                } else {
                    PushAction::Nothing
                }
            },
        }
    }
}

/// The number of reconnects that ticks at `times` cause from `k`, one after
/// the other.
pub open spec fn reconnects_over_ticks(k: Keepalive, times: Seq<u64>, draws: Seq<u64>) -> nat
    decreases times.len(),
{
    if times.len() == 0 || draws.len() == 0 {
        0
    } else {
        let (k1, a) = next(k, PushEvent::Tick { now: times[0], draw: draws[0] });
        (if a is Reconnect {
            1nat
        } else {
            0nat
        }) + reconnects_over_ticks(k1, times.drop_first(), draws.drop_first())
    }
}

proof fn lemma_no_reconnect_unless_connected(k: Keepalive, times: Seq<u64>, draws: Seq<u64>)
    requires
        k.state is Reconnecting,
    ensures
        reconnects_over_ticks(k, times, draws) == 0,
    decreases times.len(),
{
    if times.len() > 0 && draws.len() > 0 {
        lemma_no_reconnect_unless_connected(k, times.drop_first(), draws.drop_first());
    }
}

/// Once a probe's acknowledgment is overdue, any run of
/// ticks from then on, however long, causes exactly one reconnect.
pub proof fn lemma_stale_probe_reconnects_once(k: Keepalive, times: Seq<u64>, draws: Seq<u64>)
    requires
        k.state is Connected,
        k.awaiting_ack_until matches Some(d) && d <= times[0],
        times.len() > 0,
        draws.len() == times.len(),
    ensures
        reconnects_over_ticks(k, times, draws) == 1,
{
    let (k1, a) = next(k, PushEvent::Tick { now: times[0], draw: draws[0] });
    assert(a is Reconnect);
    assert(k1.state is Reconnecting);
    lemma_no_reconnect_unless_connected(k1, times.drop_first(), draws.drop_first());
}

/// After a shutdown the machine stays closed: no event makes it connect or
/// reconnect again.
pub proof fn lemma_closed_never_reconnects(k: Keepalive, ev: PushEvent)
    requires
        k.state is Closed,
    ensures
        next(k, ev).0.state is Closed,
        !(next(k, ev).1 is Connect),
        !(next(k, ev).1 is Reconnect),
{
}

} // verus!

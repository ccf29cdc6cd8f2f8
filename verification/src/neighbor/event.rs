//! The events of the neighbor state machine and what each leads to.
use vstd::prelude::*;

use crate::interface::NetworkType;
use crate::neighbor::status::Status;

verus! {

/// An event of the neighbor state machine. `NegotiationDone` carries whether the neighbor is
/// the master.
#[derive(Clone, Copy, PartialEq, Eq, Debug, Structural)]
pub enum Event {
    HelloReceived,
    Start,
    TwoWayReceived,
    NegotiationDone(bool),
    ExchangeDone,
    BadLSReq,
    LoadingDone,
    AdjOk,
    SeqNumberMismatch,
    OneWayReceived,
    KillNbr,
    InactivityTimer,
    LLDown,
}

/// Something that handling an event asks to be done, in order.
#[derive(Clone, Copy, PartialEq, Eq, Debug, Structural)]
pub enum Action {
    /// (Re)start the inactivity timer.
    StartInactivityTimer,
    /// Stop the inactivity timer.
    AbortInactivityTimer,
    /// Stop sending database description packets.
    StopDdSend,
    /// Start sending database description packets with these flags; `with_headers` says
    /// whether they carry the headers of this router's database.
    StartDdSend { n_master: bool, init: bool, more: bool, with_headers: bool },
    /// Empty the retransmission, request and summary lists.
    ClearLists,
    /// Start sending link state requests.
    StartSendLsr,
}

/// What the neighbor state machine reads besides the state and the event.
#[derive(Clone, Copy)]
pub struct Context {
    /// The type of the network the neighbor is on.
    pub network_type: NetworkType,
    /// Whether an adjacency should be formed with the neighbor.
    pub adjacent: bool,
    /// Whether the neighbor's request list is empty.
    pub lsr_list_empty: bool,
}

/// The state an event leads to from state `old`, and what it asks to be done.
pub open spec fn spec_transition(old: Status, event: Event, ctx: Context) -> (Status, Seq<Action>) {
    let start_adjacency = Action::StartDdSend {
        n_master: false,
        init: true,
        more: true,
        with_headers: false,
    };
    match event {
        Event::HelloReceived => if old == Status::Down || old == Status::Attempt {
            (Status::Init, seq![Action::StartInactivityTimer])
        } else {
            (old, seq![Action::StartInactivityTimer])
        },
        Event::Start => if ctx.network_type == NetworkType::NBMA && old == Status::Down {
            (Status::Attempt, seq![Action::StartInactivityTimer])
        } else {
            (old, Seq::empty())
        },
        Event::TwoWayReceived => if old == Status::Init {
            if ctx.adjacent {
                (Status::ExStart, seq![start_adjacency])
            } else {
                (Status::TwoWay, Seq::empty())
            }
        } else {
            (old, Seq::empty())
        },
        Event::NegotiationDone(n_master) => if old == Status::ExStart {
            (
                Status::Exchange,
                seq![
                    Action::AbortInactivityTimer,
                    Action::StopDdSend,
                    Action::StartDdSend {
                        n_master,
                        init: false,
                        more: false,
                        with_headers: !n_master,
                    },
                ],
            )
        } else {
            (Status::Exchange, Seq::empty())
        },
        Event::ExchangeDone => if old == Status::Exchange {
            if ctx.lsr_list_empty {
                (Status::Full, Seq::empty())
            } else {
                (Status::Loading, seq![Action::StartSendLsr])
            }
        } else {
            (old, Seq::empty())
        },
        Event::BadLSReq => if old.rank() >= Status::Exchange.rank() {
            (Status::ExStart, seq![Action::AbortInactivityTimer, Action::ClearLists])
        } else {
            (old, Seq::empty())
        },
        Event::LoadingDone => if old == Status::Loading {
            (Status::Full, Seq::empty())
        } else {
            (old, Seq::empty())
        },
        Event::AdjOk => if old == Status::TwoWay {
            if ctx.adjacent {
                (Status::ExStart, seq![start_adjacency])
            } else {
                (old, Seq::empty())
            }
        } else if old.rank() >= Status::ExStart.rank() {
            if ctx.adjacent {
                (old, Seq::empty())
            } else {
                (Status::TwoWay, seq![Action::ClearLists])
            }
        } else {
            (old, Seq::empty())
        },
        Event::SeqNumberMismatch => if old.rank() >= Status::Exchange.rank() {
            (
                Status::ExStart,
                seq![Action::AbortInactivityTimer, Action::ClearLists, start_adjacency],
            )
        } else {
            (old, Seq::empty())
        },
        Event::OneWayReceived => (old, Seq::empty()),
        Event::KillNbr => (Status::Down, seq![Action::AbortInactivityTimer, Action::ClearLists]),
        Event::InactivityTimer => (Status::Down, seq![Action::ClearLists]),
        Event::LLDown => (Status::Down, seq![Action::AbortInactivityTimer, Action::ClearLists]),
    }
}

impl Event {
    /// Decides the state that the event leads to from `old`, and what is to be done.
    pub fn transition(&self, old: Status, ctx: Context) -> (r: (Status, Vec<Action>))
        ensures
            (r.0, r.1@) == spec_transition(old, *self, ctx),
            old == Status::Loading && *self == Event::LoadingDone ==> r.0 == Status::Full,
            old == Status::Exchange && *self == Event::ExchangeDone ==> r.0 == (if ctx.lsr_list_empty {
                Status::Full
            } else {
                Status::Loading
            }),
    {
        let start_adjacency = Action::StartDdSend {
            n_master: false,
            init: true,
            more: true,
            with_headers: false,
        };
        let mut actions: Vec<Action> = Vec::new();
        let rank = old.position();
        let status = match self {
            Event::HelloReceived => {
                actions.push(Action::StartInactivityTimer);
                if old == Status::Down || old == Status::Attempt {
                    Status::Init
                } else {
                    old
                }
            },
            Event::Start => {
                if network_is_nbma(ctx.network_type) && old == Status::Down {
                    actions.push(Action::StartInactivityTimer);
                    Status::Attempt
                } else {
                    old
                }
            },
            Event::TwoWayReceived => {
                if old == Status::Init {
                    if ctx.adjacent {
                        actions.push(start_adjacency);
                        Status::ExStart
                    } else {
                        Status::TwoWay
                    }
                } else {
                    old
                }
            },
            Event::NegotiationDone(n_master) => {
                if old == Status::ExStart {
                    actions.push(Action::AbortInactivityTimer);
                    actions.push(Action::StopDdSend);
                    actions.push(
                        Action::StartDdSend {
                            n_master: *n_master,
                            init: false,
                            more: false,
                            with_headers: !*n_master,
                        },
                    );
                }
                Status::Exchange
            },
            Event::ExchangeDone => {
                if old == Status::Exchange {
                    if ctx.lsr_list_empty {
                        Status::Full
                    } else {
                        actions.push(Action::StartSendLsr);
                        Status::Loading
                    }
                } else {
                    old
                }
            },
            Event::BadLSReq => {
                if rank >= 4 {
                    actions.push(Action::AbortInactivityTimer);
                    actions.push(Action::ClearLists);
                    Status::ExStart
                } else {
                    old
                }
            },
            Event::LoadingDone => {
                if old == Status::Loading {
                    Status::Full
                } else {
                    old
                }
            },
            Event::AdjOk => {
                if old == Status::TwoWay {
                    if ctx.adjacent {
                        actions.push(start_adjacency);
                        Status::ExStart
                    } else {
                        old
                    }
                } else if rank >= 3 {
                    if ctx.adjacent {
                        old
                    } else {
                        actions.push(Action::ClearLists);
                        Status::TwoWay
                    }
                } else {
                    old
                }
            },
            Event::SeqNumberMismatch => {
                if rank >= 4 {
                    actions.push(Action::AbortInactivityTimer);
                    actions.push(Action::ClearLists);
                    actions.push(start_adjacency);
                    Status::ExStart
                } else {
                    old
                }
            },
            Event::OneWayReceived => old,
            Event::KillNbr => {
                actions.push(Action::AbortInactivityTimer);
                actions.push(Action::ClearLists);
                Status::Down
            },
            Event::InactivityTimer => {
                actions.push(Action::ClearLists);
                Status::Down
            },
            Event::LLDown => {
                actions.push(Action::AbortInactivityTimer);
                actions.push(Action::ClearLists);
                Status::Down
            },
        };
        proof {
            let spec = spec_transition(old, *self, ctx);
            assert(actions@ =~= spec.1);
        }
        (status, actions)
    }
}

fn network_is_nbma(t: NetworkType) -> (r: bool)
    ensures
        r == (t == NetworkType::NBMA),
{
    match t {
        NetworkType::NBMA => true,
        _ => false,
    }
}

/// The way up to a full adjacency, whatever the context: a hello brings a neighbor that is
/// down (or being attempted) to `Init`; on NBMA networks `Start` brings a neighbor that is
/// down to `Attempt`; a two-way hello in `Init` leads to `ExStart` where an adjacency should
/// be formed, and to `TwoWay` otherwise; `AdjOk` in `TwoWay` starts the adjacency where one
/// should be formed; the end of the negotiation in `ExStart` leads to `Exchange`; the end of
/// the exchange leads to `Full` with nothing left to request, and to `Loading`, sending
/// requests, otherwise; and the end of loading leads from `Loading` to `Full`.
pub proof fn lemma_neighbor_way_to_full(ctx: Context, n_master: bool)
    ensures
        spec_transition(Status::Down, Event::HelloReceived, ctx).0 == Status::Init,
        spec_transition(Status::Attempt, Event::HelloReceived, ctx).0 == Status::Init,
        ctx.network_type == NetworkType::NBMA ==> spec_transition(
            Status::Down,
            Event::Start,
            ctx,
        ).0 == Status::Attempt,
        ctx.adjacent ==> spec_transition(Status::Init, Event::TwoWayReceived, ctx).0
            == Status::ExStart,
        !ctx.adjacent ==> spec_transition(Status::Init, Event::TwoWayReceived, ctx).0
            == Status::TwoWay,
        ctx.adjacent ==> spec_transition(Status::TwoWay, Event::AdjOk, ctx).0 == Status::ExStart,
        spec_transition(Status::ExStart, Event::NegotiationDone(n_master), ctx).0
            == Status::Exchange,
        ctx.lsr_list_empty ==> spec_transition(Status::Exchange, Event::ExchangeDone, ctx).0
            == Status::Full,
        !ctx.lsr_list_empty ==> spec_transition(Status::Exchange, Event::ExchangeDone, ctx)
            == (Status::Loading, seq![Action::StartSendLsr]),
        spec_transition(Status::Loading, Event::LoadingDone, ctx).0 == Status::Full,
{
}

/// Where the database exchange or the requests go wrong in `Exchange` or a later state of the
/// adjacency, the adjacency starts over from `ExStart` and the lists are emptied.
pub proof fn lemma_neighbor_restarts_adjacency(old: Status, ctx: Context)
    requires
        old == Status::Exchange || old == Status::Loading || old == Status::Full,
    ensures
        spec_transition(old, Event::BadLSReq, ctx).0 == Status::ExStart,
        spec_transition(old, Event::BadLSReq, ctx).1.contains(Action::ClearLists),
        spec_transition(old, Event::SeqNumberMismatch, ctx).0 == Status::ExStart,
        spec_transition(old, Event::SeqNumberMismatch, ctx).1.contains(Action::ClearLists),
{
    assert(spec_transition(old, Event::BadLSReq, ctx).1[1] == Action::ClearLists);
    assert(spec_transition(old, Event::SeqNumberMismatch, ctx).1[1] == Action::ClearLists);
}

/// Whatever the state, killing the neighbor, its inactivity timer firing, or its link going
/// down brings the conversation back to `Down`.
pub proof fn lemma_teardown_events_reach_down(old: Status, ctx: Context)
    ensures
        spec_transition(old, Event::KillNbr, ctx).0 == Status::Down,
        spec_transition(old, Event::InactivityTimer, ctx).0 == Status::Down,
        spec_transition(old, Event::LLDown, ctx).0 == Status::Down,
{
}

/// A one-way hello changes nothing: the state stays and nothing is done.
pub proof fn lemma_one_way_changes_nothing(old: Status, ctx: Context)
    ensures
        spec_transition(old, Event::OneWayReceived, ctx) == (old, Seq::<Action>::empty()),
{
}

/// A conversation becomes full only from `Exchange`, on the end of the exchange with nothing
/// left to request, or from `Loading`, once loading is done.
pub proof fn lemma_full_only_after_exchange_or_loading(old: Status, event: Event, ctx: Context)
    requires
        old != Status::Full,
        spec_transition(old, event, ctx).0 == Status::Full,
    ensures
        (old == Status::Exchange && event == Event::ExchangeDone && ctx.lsr_list_empty) || (old
            == Status::Loading && event == Event::LoadingDone),
{
}

/// An adjacency is started (the state becomes `ExStart` from below it) only with a neighbor
/// that an adjacency should be formed with.
pub proof fn lemma_exstart_only_when_adjacent(old: Status, event: Event, ctx: Context)
    requires
        old.rank() < Status::ExStart.rank(),
        spec_transition(old, event, ctx).0 == Status::ExStart,
    ensures
        ctx.adjacent,
        event == Event::TwoWayReceived || event == Event::AdjOk,
{
}

/// After the neighbor has been killed, a hello restarts the conversation at `Init`, whatever
/// state it was in before.
pub proof fn lemma_hello_after_kill_is_init(old: Status, ctx: Context)
    ensures
        spec_transition(spec_transition(old, Event::KillNbr, ctx).0, Event::HelloReceived, ctx).0
            == Status::Init,
{
}

} // verus!

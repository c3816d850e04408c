use vstd::prelude::*;

use crate::ip::IpAddr;
use crate::peer_info::PeerInfo;
use crate::peer_table::lists;
use crate::selection::{enumerates, lemma_filter_enumerates, select, PeerFilter};

verus! {

/// Why peers are being written to their file.
#[derive(Clone, Copy, Debug, PartialEq, Eq, Structural)]
pub enum DumpCause {
    /// The peers have changed.
    Change,
    /// The delay since the last dump is over.
    Delay,
}

/// What the saver is told.
#[derive(Debug)]
pub enum SaverEvent {
    /// The peers have changed; says whether the delay since the last dump is over.
    Changed { peers: Vec<PeerInfo>, delay_elapsed: bool },
    /// The delay since the last dump is over.
    DelayElapsed,
    /// There will be no more changes.
    Closed,
    /// The dump that was asked for has been tried; says whether it succeeded.
    Dumped { succeeded: bool },
}

/// What the saver asks for.
#[derive(Debug)]
pub enum SaverAction {
    /// Wait for what happens next.
    Wait,
    /// Write these records to the file.
    Dump(Vec<PeerInfo>),
    /// Start the delay anew, and wait for what happens next.
    RestartDelay,
    /// There is nothing left to do.
    Stop,
}

/// What a saver holds.
#[verifier::ext_equal]
pub struct SaverState {
    /// The latest peers, if they have not been written yet.
    pub pending: Option<Seq<PeerInfo>>,
    /// Why peers are being written at the moment, if they are.
    pub dumping: Option<DumpCause>,
}

impl SaverState {
    /// Whether `event` can happen: the saver is told how a dump went if, and only if, it asked
    /// for one.
    pub open spec fn accepts(self, event: SaverEvent) -> bool {
        event is Dumped <==> self.dumping is Some
    }
}

/// Whether `action` is to write those of `peers` that are saved.
pub open spec fn dumps(action: SaverAction, peers: Seq<PeerInfo>) -> bool {
    action is Dump && action->Dump_0@ == peers.filter(PeerFilter::Saved.predicate())
}

/// What a saver does about an event.
///
/// A change is kept, and written at once if the delay is over; the delay then starts anew,
/// whether writing succeeds or not. When the delay is over, what has not been written is written.
/// What could not be written is kept.
pub open spec fn saver_step(
    pre: SaverState,
    event: SaverEvent,
    post: SaverState,
    action: SaverAction,
) -> bool {
    match event {
        SaverEvent::Changed { peers, delay_elapsed } => if delay_elapsed {
            &&& post == SaverState {
                pending: Some(peers@),
                dumping: Some(DumpCause::Change),
            }
            &&& dumps(action, peers@)
        } else {
            post == SaverState { pending: Some(peers@), dumping: None } && action is Wait
        },
        SaverEvent::DelayElapsed => match pre.pending {
            Some(peers) => {
                &&& post == SaverState { dumping: Some(DumpCause::Delay), ..pre }
                &&& dumps(action, peers)
            },
            None => post == pre && action is Wait,
        },
        SaverEvent::Closed => post == pre && action is Stop,
        SaverEvent::Dumped { succeeded } => {
            &&& post == SaverState {
                pending: if succeeded {
                    None
                } else {
                    pre.pending
                },
                dumping: None,
            }
            &&& if pre.dumping == Some(DumpCause::Change) {
                action is RestartDelay
            } else {
                action is Wait
            }
        },
    }
}

/// Decides when changed peers are written to their file.
pub struct PeerSaver {
    pending: Option<Vec<PeerInfo>>,
    dumping: Option<DumpCause>,
}

impl View for PeerSaver {
    type V = SaverState;

    closed spec fn view(&self) -> SaverState {
        SaverState {
            pending: match self.pending {
                Some(peers) => Some(peers@),
                None => None,
            },
            dumping: self.dumping,
        }
    }
}

impl PeerSaver {
    /// A saver with nothing to write.
    pub fn new() -> (saver: PeerSaver)
        ensures
            saver@ == (SaverState { pending: None, dumping: None }),
    {
        PeerSaver { pending: None, dumping: None }
    }

    /// Decides what to do about an event.
    pub fn step(&mut self, event: SaverEvent) -> (action: SaverAction)
        requires
            old(self)@.accepts(event),
        ensures
            saver_step(old(self)@, event, final(self)@, action),
    {
        match event {
            SaverEvent::Changed { peers, delay_elapsed } => {
                if delay_elapsed {
                    let records = select(&peers, PeerFilter::Saved);
                    self.pending = Some(peers);
                    self.dumping = Some(DumpCause::Change);
                    SaverAction::Dump(records)
                } else {
                    self.pending = Some(peers);
                    SaverAction::Wait
                }
            },
            SaverEvent::DelayElapsed => {
                match &self.pending {
                    Some(peers) => {
                        let records = select(peers, PeerFilter::Saved);
                        self.dumping = Some(DumpCause::Delay);
                        SaverAction::Dump(records)
                    },
                    None => SaverAction::Wait,
                }
            },
            SaverEvent::Closed => SaverAction::Stop,
            SaverEvent::Dumped { succeeded } => {
                if succeeded {
                    self.pending = None;
                }
                let after_change = match self.dumping {
                    Some(cause) => cause == DumpCause::Change,
                    None => false,
                };
                self.dumping = None;
                if after_change {
                    SaverAction::RestartDelay
                } else {
                    SaverAction::Wait
                }
            },
        }
    }
}

/// What is asked to be written when `records` lists the peers of a database are the peers that are
/// saved, each of them once.
pub proof fn law_saver_dumps_saved(
    action: SaverAction,
    records: Seq<PeerInfo>,
    peers: Map<IpAddr, PeerInfo>,
)
    requires
        lists(records, peers),
        dumps(action, records),
    ensures
        enumerates(action->Dump_0@, peers, PeerFilter::Saved),
{
    lemma_filter_enumerates(records, PeerFilter::Saved);
}

/// Whatever is asked to be written is what is saved of the latest peers, and these are kept until
/// they have been written.
pub proof fn law_saver_writes_latest(
    pre: SaverState,
    event: SaverEvent,
    post: SaverState,
    action: SaverAction,
)
    requires
        pre.accepts(event),
        saver_step(pre, event, post, action),
    ensures
        action is Dump ==> post.pending is Some && dumps(action, post.pending->0),
        action is Dump <==> post.dumping is Some,
        event is Changed ==> post.pending == Some(event->peers@),
        post.pending != pre.pending ==> event is Changed || event == (SaverEvent::Dumped {
            succeeded: true,
        }),
{
}

/// Whether `states` are those of a saver that started with nothing to write, and then answered
/// `events` by `actions`.
pub open spec fn is_saver_history(
    events: Seq<SaverEvent>,
    actions: Seq<SaverAction>,
    states: Seq<SaverState>,
) -> bool {
    &&& states.len() == events.len() + 1
    &&& actions.len() == events.len()
    &&& states[0] == SaverState { pending: None, dumping: None }
    &&& forall|i: int|
        0 <= i < events.len() ==> states[i].accepts(#[trigger] events[i]) && saver_step(
            states[i],
            events[i],
            states[i + 1],
            actions[i],
        )
}

/// The peers of the latest change among the first `n` events.
pub open spec fn latest_change(events: Seq<SaverEvent>, n: int) -> Option<Seq<PeerInfo>>
    decreases n,
{
    if n <= 0 {
        None
    } else {
        match events[n - 1] {
            SaverEvent::Changed { peers, .. } => Some(peers@),
            _ => latest_change(events, n - 1),
        }
    }
}

/// What the latest dump among the first `n` events wrote that succeeded.
pub open spec fn written(
    events: Seq<SaverEvent>,
    actions: Seq<SaverAction>,
    n: int,
) -> Option<Seq<PeerInfo>>
    decreases n,
{
    if n <= 0 {
        None
    } else if events[n - 1] == (SaverEvent::Dumped { succeeded: true }) {
        Some(actions[n - 2]->Dump_0@)
    } else {
        written(events, actions, n - 1)
    }
}

/// Whenever nothing is pending, what was written last is what is saved of the latest change. And
/// whatever is pending is the latest change.
pub proof fn law_saver_loses_nothing(
    events: Seq<SaverEvent>,
    actions: Seq<SaverAction>,
    states: Seq<SaverState>,
    n: int,
)
    requires
        is_saver_history(events, actions, states),
        0 <= n < states.len(),
    ensures
        match states[n].pending {
            Some(peers) => latest_change(events, n) == Some(peers),
            None => match latest_change(events, n) {
                Some(peers) => written(events, actions, n) == Some(
                    peers.filter(PeerFilter::Saved.predicate()),
                ),
                None => written(events, actions, n) is None,
            },
        },
        states[n].dumping is Some ==> n > 0 && states[n].pending is Some && dumps(
            actions[n - 1],
            states[n].pending->0,
        ),
    decreases n,
{
    if n > 0 {
        law_saver_loses_nothing(events, actions, states, n - 1);
        assert(states[n - 1].accepts(events[n - 1]));
    }
}

} // verus!

//! The aggregation pipeline's state machine.
//!
//! The surrounding event loop owns the websocket connections and the
//! broadcaster; every decision is taken here. The loop converts whatever its
//! connections yield into an [`AggEvent`], steps the [`Aggregator`], and
//! performs the returned [`AggAction`]: publishing a consolidated snapshot,
//! propagating a fatal error, closing the connections, or returning.

use vstd::prelude::*;
use crate::orderbook::{
    merged_tick, updated, ExchangeErr, Exchanges, InTick, OutTick,
};

verus! {

/// Lifecycle states of the aggregation pipeline.
#[derive(Clone, Copy, Debug, PartialEq, Eq, Structural)]
pub enum AggState {
    /// Connections are being opened.
    Init,
    /// Both feeds connected; ticks are consumed and snapshots published.
    Running,
    /// A feed failed; the connections are being closed.
    Closing,
    /// The pipeline is finished.
    Terminated,
}

/// An event the pipeline reacts to.
pub enum AggEvent {
    /// Both exchange connections opened.
    Connected,
    /// Either connection failed to open.
    ConnectFailed(ExchangeErr),
    /// A decoded depth snapshot arrived from one exchange.
    Tick(InTick),
    /// A stream surfaced an error or closed; fatal to the pipeline.
    StreamError(ExchangeErr),
    /// Both connections completed the close handshake.
    Closed,
}

/// What the event loop must do after a step.
pub enum AggAction {
    /// Nothing.
    Ignore,
    /// Publish this consolidated snapshot to the subscribers.
    Publish(OutTick),
    /// Propagate this error: startup failed.
    Fail(ExchangeErr),
    /// Stop selecting and close both connections.
    CloseConnections,
    /// Return: the pipeline terminated cleanly.
    Finish,
}

/// The aggregation pipeline's state: its lifecycle phase and the cache of the
/// most recent snapshot per exchange.
pub struct Aggregator {
    pub state: AggState,
    pub books: Exchanges,
}

impl Aggregator {
    pub open spec fn wf(self) -> bool {
        self.books@.wf()
    }

    /// A fresh pipeline: about to connect, with an empty cache.
    pub fn new() -> (a: Aggregator)
        ensures
            a.state == AggState::Init,
            a.books@.bitstamp.bids == Seq::<crate::orderbook::Level>::empty(),
            a.books@.bitstamp.asks == Seq::<crate::orderbook::Level>::empty(),
            a.books@.binance.bids == Seq::<crate::orderbook::Level>::empty(),
            a.books@.binance.asks == Seq::<crate::orderbook::Level>::empty(),
            a.wf(),
    {
        Aggregator { state: AggState::Init, books: Exchanges::new() }
    }

    /// One step of the pipeline's state machine:
    ///
    /// | state   | event          | next       | action             |
    /// |---------|----------------|------------|--------------------|
    /// | Init    | Connected      | Running    | none               |
    /// | Init    | ConnectFailed  | Terminated | propagate error    |
    /// | Running | Tick           | Running    | re-merge, publish  |
    /// | Running | StreamError    | Closing    | close connections  |
    /// | Closing | Closed         | Terminated | return             |
    ///
    /// Any other pairing leaves the state untouched and asks for nothing.
    pub fn on_event(&mut self, ev: AggEvent) -> (act: AggAction)
        requires
            old(self).wf(),
            ev matches AggEvent::Tick(t) ==> t.wf(),
        ensures
            final(self).wf(),
            old(self).state == AggState::Init && ev is Connected ==> final(self).state
                == AggState::Running && final(self).books@ == old(self).books@ && act is Ignore,
            old(self).state == AggState::Init && ev is ConnectFailed ==> final(self).state
                == AggState::Terminated && (act matches AggAction::Fail(e) && e
                == ev->ConnectFailed_0) && final(self).books@ == old(self).books@,
            old(self).state == AggState::Running && ev is Tick ==> final(self).state
                == AggState::Running && final(self).books@ == updated(
                old(self).books@,
                ev->Tick_0@,
            ) && act is Publish && act->Publish_0@ == merged_tick(final(self).books@)
                && act->Publish_0.wf(),
            old(self).state == AggState::Running && ev is StreamError ==> final(self).state
                == AggState::Closing && final(self).books@ == old(self).books@
                && act is CloseConnections,
            old(self).state == AggState::Closing && ev is Closed ==> final(self).state
                == AggState::Terminated && final(self).books@ == old(self).books@
                && act is Finish,
            !(old(self).state == AggState::Init && (ev is Connected || ev is ConnectFailed)) && !(
            old(self).state == AggState::Running && (ev is Tick || ev is StreamError)) && !(old(
                self,
            ).state == AggState::Closing && ev is Closed) ==> final(self).state == old(self).state
                && final(self).books@ == old(self).books@ && act is Ignore,
    {
        match (self.state, ev) {
            (AggState::Init, AggEvent::Connected) => {
                self.state = AggState::Running;
                AggAction::Ignore
            },
            (AggState::Init, AggEvent::ConnectFailed(e)) => {
                self.state = AggState::Terminated;
                AggAction::Fail(e)
            },
            (AggState::Running, AggEvent::Tick(t)) => {
                self.books.update(t);
                AggAction::Publish(self.books.to_tick())
            },
            (AggState::Running, AggEvent::StreamError(_)) => {
                self.state = AggState::Closing;
                AggAction::CloseConnections
            },
            (AggState::Closing, AggEvent::Closed) => {
                self.state = AggState::Terminated;
                AggAction::Finish
            },
            (_, _) => AggAction::Ignore,
        }
    }
}

} // verus!

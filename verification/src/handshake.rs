//! The per-venue handshake that brings a private feed up, as a state machine:
//! the driver performs the action it is handed and reports whether the
//! acknowledgement came.

use vstd::prelude::*;
use crate::account::AccountInfo;
use crate::instrument::Venue;

verus! {

/// Pause before the subscription is sent on a venue that needs a login, in
/// milliseconds.
pub const LOGIN_PAUSE_MS: u64 = 100;

/// The kind of feed a channel carries.
#[derive(Clone, Copy, Debug, PartialEq, Eq, Structural)]
pub enum Channel {
    AccountOrders,
    AccountBalAndPos,
    /// Any channel that is not a private account feed.
    Other,
}

/// How far the handshake of one feed has come.
#[derive(Clone, Copy, Debug, PartialEq, Eq, Structural)]
pub enum HandshakeState {
    Disconnected,
    Connected,
    Authenticated,
    Subscribed,
    /// A step was not acknowledged or its payload could not be built.
    Failed,
}

/// One step for the driver to perform: build the payload, send it, wait for
/// the acknowledgement.
#[derive(Clone, Copy, Debug, PartialEq, Eq, Structural)]
pub enum HandshakeAction {
    Connect,
    Login,
    /// Pause for `pause_ms`, then subscribe.
    Subscribe { pause_ms: u64 },
}

/// Why a handshake cannot be started.
#[derive(Clone, Copy, Debug, PartialEq, Eq, Structural)]
pub enum HandshakeError {
    /// The channel is not a private account feed.
    UnsupportedChannel,
}

/// How a handshake starts.
#[derive(Clone, Copy, Debug, PartialEq, Eq, Structural)]
pub enum HandshakeStart {
    /// No live connection serves the feed: nothing to do, and no error.
    NoHandle,
    /// The venue has no private feeds here: nothing to do.
    VenueNotServed,
    /// Proceed from this state.
    Begin(HandshakeState),
}

/// Whether private feeds on `venue` need a login between connecting and
/// subscribing.
pub open spec fn requires_login(venue: Venue) -> bool {
    venue == Venue::Okx
}

/// Whether private feeds are brought up on `venue` at all.
pub open spec fn is_served(venue: Venue) -> bool {
    venue == Venue::Okx || venue == Venue::BinanceUm
}

/// The task identifier of the feed that `channel` carries for an account.
pub open spec fn feed_task(account: AccountInfo, channel: Channel) -> Result<u64, HandshakeError> {
    match channel {
        Channel::AccountOrders => Ok(account.account_orders_task_id),
        Channel::AccountBalAndPos => Ok(account.account_bal_pos_task_id),
        Channel::Other => Err(HandshakeError::UnsupportedChannel),
    }
}

/// The step to perform in `state`, if any.
pub open spec fn next_step(venue: Venue, state: HandshakeState) -> Option<HandshakeAction> {
    if !is_served(venue) {
        None
    } else {
        match state {
            HandshakeState::Disconnected => Some(HandshakeAction::Connect),
            HandshakeState::Connected => if requires_login(venue) {
                Some(HandshakeAction::Login)
            } else {
                None
            },
            HandshakeState::Authenticated => if requires_login(venue) {
                Some(HandshakeAction::Subscribe { pause_ms: LOGIN_PAUSE_MS })
            } else {
                None
            },
            HandshakeState::Subscribed => None,
            HandshakeState::Failed => None,
        }
    }
}

/// The state after the step of `state` was performed with outcome
/// `acknowledged`. A state without a step stays.
pub open spec fn state_after(venue: Venue, state: HandshakeState, acknowledged: bool) -> HandshakeState {
    match next_step(venue, state) {
        None => state,
        Some(action) => if !acknowledged {
            HandshakeState::Failed
        } else {
            match action {
                HandshakeAction::Connect => if requires_login(venue) {
                    HandshakeState::Connected
                } else {
                    HandshakeState::Subscribed
                },
                HandshakeAction::Login => HandshakeState::Authenticated,
                HandshakeAction::Subscribe { .. } => HandshakeState::Subscribed,
            }
        },
    }
}

/// The steps a driver performs from `state` when the outcomes of its steps
/// are `outcomes`, in order. It stops when no step is left or the outcomes
/// run out.
pub open spec fn steps_taken(venue: Venue, state: HandshakeState, outcomes: Seq<bool>) -> Seq<
    HandshakeAction,
>
    decreases outcomes.len(),
{
    match next_step(venue, state) {
        None => Seq::empty(),
        Some(action) => if outcomes.len() == 0 {
            Seq::empty()
        } else {
            seq![action] + steps_taken(
                venue,
                state_after(venue, state, outcomes[0]),
                outcomes.drop_first(),
            )
        },
    }
}

/// The state a driver ends in from `state` under `outcomes`.
pub open spec fn state_reached(venue: Venue, state: HandshakeState, outcomes: Seq<bool>) -> HandshakeState
    decreases outcomes.len(),
{
    if outcomes.len() == 0 {
        state
    } else {
        state_reached(venue, state_after(venue, state, outcomes[0]), outcomes.drop_first())
    }
}

impl AccountInfo {
    /// Computes `feed_task`.
    pub fn feed_task_id(&self, channel: Channel) -> (r: Result<u64, HandshakeError>)
        ensures
            r == feed_task(*self, channel),
    {
        match channel {
            Channel::AccountOrders => Ok(self.account_orders_task_id),
            Channel::AccountBalAndPos => Ok(self.account_bal_pos_task_id),
            Channel::Other => Err(HandshakeError::UnsupportedChannel),
        }
    }
}

/// Starts the handshake of one feed. A channel that is no account feed is an
/// error; a venue without private feeds and a feed without a live connection
/// are both nothing to do.
pub fn begin_handshake(venue: Venue, channel: Channel, handle_present: bool) -> (r: Result<
    HandshakeStart,
    HandshakeError,
>)
    ensures
        r == if !is_served(venue) {
            Ok::<HandshakeStart, HandshakeError>(HandshakeStart::VenueNotServed)
        } else if channel == Channel::Other {
            Err(HandshakeError::UnsupportedChannel)
        } else if !handle_present {
            Ok(HandshakeStart::NoHandle)
        } else {
            Ok(HandshakeStart::Begin(HandshakeState::Disconnected))
        },
{
    if venue != Venue::Okx && venue != Venue::BinanceUm {
        Ok(HandshakeStart::VenueNotServed)
    } else if channel == Channel::Other {
        Err(HandshakeError::UnsupportedChannel)
    } else if !handle_present {
        Ok(HandshakeStart::NoHandle)
    } else {
        Ok(HandshakeStart::Begin(HandshakeState::Disconnected))
    }
}

/// Computes `next_step`.
pub fn next_action(venue: Venue, state: HandshakeState) -> (a: Option<HandshakeAction>)
    ensures
        a == next_step(venue, state),
{
    if venue != Venue::Okx && venue != Venue::BinanceUm {
        return None;
    }
    let login = venue == Venue::Okx;
    match state {
        HandshakeState::Disconnected => Some(HandshakeAction::Connect),
        HandshakeState::Connected => if login {
            Some(HandshakeAction::Login)
        } else {
            None
        },
        HandshakeState::Authenticated => if login {
            Some(HandshakeAction::Subscribe { pause_ms: LOGIN_PAUSE_MS })
        } else {
            None
        },
        HandshakeState::Subscribed => None,
        HandshakeState::Failed => None,
    }
}

/// Computes `state_after`.
pub fn on_step_result(venue: Venue, state: HandshakeState, acknowledged: bool) -> (s:
    HandshakeState)
    ensures
        s == state_after(venue, state, acknowledged),
{
    match next_action(venue, state) {
        None => state,
        Some(action) => if !acknowledged {
            HandshakeState::Failed
        } else {
            match action {
                HandshakeAction::Connect => if venue == Venue::Okx {
                    HandshakeState::Connected
                } else {
                    HandshakeState::Subscribed
                },
                HandshakeAction::Login => HandshakeState::Authenticated,
                HandshakeAction::Subscribe { .. } => HandshakeState::Subscribed,
            }
        },
    }
}

/// Whether the handshake came through: the feed is subscribed.
pub fn handshake_succeeded(state: HandshakeState) -> (ok: bool)
    ensures
        ok == (state == HandshakeState::Subscribed),
{
    state == HandshakeState::Subscribed
}

/// The channel to connect next for an account, given the channel connected
/// last and whether its handshake came through. The order feed comes first;
/// the balance and position feed follows only on success.
pub open spec fn channel_after(venue: Venue, previous: Option<(Channel, bool)>) -> Option<Channel> {
    if !is_served(venue) {
        None
    } else {
        match previous {
            None => Some(Channel::AccountOrders),
            Some((Channel::AccountOrders, true)) => Some(Channel::AccountBalAndPos),
            Some(_) => None,
        }
    }
}

/// Computes `channel_after`.
pub fn next_connect_channel(venue: Venue, previous: Option<(Channel, bool)>) -> (c: Option<Channel>)
    ensures
        c == channel_after(venue, previous),
{
    if venue != Venue::Okx && venue != Venue::BinanceUm {
        return None;
    }
    match previous {
        None => Some(Channel::AccountOrders),
        Some((channel, ok)) => if channel == Channel::AccountOrders && ok {
            Some(Channel::AccountBalAndPos)
        } else {
            None
        },
    }
}

/// What to do with one feed on teardown.
#[derive(Clone, Copy, Debug, PartialEq, Eq, Structural)]
pub enum TeardownAction {
    /// Send a shutdown command and wait for nothing.
    SendShutdown { channel: Channel, task_id: u64 },
    /// No live connection serves the feed: nothing to send.
    Nothing { channel: Channel, task_id: u64 },
}

/// The teardown of an account's two feeds, order feed first. A feed gets a
/// shutdown command where a live connection serves it.
pub fn teardown_plan(
    orders_task_id: u64,
    bal_pos_task_id: u64,
    orders_handle_present: bool,
    bal_pos_handle_present: bool,
) -> (plan: Vec<TeardownAction>)
    ensures
        plan@.len() == 2,
        plan@[0] == if orders_handle_present {
            (TeardownAction::SendShutdown { channel: Channel::AccountOrders, task_id: orders_task_id })
        } else {
            (TeardownAction::Nothing { channel: Channel::AccountOrders, task_id: orders_task_id })
        },
        plan@[1] == if bal_pos_handle_present {
            (TeardownAction::SendShutdown {
                channel: Channel::AccountBalAndPos,
                task_id: bal_pos_task_id,
            })
        } else {
            (TeardownAction::Nothing { channel: Channel::AccountBalAndPos, task_id: bal_pos_task_id })
        },
{
    let mut plan: Vec<TeardownAction> = Vec::new();
    if orders_handle_present {
        plan.push(
            TeardownAction::SendShutdown { channel: Channel::AccountOrders, task_id: orders_task_id },
        );
    } else {
        plan.push(
            TeardownAction::Nothing { channel: Channel::AccountOrders, task_id: orders_task_id },
        );
    }
    if bal_pos_handle_present {
        plan.push(
            TeardownAction::SendShutdown {
                channel: Channel::AccountBalAndPos,
                task_id: bal_pos_task_id,
            },
        );
    } else {
        plan.push(
            TeardownAction::Nothing { channel: Channel::AccountBalAndPos, task_id: bal_pos_task_id },
        );
    }
    plan
}

/// Once a step has failed, no further step is ever handed out.
pub proof fn lemma_failure_is_final(venue: Venue, outcomes: Seq<bool>)
    ensures
        next_step(venue, HandshakeState::Failed) is None,
        steps_taken(venue, HandshakeState::Failed, outcomes) == Seq::<HandshakeAction>::empty(),
        state_reached(venue, HandshakeState::Failed, outcomes) == HandshakeState::Failed,
    decreases outcomes.len(),
{
    if outcomes.len() > 0 {
        lemma_failure_is_final(venue, outcomes.drop_first());
    }
}

/// A subscription is sent on a login venue only after the connect and the
/// login were both acknowledged: a failed login keeps the subscription from
/// being sent.
pub proof fn lemma_subscribe_needs_login(venue: Venue, outcomes: Seq<bool>, i: int)
    requires
        requires_login(venue),
        0 <= i < steps_taken(venue, HandshakeState::Disconnected, outcomes).len(),
        steps_taken(venue, HandshakeState::Disconnected, outcomes)[i] is Subscribe,
    ensures
        i == 2,
        outcomes.len() >= 3,
        outcomes[0],
        outcomes[1],
        steps_taken(venue, HandshakeState::Disconnected, outcomes)[1] == HandshakeAction::Login,
{
    let s0 = HandshakeState::Disconnected;
    let t0 = steps_taken(venue, s0, outcomes);
    assert(outcomes.len() > 0);
    let o1 = outcomes.drop_first();
    let s1 = state_after(venue, s0, outcomes[0]);
    let t1 = steps_taken(venue, s1, o1);
    assert(t0 =~= seq![HandshakeAction::Connect] + t1);
    if !outcomes[0] {
        lemma_failure_is_final(venue, o1);
    } else {
        assert(s1 == HandshakeState::Connected);
        if o1.len() > 0 {
            let o2 = o1.drop_first();
            let s2 = state_after(venue, s1, o1[0]);
            let t2 = steps_taken(venue, s2, o2);
            assert(o1[0] == outcomes[1]);
            assert(t1 =~= seq![HandshakeAction::Login] + t2);
            if !o1[0] {
                lemma_failure_is_final(venue, o2);
            } else {
                assert(s2 == HandshakeState::Authenticated);
                if o2.len() > 0 {
                    let o3 = o2.drop_first();
                    let s3 = state_after(venue, s2, o2[0]);
                    let t3 = steps_taken(venue, s3, o3);
                    assert(t2 =~= seq![HandshakeAction::Subscribe { pause_ms: LOGIN_PAUSE_MS }]
                        + t3);
                    if !o2[0] {
                        lemma_failure_is_final(venue, o3);
                    } else {
                        assert(s3 == HandshakeState::Subscribed);
                        assert(t3 == Seq::<HandshakeAction>::empty());
                    }
                }
            }
        }
    }
}

/// On a venue without login the connect is the only step, and its
/// acknowledgement leaves the feed subscribed.
pub proof fn lemma_connect_subscribes_without_login(venue: Venue, outcomes: Seq<bool>)
    requires
        is_served(venue),
        !requires_login(venue),
        outcomes.len() >= 1,
    ensures
        steps_taken(venue, HandshakeState::Disconnected, outcomes) == seq![HandshakeAction::Connect],
        outcomes[0] ==> state_reached(venue, HandshakeState::Disconnected, outcomes)
            == HandshakeState::Subscribed,
        !outcomes[0] ==> state_reached(venue, HandshakeState::Disconnected, outcomes)
            == HandshakeState::Failed,
{
    let s1 = state_after(venue, HandshakeState::Disconnected, outcomes[0]);
    let rest = outcomes.drop_first();
    assert(steps_taken(venue, s1, rest) == Seq::<HandshakeAction>::empty());
    assert(steps_taken(venue, HandshakeState::Disconnected, outcomes) =~= seq![
        HandshakeAction::Connect,
    ]);
    lemma_settled_state_stays(venue, s1, rest);
}

/// A state without a step is never left.
pub proof fn lemma_settled_state_stays(venue: Venue, state: HandshakeState, outcomes: Seq<bool>)
    requires
        next_step(venue, state) is None,
    ensures
        state_reached(venue, state, outcomes) == state,
    decreases outcomes.len(),
{
    if outcomes.len() > 0 {
        lemma_settled_state_stays(venue, state, outcomes.drop_first());
    }
}

/// Connecting an account visits the order feed first and the balance and
/// position feed second, each once, and stops at the first handshake that
/// does not come through.
pub proof fn lemma_connect_visits_each_channel_once(venue: Venue, came_through: bool)
    requires
        is_served(venue),
    ensures
        channel_after(venue, None) == Some(Channel::AccountOrders),
        channel_after(venue, Some((Channel::AccountOrders, true))) == Some(
            Channel::AccountBalAndPos,
        ),
        channel_after(venue, Some((Channel::AccountOrders, false))) is None,
        channel_after(venue, Some((Channel::AccountBalAndPos, came_through))) is None,
{
}

} // verus!

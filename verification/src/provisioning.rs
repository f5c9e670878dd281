//! The Wi-Fi start-up sequence as a state machine.
//!
//! ```text
//! load credentials ── none, or unreadable ─────────────┐
//!        │ some                                        ▼
//!        ▼                                   start access point
//! connect as station ── fails ─▶ wipe them ─▶ start DNS hijack
//!        │ connected                          start HTTP form
//!        ▼                                             │
//!   station mode                              provisioning mode
//! ```
//!
//! A store that cannot be read counts as holding no credentials. Failing to
//! start any part of the portal ends the sequence with an error. The caller performs each action and reports its
//! outcome as the next event.

use vstd::prelude::*;

use crate::credentials::Credentials;

verus! {

/// Where the start-up sequence stands.
#[derive(Debug, Clone, Copy, PartialEq, Eq)]
pub enum BootStep {
    /// Reading the saved credentials.
    LoadingCredentials,
    /// Joining the saved network.
    ConnectingStation,
    /// Wiping credentials that failed to connect.
    ClearingCredentials,
    /// Bringing up the open access point.
    StartingAccessPoint,
    /// Starting the DNS hijack server.
    StartingDns,
    /// Starting the HTTP provisioning server.
    StartingHttp,
    /// Done: joined the saved network.
    Station,
    /// Done: the captive portal is up.
    Provisioning,
    /// Done: start-up failed.
    Failed,
}

/// The outcome of the last action.
pub enum BootEvent {
    /// The store was read: the saved credentials, if any.
    CredentialsLoaded(Option<Credentials>),
    /// Reading the store failed (treated as no saved credentials).
    LoadFailed,
    /// The station joined the network and got an address.
    StationConnected,
    /// Joining the network failed.
    StationFailed,
    /// Wiping the credentials finished (its outcome is not looked at).
    CredentialsCleared,
    /// The access point is up.
    AccessPointStarted,
    /// The access point could not be started.
    AccessPointFailed,
    /// The DNS hijack server is running.
    DnsStarted,
    /// The DNS hijack server could not be started.
    DnsFailed,
    /// The HTTP provisioning server is running.
    HttpStarted,
    /// The HTTP provisioning server could not be started.
    HttpFailed,
}

/// What the caller does next.
pub enum BootAction {
    /// Join the network with these credentials.
    ConnectStation(Credentials),
    /// Wipe the saved credentials.
    ClearCredentials,
    /// Bring up the open access point.
    StartAccessPoint,
    /// Start the DNS hijack server.
    StartDns,
    /// Start the HTTP provisioning server.
    StartHttp,
    /// Keep running in station mode.
    RunStation,
    /// Keep running with the captive portal up.
    RunProvisioning,
    /// Report that start-up failed.
    Fail,
}

/// The sequence is over.
pub open spec fn is_final(step: BootStep) -> bool {
    step == BootStep::Station || step == BootStep::Provisioning || step == BootStep::Failed
}

/// The events that the action taken in `step` can produce.
pub open spec fn expects(step: BootStep, event: BootEvent) -> bool {
    match step {
        BootStep::LoadingCredentials => event is CredentialsLoaded || event is LoadFailed,
        BootStep::ConnectingStation => event is StationConnected || event is StationFailed,
        BootStep::ClearingCredentials => event is CredentialsCleared,
        BootStep::StartingAccessPoint => event is AccessPointStarted || event is AccessPointFailed,
        BootStep::StartingDns => event is DnsStarted || event is DnsFailed,
        BootStep::StartingHttp => event is HttpStarted || event is HttpFailed,
        _ => false,
    }
}

/// The transition table of the start-up sequence.
pub open spec fn boot_transition(step: BootStep, event: BootEvent) -> (BootStep, BootAction) {
    match event {
        BootEvent::CredentialsLoaded(Some(c)) => (BootStep::ConnectingStation, BootAction::ConnectStation(c)),
        BootEvent::CredentialsLoaded(None) => (BootStep::StartingAccessPoint, BootAction::StartAccessPoint),
        BootEvent::LoadFailed => (BootStep::StartingAccessPoint, BootAction::StartAccessPoint),
        BootEvent::StationConnected => (BootStep::Station, BootAction::RunStation),
        BootEvent::StationFailed => (BootStep::ClearingCredentials, BootAction::ClearCredentials),
        BootEvent::CredentialsCleared => (BootStep::StartingAccessPoint, BootAction::StartAccessPoint),
        BootEvent::AccessPointStarted => (BootStep::StartingDns, BootAction::StartDns),
        BootEvent::DnsStarted => (BootStep::StartingHttp, BootAction::StartHttp),
        BootEvent::HttpStarted => (BootStep::Provisioning, BootAction::RunProvisioning),
        _ => (BootStep::Failed, BootAction::Fail),
    }
}

/// Advances the start-up sequence by one reported outcome.
pub fn boot_step(step: BootStep, event: BootEvent) -> (res: (BootStep, BootAction))
    requires
        expects(step, event),
    ensures
        res == boot_transition(step, event),
{
    match event {
        BootEvent::CredentialsLoaded(Some(c)) => (BootStep::ConnectingStation, BootAction::ConnectStation(c)),
        BootEvent::CredentialsLoaded(None) => (BootStep::StartingAccessPoint, BootAction::StartAccessPoint),
        BootEvent::LoadFailed => (BootStep::StartingAccessPoint, BootAction::StartAccessPoint),
        BootEvent::StationConnected => (BootStep::Station, BootAction::RunStation),
        BootEvent::StationFailed => (BootStep::ClearingCredentials, BootAction::ClearCredentials),
        BootEvent::CredentialsCleared => (BootStep::StartingAccessPoint, BootAction::StartAccessPoint),
        BootEvent::AccessPointStarted => (BootStep::StartingDns, BootAction::StartDns),
        BootEvent::DnsStarted => (BootStep::StartingHttp, BootAction::StartHttp),
        BootEvent::HttpStarted => (BootStep::Provisioning, BootAction::RunProvisioning),
        _ => (BootStep::Failed, BootAction::Fail),
    }
}

/// Most steps left before the sequence is over.
pub open spec fn steps_left(step: BootStep) -> nat {
    match step {
        BootStep::LoadingCredentials => 6,
        BootStep::ConnectingStation => 5,
        BootStep::ClearingCredentials => 4,
        BootStep::StartingAccessPoint => 3,
        BootStep::StartingDns => 2,
        BootStep::StartingHttp => 1,
        _ => 0,
    }
}

/// The start-up sequence always ends: every unfinished step expects some
/// outcome, and every expected outcome moves strictly closer to the end, so
/// at most six outcomes lead from loading the credentials to a final step.
pub proof fn lemma_boot_always_ends(step: BootStep, event: BootEvent)
    ensures
        !is_final(step) ==> exists|e: BootEvent| expects(step, e),
        is_final(step) ==> !expects(step, event),
        expects(step, event) ==> steps_left(boot_transition(step, event).0) < steps_left(step),
        steps_left(step) == 0 <==> is_final(step),
{
    if !is_final(step) {
        let e = match step {
            BootStep::LoadingCredentials => BootEvent::CredentialsLoaded(None),
            BootStep::ConnectingStation => BootEvent::StationFailed,
            BootStep::ClearingCredentials => BootEvent::CredentialsCleared,
            BootStep::StartingAccessPoint => BootEvent::AccessPointFailed,
            BootStep::StartingDns => BootEvent::DnsFailed,
            _ => BootEvent::HttpFailed,
        };
        assert(expects(step, e));
    }
}

/// The order the diagram promises: the station joins with exactly the saved
/// credentials; station mode follows only a successful join; credentials are
/// wiped only after a failed join; and the portal starts only when nothing was
/// saved (or the store could not be read) or after the wipe.
pub proof fn lemma_boot_order(step: BootStep, event: BootEvent)
    requires
        expects(step, event),
    ensures
        boot_transition(step, event).1 matches BootAction::ConnectStation(c) ==> event
            == BootEvent::CredentialsLoaded(Some(c)),
        boot_transition(step, event).0 == BootStep::Station ==> step == BootStep::ConnectingStation
            && event is StationConnected,
        boot_transition(step, event).1 is ClearCredentials ==> step == BootStep::ConnectingStation
            && event is StationFailed,
        boot_transition(step, event).1 is StartAccessPoint ==> (step == BootStep::LoadingCredentials
            && (event == BootEvent::CredentialsLoaded(None) || event is LoadFailed)) || step
            == BootStep::ClearingCredentials,
        boot_transition(step, event).0 == BootStep::Provisioning ==> step == BootStep::StartingHttp,
{
}

/// Saved credentials are always tried: whatever they hold (an empty
/// password included), loading them leads to joining the network with
/// exactly those credentials, and loading none, or failing to read the store,
/// leads to bringing up the access point.
pub proof fn lemma_saved_credentials_are_tried(step: BootStep, loaded: Option<Credentials>)
    requires
        expects(step, BootEvent::CredentialsLoaded(loaded)),
    ensures
        loaded matches Some(c) ==> boot_transition(step, BootEvent::CredentialsLoaded(loaded)) == (
            BootStep::ConnectingStation,
            BootAction::ConnectStation(c),
        ),
        loaded is None ==> boot_transition(step, BootEvent::CredentialsLoaded(loaded)) == (
            BootStep::StartingAccessPoint,
            BootAction::StartAccessPoint,
        ),
        boot_transition(step, BootEvent::LoadFailed) == (
            BootStep::StartingAccessPoint,
            BootAction::StartAccessPoint,
        ),
{
}

/// Where the sequence stands after the outcomes `events`, from `step`.
pub open spec fn run_end(step: BootStep, events: Seq<BootEvent>) -> BootStep
    decreases events.len(),
{
    if events.len() == 0 {
        step
    } else {
        run_end(boot_transition(step, events[0]).0, events.drop_first())
    }
}

/// The actions asked for along the outcomes `events`, from `step`.
pub open spec fn run_actions(step: BootStep, events: Seq<BootEvent>) -> Seq<BootAction>
    decreases events.len(),
{
    if events.len() == 0 {
        Seq::empty()
    } else {
        seq![boot_transition(step, events[0]).1] + run_actions(
            boot_transition(step, events[0]).0,
            events.drop_first(),
        )
    }
}

/// Every outcome in `events` is one that the action before it can produce.
pub open spec fn valid_run(step: BootStep, events: Seq<BootEvent>) -> bool
    decreases events.len(),
{
    events.len() == 0 || (expects(step, events[0]) && valid_run(
        boot_transition(step, events[0]).0,
        events.drop_first(),
    ))
}

/// An action that brings up part of the captive portal.
pub open spec fn is_portal_action(action: BootAction) -> bool {
    action is StartAccessPoint || action is StartDns || action is StartHttp
}

/// After a final step no outcome can follow.
proof fn lemma_run_after_final(step: BootStep, events: Seq<BootEvent>)
    requires
        is_final(step),
        valid_run(step, events),
    ensures
        events.len() == 0,
{
}

/// Station mode is out of reach once the sequence has moved past the join.
proof fn lemma_no_station_after_join(step: BootStep, events: Seq<BootEvent>)
    requires
        valid_run(step, events),
        step != BootStep::LoadingCredentials,
        step != BootStep::ConnectingStation,
        step != BootStep::Station,
    ensures
        run_end(step, events) != BootStep::Station,
    decreases events.len(),
{
    if events.len() > 0 {
        lemma_no_station_after_join(boot_transition(step, events[0]).0, events.drop_first());
    }
}

/// From starting the HTTP server, provisioning is reached only by its start.
proof fn lemma_run_from_http(events: Seq<BootEvent>)
    requires
        valid_run(BootStep::StartingHttp, events),
        run_end(BootStep::StartingHttp, events) == BootStep::Provisioning,
    ensures
        events == seq![BootEvent::HttpStarted],
{
    reveal_with_fuel(run_end, 3);
    reveal_with_fuel(valid_run, 3);
    let next = boot_transition(BootStep::StartingHttp, events[0]).0;
    lemma_run_after_final(next, events.drop_first());
    assert(events =~= seq![BootEvent::HttpStarted]);
}

/// From starting DNS, provisioning is reached only by DNS then HTTP starting.
proof fn lemma_run_from_dns(events: Seq<BootEvent>)
    requires
        valid_run(BootStep::StartingDns, events),
        run_end(BootStep::StartingDns, events) == BootStep::Provisioning,
    ensures
        events == seq![BootEvent::DnsStarted, BootEvent::HttpStarted],
{
    reveal_with_fuel(run_end, 3);
    reveal_with_fuel(valid_run, 3);
    let next = boot_transition(BootStep::StartingDns, events[0]).0;
    if next == BootStep::Failed {
        lemma_run_after_final(next, events.drop_first());
    } else {
        lemma_run_from_http(events.drop_first());
    }
    assert(events =~= seq![BootEvent::DnsStarted, BootEvent::HttpStarted]);
}

/// From starting the access point, provisioning is reached only by the
/// access point, DNS and HTTP starting, in that order.
proof fn lemma_run_from_ap(events: Seq<BootEvent>)
    requires
        valid_run(BootStep::StartingAccessPoint, events),
        run_end(BootStep::StartingAccessPoint, events) == BootStep::Provisioning,
    ensures
        events == seq![BootEvent::AccessPointStarted, BootEvent::DnsStarted, BootEvent::HttpStarted],
{
    reveal_with_fuel(run_end, 3);
    reveal_with_fuel(valid_run, 3);
    let next = boot_transition(BootStep::StartingAccessPoint, events[0]).0;
    if next == BootStep::Failed {
        lemma_run_after_final(next, events.drop_first());
    } else {
        lemma_run_from_dns(events.drop_first());
    }
    assert(events =~= seq![
        BootEvent::AccessPointStarted,
        BootEvent::DnsStarted,
        BootEvent::HttpStarted,
    ]);
}

/// From joining the network, station mode is reached only by a successful
/// join, and provisioning only by a failed join, the wipe, then the portal.
proof fn lemma_run_from_station(events: Seq<BootEvent>)
    requires
        valid_run(BootStep::ConnectingStation, events),
    ensures
        run_end(BootStep::ConnectingStation, events) == BootStep::Station ==> events == seq![
            BootEvent::StationConnected,
        ],
        run_end(BootStep::ConnectingStation, events) == BootStep::Provisioning ==> events
            == seq![
            BootEvent::StationFailed,
            BootEvent::CredentialsCleared,
            BootEvent::AccessPointStarted,
            BootEvent::DnsStarted,
            BootEvent::HttpStarted,
        ],
{
    reveal_with_fuel(run_end, 3);
    reveal_with_fuel(valid_run, 3);
    if events.len() > 0 {
        let next = boot_transition(BootStep::ConnectingStation, events[0]).0;
        let rest = events.drop_first();
        if next == BootStep::Station {
            lemma_run_after_final(next, rest);
            assert(events =~= seq![BootEvent::StationConnected]);
        } else {
            lemma_no_station_after_join(next, rest);
        }
        if next != BootStep::Station &&  run_end(BootStep::ConnectingStation, events) == BootStep::Provisioning {
            // After the failed join comes the wipe.
            let after = boot_transition(next, rest[0]).0;
            lemma_run_from_ap(rest.drop_first());
            assert(events =~= seq![
                BootEvent::StationFailed,
                BootEvent::CredentialsCleared,
                BootEvent::AccessPointStarted,
                BootEvent::DnsStarted,
                BootEvent::HttpStarted,
            ]);
        }
    }
}

/// Whole runs of the start-up sequence, from loading the credentials.
///
/// Station mode is reached only by loading saved credentials and joining with
/// them; no part of the portal is started on the way. Provisioning mode is
/// reached only after nothing could be loaded, or after a failed join and the
/// wipe; either way its last three outcomes are the access point, the DNS
/// server and the HTTP server starting, in that order.
pub proof fn lemma_boot_runs(events: Seq<BootEvent>)
    requires
        valid_run(BootStep::LoadingCredentials, events),
    ensures
        run_end(BootStep::LoadingCredentials, events) == BootStep::Station ==> {
            &&& events.len() == 2
            &&& events[0] matches BootEvent::CredentialsLoaded(Some(c))
            &&& events[1] == BootEvent::StationConnected
            &&& run_actions(BootStep::LoadingCredentials, events) == seq![
                BootAction::ConnectStation(c),
                BootAction::RunStation,
            ]
            &&& forall|k: int|
                0 <= k < run_actions(BootStep::LoadingCredentials, events).len()
                    ==> !is_portal_action(
                    #[trigger] run_actions(BootStep::LoadingCredentials, events)[k],
                )
        },
        run_end(BootStep::LoadingCredentials, events) == BootStep::Provisioning ==> {
            let n = events.len() as int;
            &&& n >= 4
            &&& events.subrange(n - 3, n) == seq![
                BootEvent::AccessPointStarted,
                BootEvent::DnsStarted,
                BootEvent::HttpStarted,
            ]
            &&& run_actions(BootStep::LoadingCredentials, events).subrange(n - 4, n) == seq![
                BootAction::StartAccessPoint,
                BootAction::StartDns,
                BootAction::StartHttp,
                BootAction::RunProvisioning,
            ]
            &&& (n == 4 && (events[0] == BootEvent::CredentialsLoaded(None) || events[0] is LoadFailed))
                || (n == 6 && (events[0] matches BootEvent::CredentialsLoaded(Some(_)))
                && events[1] == BootEvent::StationFailed && events[2]
                == BootEvent::CredentialsCleared)
        },
{
    reveal_with_fuel(run_end, 3);
    reveal_with_fuel(run_actions, 3);
    reveal_with_fuel(valid_run, 3);
    let start = BootStep::LoadingCredentials;
    let end = run_end(start, events);
    if events.len() > 0 && (end == BootStep::Station || end == BootStep::Provisioning) {
        let next = boot_transition(start, events[0]).0;
        let rest = events.drop_first();
        if next == BootStep::ConnectingStation {
            lemma_run_from_station(rest);
            let c = events[0]->CredentialsLoaded_0->Some_0;
            if end == BootStep::Station {
                assert(rest == seq![BootEvent::StationConnected]);
                assert(rest.drop_first() =~= Seq::<BootEvent>::empty());
                assert(run_actions(start, events) =~= seq![
                    BootAction::ConnectStation(c),
                    BootAction::RunStation,
                ]);
            } else {
                let r1 = rest.drop_first();
                let r2 = r1.drop_first();
                let r3 = r2.drop_first();
                let r4 = r3.drop_first();
                let r5 = r4.drop_first();
                assert(r5 =~= Seq::<BootEvent>::empty());
                assert(run_actions(BootStep::StartingHttp, r4) =~= seq![BootAction::RunProvisioning]);
                assert(run_actions(BootStep::StartingDns, r3) =~= seq![
                    BootAction::StartHttp,
                    BootAction::RunProvisioning,
                ]);
                assert(run_actions(BootStep::StartingAccessPoint, r2) =~= seq![
                    BootAction::StartDns,
                    BootAction::StartHttp,
                    BootAction::RunProvisioning,
                ]);
                assert(run_actions(BootStep::ClearingCredentials, r1) =~= seq![
                    BootAction::StartAccessPoint,
                    BootAction::StartDns,
                    BootAction::StartHttp,
                    BootAction::RunProvisioning,
                ]);
                let acts = run_actions(start, events);
                assert(acts.subrange(2, 6) =~= seq![
                    BootAction::StartAccessPoint,
                    BootAction::StartDns,
                    BootAction::StartHttp,
                    BootAction::RunProvisioning,
                ]);
                assert(events.subrange(3, 6) =~= seq![
                    BootEvent::AccessPointStarted,
                    BootEvent::DnsStarted,
                    BootEvent::HttpStarted,
                ]);
            }
        } else if next == BootStep::StartingAccessPoint {
            lemma_no_station_after_join(next, rest);
            lemma_run_from_ap(rest);
            let r1 = rest.drop_first();
            let r2 = r1.drop_first();
            let r3 = r2.drop_first();
            assert(r3 =~= Seq::<BootEvent>::empty());
            assert(run_actions(BootStep::StartingHttp, r2) =~= seq![BootAction::RunProvisioning]);
            assert(run_actions(BootStep::StartingDns, r1) =~= seq![
                BootAction::StartHttp,
                BootAction::RunProvisioning,
            ]);
            assert(run_actions(BootStep::StartingAccessPoint, rest) =~= seq![
                BootAction::StartDns,
                BootAction::StartHttp,
                BootAction::RunProvisioning,
            ]);
            let acts = run_actions(start, events);
            assert(acts.subrange(0, 4) =~= seq![
                BootAction::StartAccessPoint,
                BootAction::StartDns,
                BootAction::StartHttp,
                BootAction::RunProvisioning,
            ]);
            assert(events.subrange(1, 4) =~= seq![
                BootEvent::AccessPointStarted,
                BootEvent::DnsStarted,
                BootEvent::HttpStarted,
            ]);
        }
    }
}

} // verus!

//! One tick of the reconciliation loop as a state machine: it takes what
//! the outside world answered and says what to do next.

use crate::address::{discovery, get_ipv6_set_with_iface, DiscoveryError};
use crate::reconcile::{
    classify_update, describe_record_list_payload, describe_record_list_text, is_rejection,
    modify_record_text, reconcile, reconciliation, update_views, Reconciliation,
    ReconciliationView, RecordUpdate, RecordUpdateView, UpdateOutcome,
};
use crate::response::{record_views, Record, RecordView};
use vstd::prelude::*;
use vstd::string::*;
use vstd::utf8::encode_utf8;

verus! {

/// The seconds from the start of one tick to the start of the next,
/// however the tick ended.
pub const TICK_INTERVAL_SECONDS: u64 = 3600;

/// How a tick ended.
#[derive(Debug, Clone, Copy, PartialEq, Eq, Structural)]
pub enum TickOutcome {
    /// The records could not be fetched.
    FetchFailed,
    /// The table of interface addresses could not be read.
    TableUnreadable,
    /// A line of the interface in the table holds no address.
    MalformedTable { line: usize },
    /// The provider holds no AAAA record.
    NoRecord,
    /// The interface has no address to publish.
    NoLocalAddress,
    /// No drift: nothing was changed.
    InSync,
    /// Every record was changed.
    Updated { records: usize },
    /// Of the changes that were asked for, `failed` did not succeed.
    UpdateFailed { failed: usize, records: usize },
    /// An event came that answered no pending action.
    Aborted,
}

/// What the outside world answered to the last action.
#[derive(Debug)]
pub enum TickEvent {
    /// The provider's records.
    Records(Vec<Record>),
    /// The records could not be fetched.
    FetchFailed,
    /// The text of the table of interface addresses.
    Table(String),
    /// The table could not be read.
    TableUnreadable,
    /// The body of the answer to a request for a change.
    UpdateAnswered(String),
    /// The request for a change could not be sent or was not answered.
    UpdateFailed,
}

/// What to do next.
#[derive(Debug)]
pub enum TickAction {
    /// Ask the provider for the records, with this payload.
    FetchRecords { payload: String },
    /// Read the table of interface addresses.
    ReadTable,
    /// Ask the provider to change a record, with this payload.
    SendUpdate { record_id: i64, old_value: String, new_value: String, payload: String },
    /// The tick is over: wait for the next.
    Sleep { outcome: TickOutcome },
}

/// Which answer a tick waits for.
#[derive(Debug)]
enum Phase {
    AwaitingRecords,
    AwaitingTable { records: Vec<Record> },
    AwaitingUpdate { updates: Vec<RecordUpdate>, next: usize, failed: usize },
    Finished { outcome: TickOutcome },
}

/// The state of a tick.
#[derive(Debug)]
pub struct Tick {
    domain: String,
    interface: String,
    phase: Phase,
}

/// Where a tick stands, as plain values.
pub enum PhaseView {
    /// The records were asked for.
    AwaitingRecords,
    /// The table is being read.
    AwaitingTable { records: Seq<RecordView> },
    /// Update `next` was sent; `failed` of those before it did not
    /// succeed.
    AwaitingUpdate { updates: Seq<RecordUpdateView>, next: int, failed: int },
    /// The tick is over.
    Finished { outcome: TickOutcome },
}

/// The state of a tick, as plain values.
pub struct TickView {
    pub domain: Seq<char>,
    pub interface: Seq<char>,
    pub phase: PhaseView,
}

/// An event, as plain values.
pub enum TickEventView {
    Records(Seq<RecordView>),
    FetchFailed,
    Table(Seq<char>),
    TableUnreadable,
    UpdateAnswered(Seq<char>),
    UpdateFailed,
}

/// An action, as plain values.
pub enum TickActionView {
    FetchRecords { payload: Seq<char> },
    ReadTable,
    SendUpdate { record_id: int, old_value: Seq<char>, new_value: Seq<char>, payload: Seq<char> },
    Sleep { outcome: TickOutcome },
}

impl View for Phase {
    type V = PhaseView;

    closed spec fn view(&self) -> PhaseView {
        match self {
            Phase::AwaitingRecords => PhaseView::AwaitingRecords,
            Phase::AwaitingTable { records } => PhaseView::AwaitingTable {
                records: record_views(records@),
            },
            Phase::AwaitingUpdate { updates, next, failed } => PhaseView::AwaitingUpdate {
                updates: update_views(updates@),
                next: *next as int,
                failed: *failed as int,
            },
            Phase::Finished { outcome } => PhaseView::Finished { outcome: *outcome },
        }
    }
}

impl View for Tick {
    type V = TickView;

    closed spec fn view(&self) -> TickView {
        TickView { domain: self.domain@, interface: self.interface@, phase: self.phase@ }
    }
}

impl View for TickEvent {
    type V = TickEventView;

    open spec fn view(&self) -> TickEventView {
        match self {
            TickEvent::Records(records) => TickEventView::Records(record_views(records@)),
            TickEvent::FetchFailed => TickEventView::FetchFailed,
            TickEvent::Table(text) => TickEventView::Table(text@),
            TickEvent::TableUnreadable => TickEventView::TableUnreadable,
            TickEvent::UpdateAnswered(body) => TickEventView::UpdateAnswered(body@),
            TickEvent::UpdateFailed => TickEventView::UpdateFailed,
        }
    }
}

impl View for TickAction {
    type V = TickActionView;

    open spec fn view(&self) -> TickActionView {
        match self {
            TickAction::FetchRecords { payload } => TickActionView::FetchRecords {
                payload: payload@,
            },
            TickAction::ReadTable => TickActionView::ReadTable,
            TickAction::SendUpdate {
                record_id,
                old_value,
                new_value,
                payload,
            } => TickActionView::SendUpdate {
                record_id: *record_id as int,
                old_value: old_value@,
                new_value: new_value@,
                payload: payload@,
            },
            TickAction::Sleep { outcome } => TickActionView::Sleep { outcome: *outcome },
        }
    }
}

/// A tick stands in a sound state: while updates are sent, the one that
/// is awaited exists, and no more failed than came before it.
pub open spec fn is_sound(tick: TickView) -> bool {
    match tick.phase {
        PhaseView::AwaitingUpdate { updates, next, failed } => 0 <= failed <= next < updates.len()
            <= usize::MAX,
        _ => true,
    }
}

/// The tick ends with `outcome`.
pub open spec fn finish(tick: TickView, outcome: TickOutcome) -> (TickView, TickActionView) {
    (
        TickView { phase: PhaseView::Finished { outcome }, ..tick },
        TickActionView::Sleep { outcome },
    )
}

/// The action that sends an update.
pub open spec fn send(update: RecordUpdateView) -> TickActionView {
    TickActionView::SendUpdate {
        record_id: update.request.record_id,
        old_value: update.old_value,
        new_value: update.request.value,
        payload: modify_record_text(update.request),
    }
}

/// What follows a decision: the first update is sent where there is
/// drift, and the tick ends otherwise.
pub open spec fn after_decision(tick: TickView, decision: ReconciliationView) -> (
    TickView,
    TickActionView,
) {
    match decision {
        ReconciliationView::NoRecord => finish(tick, TickOutcome::NoRecord),
        ReconciliationView::NoLocalAddress => finish(tick, TickOutcome::NoLocalAddress),
        ReconciliationView::InSync => finish(tick, TickOutcome::InSync),
        ReconciliationView::Drift(updates) => (
            TickView { phase: PhaseView::AwaitingUpdate { updates, next: 0, failed: 0 }, ..tick },
            send(updates[0]),
        ),
    }
}

/// What follows the answer to update `next`, with `failed` failures so
/// far: the update after it is sent, or the tick ends after the last.
pub open spec fn after_update(
    tick: TickView,
    updates: Seq<RecordUpdateView>,
    next: int,
    failed: int,
) -> (TickView, TickActionView) {
    if next + 1 < updates.len() {
        (
            TickView {
                phase: PhaseView::AwaitingUpdate { updates, next: next + 1, failed },
                ..tick
            },
            send(updates[next + 1]),
        )
    } else if failed == 0 {
        finish(tick, TickOutcome::Updated { records: updates.len() as usize })
    } else {
        finish(
            tick,
            TickOutcome::UpdateFailed { failed: failed as usize, records: updates.len() as usize },
        )
    }
}

/// The step of a tick. The records are fetched, then the table is read,
/// then the two are compared, then one update is sent for each AAAA
/// record where there is drift. A failure to fetch or to read ends the
/// tick. A failed or rejected update is counted, and the next update is
/// sent all the same. An event that answers no pending action aborts
/// the tick, and a tick that is over stays so.
pub open spec fn step_model(tick: TickView, event: TickEventView) -> (TickView, TickActionView) {
    match tick.phase {
        PhaseView::AwaitingRecords => match event {
            TickEventView::Records(records) => (
                TickView { phase: PhaseView::AwaitingTable { records }, ..tick },
                TickActionView::ReadTable,
            ),
            TickEventView::FetchFailed => finish(tick, TickOutcome::FetchFailed),
            _ => finish(tick, TickOutcome::Aborted),
        },
        PhaseView::AwaitingTable { records } => match event {
            TickEventView::Table(text) => match discovery(
                encode_utf8(text),
                encode_utf8(tick.interface),
            ) {
                Ok(local) => after_decision(tick, reconciliation(tick.domain, records, local)),
                Err(line) => finish(tick, TickOutcome::MalformedTable { line: line as usize }),
            },
            TickEventView::TableUnreadable => finish(tick, TickOutcome::TableUnreadable),
            _ => finish(tick, TickOutcome::Aborted),
        },
        PhaseView::AwaitingUpdate { updates, next, failed } => match event {
            TickEventView::UpdateAnswered(body) => after_update(
                tick,
                updates,
                next,
                if is_rejection(body) {
                    failed + 1
                } else {
                    failed
                },
            ),
            TickEventView::UpdateFailed => after_update(tick, updates, next, failed + 1),
            _ => finish(tick, TickOutcome::Aborted),
        },
        PhaseView::Finished { outcome } => finish(tick, outcome),
    }
}

impl Tick {
    /// While updates are sent, the one that is awaited exists, and no
    /// more failed than came before it.
    #[verifier::type_invariant]
    spec fn sound(self) -> bool {
        match self.phase {
            Phase::AwaitingUpdate { updates, next, failed } => failed <= next < updates@.len(),
            _ => true,
        }
    }

    /// Begins a tick for `domain` and `interface`: the first action is
    /// to fetch the records of the domain.
    pub fn start(domain: &str, interface: &str) -> (begun: (Tick, TickAction))
        ensures
            begun.0@ == (TickView {
                domain: domain@,
                interface: interface@,
                phase: PhaseView::AwaitingRecords,
            }),
            begun.1@ == (TickActionView::FetchRecords {
                payload: describe_record_list_text(domain@),
            }),
    {
        let tick = Tick {
            domain: String::from_str(domain),
            interface: String::from_str(interface),
            phase: Phase::AwaitingRecords,
        };
        (tick, TickAction::FetchRecords { payload: describe_record_list_payload(domain) })
    }

    /// Tells how the tick ended, where it is over.
    pub fn outcome(&self) -> (outcome: Option<TickOutcome>)
        ensures
            match self@.phase {
                PhaseView::Finished { outcome: ended } => outcome == Some(ended),
                _ => outcome is None,
            },
    {
        match &self.phase {
            Phase::Finished { outcome } => Some(*outcome),
            _ => None,
        }
    }

    /// Takes the answer to the last action and gives the next action.
    pub fn step(self, event: TickEvent) -> (next: (Tick, TickAction))
        ensures
            is_sound(self@),
            (next.0@, next.1@) == step_model(self@, event@),
            is_sound(next.0@),
    {
        proof {
            use_type_invariant(&self);
            if let Phase::AwaitingUpdate { updates, next, failed } = &self.phase {
                assert(updates.len() == updates@.len());
            }
        }
        let Tick { domain, interface, phase } = self;
        match phase {
            Phase::AwaitingRecords => match event {
                TickEvent::Records(records) => (
                    Tick { domain, interface, phase: Phase::AwaitingTable { records } },
                    TickAction::ReadTable,
                ),
                TickEvent::FetchFailed => end(domain, interface, TickOutcome::FetchFailed),
                _ => end(domain, interface, TickOutcome::Aborted),
            },
            Phase::AwaitingTable { records } => match event {
                TickEvent::Table(text) => {
                    match get_ipv6_set_with_iface(text.as_str(), interface.as_str()) {
                        Ok(local) => {
                            let decision = reconcile(domain.as_str(), &records, &local);
                            match decision {
                                Reconciliation::NoRecord => end(
                                    domain,
                                    interface,
                                    TickOutcome::NoRecord,
                                ),
                                Reconciliation::NoLocalAddress => end(
                                    domain,
                                    interface,
                                    TickOutcome::NoLocalAddress,
                                ),
                                Reconciliation::InSync => end(
                                    domain,
                                    interface,
                                    TickOutcome::InSync,
                                ),
                                Reconciliation::Drift(updates) => {
                                    proof {
                                        crate::reconcile::lemma_drift_is_not_empty(
                                            domain@,
                                            record_views(records@),
                                            crate::address::address_groups(local@),
                                        );
                                    }
                                    assert(updates.len() == updates@.len());
                                    let action = send_update(&updates[0]);
                                    (
                                        Tick {
                                            domain,
                                            interface,
                                            phase: Phase::AwaitingUpdate {
                                                updates,
                                                next: 0,
                                                failed: 0,
                                            },
                                        },
                                        action,
                                    )
                                },
                            }
                        },
                        Err(DiscoveryError::MalformedEntry { line }) => end(
                            domain,
                            interface,
                            TickOutcome::MalformedTable { line },
                        ),
                    }
                },
                TickEvent::TableUnreadable => end(domain, interface, TickOutcome::TableUnreadable),
                _ => end(domain, interface, TickOutcome::Aborted),
            },
            Phase::AwaitingUpdate { updates, next, failed } => match event {
                TickEvent::UpdateAnswered(body) => {
                    let failed = match classify_update(body.as_str()) {
                        UpdateOutcome::Rejected => failed + 1,
                        UpdateOutcome::Updated => failed,
                    };
                    proceed(domain, interface, updates, next, failed)
                },
                TickEvent::UpdateFailed => proceed(domain, interface, updates, next, failed + 1),
                _ => end(domain, interface, TickOutcome::Aborted),
            },
            Phase::Finished { outcome } => end(domain, interface, outcome),
        }
    }
}

/// Ends a tick with `outcome`.
fn end(domain: String, interface: String, outcome: TickOutcome) -> (next: (Tick, TickAction))
    ensures
        next.0@ == (TickView {
            domain: domain@,
            interface: interface@,
            phase: PhaseView::Finished { outcome },
        }),
        next.1@ == (TickActionView::Sleep { outcome }),
{
    (Tick { domain, interface, phase: Phase::Finished { outcome } }, TickAction::Sleep { outcome })
}

/// Builds the action that sends `update`.
fn send_update(update: &RecordUpdate) -> (action: TickAction)
    ensures
        action@ == send(update@),
{
    TickAction::SendUpdate {
        record_id: update.request.record_id,
        old_value: update.old_value.clone(),
        new_value: update.request.value.clone(),
        payload: update.request.payload(),
    }
}

/// Goes on after the answer to update `next`.
fn proceed(
    domain: String,
    interface: String,
    updates: Vec<RecordUpdate>,
    next: usize,
    failed: usize,
) -> (after: (Tick, TickAction))
    requires
        failed <= next + 1,
        next < updates@.len(),
    ensures
        (after.0@, after.1@) == after_update(
            TickView {
                domain: domain@,
                interface: interface@,
                phase: PhaseView::AwaitingRecords,
            },
            update_views(updates@),
            next as int,
            failed as int,
        ),
        is_sound(after.0@),
{
    let records: usize = updates.len();
    if next + 1 < records {
        let action = send_update(&updates[next + 1]);
        (
            Tick {
                domain,
                interface,
                phase: Phase::AwaitingUpdate { updates, next: next + 1, failed },
            },
            action,
        )
    } else if failed == 0 {
        end(domain, interface, TickOutcome::Updated { records })
    } else {
        end(domain, interface, TickOutcome::UpdateFailed { failed, records })
    }
}

/// The actions that a tick gives when the events come in this order.
pub open spec fn run(tick: TickView, events: Seq<TickEventView>) -> Seq<TickActionView>
    decreases events.len(),
{
    if events.len() == 0 {
        Seq::empty()
    } else {
        let (next, action) = step_model(tick, events[0]);
        seq![action] + run(next, events.drop_first())
    }
}

/// The event answers a request for a change.
pub open spec fn is_update_event(event: TickEventView) -> bool {
    event is UpdateAnswered || event is UpdateFailed
}

/// A tick that is over asks for nothing more, whatever comes: every
/// further action is to sleep.
pub proof fn lemma_finished_tick_only_sleeps(tick: TickView, events: Seq<TickEventView>)
    requires
        tick.phase is Finished,
    ensures
        run(tick, events).len() == events.len(),
        forall|i: int| 0 <= i < events.len() ==> (#[trigger] run(tick, events)[i]) is Sleep,
    decreases events.len(),
{
    if events.len() > 0 {
        let (next, action) = step_model(tick, events[0]);
        lemma_finished_tick_only_sleeps(next, events.drop_first());
    }
}

/// Where the first AAAA record has the first local address, the tick
/// ends in sync when the table has been read, and no request for a
/// change is ever issued, whatever events follow.
pub proof fn lemma_no_drift_sends_no_update(
    tick: TickView,
    records: Seq<RecordView>,
    table: Seq<char>,
    local: Seq<Seq<u16>>,
    later: Seq<TickEventView>,
)
    requires
        tick.phase == (PhaseView::AwaitingTable { records }),
        discovery(encode_utf8(table), encode_utf8(tick.interface)) == Ok::<Seq<Seq<u16>>, int>(
            local,
        ),
        crate::reconcile::aaaa_records(records).len() > 0,
        local.len() > 0,
        crate::reconcile::aaaa_records(records)[0].value == crate::address::canonical_text(
            local[0],
        ),
    ensures
        step_model(tick, TickEventView::Table(table)) == finish(tick, TickOutcome::InSync),
        forall|i: int|
            0 <= i <= later.len() ==> !((#[trigger] run(
                tick,
                seq![TickEventView::Table(table)] + later,
            )[i]) is SendUpdate),
{
    let events = seq![TickEventView::Table(table)] + later;
    let (next, action) = step_model(tick, events[0]);
    assert(events.drop_first() =~= later);
    lemma_finished_tick_only_sleeps(next, later);
    assert forall|i: int| 0 <= i <= later.len() implies !((#[trigger] run(tick, events)[i])
        is SendUpdate) by {
        if i > 0 {
            assert(run(tick, events)[i] == run(next, later)[i - 1]);
        }
    }
}

/// While updates are sent, each answer but the last brings the next
/// update and the last ends the tick, whether the answers report
/// success or failure: every update after the one awaited is sent
/// exactly once, in order.
pub proof fn lemma_every_update_is_sent_once(
    tick: TickView,
    updates: Seq<RecordUpdateView>,
    next: int,
    failed: int,
    answers: Seq<TickEventView>,
)
    requires
        tick.phase == (PhaseView::AwaitingUpdate { updates, next, failed }),
        0 <= next < updates.len(),
        answers.len() == updates.len() - next,
        forall|i: int| 0 <= i < answers.len() ==> is_update_event(#[trigger] answers[i]),
    ensures
        run(tick, answers).len() == answers.len(),
        forall|i: int|
            0 <= i < answers.len() - 1 ==> (#[trigger] run(tick, answers)[i]) == send(
                updates[next + 1 + i],
            ),
        run(tick, answers).last() is Sleep,
    decreases answers.len(),
{
    let (after, action) = step_model(tick, answers[0]);
    let rest = answers.drop_first();
    if next + 1 < updates.len() {
        let counted = after.phase->AwaitingUpdate_failed;
        lemma_every_update_is_sent_once(after, updates, next + 1, counted, rest);
        assert forall|i: int| 0 <= i < answers.len() - 1 implies (#[trigger] run(
            tick,
            answers,
        )[i]) == send(updates[next + 1 + i]) by {
            if i > 0 {
                assert(run(tick, answers)[i] == run(after, rest)[i - 1]);
            }
        }
        assert(run(tick, answers).last() == run(after, rest).last());
    } else {
        assert(run(after, rest) =~= Seq::empty());
        assert(run(tick, answers) =~= seq![action]);
        assert(is_update_event(answers[0]));
    }
}

/// Where the first AAAA record differs from the first local address,
/// exactly one request for a change is issued for each AAAA record, in
/// their order, whatever the provider answers to each: the first when
/// the table has been read, each other on the answer to the one before,
/// and the answer to the last ends the tick.
pub proof fn lemma_drift_sends_one_update_per_record(
    tick: TickView,
    records: Seq<RecordView>,
    table: Seq<char>,
    local: Seq<Seq<u16>>,
    answers: Seq<TickEventView>,
)
    requires
        tick.phase == (PhaseView::AwaitingTable { records }),
        discovery(encode_utf8(table), encode_utf8(tick.interface)) == Ok::<Seq<Seq<u16>>, int>(
            local,
        ),
        crate::reconcile::aaaa_records(records).len() > 0,
        local.len() > 0,
        crate::reconcile::aaaa_records(records)[0].value != crate::address::canonical_text(
            local[0],
        ),
        answers.len() == crate::reconcile::aaaa_records(records).len(),
        forall|i: int| 0 <= i < answers.len() ==> is_update_event(#[trigger] answers[i]),
    ensures
        ({
            let held = crate::reconcile::aaaa_records(records);
            let value = crate::address::canonical_text(local[0]);
            let actions = run(tick, seq![TickEventView::Table(table)] + answers);
            &&& actions.len() == held.len() + 1
            &&& forall|i: int|
                0 <= i < held.len() ==> (#[trigger] actions[i]) == send(
                    crate::reconcile::update_for(tick.domain, held[i], value),
                )
            &&& actions.last() is Sleep
        }),
{
    let held = crate::reconcile::aaaa_records(records);
    let value = crate::address::canonical_text(local[0]);
    let updates = crate::reconcile::updates_for(tick.domain, held, value);
    let events = seq![TickEventView::Table(table)] + answers;
    let (after, action) = step_model(tick, events[0]);
    assert(events.drop_first() =~= answers);
    assert(after.phase == (PhaseView::AwaitingUpdate { updates, next: 0, failed: 0 }));
    lemma_every_update_is_sent_once(after, updates, 0, 0, answers);
    let actions = run(tick, events);
    assert(actions =~= seq![action] + run(after, answers));
    assert forall|i: int| 0 <= i < held.len() implies (#[trigger] actions[i]) == send(
        crate::reconcile::update_for(tick.domain, held[i], value),
    ) by {
        if i > 0 {
            assert(actions[i] == run(after, answers)[i - 1]);
        }
    }
}

} // verus!

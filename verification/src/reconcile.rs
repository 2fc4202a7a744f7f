//! Reconciliation: the payloads of the two API actions, and the decision
//! which records have to change.

use crate::address::{canonical_text, Ipv6Address};
use crate::response::{record_views, Record, RecordView};
use crate::text::text_equal;
use vstd::prelude::*;
use vstd::string::*;

verus! {

/// The compact JSON text of an object with the given members: texts and
/// whole numbers, each under its key.
pub uninterp spec fn json_object_text(
    texts: Seq<(Seq<char>, Seq<char>)>,
    numbers: Seq<(Seq<char>, int)>,
) -> Seq<char>;

/// `Map::insert` and the `Display` of `Value` of the serde_json crate:
/// the compact JSON text of the object that holds each text and each
/// number under its key.
#[verifier::external_body]
fn json_object(texts: &Vec<(String, String)>, numbers: &Vec<(String, i64)>) -> (text: String)
    ensures
        text@ == json_object_text(texts.deep_view(), number_members(numbers@)),
{
    let mut object = serde_json::Map::new();
    for (key, value) in texts {
        object.insert(key.clone(), serde_json::Value::String(value.clone()));
    }
    for (key, value) in numbers {
        object.insert(key.clone(), serde_json::Value::from(*value));
    }
    serde_json::Value::Object(object).to_string()
}

/// Keys and numbers as plain values.
pub open spec fn number_members(numbers: Seq<(String, i64)>) -> Seq<(Seq<char>, int)> {
    numbers.map_values(|member: (String, i64)| (member.0@, member.1 as int))
}

/// The type of the records that are reconciled.
pub const AAAA: &'static str = "AAAA";

/// The name of the DNS service in a credential scope.
pub const SERVICE: &'static str = "dnspod";

/// The host of the DNS service.
pub const HOST: &'static str = "dnspod.tencentcloudapi.com";

/// The version of the API that the two actions belong to.
pub const API_VERSION: &'static str = "2021-03-23";

/// The action that lists the records of a domain.
pub const DESCRIBE_RECORD_LIST: &'static str = "DescribeRecordList";

/// The action that changes a record.
pub const MODIFY_RECORD: &'static str = "ModifyRecord";

/// The text that marks an answer as a failure.
pub const ERROR_MARK: &'static str = "Error";

/// A request to change one record.
#[derive(Debug)]
pub struct ModifyRecord {
    pub domain: String,
    pub record_type: String,
    pub record_line: String,
    pub value: String,
    pub record_id: i64,
    pub sub_domain: String,
}

/// A request to change one record, as plain values.
pub struct ModifyRecordView {
    pub domain: Seq<char>,
    pub record_type: Seq<char>,
    pub record_line: Seq<char>,
    pub value: Seq<char>,
    pub record_id: int,
    pub sub_domain: Seq<char>,
}

impl View for ModifyRecord {
    type V = ModifyRecordView;

    open spec fn view(&self) -> ModifyRecordView {
        ModifyRecordView {
            domain: self.domain@,
            record_type: self.record_type@,
            record_line: self.record_line@,
            value: self.value@,
            record_id: self.record_id as int,
            sub_domain: self.sub_domain@,
        }
    }
}

/// The drift of one record: the value it has and the request that gives
/// it the new one.
#[derive(Debug)]
pub struct RecordUpdate {
    pub old_value: String,
    pub request: ModifyRecord,
}

/// The drift of one record, as plain values.
pub struct RecordUpdateView {
    pub old_value: Seq<char>,
    pub request: ModifyRecordView,
}

impl View for RecordUpdate {
    type V = RecordUpdateView;

    open spec fn view(&self) -> RecordUpdateView {
        RecordUpdateView { old_value: self.old_value@, request: self.request@ }
    }
}

/// What a comparison of the provider's records with the local addresses
/// decides.
#[derive(Debug)]
pub enum Reconciliation {
    /// The provider holds no AAAA record: nothing to reconcile.
    NoRecord,
    /// The interface has no address to publish.
    NoLocalAddress,
    /// The first AAAA record has the first local address: no drift.
    InSync,
    /// The first AAAA record differs: every AAAA record gets the first
    /// local address.
    Drift(Vec<RecordUpdate>),
}

/// A decision, as plain values.
pub enum ReconciliationView {
    NoRecord,
    NoLocalAddress,
    InSync,
    Drift(Seq<RecordUpdateView>),
}

impl View for Reconciliation {
    type V = ReconciliationView;

    open spec fn view(&self) -> ReconciliationView {
        match self {
            Reconciliation::NoRecord => ReconciliationView::NoRecord,
            Reconciliation::NoLocalAddress => ReconciliationView::NoLocalAddress,
            Reconciliation::InSync => ReconciliationView::InSync,
            Reconciliation::Drift(updates) => ReconciliationView::Drift(update_views(updates@)),
        }
    }
}

/// The updates of a list as plain values.
pub open spec fn update_views(updates: Seq<RecordUpdate>) -> Seq<RecordUpdateView> {
    updates.map_values(|update: RecordUpdate| update@)
}

/// The test that picks the AAAA records.
pub open spec fn is_aaaa() -> spec_fn(RecordView) -> bool {
    |record: RecordView| record.record_type == AAAA@
}

/// The AAAA records of a list, in their order.
pub open spec fn aaaa_records(records: Seq<RecordView>) -> Seq<RecordView> {
    records.filter(is_aaaa())
}

/// The members of the payload that asks for the records of a domain.
pub open spec fn describe_record_list_members(domain: Seq<char>) -> Seq<(Seq<char>, Seq<char>)> {
    seq![("Domain"@, domain)]
}

/// The text members of the payload that changes a record.
pub open spec fn modify_record_texts(request: ModifyRecordView) -> Seq<(Seq<char>, Seq<char>)> {
    seq![
        ("Domain"@, request.domain),
        ("RecordType"@, request.record_type),
        ("RecordLine"@, request.record_line),
        ("Value"@, request.value),
        ("SubDomain"@, request.sub_domain),
    ]
}

/// The number members of the payload that changes a record.
pub open spec fn modify_record_numbers(request: ModifyRecordView) -> Seq<(Seq<char>, int)> {
    seq![("RecordId"@, request.record_id)]
}

/// The payload that asks for the records of a domain.
pub open spec fn describe_record_list_text(domain: Seq<char>) -> Seq<char> {
    json_object_text(describe_record_list_members(domain), Seq::empty())
}

/// The payload that changes a record.
pub open spec fn modify_record_text(request: ModifyRecordView) -> Seq<char> {
    json_object_text(modify_record_texts(request), modify_record_numbers(request))
}

/// The answer to a request for a change speaks of an error: the UTF-8
/// bytes of the body hold those of `Error`.
pub open spec fn is_rejection(body: Seq<char>) -> bool {
    contains_bytes(vstd::utf8::encode_utf8(body), vstd::utf8::encode_utf8(ERROR_MARK@))
}

/// The update that gives `record` the value `value`: it carries the
/// record's own identifier, type, line and subdomain.
pub open spec fn update_for(domain: Seq<char>, record: RecordView, value: Seq<char>) -> RecordUpdateView {
    RecordUpdateView {
        old_value: record.value,
        request: ModifyRecordView {
            domain,
            record_type: record.record_type,
            record_line: record.line,
            value,
            record_id: record.record_id,
            sub_domain: record.name,
        },
    }
}

/// One update for each record, in their order.
pub open spec fn updates_for(
    domain: Seq<char>,
    records: Seq<RecordView>,
    value: Seq<char>,
) -> Seq<RecordUpdateView> {
    records.map_values(|record: RecordView| update_for(domain, record, value))
}

/// The decision for the records that the provider holds and the local
/// addresses. Only AAAA records count. Without one there is nothing to
/// reconcile, and without a local address nothing to publish. Else the
/// first AAAA record is held against the canonical text of the first
/// local address: where they are the same nothing changes, and where
/// they differ every AAAA record gets that address.
pub open spec fn reconciliation(
    domain: Seq<char>,
    records: Seq<RecordView>,
    local: Seq<Seq<u16>>,
) -> ReconciliationView {
    let held = aaaa_records(records);
    if held.len() == 0 {
        ReconciliationView::NoRecord
    } else if local.len() == 0 {
        ReconciliationView::NoLocalAddress
    } else if held[0].value == canonical_text(local[0]) {
        ReconciliationView::InSync
    } else {
        ReconciliationView::Drift(updates_for(domain, held, canonical_text(local[0])))
    }
}

/// The bytes of `needle` stand somewhere in `hay`, one after the other.
pub open spec fn contains_bytes(hay: Seq<u8>, needle: Seq<u8>) -> bool {
    exists|at: int| occurs_at(hay, needle, at)
}

/// The bytes of `needle` stand in `hay` from `at` on.
pub open spec fn occurs_at(hay: Seq<u8>, needle: Seq<u8>, at: int) -> bool {
    0 <= at && at + needle.len() <= hay.len() && hay.subrange(at, at + needle.len()) == needle
}

/// How the provider answered one request for a change.
#[derive(Debug, Clone, Copy, PartialEq, Eq, Structural)]
pub enum UpdateOutcome {
    /// The answer does not speak of an error.
    Updated,
    /// The answer speaks of an error.
    Rejected,
}

/// Builds the payload that asks for the records of `domain`.
pub fn describe_record_list_payload(domain: &str) -> (payload: String)
    ensures
        payload@ == describe_record_list_text(domain@),
{
    let mut texts: Vec<(String, String)> = Vec::new();
    texts.push((String::from_str("Domain"), String::from_str(domain)));
    let numbers: Vec<(String, i64)> = Vec::new();
    assert(texts.deep_view() =~= describe_record_list_members(domain@));
    assert(number_members(numbers@) =~= Seq::empty());
    json_object(&texts, &numbers)
}

impl ModifyRecord {
    /// Builds the payload of the request.
    pub fn payload(&self) -> (payload: String)
        ensures
            payload@ == modify_record_text(self@),
    {
        let mut texts: Vec<(String, String)> = Vec::new();
        texts.push((String::from_str("Domain"), self.domain.clone()));
        texts.push((String::from_str("RecordType"), self.record_type.clone()));
        texts.push((String::from_str("RecordLine"), self.record_line.clone()));
        texts.push((String::from_str("Value"), self.value.clone()));
        texts.push((String::from_str("SubDomain"), self.sub_domain.clone()));
        let mut numbers: Vec<(String, i64)> = Vec::new();
        numbers.push((String::from_str("RecordId"), self.record_id));
        assert(texts.deep_view() =~= modify_record_texts(self@));
        assert(number_members(numbers@) =~= modify_record_numbers(self@));
        json_object(&texts, &numbers)
    }
}

impl Record {
    /// Tells whether the record is an AAAA record.
    pub fn is_aaaa(&self) -> (aaaa: bool)
        ensures
            aaaa == is_aaaa()(self@),
    {
        text_equal(self.record_type.as_str(), AAAA)
    }
}

/// Tells whether the bytes of `needle` stand in `hay` from `at` on.
fn bytes_occur_at(hay: &[u8], needle: &[u8], at: usize) -> (occurs: bool)
    requires
        at + needle.len() <= hay.len(),
    ensures
        occurs == occurs_at(hay@, needle@, at as int),
{
    let mut i: usize = 0;
    while i < needle.len()
        invariant
            at + needle.len() <= hay.len(),
            i <= needle.len(),
            forall|j: int| 0 <= j < i ==> hay@[at + j] == needle@[j],
        decreases needle.len() - i,
    {
        if hay[at + i] != needle[i] {
            assert(hay@.subrange(at as int, at + needle.len())[i as int] != needle@[i as int]);
            return false;
        }
        i += 1;
    }
    assert(hay@.subrange(at as int, at + needle.len()) =~= needle@);
    true
}

/// Tells whether the bytes of `needle` stand somewhere in `hay`.
pub fn bytes_contain(hay: &[u8], needle: &[u8]) -> (found: bool)
    ensures
        found == contains_bytes(hay@, needle@),
{
    if needle.len() > hay.len() {
        return false;
    }
    let last: usize = hay.len() - needle.len();
    let mut at: usize = 0;
    while at < last
        invariant
            last == hay.len() - needle.len(),
            at <= last,
            forall|before: int| 0 <= before < at ==> !occurs_at(hay@, needle@, before),
        decreases last - at,
    {
        if bytes_occur_at(hay, needle, at) {
            return true;
        }
        at += 1;
    }
    bytes_occur_at(hay, needle, last)
}

/// Judges the answer to a request for a change: it is rejected where the
/// UTF-8 bytes of the body hold those of `Error`, and only there.
pub fn classify_update(body: &str) -> (outcome: UpdateOutcome)
    ensures
        outcome == UpdateOutcome::Rejected <==> is_rejection(body@),
        outcome == UpdateOutcome::Updated <==> !is_rejection(body@),
{
    if bytes_contain(body.as_bytes(), ERROR_MARK.as_bytes()) {
        UpdateOutcome::Rejected
    } else {
        UpdateOutcome::Updated
    }
}

/// Decides what a tick has to change: compares the AAAA records among
/// `records` with the first of the `local` addresses.
pub fn reconcile(domain: &str, records: &Vec<Record>, local: &Vec<Ipv6Address>) -> (decision:
    Reconciliation)
    ensures
        decision@ == reconciliation(
            domain@,
            record_views(records@),
            crate::address::address_groups(local@),
        ),
{
    let ghost all = record_views(records@);
    let mut held: Vec<usize> = Vec::new();
    let mut i: usize = 0;
    proof {
        reveal(Seq::filter);
        assert(all.take(0) =~= Seq::empty());
    }
    while i < records.len()
        invariant
            i <= records.len(),
            all == record_views(records@),
            held@.len() == aaaa_records(all.take(i as int)).len(),
            forall|k: int|
                0 <= k < held@.len() ==> 0 <= #[trigger] held@[k] < i && records@[held@[k] as int]@
                    == aaaa_records(all.take(i as int))[k],
        decreases records.len() - i,
    {
        proof {
            let longer = all.take(i + 1);
            assert(longer =~= all.take(i as int).push(records@[i as int]@));
            all.take(i as int).lemma_filter_push(records@[i as int]@, is_aaaa());
        }
        if records[i].is_aaaa() {
            held.push(i);
        }
        i += 1;
    }
    assert(all.take(i as int) =~= all);
    let ghost kept = aaaa_records(all);
    if held.len() == 0 {
        return Reconciliation::NoRecord;
    }
    if local.len() == 0 {
        return Reconciliation::NoLocalAddress;
    }
    let value = local[0].to_text();
    assert(value@ == canonical_text(crate::address::address_groups(local@)[0]));
    if text_equal(records[held[0]].value.as_str(), value.as_str()) {
        return Reconciliation::InSync;
    }
    let mut updates: Vec<RecordUpdate> = Vec::new();
    let mut k: usize = 0;
    while k < held.len()
        invariant
            k <= held.len(),
            held@.len() == kept.len(),
            forall|j: int|
                0 <= j < held@.len() ==> 0 <= #[trigger] held@[j] < records.len()
                    && records@[held@[j] as int]@ == kept[j],
            updates@.len() == k,
            forall|j: int|
                0 <= j < k ==> (#[trigger] updates@[j])@ == update_for(domain@, kept[j], value@),
        decreases held.len() - k,
    {
        let record = &records[held[k]];
        updates.push(
            RecordUpdate {
                old_value: record.value.clone(),
                request: ModifyRecord {
                    domain: String::from_str(domain),
                    record_type: record.record_type.clone(),
                    record_line: record.line.clone(),
                    value: value.clone(),
                    record_id: record.record_id,
                    sub_domain: record.name.clone(),
                },
            },
        );
        k += 1;
    }
    assert(update_views(updates@) =~= updates_for(domain@, kept, value@));
    Reconciliation::Drift(updates)
}

/// Where the first AAAA record has the first local address, no record
/// is changed, whatever the other records hold.
pub proof fn lemma_no_drift_changes_nothing(
    domain: Seq<char>,
    records: Seq<RecordView>,
    local: Seq<Seq<u16>>,
)
    requires
        aaaa_records(records).len() > 0,
        local.len() > 0,
        aaaa_records(records)[0].value == canonical_text(local[0]),
    ensures
        reconciliation(domain, records, local) == ReconciliationView::InSync,
{
}

/// Where the first AAAA record differs from the first local address,
/// there is exactly one update for each AAAA record, in their order.
/// Each carries the domain, its record's own identifier, type, line and
/// subdomain, and the first local address as the new value.
pub proof fn lemma_drift_changes_every_record(
    domain: Seq<char>,
    records: Seq<RecordView>,
    local: Seq<Seq<u16>>,
)
    requires
        aaaa_records(records).len() > 0,
        local.len() > 0,
        aaaa_records(records)[0].value != canonical_text(local[0]),
    ensures
        reconciliation(domain, records, local) matches ReconciliationView::Drift(updates) && {
            &&& updates.len() == aaaa_records(records).len()
            &&& forall|i: int|
                0 <= i < updates.len() ==> {
                    let record = aaaa_records(records)[i];
                    let update = #[trigger] updates[i];
                    &&& update.old_value == record.value
                    &&& update.request.domain == domain
                    &&& update.request.record_id == record.record_id
                    &&& update.request.record_type == AAAA@
                    &&& update.request.record_line == record.line
                    &&& update.request.sub_domain == record.name
                    &&& update.request.value == canonical_text(local[0])
                }
        },
{
    let held = aaaa_records(records);
    assert forall|i: int| 0 <= i < held.len() implies (#[trigger] held[i]).record_type == AAAA@ by {
        records.lemma_filter_pred(is_aaaa(), i);
    }
}

/// A drift has at least one update.
pub proof fn lemma_drift_is_not_empty(
    domain: Seq<char>,
    records: Seq<RecordView>,
    local: Seq<Seq<u16>>,
)
    ensures
        reconciliation(domain, records, local) matches ReconciliationView::Drift(updates)
            ==> updates.len() > 0,
{
}

} // verus!

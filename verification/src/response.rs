//! The provider's answer to a request for the list of records.

use crate::text::{decimal, decimal_digits, push_decimal, push_decimal_digits, text_equal};
use vstd::prelude::*;
use vstd::string::*;

verus! {

/// The answer to `DescribeRecordList`.
#[derive(Debug)]
pub struct DescribeRecordListResponse {
    pub response: RecordListResponse,
}

/// The body of the answer: the records of a domain.
#[derive(Debug)]
pub struct RecordListResponse {
    pub request_id: String,
    pub record_count_info: RecordCountInfo,
    pub record_list: Vec<Record>,
}

/// How many records the domain has.
#[derive(Debug, Clone, Copy, PartialEq, Eq, Structural)]
pub struct RecordCountInfo {
    pub subdomain_count: i32,
    pub list_count: i32,
    pub total_count: i32,
}

/// One DNS record as the provider describes it.
#[derive(Debug)]
pub struct Record {
    pub record_id: i64,
    pub value: String,
    pub status: String,
    pub updated_on: String,
    pub name: String,
    pub line: String,
    pub line_id: String,
    pub record_type: String,
    pub weight: Option<i32>,
    pub monitor_status: String,
    pub remark: String,
    pub ttl: i64,
    pub mx: i32,
    pub default_ns: bool,
}

/// A record as plain values.
pub struct RecordView {
    pub record_id: int,
    pub value: Seq<char>,
    pub status: Seq<char>,
    pub updated_on: Seq<char>,
    pub name: Seq<char>,
    pub line: Seq<char>,
    pub line_id: Seq<char>,
    pub record_type: Seq<char>,
    pub weight: Option<int>,
    pub monitor_status: Seq<char>,
    pub remark: Seq<char>,
    pub ttl: int,
    pub mx: int,
    pub default_ns: bool,
}

impl View for Record {
    type V = RecordView;

    open spec fn view(&self) -> RecordView {
        RecordView {
            record_id: self.record_id as int,
            value: self.value@,
            status: self.status@,
            updated_on: self.updated_on@,
            name: self.name@,
            line: self.line@,
            line_id: self.line_id@,
            record_type: self.record_type@,
            weight: match self.weight {
                Some(weight) => Some(weight as int),
                None => None,
            },
            monitor_status: self.monitor_status@,
            remark: self.remark@,
            ttl: self.ttl as int,
            mx: self.mx as int,
            default_ns: self.default_ns,
        }
    }
}

/// The records of a list as plain values.
pub open spec fn record_views(records: Seq<Record>) -> Seq<RecordView> {
    records.map_values(|record: Record| record@)
}

/// `true` or `false` in words.
pub open spec fn bool_text(value: bool) -> Seq<char> {
    if value {
        "true"@
    } else {
        "false"@
    }
}

/// The description of the record counts: a heading and three lines.
pub open spec fn count_info_text(info: RecordCountInfo) -> Seq<char> {
    "记录统计信息:\n  子域名数量: "@ + decimal(info.subdomain_count as int) + "\n  列表数量: "@
        + decimal(info.list_count as int) + "\n  总数量: "@ + decimal(info.total_count as int)
        + "\n"@
}

/// The line of a record's weight, where it has one.
pub open spec fn weight_text(weight: Option<int>) -> Seq<char> {
    match weight {
        Some(weight) => "  权重: "@ + decimal(weight) + "\n"@,
        None => Seq::empty(),
    }
}

/// The line of a record's mail priority, where it is an MX record.
pub open spec fn mx_text(record: RecordView) -> Seq<char> {
    if record.record_type == "MX"@ {
        "  MX 优先级: "@ + decimal(record.mx) + "\n"@
    } else {
        Seq::empty()
    }
}

/// The line of a record's remark, where it has one.
pub open spec fn remark_text(remark: Seq<char>) -> Seq<char> {
    if remark.len() > 0 {
        "  备注: "@ + remark + "\n"@
    } else {
        Seq::empty()
    }
}

/// The description of a record, one field per line: nine lines that
/// every record has, then weight, mail priority and remark where they
/// apply, then the flag of the default name server, with no newline
/// after it.
pub open spec fn record_text(record: RecordView) -> Seq<char> {
    "  记录 ID: "@ + decimal(record.record_id) + "\n  名称: "@ + record.name + "\n  类型: "@
        + record.record_type + "\n  值: "@ + record.value + "\n  TTL: "@ + decimal(record.ttl)
        + "\n  线路: "@ + record.line + "\n  状态: "@ + record.status + "\n  监控状态: "@
        + record.monitor_status + "\n  最后更新: "@ + record.updated_on + "\n"@ + weight_text(
        record.weight,
    ) + mx_text(record) + remark_text(record.remark) + "  默认 NS: "@ + bool_text(
        record.default_ns,
    )
}

/// The description of one numbered record in a list: a blank line, the
/// number counted from one, the record and a newline.
pub open spec fn numbered_record_text(index: int, record: RecordView) -> Seq<char> {
    "\n记录 #"@ + decimal(index + 1) + ":\n"@ + record_text(record) + "\n"@
}

/// The descriptions of the records of a list, numbered from one.
pub open spec fn records_text(records: Seq<RecordView>) -> Seq<char>
    decreases records.len(),
{
    if records.len() == 0 {
        Seq::empty()
    } else {
        records_text(records.drop_last()) + numbered_record_text(
            records.len() - 1,
            records.last(),
        )
    }
}

/// The description of the body of an answer: request, counts, and the
/// records one after the other.
pub open spec fn record_list_text(
    request_id: Seq<char>,
    info: RecordCountInfo,
    records: Seq<RecordView>,
) -> Seq<char> {
    "请求 ID: "@ + request_id + "\n"@ + count_info_text(info) + "\n记录列表 (共 "@
        + decimal(records.len() as int) + " 条):\n"@ + records_text(records)
}

impl RecordCountInfo {
    /// Describes the counts in words.
    pub fn to_text(&self) -> (text: String)
        ensures
            text@ == count_info_text(*self),
    {
        let mut text = String::from_str("记录统计信息:\n  子域名数量: ");
        push_decimal(&mut text, self.subdomain_count as i64);
        text.append("\n  列表数量: ");
        push_decimal(&mut text, self.list_count as i64);
        text.append("\n  总数量: ");
        push_decimal(&mut text, self.total_count as i64);
        text.append("\n");
        assert(text@ =~= count_info_text(*self));
        text
    }
}

impl Record {
    /// Describes the record in words.
    pub fn to_text(&self) -> (text: String)
        ensures
            text@ == record_text(self@),
    {
        let mut text = String::from_str("  记录 ID: ");
        push_decimal(&mut text, self.record_id);
        text.append("\n  名称: ");
        text.append(self.name.as_str());
        text.append("\n  类型: ");
        text.append(self.record_type.as_str());
        text.append("\n  值: ");
        text.append(self.value.as_str());
        text.append("\n  TTL: ");
        push_decimal(&mut text, self.ttl);
        text.append("\n  线路: ");
        text.append(self.line.as_str());
        text.append("\n  状态: ");
        text.append(self.status.as_str());
        text.append("\n  监控状态: ");
        text.append(self.monitor_status.as_str());
        text.append("\n  最后更新: ");
        text.append(self.updated_on.as_str());
        text.append("\n");
        let ghost head = text@;
        if let Some(weight) = self.weight {
            text.append("  权重: ");
            push_decimal(&mut text, weight as i64);
            text.append("\n");
        }
        assert(text@ =~= head + weight_text(self@.weight));
        if text_equal(self.record_type.as_str(), "MX") {
            text.append("  MX 优先级: ");
            push_decimal(&mut text, self.mx as i64);
            text.append("\n");
        }
        assert(text@ =~= head + weight_text(self@.weight) + mx_text(self@));
        if !self.remark.as_str().is_empty() {
            text.append("  备注: ");
            text.append(self.remark.as_str());
            text.append("\n");
        }
        assert(text@ =~= head + weight_text(self@.weight) + mx_text(self@) + remark_text(
            self@.remark,
        ));
        text.append("  默认 NS: ");
        if self.default_ns {
            text.append("true");
        } else {
            text.append("false");
        }
        assert(text@ =~= record_text(self@));
        text
    }
}

/// Appends the description of record `index` of a list.
fn push_numbered_record(text: &mut String, index: usize, record: &Record)
    requires
        index < usize::MAX,
    ensures
        final(text)@ == old(text)@ + numbered_record_text(index as int, record@),
{
    text.append("\n记录 #");
    push_decimal_digits(text, (index + 1) as u64);
    text.append(":\n");
    let described = record.to_text();
    text.append(described.as_str());
    text.append("\n");
    assert(text@ =~= old(text)@ + numbered_record_text(index as int, record@));
}

impl RecordListResponse {
    /// Describes the answer's body in words.
    pub fn to_text(&self) -> (text: String)
        ensures
            text@ == record_list_text(
                self.request_id@,
                self.record_count_info,
                record_views(self.record_list@),
            ),
    {
        let mut text = String::from_str("请求 ID: ");
        text.append(self.request_id.as_str());
        text.append("\n");
        let info = self.record_count_info.to_text();
        text.append(info.as_str());
        text.append("\n记录列表 (共 ");
        push_decimal_digits(&mut text, self.record_list.len() as u64);
        text.append(" 条):\n");
        let ghost head = text@;
        let ghost all = record_views(self.record_list@);
        let mut i: usize = 0;
        assert(all.take(0) =~= Seq::empty());
        assert(text@ =~= head + records_text(all.take(0)));
        while i < self.record_list.len()
            invariant
                i <= self.record_list.len(),
                all == record_views(self.record_list@),
                text@ == head + records_text(all.take(i as int)),
            decreases self.record_list.len() - i,
        {
            push_numbered_record(&mut text, i, &self.record_list[i]);
            proof {
                let longer = all.take(i + 1);
                assert(longer.drop_last() =~= all.take(i as int));
                assert(longer.last() == self.record_list@[i as int]@);
                assert(records_text(longer) == records_text(all.take(i as int))
                    + numbered_record_text(i as int, self.record_list@[i as int]@));
            }
            i += 1;
        }
        assert(all.take(i as int) =~= all);
        assert(text@ =~= record_list_text(
            self.request_id@,
            self.record_count_info,
            record_views(self.record_list@),
        ));
        text
    }
}

impl DescribeRecordListResponse {
    /// Describes the answer in words: a heading, the body and a newline.
    pub fn to_text(&self) -> (text: String)
        ensures
            text@ == "DNS 记录列表响应:\n"@ + record_list_text(
                self.response.request_id@,
                self.response.record_count_info,
                record_views(self.response.record_list@),
            ) + "\n"@,
    {
        let mut text = String::from_str("DNS 记录列表响应:\n");
        let body = self.response.to_text();
        text.append(body.as_str());
        text.append("\n");
        text
    }
}

} // verus!

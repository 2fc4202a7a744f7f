use dns_rs::response::{
    DescribeRecordListResponse, Record, RecordCountInfo, RecordListResponse,
};

fn sample(kind: &str, weight: Option<i32>, remark: &str) -> Record {
    Record {
        record_id: 556507778,
        value: "2001:db8::1".to_string(),
        status: "ENABLE".to_string(),
        updated_on: "2021-03-28 11:27:09".to_string(),
        name: "www".to_string(),
        line: "默认".to_string(),
        line_id: "0".to_string(),
        record_type: kind.to_string(),
        weight,
        monitor_status: "OK".to_string(),
        remark: remark.to_string(),
        ttl: 600,
        mx: 10,
        default_ns: true,
    }
}

#[test]
fn record_text_has_nine_lines_and_the_flag() {
    assert_eq!(
        sample("AAAA", None, "").to_text(),
        "  记录 ID: 556507778\n  名称: www\n  类型: AAAA\n  值: 2001:db8::1\n  TTL: 600\n  线路: 默认\n  状态: ENABLE\n  监控状态: OK\n  最后更新: 2021-03-28 11:27:09\n  默认 NS: true"
    );
}

#[test]
fn record_text_adds_weight_priority_and_remark() {
    let mut record = sample("MX", Some(-5), "mail");
    record.default_ns = false;
    assert_eq!(
        record.to_text(),
        "  记录 ID: 556507778\n  名称: www\n  类型: MX\n  值: 2001:db8::1\n  TTL: 600\n  线路: 默认\n  状态: ENABLE\n  监控状态: OK\n  最后更新: 2021-03-28 11:27:09\n  权重: -5\n  MX 优先级: 10\n  备注: mail\n  默认 NS: false"
    );
}

#[test]
fn count_info_text_has_a_heading_and_three_lines() {
    let info = RecordCountInfo { subdomain_count: 2, list_count: 3, total_count: i32::MIN };
    assert_eq!(
        info.to_text(),
        "记录统计信息:\n  子域名数量: 2\n  列表数量: 3\n  总数量: -2147483648\n"
    );
}

#[test]
fn record_list_text_numbers_the_records_from_one() {
    let list = RecordListResponse {
        request_id: "ab4f1426-ea15-42ea-8183-dc1b44151166".to_string(),
        record_count_info: RecordCountInfo { subdomain_count: 1, list_count: 2, total_count: 2 },
        record_list: vec![sample("AAAA", None, ""), sample("A", Some(1), "")],
    };
    let first = list.record_list[0].to_text();
    let second = list.record_list[1].to_text();
    let expected = format!(
        "请求 ID: ab4f1426-ea15-42ea-8183-dc1b44151166\n{}\n记录列表 (共 2 条):\n\n记录 #1:\n{}\n\n记录 #2:\n{}\n",
        list.record_count_info.to_text(),
        first,
        second
    );
    assert_eq!(list.to_text(), expected);
    let whole = DescribeRecordListResponse { response: list };
    assert_eq!(whole.to_text(), format!("DNS 记录列表响应:\n{}\n", expected));
}

#[test]
fn empty_record_list_text_has_no_record() {
    let list = RecordListResponse {
        request_id: String::new(),
        record_count_info: RecordCountInfo { subdomain_count: 0, list_count: 0, total_count: 0 },
        record_list: vec![],
    };
    assert_eq!(
        list.to_text(),
        "请求 ID: \n记录统计信息:\n  子域名数量: 0\n  列表数量: 0\n  总数量: 0\n\n记录列表 (共 0 条):\n"
    );
}

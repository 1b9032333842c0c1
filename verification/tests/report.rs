use zkfs::report::{
    deletion_warning, dir_entry_line, dir_lines, hex_dump_lines, numbered, payload_lines,
    stat_lines, warning_line, DirEntry,
};
use zkfs::store::{Failure, Operation, Stat, StatReply, StoreError};

fn sample_stat() -> Stat {
    Stat {
        czxid: 100,
        mzxid: 205,
        pzxid: 310,
        ctime: 1700000000000,
        mtime: 1700000001234,
        version: 3,
        cversion: 4,
        aversion: 0,
        ephemeral_owner: 0,
        data_length: 12,
        num_children: 2,
    }
}

fn refusal(reason: &str) -> StoreError {
    StoreError { reason: String::from(reason) }
}

#[test]
fn text_payload_is_printed_as_text() {
    assert_eq!(payload_lines(&vec![0x68, 0x69]), vec![String::from("hi")]);
}

#[test]
fn binary_payload_is_printed_as_hex_pairs() {
    assert_eq!(
        payload_lines(&vec![0xff, 0x00]),
        vec![String::from("(二进制数据，十六进制表示)"), String::from("ff 00")]
    );
}

#[test]
fn empty_payload_is_empty_text() {
    assert_eq!(payload_lines(&Vec::new()), vec![String::new()]);
}

#[test]
fn multibyte_text_is_decoded() {
    let data = "节点\nab".as_bytes().to_vec();
    assert_eq!(payload_lines(&data), vec![String::from("节点\nab")]);
}

#[test]
fn truncated_multibyte_text_is_binary() {
    let mut data = "节".as_bytes().to_vec();
    data.pop();
    assert_eq!(
        payload_lines(&data),
        vec![String::from("(二进制数据，十六进制表示)"), String::from("e8 8a")]
    );
}

#[test]
fn dump_breaks_after_sixteen_bytes() {
    let data: Vec<u8> = (0u8..17).collect();
    assert_eq!(
        hex_dump_lines(&data),
        vec![
            String::from("00 01 02 03 04 05 06 07 08 09 0a 0b 0c 0d 0e 0f"),
            String::from("10"),
        ]
    );
}

#[test]
fn dump_of_exactly_sixteen_bytes_is_one_line() {
    let data: Vec<u8> = (240u8..=255).collect();
    assert_eq!(
        hex_dump_lines(&data),
        vec![String::from("f0 f1 f2 f3 f4 f5 f6 f7 f8 f9 fa fb fc fd fe ff")]
    );
}

#[test]
fn dump_of_nothing_has_no_lines() {
    assert_eq!(hex_dump_lines(&Vec::new()), Vec::<String>::new());
}

#[test]
fn dump_of_many_bytes_has_a_line_per_sixteen() {
    let data: Vec<u8> = (0..100).map(|i| (i * 7 % 256) as u8).collect();
    let lines = hex_dump_lines(&data);
    assert_eq!(lines.len(), 7);
    for (i, line) in lines.iter().enumerate() {
        let row = &data[16 * i..(16 * i + 16).min(data.len())];
        let expected: Vec<String> = row.iter().map(|b| format!("{:02x}", b)).collect();
        assert_eq!(line, &expected.join(" "));
    }
    assert_eq!(lines[6], "a0 a7 ae b5");
}

#[test]
fn stat_prints_every_field() {
    assert_eq!(
        stat_lines("/app/config", &sample_stat()),
        vec![
            String::from("节点路径: /app/config"),
            String::from("创建事务ID: 100"),
            String::from("修改事务ID: 205"),
            String::from("创建时间: 1700000000000"),
            String::from("修改时间: 1700000001234"),
            String::from("数据版本: 3"),
            String::from("子节点版本: 4"),
            String::from("ACL版本: 0"),
            String::from("临时节点所有者: 0"),
            String::from("数据长度: 12 bytes"),
            String::from("子节点数量: 2"),
            String::from("子节点修改事务ID: 310"),
        ]
    );
}

#[test]
fn stat_prints_negative_fields_with_their_sign() {
    let stat = Stat {
        czxid: -1,
        mzxid: -1,
        pzxid: -1,
        ctime: 0,
        mtime: 0,
        version: -1,
        cversion: -1,
        aversion: -1,
        ephemeral_owner: 72057594037927937,
        data_length: 0,
        num_children: 0,
    };
    let lines = stat_lines("/", &stat);
    assert_eq!(lines[0], "节点路径: /");
    assert_eq!(lines[1], "创建事务ID: -1");
    assert_eq!(lines[5], "数据版本: -1");
    assert_eq!(lines[8], "临时节点所有者: 72057594037927937");
}

#[test]
fn dir_marks_a_child_without_stat_and_lists_the_others() {
    let a = Stat { version: 1, num_children: 0, data_length: 5, ..sample_stat() };
    let entries = vec![
        DirEntry { name: String::from("a"), stat: StatReply::Found(a) },
        DirEntry { name: String::from("b"), stat: StatReply::Failed(refusal("connection lost")) },
    ];
    assert_eq!(
        dir_lines("/", &sample_stat(), &entries),
        vec![
            String::from("路径: /"),
            String::from("子节点数量: 2"),
            String::from("数据版本: 3"),
            String::from("创建时间: 1700000000000"),
            String::from("修改时间: 1700000001234"),
            String::new(),
            String::from("子节点列表:"),
            String::from("  a (版本: 1, 子节点: 0, 数据大小: 5 bytes)"),
            String::from("  b (无法获取状态)"),
        ]
    );
}

#[test]
fn dir_lists_children_after_a_failed_one() {
    let entries = vec![
        DirEntry { name: String::from("first"), stat: StatReply::Failed(refusal("timeout")) },
        DirEntry { name: String::from("gone"), stat: StatReply::Missing },
        DirEntry { name: String::from("last"), stat: StatReply::Found(sample_stat()) },
    ];
    let lines = dir_lines("/svc", &sample_stat(), &entries);
    assert_eq!(lines.len(), 10);
    assert_eq!(lines[0], "路径: /svc");
    assert_eq!(lines[7], "  first (无法获取状态)");
    assert_eq!(lines[8], "  gone (节点不存在)");
    assert_eq!(lines[9], "  last (版本: 3, 子节点: 2, 数据大小: 12 bytes)");
}

#[test]
fn dir_of_a_node_without_children_is_the_header() {
    let lines = dir_lines("/leaf", &sample_stat(), &Vec::new());
    assert_eq!(lines.len(), 7);
    assert_eq!(lines[5], "");
    assert_eq!(lines[6], "子节点列表:");
}

#[test]
fn dir_entry_lines_one_by_one() {
    let found = DirEntry { name: String::from("n"), stat: StatReply::Found(sample_stat()) };
    assert_eq!(dir_entry_line(&found), "  n (版本: 3, 子节点: 2, 数据大小: 12 bytes)");
    let missing = DirEntry { name: String::from("n"), stat: StatReply::Missing };
    assert_eq!(dir_entry_line(&missing), "  n (节点不存在)");
    let failed = DirEntry { name: String::from("n"), stat: StatReply::Failed(refusal("x")) };
    assert_eq!(dir_entry_line(&failed), "  n (无法获取状态)");
}

#[test]
fn warnings_name_the_node_and_the_reason() {
    let listing = Failure {
        operation: Operation::List,
        path: String::from("/a/b"),
        cause: refusal("node not exists"),
    };
    assert_eq!(warning_line(&listing), "警告: 无法列出 /a/b 的子节点: node not exists");
    let deletion = Failure {
        operation: Operation::Delete,
        path: String::from("/a/b"),
        cause: refusal("node has not empty children"),
    };
    assert_eq!(warning_line(&deletion), "警告: 删除 /a/b 时出错: node has not empty children");
    assert_eq!(deletion_warning("/x", "why"), "警告: 删除 /x 时出错: why");
}

#[test]
fn numbered_lines_hold_label_and_numeral() {
    assert_eq!(numbered("数据版本: ", 17), "数据版本: 17");
    assert_eq!(numbered("", -5), "-5");
}

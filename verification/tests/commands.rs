use zkfs::commands::{
    cat_command, cat_request, create_command, create_options, create_request, existing_stat,
    ls_command, ls_request, rm_command, rm_plan, rm_recursive, set_command, set_request,
    stat_command, stat_request, store_failure, written_line, Removal,
};
use zkfs::error::CommandError;
use zkfs::node_type::CreateMode;
use zkfs::store::{Failure, Operation, Request, Stat, StoreError};

fn names(list: &[&str]) -> Vec<String> {
    list.iter().map(|s| String::from(*s)).collect()
}

fn refusal(reason: &str) -> StoreError {
    StoreError { reason: String::from(reason) }
}

fn failure(operation: Operation, path: &str, reason: &str) -> Failure {
    Failure { operation, path: String::from(path), cause: refusal(reason) }
}

fn stat_with_version(version: i32) -> Stat {
    Stat {
        czxid: 1,
        mzxid: 2,
        pzxid: 3,
        ctime: 4,
        mtime: 5,
        version,
        cversion: 7,
        aversion: 8,
        ephemeral_owner: 9,
        data_length: 10,
        num_children: 11,
    }
}

#[test]
fn ls_prints_the_children_in_the_order_of_the_store() {
    let listed = names(&["zeta", "alpha", "mid", "alpha2"]);
    assert_eq!(ls_command("/p", Ok(listed.clone())), Ok(listed));
}

#[test]
fn ls_of_a_node_without_children_prints_nothing() {
    assert_eq!(ls_command("/p", Ok(Vec::new())), Ok(Vec::new()));
}

#[test]
fn ls_of_a_missing_node_fails_with_the_path() {
    let error = ls_command("/nope", Err(refusal("node not exists"))).unwrap_err();
    assert_eq!(error, CommandError::Store(failure(Operation::List, "/nope", "node not exists")));
    assert_eq!(error.message(), "无法列出路径: /nope");
    assert_eq!(error.cause(), Some(String::from("node not exists")));
    assert!(!error.is_usage_error());
}

#[test]
fn requests_name_the_path() {
    assert_eq!(ls_request("/a"), Request::List(String::from("/a")));
    assert_eq!(stat_request("/a"), Request::Stat(String::from("/a")));
    assert_eq!(cat_request("/a"), Request::Read(String::from("/a")));
}

#[test]
fn writes_and_single_deletions_check_no_version() {
    assert_eq!(
        set_request("/a", vec![1, 2]),
        Request::Write { path: String::from("/a"), data: vec![1, 2], version: None }
    );
    match rm_plan("/a", false, false) {
        Removal::Single(request) => {
            assert_eq!(request, Request::Delete { path: String::from("/a"), version: None })
        }
        Removal::Subtree(_) => panic!("a single deletion was asked for"),
    }
}

#[test]
fn recursive_rm_walks_the_subtree_with_the_same_force_flag() {
    for force in [false, true] {
        match rm_plan("/a", true, force) {
            Removal::Subtree(walker) => {
                assert_eq!(walker.force(), force);
                assert_eq!(walker.pending(), Some(Request::List(String::from("/a"))));
            }
            Removal::Single(_) => panic!("a walk was asked for"),
        }
    }
}

#[test]
fn stat_of_an_existing_node_prints_its_fields() {
    let lines = stat_command("/n", Ok(Some(stat_with_version(6)))).unwrap();
    assert_eq!(lines.len(), 12);
    assert_eq!(lines[0], "节点路径: /n");
    assert_eq!(lines[5], "数据版本: 6");
    assert_eq!(lines[11], "子节点修改事务ID: 3");
}

#[test]
fn stat_of_a_missing_node_fails() {
    let error = stat_command("/n", Ok(None)).unwrap_err();
    assert_eq!(error, CommandError::NodeMissing(String::from("/n")));
    assert_eq!(error.message(), "节点不存在: /n");
    assert_eq!(error.cause(), None);
}

#[test]
fn stat_that_the_store_refuses_fails_with_the_reason() {
    let error = stat_command("/n", Err(refusal("session expired"))).unwrap_err();
    assert_eq!(error, CommandError::Store(failure(Operation::Stat, "/n", "session expired")));
    assert_eq!(error.message(), "无法获取节点状态: /n");
    assert_eq!(error.cause(), Some(String::from("session expired")));
}

#[test]
fn existing_stat_hands_the_stat_through() {
    assert_eq!(existing_stat("/n", Ok(Some(stat_with_version(2)))), Ok(stat_with_version(2)));
    assert_eq!(existing_stat("/n", Ok(None)), Err(CommandError::NodeMissing(String::from("/n"))));
}

#[test]
fn cat_prints_text_and_dumps_the_rest() {
    assert_eq!(cat_command("/n", Ok(vec![0x68, 0x69])), Ok(vec![String::from("hi")]));
    assert_eq!(
        cat_command("/n", Ok(vec![0xff, 0x00])),
        Ok(vec![String::from("(二进制数据，十六进制表示)"), String::from("ff 00")])
    );
}

#[test]
fn cat_of_a_missing_node_fails() {
    let error = cat_command("/n", Err(refusal("node not exists"))).unwrap_err();
    assert_eq!(error, CommandError::Store(failure(Operation::Read, "/n", "node not exists")));
    assert_eq!(error.message(), "无法获取节点数据: /n");
}

#[test]
fn rm_reports_the_deletion() {
    assert_eq!(rm_command("/a", false, Ok(())), Ok(String::from("成功删除: /a")));
    assert_eq!(rm_command("/a", true, Ok(())), Ok(String::from("成功删除: /a")));
}

#[test]
fn rm_without_force_fails_when_the_store_refuses() {
    let error = rm_command("/a", false, Err(refusal("node has not empty children"))).unwrap_err();
    assert_eq!(
        error,
        CommandError::Store(failure(Operation::Delete, "/a", "node has not empty children"))
    );
    assert_eq!(error.message(), "无法删除节点: /a");
    assert_eq!(error.cause(), Some(String::from("node has not empty children")));
}

#[test]
fn rm_with_force_turns_a_refusal_into_a_warning() {
    assert_eq!(
        rm_command("/a", true, Err(refusal("node not exists"))),
        Ok(String::from("警告: 删除 /a 时出错: node not exists"))
    );
}

#[test]
fn recursive_rm_reports_like_single_rm() {
    assert_eq!(rm_recursive("/a", false, Ok(())), Ok(String::from("成功删除: /a")));
    assert_eq!(rm_recursive("/a", true, Ok(())), Ok(String::from("成功删除: /a")));
    let stopped = failure(Operation::Delete, "/a/b", "not authorized");
    assert_eq!(
        rm_recursive("/a", false, Err(stopped.clone())),
        Err(CommandError::Store(stopped.clone()))
    );
    assert_eq!(
        rm_recursive("/a", true, Err(stopped)),
        Ok(String::from("警告: 删除 /a 时出错: 无法删除节点: /a/b"))
    );
    let unlisted = failure(Operation::List, "/a/c", "timeout");
    assert_eq!(
        rm_recursive("/a", false, Err(unlisted.clone())).unwrap_err().message(),
        "无法列出路径: /a/c"
    );
}

#[test]
fn create_reports_the_numbered_path_for_sequential_modes() {
    assert_eq!(
        create_command("/job-", CreateMode::PersistentSequential, 0, Ok(7)),
        Ok(vec![String::from("成功创建节点: /job-7")])
    );
    assert_eq!(
        create_command("/job-", CreateMode::EphemeralSequential, 3, Ok(12)),
        Ok(vec![String::from("成功创建节点: /job-12"), String::from("写入数据: 3 bytes")])
    );
}

#[test]
fn create_reports_the_requested_path_for_other_modes() {
    assert_eq!(
        create_command("/job-", CreateMode::Persistent, 0, Ok(7)),
        Ok(vec![String::from("成功创建节点: /job-")])
    );
    assert_eq!(
        create_command("/cfg", CreateMode::Ephemeral, 1024, Ok(-1)),
        Ok(vec![String::from("成功创建节点: /cfg"), String::from("写入数据: 1024 bytes")])
    );
}

#[test]
fn create_that_the_store_refuses_fails() {
    let error =
        create_command("/a/b", CreateMode::Persistent, 0, Err(refusal("node already exists")))
            .unwrap_err();
    assert_eq!(error, CommandError::Store(failure(Operation::Create, "/a/b", "node already exists")));
    assert_eq!(error.message(), "无法创建节点: /a/b");
}

#[test]
fn create_request_carries_payload_and_mode() {
    assert_eq!(
        create_request("/a", vec![9], CreateMode::Ephemeral),
        Request::Create { path: String::from("/a"), data: vec![9], mode: CreateMode::Ephemeral }
    );
}

#[test]
fn only_creations_have_options() {
    let creation = create_request("/a", Vec::new(), CreateMode::EphemeralSequential);
    let options = create_options(&creation).expect("a creation has options");
    let shown = format!("{:?}", options);
    assert!(shown.contains("EphemeralSequential"));
    assert!(shown.contains("AnyoneAll"));
    assert!(create_options(&ls_request("/a")).is_none());
    assert!(create_options(&set_request("/a", Vec::new())).is_none());
}

#[test]
fn creation_options_follow_the_mode() {
    for (mode, name) in [
        (CreateMode::Persistent, "mode: Persistent,"),
        (CreateMode::Ephemeral, "mode: Ephemeral,"),
        (CreateMode::PersistentSequential, "mode: PersistentSequential,"),
        (CreateMode::EphemeralSequential, "mode: EphemeralSequential,"),
    ] {
        let options = create_options(&create_request("/a", Vec::new(), mode)).unwrap();
        assert!(format!("{:?}", options).contains(name));
    }
}

#[test]
fn set_reports_path_and_length() {
    assert_eq!(
        set_command("/a", 5, Ok(())),
        Ok(vec![String::from("成功设置节点数据: /a"), String::from("写入数据: 5 bytes")])
    );
    assert_eq!(
        set_command("/a", 0, Ok(())),
        Ok(vec![String::from("成功设置节点数据: /a"), String::from("写入数据: 0 bytes")])
    );
}

#[test]
fn set_of_a_missing_node_fails() {
    let error = set_command("/a", 5, Err(refusal("node not exists"))).unwrap_err();
    assert_eq!(error, CommandError::Store(failure(Operation::Write, "/a", "node not exists")));
    assert_eq!(error.message(), "无法设置节点数据: /a");
}

#[test]
fn store_failures_keep_operation_path_and_reason() {
    assert_eq!(
        store_failure(Operation::Read, "/p", refusal("r")),
        CommandError::Store(failure(Operation::Read, "/p", "r"))
    );
    assert_eq!(failure(Operation::Create, "/p", "r").headline(), "无法创建节点: /p");
}

#[test]
fn written_line_counts_bytes() {
    assert_eq!(written_line(0), "写入数据: 0 bytes");
    assert_eq!(written_line(65536), "写入数据: 65536 bytes");
}

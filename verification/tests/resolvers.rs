use zkfs::data::{file_payload, get_data_from_input, PayloadSource};
use zkfs::error::CommandError;
use zkfs::node_type::{created_path, is_word, parse_create_mode, to_lower, CreateMode};

#[test]
fn inline_data_is_taken_byte_for_byte() {
    assert_eq!(get_data_from_input(Some("x"), None), Ok(PayloadSource::Bytes(b"x".to_vec())));
    assert_eq!(
        get_data_from_input(Some("节点 data\n"), None),
        Ok(PayloadSource::Bytes("节点 data\n".as_bytes().to_vec()))
    );
    assert_eq!(get_data_from_input(Some(""), None), Ok(PayloadSource::Bytes(Vec::new())));
}

#[test]
fn a_file_argument_names_the_file_to_read() {
    assert_eq!(
        get_data_from_input(None, Some("/tmp/payload.bin")),
        Ok(PayloadSource::File(String::from("/tmp/payload.bin")))
    );
}

#[test]
fn file_contents_become_the_payload() {
    assert_eq!(file_payload("F", Ok(vec![1, 2, 3])), Ok(vec![1, 2, 3]));
    assert_eq!(file_payload("F", Ok(Vec::new())), Ok(Vec::new()));
}

#[test]
fn both_arguments_are_a_usage_error() {
    let result = get_data_from_input(Some("x"), Some("F"));
    assert_eq!(result, Err(CommandError::ConflictingInput));
    let error = result.unwrap_err();
    assert!(error.is_usage_error());
    assert_eq!(error.message(), "不能同时指定 --data 和 --file 参数");
    assert_eq!(error.cause(), None);
}

#[test]
fn no_argument_means_the_empty_payload() {
    assert_eq!(get_data_from_input(None, None), Ok(PayloadSource::Bytes(Vec::new())));
}

#[test]
fn a_file_that_cannot_be_read_is_an_error_naming_the_file() {
    let result = file_payload("missing.txt", Err(String::from("No such file or directory")));
    let error = result.unwrap_err();
    assert_eq!(
        error,
        CommandError::FileRead {
            file: String::from("missing.txt"),
            cause: String::from("No such file or directory"),
        }
    );
    assert_eq!(error.message(), "无法读取文件: missing.txt");
    assert_eq!(error.cause(), Some(String::from("No such file or directory")));
    assert!(!error.is_usage_error());
}

#[test]
fn short_token_ps_is_persistent_sequential() {
    assert_eq!(parse_create_mode("ps"), Ok(CreateMode::PersistentSequential));
}

#[test]
fn node_type_tokens_ignore_case() {
    assert_eq!(parse_create_mode("PS"), Ok(CreateMode::PersistentSequential));
    assert_eq!(parse_create_mode("Persistent"), Ok(CreateMode::Persistent));
    assert_eq!(parse_create_mode("EPHEMERAL"), Ok(CreateMode::Ephemeral));
    assert_eq!(parse_create_mode("Ephemeral-Sequential"), Ok(CreateMode::EphemeralSequential));
    assert_eq!(parse_create_mode("eS"), Ok(CreateMode::EphemeralSequential));
}

#[test]
fn every_node_type_token_is_known() {
    assert_eq!(parse_create_mode("persistent"), Ok(CreateMode::Persistent));
    assert_eq!(parse_create_mode("p"), Ok(CreateMode::Persistent));
    assert_eq!(parse_create_mode("ephemeral"), Ok(CreateMode::Ephemeral));
    assert_eq!(parse_create_mode("e"), Ok(CreateMode::Ephemeral));
    assert_eq!(parse_create_mode("persistent-sequential"), Ok(CreateMode::PersistentSequential));
    assert_eq!(parse_create_mode("ephemeral-sequential"), Ok(CreateMode::EphemeralSequential));
    assert_eq!(parse_create_mode("es"), Ok(CreateMode::EphemeralSequential));
}

#[test]
fn an_unknown_node_type_names_all_four_tokens() {
    let error = parse_create_mode("bogus").unwrap_err();
    assert_eq!(error, CommandError::InvalidNodeType(String::from("bogus")));
    assert!(error.is_usage_error());
    let message = error.message();
    assert_eq!(
        message,
        "无效的节点类型: bogus. 支持的类型: persistent(p), ephemeral(e), persistent-sequential(ps), ephemeral-sequential(es)"
    );
    for token in ["persistent", "ephemeral", "persistent-sequential", "ephemeral-sequential"] {
        assert!(message.contains(token));
    }
}

#[test]
fn near_misses_are_not_node_types() {
    for token in ["", " p", "p ", "pp", "persistent_sequential", "sequential", "persisten", "ｐ"] {
        assert_eq!(
            parse_create_mode(token),
            Err(CommandError::InvalidNodeType(String::from(token)))
        );
    }
}

#[test]
fn the_error_keeps_the_token_as_given() {
    assert_eq!(
        parse_create_mode("BoGuS"),
        Err(CommandError::InvalidNodeType(String::from("BoGuS")))
    );
}

#[test]
fn lower_case_touches_only_the_letters_a_to_z() {
    assert_eq!(to_lower('A'), 'a');
    assert_eq!(to_lower('Z'), 'z');
    assert_eq!(to_lower('q'), 'q');
    assert_eq!(to_lower('-'), '-');
    assert_eq!(to_lower('['), '[');
    assert_eq!(to_lower('@'), '@');
    assert_eq!(to_lower('É'), 'É');
    assert!(is_word("PeRsIsTeNt", "persistent"));
    assert!(!is_word("persistent", "Persistent"));
}

#[test]
fn a_sequential_creation_reports_the_numbered_path() {
    assert_eq!(created_path("/job-", CreateMode::PersistentSequential, 7), "/job-7");
    assert_eq!(created_path("/job-", CreateMode::EphemeralSequential, 7), "/job-7");
    assert_eq!(created_path("/job-", CreateMode::EphemeralSequential, 0), "/job-0");
    assert_eq!(created_path("/q/n", CreateMode::PersistentSequential, 2147483648), "/q/n2147483648");
}

#[test]
fn any_other_creation_reports_the_path_unchanged() {
    assert_eq!(created_path("/job-", CreateMode::Persistent, 7), "/job-");
    assert_eq!(created_path("/job-", CreateMode::Ephemeral, 7), "/job-");
    assert_eq!(created_path("/a/b", CreateMode::Persistent, -1), "/a/b");
}

#[test]
fn only_the_sequential_modes_are_sequential() {
    assert!(!CreateMode::Persistent.is_sequential());
    assert!(!CreateMode::Ephemeral.is_sequential());
    assert!(CreateMode::PersistentSequential.is_sequential());
    assert!(CreateMode::EphemeralSequential.is_sequential());
}

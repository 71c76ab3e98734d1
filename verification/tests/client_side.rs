use probing::bootstrap::{get_hostname, setup_env_settings, wants_hostname, ServerEnv};
use probing::cli::{Commands, Settings};
use probing::dto::{QueryDataDto, QueryOptionsDto, QueryRequestDto, QueryResponseDto, TimeSeries};
use probing::ele::Ele;
use probing::extension::Maybe;
use probing::file_api::validate_path;
use probing::text::{
    compare_text, decimal_text, eq_ignore_ascii_case, parse_i64_text, parse_u16_text,
    text_ends_with, text_starts_with, Order,
};
use probing::web::{ApiClient, AppError};

#[test]
fn test_validate_path_empty() {
    let result = validate_path("", None, &vec![]);
    assert!(result.is_err());
    assert!(result.unwrap_err().contains("empty"));
}

#[test]
fn test_validate_path_null_byte() {
    let result = validate_path("test\0file.txt", None, &vec![]);
    assert!(result.is_err());
    assert!(result.unwrap_err().contains("invalid characters"));
}

#[test]
fn test_validate_path_nonexistent() {
    let result = validate_path("/nonexistent/path/file.txt", None, &vec!["/tmp".to_string()]);
    assert!(result.is_err());
    assert!(result.unwrap_err().contains("Invalid or non-existent"));
}

#[test]
fn a_path_within_an_allowed_directory_is_served() {
    let allowed = vec!["/var/log".to_string(), "/tmp".to_string()];
    let result = validate_path("/tmp/../tmp/a.txt", Some("/tmp/a.txt".to_string()), &allowed);
    assert_eq!(result, Ok("/tmp/a.txt".to_string()));
    assert_eq!(validate_path("/tmp", Some("/tmp".to_string()), &allowed), Ok("/tmp".to_string()));
    assert_eq!(
        validate_path("x", Some("/a".to_string()), &vec!["/".to_string()]),
        Ok("/a".to_string())
    );
}

#[test]
fn a_path_outside_the_allowed_directories_is_refused() {
    let allowed = vec!["/tmp".to_string()];
    let result = validate_path("/etc/passwd", Some("/etc/passwd".to_string()), &allowed);
    assert_eq!(result, Err("Access denied: path is outside allowed directories".to_string()));
    let sibling = validate_path("/tmpx/a", Some("/tmpx/a".to_string()), &allowed);
    assert_eq!(sibling, Err("Access denied: path is outside allowed directories".to_string()));
    let none = validate_path("/tmp/a", Some("/tmp/a".to_string()), &vec![]);
    assert!(none.is_err());
}

#[test]
fn settings_become_set_statements() {
    assert_eq!(Settings::new().to_cfg(), None);
    let mut settings = Settings::new();
    settings.server_port = Some(8080);
    assert_eq!(settings.to_cfg(), Some("set server.address=0.0.0.0:8080;".to_string()));
    settings.probing_mode = Some("1".to_string());
    settings.loglevel = Some("debug".to_string());
    settings.assets_root = Some("/ui".to_string());
    settings.torch_profiling = Some("on".to_string());
    settings.rdma_sample_rate = Some("0.50".to_string());
    settings.rdma_hca_name = Some("mlx5_0".to_string());
    assert_eq!(
        settings.to_cfg(),
        Some(
            "set probing=1;set server.log_level=debug;set server.assets_root=/ui;\
             set server.address=0.0.0.0:8080;set torch.profiling=on;set rdma.sample_rate=0.50;\
             set rdma.hca_name=mlx5_0;"
                .to_string()
        )
    );
}

#[test]
fn only_interactive_and_long_running_commands_run_without_limit() {
    assert!(!Commands::Repl.should_timeout());
    assert!(!Commands::Launch { recursive: false, args: vec![] }.should_timeout());
    assert!(!Commands::External(vec![]).should_timeout());
    assert!(Commands::List { verbose: false, tree: true }.should_timeout());
    assert!(Commands::Config { options: Settings::new(), setting: None }.should_timeout());
    assert!(Commands::Backtrace { tid: None }.should_timeout());
    assert!(Commands::Rdma { hca_name: None }.should_timeout());
    assert!(Commands::Eval { code: "1".to_string() }.should_timeout());
    assert!(Commands::Query { query: "select 1".to_string() }.should_timeout());
    assert!(Commands::Store(vec![]).should_timeout());
    assert!(Commands::Inject(vec![]).should_timeout());
}

#[test]
fn the_host_address_is_wanted_only_where_the_server_address_needs_it() {
    assert!(wants_hostname(Some("9000"), Some("1")));
    assert!(wants_hostname(Some("9000"), Some("00")));
    assert!(wants_hostname(Some("0"), Some("")));
    assert!(!wants_hostname(Some("9000"), Some("0")));
    assert!(!wants_hostname(Some("9000"), None));
    assert!(!wants_hostname(Some("RANDOM"), Some("1")));
    assert!(!wants_hostname(Some("random"), Some("1")));
    assert!(!wants_hostname(Some("65536"), Some("1")));
    assert!(!wants_hostname(Some("nonsense"), Some("1")));
    assert!(!wants_hostname(None, Some("1")));
    assert_eq!(
        setup_env_settings(Some("9000"), None, Some("0"), None, None),
        setup_env_settings(Some("9000"), None, Some("0"), None, Some("10.0.0.5"))
    );
}

#[test]
fn the_server_address_follows_the_environment() {
    let none = ServerEnv { server_addr: None, report_addr: None };
    assert_eq!(setup_env_settings(None, None, None, Some("m"), None), none);
    assert_eq!(setup_env_settings(Some("nonsense"), None, None, Some("m"), None), none);
    assert_eq!(setup_env_settings(Some("65536"), None, None, Some("m"), None), none);
    assert_eq!(
        setup_env_settings(Some("random"), Some("3"), Some("1"), Some("m"), Some("h")),
        ServerEnv { server_addr: Some("'0.0.0.0:0'".to_string()), report_addr: None }
    );
    assert_eq!(
        setup_env_settings(Some("9000"), None, None, None, Some("10.0.0.5")),
        ServerEnv { server_addr: Some("'0.0.0.0:9000'".to_string()), report_addr: None }
    );
    assert_eq!(
        setup_env_settings(Some("9000"), Some("3"), Some("1"), Some("master"), Some("10.0.0.5")),
        ServerEnv {
            server_addr: Some("'10.0.0.5:9003'".to_string()),
            report_addr: Some("'master:9000'".to_string()),
        }
    );
    assert_eq!(
        setup_env_settings(Some("65535"), Some("7"), Some("2"), Some(""), None),
        ServerEnv { server_addr: Some("'localhost:65535'".to_string()), report_addr: None }
    );
    assert_eq!(
        setup_env_settings(Some("+80"), Some("x"), Some("0"), Some("m"), None),
        ServerEnv {
            server_addr: Some("'0.0.0.0:80'".to_string()),
            report_addr: Some("'m:80'".to_string()),
        }
    );
}

#[test]
fn the_hostname_prefers_the_pod_then_the_pattern() {
    let ips = vec!["127.0.0.1".to_string(), "10.1.2.3".to_string(), "10.9.9.9".to_string()];
    assert_eq!(get_hostname(Some("1.2.3.4"), &ips, Some("10.")), Some("1.2.3.4".to_string()));
    assert_eq!(get_hostname(Some(""), &ips, Some("10.")), Some("10.1.2.3".to_string()));
    assert_eq!(get_hostname(Some("None"), &ips, Some("10.9")), Some("10.9.9.9".to_string()));
    assert_eq!(get_hostname(None, &ips, Some("192.")), Some("127.0.0.1".to_string()));
    assert_eq!(get_hostname(None, &ips, None), Some("127.0.0.1".to_string()));
    assert_eq!(get_hostname(None, &vec![], Some("10.")), None);
}

#[test]
fn requests_and_responses_take_their_shape() {
    let plain = QueryRequestDto::new("select 1".to_string());
    assert_eq!(plain, QueryRequestDto { expr: "select 1".to_string(), opts: None });
    let limited = QueryRequestDto::with_options("select 1".to_string(), Some(10));
    assert_eq!(limited.opts, Some(QueryOptionsDto { limit: Some(10) }));
    assert_eq!(QueryRequestDto::with_options("q".to_string(), None).opts, Some(QueryOptionsDto { limit: None }));

    let ok = QueryResponseDto::success(QueryDataDto::Nil);
    assert!(ok.success);
    assert_eq!(ok.message, None);
    assert_eq!(ok.payload, QueryDataDto::Nil);
    assert!(ok.timestamp > 1_600_000_000_000_000);

    let failed = QueryResponseDto::error("INTERNAL_ERROR".to_string(), "boom".to_string());
    assert!(!failed.success);
    assert_eq!(failed.message, Some("boom".to_string()));
    assert_eq!(
        failed.payload,
        QueryDataDto::Error { code: "INTERNAL_ERROR".to_string(), message: "boom".to_string() }
    );

    let nil = QueryResponseDto::nil();
    assert!(nil.success);
    assert_eq!(nil.payload, QueryDataDto::Nil);
    assert_eq!(QueryResponseDto::stamp(None), 0);
    assert_eq!(QueryResponseDto::stamp(Some(5_999)), 5);
    assert_eq!(QueryResponseDto::stamp(Some(((1u128 << 64) + 9) * 1000)), 9);
}

#[test]
fn a_time_series_hands_out_its_complete_rows() {
    let series = TimeSeries {
        names: vec!["a".to_string(), "b".to_string()],
        timestamp: vec![Ele::I64(1), Ele::I64(2), Ele::I64(3)],
        cols: vec![vec![Ele::I32(10), Ele::I32(20), Ele::I32(30)], vec![Ele::Nil, Ele::BOOL(true)]],
    };
    assert_eq!(series.len(), 3);
    assert!(!series.is_empty());
    assert_eq!(series.rows(), 2);
    assert_eq!(
        series.take(None),
        vec![
            (Ele::I64(1), vec![Ele::I32(10), Ele::Nil]),
            (Ele::I64(2), vec![Ele::I32(20), Ele::BOOL(true)]),
        ]
    );
    assert_eq!(series.take(Some(1)), vec![(Ele::I64(1), vec![Ele::I32(10), Ele::Nil])]);
    assert_eq!(series.take(Some(0)), vec![]);
    assert_eq!(series.take(Some(9)).len(), 2);
    let bare = TimeSeries { names: vec![], timestamp: vec![Ele::I64(1)], cols: vec![] };
    assert_eq!(bare.take(None), vec![(Ele::I64(1), vec![])]);
}

#[test]
fn errors_of_the_client_have_one_line_messages() {
    assert_eq!(AppError::Network("down".to_string()).message(), "Network error: down");
    assert_eq!(AppError::Json("bad".to_string()).message(), "JSON parsing error: bad");
    assert_eq!(AppError::Api("no".to_string()).message(), "API error: no");
    assert_eq!(ApiClient::new(), ApiClient);
    assert_eq!(ApiClient::build_url("http://h:1", "/query"), "http://h:1/query");
}

#[test]
fn option_texts_may_hold_a_value() {
    assert_eq!(Maybe::from_parsed("", Some(1)), Maybe::Nothing);
    assert_eq!(Maybe::from_parsed("7", Some(7)), Maybe::Just(7));
    assert_eq!(Maybe::<i32>::from_parsed("x", None), Maybe::Nothing);
    assert_eq!(Maybe::Just(3).into_option(), Some(3));
    assert_eq!(Maybe::<i32>::Nothing.into_option(), None);
    assert_eq!(Maybe::<i32>::default(), Maybe::Nothing);
    assert_eq!("".parse::<Maybe<i32>>(), Ok(Maybe::Nothing));
    assert_eq!("7".parse::<Maybe<i32>>(), Ok(Maybe::Just(7)));
    assert_eq!("x".parse::<Maybe<i32>>(), Ok(Maybe::Nothing));
    assert_eq!("on".parse::<Maybe<String>>(), Ok(Maybe::Just("on".to_string())));
}

#[test]
fn numbers_are_read_as_the_standard_library_reads_them() {
    for text in ["0", "7", "+7", "007", "65535", "65536", "", "+", "-", "-1", " 1", "1 ", "1a", "٣", "99999999999"] {
        assert_eq!(parse_u16_text(text), text.parse::<u16>().ok(), "{:?}", text);
    }
    for text in [
        "0", "-0", "+0", "12", "-12", "9223372036854775807", "9223372036854775808",
        "-9223372036854775808", "-9223372036854775809", "", "+", "-", "--1", "+-1", "1.5", "1e3",
        "99999999999999999999999999",
    ] {
        assert_eq!(parse_i64_text(text), text.parse::<i64>().ok(), "{:?}", text);
    }
    for n in [0u64, 9, 10, 99, 100, 12345, u64::MAX] {
        assert_eq!(decimal_text(n), n.to_string());
    }
}

#[test]
fn texts_compare_as_strings_do() {
    let samples = ["", "a", "ab", "b", "B", "a.b", "é", "z", "日本", "\u{10ffff}"];
    for a in samples {
        for b in samples {
            let expected = if a < b {
                Order::Before
            } else if a == b {
                Order::Same
            } else {
                Order::After
            };
            assert_eq!(compare_text(a, b), expected, "{:?} {:?}", a, b);
            assert_eq!(text_starts_with(a, b), a.starts_with(b), "{:?} {:?}", a, b);
            assert_eq!(text_ends_with(a, b), a.ends_with(b), "{:?} {:?}", a, b);
            assert_eq!(eq_ignore_ascii_case(a, b), a.eq_ignore_ascii_case(b), "{:?} {:?}", a, b);
        }
    }
    assert!(eq_ignore_ascii_case("RaNdOm", "RANDOM"));
    assert!(!eq_ignore_ascii_case("é", "É"));
}

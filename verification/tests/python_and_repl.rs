use probing::cli::{abstract_socket_name, repl_step, show_output, socket_file_name, websocket_url, ReplStep};
use probing::text::{is_space_char, parse_i32_text, parse_usize_text, split_text, trim};
use probing::extension::{EngineError, Maybe};
use probing::python::{plan_call, Action, PythonCall, PythonOptions};

#[test]
fn the_crash_handler_is_written_once() {
    let mut options = PythonOptions::new();
    assert_eq!(
        options.set_crash_handler(Maybe::Nothing),
        Err(EngineError::InvalidOptionValue("crash_handler".to_string(), "".to_string()))
    );
    assert_eq!(options.crash_handler, Maybe::Nothing);
    assert_eq!(
        options.set_crash_handler(Maybe::Just("crash.py".to_string())),
        Ok(Action::EnableCrashHandler("crash.py".to_string()))
    );
    assert_eq!(options.crash_handler, Maybe::Just("crash.py".to_string()));
    assert_eq!(
        options.set_crash_handler(Maybe::Just("other.py".to_string())),
        Err(EngineError::ReadOnlyOption("crash_handler".to_string()))
    );
    assert_eq!(
        options.set_crash_handler(Maybe::Nothing),
        Err(EngineError::ReadOnlyOption("crash_handler".to_string()))
    );
    assert_eq!(options.crash_handler, Maybe::Just("crash.py".to_string()));
    assert_eq!(options.monitoring, Maybe::Nothing);
}

#[test]
fn the_monitoring_script_is_written_once() {
    let mut options = PythonOptions::new();
    assert_eq!(
        options.set_monitoring(Maybe::Nothing),
        Err(EngineError::InvalidOptionValue("monitoring".to_string(), "".to_string()))
    );
    assert_eq!(
        options.set_monitoring(Maybe::Just("m.py".to_string())),
        Ok(Action::EnableMonitoring("m.py".to_string()))
    );
    assert_eq!(
        options.set_monitoring(Maybe::Just("m.py".to_string())),
        Err(EngineError::ReadOnlyOption("monitoring".to_string()))
    );
    assert_eq!(
        PythonOptions::refused("monitoring", "m.py"),
        EngineError::InvalidOptionValue("monitoring".to_string(), "m.py".to_string())
    );
}

#[test]
fn extensions_are_loaded_once_and_unloaded() {
    let mut options = PythonOptions::new();
    assert_eq!(
        options.set_enabled(Maybe::Nothing),
        Err(EngineError::InvalidOptionValue("enabled".to_string(), "".to_string()))
    );
    assert_eq!(options.set_enabled(Maybe::Just("a()".to_string())), Ok(Action::Load("a()".to_string())));
    assert_eq!(options.enabled.len(), 0);
    options.loaded("a()".to_string());
    options.loaded("b()".to_string());
    options.loaded("a()".to_string());
    assert_eq!(options.enabled, vec!["a()", "b()"]);
    assert_eq!(
        options.set_enabled(Maybe::Just("a()".to_string())),
        Err(EngineError::PluginError("Python extension 'a()' is already enabled".to_string()))
    );
    assert_eq!(
        options.set_disabled(Maybe::Nothing),
        Err(EngineError::InvalidOptionValue("disabled".to_string(), "".to_string()))
    );
    assert_eq!(options.set_disabled(Maybe::Just("c()".to_string())), Ok(Action::NoAction));
    assert_eq!(options.set_disabled(Maybe::Just("a()".to_string())), Ok(Action::Unload("a()".to_string())));
    assert_eq!(options.enabled, vec!["b()"]);
    assert_eq!(options.set_enabled(Maybe::Just("a()".to_string())), Ok(Action::Load("a()".to_string())));
}

#[test]
fn white_space_is_what_the_standard_library_says() {
    for code in 0..=0x10ffffu32 {
        if let Some(c) = char::from_u32(code) {
            assert_eq!(is_space_char(c), c.is_whitespace(), "{code:#x}");
        }
    }
    for text in ["", " ", "a", " a", "a ", "  a b \t\n", "\u{3000}x\u{2003}", "\u{200b}x", " \u{85} ", "exit\r\n"] {
        assert_eq!(trim(text), text.trim(), "{text:?}");
    }
}

#[test]
fn the_session_passes_over_blank_lines_and_ends_on_exit() {
    assert_eq!(repl_step(""), ReplStep::Ignore);
    assert_eq!(repl_step("  \t "), ReplStep::Ignore);
    assert_eq!(repl_step("exit"), ReplStep::Exit);
    assert_eq!(repl_step("  exit \n"), ReplStep::Exit);
    assert_eq!(repl_step("exit()"), ReplStep::Send("exit()\n".to_string()));
    assert_eq!(repl_step(" print(1) "), ReplStep::Send(" print(1) \n".to_string()));
    assert_eq!(show_output(""), "");
    assert_eq!(show_output("1"), "1\n");
    assert_eq!(show_output("1\n"), "1\n");
    assert_eq!(show_output("\n"), "\n");
    assert_eq!(websocket_url("host:8080"), "ws://host:8080/ws");
    assert_eq!(abstract_socket_name(4711), "\0probing-4711");
    assert_eq!(socket_file_name(12), "probing-12.sock");
}

fn params(pairs: &[(&str, &str)]) -> Vec<(String, String)> {
    pairs.iter().map(|(k, v)| (k.to_string(), v.to_string())).collect()
}

#[test]
fn calls_are_planned_from_their_path_and_parameters() {
    assert_eq!(plan_call("callstack", &params(&[])), Ok(PythonCall::Callstack { tid: None }));
    assert_eq!(plan_call("callstack", &params(&[("tid", "42")])), Ok(PythonCall::Callstack { tid: Some(42) }));
    assert_eq!(plan_call("callstack", &params(&[("tid", "x")])), Ok(PythonCall::Callstack { tid: Some(0) }));
    assert_eq!(plan_call("eval", &params(&[])), Ok(PythonCall::Eval));
    assert_eq!(plan_call("flamegraph", &params(&[])), Ok(PythonCall::Flamegraph));
    assert_eq!(plan_call("trace/chrome-tracing", &params(&[])), Ok(PythonCall::ChromeTracing { limit: 1000 }));
    assert_eq!(
        plan_call("trace/chrome-tracing", &params(&[("limit", "5")])),
        Ok(PythonCall::ChromeTracing { limit: 5 })
    );
    assert_eq!(
        plan_call("trace/chrome-tracing", &params(&[("limit", "-5")])),
        Ok(PythonCall::ChromeTracing { limit: 1000 })
    );
    assert_eq!(plan_call("pytorch/timeline", &params(&[])), Ok(PythonCall::TorchTimeline));
    assert_eq!(plan_call("pytorch/profile", &params(&[])), Ok(PythonCall::TorchProfile { steps: 1 }));
    assert_eq!(
        plan_call("pytorch/profile", &params(&[("steps", "-3")])),
        Ok(PythonCall::TorchProfile { steps: -3 })
    );
    assert_eq!(
        plan_call("pytorch/profile", &params(&[("steps", "2147483648")])),
        Ok(PythonCall::TorchProfile { steps: 1 })
    );
    assert_eq!(plan_call("trace/list", &params(&[])), Ok(PythonCall::TraceList { prefix: None }));
    assert_eq!(
        plan_call("trace/list", &params(&[("prefix", "torch.")])),
        Ok(PythonCall::TraceList { prefix: Some("torch.".to_string()) })
    );
    assert_eq!(plan_call("trace/show", &params(&[])), Ok(PythonCall::TraceShow));
    assert_eq!(
        plan_call("trace/start", &params(&[])),
        Err(EngineError::PluginError("Missing 'function' parameter".to_string()))
    );
    assert_eq!(
        plan_call("trace/start", &params(&[("function", "f")])),
        Ok(PythonCall::TraceStart {
            function: "f".to_string(),
            watch: vec![],
            print_to_terminal: false,
            depth: 1
        })
    );
    assert_eq!(
        plan_call(
            "trace/start",
            &params(&[("watch", " a, b ,,c"), ("function", "m.f"), ("depth", "3"), ("print_to_terminal", "true")])
        ),
        Ok(PythonCall::TraceStart {
            function: "m.f".to_string(),
            watch: vec!["a".to_string(), "b".to_string(), "".to_string(), "c".to_string()],
            print_to_terminal: true,
            depth: 3
        })
    );
    assert_eq!(
        plan_call("trace/start", &params(&[("function", "f"), ("watch", ""), ("print_to_terminal", "True")])),
        Ok(PythonCall::TraceStart {
            function: "f".to_string(),
            watch: vec!["".to_string()],
            print_to_terminal: false,
            depth: 1
        })
    );
    assert_eq!(
        plan_call("trace/stop", &params(&[])),
        Err(EngineError::PluginError("Missing 'function' parameter".to_string()))
    );
    assert_eq!(
        plan_call("trace/stop", &params(&[("function", "f")])),
        Ok(PythonCall::TraceStop { function: "f".to_string() })
    );
    assert_eq!(
        plan_call("trace/variables", &params(&[])),
        Ok(PythonCall::TraceVariables { function: None, limit: 100 })
    );
    assert_eq!(
        plan_call("trace/variables", &params(&[("limit", "+7"), ("function", "f")])),
        Ok(PythonCall::TraceVariables { function: Some("f".to_string()), limit: 7 })
    );
    assert_eq!(plan_call("unknown", &params(&[("tid", "1")])), Ok(PythonCall::Empty));
    assert_eq!(plan_call("", &params(&[])), Ok(PythonCall::Empty));
}

#[test]
fn texts_split_and_numbers_parse_as_the_standard_library_has_it() {
    for text in ["", ",", "a", "a,b", ",a", "a,", "a,,b", " a , b ", ",,", "日,本"] {
        let expected: Vec<String> = text.split(',').map(String::from).collect();
        assert_eq!(split_text(text, ','), expected, "{text:?}");
    }
    for text in ["0", "-0", "+1", "2147483647", "2147483648", "-2147483648", "-2147483649", "", "-", "1x"] {
        assert_eq!(parse_i32_text(text), text.parse::<i32>().ok(), "{text:?}");
    }
    for text in ["0", "+0", "-0", "18446744073709551615", "18446744073709551616", "", "+", "12 "] {
        assert_eq!(parse_usize_text(text), text.parse::<usize>().ok(), "{text:?}");
    }
}

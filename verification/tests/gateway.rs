use cmd_gateway::executor::CommandOutput;
use cmd_gateway::executor::ExecOutcome;
use cmd_gateway::handler::build_headers;
use cmd_gateway::handler::command_response;
use cmd_gateway::handler::invalid_response;
use cmd_gateway::handler::listing_response;
use cmd_gateway::handler::not_found_response;
use cmd_gateway::handler::plan_request;
use cmd_gateway::handler::request_path;
use cmd_gateway::handler::RequestPlan;
use cmd_gateway::http::HttpResponse;
use cmd_gateway::registry::Endpoint;
use cmd_gateway::registry::Registry;

fn endpoint(name: &str, command: &str, description: &str, headers: Vec<(&str, &str)>) -> Endpoint {
    Endpoint {
        name: name.to_owned(),
        command: command.to_owned(),
        args: Vec::new(),
        description: description.to_owned(),
        headers: headers.into_iter().map(|(k, v)| (k.to_owned(), v.to_owned())).collect(),
    }
}

fn registry_with(endpoints: Vec<Endpoint>) -> Registry {
    let mut reg = Registry::new();
    for e in endpoints {
        assert!(reg.register(e));
    }
    reg
}

fn respond(plan: RequestPlan) -> HttpResponse {
    match plan {
        RequestPlan::Respond(r) => r,
        RequestPlan::Execute(_) => panic!("expected a finished response"),
    }
}

#[test]
fn parses_path_from_request_line() {
    let req = "GET /time HTTP/1.1\r\nHost: localhost\r\n\r\n".to_owned();
    assert_eq!(request_path(&req), Some("/time".to_owned()));
}

#[test]
fn method_is_read_but_never_checked() {
    let req = "BREW /time HTTP/1.1\r\n".to_owned();
    assert_eq!(request_path(&req), Some("/time".to_owned()));
}

#[test]
fn extra_whitespace_between_tokens_is_skipped() {
    let req = "GET \t  /time   HTTP/1.1\r\n".to_owned();
    assert_eq!(request_path(&req), Some("/time".to_owned()));
}

#[test]
fn request_without_newline_is_one_line() {
    let req = "GET /x".to_owned();
    assert_eq!(request_path(&req), Some("/x".to_owned()));
}

#[test]
fn one_token_request_has_no_path() {
    assert_eq!(request_path(&"GET\r\n".to_owned()), None);
    assert_eq!(request_path(&"GET".to_owned()), None);
}

#[test]
fn empty_or_blank_request_has_no_path() {
    assert_eq!(request_path(&String::new()), None);
    assert_eq!(request_path(&"   \r\n".to_owned()), None);
}

#[test]
fn only_the_first_line_is_parsed() {
    let req = "GET\r\nPOST /smuggled HTTP/1.1\r\n".to_owned();
    assert_eq!(request_path(&req), None);
}

#[test]
fn zero_or_one_tokens_yield_400_with_fixed_body() {
    let reg = registry_with(vec![endpoint("/time", "date", "time", vec![])]);
    let req = "GET\r\n".to_owned();
    let resp = respond(plan_request(&reg, Some(&req)));
    assert_eq!(resp.status_code, 400);
    assert_eq!(resp.body, "{\"status\":\"error\",\"message\":\"Invalid request\"}");
    assert_eq!(resp.headers, vec!["Content-Type: application/json".to_owned()]);
}

#[test]
fn failed_read_yields_400_with_fixed_body() {
    let reg = registry_with(vec![]);
    let resp = respond(plan_request(&reg, None));
    assert_eq!(resp.status_code, 400);
    assert_eq!(resp.body, "{\"status\":\"error\",\"message\":\"Invalid request\"}");
}

#[test]
fn unknown_path_yields_404_with_fixed_body() {
    let reg = registry_with(vec![endpoint("/time", "date", "time", vec![])]);
    let req = "GET /missing HTTP/1.1\r\n".to_owned();
    let resp = respond(plan_request(&reg, Some(&req)));
    assert_eq!(resp.status_code, 404);
    assert_eq!(
        resp.body,
        "{\"status\":\"error\",\"message\":\"Endpoint not found\",\"note\":\"Use /endpoints to see available endpoints\"}"
    );
}

#[test]
fn lookup_is_exact_match_only() {
    let reg = registry_with(vec![endpoint("/time", "date", "time", vec![])]);
    let trailing = "GET /time/ HTTP/1.1\r\n".to_owned();
    assert_eq!(respond(plan_request(&reg, Some(&trailing))).status_code, 404);
    let query = "GET /time?tz=utc HTTP/1.1\r\n".to_owned();
    assert_eq!(respond(plan_request(&reg, Some(&query))).status_code, 404);
}

#[test]
fn configured_path_is_planned_for_execution() {
    let reg = registry_with(vec![
        endpoint("/time", "date", "time", vec![]),
        endpoint("/up", "uptime", "uptime", vec![]),
    ]);
    let req = "GET /up HTTP/1.1\r\n".to_owned();
    match plan_request(&reg, Some(&req)) {
        RequestPlan::Execute(i) => {
            assert_eq!(i, 1);
            assert_eq!(reg.endpoint_at(i).command, "uptime");
        }
        RequestPlan::Respond(_) => panic!("expected execution"),
    }
}

#[test]
fn endpoints_listing_maps_names_to_descriptions() {
    let reg = registry_with(vec![
        endpoint("/time", "date", "current time", vec![]),
        endpoint("/up", "uptime", "system uptime", vec![]),
    ]);
    let req = "GET /endpoints HTTP/1.1\r\n".to_owned();
    let resp = respond(plan_request(&reg, Some(&req)));
    assert_eq!(resp.status_code, 200);
    assert_eq!(resp.body, "{\"/time\":\"current time\",\"/up\":\"system uptime\"}");
}

#[test]
fn endpoints_listing_of_empty_registry() {
    let reg = registry_with(vec![]);
    let req = "GET /endpoints HTTP/1.1\r\n".to_owned();
    let resp = respond(plan_request(&reg, Some(&req)));
    assert_eq!(resp.status_code, 200);
    assert_eq!(resp.body, "{}");
}

#[test]
fn reserved_route_wins_over_configured_key() {
    let reg = registry_with(vec![endpoint("/endpoints", "ls", "shadowed", vec![])]);
    let req = "GET /endpoints HTTP/1.1\r\n".to_owned();
    let resp = respond(plan_request(&reg, Some(&req)));
    assert_eq!(resp.status_code, 200);
    assert_eq!(resp.body, "{\"/endpoints\":\"shadowed\"}");
}

#[test]
fn register_refuses_a_taken_route() {
    let mut reg = Registry::new();
    assert!(reg.register(endpoint("/a", "true", "first", vec![])));
    assert!(!reg.register(endpoint("/a", "false", "second", vec![])));
    assert_eq!(reg.len(), 1);
    assert_eq!(reg.endpoint_at(0).command, "true");
}

#[test]
fn time_scenario_success_body_and_headers() {
    let reg = registry_with(vec![endpoint("/time", "date", "current time", vec![])]);
    let req = "GET /time HTTP/1.1\r\n".to_owned();
    let i = match plan_request(&reg, Some(&req)) {
        RequestPlan::Execute(i) => i,
        RequestPlan::Respond(_) => panic!("expected execution"),
    };
    let outcome = ExecOutcome::Exited {
        success: true,
        stdout: "Thu Oct  9 12:00:00 UTC 2025\n".to_owned(),
        stderr: String::new(),
    };
    let resp = command_response(reg.endpoint_at(i), &outcome);
    assert_eq!(resp.status_code, 200);
    assert_eq!(
        resp.body,
        "{\"status\":\"success\",\"output\":\"Thu Oct  9 12:00:00 UTC 2025\",\"error\":null}"
    );
    assert_eq!(resp.headers, vec!["Content-Type: application/json".to_owned()]);
}

#[test]
fn fail_scenario_error_body() {
    let reg = registry_with(vec![endpoint("/fail", "false", "always fails", vec![])]);
    let req = "GET /fail HTTP/1.1\r\n".to_owned();
    let i = match plan_request(&reg, Some(&req)) {
        RequestPlan::Execute(i) => i,
        RequestPlan::Respond(_) => panic!("expected execution"),
    };
    let outcome = ExecOutcome::Exited {
        success: false,
        stdout: "ignored\n".to_owned(),
        stderr: "boom\n".to_owned(),
    };
    let resp = command_response(reg.endpoint_at(i), &outcome);
    assert_eq!(resp.status_code, 200);
    assert_eq!(resp.body, "{\"status\":\"error\",\"output\":\"\",\"error\":\"boom\"}");
}

#[test]
fn launch_failure_reports_the_description_untrimmed() {
    let outcome = ExecOutcome::LaunchFailed { message: "No such file or directory (os error 2)".to_owned() };
    let out = CommandOutput::from_outcome(&outcome);
    assert_eq!(out.status, "error");
    assert_eq!(out.output, "");
    assert_eq!(out.error.as_deref(), Some("No such file or directory (os error 2)"));
}

#[test]
fn success_discards_stderr_and_trims_stdout() {
    let outcome = ExecOutcome::Exited {
        success: true,
        stdout: " \t hello world \r\n".to_owned(),
        stderr: "warning: ignored\n".to_owned(),
    };
    let out = CommandOutput::from_outcome(&outcome);
    assert_eq!(out.status, "success");
    assert_eq!(out.output, "hello world");
    assert_eq!(out.error, None);
}

#[test]
fn failure_discards_stdout_and_trims_stderr() {
    let outcome = ExecOutcome::Exited {
        success: false,
        stdout: "partial output".to_owned(),
        stderr: "\n\u{a0} oops \u{2028}".to_owned(),
    };
    let out = CommandOutput::from_outcome(&outcome);
    assert_eq!(out.status, "error");
    assert_eq!(out.output, "");
    assert_eq!(out.error.as_deref(), Some("oops"));
}

#[test]
fn header_overrides_keep_order_and_single_content_type() {
    let headers = build_headers(&vec![
        ("X-A".to_owned(), "1".to_owned()),
        ("Content-Type".to_owned(), "text/plain".to_owned()),
    ]);
    assert_eq!(headers, vec!["X-A: 1".to_owned(), "Content-Type: text/plain".to_owned()]);
    let ct_lines = headers.iter().filter(|h| h.to_lowercase().starts_with("content-type:")).count();
    assert_eq!(ct_lines, 1);
}

#[test]
fn content_type_override_is_case_insensitive() {
    let headers = build_headers(&vec![("cOnTeNt-TyPe".to_owned(), "text/html".to_owned())]);
    assert_eq!(headers, vec!["Content-Type: text/html".to_owned()]);
}

#[test]
fn default_content_type_is_appended_last() {
    let headers = build_headers(&vec![
        ("X-A".to_owned(), "1".to_owned()),
        ("X-B".to_owned(), "2".to_owned()),
    ]);
    assert_eq!(
        headers,
        vec![
            "X-A: 1".to_owned(),
            "X-B: 2".to_owned(),
            "Content-Type: application/json".to_owned(),
        ]
    );
}

#[test]
fn wire_format_is_exact() {
    let resp = HttpResponse::new(
        200,
        vec!["Content-Type: application/json".to_owned()],
        "{\"a\":1}".to_owned(),
    );
    assert_eq!(
        resp.to_string(),
        "HTTP/1.1 200 OK\r\nContent-Type: application/json\r\nContent-Length: 7\r\nConnection: close\r\n\r\n{\"a\":1}"
    );
}

#[test]
fn wire_reason_phrases() {
    let mk = |code: u16| HttpResponse::new(code, vec![], String::new()).to_string();
    assert!(mk(200).starts_with("HTTP/1.1 200 OK\r\n"));
    assert!(mk(404).starts_with("HTTP/1.1 404 Not Found\r\n"));
    assert!(mk(500).starts_with("HTTP/1.1 500 Internal Server Error\r\n"));
    assert!(mk(201).starts_with("HTTP/1.1 201 Unknown\r\n"));
}

#[test]
fn content_length_is_the_byte_length_of_the_body() {
    let body = "caf\u{e9} \u{2014} ok".to_owned();
    let byte_len = body.len();
    assert_ne!(byte_len, body.chars().count());
    let resp = HttpResponse::new(200, vec!["X: y".to_owned()], body.clone());
    let wire = resp.to_string();
    let marker = format!("\r\nContent-Length: {}\r\n", byte_len);
    assert!(wire.contains(&marker));
    let tail_at = wire.find("\r\n\r\n").unwrap() + 4;
    assert_eq!(wire[tail_at..].len(), byte_len);
    assert_eq!(&wire[tail_at..], body);
}

#[test]
fn json_escaping_matches_a_json_parser() {
    let outcome = ExecOutcome::Exited {
        success: true,
        stdout: "say \"hi\"\\path\nline2\ttab\u{1}ctl".to_owned(),
        stderr: String::new(),
    };
    let reg = registry_with(vec![endpoint("/echo", "echo", "echoes", vec![])]);
    let resp = command_response(reg.endpoint_at(0), &outcome);
    let v: serde_json::Value = serde_json::from_str(&resp.body).unwrap();
    assert_eq!(v["status"], "success");
    assert_eq!(v["output"], "say \"hi\"\\path\nline2\ttab\u{1}ctl");
    assert!(v["error"].is_null());
}

#[test]
fn json_escaping_exact_forms() {
    let outcome = ExecOutcome::Exited {
        success: false,
        stdout: String::new(),
        stderr: "q\" b\\ n\n t\t c\u{1f}".to_owned(),
    };
    let reg = registry_with(vec![endpoint("/x", "x", "x", vec![])]);
    let resp = command_response(reg.endpoint_at(0), &outcome);
    assert_eq!(
        resp.body,
        "{\"status\":\"error\",\"output\":\"\",\"error\":\"q\\\" b\\\\ n\\n t\\t c\\u001f\"}"
    );
}

#[test]
fn listing_escapes_names_and_descriptions() {
    let reg = registry_with(vec![endpoint("/q", "true", "say \"hello\"", vec![])]);
    let resp = listing_response(&reg);
    assert_eq!(resp.body, "{\"/q\":\"say \\\"hello\\\"\"}");
    let v: serde_json::Value = serde_json::from_str(&resp.body).unwrap();
    assert_eq!(v["/q"], "say \"hello\"");
}

#[test]
fn fixed_responses_have_json_content_type() {
    assert_eq!(invalid_response().headers, vec!["Content-Type: application/json".to_owned()]);
    assert_eq!(not_found_response().headers, vec!["Content-Type: application/json".to_owned()]);
}

#[test]
fn full_wire_for_the_fail_scenario() {
    let reg = registry_with(vec![endpoint("/fail", "false", "fails", vec![])]);
    let outcome = ExecOutcome::Exited {
        success: false,
        stdout: String::new(),
        stderr: "boom".to_owned(),
    };
    let resp = command_response(reg.endpoint_at(0), &outcome);
    assert_eq!(
        resp.to_string(),
        "HTTP/1.1 200 OK\r\nContent-Type: application/json\r\nContent-Length: 45\r\nConnection: close\r\n\r\n{\"status\":\"error\",\"output\":\"\",\"error\":\"boom\"}"
    );
}

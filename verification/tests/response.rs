use emacs_i3::emacs::{EmacsClient, EmacsError};

fn client() -> EmacsClient {
    EmacsClient::new("/run/user/1000/emacs/server")
}

#[test]
fn new_keeps_socket_path() {
    assert_eq!(client().socket_path, "/run/user/1000/emacs/server");
}

#[test]
fn build_request_quotes_the_expression() {
    assert_eq!(
        EmacsClient::build_request("(+ 1 2)"),
        "-current-frame -eval (+&_1&_2) \n"
    );
}

#[test]
fn eval_outcome_returns_printed_value() {
    let r = client().eval_outcome("(a + 1)", Ok("-print (a&_+&_1)&n\n".to_string()));
    assert_eq!(r.unwrap(), "(a + 1)\n");
}

#[test]
fn eval_outcome_returns_evaluation_failure() {
    let r = client().eval_outcome("foo", Ok("-error void-variable&_foo\n".to_string()));
    match r {
        Err(EmacsError::EvaluationFailure(m)) => assert_eq!(m, "void-variable foo"),
        other => panic!("expected an evaluation failure, got {:?}", other),
    }
}

#[test]
fn eval_outcome_without_directive_is_a_protocol_violation() {
    let r = client().eval_outcome("(x)", Ok("-nonsense hello\nignored line\n".to_string()));
    match r {
        Err(EmacsError::ProtocolViolation {
            expression,
            response,
        }) => {
            assert_eq!(expression, "(x)");
            assert_eq!(response, "-nonsense hello\nignored line\n");
        }
        other => panic!("expected a protocol violation, got {:?}", other),
    }
}

#[test]
fn eval_outcome_on_transport_failure() {
    let r = client().eval_outcome("(x)", Err("connection refused".to_string()));
    match r {
        Err(EmacsError::TransportFailure(m)) => assert_eq!(m, "connection refused"),
        other => panic!("expected a transport failure, got {:?}", other),
    }
}

#[test]
fn first_directive_line_wins() {
    let r = EmacsClient::process_response("e", "-ignored\n-print first&_one\n-error later\n");
    assert_eq!(r.unwrap(), "first one");

    let r = EmacsClient::process_response("e", "-error bad&_news\n-print later\n");
    match r {
        Err(EmacsError::EvaluationFailure(m)) => assert_eq!(m, "bad news"),
        other => panic!("expected an evaluation failure, got {:?}", other),
    }
}

#[test]
fn directive_line_may_end_in_carriage_return() {
    let r = EmacsClient::process_response("e", "-print hi&_there\r\n");
    assert_eq!(r.unwrap(), "hi there");
}

#[test]
fn final_line_needs_no_newline() {
    let r = EmacsClient::process_response("e", "-print done");
    assert_eq!(r.unwrap(), "done");
}

#[test]
fn empty_response_is_a_protocol_violation() {
    let r = EmacsClient::process_response("(x)", "");
    assert!(matches!(r, Err(EmacsError::ProtocolViolation { .. })));
}

#[test]
fn truncated_escape_in_payload_is_a_protocol_violation() {
    let r = EmacsClient::process_response("(x)", "-print abc&\n");
    match r {
        Err(EmacsError::ProtocolViolation {
            expression,
            response,
        }) => {
            assert_eq!(expression, "(x)");
            assert_eq!(response, "-print abc&\n");
        }
        other => panic!("expected a protocol violation, got {:?}", other),
    }
}

#[test]
fn describe_renders_each_error() {
    let transport = EmacsError::TransportFailure("no such file".to_string());
    assert_eq!(transport.describe(), "no such file");

    let eval = EmacsError::EvaluationFailure("void-variable foo".to_string());
    assert_eq!(eval.describe(), "eval error: void-variable foo");

    let violation = EmacsError::ProtocolViolation {
        expression: "(x)".to_string(),
        response: "huh\n".to_string(),
    };
    assert_eq!(
        violation.describe(),
        "expected response to contain '-print' or '-error' on eval of: (x), got: huh\n"
    );
}

use ws_forwarder::rules::{parse_forward_rule, parse_forward_rules, ForwardRule, ForwardRuleError};

fn rule(local_port: u16, remote_port: u16) -> ForwardRule {
    ForwardRule { local_port, remote_port }
}

#[test]
fn plain_rule_reads() {
    assert_eq!(parse_forward_rule("8080:9000"), Ok(rule(8080, 9000)));
    assert_eq!(parse_forward_rule("0:65535"), Ok(rule(0, 65535)));
}

#[test]
fn ports_read_as_u16_from_str_does() {
    assert_eq!(parse_forward_rule("+80:+90"), Ok(rule(80, 90)));
    assert_eq!(parse_forward_rule("0080:00009000"), Ok(rule(80, 9000)));
    assert_eq!(parse_forward_rule("-1:90"), Err(ForwardRuleError::InvalidLocalPort("-1:90".to_string())));
    assert_eq!(parse_forward_rule("+:90"), Err(ForwardRuleError::InvalidLocalPort("+:90".to_string())));
    assert_eq!(parse_forward_rule(" 80:90"), Err(ForwardRuleError::InvalidLocalPort(" 80:90".to_string())));
    assert_eq!(parse_forward_rule("65536:90"), Err(ForwardRuleError::InvalidLocalPort("65536:90".to_string())));
    assert_eq!(parse_forward_rule("99999999999:1"), Err(ForwardRuleError::InvalidLocalPort("99999999999:1".to_string())));
    assert_eq!(parse_forward_rule("80:65536"), Err(ForwardRuleError::InvalidRemotePort("80:65536".to_string())));
    assert_eq!(parse_forward_rule("80:"), Err(ForwardRuleError::InvalidRemotePort("80:".to_string())));
    assert_eq!(parse_forward_rule("80:9x"), Err(ForwardRuleError::InvalidRemotePort("80:9x".to_string())));
    assert_eq!(parse_forward_rule(":"), Err(ForwardRuleError::InvalidLocalPort(":".to_string())));
}

#[test]
fn rule_needs_exactly_one_colon() {
    assert_eq!(parse_forward_rule("8080"), Err(ForwardRuleError::InvalidFormat("8080".to_string())));
    assert_eq!(parse_forward_rule(""), Err(ForwardRuleError::InvalidFormat("".to_string())));
    assert_eq!(parse_forward_rule("1:2:3"), Err(ForwardRuleError::InvalidFormat("1:2:3".to_string())));
    assert_eq!(parse_forward_rule("::"), Err(ForwardRuleError::InvalidFormat("::".to_string())));
}

#[test]
fn rule_list_reads_in_order() {
    let rules = vec!["8080:9000".to_string(), "3000:3001".to_string()];
    assert_eq!(parse_forward_rules(&rules), Ok(vec![rule(8080, 9000), rule(3000, 3001)]));
}

#[test]
fn rule_list_reports_first_bad_rule() {
    let rules = vec!["1:2".to_string(), "x:2".to_string(), "1:2:3".to_string()];
    assert_eq!(parse_forward_rules(&rules), Err(ForwardRuleError::InvalidLocalPort("x:2".to_string())));
}

#[test]
fn empty_rule_list_is_refused() {
    assert_eq!(parse_forward_rules(&vec![]), Err(ForwardRuleError::NoRules));
}

#[test]
fn error_messages() {
    assert_eq!(
        ForwardRuleError::InvalidFormat("a".to_string()).message(),
        "Invalid forward rule: a. Use format local_port:remote_port"
    );
    assert_eq!(ForwardRuleError::InvalidLocalPort("x:1".to_string()).message(), "Invalid local port in rule: x:1");
    assert_eq!(ForwardRuleError::InvalidRemotePort("1:x".to_string()).message(), "Invalid remote port in rule: 1:x");
    assert_eq!(
        ForwardRuleError::NoRules.message(),
        "No forwarding rules specified. Use --forward local:remote"
    );
}

#[test]
fn rule_text_reads_back() {
    for (l, r) in [(0u16, 0u16), (1, 65535), (8080, 9000), (65535, 10), (100, 1000)] {
        let text = format!("{}:{}", l, r);
        assert_eq!(parse_forward_rule(&text), Ok(rule(l, r)));
    }
}

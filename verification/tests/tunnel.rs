use peerlink::tunnel::{
    extract_url_and_domain, probe_seconds, probe_step, ProbeEvent, ProbeStage, ProbeStep,
};

fn found(line: &str) -> Option<(String, String)> {
    extract_url_and_domain(line)
}

fn pair(url: &str, domain: &str) -> Option<(String, String)> {
    Some((url.to_string(), domain.to_string()))
}

#[test]
fn address_on_the_usual_line() {
    assert_eq!(
        found("your url is: https://brave-cat-42.loca.lt"),
        pair("https://brave-cat-42.loca.lt", "brave-cat-42")
    );
}

#[test]
fn address_ends_at_the_first_blank() {
    assert_eq!(
        found("see https://abc.loca.lt now, or https://def.loca.lt"),
        pair("https://abc.loca.lt", "abc")
    );
    assert_eq!(found("https://abc.loca.lt/path?x=1 tail"), pair("https://abc.loca.lt/path?x=1", "abc"));
    assert_eq!(found("https://abc.loca.lt\t"), pair("https://abc.loca.lt", "abc"));
    assert_eq!(found("https://a.b.loca.lt.loca.lt"), pair("https://a.b.loca.lt.loca.lt", "a.b"));
}

#[test]
fn lines_without_an_address() {
    assert_eq!(found(""), None);
    assert_eq!(found("starting tunnel"), None);
    assert_eq!(found("http://abc.loca.lt"), None);
    assert_eq!(found("https://example.com"), None);
    assert_eq!(found("https://example.com then .loca.lt"), None);
    assert_eq!(found(".loca.lt before https://example.com"), None);
}

#[test]
fn empty_host_name_is_given_as_it_stands() {
    assert_eq!(found("https://.loca.lt"), pair("https://.loca.lt", ""));
}

#[test]
fn probe_reads_stderr_then_stdout() {
    assert_eq!(probe_seconds(ProbeStage::Stderr), 8);
    assert_eq!(probe_seconds(ProbeStage::Stdout), 5);
    assert!(matches!(
        probe_step(ProbeStage::Stderr, &ProbeEvent::Line("noise".to_string())),
        ProbeStep::Read(ProbeStage::Stderr)
    ));
    assert!(matches!(
        probe_step(ProbeStage::Stdout, &ProbeEvent::Line("noise".to_string())),
        ProbeStep::Read(ProbeStage::Stdout)
    ));
    assert!(matches!(
        probe_step(ProbeStage::Stderr, &ProbeEvent::End),
        ProbeStep::Read(ProbeStage::Stdout)
    ));
    assert!(matches!(probe_step(ProbeStage::Stdout, &ProbeEvent::End), ProbeStep::Failed));
    match probe_step(ProbeStage::Stdout, &ProbeEvent::Line("url https://x.loca.lt".to_string())) {
        ProbeStep::Found { url, domain } => {
            assert_eq!(url, "https://x.loca.lt");
            assert_eq!(domain, "x");
        }
        other => panic!("unexpected step {:?}", other),
    }
}

use pkgsolve::async_fns::{decimal_text, Outcome, Verdict, VerificationReport};
use pkgsolve::{PackageError, Packages};

fn response(status: u32, body: &str) -> Outcome {
    Outcome::Response { status, body: body.to_string() }
}

fn with_checksum(name: &str, checksum: &str) -> Packages {
    let mut p = Packages::new();
    let id = p.get_package_num_inserting(name);
    p.set_available_version(id, "1.0").unwrap();
    p.set_md5sum(id, checksum).unwrap();
    p
}

#[test]
fn matching_checksum_is_reported() {
    let mut p = with_checksum("P", "abc123");
    p.enq_verify_with_version("P", "1.0");
    let reports = p.execute(&vec![response(200, "abc123")]);
    assert_eq!(reports.len(), 1);
    assert_eq!(reports[0].package, "P");
    assert_eq!(reports[0].version, "1.0");
    assert_eq!(reports[0].verdict, Verdict::Checked { matches: true });
}

#[test]
fn differing_checksum_is_reported() {
    let mut p = with_checksum("P", "zzz");
    p.enq_verify_with_version("P", "1.0");
    let reports = p.execute(&vec![response(200, "abc123")]);
    assert_eq!(reports.len(), 1);
    assert_eq!(reports[0].verdict, Verdict::Checked { matches: false });
}

#[test]
fn http_error_is_reported_with_its_status() {
    let mut p = with_checksum("P", "abc123");
    p.enq_verify_with_version("P", "1.0");
    let reports = p.execute(&vec![response(404, "abc123")]);
    assert_eq!(reports.len(), 1);
    assert_eq!(reports[0].package, "P");
    assert_eq!(reports[0].version, "1.0");
    assert_eq!(reports[0].verdict, Verdict::HttpError { status: 404 });
}

#[test]
fn verdict_by_status() {
    let p = with_checksum("P", "abc123");
    assert_eq!(p.verdict("P", &response(200, "abc123")), Verdict::Checked { matches: true });
    assert_eq!(p.verdict("P", &response(200, "abc123\n")), Verdict::Checked { matches: false });
    assert_eq!(p.verdict("P", &response(200, "")), Verdict::Checked { matches: false });
    assert_eq!(p.verdict("P", &response(400, "abc123")), Verdict::HttpError { status: 400 });
    assert_eq!(p.verdict("P", &response(500, "")), Verdict::HttpError { status: 500 });
    assert_eq!(p.verdict("P", &response(399, "")), Verdict::UnexpectedStatus { status: 399 });
    assert_eq!(p.verdict("P", &response(204, "")), Verdict::UnexpectedStatus { status: 204 });
    assert_eq!(p.verdict("P", &response(0, "")), Verdict::UnexpectedStatus { status: 0 });
    assert_eq!(p.verdict("P", &Outcome::TransportFailure), Verdict::TransportError);
    assert_eq!(p.verdict("Q", &response(200, "abc123")), Verdict::NoChecksum);
    assert_eq!(p.verdict("Q", &response(404, "")), Verdict::HttpError { status: 404 });
}

#[test]
fn address_of_a_request() {
    let mut p = Packages::new();
    assert_eq!(
        p.enq_verify_with_version("bash", "5.1-2"),
        "http://ece459.patricklam.ca:4590/rest/v1/checksums/bash/5.1-2"
    );
    assert_eq!(
        p.enq_verify_with_version("libc6", "1:2.31-13+deb11u5"),
        "http://ece459.patricklam.ca:4590/rest/v1/checksums/libc6/1%3A2.31-13%2Bdeb11u5"
    );
    assert_eq!(
        p.enq_verify_with_version("x", "a b/c~d_e.f"),
        "http://ece459.patricklam.ca:4590/rest/v1/checksums/x/a%20b%2Fc~d_e.f"
    );
    assert_eq!(
        p.enq_verify_with_version("x", "\u{e9}"),
        "http://ece459.patricklam.ca:4590/rest/v1/checksums/x/%C3%A9"
    );
    assert_eq!(p.enq_verify_with_version("", ""), "http://ece459.patricklam.ca:4590/rest/v1/checksums//");
    assert_eq!(p.pending().len(), 5);
    assert_eq!(p.pending()[1].package, "libc6");
    assert_eq!(p.pending()[1].version, "1:2.31-13+deb11u5");
    assert_eq!(
        p.pending()[1].url,
        "http://ece459.patricklam.ca:4590/rest/v1/checksums/libc6/1%3A2.31-13%2Bdeb11u5"
    );
}

#[test]
fn server_can_be_changed() {
    let mut p = Packages::new();
    p.enq_verify_with_version("a", "1");
    p.set_server("localhost:8080");
    assert_eq!(p.enq_verify_with_version("b", "2"), "http://localhost:8080/rest/v1/checksums/b/2");
    assert_eq!(p.pending().len(), 2);
    assert_eq!(p.pending()[0].url, "http://ece459.patricklam.ca:4590/rest/v1/checksums/a/1");
    assert_eq!(p.pending()[1].url, "http://localhost:8080/rest/v1/checksums/b/2");
}

#[test]
fn enqueue_at_the_version_on_offer() {
    let mut p = with_checksum("P", "abc123");
    let bare = p.get_package_num_inserting("bare");
    assert_eq!(
        p.enq_verify("P"),
        Ok("http://ece459.patricklam.ca:4590/rest/v1/checksums/P/1.0".to_string())
    );
    assert_eq!(p.enq_verify("nope"), Err(PackageError::UnknownPackage));
    assert_eq!(p.enq_verify("bare"), Err(PackageError::MissingVersion { package: bare }));
    assert_eq!(p.pending().len(), 1);
    assert_eq!(p.pending()[0].package, "P");
    assert_eq!(p.pending()[0].version, "1.0");
}

#[test]
fn one_report_for_each_request() {
    let mut p = Packages::new();
    for (name, sum) in [("a", "1"), ("b", "2"), ("c", "3"), ("d", "4")] {
        let id = p.get_package_num_inserting(name);
        p.set_md5sum(id, sum).unwrap();
    }
    p.enq_verify_with_version("c", "3.0");
    p.enq_verify_with_version("a", "1.0");
    p.enq_verify_with_version("d", "4.0");
    p.enq_verify_with_version("a", "1.1");
    p.enq_verify_with_version("b", "2.0");
    let outcomes = vec![
        response(200, "3"),
        response(200, "x"),
        response(503, ""),
        Outcome::TransportFailure,
        response(301, ""),
    ];
    let reports = p.execute(&outcomes);
    assert_eq!(reports.len(), 5);
    let expected = [
        ("c", "3.0", Verdict::Checked { matches: true }),
        ("a", "1.0", Verdict::Checked { matches: false }),
        ("d", "4.0", Verdict::HttpError { status: 503 }),
        ("a", "1.1", Verdict::TransportError),
        ("b", "2.0", Verdict::UnexpectedStatus { status: 301 }),
    ];
    for i in 0..5 {
        assert_eq!(reports[i].package, expected[i].0);
        assert_eq!(reports[i].version, expected[i].1);
        assert_eq!(reports[i].verdict, expected[i].2);
    }
}

#[test]
fn queue_is_empty_after_execution() {
    let mut p = with_checksum("P", "abc123");
    p.enq_verify_with_version("P", "1.0");
    p.enq_verify_with_version("P", "2.0");
    assert_eq!(p.execute(&vec![response(200, "abc123"), response(200, "abc123")]).len(), 2);
    assert!(p.pending().is_empty());
    assert!(p.execute(&vec![response(200, "abc123")]).is_empty());
    p.enq_verify_with_version("P", "3.0");
    let again = p.execute(&vec![response(200, "abc123")]);
    assert_eq!(again.len(), 1);
    assert_eq!(again[0].version, "3.0");
    assert_eq!(p.get_available_debver("P"), Some("1.0"));
}

#[test]
fn request_without_outcome_counts_as_transport_failure() {
    let mut p = with_checksum("P", "abc123");
    p.enq_verify_with_version("P", "1.0");
    p.enq_verify_with_version("P", "2.0");
    let reports = p.execute(&vec![response(200, "abc123")]);
    assert_eq!(reports.len(), 2);
    assert_eq!(reports[0].verdict, Verdict::Checked { matches: true });
    assert_eq!(reports[1].verdict, Verdict::TransportError);
    assert_eq!(reports[1].version, "2.0");
}

fn report(verdict: Verdict) -> VerificationReport {
    VerificationReport { package: "bash".to_string(), version: "5.1-2".to_string(), verdict }
}

#[test]
fn report_lines() {
    assert_eq!(report(Verdict::Checked { matches: true }).message(), "verifying bash, matches: true");
    assert_eq!(
        report(Verdict::Checked { matches: false }).message(),
        "verifying bash, matches: false"
    );
    assert_eq!(
        report(Verdict::HttpError { status: 404 }).message(),
        "got error 404 on request for package bash version 5.1-2"
    );
    assert_eq!(
        report(Verdict::UnexpectedStatus { status: 302 }).message(),
        "got status 302 on request for package bash version 5.1-2"
    );
    assert_eq!(
        report(Verdict::TransportError).message(),
        "got no answer on request for package bash version 5.1-2"
    );
    assert_eq!(report(Verdict::NoChecksum).message(), "verifying bash: no checksum on record");
}

#[test]
fn decimal_notation() {
    assert_eq!(decimal_text(0), "0");
    assert_eq!(decimal_text(7), "7");
    assert_eq!(decimal_text(10), "10");
    assert_eq!(decimal_text(404), "404");
    assert_eq!(decimal_text(1000), "1000");
    assert_eq!(decimal_text(4294967295), "4294967295");
}

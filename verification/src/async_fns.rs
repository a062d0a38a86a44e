//! The queue of checksum verifications against a remote server.
//!
//! The library builds the requests, keeps them until they are carried out,
//! and judges what came back for each. Carrying them out is left to a
//! transport layer, which hands back one [`Outcome`] per request.

use vstd::prelude::*;
use vstd::string::StringExecFns;
use crate::packages::{Catalog, PackageError, Packages};

verus! {

/// Whether percent-encoding leaves a byte as it is: an ASCII letter or digit,
/// `-`, `.`, `_` or `~`.
pub open spec fn is_unreserved(byte: u8) -> bool {
    ||| 0x30 <= byte <= 0x39
    ||| 0x41 <= byte <= 0x5a
    ||| 0x61 <= byte <= 0x7a
    ||| byte == 0x2d
    ||| byte == 0x2e
    ||| byte == 0x5f
    ||| byte == 0x7e
}

/// The upper-case hexadecimal digit of a number below 16.
pub open spec fn hex_digit(nibble: int) -> char {
    seq!['0', '1', '2', '3', '4', '5', '6', '7', '8', '9', 'A', 'B', 'C', 'D', 'E', 'F'][nibble]
}

/// One byte, percent-encoded.
pub open spec fn percent_encoded_byte(byte: u8) -> Seq<char> {
    if is_unreserved(byte) {
        seq![byte as char]
    } else {
        seq!['%', hex_digit(byte as int / 16), hex_digit(byte as int % 16)]
    }
}

/// A sequence of bytes, percent-encoded byte by byte.
pub open spec fn percent_encoded_bytes(bytes: Seq<u8>) -> Seq<char>
    decreases bytes.len(),
{
    if bytes.len() == 0 {
        Seq::empty()
    } else {
        percent_encoded_byte(bytes[0]) + percent_encoded_bytes(bytes.drop_first())
    }
}

/// A text, percent-encoded: the bytes of its UTF-8 form, each encoded.
pub open spec fn percent_encoded(text: Seq<char>) -> Seq<char> {
    percent_encoded_bytes(vstd::utf8::encode_utf8(text))
}

/// Calls `urlencoding::encode`. Trusted: the result is the text with every
/// byte of its UTF-8 form percent-encoded, but for ASCII letters and digits
/// and `-`, `.`, `_`, `~`, which stay; the hexadecimal digits are upper case.
#[verifier::external_body]
pub(crate) fn url_encode(text: &str) -> (r: String)
    ensures
        r@ == percent_encoded(text@),
{
    urlencoding::encode(text).into_owned()
}

/// The address at which `server` gives the checksum of a package version.
pub open spec fn checksum_url(server: Seq<char>, package: Seq<char>, version: Seq<char>) -> Seq<char> {
    "http://"@ + server + "/rest/v1/checksums/"@ + package + "/"@ + percent_encoded(version)
}

/// A verification that has been asked for and not yet carried out.
#[derive(Debug)]
pub struct PendingVerification {
    pub package: String,
    pub version: String,
    pub url: String,
}

/// The mathematical value of a [`PendingVerification`].
pub struct Request {
    pub package: Seq<char>,
    pub version: Seq<char>,
    pub url: Seq<char>,
}

impl DeepView for PendingVerification {
    type V = Request;

    open spec fn deep_view(&self) -> Request {
        Request { package: self.package@, version: self.version@, url: self.url@ }
    }
}

/// What the transport layer got for one request.
#[derive(Debug)]
pub enum Outcome {
    /// The server answered.
    Response { status: u32, body: String },
    /// No answer came.
    TransportFailure,
}

/// The mathematical value of an [`Outcome`].
pub enum Reply {
    Response { status: u32, body: Seq<char> },
    TransportFailure,
}

impl DeepView for Outcome {
    type V = Reply;

    open spec fn deep_view(&self) -> Reply {
        match self {
            Outcome::Response { status, body } => Reply::Response { status: *status, body: body@ },
            Outcome::TransportFailure => Reply::TransportFailure,
        }
    }
}

/// How the outcome of one request was judged.
#[derive(Clone, Copy, Debug, PartialEq, Eq, Structural)]
pub enum Verdict {
    /// Status 200: whether the checksum received is the one on record.
    Checked { matches: bool },
    /// Status 200, and the catalog has no checksum for the package.
    NoChecksum,
    /// A status of 400 or more.
    HttpError { status: u32 },
    /// Any other status.
    UnexpectedStatus { status: u32 },
    /// No answer came.
    TransportError,
}

/// The report on one request: the package and version that it was made
/// for, and the verdict.
#[derive(Debug)]
pub struct VerificationReport {
    pub package: String,
    pub version: String,
    pub verdict: Verdict,
}

/// The mathematical value of a [`VerificationReport`].
pub struct Report {
    pub package: Seq<char>,
    pub version: Seq<char>,
    pub verdict: Verdict,
}

impl DeepView for VerificationReport {
    type V = Report;

    open spec fn deep_view(&self) -> Report {
        Report { package: self.package@, version: self.version@, verdict: self.verdict }
    }
}

/// The decimal digit for a number below ten.
pub open spec fn digit(d: int) -> char {
    seq!['0', '1', '2', '3', '4', '5', '6', '7', '8', '9'][d]
}

/// A number in decimal notation, without leading zeros.
pub open spec fn decimal(n: nat) -> Seq<char>
    decreases n,
{
    if n < 10 {
        seq![digit(n as int)]
    } else {
        decimal(n / 10).push(digit((n % 10) as int))
    }
}

/// The line that tells of a report.
pub open spec fn report_line(report: Report) -> Seq<char> {
    match report.verdict {
        Verdict::Checked { matches } => "verifying "@ + report.package + ", matches: "@ + if matches {
            "true"@
        } else {
            "false"@
        },
        Verdict::NoChecksum => "verifying "@ + report.package + ": no checksum on record"@,
        Verdict::HttpError { status } => "got error "@ + decimal(status as nat)
            + " on request for package "@ + report.package + " version "@ + report.version,
        Verdict::UnexpectedStatus { status } => "got status "@ + decimal(status as nat)
            + " on request for package "@ + report.package + " version "@ + report.version,
        Verdict::TransportError => "got no answer on request for package "@ + report.package
            + " version "@ + report.version,
    }
}

/// The text of one decimal digit.
fn digit_text(d: u32) -> (r: &'static str)
    requires
        d < 10,
    ensures
        r@ == seq![digit(d as int)],
{
    proof {
        reveal_strlit("0");
        reveal_strlit("1");
        reveal_strlit("2");
        reveal_strlit("3");
        reveal_strlit("4");
        reveal_strlit("5");
        reveal_strlit("6");
        reveal_strlit("7");
        reveal_strlit("8");
        reveal_strlit("9");
    }
    let r = if d == 0 {
        "0"
    } else if d == 1 {
        "1"
    } else if d == 2 {
        "2"
    } else if d == 3 {
        "3"
    } else if d == 4 {
        "4"
    } else if d == 5 {
        "5"
    } else if d == 6 {
        "6"
    } else if d == 7 {
        "7"
    } else if d == 8 {
        "8"
    } else {
        "9"
    };
    assert(r@ =~= seq![digit(d as int)]);
    r
}

/// A number in decimal notation.
pub fn decimal_text(n: u32) -> (r: String)
    ensures
        r@ == decimal(n as nat),
    decreases n,
{
    if n < 10 {
        String::from_str(digit_text(n))
    } else {
        let mut text = decimal_text(n / 10);
        text.append(digit_text(n % 10));
        assert(text@ =~= decimal(n as nat));
        text
    }
}

impl VerificationReport {
    /// The line that tells of this report: for a checksum that was compared,
    /// whether it matches; for a failure, the status, the package and the
    /// version.
    pub fn message(&self) -> (r: String)
        ensures
            r@ == report_line(self.deep_view()),
    {
        match self.verdict {
            Verdict::Checked { matches } => {
                let mut line = String::from_str("verifying ");
                line.append(self.package.as_str());
                line.append(", matches: ");
                line.append(if matches { "true" } else { "false" });
                line
            },
            Verdict::NoChecksum => {
                let mut line = String::from_str("verifying ");
                line.append(self.package.as_str());
                line.append(": no checksum on record");
                line
            },
            Verdict::HttpError { status } => {
                let mut line = String::from_str("got error ");
                line.append(decimal_text(status).as_str());
                line.append(" on request for package ");
                line.append(self.package.as_str());
                line.append(" version ");
                line.append(self.version.as_str());
                line
            },
            Verdict::UnexpectedStatus { status } => {
                let mut line = String::from_str("got status ");
                line.append(decimal_text(status).as_str());
                line.append(" on request for package ");
                line.append(self.package.as_str());
                line.append(" version ");
                line.append(self.version.as_str());
                line
            },
            Verdict::TransportError => {
                let mut line = String::from_str("got no answer on request for package ");
                line.append(self.package.as_str());
                line.append(" version ");
                line.append(self.version.as_str());
                line
            },
        }
    }
}

impl Catalog {
    /// The checksum on record for the package called `name`.
    pub open spec fn checksum_of(self, name: Seq<char>) -> Option<Seq<char>> {
        match self.id_of(name) {
            Some(id) => self.checksum_at(id),
            None => None,
        }
    }

    /// The verdict on what came back for a request about `package`.
    pub open spec fn verdict(self, package: Seq<char>, reply: Reply) -> Verdict {
        match reply {
            Reply::TransportFailure => Verdict::TransportError,
            Reply::Response { status, body } => if status == 200 {
                match self.checksum_of(package) {
                    Some(recorded) => Verdict::Checked { matches: body == recorded },
                    None => Verdict::NoChecksum,
                }
            } else if status >= 400 {
                Verdict::HttpError { status }
            } else {
                Verdict::UnexpectedStatus { status }
            },
        }
    }

    /// The report on a request, given what came back for it.
    pub open spec fn report(self, request: Request, reply: Reply) -> Report {
        Report {
            package: request.package,
            version: request.version,
            verdict: self.verdict(request.package, reply),
        }
    }

    /// The reply to request `i`: a transport failure where `replies` has
    /// none for it.
    pub open spec fn reply_to(replies: Seq<Reply>, i: int) -> Reply {
        if 0 <= i < replies.len() {
            replies[i]
        } else {
            Reply::TransportFailure
        }
    }

    /// The reports on `pending`, one for each request and in their order,
    /// request `i` judged by reply `i`.
    pub open spec fn reports(self, pending: Seq<Request>, replies: Seq<Reply>) -> Seq<Report> {
        Seq::new(pending.len(), |i: int| self.report(pending[i], Self::reply_to(replies, i)))
    }
}

/// Every request gets one report, in the place of the request and for the
/// package and version that the request was made for, whatever came back.
pub proof fn lemma_one_report_each(c: Catalog, pending: Seq<Request>, replies: Seq<Reply>)
    ensures
        c.reports(pending, replies).len() == pending.len(),
        forall|i: int|
            0 <= i < pending.len() ==> (#[trigger] c.reports(pending, replies)[i]).package
                == pending[i].package && c.reports(pending, replies)[i].version
                == pending[i].version,
{
}

/// The mathematical value of an [`AsyncState`].
#[verifier::ext_equal]
pub struct Queue {
    pub server: Seq<char>,
    pub pending: Seq<Request>,
}

/// The server that checksums are asked of, and the requests that wait.
pub struct AsyncState {
    server: String,
    pending: Vec<PendingVerification>,
}

impl View for AsyncState {
    type V = Queue;

    closed spec fn view(&self) -> Queue {
        Queue { server: self.server@, pending: self.pending.deep_view() }
    }
}

impl AsyncState {
    /// The server that a new queue asks.
    pub open spec fn default_server() -> Seq<char> {
        "ece459.patricklam.ca:4590"@
    }

    /// The value of a new queue.
    pub open spec fn initial() -> Queue {
        Queue { server: Self::default_server(), pending: Seq::empty() }
    }

    /// An empty queue for the default server.
    pub fn new() -> (r: AsyncState)
        ensures
            r@ == Self::initial(),
    {
        let r = AsyncState {
            server: String::from_str("ece459.patricklam.ca:4590"),
            pending: Vec::new(),
        };
        assert(r@ =~~= Self::initial());
        r
    }

    /// A queue without server or requests, to stand in for one that is
    /// being worked on.
    fn blank() -> (r: AsyncState)
        ensures
            r@ == (Queue { server: Seq::empty(), pending: Seq::empty() }),
    {
        let r = AsyncState { server: String::new(), pending: Vec::new() };
        assert(r@ =~~= (Queue { server: Seq::empty(), pending: Seq::empty() }));
        r
    }
}

impl Packages {
    /// The queue of verifications.
    pub open spec fn queue(&self) -> Queue {
        self.async_view()@
    }

    /// Makes `new_server` the server that later requests are made to.
    pub fn set_server(&mut self, new_server: &str)
        ensures
            final(self)@ == old(self)@,
            final(self).queue() == (Queue { server: new_server@, ..old(self).queue() }),
    {
        let mut state = self.replace_async_state(AsyncState::blank());
        state.server = String::from_str(new_server);
        proof {
            assert(state@ =~~= (Queue { server: new_server@, ..old(self).queue() }));
        }
        let _ = self.replace_async_state(state);
    }

    /// The requests that wait, oldest first.
    pub fn pending(&self) -> (r: &Vec<PendingVerification>)
        ensures
            r.deep_view() == self.queue().pending,
    {
        &self.async_state().pending
    }

    /// Puts a request for the checksum of `version` of package `pkg` at the
    /// end of the queue, and gives its address. Nothing is sent.
    pub fn enq_verify_with_version(&mut self, pkg: &str, version: &str) -> (url: String)
        ensures
            final(self)@ == old(self)@,
            url@ == checksum_url(old(self).queue().server, pkg@, version@),
            final(self).queue() == (Queue {
                pending: old(self).queue().pending.push(
                    Request { package: pkg@, version: version@, url: url@ },
                ),
                ..old(self).queue()
            }),
    {
        let mut state = self.replace_async_state(AsyncState::blank());
        let mut url = String::from_str("http://");
        url.append(state.server.as_str());
        url.append("/rest/v1/checksums/");
        url.append(pkg);
        url.append("/");
        let encoded = url_encode(version);
        url.append(encoded.as_str());
        let request = PendingVerification {
            package: String::from_str(pkg),
            version: String::from_str(version),
            url: url.clone(),
        };
        state.pending.push(request);
        proof {
            assert(state@ =~~= (Queue {
                pending: old(self).queue().pending.push(
                    Request { package: pkg@, version: version@, url: url@ },
                ),
                ..old(self).queue()
            }));
        }
        let _ = self.replace_async_state(state);
        url
    }

    /// Puts a request for the checksum of package `pkg`, at the version on
    /// offer, at the end of the queue, and gives its address. An error, and
    /// no request, where the catalog has no such package or no version of it.
    pub fn enq_verify(&mut self, pkg: &str) -> (r: Result<String, PackageError>)
        requires
            old(self).wf(),
        ensures
            final(self)@ == old(self)@,
            match old(self)@.id_of(pkg@) {
                None => r == Err::<String, PackageError>(PackageError::UnknownPackage)
                    && final(self).queue() == old(self).queue(),
                Some(id) => match old(self)@.available[id as int] {
                    None => r == Err::<String, PackageError>(
                        PackageError::MissingVersion { package: id },
                    ) && final(self).queue() == old(self).queue(),
                    Some(version) => r is Ok && r->Ok_0@ == checksum_url(
                        old(self).queue().server,
                        pkg@,
                        version,
                    ) && final(self).queue() == (Queue {
                        pending: old(self).queue().pending.push(
                            Request { package: pkg@, version: version, url: r->Ok_0@ },
                        ),
                        ..old(self).queue()
                    }),
                },
            },
    {
        let id = match self.get_package_num(pkg) {
            None => {
                return Err(PackageError::UnknownPackage);
            },
            Some(id) => id,
        };
        let version = match self.available_version(id) {
            None => {
                return Err(PackageError::MissingVersion { package: id });
            },
            Some(version) => String::from_str(version),
        };
        Ok(self.enq_verify_with_version(pkg, version.as_str()))
    }

    /// The checksum on record for the package called `package_name`.
    pub fn checksum_of(&self, package_name: &str) -> (r: Option<&str>)
        requires
            self.wf(),
        ensures
            crate::packages::opt_chars(r) == self@.checksum_of(package_name@),
    {
        match self.get_package_num(package_name) {
            Some(id) => self.md5sum(id),
            None => None,
        }
    }

    /// The verdict on what came back for a request about package `pkg`:
    /// for status 200 whether the body is the checksum on record, for a
    /// status of 400 or more the failure with that status.
    pub fn verdict(&self, pkg: &str, outcome: &Outcome) -> (r: Verdict)
        requires
            self.wf(),
        ensures
            r == self@.verdict(pkg@, outcome.deep_view()),
    {
        match outcome {
            Outcome::TransportFailure => Verdict::TransportError,
            Outcome::Response { status, body } => {
                if *status == 200 {
                    match self.checksum_of(pkg) {
                        Some(recorded) => Verdict::Checked {
                            matches: crate::version::str_eq(body.as_str(), recorded),
                        },
                        None => Verdict::NoChecksum,
                    }
                } else if *status >= 400 {
                    Verdict::HttpError { status: *status }
                } else {
                    Verdict::UnexpectedStatus { status: *status }
                }
            },
        }
    }

    /// Judges what came back for the requests that wait, and empties the
    /// queue. `outcomes` holds one outcome for each request, in the order of
    /// the queue; a request without one counts as a transport failure. The
    /// result holds one report for each request, in the same order.
    pub fn execute(&mut self, outcomes: &Vec<Outcome>) -> (r: Vec<VerificationReport>)
        requires
            old(self).wf(),
        ensures
            final(self)@ == old(self)@,
            final(self).queue() == (Queue { pending: Seq::empty(), ..old(self).queue() }),
            r.deep_view() == old(self)@.reports(old(self).queue().pending, outcomes.deep_view()),
            r.len() == old(self).queue().pending.len(),
    {
        let mut state = self.replace_async_state(AsyncState::blank());
        let mut pending: Vec<PendingVerification> = Vec::new();
        std::mem::swap(&mut pending, &mut state.pending);
        proof {
            assert(state@ =~~= (Queue { pending: Seq::empty(), ..old(self).queue() }));
        }
        let _ = self.replace_async_state(state);
        let ghost requests = pending.deep_view();
        let ghost replies = outcomes.deep_view();
        let failure = Outcome::TransportFailure;
        let mut reports: Vec<VerificationReport> = Vec::new();
        let mut i: usize = 0;
        while i < pending.len()
            invariant
                i <= pending.len(),
                self.wf(),
                requests == pending.deep_view(),
                replies == outcomes.deep_view(),
                failure.deep_view() == Reply::TransportFailure,
                reports.len() == i,
                forall|k: int|
                    0 <= k < i ==> (#[trigger] reports[k]).deep_view() == self@.report(
                        requests[k],
                        Catalog::reply_to(replies, k),
                    ),
            decreases pending.len() - i,
        {
            let request = &pending[i];
            let outcome = if i < outcomes.len() {
                &outcomes[i]
            } else {
                &failure
            };
            let verdict = self.verdict(request.package.as_str(), outcome);
            reports.push(
                VerificationReport {
                    package: request.package.clone(),
                    version: request.version.clone(),
                    verdict,
                },
            );
            i += 1;
        }
        assert(reports.deep_view() =~= self@.reports(requests, replies));
        reports
    }
}

} // verus!

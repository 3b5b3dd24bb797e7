//! What the log of a deployment tells.

use crate::phrase::{cat3, cat4, cat5, keep_last, last_items};
use crate::repl::editor::{text_lines, text_lines_of};
use crate::text::{
    chars_of, contains_text, decimal, decimal_spec, join_spec, join_texts, occurs_at, occurs_in,
    texts,
};
use vstd::prelude::*;

verus! {

/// How often a text occurs in another from a place on, counted without overlaps.
pub open spec fn occurrences(s: Seq<char>, part: Seq<char>, from: int) -> nat
    decreases s.len() - from,
{
    if from < 0 || part.len() == 0 || from + part.len() > s.len() {
        0
    } else if occurs_at(s, part, from) {
        1 + occurrences(s, part, from + part.len())
    } else {
        occurrences(s, part, from + 1)
    }
}

/// How often a text occurs in another, counted without overlaps.
pub fn count_text(s: &str, part: &str) -> (r: usize)
    requires
        part@.len() > 0,
    ensures
        r == occurrences(s@, part@, 0),
{
    let cs = chars_of(s);
    let ps = chars_of(part);
    let mut n: usize = 0;
    let mut i: usize = 0;
    while i < cs.len() && ps.len() <= cs.len() - i
        invariant
            i <= cs@.len(),
            n <= i,
            cs@ == s@,
            ps@ == part@,
            part@.len() > 0,
            occurrences(s@, part@, 0) == n + occurrences(s@, part@, i as int),
        decreases cs@.len() - i,
    {
        if crate::text::stands_at(cs.as_slice(), ps.as_slice(), i) {
            n = n + 1;
            i = i + ps.len();
        } else {
            i = i + 1;
        }
    }
    n
}

/// How the sync on a server stands.
#[derive(Clone, Copy, Debug, PartialEq, Eq, Structural)]
pub enum CdcState {
    /// This many profiles take changes as they happen.
    Live(usize),
    /// It failed; whether the database may be out of reach.
    Failed { out_of_reach: bool },
    Waiting,
}

/// Whether a log tells that the sync failed.
pub open spec fn tells_failure(logs: Seq<char>) -> bool {
    occurs_in(logs, "staged startup aborted"@) || (occurs_in(logs, "CDC worker"@) && occurs_in(
        logs,
        "failed"@,
    )) || occurs_in(logs, "request_engine_shutdown_from_cdc"@)
}

/// How the sync stands by a log: it is live when as many profiles as are expected
/// have finished their last phase.
pub open spec fn state_of(logs: Seq<char>, expected: nat) -> CdcState {
    let finished = occurrences(logs, "finished Phase 4"@, 0);
    if finished >= expected {
        CdcState::Live(finished as usize)
    } else if tells_failure(logs) {
        CdcState::Failed {
            out_of_reach: occurs_in(logs, "Connection timed out"@) || occurs_in(
                logs,
                "Connection timeout"@,
            ),
        }
    } else {
        CdcState::Waiting
    }
}

/// How the sync stands by a log.
pub fn cdc_state(logs: &str, expected: usize) -> (r: CdcState)
    ensures
        r == state_of(logs@, expected as nat),
{
    proof {
        reveal_strlit("finished Phase 4");
    }
    let finished = count_text(logs, "finished Phase 4");
    if finished >= expected {
        return CdcState::Live(finished);
    }
    if contains_text(logs, "staged startup aborted") || (contains_text(logs, "CDC worker")
        && contains_text(logs, "failed")) || contains_text(
        logs,
        "request_engine_shutdown_from_cdc",
    ) {
        return CdcState::Failed {
            out_of_reach: contains_text(logs, "Connection timed out") || contains_text(
                logs,
                "Connection timeout",
            ),
        };
    }
    CdcState::Waiting
}

/// What is shown while the sync is waited for.
pub open spec fn waiting_text(expected: nat, attempt: nat, most: nat) -> Seq<char> {
    "Waiting for CDC live replication ("@ + decimal_spec(expected) + " profile(s))… ("@
        + decimal_spec(attempt) + ("/"@ + decimal_spec(most) + ")"@)
}

/// What is shown while the sync is waited for.
pub fn waiting_line(expected: usize, attempt: u32, most: u32) -> (r: String)
    ensures
        r@ == waiting_text(expected as nat, attempt as nat, most as nat),
{
    let e = decimal(expected as u64);
    let a = decimal(attempt as u64);
    let m = decimal(most as u64);
    let mut s = cat4(
        "Waiting for CDC live replication (",
        e.as_str(),
        " profile(s))… (",
        a.as_str(),
    );
    let t = cat3("/", m.as_str(), ")");
    s.append(t.as_str());
    s
}

/// The hint where the database may be out of reach.
pub open spec fn reach_hint() -> Seq<char> {
    "\n\nLikely cause: the Bittice SG cannot reach the RDS on its MySQL port.\nCheck that AmazonRDSReadOnlyAccess + AmazonEC2FullAccess gave Terraform permission to add the inbound rule on the RDS SG, and that the RDS is in the same VPC the wizard placed Bittice in."@
}

/// What is said where the sync failed.
pub open spec fn failure_text(out_of_reach: bool, key: Seq<char>, ip: Seq<char>) -> Seq<char> {
    "CDC did not start on the server."@ + (if out_of_reach {
        reach_hint()
    } else {
        Seq::empty()
    }) + ("\nssh -i "@ + key + " ubuntu@"@ + ip + " 'docker logs bittice 2>&1 | tail -n 80'"@)
}

/// What is said where the sync failed.
pub fn failure_message(out_of_reach: bool, key: &str, ip: &str) -> (r: String)
    ensures
        r@ == failure_text(out_of_reach, key@, ip@),
{
    let mut s = "CDC did not start on the server.".to_owned();
    if out_of_reach {
        s.append(
            "\n\nLikely cause: the Bittice SG cannot reach the RDS on its MySQL port.\nCheck that AmazonRDSReadOnlyAccess + AmazonEC2FullAccess gave Terraform permission to add the inbound rule on the RDS SG, and that the RDS is in the same VPC the wizard placed Bittice in.",
        );
    }
    let t = cat5("\nssh -i ", key, " ubuntu@", ip, " 'docker logs bittice 2>&1 | tail -n 80'");
    assert(!out_of_reach ==> s@ =~= "CDC did not start on the server."@ + Seq::<char>::empty());
    s.append(t.as_str());
    s
}

/// What is said where the sync took too long.
pub open spec fn timeout_text(expected: nat, key: Seq<char>, ip: Seq<char>) -> Seq<char> {
    "Timed out waiting for live CDC ("@ + decimal_spec(expected)
        + " profile(s)). The API may serve a static mirror only.\nssh -i "@ + (key
        + " ubuntu@"@ + ip + " 'docker logs -f bittice'"@)
}

/// What is said where the sync took too long.
pub fn timeout_message(expected: usize, key: &str, ip: &str) -> (r: String)
    ensures
        r@ == timeout_text(expected as nat, key@, ip@),
{
    let e = decimal(expected as u64);
    let mut s = cat3(
        "Timed out waiting for live CDC (",
        e.as_str(),
        " profile(s)). The API may serve a static mirror only.\nssh -i ",
    );
    let t = cat4(key, " ubuntu@", ip, " 'docker logs -f bittice'");
    s.append(t.as_str());
    s
}

/// What is to be done after a look at something that is waited for.
#[derive(Debug)]
pub enum WatchStep {
    /// Look again after five seconds.
    Again,
    /// It is there, with what is said.
    Ready(String),
    /// It is given up, with what is said.
    GaveUp(String),
}

/// What is to be done, by its text.
pub enum WatchView {
    Again,
    Ready(Seq<char>),
    GaveUp(Seq<char>),
}

impl View for WatchStep {
    type V = WatchView;

    open spec fn view(&self) -> WatchView {
        match self {
            WatchStep::Again => WatchView::Again,
            WatchStep::Ready(s) => WatchView::Ready(s@),
            WatchStep::GaveUp(s) => WatchView::GaveUp(s@),
        }
    }
}

/// How often the sync is looked at.
pub const CDC_LOOKS: u32 = 180;

/// What is to be done after so many looks at the log of the sync.
pub open spec fn sync_looked(
    looks: nat,
    expected: nat,
    logs: Seq<char>,
    key: Seq<char>,
    ip: Seq<char>,
) -> WatchView {
    match state_of(logs, expected) {
        CdcState::Live(n) => WatchView::Ready(live_text(n as nat)),
        CdcState::Failed { out_of_reach } => WatchView::GaveUp(
            failure_text(out_of_reach, key, ip),
        ),
        CdcState::Waiting => if looks < CDC_LOOKS {
            WatchView::Again
        } else {
            WatchView::GaveUp(timeout_text(expected, key, ip))
        },
    }
}

/// What is said where the sync is live.
pub open spec fn live_text(profiles: nat) -> Seq<char> {
    "CDC live — "@ + decimal_spec(profiles)
        + " profile(s) reached Phase 4 (real-time replication)."@
}

/// The wait for the sync of profiles.
pub struct CdcWatch {
    pub expected: usize,
    /// How often one has looked.
    pub looks: u32,
}

impl CdcWatch {
    /// Before the first look; nothing where no profile is expected.
    pub fn begin(expected: usize) -> (r: Option<CdcWatch>)
        ensures
            match r {
                Some(w) => expected > 0 && w.expected == expected && w.looks == 0,
                None => expected == 0,
            },
    {
        if expected == 0 {
            None
        } else {
            Some(CdcWatch { expected, looks: 0 })
        }
    }

    /// What is shown during the next look.
    pub fn line(&self) -> (r: String)
        requires
            self.looks < CDC_LOOKS,
        ensures
            r@ == waiting_text(self.expected as nat, (self.looks + 1) as nat, CDC_LOOKS as nat),
    {
        waiting_line(self.expected, self.looks + 1, CDC_LOOKS)
    }

    /// Looks at the log once more.
    pub fn look(&mut self, logs: &str, key: &str, ip: &str) -> (r: WatchStep)
        requires
            old(self).looks < CDC_LOOKS,
        ensures
            final(self).expected == old(self).expected,
            final(self).looks == old(self).looks + 1,
            r@ == sync_looked(
                final(self).looks as nat,
                old(self).expected as nat,
                logs@,
                key@,
                ip@,
            ),
    {
        self.looks = self.looks + 1;
        match cdc_state(logs, self.expected) {
            CdcState::Live(n) => {
                let d = decimal(n as u64);
                WatchStep::Ready(
                    cat3(
                        "CDC live — ",
                        d.as_str(),
                        " profile(s) reached Phase 4 (real-time replication).",
                    ),
                )
            },
            CdcState::Failed { out_of_reach } => WatchStep::GaveUp(
                failure_message(out_of_reach, key, ip),
            ),
            CdcState::Waiting => if self.looks < CDC_LOOKS {
                WatchStep::Again
            } else {
                WatchStep::GaveUp(timeout_message(self.expected, key, ip))
            },
        }
    }
}

/// How often a machine is knocked at.
pub const SSH_LOOKS: u32 = 20;

/// What is said where a machine does not answer.
pub open spec fn silent_text(key: Seq<char>, ip: Seq<char>) -> Seq<char> {
    "Could not connect via SSH to "@ + ip
        + ".\n\nTroubleshooting:\n1. Test manually: ssh -i "@ + key
        + " -o StrictHostKeyChecking=no ubuntu@"@ + (ip
        + "\n2. Verify the instance is Running in the AWS Console\n3. Check the security group allows port 22 from your IP\n4. Make sure this .pem matches the key used when provisioning"@)
}

/// What is to be done after a machine was knocked at so often.
pub open spec fn knocked(looks: nat, answers: bool, key: Seq<char>, ip: Seq<char>) -> WatchView {
    if answers {
        WatchView::Ready("SSH ready."@)
    } else if looks < SSH_LOOKS {
        WatchView::Again
    } else {
        WatchView::GaveUp(silent_text(key, ip))
    }
}

/// The wait for a machine.
pub struct SshWatch {
    /// How often one has knocked.
    pub looks: u32,
}

impl SshWatch {
    /// Before the first knock.
    pub fn new() -> (r: SshWatch)
        ensures
            r.looks == 0,
    {
        SshWatch { looks: 0 }
    }

    /// What is shown during the next knock.
    pub fn line(&self, ip: &str) -> (r: String)
        requires
            self.looks < SSH_LOOKS,
        ensures
            r@ == "Waiting for SSH on "@ + ip@ + "… ("@ + decimal_spec((self.looks + 1) as nat)
                + "/20)"@,
    {
        let n = decimal((self.looks + 1) as u64);
        cat5("Waiting for SSH on ", ip, "… (", n.as_str(), "/20)")
    }

    /// Takes in whether the machine answered.
    pub fn look(&mut self, answers: bool, key: &str, ip: &str) -> (r: WatchStep)
        requires
            old(self).looks < SSH_LOOKS,
        ensures
            final(self).looks == old(self).looks + 1,
            r@ == knocked(final(self).looks as nat, answers, key@, ip@),
    {
        self.looks = self.looks + 1;
        if answers {
            WatchStep::Ready("SSH ready.".to_owned())
        } else if self.looks < SSH_LOOKS {
            WatchStep::Again
        } else {
            let mut s = cat5(
                "Could not connect via SSH to ",
                ip,
                ".\n\nTroubleshooting:\n1. Test manually: ssh -i ",
                key,
                " -o StrictHostKeyChecking=no ubuntu@",
            );
            s.append(ip);
            s.append(
                "\n2. Verify the instance is Running in the AWS Console\n3. Check the security group allows port 22 from your IP\n4. Make sure this .pem matches the key used when provisioning",
            );
            assert(s@ =~= silent_text(key@, ip@));
            WatchStep::GaveUp(s)
        }
    }
}

/// The end of what a command printed: at most twenty-five lines.
pub open spec fn printed_end(text: Seq<char>) -> Seq<char> {
    let lines = text_lines(text);
    if lines.len() == 0 {
        "(no output captured)"@
    } else {
        join_spec(last_items(lines, 25), "\n"@)
    }
}

/// The end of what a command printed.
pub fn output_tail(text: &str) -> (r: String)
    ensures
        r@ == printed_end(text@),
{
    let lines = text_lines_of(text);
    assert(texts(lines@).len() == lines@.len());
    if lines.len() == 0 {
        return "(no output captured)".to_owned();
    }
    let last = keep_last(&lines, 25);
    join_texts(last.as_slice(), "\n")
}

/// With no profile expected the sync is live whatever the log tells.
pub proof fn law_nothing_expected(logs: Seq<char>)
    ensures
        state_of(logs, 0) is Live,
{
}

/// A wait comes to an end: after the last look nothing is looked at again.
pub proof fn law_waits_end(
    expected: nat,
    logs: Seq<char>,
    answers: bool,
    key: Seq<char>,
    ip: Seq<char>,
)
    ensures
        !(sync_looked(CDC_LOOKS as nat, expected, logs, key, ip) is Again),
        !(knocked(SSH_LOOKS as nat, answers, key, ip) is Again),
{
}

} // verus!

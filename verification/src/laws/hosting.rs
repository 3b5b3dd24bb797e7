//! What holds of a deployment on its way: the questions before it, the image and the tools
//! that it needs, and the waiting for the machine and for its data.

use crate::deploy::image::{
    cache_folder, image_of, plain_run, platform, repository, told_lines, PlatformError,
};
use crate::deploy::names::{grpc_domain, host_fault, name_fault};
use crate::deploy::placement::RdsPlacement;
use crate::deploy::watch::{knocked, occurrences, state_of, sync_looked, CdcState};
use crate::deploy::wizard::{
    is_api_key, missing_tool, saved_setting, AskView, DeployAnswer, DeployStep, DeployView,
};
use crate::phrase::end_stripped;
use crate::text::{lowercase, occurs_at, occurs_in, trim_spec};
use vstd::prelude::*;

verus! {

proof fn lemma_occurrence_found(s: Seq<char>, part: Seq<char>, from: int, at: int)
    requires
        part.len() > 0,
        0 <= from <= at,
        at + part.len() <= s.len(),
        s.subrange(at, at + part.len()) == part,
    ensures
        occurrences(s, part, from) >= 1,
    decreases at - from,
{
    if !occurs_at(s, part, from) {
        if from == at {
            assert(occurs_at(s, part, at));
        } else {
            lemma_occurrence_found(s, part, from + 1, at);
        }
    }
}

proof fn lemma_occurrence_is_there(s: Seq<char>, part: Seq<char>, from: int)
    requires
        0 <= from,
        occurrences(s, part, from) >= 1,
    ensures
        exists|at: int|
            from <= at && at + part.len() <= s.len() && #[trigger] s.subrange(at, at + part.len())
                == part,
    decreases s.len() - from,
{
    if occurs_at(s, part, from) {
        assert(s.subrange(from, from + part.len()) == part);
    } else {
        lemma_occurrence_is_there(s, part, from + 1);
    }
}

proof fn lemma_occurrences_skip(s: Seq<char>, part: Seq<char>, from: int)
    requires
        0 <= from <= s.len(),
    ensures
        occurrences(s, part, from) == occurrences(s.skip(from), part, 0),
    decreases s.len() - from,
{
    lemma_occurrences_shift(s, s.skip(from), part, from, 0);
}

proof fn lemma_occurrences_shift(s: Seq<char>, t: Seq<char>, part: Seq<char>, by: int, from: int)
    requires
        0 <= by <= s.len(),
        0 <= from,
        t == s.skip(by),
    ensures
        occurrences(s, part, by + from) == occurrences(t, part, from),
    decreases t.len() - from,
{
    if part.len() > 0 && from + part.len() <= t.len() {
        assert(s.subrange(by + from, by + from + part.len()) =~= t.subrange(
            from,
            from + part.len(),
        ));
        assert(occurs_at(s, part, by + from) == occurs_at(t, part, from));
        if occurs_at(t, part, from) {
            lemma_occurrences_shift(s, t, part, by, from + part.len());
        } else {
            lemma_occurrences_shift(s, t, part, by, from + 1);
        }
    }
}

/// A text is counted in another from the front: once where the other begins with it and
/// then in what is behind it; else in what is behind the first character; and never in one
/// that is shorter.
pub proof fn law_counted_texts(s: Seq<char>, part: Seq<char>)
    requires
        part.len() > 0,
    ensures
        occurrences(part + s, part, 0) == 1 + occurrences(s, part, 0),
        s.len() > 0 && !part.is_prefix_of(s) ==> occurrences(s, part, 0) == occurrences(
            s.skip(1),
            part,
            0,
        ),
        s.len() < part.len() ==> occurrences(s, part, 0) == 0,
{
    let t = part + s;
    assert(t.subrange(0, part.len() as int) =~= part);
    assert(occurs_at(t, part, 0));
    lemma_occurrences_skip(t, part, part.len() as int);
    assert(t.skip(part.len() as int) =~= s);
    if s.len() > 0 && !part.is_prefix_of(s) {
        lemma_occurrences_skip(s, part, 1);
        if s.len() >= part.len() {
            assert(!occurs_at(s, part, 0)) by {
                if occurs_at(s, part, 0) {
                    assert(s.subrange(0, part.len() as int) =~= s.take(part.len() as int));
                }
            }
        } else {
            assert(occurrences(s.skip(1), part, 0) == 0);
        }
    }
}

/// The data is live when the log tells as many times as there are profiles that one has
/// finished; before that, a log that tells of a failure means that it failed, and any other
/// that it is waited for. Each look that finds it live or failed ends the waiting; one that
/// does not, only after a hundred and eighty of them.
pub proof fn law_data_is_awaited(
    looks: nat,
    expected: nat,
    logs: Seq<char>,
    key: Seq<char>,
    ip: Seq<char>,
)
    ensures
        ({
            let n = occurrences(logs, "finished Phase 4"@, 0);
            let step = sync_looked(looks, expected, logs, key, ip);
            &&& state_of(logs, expected) is Live <==> n >= expected
            &&& step is Ready <==> n >= expected
            &&& n < expected && (occurs_in(logs, "staged startup aborted"@) || occurs_in(
                logs,
                "request_engine_shutdown_from_cdc"@,
            ) || occurs_in(logs, "CDC worker"@) && occurs_in(logs, "failed"@)) ==> step is GaveUp
                && state_of(logs, expected) == (CdcState::Failed {
                out_of_reach: occurs_in(logs, "Connection timed out"@) || occurs_in(
                    logs,
                    "Connection timeout"@,
                ),
            })
            &&& n < expected && !occurs_in(logs, "staged startup aborted"@) && !occurs_in(
                logs,
                "request_engine_shutdown_from_cdc"@,
            ) && (!occurs_in(logs, "CDC worker"@) || !occurs_in(logs, "failed"@)) ==> (step
                is Again <==> looks < 180) && (step is GaveUp <==> looks >= 180)
            &&& expected == 1 ==> (step is Ready <==> occurs_in(logs, "finished Phase 4"@))
        }),
{
    let part = "finished Phase 4"@;
    reveal_strlit("finished Phase 4");
    if occurrences(logs, part, 0) >= 1 {
        lemma_occurrence_is_there(logs, part, 0);
        let at = choose|at: int|
            0 <= at && at + part.len() <= logs.len() && #[trigger] logs.subrange(
                at,
                at + part.len(),
            ) == part;
        assert(occurs_at(logs, part, at));
    }
    if occurs_in(logs, part) {
        let at = choose|at: int| #[trigger] occurs_at(logs, part, at);
        lemma_occurrence_found(logs, part, 0, at);
    }
}

/// The machine is knocked at until it answers, twenty times at most.
pub proof fn law_machine_is_awaited(looks: nat, answers: bool, key: Seq<char>, ip: Seq<char>)
    ensures
        answers ==> knocked(looks, answers, key, ip) is Ready,
        !answers && looks < 20 ==> knocked(looks, answers, key, ip) is Again,
        !answers && looks >= 20 ==> knocked(looks, answers, key, ip) is GaveUp,
{
}

/// Nothing is deployed without `ssh` and `rsync`: where both are there nothing is said, and
/// where one is missing, it is named.
pub proof fn law_tools(ssh: bool, rsync: bool)
    ensures
        missing_tool(ssh, rsync) is None <==> ssh && rsync,
        !ssh ==> missing_tool(ssh, rsync) == Some(
            "`ssh` is not on PATH — required for data sync and remote commands."@,
        ),
        ssh && !rsync ==> missing_tool(ssh, rsync) == Some(
            "`rsync` is not on PATH — required for data sync and remote commands."@,
        ),
{
}

/// What was saved of a deployment is offered again to a deployment of the same name, and to
/// no other.
pub proof fn law_saved_names(known: Seq<char>, setting: Seq<char>, name: Seq<char>)
    ensures
        known != name ==> saved_setting(Some(known), Some(setting), name) is None,
        saved_setting(None, Some(setting), name) is None,
        saved_setting(Some(known), None, name) is None,
        trim_spec(setting).len() > 0 ==> saved_setting(Some(name), Some(setting), name) == Some(
            trim_spec(setting),
        ),
        trim_spec(setting).len() == 0 ==> saved_setting(Some(name), Some(setting), name) is None,
{
}

/// The questions before a deployment come one after another, and what is answered is kept:
/// where it goes, how large the machine is, how the deployment is called, and the two host
/// names, without the white space around them. Then one is asked whether to go on.
pub proof fn law_questions(
    w: DeployView,
    place: RdsPlacement,
    size: u8,
    name: String,
    rest: String,
    grpc: String,
    go: u8,
)
    requires
        w.step == DeployStep::Provider,
        name_fault(trim_spec(name@)) is None,
        host_fault(trim_spec(rest@)) is None,
        host_fault(trim_spec(grpc@)) is None,
        go != 255,
    ensures
        ({
            let w1 = w.after(DeployAnswer::Chosen(0));
            let w2 = w1.0.after(DeployAnswer::Placed(place));
            let w3 = w2.0.after(DeployAnswer::Chosen(size));
            let w4 = w3.0.after(DeployAnswer::Typed(name));
            let w5 = w4.0.after(DeployAnswer::Typed(rest));
            let w6 = w5.0.after(DeployAnswer::Typed(grpc));
            let w7 = w6.0.after(DeployAnswer::Chosen(go));
            &&& w1.1 is Place
            &&& w2.1 is Size
            &&& w3.1 is Name
            &&& w4.1 is Rest
            &&& w5.1 is Grpc
            &&& w6.1 is Confirm
            &&& w7.1 is Deploy
            &&& w7.0.step == DeployStep::Ready
            &&& w7.0.placement == Some(place@)
            &&& w7.0.name == trim_spec(name@)
            &&& w7.0.rest == trim_spec(rest@)
            &&& w7.0.grpc == trim_spec(grpc@)
            &&& size == 0 ==> w7.0.size == "t3.micro"@
            &&& size == 1 ==> w7.0.size == "t3.small"@
            &&& size == 2 ==> w7.0.size == "t3.medium"@
            &&& size == 3 ==> w7.0.size == "t3.large"@
            &&& w6.0.after(DeployAnswer::Chosen(255)).1 is Stop
            &&& w.known is None ==> w5.1 == AskView::Grpc(grpc_domain(trim_spec(rest@)))
        }),
{
}

/// A name that cannot be taken is asked for again, with what is wrong with it, and nothing
/// else changes.
pub proof fn law_asked_again(w: DeployView, typed: String)
    ensures
        w.step == DeployStep::Name && name_fault(trim_spec(typed@)) is Some ==> w.after(
            DeployAnswer::Typed(typed),
        ).0 == w && w.after(DeployAnswer::Typed(typed)).1 is Again,
        (w.step == DeployStep::Rest || w.step == DeployStep::Grpc) && host_fault(
            trim_spec(typed@),
        ) is Some ==> w.after(DeployAnswer::Typed(typed)).0 == w && w.after(
            DeployAnswer::Typed(typed),
        ).1 is Again,
{
}

/// The image of a project on GitHub is that of its package there, in small letters, with
/// the tag that is given, whichever of the two kinds of addresses the project has, with or
/// without `.git` behind it; a project elsewhere has none.
pub proof fn law_image(owner: Seq<char>, tag: Seq<char>, url: Seq<char>)
    requires
        !".git"@.is_suffix_of(owner),
    ensures
        trim_spec(url) == "https://github.com/"@ + owner || trim_spec(url) == "git@github.com:"@
            + owner || trim_spec(url) == "https://github.com/"@ + owner + ".git"@ || trim_spec(url)
            == "git@github.com:"@ + owner + ".git"@ ==> image_of(url, tag) == Some(
            "ghcr.io/"@ + lowercase(owner) + ":"@ + tag,
        ),
        !"https://github.com/"@.is_prefix_of(trim_spec(url)) && !"git@github.com:"@.is_prefix_of(
            trim_spec(url),
        ) ==> image_of(url, tag) is None && repository(url) is None,
{
    let u = trim_spec(url);
    let web = "https://github.com/"@;
    let shell = "git@github.com:"@;
    let git = ".git"@;
    reveal_strlit("https://github.com/");
    reveal_strlit("git@github.com:");
    reveal_strlit(".git");
    let long = owner + git;
    assert(long.skip(long.len() - git.len()) =~= git);
    assert(git.is_suffix_of(long));
    assert(long.take(long.len() - git.len()) =~= owner);
    assert(end_stripped(owner, git) == owner);
    assert(end_stripped(long, git) == end_stripped(owner, git));
    assert(web[0] == 'h' && shell[0] == 'g');
    if u == web + owner || u == web + owner + git {
        assert(u.take(web.len() as int) =~= web);
        assert(web.is_prefix_of(u));
        if u == web + owner {
            assert(u.skip(web.len() as int) =~= owner);
        } else {
            assert(u.skip(web.len() as int) =~= long);
        }
    } else if u == shell + owner || u == shell + owner + git {
        assert(u[0] == 'g');
        assert(!web.is_prefix_of(u)) by {
            if web.is_prefix_of(u) {
                assert(u[0] == web[0]);
            }
        }
        assert(u.take(shell.len() as int) =~= shell);
        assert(shell.is_prefix_of(u));
        if u == shell + owner {
            assert(u.skip(shell.len() as int) =~= owner);
        } else {
            assert(u.skip(shell.len() as int) =~= long);
        }
    }
}

/// Whether a program is told an option with a value, right behind one another.
pub open spec fn is_told(args: Seq<Seq<char>>, option: Seq<char>, value: Seq<char>) -> bool {
    exists|i: int|
        0 <= i < args.len() - 1 && #[trigger] args[i] == option && args[i + 1] == value
}

/// A container on this machine is called `bittice`, opens the three ports, keeps its data
/// in the folder that is given, and runs the image, which comes last.
pub proof fn law_plain_container(data_root: Seq<char>, image: Seq<char>)
    ensures
        ({
            let args = plain_run(data_root, image);
            &&& args[0] == "run"@
            &&& args[1] == "-d"@
            &&& args.last() == image
            &&& is_told(args, "--name"@, "bittice"@)
            &&& is_told(args, "-p"@, "3000:3000"@)
            &&& is_told(args, "-p"@, "8080:8080"@)
            &&& is_told(args, "-p"@, "50051:50051"@)
            &&& is_told(args, "-e"@, "BITTICE_ENGINE_ONLY=1"@)
            &&& is_told(args, "-e"@, "BITTICE_HOST=0.0.0.0"@)
            &&& is_told(args, "-e"@, "BITTICE_CDC_HEALTH_CHECK_MAX_FAILURES=0"@)
            &&& is_told(args, "-e"@, "BITTICE_CDC_STREAM_SILENCE_TIMEOUT_SECS=90"@)
            &&& is_told(args, "-v"@, data_root + ":/app/data"@)
        }),
{
    let args = plain_run(data_root, image);
    assert(args[2] == "--name"@);
    assert(args[4] == "-p"@);
    assert(args[6] == "-p"@);
    assert(args[8] == "-p"@);
    assert(args[10] == "-e"@);
    assert(args[12] == "-e"@);
    assert(args[14] == "-e"@);
    assert(args[16] == "-e"@);
    assert(args[18] == "-v"@);
}

/// The tool that makes machines is there for two systems and two kinds of machines, under
/// its own names for them, and for no other. It is kept in the home folder of whoever runs
/// this, or with the data where there is none.
pub proof fn law_platforms(os: Seq<char>, arch: Seq<char>, home: Seq<char>, root: Seq<char>)
    ensures
        arch == "aarch64"@ || arch == "x86_64"@ ==> (os == "macos"@ ==> platform(os, arch) is Ok
            && platform(os, arch)->Ok_0.0 == "darwin"@) && (os == "linux"@ ==> platform(os, arch)
            is Ok && platform(os, arch)->Ok_0.0 == "linux"@),
        os == "macos"@ || os == "linux"@ ==> (arch == "aarch64"@ ==> platform(os, arch) is Ok
            && platform(os, arch)->Ok_0.1 == "arm64"@) && (arch == "x86_64"@ ==> platform(os, arch)
            is Ok && platform(os, arch)->Ok_0.1 == "amd64"@),
        os != "macos"@ && os != "linux"@ <==> platform(os, arch) == Err::<
            (Seq<char>, Seq<char>),
            PlatformError,
        >(PlatformError::System),
        (os == "macos"@ || os == "linux"@) && arch != "aarch64"@ && arch != "x86_64"@
            <==> platform(os, arch) == Err::<(Seq<char>, Seq<char>), PlatformError>(
            PlatformError::Machine,
        ),
        cache_folder(Some(home), root) == home + "/.bittice/bin"@,
        cache_folder(None, root) == root + "/.terraform-bin"@,
{
    reveal_strlit("macos");
    reveal_strlit("linux");
    reveal_strlit("aarch64");
    reveal_strlit("x86_64");
    assert("macos"@[0] == 'm' && "linux"@[0] == 'l');
    assert("aarch64"@.len() == 7 && "x86_64"@.len() == 6);
}

/// What a tool lists are its lines that are not blank, without the white space around them,
/// in their order.
pub proof fn law_told_lines(lines: Seq<Seq<char>>, n: int)
    requires
        0 <= n < lines.len(),
    ensures
        told_lines(lines, 0).len() == 0,
        trim_spec(lines[n]).len() > 0 ==> told_lines(lines, n + 1) == told_lines(lines, n).push(
            trim_spec(lines[n]),
        ),
        trim_spec(lines[n]).len() == 0 ==> told_lines(lines, n + 1) == told_lines(lines, n),
{
}

/// A key for the control plane begins with `bk_live_`, white space before it aside.
pub proof fn law_api_key(raw: Seq<char>, rest: Seq<char>)
    ensures
        trim_spec(raw) == "bk_live_"@ + rest ==> is_api_key(raw),
        is_api_key(raw) ==> trim_spec(raw).len() >= 8 && trim_spec(raw).take(8) == "bk_live_"@,
{
    reveal_strlit("bk_live_");
    let t = trim_spec(raw);
    if t == "bk_live_"@ + rest {
        assert(t.take(8) =~= "bk_live_"@);
    }
    if is_api_key(raw) {
        assert(t.take(8) =~= "bk_live_"@);
    }
}

} // verus!

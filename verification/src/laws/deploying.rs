//! What it means that the engine is put on a machine.

use crate::deploy::compose::{
    compose_file, copy_options, deploy_steps, identity_lines, probe_options, report_lines,
    ssh_options, AWAIT_DOCKER, GET_COMPOSE, IdentityView, LABELS, OPEN_PORTS, PROXIED_PORTS, PROXY,
    PROXY_NETWORK, RESTART, SERVICES, SETTINGS, START, StepView, TEAR_DOWN, WATCHTOWER,
};
use vstd::prelude::*;

verus! {

/// The command that writes a text into a file on the machine.
pub open spec fn writes_file(path: Seq<char>, mark: Seq<char>, text: Seq<char>) -> Seq<char> {
    "cat > "@ + path + " << '"@ + mark + "'\n"@ + text + mark
}

/// Whether one of the steps runs a command, before the step that starts the containers,
/// which is the last one.
pub open spec fn runs_before_start(steps: Seq<StepView>, command: Seq<char>) -> bool {
    &&& steps.len() > 0
    &&& steps.last().0 == START@
    &&& exists|i: int| 0 <= i < steps.len() - 1 && (#[trigger] steps[i]).0 == command
}

/// Whether one command runs before another.
pub open spec fn runs_before(
    steps: Seq<StepView>,
    first: Seq<char>,
    second: Seq<char>,
) -> bool {
    exists|i: int, j: int|
        0 <= i < j < steps.len() && (#[trigger] steps[i]).0 == first && (#[trigger] steps[j]).0
            == second
}

/// Before the containers are started, the file that tells what is run is written, and
/// where there is a host name, the settings of the proxy for that host name, which the
/// proxy mounts; the image is fetched, after whoever has a token has logged in with it;
/// and what ran before is taken down before any of the files is written.
pub proof fn law_files_before_start(
    image: Seq<char>,
    ident: Option<IdentityView>,
    domain: Option<Seq<char>>,
    login: Option<(Seq<char>, Seq<char>)>,
)
    ensures
        ({
            let steps = deploy_steps(image, ident, domain, login);
            let compose = writes_file(
                "/opt/bittice/docker-compose.yml"@,
                "COMPEOF"@,
                compose_file(image, ident, domain is Some),
            );
            let pull = "docker pull '"@ + image + "'"@;
            &&& runs_before_start(steps, compose)
            &&& runs_before_start(steps, pull)
            &&& runs_before(steps, AWAIT_DOCKER@, TEAR_DOWN@)
            &&& runs_before(steps, TEAR_DOWN@, compose)
            &&& runs_before_start(steps, GET_COMPOSE@)
            &&& domain matches Some(d) ==> {
                let caddy = writes_file(
                    "/opt/bittice/Caddyfile"@,
                    "CADDYEOF"@,
                    d + " {\n    reverse_proxy bittice:3000\n}\n"@,
                );
                &&& runs_before_start(steps, caddy)
                &&& runs_before(steps, TEAR_DOWN@, caddy)
            }
            &&& login matches Some((user, token)) ==> {
                let enter = "echo '"@ + token + "' | docker login ghcr.io -u '"@ + user
                    + "' --password-stdin"@;
                &&& runs_before(steps, enter, pull)
                &&& runs_before(steps, AWAIT_DOCKER@, enter)
            }
            &&& steps.len() == 6 + (if domain is Some {
                1int
            } else {
                0
            }) + (if login is Some {
                1int
            } else {
                0
            })
        }),
{
    let steps = deploy_steps(image, ident, domain, login);
    let n = steps.len() as int;
    let file = compose_file(image, ident, domain is Some);
    let compose = writes_file("/opt/bittice/docker-compose.yml"@, "COMPEOF"@, file);
    let a: int = if login is Some {
        1
    } else {
        0
    };
    assert(steps[0].0 == AWAIT_DOCKER@);
    assert(steps[a + 1].0 == TEAR_DOWN@);
    assert(steps[a + 2].0 == GET_COMPOSE@);
    assert(compose =~= "cat > "@ + "/opt/bittice/docker-compose.yml"@ + " << '"@ + "COMPEOF"@
        + "'\n"@ + (file + "COMPEOF"@));
    assert(steps[a + 3].0 == compose);
    assert(steps[n - 1].0 == START@);
    assert(steps[n - 2].0 == "docker pull '"@ + image + "'"@);
    if let Some(d) = domain {
        let text = d + " {\n    reverse_proxy bittice:3000\n}\n"@;
        let caddy = writes_file("/opt/bittice/Caddyfile"@, "CADDYEOF"@, text);
        assert(caddy =~= "cat > "@ + "/opt/bittice/Caddyfile"@ + " << '"@ + "CADDYEOF"@ + "'\n"@ + (
        text + "CADDYEOF"@));
        assert(steps[a + 4].0 == caddy);
    }
    if let Some((user, token)) = login {
        assert(steps[1].0 == "echo '"@ + token + "' | docker login ghcr.io -u '"@ + user
            + "' --password-stdin"@);
    }
}

/// Whether a text comes somewhere behind another one in a longer text.
pub open spec fn follows(all: Seq<char>, first: Seq<char>, second: Seq<char>) -> bool {
    exists|a: Seq<char>, b: Seq<char>, c: Seq<char>|
        all == #[trigger] (a + first + b + second + c)
}

/// The file that tells what is run names the image right behind the beginning, and where
/// the engine is known to the control plane, its number, its token and the address under
/// the names by which the engine reads them; a proxy is there if and only if there is a
/// host name, and then it mounts its settings and the engine's own port is not open.
pub proof fn law_compose_file(image: Seq<char>, ident: Option<IdentityView>, proxied: bool)
    ensures
        (SERVICES@ + image + LABELS@).is_prefix_of(compose_file(image, ident, proxied)),
        ident matches Some(i) ==> {
            let all = compose_file(image, ident, proxied);
            &&& follows(all, SETTINGS@, "      - BITTICE_DEPLOYMENT_ID="@ + i.id + "\n"@)
            &&& follows(all, SETTINGS@, "      - BITTICE_INSTANCE_TOKEN="@ + i.token + "\n"@)
            &&& follows(all, SETTINGS@, "      - BITTICE_CONTROL_PLANE_URL="@ + i.url + "\n"@)
        },
        proxied ==> follows(compose_file(image, ident, proxied), PROXIED_PORTS@, PROXY@),
        proxied ==> follows(compose_file(image, ident, proxied), PROXY@, PROXY_NETWORK@),
        !proxied ==> follows(compose_file(image, ident, proxied), OPEN_PORTS@, WATCHTOWER@),
        follows(compose_file(image, ident, proxied), SETTINGS@, RESTART@),
        follows(compose_file(image, ident, proxied), RESTART@, WATCHTOWER@),
{
    let all = compose_file(image, ident, proxied);
    let head = SERVICES@ + image + LABELS@;
    let ports = if proxied {
        PROXIED_PORTS@
    } else {
        OPEN_PORTS@
    };
    let who = identity_lines(ident);
    let proxy = if proxied {
        PROXY@
    } else {
        Seq::empty()
    };
    let net = if proxied {
        PROXY_NETWORK@
    } else {
        Seq::empty()
    };
    let none = Seq::<char>::empty();
    let rest = ports + SETTINGS@ + who + RESTART@ + proxy + WATCHTOWER@ + net;
    assert(all =~= head + rest);
    assert(all.take(head.len() as int) =~= head);
    assert(all =~= (head + ports) + SETTINGS@ + who + RESTART@ + (proxy + WATCHTOWER@ + net));
    assert(all =~= (head + ports + SETTINGS@ + who) + RESTART@ + proxy + WATCHTOWER@ + net);
    if proxied {
        assert(all =~= head + ports + (SETTINGS@ + who + RESTART@) + PROXY@ + (WATCHTOWER@ + net));
        assert(all =~= (head + ports + SETTINGS@ + who + RESTART@) + PROXY@ + WATCHTOWER@
            + PROXY_NETWORK@ + none);
    } else {
        assert(all =~= head + ports + (SETTINGS@ + who + RESTART@) + WATCHTOWER@ + none);
    }
    if let Some(i) = ident {
        lemma_identity(all, head + ports, RESTART@ + proxy + WATCHTOWER@ + net, i);
    }
}

proof fn lemma_identity(all: Seq<char>, head: Seq<char>, tail: Seq<char>, i: IdentityView)
    requires
        all == head + SETTINGS@ + identity_lines(Some(i)) + tail || all =~= head + SETTINGS@
            + identity_lines(Some(i)) + tail,
    ensures
        follows(all, SETTINGS@, "      - BITTICE_DEPLOYMENT_ID="@ + i.id + "\n"@),
        follows(all, SETTINGS@, "      - BITTICE_INSTANCE_TOKEN="@ + i.token + "\n"@),
        follows(all, SETTINGS@, "      - BITTICE_CONTROL_PLANE_URL="@ + i.url + "\n"@),
{
    reveal_strlit("\n");
    reveal_strlit("\n      - BITTICE_INSTANCE_TOKEN=");
    reveal_strlit("      - BITTICE_INSTANCE_TOKEN=");
    reveal_strlit("\n      - BITTICE_CONTROL_PLANE_URL=");
    reveal_strlit("      - BITTICE_CONTROL_PLANE_URL=");
    let one = "      - BITTICE_DEPLOYMENT_ID="@ + i.id + "\n"@;
    let two = "      - BITTICE_INSTANCE_TOKEN="@ + i.token + "\n"@;
    let three = "      - BITTICE_CONTROL_PLANE_URL="@ + i.url + "\n"@;
    assert("\n      - BITTICE_INSTANCE_TOKEN="@ =~= "\n"@ + "      - BITTICE_INSTANCE_TOKEN="@);
    assert("\n      - BITTICE_CONTROL_PLANE_URL="@ =~= "\n"@
        + "      - BITTICE_CONTROL_PLANE_URL="@);
    let lines = identity_lines(Some(i));
    assert(lines =~= one + two + three);
    let none = Seq::<char>::empty();
    lemma_follows(all, head, SETTINGS@, none, one, two + three + tail);
    lemma_follows(all, head, SETTINGS@, one, two, three + tail);
    lemma_follows(all, head, SETTINGS@, one + two, three, tail);
}

proof fn lemma_follows(
    all: Seq<char>,
    a: Seq<char>,
    first: Seq<char>,
    b: Seq<char>,
    second: Seq<char>,
    c: Seq<char>,
)
    requires
        all =~= a + first + b + second + c,
    ensures
        follows(all, first, second),
{
    assert(all == a + first + b + second + c);
}

/// The machine is reached as the user `ubuntu` at its address with the key that is given:
/// the key comes right behind `-i`, and the address is the last thing that is told. What
/// only asks whether the machine answers never asks for a password, and runs one command.
pub proof fn law_machine_is_reached(key: Seq<char>, ip: Seq<char>)
    ensures
        ({
            let args = ssh_options(key, ip);
            &&& args.last() == "ubuntu@"@ + ip
            &&& args.len() >= 3 && args[args.len() - 2] == key && args[args.len() - 3] == "-i"@
        }),
        ({
            let args = probe_options(key, ip);
            &&& ssh_options(key, ip).is_prefix_of(args)
            &&& args.last() == "echo ok"@
            &&& args.contains("PasswordAuthentication=no"@) && args.contains("BatchMode=yes"@)
        }),
{
    let args = probe_options(key, ip);
    let n = ssh_options(key, ip).len() as int;
    assert(args.take(n) =~= ssh_options(key, ip));
    assert(args[n + 1] == "BatchMode=yes"@);
    assert(args[n + 3] == "PasswordAuthentication=no"@);
}

/// The data is copied from below its folder into the folder that the engine mounts, on
/// the machine of that address, with the key that is given; the log and what belongs to the
/// deployment itself stay behind.
pub proof fn law_data_is_copied(root: Seq<char>, ip: Seq<char>, key: Seq<char>)
    ensures
        ({
            let args = copy_options(root, ip, key);
            &&& args.last() == "ubuntu@"@ + ip + ":/opt/bittice/data/"@
            &&& args.len() >= 2 && args[args.len() - 2] == root + "/"@
            &&& exists|i: int|
                0 <= i < args.len() && (#[trigger] args[i]) == (
                "ssh -o StrictHostKeyChecking=no -o UserKnownHostsFile=/dev/null -i "@ + key) && i
                    > 0 && args[i - 1] == "-e"@
            &&& args.contains("--exclude=server.log"@) && args.contains("--exclude=terraform"@)
            &&& args.contains("--exclude=.layout_v2"@) && args.contains("--exclude=.terraform-bin"@)
        }),
{
    let args = copy_options(root, ip, key);
    assert(args[1] == "--exclude=server.log"@);
    assert(args[2] == "--exclude=.layout_v2"@);
    assert(args[3] == "--exclude=terraform"@);
    assert(args[4] == "--exclude=.terraform-bin"@);
    assert(args[6] == ("ssh -o StrictHostKeyChecking=no -o UserKnownHostsFile=/dev/null -i "@
        + key));
}

/// Where the engine is said to be reached: behind a host name over HTTPS under that name,
/// and its administration through a tunnel only; without one at the ports of the machine's
/// own address. The last line tells how its log is read.
pub proof fn law_report(
    ip: Seq<char>,
    key: Seq<char>,
    domain: Option<Seq<char>>,
    grpc: Option<Seq<char>>,
)
    ensures
        ({
            let lines = report_lines(ip, key, domain, grpc);
            &&& lines.len() == 4
            &&& lines[3] == "Logs   ssh -i "@ + key + " ubuntu@"@ + ip
                + " 'docker logs -f bittice'"@
            &&& match domain {
                Some(d) => {
                    &&& lines[0] == "REST   https://"@ + d
                    &&& lines[1] == "Admin  ssh -L 8080:127.0.0.1:8080 -i "@ + key + " ubuntu@"@ + ip
                        + "  →  http://127.0.0.1:8080"@
                    &&& grpc matches Some(g) ==> ("gRPC   "@ + g + ":50051"@).is_prefix_of(lines[2])
                    &&& grpc is None ==> lines[2] == "gRPC   "@ + ip + ":50051"@
                },
                None => {
                    &&& lines[0] == "REST   http://"@ + ip + ":3000"@
                    &&& lines[1] == "Admin  http://"@ + ip + ":8080"@
                    &&& lines[2] == "gRPC   "@ + ip + ":50051"@
                },
            }
        }),
{
    let lines = report_lines(ip, key, domain, grpc);
    if let (Some(d), Some(g)) = (domain, grpc) {
        reveal_strlit(":50051");
        reveal_strlit(":50051  (or ");
        let front = "gRPC   "@ + g + ":50051"@;
        assert(lines[2].take(front.len() as int) =~= front);
    }
}

} // verus!

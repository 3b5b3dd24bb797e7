//! The files and commands by which a deployment is run on its machine.

use crate::phrase::{cat2, cat3, cat4, cat5};
use crate::text::{decimal, decimal_spec, texts};
use vstd::prelude::*;

verus! {

/// By whom the engine is known to the control plane.
pub struct EngineIdentity {
    pub deployment_id: String,
    pub instance_token: String,
    pub control_plane_url: String,
}

/// What an `EngineIdentity` stands for.
pub struct IdentityView {
    pub id: Seq<char>,
    pub token: Seq<char>,
    pub url: Seq<char>,
}

impl View for EngineIdentity {
    type V = IdentityView;

    open spec fn view(&self) -> IdentityView {
        IdentityView {
            id: self.deployment_id@,
            token: self.instance_token@,
            url: self.control_plane_url@,
        }
    }
}

/// The beginning of the file, up to the image.
pub const SERVICES: &'static str = "services:\n  bittice:\n    image: \"";

/// What follows the image.
pub const LABELS: &'static str = "\"
    container_name: bittice
    labels:
      - \"com.centurylinklabs.watchtower.enable=true\"
";

/// The ports behind a host name: the engine is reached through a proxy.
pub const PROXIED_PORTS: &'static str = "    ports:
      - \"127.0.0.1:8080:8080\"
      - \"50051:50051\"
    networks:
      - bittice_net
";

/// The ports without a host name.
pub const OPEN_PORTS: &'static str = "    ports:
      - \"0.0.0.0:3000:3000\"
      - \"0.0.0.0:8080:8080\"
      - \"0.0.0.0:50051:50051\"
";

/// The data and the settings of the engine.
pub const SETTINGS: &'static str = "    volumes:
      - /opt/bittice/data:/app/data
    environment:
      - BITTICE_HOST=0.0.0.0
      - BITTICE_ENGINE_ONLY=1
      - BITTICE_CDC_HEALTH_CHECK_MAX_FAILURES=0
      - BITTICE_CDC_HEALTH_CHECK_INTERVAL_SECS=300
      - BITTICE_CDC_STREAM_SILENCE_TIMEOUT_SECS=90
      # NOTE: BITTICE_SKIP_STARTUP_COMPACT is intentionally NOT set here.
      # Compact folds the mini-segment explosion from CDC write paths into a
      # small number of large segments; skipping it on customer instances would
      # let segments grow unbounded over time. We only skip on the corp
      # dev instance where startup speed beats long-term shape.
";

/// What follows the settings.
pub const RESTART: &'static str = "    restart: unless-stopped\n";

/// The proxy.
pub const PROXY: &'static str = "
  caddy:
    image: caddy:2-alpine
    container_name: caddy
    restart: unless-stopped
    ports:
      - \"443:443\"
      - \"80:80\"
    volumes:
      - /opt/bittice/Caddyfile:/etc/caddy/Caddyfile:ro
      - caddy_data:/data
      - caddy_config:/config
    networks:
      - bittice_net
    depends_on:
      - bittice
";

/// What renews the image.
pub const WATCHTOWER: &'static str = "
  watchtower:
    image: containrrr/watchtower:latest
    container_name: watchtower
    restart: unless-stopped
    environment:
      # Ubuntu 22.04+ ships Docker daemon API 1.44+, which rejects watchtower's
      # default older client API. Pinning here unblocks the docker.sock
      # handshake. Bump if AWS Ubuntu AMIs ever ship Docker >= 30.x.
      - DOCKER_API_VERSION=1.44
    volumes:
      - /var/run/docker.sock:/var/run/docker.sock
    command:
      - --interval
      - \"300\"
      - --label-enable
      - --cleanup
";

/// The network and the volumes of the proxy.
pub const PROXY_NETWORK: &'static str = "
networks:
  bittice_net:

volumes:
  caddy_data:
  caddy_config:
";

/// The settings by which the engine is known.
pub open spec fn identity_lines(ident: Option<IdentityView>) -> Seq<char> {
    match ident {
        Some(i) => "      - BITTICE_DEPLOYMENT_ID="@ + i.id + "\n      - BITTICE_INSTANCE_TOKEN="@
            + i.token + "\n      - BITTICE_CONTROL_PLANE_URL="@ + (i.url + "\n"@),
        None => Seq::empty(),
    }
}

/// The file that tells what is run: the engine from an image, with a proxy in front of
/// it where it has a host name, and what renews it.
pub open spec fn compose_file(
    image: Seq<char>,
    ident: Option<IdentityView>,
    proxied: bool,
) -> Seq<char> {
    SERVICES@ + image + LABELS@ + (if proxied {
        PROXIED_PORTS@
    } else {
        OPEN_PORTS@
    }) + SETTINGS@ + identity_lines(ident) + RESTART@ + (if proxied {
        PROXY@
    } else {
        Seq::empty()
    }) + WATCHTOWER@ + (if proxied {
        PROXY_NETWORK@
    } else {
        Seq::empty()
    })
}

/// The file that tells what is run.
pub fn generate_compose(image: &str, ident: Option<&EngineIdentity>, rest_domain: Option<&str>) -> (r:
    String)
    ensures
        r@ == compose_file(
            image@,
            match ident {
                Some(i) => Some(i@),
                None => None,
            },
            rest_domain is Some,
        ),
{
    let proxied = rest_domain.is_some();
    let mut s = cat3(SERVICES, image, LABELS);
    if proxied {
        s.append(PROXIED_PORTS);
    } else {
        s.append(OPEN_PORTS);
    }
    s.append(SETTINGS);
    let ghost before = s@;
    if let Some(i) = ident {
        let mut t = cat5(
            "      - BITTICE_DEPLOYMENT_ID=",
            i.deployment_id.as_str(),
            "\n      - BITTICE_INSTANCE_TOKEN=",
            i.instance_token.as_str(),
            "\n      - BITTICE_CONTROL_PLANE_URL=",
        );
        let u = cat2(i.control_plane_url.as_str(), "\n");
        t.append(u.as_str());
        s.append(t.as_str());
    }
    assert(ident is None ==> s@ =~= before + Seq::<char>::empty());
    s.append(RESTART);
    let ghost middle = s@;
    if proxied {
        s.append(PROXY);
    }
    assert(!proxied ==> s@ =~= middle + Seq::<char>::empty());
    s.append(WATCHTOWER);
    let ghost end = s@;
    if proxied {
        s.append(PROXY_NETWORK);
    }
    assert(!proxied ==> s@ =~= end + Seq::<char>::empty());
    s
}

/// The file that tells the proxy where the engine is.
pub fn generate_caddyfile(rest_domain: &str) -> (r: String)
    ensures
        r@ == rest_domain@ + " {\n    reverse_proxy bittice:3000\n}\n"@,
{
    cat2(rest_domain, " {\n    reverse_proxy bittice:3000\n}\n")
}

/// The command by which a file is written on the machine.
pub fn write_command(path: &str, mark: &str, content: &str) -> (r: String)
    ensures
        r@ == "cat > "@ + path@ + " << '"@ + mark@ + "'\n"@ + (content@ + mark@),
{
    let mut s = cat5("cat > ", path, " << '", mark, "'\n");
    let t = cat2(content, mark);
    s.append(t.as_str());
    s
}

/// The options by which the machine is reached over SSH.
pub open spec fn ssh_options(key: Seq<char>, ip: Seq<char>) -> Seq<Seq<char>> {
    seq![
        "-o"@,
        "StrictHostKeyChecking=no"@,
        "-o"@,
        "UserKnownHostsFile=/dev/null"@,
        "-o"@,
        "ConnectTimeout=20"@,
        "-i"@,
        key,
        "ubuntu@"@ + ip,
    ]
}

/// The options by which the machine is reached over SSH.
pub fn ssh_common_args(ssh_key: &str, ip: &str) -> (r: Vec<String>)
    ensures
        texts(r@) == ssh_options(ssh_key@, ip@),
{
    let r = vec![
        "-o".to_owned(),
        "StrictHostKeyChecking=no".to_owned(),
        "-o".to_owned(),
        "UserKnownHostsFile=/dev/null".to_owned(),
        "-o".to_owned(),
        "ConnectTimeout=20".to_owned(),
        "-i".to_owned(),
        ssh_key.to_owned(),
        cat2("ubuntu@", ip),
    ];
    assert(texts(r@) =~= ssh_options(ssh_key@, ip@));
    r
}

/// The options that only ask whether the machine answers.
pub open spec fn probe_options(key: Seq<char>, ip: Seq<char>) -> Seq<Seq<char>> {
    ssh_options(key, ip) + seq![
        "-o"@,
        "BatchMode=yes"@,
        "-o"@,
        "PasswordAuthentication=no"@,
        "-o"@,
        "ServerAliveInterval=5"@,
        "-o"@,
        "ServerAliveCountMax=1"@,
        "echo ok"@,
    ]
}

/// The options that only ask whether the machine answers.
pub fn ssh_probe_args(ssh_key: &str, ip: &str) -> (r: Vec<String>)
    ensures
        texts(r@) == probe_options(ssh_key@, ip@),
{
    let mut r = ssh_common_args(ssh_key, ip);
    let ghost front = texts(r@);
    assert(front.len() == r@.len());
    r.push("-o".to_owned());
    r.push("BatchMode=yes".to_owned());
    r.push("-o".to_owned());
    r.push("PasswordAuthentication=no".to_owned());
    r.push("-o".to_owned());
    r.push("ServerAliveInterval=5".to_owned());
    r.push("-o".to_owned());
    r.push("ServerAliveCountMax=1".to_owned());
    r.push("echo ok".to_owned());
    assert(texts(r@) =~= probe_options(ssh_key@, ip@));
    r
}

/// What copies the data to the machine.
pub open spec fn copy_options(data_root: Seq<char>, ip: Seq<char>, key: Seq<char>) -> Seq<
    Seq<char>,
> {
    seq![
        "-az"@,
        "--exclude=server.log"@,
        "--exclude=.layout_v2"@,
        "--exclude=terraform"@,
        "--exclude=.terraform-bin"@,
        "-e"@,
        "ssh -o StrictHostKeyChecking=no -o UserKnownHostsFile=/dev/null -i "@ + key,
        data_root + "/"@,
        "ubuntu@"@ + ip + ":/opt/bittice/data/"@,
    ]
}

/// What copies the data to the machine.
pub fn rsync_args(data_root: &str, ip: &str, ssh_key: &str) -> (r: Vec<String>)
    ensures
        texts(r@) == copy_options(data_root@, ip@, ssh_key@),
{
    let r = vec![
        "-az".to_owned(),
        "--exclude=server.log".to_owned(),
        "--exclude=.layout_v2".to_owned(),
        "--exclude=terraform".to_owned(),
        "--exclude=.terraform-bin".to_owned(),
        "-e".to_owned(),
        cat2("ssh -o StrictHostKeyChecking=no -o UserKnownHostsFile=/dev/null -i ", ssh_key),
        cat2(data_root, "/"),
        cat3("ubuntu@", ip, ":/opt/bittice/data/"),
    ];
    assert(texts(r@) =~= copy_options(data_root@, ip@, ssh_key@));
    r
}

/// The commands that put the engine on the machine, in their order, with what is shown
/// meanwhile.
pub struct RemoteStep {
    pub command: String,
    pub label: String,
}

/// What a `RemoteStep` stands for.
pub type StepView = (Seq<char>, Seq<char>);

impl View for RemoteStep {
    type V = StepView;

    open spec fn view(&self) -> StepView {
        (self.command@, self.label@)
    }
}

/// What steps stand for.
pub open spec fn step_views(v: Seq<RemoteStep>) -> Seq<StepView> {
    v.map_values(|s: RemoteStep| s@)
}

/// Waits until Docker is there.
pub const AWAIT_DOCKER: &'static str = "sudo cloud-init status --wait 2>/dev/null || true; if ! command -v docker >/dev/null 2>&1; then sudo DEBIAN_FRONTEND=noninteractive apt-get update -qq && sudo DEBIAN_FRONTEND=noninteractive apt-get install -y -qq docker.io && sudo systemctl enable --now docker && sudo usermod -aG docker ubuntu; fi; docker --version >/dev/null || { echo 'Docker install FAILED' >&2; exit 1; }";

/// Takes down what ran before.
pub const TEAR_DOWN: &'static str = "sudo chown -R ubuntu:ubuntu /opt/bittice; sudo systemctl stop 'openvpn@*' 'openvpn-client@*' 2>/dev/null || true; sudo systemctl disable 'openvpn@bittice' 'openvpn-client@bittice' 2>/dev/null || true; docker rm -f bittice bittice-vpn caddy 2>/dev/null || true; cd /opt/bittice && docker-compose down 2>/dev/null || docker compose down 2>/dev/null || true";

/// Gets Compose where it is missing.
pub const GET_COMPOSE: &'static str = "docker compose version 2>/dev/null || docker-compose version 2>/dev/null || (sudo curl -sSL https://github.com/docker/compose/releases/download/v2.27.0/docker-compose-linux-x86_64 -o /usr/local/bin/docker-compose && sudo chmod +x /usr/local/bin/docker-compose)";

/// Starts what is told.
pub const START: &'static str =
    "cd /opt/bittice && (docker compose up -d 2>/dev/null || docker-compose up -d)";

/// The steps: Docker is waited for, the registry is logged in to where a token is
/// known, what ran before is taken down, the files are written, and the image is
/// fetched and started.
pub open spec fn deploy_steps(
    image: Seq<char>,
    ident: Option<IdentityView>,
    domain: Option<Seq<char>>,
    login: Option<(Seq<char>, Seq<char>)>,
) -> Seq<StepView> {
    seq![(AWAIT_DOCKER@, "Waiting for Docker on the server…"@)] + (match login {
        Some((user, token)) => seq![
            (
                "echo '"@ + token + "' | docker login ghcr.io -u '"@ + user
                    + "' --password-stdin"@,
                "Logging into GHCR…"@,
            ),
        ],
        None => Seq::empty(),
    }) + seq![
        (TEAR_DOWN@, "Tearing down previous stack…"@),
        (GET_COMPOSE@, "Ensuring docker-compose…"@),
        (
            "cat > "@ + "/opt/bittice/docker-compose.yml"@ + " << '"@ + "COMPEOF"@ + "'\n"@ + (
            compose_file(image, ident, domain is Some) + "COMPEOF"@),
            "Writing docker-compose.yml…"@,
        ),
    ] + (match domain {
        Some(d) => seq![
            (
                "cat > "@ + "/opt/bittice/Caddyfile"@ + " << '"@ + "CADDYEOF"@ + "'\n"@ + ((d
                    + " {\n    reverse_proxy bittice:3000\n}\n"@) + "CADDYEOF"@),
                "Writing Caddyfile…"@,
            ),
        ],
        None => Seq::empty(),
    }) + seq![
        ("docker pull '"@ + image + "'"@, "Pulling "@ + image + "…"@),
        (START@, "Starting Bittice container…"@),
    ]
}

fn put_step(steps: &mut Vec<RemoteStep>, command: String, label: &str)
    ensures
        step_views(final(steps)@) == step_views(old(steps)@).push((command@, label@)),
{
    let ghost held = step_views(steps@);
    let s = RemoteStep { command, label: label.to_owned() };
    steps.push(s);
    assert(step_views(steps@) =~= held.push(s@));
}

/// The commands that put the engine on the machine.
pub fn deploy_compose(
    image: &str,
    ident: Option<&EngineIdentity>,
    rest_domain: Option<&str>,
    login: Option<(&str, &str)>,
) -> (r: Vec<RemoteStep>)
    ensures
        step_views(r@) == deploy_steps(
            image@,
            match ident {
                Some(i) => Some(i@),
                None => None,
            },
            match rest_domain {
                Some(d) => Some(d@),
                None => None,
            },
            match login {
                Some(l) => Some((l.0@, l.1@)),
                None => None,
            },
        ),
{
    let mut out: Vec<RemoteStep> = Vec::new();
    assert(step_views(out@) =~= Seq::empty());
    put_step(&mut out, AWAIT_DOCKER.to_owned(), "Waiting for Docker on the server…");
    if let Some((user, token)) = login {
        let c = cat5(
            "echo '",
            token,
            "' | docker login ghcr.io -u '",
            user,
            "' --password-stdin",
        );
        put_step(&mut out, c, "Logging into GHCR…");
    }
    put_step(&mut out, TEAR_DOWN.to_owned(), "Tearing down previous stack…");
    put_step(&mut out, GET_COMPOSE.to_owned(), "Ensuring docker-compose…");
    let compose = generate_compose(image, ident, rest_domain);
    let write = write_command("/opt/bittice/docker-compose.yml", "COMPEOF", compose.as_str());
    put_step(&mut out, write, "Writing docker-compose.yml…");
    if let Some(d) = rest_domain {
        let caddy = generate_caddyfile(d);
        let w = write_command("/opt/bittice/Caddyfile", "CADDYEOF", caddy.as_str());
        put_step(&mut out, w, "Writing Caddyfile…");
    }
    let pull = cat3("docker pull '", image, "'");
    let label = cat3("Pulling ", image, "…");
    put_step(&mut out, pull, label.as_str());
    put_step(&mut out, START.to_owned(), "Starting Bittice container…");
    let ghost want = deploy_steps(
        image@,
        match ident {
            Some(i) => Some(i@),
            None => None,
        },
        match rest_domain {
            Some(d) => Some(d@),
            None => None,
        },
        match login {
            Some(l) => Some((l.0@, l.1@)),
            None => None,
        },
    );
    assert(step_views(out@) =~= want);
    out
}

/// What is said of a service.
pub open spec fn ok_text(ok: bool) -> Seq<char> {
    if ok {
        "OK"@
    } else {
        "check pending"@
    }
}

/// What is said when the engine runs: where it is reached.
pub open spec fn report_lines(
    ip: Seq<char>,
    key: Seq<char>,
    domain: Option<Seq<char>>,
    grpc: Option<Seq<char>>,
) -> Seq<Seq<char>> {
    (match domain {
        Some(d) => seq![
            "REST   https://"@ + d,
            "Admin  ssh -L 8080:127.0.0.1:8080 -i "@ + key + " ubuntu@"@ + ip
                + "  →  http://127.0.0.1:8080"@,
            match grpc {
                Some(g) => "gRPC   "@ + g + ":50051  (or "@ + ip + ":50051)"@,
                None => "gRPC   "@ + ip + ":50051"@,
            },
        ],
        None => seq![
            "REST   http://"@ + ip + ":3000"@,
            "Admin  http://"@ + ip + ":8080"@,
            "gRPC   "@ + ip + ":50051"@,
        ],
    }).push("Logs   ssh -i "@ + key + " ubuntu@"@ + ip + " 'docker logs -f bittice'"@)
}

/// What is said when the engine runs: where it is reached.
pub fn report(ip: &str, key: &str, domain: Option<&str>, grpc: Option<&str>) -> (r: Vec<String>)
    ensures
        texts(r@) == report_lines(
            ip@,
            key@,
            match domain {
                Some(d) => Some(d@),
                None => None,
            },
            match grpc {
                Some(g) => Some(g@),
                None => None,
            },
        ),
{
    let logs = cat5("Logs   ssh -i ", key, " ubuntu@", ip, " 'docker logs -f bittice'");
    let r = match domain {
        Some(d) => vec![
            cat2("REST   https://", d),
            cat5(
                "Admin  ssh -L 8080:127.0.0.1:8080 -i ",
                key,
                " ubuntu@",
                ip,
                "  →  http://127.0.0.1:8080",
            ),
            match grpc {
                Some(g) => cat5("gRPC   ", g, ":50051  (or ", ip, ":50051)"),
                None => cat3("gRPC   ", ip, ":50051"),
            },
            logs,
        ],
        None => vec![
            cat3("REST   http://", ip, ":3000"),
            cat3("Admin  http://", ip, ":8080"),
            cat3("gRPC   ", ip, ":50051"),
            logs,
        ],
    };
    let ghost want = report_lines(
        ip@,
        key@,
        match domain {
            Some(d) => Some(d@),
            None => None,
        },
        match grpc {
            Some(g) => Some(g@),
            None => None,
        },
    );
    assert(texts(r@) =~= want);
    r
}

/// What is said first when the engine runs. Behind a host name REST counts as well,
/// since its certificate may still be on the way.
pub fn running_line(
    ip: &str,
    admin_answers: bool,
    rest_answers: bool,
    has_domain: bool,
    profiles: usize,
) -> (r: String)
    ensures
        r@ == "Bittice running at "@ + ip@ + "  (admin local: "@ + ok_text(admin_answers)
            + ", REST: "@ + (ok_text(rest_answers || has_domain) + ", CDC profiles: "@
            + decimal_spec(profiles as nat) + ")"@),
{
    let admin = if admin_answers {
        "OK"
    } else {
        "check pending"
    };
    let rest = if rest_answers || has_domain {
        "OK"
    } else {
        "check pending"
    };
    let n = decimal(profiles as u64);
    let mut s = cat5("Bittice running at ", ip, "  (admin local: ", admin, ", REST: ");
    let t = cat4(rest, ", CDC profiles: ", n.as_str(), ")");
    s.append(t.as_str());
    s
}

/// A proxy is run if and only if there is a host name, so the engine's own port is open
/// to the outside only where there is none.
pub proof fn law_proxy_needs_domain(image: Seq<char>, ident: Option<IdentityView>)
    ensures
        compose_file(image, ident, true) == SERVICES@ + image + LABELS@ + PROXIED_PORTS@ + SETTINGS@
            + identity_lines(ident) + RESTART@ + PROXY@ + WATCHTOWER@ + PROXY_NETWORK@,
        compose_file(image, ident, false) == SERVICES@ + image + LABELS@ + OPEN_PORTS@ + SETTINGS@
            + identity_lines(ident) + RESTART@ + WATCHTOWER@,
{
    let a = SERVICES@ + image + LABELS@ + OPEN_PORTS@ + SETTINGS@ + identity_lines(ident)
        + RESTART@;
    assert(a + Seq::<char>::empty() =~= a);
    assert(a + WATCHTOWER@ + Seq::<char>::empty() =~= a + WATCHTOWER@);
}

} // verus!

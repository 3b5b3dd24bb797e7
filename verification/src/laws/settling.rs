//! What holds of the files and commands that set up a machine.

use crate::deploy::compose::{
    compose_file, identity_lines, AWAIT_DOCKER, GET_COMPOSE, IdentityView, LABELS, OPEN_PORTS,
    PROXIED_PORTS, PROXY, PROXY_NETWORK, RESTART, SERVICES, SETTINGS, START, TEAR_DOWN, WATCHTOWER,
};
use crate::laws::saying::holds;
use vstd::prelude::*;

verus! {

proof fn lemma_holds_at(all: Seq<char>, part: Seq<char>, at: int)
    requires
        0 <= at,
        at + part.len() <= all.len(),
        all.subrange(at, at + part.len()) == part,
    ensures
        holds(all, part),
{
    let a = all.take(at);
    let b = all.skip(at + part.len());
    assert(all =~= a + part + b);
    assert(all == a + part + b);
}

/// The engine runs under the name `bittice`, and says that its image may be renewed.
pub proof fn law_container_labels(before: Seq<char>, after: Seq<char>)
    ensures
        holds(before + LABELS@ + after, "container_name: bittice"@),
        holds(before + LABELS@ + after, "com.centurylinklabs.watchtower.enable=true"@),
{
    reveal_strlit(
        "\"\n    container_name: bittice\n    labels:\n      - \"com.centurylinklabs.watchtower.enable=true\"\n",
    );
    let whole = before + LABELS@ + after;
    let n = before.len() as int;
    assert(LABELS@.len() >= 29 && LABELS@.subrange(6, 29) =~= "container_name: bittice"@) by {
        reveal_strlit("container_name: bittice");
    }
    assert(whole.subrange(n + 6, n + 29) =~= LABELS@.subrange(6, 29));
    lemma_holds_at(whole, "container_name: bittice"@, n + 6);
    assert(LABELS@.len() >= 93 && LABELS@.subrange(51, 93) =~= "com.centurylinklabs.watchtower.enable=true"@) by {
        reveal_strlit("com.centurylinklabs.watchtower.enable=true");
    }
    assert(whole.subrange(n + 51, n + 93) =~= LABELS@.subrange(51, 93));
    lemma_holds_at(whole, "com.centurylinklabs.watchtower.enable=true"@, n + 51);
}

/// Without a host name the three ports of the engine are open.
pub proof fn law_open_ports(before: Seq<char>, after: Seq<char>)
    ensures
        holds(before + OPEN_PORTS@ + after, "\"0.0.0.0:3000:3000\""@),
        holds(before + OPEN_PORTS@ + after, "\"0.0.0.0:8080:8080\""@),
        holds(before + OPEN_PORTS@ + after, "\"0.0.0.0:50051:50051\""@),
{
    reveal_strlit(
        "    ports:\n      - \"0.0.0.0:3000:3000\"\n      - \"0.0.0.0:8080:8080\"\n      - \"0.0.0.0:50051:50051\"\n",
    );
    let whole = before + OPEN_PORTS@ + after;
    let n = before.len() as int;
    assert(OPEN_PORTS@.len() >= 38 && OPEN_PORTS@.subrange(19, 38) =~= "\"0.0.0.0:3000:3000\""@) by {
        reveal_strlit("\"0.0.0.0:3000:3000\"");
    }
    assert(whole.subrange(n + 19, n + 38) =~= OPEN_PORTS@.subrange(19, 38));
    lemma_holds_at(whole, "\"0.0.0.0:3000:3000\""@, n + 19);
    assert(OPEN_PORTS@.len() >= 66 && OPEN_PORTS@.subrange(47, 66) =~= "\"0.0.0.0:8080:8080\""@) by {
        reveal_strlit("\"0.0.0.0:8080:8080\"");
    }
    assert(whole.subrange(n + 47, n + 66) =~= OPEN_PORTS@.subrange(47, 66));
    lemma_holds_at(whole, "\"0.0.0.0:8080:8080\""@, n + 47);
    assert(OPEN_PORTS@.len() >= 96 && OPEN_PORTS@.subrange(75, 96) =~= "\"0.0.0.0:50051:50051\""@) by {
        reveal_strlit("\"0.0.0.0:50051:50051\"");
    }
    assert(whole.subrange(n + 75, n + 96) =~= OPEN_PORTS@.subrange(75, 96));
    lemma_holds_at(whole, "\"0.0.0.0:50051:50051\""@, n + 75);
}

/// Behind a host name the port of the administration is open on the machine alone, and
/// the engine is in the network of the proxy.
pub proof fn law_proxied_ports(before: Seq<char>, after: Seq<char>)
    ensures
        holds(before + PROXIED_PORTS@ + after, "\"127.0.0.1:8080:8080\""@),
        holds(before + PROXIED_PORTS@ + after, "\"50051:50051\""@),
        holds(before + PROXIED_PORTS@ + after, "bittice_net"@),
{
    reveal_strlit(
        "    ports:\n      - \"127.0.0.1:8080:8080\"\n      - \"50051:50051\"\n    networks:\n      - bittice_net\n",
    );
    let whole = before + PROXIED_PORTS@ + after;
    let n = before.len() as int;
    assert(PROXIED_PORTS@.len() >= 40 && PROXIED_PORTS@.subrange(19, 40) =~= "\"127.0.0.1:8080:8080\""@) by {
        reveal_strlit("\"127.0.0.1:8080:8080\"");
    }
    assert(whole.subrange(n + 19, n + 40) =~= PROXIED_PORTS@.subrange(19, 40));
    lemma_holds_at(whole, "\"127.0.0.1:8080:8080\""@, n + 19);
    assert(PROXIED_PORTS@.len() >= 62 && PROXIED_PORTS@.subrange(49, 62) =~= "\"50051:50051\""@) by {
        reveal_strlit("\"50051:50051\"");
    }
    assert(whole.subrange(n + 49, n + 62) =~= PROXIED_PORTS@.subrange(49, 62));
    lemma_holds_at(whole, "\"50051:50051\""@, n + 49);
    assert(PROXIED_PORTS@.len() >= 96 && PROXIED_PORTS@.subrange(85, 96) =~= "bittice_net"@) by {
        reveal_strlit("bittice_net");
    }
    assert(whole.subrange(n + 85, n + 96) =~= PROXIED_PORTS@.subrange(85, 96));
    lemma_holds_at(whole, "bittice_net"@, n + 85);
}

/// The engine keeps its data in the folder that is copied to, listens everywhere, runs alone
/// and watches its sources as it should.
pub proof fn law_engine_settings(before: Seq<char>, after: Seq<char>)
    ensures
        holds(before + SETTINGS@ + after, "- /opt/bittice/data:/app/data\n"@),
        holds(before + SETTINGS@ + after, "- BITTICE_HOST=0.0.0.0\n"@),
        holds(before + SETTINGS@ + after, "- BITTICE_ENGINE_ONLY=1\n"@),
        holds(before + SETTINGS@ + after, "- BITTICE_CDC_HEALTH_CHECK_MAX_FAILURES=0\n"@),
        holds(before + SETTINGS@ + after, "- BITTICE_CDC_HEALTH_CHECK_INTERVAL_SECS=300\n"@),
        holds(before + SETTINGS@ + after, "- BITTICE_CDC_STREAM_SILENCE_TIMEOUT_SECS=90\n"@),
{
    reveal_strlit(
        "    volumes:\n      - /opt/bittice/data:/app/data\n    environment:\n      - BITTICE_HOST=0.0.0.0\n      - BITTICE_ENGINE_ONLY=1\n      - BITTICE_CDC_HEALTH_CHECK_MAX_FAILURES=0\n      - BITTICE_CDC_HEALTH_CHECK_INTERVAL_SECS=300\n      - BITTICE_CDC_STREAM_SILENCE_TIMEOUT_SECS=90\n      # NOTE: BITTICE_SKIP_STARTUP_COMPACT is intentionally NOT set here.\n      # Compact folds the mini-segment explosion from CDC write paths into a\n      # small number of large segments; skipping it on customer instances would\n      # let segments grow unbounded over time. We only skip on the corp\n      # dev instance where startup speed beats long-term shape.\n",
    );
    let whole = before + SETTINGS@ + after;
    let n = before.len() as int;
    assert(SETTINGS@.len() >= 49 && SETTINGS@.subrange(19, 49) =~= "- /opt/bittice/data:/app/data\n"@) by {
        reveal_strlit("- /opt/bittice/data:/app/data\n");
    }
    assert(whole.subrange(n + 19, n + 49) =~= SETTINGS@.subrange(19, 49));
    lemma_holds_at(whole, "- /opt/bittice/data:/app/data\n"@, n + 19);
    assert(SETTINGS@.len() >= 95 && SETTINGS@.subrange(72, 95) =~= "- BITTICE_HOST=0.0.0.0\n"@) by {
        reveal_strlit("- BITTICE_HOST=0.0.0.0\n");
    }
    assert(whole.subrange(n + 72, n + 95) =~= SETTINGS@.subrange(72, 95));
    lemma_holds_at(whole, "- BITTICE_HOST=0.0.0.0\n"@, n + 72);
    assert(SETTINGS@.len() >= 125 && SETTINGS@.subrange(101, 125) =~= "- BITTICE_ENGINE_ONLY=1\n"@) by {
        reveal_strlit("- BITTICE_ENGINE_ONLY=1\n");
    }
    assert(whole.subrange(n + 101, n + 125) =~= SETTINGS@.subrange(101, 125));
    lemma_holds_at(whole, "- BITTICE_ENGINE_ONLY=1\n"@, n + 101);
    assert(SETTINGS@.len() >= 173 && SETTINGS@.subrange(131, 173) =~= "- BITTICE_CDC_HEALTH_CHECK_MAX_FAILURES=0\n"@) by {
        reveal_strlit("- BITTICE_CDC_HEALTH_CHECK_MAX_FAILURES=0\n");
    }
    assert(whole.subrange(n + 131, n + 173) =~= SETTINGS@.subrange(131, 173));
    lemma_holds_at(whole, "- BITTICE_CDC_HEALTH_CHECK_MAX_FAILURES=0\n"@, n + 131);
    assert(SETTINGS@.len() >= 224 && SETTINGS@.subrange(179, 224) =~= "- BITTICE_CDC_HEALTH_CHECK_INTERVAL_SECS=300\n"@) by {
        reveal_strlit("- BITTICE_CDC_HEALTH_CHECK_INTERVAL_SECS=300\n");
    }
    assert(whole.subrange(n + 179, n + 224) =~= SETTINGS@.subrange(179, 224));
    lemma_holds_at(whole, "- BITTICE_CDC_HEALTH_CHECK_INTERVAL_SECS=300\n"@, n + 179);
    assert(SETTINGS@.len() >= 275 && SETTINGS@.subrange(230, 275) =~= "- BITTICE_CDC_STREAM_SILENCE_TIMEOUT_SECS=90\n"@) by {
        reveal_strlit("- BITTICE_CDC_STREAM_SILENCE_TIMEOUT_SECS=90\n");
    }
    assert(whole.subrange(n + 230, n + 275) =~= SETTINGS@.subrange(230, 275));
    lemma_holds_at(whole, "- BITTICE_CDC_STREAM_SILENCE_TIMEOUT_SECS=90\n"@, n + 230);
}

/// The engine is started again unless it was stopped.
pub proof fn law_engine_restarts(before: Seq<char>, after: Seq<char>)
    ensures
        holds(before + RESTART@ + after, "restart: unless-stopped"@),
{
    reveal_strlit(
        "    restart: unless-stopped\n",
    );
    let whole = before + RESTART@ + after;
    let n = before.len() as int;
    assert(RESTART@.len() >= 27 && RESTART@.subrange(4, 27) =~= "restart: unless-stopped"@) by {
        reveal_strlit("restart: unless-stopped");
    }
    assert(whole.subrange(n + 4, n + 27) =~= RESTART@.subrange(4, 27));
    lemma_holds_at(whole, "restart: unless-stopped"@, n + 4);
}

/// The proxy listens on the two ports of the web and reads its settings from the file that
/// is written for it, after the engine is there.
pub proof fn law_proxy_settings(before: Seq<char>, after: Seq<char>)
    ensures
        holds(before + PROXY@ + after, "image: caddy:2-alpine"@),
        holds(before + PROXY@ + after, "\"443:443\""@),
        holds(before + PROXY@ + after, "\"80:80\""@),
        holds(before + PROXY@ + after, "/opt/bittice/Caddyfile:/etc/caddy/Caddyfile:ro"@),
        holds(before + PROXY@ + after, "depends_on:\n      - bittice\n"@),
{
    reveal_strlit(
        "\n  caddy:\n    image: caddy:2-alpine\n    container_name: caddy\n    restart: unless-stopped\n    ports:\n      - \"443:443\"\n      - \"80:80\"\n    volumes:\n      - /opt/bittice/Caddyfile:/etc/caddy/Caddyfile:ro\n      - caddy_data:/data\n      - caddy_config:/config\n    networks:\n      - bittice_net\n    depends_on:\n      - bittice\n",
    );
    let whole = before + PROXY@ + after;
    let n = before.len() as int;
    assert(PROXY@.len() >= 35 && PROXY@.subrange(14, 35) =~= "image: caddy:2-alpine"@) by {
        reveal_strlit("image: caddy:2-alpine");
    }
    assert(whole.subrange(n + 14, n + 35) =~= PROXY@.subrange(14, 35));
    lemma_holds_at(whole, "image: caddy:2-alpine"@, n + 14);
    assert(PROXY@.len() >= 118 && PROXY@.subrange(109, 118) =~= "\"443:443\""@) by {
        reveal_strlit("\"443:443\"");
    }
    assert(whole.subrange(n + 109, n + 118) =~= PROXY@.subrange(109, 118));
    lemma_holds_at(whole, "\"443:443\""@, n + 109);
    assert(PROXY@.len() >= 134 && PROXY@.subrange(127, 134) =~= "\"80:80\""@) by {
        reveal_strlit("\"80:80\"");
    }
    assert(whole.subrange(n + 127, n + 134) =~= PROXY@.subrange(127, 134));
    lemma_holds_at(whole, "\"80:80\""@, n + 127);
    assert(PROXY@.len() >= 202 && PROXY@.subrange(156, 202) =~= "/opt/bittice/Caddyfile:/etc/caddy/Caddyfile:ro"@) by {
        reveal_strlit("/opt/bittice/Caddyfile:/etc/caddy/Caddyfile:ro");
    }
    assert(whole.subrange(n + 156, n + 202) =~= PROXY@.subrange(156, 202));
    lemma_holds_at(whole, "/opt/bittice/Caddyfile:/etc/caddy/Caddyfile:ro"@, n + 156);
    assert(PROXY@.len() >= 323 && PROXY@.subrange(295, 323) =~= "depends_on:\n      - bittice\n"@) by {
        reveal_strlit("depends_on:\n      - bittice\n");
    }
    assert(whole.subrange(n + 295, n + 323) =~= PROXY@.subrange(295, 323));
    lemma_holds_at(whole, "depends_on:\n      - bittice\n"@, n + 295);
}

/// What renews the image looks every three hundred seconds, at what says that it may be
/// renewed, and takes away what it replaced.
pub proof fn law_renewal_settings(before: Seq<char>, after: Seq<char>)
    ensures
        holds(before + WATCHTOWER@ + after, "image: containrrr/watchtower:latest"@),
        holds(before + WATCHTOWER@ + after, "DOCKER_API_VERSION=1.44"@),
        holds(before + WATCHTOWER@ + after, "/var/run/docker.sock:/var/run/docker.sock"@),
        holds(before + WATCHTOWER@ + after, "- --interval\n      - \"300\"\n"@),
        holds(before + WATCHTOWER@ + after, "- --label-enable"@),
        holds(before + WATCHTOWER@ + after, "- --cleanup"@),
{
    reveal_strlit(
        "\n  watchtower:\n    image: containrrr/watchtower:latest\n    container_name: watchtower\n    restart: unless-stopped\n    environment:\n      # Ubuntu 22.04+ ships Docker daemon API 1.44+, which rejects watchtower's\n      # default older client API. Pinning here unblocks the docker.sock\n      # handshake. Bump if AWS Ubuntu AMIs ever ship Docker >= 30.x.\n      - DOCKER_API_VERSION=1.44\n    volumes:\n      - /var/run/docker.sock:/var/run/docker.sock\n    command:\n      - --interval\n      - \"300\"\n      - --label-enable\n      - --cleanup\n",
    );
    let whole = before + WATCHTOWER@ + after;
    let n = before.len() as int;
    assert(WATCHTOWER@.len() >= 54 && WATCHTOWER@.subrange(19, 54) =~= "image: containrrr/watchtower:latest"@) by {
        reveal_strlit("image: containrrr/watchtower:latest");
    }
    assert(whole.subrange(n + 19, n + 54) =~= WATCHTOWER@.subrange(19, 54));
    lemma_holds_at(whole, "image: containrrr/watchtower:latest"@, n + 19);
    assert(WATCHTOWER@.len() >= 383 && WATCHTOWER@.subrange(360, 383) =~= "DOCKER_API_VERSION=1.44"@) by {
        reveal_strlit("DOCKER_API_VERSION=1.44");
    }
    assert(whole.subrange(n + 360, n + 383) =~= WATCHTOWER@.subrange(360, 383));
    lemma_holds_at(whole, "DOCKER_API_VERSION=1.44"@, n + 360);
    assert(WATCHTOWER@.len() >= 446 && WATCHTOWER@.subrange(405, 446) =~= "/var/run/docker.sock:/var/run/docker.sock"@) by {
        reveal_strlit("/var/run/docker.sock:/var/run/docker.sock");
    }
    assert(whole.subrange(n + 405, n + 446) =~= WATCHTOWER@.subrange(405, 446));
    lemma_holds_at(whole, "/var/run/docker.sock:/var/run/docker.sock"@, n + 405);
    assert(WATCHTOWER@.len() >= 493 && WATCHTOWER@.subrange(466, 493) =~= "- --interval\n      - \"300\"\n"@) by {
        reveal_strlit("- --interval\n      - \"300\"\n");
    }
    assert(whole.subrange(n + 466, n + 493) =~= WATCHTOWER@.subrange(466, 493));
    lemma_holds_at(whole, "- --interval\n      - \"300\"\n"@, n + 466);
    assert(WATCHTOWER@.len() >= 515 && WATCHTOWER@.subrange(499, 515) =~= "- --label-enable"@) by {
        reveal_strlit("- --label-enable");
    }
    assert(whole.subrange(n + 499, n + 515) =~= WATCHTOWER@.subrange(499, 515));
    lemma_holds_at(whole, "- --label-enable"@, n + 499);
    assert(WATCHTOWER@.len() >= 533 && WATCHTOWER@.subrange(522, 533) =~= "- --cleanup"@) by {
        reveal_strlit("- --cleanup");
    }
    assert(whole.subrange(n + 522, n + 533) =~= WATCHTOWER@.subrange(522, 533));
    lemma_holds_at(whole, "- --cleanup"@, n + 522);
}

/// The containers are started in the folder that the files are written to.
pub proof fn law_start_command(before: Seq<char>, after: Seq<char>)
    ensures
        holds(before + START@ + after, "cd /opt/bittice && "@),
        holds(before + START@ + after, "docker compose up -d"@),
        holds(before + START@ + after, "docker-compose up -d"@),
{
    reveal_strlit(
        "cd /opt/bittice && (docker compose up -d 2>/dev/null || docker-compose up -d)",
    );
    let whole = before + START@ + after;
    let n = before.len() as int;
    assert(START@.len() >= 19 && START@.subrange(0, 19) =~= "cd /opt/bittice && "@) by {
        reveal_strlit("cd /opt/bittice && ");
    }
    assert(whole.subrange(n + 0, n + 19) =~= START@.subrange(0, 19));
    lemma_holds_at(whole, "cd /opt/bittice && "@, n + 0);
    assert(START@.len() >= 40 && START@.subrange(20, 40) =~= "docker compose up -d"@) by {
        reveal_strlit("docker compose up -d");
    }
    assert(whole.subrange(n + 20, n + 40) =~= START@.subrange(20, 40));
    lemma_holds_at(whole, "docker compose up -d"@, n + 20);
    assert(START@.len() >= 76 && START@.subrange(56, 76) =~= "docker-compose up -d"@) by {
        reveal_strlit("docker-compose up -d");
    }
    assert(whole.subrange(n + 56, n + 76) =~= START@.subrange(56, 76));
    lemma_holds_at(whole, "docker-compose up -d"@, n + 56);
}

/// What ran before is taken down, and the folder belongs to the user that is logged in.
pub proof fn law_tear_down_command(before: Seq<char>, after: Seq<char>)
    ensures
        holds(before + TEAR_DOWN@ + after, "sudo chown -R ubuntu:ubuntu /opt/bittice"@),
        holds(before + TEAR_DOWN@ + after, "docker rm -f bittice bittice-vpn caddy"@),
        holds(before + TEAR_DOWN@ + after, "docker-compose down"@),
        holds(before + TEAR_DOWN@ + after, "docker compose down"@),
{
    reveal_strlit(
        "sudo chown -R ubuntu:ubuntu /opt/bittice; sudo systemctl stop 'openvpn@*' 'openvpn-client@*' 2>/dev/null || true; sudo systemctl disable 'openvpn@bittice' 'openvpn-client@bittice' 2>/dev/null || true; docker rm -f bittice bittice-vpn caddy 2>/dev/null || true; cd /opt/bittice && docker-compose down 2>/dev/null || docker compose down 2>/dev/null || true",
    );
    let whole = before + TEAR_DOWN@ + after;
    let n = before.len() as int;
    assert(TEAR_DOWN@.len() >= 40 && TEAR_DOWN@.subrange(0, 40) =~= "sudo chown -R ubuntu:ubuntu /opt/bittice"@) by {
        reveal_strlit("sudo chown -R ubuntu:ubuntu /opt/bittice");
    }
    assert(whole.subrange(n + 0, n + 40) =~= TEAR_DOWN@.subrange(0, 40));
    lemma_holds_at(whole, "sudo chown -R ubuntu:ubuntu /opt/bittice"@, n + 0);
    assert(TEAR_DOWN@.len() >= 239 && TEAR_DOWN@.subrange(201, 239) =~= "docker rm -f bittice bittice-vpn caddy"@) by {
        reveal_strlit("docker rm -f bittice bittice-vpn caddy");
    }
    assert(whole.subrange(n + 201, n + 239) =~= TEAR_DOWN@.subrange(201, 239));
    lemma_holds_at(whole, "docker rm -f bittice bittice-vpn caddy"@, n + 201);
    assert(TEAR_DOWN@.len() >= 299 && TEAR_DOWN@.subrange(280, 299) =~= "docker-compose down"@) by {
        reveal_strlit("docker-compose down");
    }
    assert(whole.subrange(n + 280, n + 299) =~= TEAR_DOWN@.subrange(280, 299));
    lemma_holds_at(whole, "docker-compose down"@, n + 280);
    assert(TEAR_DOWN@.len() >= 334 && TEAR_DOWN@.subrange(315, 334) =~= "docker compose down"@) by {
        reveal_strlit("docker compose down");
    }
    assert(whole.subrange(n + 315, n + 334) =~= TEAR_DOWN@.subrange(315, 334));
    lemma_holds_at(whole, "docker compose down"@, n + 315);
}

/// The machine is waited for, and Docker is installed where it is missing; without it nothing
/// goes on.
pub proof fn law_await_docker_command(before: Seq<char>, after: Seq<char>)
    ensures
        holds(before + AWAIT_DOCKER@ + after, "sudo cloud-init status --wait"@),
        holds(before + AWAIT_DOCKER@ + after, "apt-get install -y -qq docker.io"@),
        holds(before + AWAIT_DOCKER@ + after, "sudo usermod -aG docker ubuntu"@),
        holds(before + AWAIT_DOCKER@ + after, "exit 1"@),
{
    reveal_strlit(
        "sudo cloud-init status --wait 2>/dev/null || true; if ! command -v docker >/dev/null 2>&1; then sudo DEBIAN_FRONTEND=noninteractive apt-get update -qq && sudo DEBIAN_FRONTEND=noninteractive apt-get install -y -qq docker.io && sudo systemctl enable --now docker && sudo usermod -aG docker ubuntu; fi; docker --version >/dev/null || { echo 'Docker install FAILED' >&2; exit 1; }",
    );
    let whole = before + AWAIT_DOCKER@ + after;
    let n = before.len() as int;
    assert(AWAIT_DOCKER@.len() >= 29 && AWAIT_DOCKER@.subrange(0, 29) =~= "sudo cloud-init status --wait"@) by {
        reveal_strlit("sudo cloud-init status --wait");
    }
    assert(whole.subrange(n + 0, n + 29) =~= AWAIT_DOCKER@.subrange(0, 29));
    lemma_holds_at(whole, "sudo cloud-init status --wait"@, n + 0);
    assert(AWAIT_DOCKER@.len() >= 222 && AWAIT_DOCKER@.subrange(190, 222) =~= "apt-get install -y -qq docker.io"@) by {
        reveal_strlit("apt-get install -y -qq docker.io");
    }
    assert(whole.subrange(n + 190, n + 222) =~= AWAIT_DOCKER@.subrange(190, 222));
    lemma_holds_at(whole, "apt-get install -y -qq docker.io"@, n + 190);
    assert(AWAIT_DOCKER@.len() >= 294 && AWAIT_DOCKER@.subrange(264, 294) =~= "sudo usermod -aG docker ubuntu"@) by {
        reveal_strlit("sudo usermod -aG docker ubuntu");
    }
    assert(whole.subrange(n + 264, n + 294) =~= AWAIT_DOCKER@.subrange(264, 294));
    lemma_holds_at(whole, "sudo usermod -aG docker ubuntu"@, n + 264);
    assert(AWAIT_DOCKER@.len() >= 373 && AWAIT_DOCKER@.subrange(367, 373) =~= "exit 1"@) by {
        reveal_strlit("exit 1");
    }
    assert(whole.subrange(n + 367, n + 373) =~= AWAIT_DOCKER@.subrange(367, 373));
    lemma_holds_at(whole, "exit 1"@, n + 367);
}

/// Compose is used in either form, or fetched.
pub proof fn law_get_compose_command(before: Seq<char>, after: Seq<char>)
    ensures
        holds(before + GET_COMPOSE@ + after, "docker compose version"@),
        holds(before + GET_COMPOSE@ + after, "docker-compose version"@),
        holds(before + GET_COMPOSE@ + after, "sudo chmod +x /usr/local/bin/docker-compose"@),
{
    reveal_strlit(
        "docker compose version 2>/dev/null || docker-compose version 2>/dev/null || (sudo curl -sSL https://github.com/docker/compose/releases/download/v2.27.0/docker-compose-linux-x86_64 -o /usr/local/bin/docker-compose && sudo chmod +x /usr/local/bin/docker-compose)",
    );
    let whole = before + GET_COMPOSE@ + after;
    let n = before.len() as int;
    assert(GET_COMPOSE@.len() >= 22 && GET_COMPOSE@.subrange(0, 22) =~= "docker compose version"@) by {
        reveal_strlit("docker compose version");
    }
    assert(whole.subrange(n + 0, n + 22) =~= GET_COMPOSE@.subrange(0, 22));
    lemma_holds_at(whole, "docker compose version"@, n + 0);
    assert(GET_COMPOSE@.len() >= 60 && GET_COMPOSE@.subrange(38, 60) =~= "docker-compose version"@) by {
        reveal_strlit("docker-compose version");
    }
    assert(whole.subrange(n + 38, n + 60) =~= GET_COMPOSE@.subrange(38, 60));
    lemma_holds_at(whole, "docker-compose version"@, n + 38);
    assert(GET_COMPOSE@.len() >= 259 && GET_COMPOSE@.subrange(216, 259) =~= "sudo chmod +x /usr/local/bin/docker-compose"@) by {
        reveal_strlit("sudo chmod +x /usr/local/bin/docker-compose");
    }
    assert(whole.subrange(n + 216, n + 259) =~= GET_COMPOSE@.subrange(216, 259));
    lemma_holds_at(whole, "sudo chmod +x /usr/local/bin/docker-compose"@, n + 216);
}

#[verifier::spinoff_prover]
proof fn lemma_parts(
    s: Seq<char>,
    i: Seq<char>,
    l: Seq<char>,
    p: Seq<char>,
    t: Seq<char>,
    k: Seq<char>,
    r: Seq<char>,
    x: Seq<char>,
    w: Seq<char>,
    z: Seq<char>,
)
    ensures
        ({
            let all = s + i + l + p + t + k + r + x + w + z;
            let f = w + z;
            let e = r + x + f;
            let d = t + k + e;
            let a = s + i;
            &&& all == s + i + (l + p + d)
            &&& all == a + l + (p + d)
            &&& all == (a + l) + p + d
            &&& all == (a + l + p) + t + (k + e)
            &&& all == (a + l + p + t + k) + r + (x + f)
            &&& all == (a + l + p + t + k + r) + x + f
            &&& all == (a + l + p + t + k + r + x) + w + z
        }),
{
    let all = s + i + l + p + t + k + r + x + w + z;
    let f = w + z;
    let e = r + x + f;
    let d = t + k + e;
    let a = s + i;
    assert(all =~= (a + l + p + t + k + r + x) + w + z);
    assert(all =~= (a + l + p + t + k + r) + x + f);
    assert(all =~= (a + l + p + t + k) + r + (x + f));
    assert(all =~= (a + l + p + t + k) + e);
    assert(all =~= (a + l + p) + t + (k + e));
    assert(all =~= (a + l + p) + d);
    assert(all =~= a + l + (p + d));
    assert(all =~= a + (l + p + d));
}

/// The file that tells what is run: whatever the image, it holds the settings of the engine,
/// starts it again and renews it; with a host name it holds the proxy, and without one the
/// ports of the engine are open.
pub proof fn law_compose_contents(image: Seq<char>, ident: Option<IdentityView>, proxied: bool)
    ensures
        ({
            let all = compose_file(image, ident, proxied);
            &&& holds(all, image)
            &&& holds(all, "- /opt/bittice/data:/app/data\n"@)
            &&& holds(all, "- BITTICE_HOST=0.0.0.0\n"@)
            &&& holds(all, "- BITTICE_ENGINE_ONLY=1\n"@)
            &&& holds(all, "restart: unless-stopped"@)
            &&& holds(all, "com.centurylinklabs.watchtower.enable=true"@)
            &&& holds(all, "image: containrrr/watchtower:latest"@)
            &&& !proxied ==> holds(all, "\"0.0.0.0:3000:3000\""@) && holds(
                all,
                "\"0.0.0.0:50051:50051\""@,
            )
            &&& proxied ==> holds(all, "\"127.0.0.1:8080:8080\""@) && holds(all, "\"443:443\""@)
                && holds(all, "/opt/bittice/Caddyfile:/etc/caddy/Caddyfile:ro"@)
        }),
{
    let all = compose_file(image, ident, proxied);
    let none = Seq::<char>::empty();
    let ports = if proxied {
        PROXIED_PORTS@
    } else {
        OPEN_PORTS@
    };
    let proxy = if proxied {
        PROXY@
    } else {
        none
    };
    let end = if proxied {
        PROXY_NETWORK@
    } else {
        none
    };
    let known = identity_lines(ident);
    let a = SERVICES@ + image;
    let f = WATCHTOWER@ + end;
    let e = RESTART@ + proxy + f;
    let d = SETTINGS@ + known + e;
    lemma_parts(SERVICES@, image, LABELS@, ports, SETTINGS@, known, RESTART@, proxy, WATCHTOWER@, end);
    assert(all == SERVICES@ + image + (LABELS@ + ports + d));
    law_container_labels(a, ports + d);
    if proxied {
        law_proxied_ports(a + LABELS@, d);
        law_proxy_settings(a + LABELS@ + ports + SETTINGS@ + known + RESTART@, f);
    } else {
        law_open_ports(a + LABELS@, d);
    }
    law_engine_settings(a + LABELS@ + ports, known + e);
    law_engine_restarts(a + LABELS@ + ports + SETTINGS@ + known, proxy + f);
    law_renewal_settings(a + LABELS@ + ports + SETTINGS@ + known + RESTART@ + proxy, end);
}

} // verus!

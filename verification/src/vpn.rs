//! The VPN through which a database may be reached.

use crate::phrase::{cat2, cat3, cat4, ends_with_char, ends_in, keep_last, last_items};
use crate::repl::editor::{text_lines, text_lines_of};
use crate::settings::setting_view;
use crate::text::{
    contains_text, join_spec, lowercase, occurs_at, join_texts, occurs_in, parse_number, parsed_number, same_text, texts,
    trim_spec, trimmed,
};
use vstd::prelude::*;

verus! {

/// The VPN.
pub struct VpnManager;

/// The file in which the program of the VPN notes its number.
pub const PID_FILE: &'static str = "/tmp/bittice-openvpn.pid";

/// Where programs are looked for on a Mac.
pub const MAC_PATH: &'static str =
    "/opt/homebrew/bin:/opt/homebrew/sbin:/usr/local/bin:/usr/local/sbin:/usr/bin:/bin:/usr/sbin:/sbin";

/// Whether a word in small letters switches something on.
pub open spec fn means_yes(word: Seq<char>) -> bool {
    word == "1"@ || word == "true"@ || word == "yes"@ || word == "on"@
}

/// Whether a word in small letters switches something on.
pub fn is_yes(word: &str) -> (r: bool)
    ensures
        r == means_yes(word@),
{
    same_text(word, "1") || same_text(word, "true") || same_text(word, "yes") || same_text(
        word,
        "on",
    )
}

/// Whether the program runs in a container: its mark is there, a host is set, or it
/// is told to run the engine only.
pub open spec fn in_container(mark: bool, host_is_set: bool, engine_only: Option<Seq<char>>) -> bool {
    mark || host_is_set || (match engine_only {
        Some(s) => means_yes(trim_spec(s)),
        None => false,
    })
}

/// Whether the program runs in a container.
pub fn is_docker(mark: bool, host_is_set: bool, engine_only: Option<&str>) -> (r: bool)
    ensures
        r == in_container(mark, host_is_set, setting_view(engine_only)),
{
    if mark || host_is_set {
        return true;
    }
    match engine_only {
        Some(s) => is_yes(trimmed(s).as_str()),
        None => false,
    }
}

/// The settings without which the VPN does not work with every server.
pub open spec fn baseline() -> Seq<Seq<char>> {
    seq![
        "client"@,
        "dev tun"@,
        "data-ciphers AES-256-GCM:AES-128-GCM"@,
        "mssfix 1400"@,
    ]
}

/// The settings by which only the database goes through the VPN.
pub open spec fn split_settings() -> Seq<Seq<char>> {
    seq!["route-nopull"@, "pull-filter ignore redirect-gateway"@]
}

/// Settings with another one, on a line of its own, where they do not hold it.
pub open spec fn with_setting(content: Seq<char>, setting: Seq<char>) -> Seq<char> {
    if occurs_in(content, setting) {
        content
    } else if ends_in(content, '\n') {
        content + setting + "\n"@
    } else {
        content + "\n"@ + setting + "\n"@
    }
}

/// Settings with the first others.
pub open spec fn with_settings(content: Seq<char>, settings: Seq<Seq<char>>) -> Seq<char>
    decreases settings.len(),
{
    if settings.len() == 0 {
        content
    } else {
        with_setting(with_settings(content, settings.drop_last()), settings.last())
    }
}

/// The line by which an address goes through the VPN.
pub open spec fn route_of(ip: Seq<char>) -> Seq<char> {
    "route "@ + ip + " 255.255.255.255 vpn_gateway"@
}

/// The settings of the VPN as they are used: completed, and where only the database is
/// to go through it, with the way to its address where that is known.
pub open spec fn prepared(content: Seq<char>, split: bool, ip: Option<Seq<char>>) -> Seq<char> {
    let base = with_settings(content, baseline());
    if split {
        let s = with_settings(base, split_settings());
        match ip {
            Some(a) => if occurs_in(s, route_of(a)) {
                s
            } else {
                s + route_of(a) + "\n"@
            },
            None => s,
        }
    } else {
        base
    }
}

fn add_setting(content: String, setting: &str) -> (r: String)
    ensures
        r@ == with_setting(content@, setting@),
{
    if contains_text(content.as_str(), setting) {
        return content;
    }
    if ends_with_char(content.as_str(), '\n') {
        cat3(content.as_str(), setting, "\n")
    } else {
        cat4(content.as_str(), "\n", setting, "\n")
    }
}

proof fn lemma_four(content: Seq<char>, a: Seq<char>, b: Seq<char>, c: Seq<char>, d: Seq<char>)
    ensures
        with_settings(content, seq![a, b, c, d]) == with_setting(
            with_setting(with_setting(with_setting(content, a), b), c),
            d,
        ),
{
    let s4 = seq![a, b, c, d];
    let s3 = seq![a, b, c];
    let s2 = seq![a, b];
    let s1 = seq![a];
    assert(s4.drop_last() =~= s3);
    assert(s3.drop_last() =~= s2);
    assert(s2.drop_last() =~= s1);
    assert(s1.drop_last() =~= Seq::empty());
    reveal_with_fuel(with_settings, 5);
}

proof fn lemma_two(content: Seq<char>, a: Seq<char>, b: Seq<char>)
    ensures
        with_settings(content, seq![a, b]) == with_setting(with_setting(content, a), b),
{
    let s2 = seq![a, b];
    let s1 = seq![a];
    assert(s2.drop_last() =~= s1);
    assert(s1.drop_last() =~= Seq::empty());
    reveal_with_fuel(with_settings, 3);
}

impl VpnManager {
    /// The settings of the VPN as they are used.
    pub fn prepare_ovpn_file(content: &str, split_tunnel: bool, db_ip: Option<&str>) -> (r: String)
        ensures
            r@ == prepared(content@, split_tunnel, setting_view(db_ip)),
    {
        let s = add_setting(content.to_owned(), "client");
        let s = add_setting(s, "dev tun");
        let s = add_setting(s, "data-ciphers AES-256-GCM:AES-128-GCM");
        let s = add_setting(s, "mssfix 1400");
        proof {
            lemma_four(
                content@,
                "client"@,
                "dev tun"@,
                "data-ciphers AES-256-GCM:AES-128-GCM"@,
                "mssfix 1400"@,
            );
        }
        if !split_tunnel {
            return s;
        }
        proof {
            lemma_two(s@, "route-nopull"@, "pull-filter ignore redirect-gateway"@);
        }
        let s = add_setting(s, "route-nopull");
        let s = add_setting(s, "pull-filter ignore redirect-gateway");
        match db_ip {
            Some(ip) => {
                let route = cat3("route ", ip, " 255.255.255.255 vpn_gateway");
                if contains_text(s.as_str(), route.as_str()) {
                    s
                } else {
                    cat3(s.as_str(), route.as_str(), "\n")
                }
            },
            None => s,
        }
    }

    /// The name under which the prepared settings are kept.
    pub fn prepared_name(file_name: &str) -> (r: String)
        ensures
            r@ == "prepared_"@ + file_name@,
    {
        cat2("prepared_", file_name)
    }

    /// The folders in which a file of the VPN is looked for, in their order.
    pub fn ovpn_folders(storage: &str, data_storage: &str) -> (r: Vec<String>)
        ensures
            texts(r@) == seq![storage@, data_storage@, "/app/vpn"@, "/app/data/vpn"@],
    {
        let r = vec![
            storage.to_owned(),
            data_storage.to_owned(),
            "/app/vpn".to_owned(),
            "/app/data/vpn".to_owned(),
        ];
        assert(texts(r@) =~= seq![storage@, data_storage@, "/app/vpn"@, "/app/data/vpn"@]);
        r
    }

    /// The first place at which there is a file, or else the one that was given.
    pub fn resolve_ovpn_path(given: &str, given_is_there: bool, candidates: &Vec<String>, there: &Vec<
        bool,
    >) -> (r: String)
        requires
            there@.len() == candidates@.len(),
        ensures
            r@ == resolved(given@, given_is_there, texts(candidates@), there@, 0),
    {
        if given_is_there {
            return given.to_owned();
        }
        let mut i: usize = 0;
        while i < candidates.len()
            invariant
                i <= candidates@.len(),
                !given_is_there,
                there@.len() == candidates@.len(),
                resolved(given@, false, texts(candidates@), there@, 0) == resolved(
                    given@,
                    false,
                    texts(candidates@),
                    there@,
                    i as int,
                ),
            decreases candidates@.len() - i,
        {
            assert(texts(candidates@)[i as int] == candidates@[i as int]@);
            if there[i] {
                return candidates[i].as_str().to_owned();
            }
            i = i + 1;
        }
        given.to_owned()
    }

    /// Where files of the VPN are kept: where it is set, in the container's folder, or
    /// else with the data.
    pub fn storage_dir(
        setting: Option<&str>,
        folder_is_there: bool,
        container: bool,
        data_storage: &str,
    ) -> (r: String)
        ensures
            r@ == storage(setting_view(setting), folder_is_there || container, data_storage@),
    {
        if let Some(s) = setting {
            let t = trimmed(s);
            if !t.as_str().is_empty() {
                return s.to_owned();
            }
        }
        if folder_is_there || container {
            "/app/vpn".to_owned()
        } else {
            data_storage.to_owned()
        }
    }

    /// The programs of the VPN that are tried, in their order: the one that is set, those
    /// that a Mac may have, and the one on the path. None where the setting is blank.
    pub fn binary_candidates(setting: Option<&str>, mac: bool, found_on_mac: Option<&str>) -> (r: Vec<
        String,
    >)
        ensures
            texts(r@) == binaries(setting_view(setting), mac, setting_view(found_on_mac)),
    {
        let mut out: Vec<String> = Vec::new();
        assert(texts(out@) =~= Seq::empty());
        if let Some(s) = setting {
            let t = trimmed(s);
            if t.as_str().is_empty() {
                return out;
            }
            out.push(t);
            assert(texts(out@) =~= seq![t@]);
        }
        let ghost head = texts(out@);
        if mac {
            out.push("/opt/homebrew/opt/openvpn/sbin/openvpn".to_owned());
            out.push("/opt/homebrew/sbin/openvpn".to_owned());
            out.push("/opt/homebrew/bin/openvpn".to_owned());
            out.push("/usr/local/opt/openvpn/sbin/openvpn".to_owned());
            out.push("/usr/local/sbin/openvpn".to_owned());
            out.push("/usr/local/bin/openvpn".to_owned());
            if let Some(f) = found_on_mac {
                out.push(f.to_owned());
            }
        }
        out.push("openvpn".to_owned());
        assert(texts(out@) =~= binaries(setting_view(setting), mac, setting_view(found_on_mac)));
        out
    }

    /// The first program that works. For the one on the path, a Mac gives the whole path
    /// where it is known.
    pub fn resolved_openvpn_binary(
        setting: Option<&str>,
        mac: bool,
        found_on_mac: Option<&str>,
        works: &Vec<bool>,
    ) -> (r: Option<String>)
        requires
            works@.len() == binaries(setting_view(setting), mac, setting_view(found_on_mac)).len(),
        ensures
            string_view(r) == chosen_binary(
                setting_view(setting),
                mac,
                setting_view(found_on_mac),
                works@,
            ),
    {
        let candidates = VpnManager::binary_candidates(setting, mac, found_on_mac);
        let ghost all = binaries(setting_view(setting), mac, setting_view(found_on_mac));
        assert(texts(candidates@).len() == candidates@.len());
        let mut i: usize = 0;
        while i < candidates.len()
            invariant
                i <= candidates@.len(),
                works@.len() == candidates@.len(),
                texts(candidates@) == all,
                texts(candidates@).len() == candidates@.len(),
                all == binaries(setting_view(setting), mac, setting_view(found_on_mac)),
                first_working(works@, 0) == first_working(works@, i as int),
            decreases candidates@.len() - i,
        {
            assert(texts(candidates@)[i as int] == candidates@[i as int]@);
            if works[i] {
                if mac && i + 1 == candidates.len() {
                    if let Some(f) = found_on_mac {
                        return Some(f.to_owned());
                    }
                }
                return Some(candidates[i].as_str().to_owned());
            }
            i = i + 1;
        }
        None
    }

    /// Whether the VPN is installed: some program works.
    pub fn is_installed(works: &Vec<bool>) -> (r: bool)
        ensures
            r == works@.contains(true),
    {
        let mut i: usize = 0;
        while i < works.len()
            invariant
                i <= works@.len(),
                forall|k: int| 0 <= k < i ==> !#[trigger] works@[k],
            decreases works@.len() - i,
        {
            if works[i] {
                assert(works@[i as int]);
                return true;
            }
            i = i + 1;
        }
        false
    }

    /// The path of the program that a command printed on its first line.
    pub fn which_openvpn_macos(success: bool, output: &str) -> (r: Option<String>)
        ensures
            string_view(r) == printed_path(success, output@),
    {
        if !success {
            return None;
        }
        let lines = text_lines_of(output);
        assert(texts(lines@).len() == lines@.len());
        if lines.len() == 0 {
            return None;
        }
        assert(texts(lines@)[0] == lines@[0]@);
        let t = trimmed(lines[0].as_str());
        if t.as_str().is_empty() {
            None
        } else {
            Some(t)
        }
    }

    /// Where programs are looked for on a Mac.
    pub fn augmented_path_env() -> (r: &'static str)
        ensures
            r@ == MAC_PATH@,
    {
        MAC_PATH
    }

    /// Whether only the database goes through the VPN, as it is set.
    pub fn split_tunnel(setting: Option<&str>) -> (r: bool)
        ensures
            r == (match setting_view(setting) {
                Some(s) => means_yes(lowercase(s)),
                None => false,
            }),
    {
        match setting {
            Some(s) => is_yes(s.to_lowercase().as_str()),
            None => false,
        }
    }

    /// The places at which the program that installs packages may stand on a Mac.
    pub fn brew_candidates() -> (r: Vec<String>)
        ensures
            texts(r@) == seq!["/opt/homebrew/bin/brew"@, "/usr/local/bin/brew"@],
    {
        let r = vec!["/opt/homebrew/bin/brew".to_owned(), "/usr/local/bin/brew".to_owned()];
        assert(texts(r@) =~= seq!["/opt/homebrew/bin/brew"@, "/usr/local/bin/brew"@]);
        r
    }

    /// The command that installs a package: by itself in a container, else with the
    /// rights for it.
    pub fn install_command(container: bool, update: bool) -> (r: Vec<String>)
        ensures
            texts(r@) == package_command(container, update),
    {
        let mut out: Vec<String> = Vec::new();
        if !container {
            out.push("sudo".to_owned());
        }
        out.push("apt-get".to_owned());
        if update {
            out.push("update".to_owned());
        } else {
            out.push("install".to_owned());
            out.push("-y".to_owned());
            out.push("openvpn".to_owned());
        }
        assert(texts(out@) =~= package_command(container, update));
        out
    }

    /// The command that stops a VPN that runs.
    pub fn stop_command(container: bool) -> (r: String)
        ensures
            r@ == stopping(container),
    {
        let sudo = if container {
            ""
        } else {
            "sudo "
        };
        let a = cat4("if [ -f ", PID_FILE, " ]; then ", sudo);
        let b = cat4(
            "kill $(cat ",
            PID_FILE,
            ") 2>/dev/null || true; fi; command -v pkill >/dev/null 2>&1 && ",
            sudo,
        );
        cat3(a.as_str(), b.as_str(), "pkill -f openvpn || true")
    }

    /// The command by which the VPN is started.
    pub fn start_command(container: bool, program: &str, config: &str, log: &str) -> (r: Vec<String>)
        ensures
            texts(r@) == starting(container, program@, config@, log@),
    {
        let mut out: Vec<String> = Vec::new();
        if !container {
            out.push("sudo".to_owned());
        }
        out.push(program.to_owned());
        out.push("--config".to_owned());
        out.push(config.to_owned());
        out.push("--daemon".to_owned());
        out.push("--log-append".to_owned());
        out.push(log.to_owned());
        out.push("--writepid".to_owned());
        out.push(PID_FILE.to_owned());
        assert(texts(out@) =~= starting(container, program@, config@, log@));
        out
    }

    /// The number of the program that runs the VPN, as its file tells it.
    pub fn daemon_pid(raw: &str) -> (r: Option<u32>)
        ensures
            r == pid_of(raw@),
    {
        let t = trimmed(raw);
        match parse_number(t.as_str()) {
            Some(n) => if n <= u32::MAX as u64 {
                Some(n as u32)
            } else {
                None
            },
            None => None,
        }
    }
}

/// What is to be done after a look at the VPN.
#[derive(Debug)]
pub enum VpnStep {
    /// Look again after a second.
    Wait,
    /// It runs, after so many seconds.
    Up(u64),
    /// It does not, with what is said.
    Failed(String),
}

/// What is to be done, by its texts.
pub enum VpnStepView {
    Wait,
    Up(u64),
    Failed(Seq<char>),
}

impl View for VpnStep {
    type V = VpnStepView;

    open spec fn view(&self) -> VpnStepView {
        match self {
            VpnStep::Wait => VpnStepView::Wait,
            VpnStep::Up(n) => VpnStepView::Up(*n),
            VpnStep::Failed(s) => VpnStepView::Failed(s@),
        }
    }
}

/// How often one looks whether the VPN runs.
pub const LOOKS: u64 = 20;

/// The wait for the VPN.
pub struct VpnWatch {
    /// How often one has looked.
    pub waited: u64,
    /// The log as it was read last.
    pub log: String,
}

impl VpnWatch {
    /// A wait that begins.
    pub fn new() -> (r: VpnWatch)
        ensures
            r.waited == 0,
            r.log@ == Seq::<char>::empty(),
    {
        VpnWatch { waited: 0, log: String::new() }
    }

    /// One more look: whether the program runs, and the log where it could be read.
    pub fn look(&mut self, pid_alive: bool, log: Option<String>) -> (r: VpnStep)
        requires
            old(self).waited < LOOKS,
        ensures
            final(self).waited == old(self).waited + 1,
            final(self).log@ == (match log {
                Some(s) => s@,
                None => old(self).log@,
            }),
            r@ == looked(final(self).waited, pid_alive, final(self).log@),
    {
        self.waited = self.waited + 1;
        if let Some(s) = log {
            self.log = s;
        }
        if pid_alive || contains_text(self.log.as_str(), "Initialization Sequence Completed") {
            VpnStep::Up(self.waited)
        } else if self.waited < LOOKS {
            VpnStep::Wait
        } else {
            VpnStep::Failed(failure_message(self.log.as_str()))
        }
    }
}

/// What is to be done after a number of looks.
pub open spec fn looked(waited: u64, pid_alive: bool, log: Seq<char>) -> VpnStepView {
    if pid_alive || occurs_in(log, "Initialization Sequence Completed"@) {
        VpnStepView::Up(waited)
    } else if waited < LOOKS {
        VpnStepView::Wait
    } else {
        VpnStepView::Failed(failure_text(log))
    }
}

/// What is said where the VPN did not come up, with the end of its log.
pub fn failure_message(log: &str) -> (r: String)
    ensures
        r@ == failure_text(log@),
{
    let lines = text_lines_of(log);
    let last = keep_last(&lines, 12);
    let excerpt = join_texts(last.as_slice(), " | ");
    let shown = if excerpt.as_str().is_empty() {
        "(empty)"
    } else {
        excerpt.as_str()
    };
    cat2(
        "OpenVPN failed to stay running or never reached \"Initialization Sequence Completed\". Log tail: ",
        shown,
    )
}

/// The first place at which there is a file, or else the one that was given.
pub open spec fn resolved(
    given: Seq<char>,
    given_is_there: bool,
    candidates: Seq<Seq<char>>,
    there: Seq<bool>,
    from: int,
) -> Seq<char>
    decreases candidates.len() - from,
{
    if given_is_there || from < 0 || from >= candidates.len() {
        given
    } else if there[from] {
        candidates[from]
    } else {
        resolved(given, given_is_there, candidates, there, from + 1)
    }
}

/// Where files of the VPN are kept.
pub open spec fn storage(
    setting: Option<Seq<char>>,
    container_folder: bool,
    data_storage: Seq<char>,
) -> Seq<char> {
    if setting matches Some(s) && trim_spec(s).len() > 0 {
        setting->0
    } else if container_folder {
        "/app/vpn"@
    } else {
        data_storage
    }
}

/// The programs of the VPN that are tried.
pub open spec fn binaries(
    setting: Option<Seq<char>>,
    mac: bool,
    found_on_mac: Option<Seq<char>>,
) -> Seq<Seq<char>> {
    if setting matches Some(s) && trim_spec(s).len() == 0 {
        Seq::empty()
    } else {
        (match setting {
            Some(s) => seq![trim_spec(s)],
            None => Seq::empty(),
        }) + (if mac {
            seq![
                "/opt/homebrew/opt/openvpn/sbin/openvpn"@,
                "/opt/homebrew/sbin/openvpn"@,
                "/opt/homebrew/bin/openvpn"@,
                "/usr/local/opt/openvpn/sbin/openvpn"@,
                "/usr/local/sbin/openvpn"@,
                "/usr/local/bin/openvpn"@,
            ] + (match found_on_mac {
                Some(f) => seq![f],
                None => Seq::empty(),
            })
        } else {
            Seq::empty()
        }) + seq!["openvpn"@]
    }
}

/// The first place of a program that works, from a place on.
pub open spec fn first_working(works: Seq<bool>, from: int) -> Option<int>
    decreases works.len() - from,
{
    if from < 0 || from >= works.len() {
        None
    } else if works[from] {
        Some(from)
    } else {
        first_working(works, from + 1)
    }
}

/// The program that is used.
pub open spec fn chosen_binary(
    setting: Option<Seq<char>>,
    mac: bool,
    found_on_mac: Option<Seq<char>>,
    works: Seq<bool>,
) -> Option<Seq<char>> {
    let all = binaries(setting, mac, found_on_mac);
    match first_working(works, 0) {
        Some(i) => if mac && i + 1 == all.len() && found_on_mac is Some {
            found_on_mac
        } else {
            Some(all[i])
        },
        None => None,
    }
}

/// The text of an option.
pub open spec fn string_view(s: Option<String>) -> Option<Seq<char>> {
    match s {
        Some(x) => Some(x@),
        None => None,
    }
}

/// The path that a command printed on its first line.
pub open spec fn printed_path(success: bool, output: Seq<char>) -> Option<Seq<char>> {
    if success && text_lines(output).len() > 0 && trim_spec(text_lines(output)[0]).len() > 0 {
        Some(trim_spec(text_lines(output)[0]))
    } else {
        None
    }
}

/// The command that installs a package.
pub open spec fn package_command(container: bool, update: bool) -> Seq<Seq<char>> {
    (if container {
        Seq::empty()
    } else {
        seq!["sudo"@]
    }) + seq!["apt-get"@] + (if update {
        seq!["update"@]
    } else {
        seq!["install"@, "-y"@, "openvpn"@]
    })
}

/// The command that stops a VPN that runs.
pub open spec fn stopping(container: bool) -> Seq<char> {
    let sudo = if container {
        ""@
    } else {
        "sudo "@
    };
    ("if [ -f "@ + PID_FILE@ + " ]; then "@ + sudo) + ("kill $(cat "@ + PID_FILE@
        + ") 2>/dev/null || true; fi; command -v pkill >/dev/null 2>&1 && "@ + sudo)
        + "pkill -f openvpn || true"@
}

/// The command by which the VPN is started.
pub open spec fn starting(
    container: bool,
    program: Seq<char>,
    config: Seq<char>,
    log: Seq<char>,
) -> Seq<Seq<char>> {
    (if container {
        Seq::empty()
    } else {
        seq!["sudo"@]
    }) + seq![
        program,
        "--config"@,
        config,
        "--daemon"@,
        "--log-append"@,
        log,
        "--writepid"@,
        PID_FILE@,
    ]
}

/// The number that a file of a program tells.
pub open spec fn pid_of(raw: Seq<char>) -> Option<u32> {
    match parsed_number(trim_spec(raw)) {
        Some(n) => if n <= u32::MAX {
            Some(n as u32)
        } else {
            None
        },
        None => None,
    }
}

/// What is said where the VPN did not come up.
pub open spec fn failure_text(log: Seq<char>) -> Seq<char> {
    let excerpt = join_spec(last_items(text_lines(log), 12), " | "@);
    "OpenVPN failed to stay running or never reached \"Initialization Sequence Completed\". Log tail: "@
        + (if excerpt.len() == 0 {
        "(empty)"@
    } else {
        excerpt
    })
}

/// A program is used if and only if one of those that are tried works.
pub proof fn law_installed_if_any_works(
    setting: Option<Seq<char>>,
    mac: bool,
    found_on_mac: Option<Seq<char>>,
    works: Seq<bool>,
)
    ensures
        chosen_binary(setting, mac, found_on_mac, works) is Some <==> works.contains(true),
{
    lemma_first_working(works, 0);
    if works.contains(true) {
        let i = works.index_of(true);
        assert(works[i]);
    }
}

proof fn lemma_first_working(works: Seq<bool>, from: int)
    requires
        0 <= from,
    ensures
        first_working(works, from) is Some <==> exists|i: int|
            from <= i < works.len() && #[trigger] works[i],
    decreases works.len() - from,
{
    if from < works.len() && !works[from] {
        lemma_first_working(works, from + 1);
    }
}

proof fn lemma_grows(content: Seq<char>, settings: Seq<Seq<char>>)
    ensures
        content.is_prefix_of(with_settings(content, settings)),
    decreases settings.len(),
{
    if settings.len() > 0 {
        lemma_grows(content, settings.drop_last());
        let before = with_settings(content, settings.drop_last());
        let after = with_settings(content, settings);
        assert(before.is_prefix_of(after));
        assert(content =~= after.subrange(0, content.len() as int));
    }
}

proof fn lemma_still_occurs(content: Seq<char>, longer: Seq<char>, part: Seq<char>)
    requires
        content.is_prefix_of(longer),
        occurs_in(content, part),
    ensures
        occurs_in(longer, part),
{
    let at = choose|at: int| #[trigger] occurs_at(content, part, at);
    assert(occurs_at(content, part, at));
    assert(longer.subrange(0, content.len() as int) =~= content);
    assert(longer.subrange(at, at + part.len()) =~= content.subrange(at, at + part.len()));
    assert(occurs_at(longer, part, at));
}

proof fn lemma_setting_added(content: Seq<char>, setting: Seq<char>)
    ensures
        occurs_in(with_setting(content, setting), setting),
{
    let after = with_setting(content, setting);
    if !occurs_in(content, setting) {
        let at: int = if ends_in(content, '\n') {
            content.len() as int
        } else {
            content.len() as int + "\n"@.len()
        };
        assert(after.subrange(at, at + setting.len()) =~= setting);
        assert(occurs_at(after, setting, at));
    }
}

proof fn lemma_settings_added(content: Seq<char>, settings: Seq<Seq<char>>, i: int)
    requires
        0 <= i < settings.len(),
    ensures
        occurs_in(with_settings(content, settings), settings[i]),
    decreases settings.len(),
{
    let front = settings.drop_last();
    let before = with_settings(content, front);
    let after = with_settings(content, settings);
    lemma_setting_added(before, settings.last());
    if i < front.len() {
        lemma_settings_added(content, front, i);
        assert(front[i] == settings[i]);
        assert(before.is_prefix_of(after));
        lemma_still_occurs(before, after, settings[i]);
    }
}

proof fn lemma_nothing_added(content: Seq<char>, settings: Seq<Seq<char>>)
    requires
        forall|i: int| 0 <= i < settings.len() ==> occurs_in(content, #[trigger] settings[i]),
    ensures
        with_settings(content, settings) == content,
    decreases settings.len(),
{
    if settings.len() > 0 {
        let front = settings.drop_last();
        assert forall|i: int| 0 <= i < front.len() implies occurs_in(content, #[trigger] front[i]) by {
            assert(front[i] == settings[i]);
        }
        lemma_nothing_added(content, front);
        assert(settings[settings.len() - 1] == settings.last());
    }
}

/// Preparing settings loses none of them: what was there stays in front.
pub proof fn law_settings_are_kept(content: Seq<char>, split: bool, ip: Option<Seq<char>>)
    ensures
        content.is_prefix_of(prepared(content, split, ip)),
{
    let base = with_settings(content, baseline());
    lemma_grows(content, baseline());
    let s = with_settings(base, split_settings());
    lemma_grows(base, split_settings());
    let done = prepared(content, split, ip);
    if split {
        assert(s.is_prefix_of(done));
    }
    assert(content =~= done.subrange(0, content.len() as int));
}

/// Prepared settings hold every setting that is needed, and the way to the database
/// where only that goes through the VPN and its address is known.
pub proof fn law_prepared_holds_all(content: Seq<char>, split: bool, ip: Option<Seq<char>>)
    ensures
        forall|i: int|
            0 <= i < baseline().len() ==> occurs_in(
                prepared(content, split, ip),
                #[trigger] baseline()[i],
            ),
        split ==> forall|i: int|
            0 <= i < split_settings().len() ==> occurs_in(
                prepared(content, split, ip),
                #[trigger] split_settings()[i],
            ),
        split && ip is Some ==> occurs_in(prepared(content, split, ip), route_of(ip->0)),
{
    let base = with_settings(content, baseline());
    let s = with_settings(base, split_settings());
    let done = prepared(content, split, ip);
    lemma_grows(base, split_settings());
    if split {
        assert(s.is_prefix_of(done));
        assert(base =~= done.subrange(0, base.len() as int));
    }
    assert forall|i: int| 0 <= i < baseline().len() implies occurs_in(
        done,
        #[trigger] baseline()[i],
    ) by {
        lemma_settings_added(content, baseline(), i);
        lemma_still_occurs(base, done, baseline()[i]);
    }
    if split {
        assert forall|i: int| 0 <= i < split_settings().len() implies occurs_in(
            done,
            #[trigger] split_settings()[i],
        ) by {
            lemma_settings_added(base, split_settings(), i);
            lemma_still_occurs(s, done, split_settings()[i]);
        }
        if ip is Some && !occurs_in(s, route_of(ip->0)) {
            let at = s.len() as int;
            assert(done.subrange(at, at + route_of(ip->0).len()) =~= route_of(ip->0));
            assert(occurs_at(done, route_of(ip->0), at));
        }
    }
}

/// Preparing settings a second time changes nothing.
pub proof fn law_preparing_twice(content: Seq<char>, split: bool, ip: Option<Seq<char>>)
    ensures
        prepared(prepared(content, split, ip), split, ip) == prepared(content, split, ip),
{
    let done = prepared(content, split, ip);
    law_prepared_holds_all(content, split, ip);
    lemma_nothing_added(done, baseline());
    if split {
        lemma_nothing_added(done, split_settings());
    }
}

} // verus!

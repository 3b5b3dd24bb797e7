//! What the program itself does: its settings, its start, its renewal, and the VPN.

use crate::buffer_pool::limit_of;
use crate::launch::{Launch, RunMode};
use crate::phrase::start_trimmed;
use crate::release::{removal_of, target, update_of, Removal, UpdateView};
use crate::settings::{ascii_lower, is_on, lists_held, number_of, small_letter};
use crate::text::{
    all_digits, blank, decimal_spec, is_digit, law_parse_decimal, occurs_in, trim_spec, whitespace,
    without_plus,
};
use crate::vpn::{
    baseline, binaries, chosen_binary, first_working, in_container, law_prepared_holds_all, looked,
    package_command, pid_of, prepared, resolved, split_settings, starting, storage, with_setting,
    with_settings, PID_FILE, VpnStepView,
};
use vstd::prelude::*;

verus! {

/// So many times the letter `v`.
pub open spec fn vs(n: nat) -> Seq<char> {
    Seq::new(n, |i: int| 'v')
}

proof fn lemma_without_v(n: nat, rest: Seq<char>)
    requires
        rest.len() == 0 || rest[0] != 'v',
    ensures
        start_trimmed(vs(n) + rest, 'v') == rest,
    decreases n,
{
    if n == 0 {
        assert(vs(n) + rest =~= rest);
    } else {
        let s = vs(n) + rest;
        lemma_without_v((n - 1) as nat, rest);
        assert(s[0] == 'v');
        assert(s.skip(1) =~= vs((n - 1) as nat) + rest);
    }
}

/// A program is up to date where its version is the newest one, told with a `v` before it
/// or without; else the newest is fetched, by its tag, which begins with a `v`. Where no
/// release is known nothing is fetched.
pub proof fn law_update(current: Seq<char>, n: nat, newest: Seq<char>)
    requires
        newest.len() == 0 || newest[0] != 'v',
    ensures
        update_of(current, None) is NoRelease,
        update_of(current, Some(vs(n) + newest)) is UpToDate <==> current == newest,
        current != newest && n == 0 ==> update_of(current, Some(vs(n) + newest))
            == UpdateView::Fetch("v"@ + newest),
        current != newest && n > 0 ==> update_of(current, Some(vs(n) + newest))
            == UpdateView::Fetch(vs(n) + newest),
{
    lemma_without_v(n, newest);
    let told = vs(n) + newest;
    if n == 0 {
        assert(told =~= newest);
    } else {
        assert(told[0] == 'v');
    }
}

/// The file of a release is named by the system and the machine it is for; on Windows the
/// name ends with `.exe`, elsewhere it does not tell Windows.
pub proof fn law_release_file(os: Seq<char>, arch: Seq<char>)
    ensures
        target(true, os, arch) == "bittice-windows-"@ + arch + ".exe"@,
        target(false, os, arch) == "bittice-"@ + os + "-"@ + arch,
{
}

/// Nothing is removed in a container, nothing without a confirmation; the data is removed
/// only where that was asked for, and the program itself not on Windows.
pub proof fn law_removal(inside: bool, confirmed: bool, with_data: bool, windows: bool)
    ensures
        removal_of(inside, confirmed, with_data, windows) matches Removal::Remove {
            data,
            program,
        } ==> !inside && confirmed && data == with_data && program == !windows,
        !inside && confirmed ==> removal_of(inside, confirmed, with_data, windows) is Remove,
        inside ==> removal_of(inside, confirmed, with_data, windows) is FromOutside,
{
}

/// Whether two texts are the same but for capitals.
pub open spec fn same_but_capitals(a: Seq<char>, b: Seq<char>) -> bool {
    a.len() == b.len() && forall|i: int|
        0 <= i < a.len() ==> #[trigger] a[i] == b[i] || 'A' <= a[i] && a[i] <= 'Z' && b[i] as int
            == a[i] as int + 32
}

proof fn lemma_lowered(word: Seq<char>, low: Seq<char>)
    requires
        same_but_capitals(word, low),
        forall|i: int| 0 <= i < low.len() ==> !('A' <= #[trigger] low[i] && low[i] <= 'Z'),
    ensures
        ascii_lower(word) == low,
{
    assert forall|i: int| 0 <= i < word.len() implies ascii_lower(word)[i] == low[i] by {
        let c = word[i];
        assert(!('A' <= low[i] && low[i] <= 'Z'));
        if c != low[i] {
            assert((c as u32 + 32) as char == low[i]);
        }
    }
    assert(ascii_lower(word) =~= low);
}

/// A setting switches something on where it is `1`, `true`, `yes` or `on`, in capitals or
/// not, whatever white space is around it; nothing is on that is not set.
pub proof fn law_switched_on(setting: Seq<char>)
    ensures
        !is_on(None),
        same_but_capitals(trim_spec(setting), "1"@) || same_but_capitals(
            trim_spec(setting),
            "true"@,
        ) || same_but_capitals(trim_spec(setting), "yes"@) || same_but_capitals(
            trim_spec(setting),
            "on"@,
        ) ==> is_on(Some(setting)),
        is_on(Some(setting)) ==> 1 <= trim_spec(setting).len() <= 4,
        is_on(Some(setting)) ==> {
            let c = trim_spec(setting)[0];
            c == '1' || c == 't' || c == 'T' || c == 'y' || c == 'Y' || c == 'o' || c == 'O'
        },
        trim_spec(setting) == "0"@ || trim_spec(setting) == "false"@ || blank(setting) ==> !is_on(
            Some(setting),
        ),
{
    reveal_strlit("1");
    reveal_strlit("true");
    reveal_strlit("yes");
    reveal_strlit("on");
    reveal_strlit("0");
    reveal_strlit("false");
    let t = trim_spec(setting);
    crate::text::lemma_trim_blank(setting);
    if same_but_capitals(t, "1"@) {
        lemma_lowered(t, "1"@);
    }
    if same_but_capitals(t, "true"@) {
        lemma_lowered(t, "true"@);
    }
    if same_but_capitals(t, "yes"@) {
        lemma_lowered(t, "yes"@);
    }
    if same_but_capitals(t, "on"@) {
        lemma_lowered(t, "on"@);
    }
    let l = ascii_lower(t);
    assert(l.len() == t.len());
    if is_on(Some(setting)) {
        let c = t[0];
        assert(l[0] == small_letter(c));
        assert(l[0] == '1' || l[0] == 't' || l[0] == 'y' || l[0] == 'o');
        if 'A' <= c && c <= 'Z' {
            assert(l[0] as u32 == c as u32 + 32);
        }
    }
    if t.len() > 0 {
        assert(l[0] == small_letter(t[0]));
    }
}

/// A setting gives the number that it tells in decimal digits, whatever white space is
/// around it, where the number is not too great; and the default where it is not set, tells
/// something else, or too great a number.
pub proof fn law_number_setting(setting: Seq<char>, n: u64, default: u64, greatest: u64)
    ensures
        number_of(None, default, greatest) == default,
        trim_spec(setting) == decimal_spec(n as nat) ==> number_of(
            Some(setting),
            default,
            greatest,
        ) == (if n <= greatest {
            n
        } else {
            default
        }),
        trim_spec(setting).len() == 0 ==> number_of(Some(setting), default, greatest) == default,
        (exists|i: int|
            0 < i < trim_spec(setting).len() && !is_digit(#[trigger] trim_spec(setting)[i]))
            ==> number_of(Some(setting), default, greatest) == default,
        trim_spec(setting).len() > 0 && !is_digit(trim_spec(setting)[0]) && trim_spec(setting)[0]
            != '+' ==> number_of(Some(setting), default, greatest) == default,
{
    law_parse_decimal(n);
    let t = trim_spec(setting);
    if exists|i: int| 0 < i < t.len() && !is_digit(#[trigger] t[i]) {
        let i = choose|i: int| 0 < i < t.len() && !is_digit(#[trigger] t[i]);
        let w = without_plus(t);
        if t[0] == '+' {
            assert(w[i - 1] == t[i]);
        } else {
            assert(w[i] == t[i]);
        }
        assert(!all_digits(w));
    }
    if t.len() > 0 && !is_digit(t[0]) && t[0] != '+' {
        assert(!all_digits(t));
    }
}

/// An index holds as many lists decoded as it is set, where that is a positive number that
/// fits, and a thousand otherwise; the limit of what is fetched ahead is told in millions
/// of bytes, each of 1,048,576.
pub proof fn law_number_settings(setting: Seq<char>, n: u64)
    requires
        trim_spec(setting) == decimal_spec(n as nat),
    ensures
        lists_held(None) == 1000,
        0 < n <= usize::MAX ==> lists_held(Some(setting)) == n,
        n == 0 || n > usize::MAX ==> lists_held(Some(setting)) == 1000,
        n * 1_048_576 <= u64::MAX ==> limit_of(Some(setting)) == Some((n * 1_048_576) as u64),
        n * 1_048_576 > u64::MAX ==> limit_of(Some(setting)) == Some(u64::MAX),
        limit_of(None) is None,
{
    law_parse_decimal(n);
}

/// What the program does when it is started. Without a command and without an entity: in a
/// container the first process is the engine, and another one, where only the engine is to
/// run, has nothing to do; everywhere else the questions are asked. With one of them: the
/// command, but for a container in which only the engine is to run.
pub proof fn law_start(l: Launch)
    ensures
        ({
            let alone = l.words == 1 && (match l.entity {
                None => true,
                Some(e) => forall|i: int| 0 <= i < e@.len() ==> whitespace(#[trigger] e@[i]),
            });
            let only = is_on(
                match l.engine_only {
                    None => None,
                    Some(s) => Some(s@),
                },
            );
            &&& alone && l.in_container && l.first_process ==> l.mode() == RunMode::Engine
            &&& alone && l.in_container && !l.first_process && only ==> l.mode()
                == RunMode::AlreadyRunning
            &&& alone && (!l.in_container || !l.first_process && !only) ==> l.mode()
                == RunMode::Wizard
            &&& !alone && l.words >= 1 && l.in_container && only ==> l.mode() == RunMode::Locked
            &&& !alone && l.words >= 1 && !(l.in_container && only) ==> l.mode()
                == RunMode::Command
        }),
{
}

/// The settings of a prepared VPN are those that were given and, where they are not there
/// yet, these; and only where nothing but the database goes through it, those that keep
/// everything else away from it, with the way to the database.
pub proof fn law_prepared_settings(content: Seq<char>, split: bool, ip: Option<Seq<char>>)
    ensures
        ({
            let all = prepared(content, split, ip);
            &&& occurs_in(all, "client"@)
            &&& occurs_in(all, "dev tun"@)
            &&& occurs_in(all, "data-ciphers AES-256-GCM:AES-128-GCM"@)
            &&& occurs_in(all, "mssfix 1400"@)
            &&& split ==> occurs_in(all, "route-nopull"@) && occurs_in(
                all,
                "pull-filter ignore redirect-gateway"@,
            )
            &&& split ==> (ip matches Some(a) ==> occurs_in(
                all,
                "route "@ + a + " 255.255.255.255 vpn_gateway"@,
            ))
            &&& !split ==> all == prepared(content, false, None)
            &&& prepared(content, false, None).is_prefix_of(all)
        }),
{
    law_prepared_holds_all(content, split, ip);
    assert(baseline()[0] == "client"@);
    assert(baseline()[1] == "dev tun"@);
    assert(baseline()[2] == "data-ciphers AES-256-GCM:AES-128-GCM"@);
    assert(baseline()[3] == "mssfix 1400"@);
    assert(split_settings()[0] == "route-nopull"@);
    assert(split_settings()[1] == "pull-filter ignore redirect-gateway"@);
    let base = prepared(content, false, None);
    if split {
        let s = with_settings(base, split_settings());
        lemma_settings_prefix(base, split_settings());
        if let Some(a) = ip {
            let all = prepared(content, split, ip);
            assert(all.take(base.len() as int) =~= s.take(base.len() as int));
        }
    } else {
        assert(base.take(base.len() as int) =~= base);
    }
}

proof fn lemma_settings_prefix(content: Seq<char>, settings: Seq<Seq<char>>)
    ensures
        content.is_prefix_of(with_settings(content, settings)),
    decreases settings.len(),
{
    let n = content.len() as int;
    if settings.len() == 0 {
        assert(content.take(n) =~= content);
    } else {
        lemma_settings_prefix(content, settings.drop_last());
        let before = with_settings(content, settings.drop_last());
        let after = with_settings(content, settings);
        assert(after.take(n) =~= before.take(n));
    }
}

/// A setting that is not there yet is put into a line of its own at the end; one that is
/// there is not put in again.
pub proof fn law_setting_is_added_once(content: Seq<char>, setting: Seq<char>)
    ensures
        occurs_in(content, setting) ==> with_setting(content, setting) == content,
        !occurs_in(content, setting) && content.len() > 0 && content.last() == '\n'
            ==> with_setting(content, setting) == content + setting + "\n"@,
        !occurs_in(content, setting) && (content.len() == 0 || content.last() != '\n')
            ==> with_setting(content, setting) == content + "\n"@ + setting + "\n"@,
{
}

/// One looks whether the VPN runs until it does, twenty times at most: it runs where its
/// process is there or its log says that it is up; else it has failed.
pub proof fn law_vpn_is_awaited(waited: u64, pid_alive: bool, log: Seq<char>)
    ensures
        ({
            let up = pid_alive || occurs_in(log, "Initialization Sequence Completed"@);
            &&& up ==> looked(waited, pid_alive, log) == VpnStepView::Up(waited)
            &&& !up && waited < 20 ==> looked(waited, pid_alive, log) is Wait
            &&& !up && waited >= 20 ==> looked(waited, pid_alive, log) is Failed
        }),
{
}

/// A file of the VPN is taken where it was given, if it is there; else at the first place
/// at which it is; else it is said to be where it was given.
pub proof fn law_vpn_file(
    given: Seq<char>,
    given_is_there: bool,
    candidates: Seq<Seq<char>>,
    there: Seq<bool>,
    from: int,
    k: int,
)
    requires
        0 <= from <= candidates.len(),
        candidates.len() == there.len(),
    ensures
        given_is_there ==> resolved(given, given_is_there, candidates, there, from) == given,
        !given_is_there && from <= k < there.len() && there[k] && (forall|i: int|
            from <= i < k ==> !#[trigger] there[i]) ==> resolved(
            given,
            given_is_there,
            candidates,
            there,
            from,
        ) == candidates[k],
        (forall|i: int| from <= i < there.len() ==> !#[trigger] there[i]) ==> resolved(
            given,
            given_is_there,
            candidates,
            there,
            from,
        ) == given,
    decreases candidates.len() - from,
{
    if !given_is_there && from < candidates.len() && !there[from] {
        law_vpn_file(given, given_is_there, candidates, there, from + 1, k);
    }
}

proof fn lemma_first_working(works: Seq<bool>, from: int, k: int)
    requires
        0 <= from <= works.len(),
    ensures
        from <= k < works.len() && works[k] && (forall|i: int|
            from <= i < k ==> !#[trigger] works[i]) ==> first_working(works, from) == Some(k),
        (forall|i: int| from <= i < works.len() ==> !#[trigger] works[i]) ==> first_working(
            works,
            from,
        ) is None,
    decreases works.len() - from,
{
    if from < works.len() && !works[from] {
        lemma_first_working(works, from + 1, k);
    }
}

/// The program of the VPN is the first of those that may be it that works: the one that is
/// set comes first, and the one that is found by its name comes last. None is taken where
/// none works, nor where the setting is there and tells nothing.
pub proof fn law_vpn_program(
    setting: Option<Seq<char>>,
    mac: bool,
    found: Option<Seq<char>>,
    works: Seq<bool>,
    k: int,
)
    requires
        works.len() == binaries(setting, mac, found).len(),
    ensures
        ({
            let all = binaries(setting, mac, found);
            &&& setting matches Some(s) ==> (if blank(s) {
                all.len() == 0
            } else {
                all.len() >= 2 && all[0] == trim_spec(s) && all.last() == "openvpn"@
            })
            &&& setting is None ==> all.len() >= 1 && all.last() == "openvpn"@
            &&& !mac ==> all.len() == (match setting {
                None => 1int,
                Some(s) => if blank(s) {
                    0
                } else {
                    2
                },
            })
            &&& (forall|i: int| 0 <= i < works.len() ==> !#[trigger] works[i]) ==> chosen_binary(
                setting,
                mac,
                found,
                works,
            ) is None
            &&& 0 <= k < works.len() && works[k] && (forall|i: int|
                0 <= i < k ==> !#[trigger] works[i]) && (!mac || found is None || k + 1
                < all.len()) ==> chosen_binary(setting, mac, found, works) == Some(all[k])
        }),
{
    lemma_first_working(works, 0, k);
    if let Some(s) = setting {
        crate::text::lemma_trim_blank(s);
    }
}

/// The files of the VPN are kept where that is set, in the container's folder where there
/// is one, and with the data otherwise; a setting of white space counts as none.
pub proof fn law_vpn_folder(
    setting: Option<Seq<char>>,
    container_folder: bool,
    data_storage: Seq<char>,
)
    ensures
        setting matches Some(s) ==> (!blank(s) ==> storage(setting, container_folder, data_storage)
            == s),
        (match setting {
            None => true,
            Some(s) => blank(s),
        }) ==> storage(setting, container_folder, data_storage) == (if container_folder {
            "/app/vpn"@
        } else {
            data_storage
        }),
{
    if let Some(s) = setting {
        crate::text::lemma_trim_blank(s);
    }
}

/// The VPN is started with its settings, its log and the file of its number, each behind
/// the word that tells it; packages are installed, and the VPN is started, with the rights
/// of the administrator, but for a container, where one has them.
pub proof fn law_vpn_commands(container: bool, program: Seq<char>, config: Seq<char>, log: Seq<char>)
    ensures
        ({
            let c = starting(container, program, config, log);
            let n: int = if container {
                0
            } else {
                1
            };
            &&& !container ==> c[0] == "sudo"@
            &&& c.len() == n + 8
            &&& c[n] == program
            &&& c[n + 1] == "--config"@ && c[n + 2] == config
            &&& c[n + 3] == "--daemon"@
            &&& c[n + 4] == "--log-append"@ && c[n + 5] == log
            &&& c[n + 6] == "--writepid"@ && c[n + 7] == PID_FILE@
        }),
        ({
            let c = package_command(container, true);
            &&& !container ==> c == seq!["sudo"@, "apt-get"@, "update"@]
            &&& container ==> c == seq!["apt-get"@, "update"@]
        }),
        ({
            let c = package_command(container, false);
            &&& !container ==> c == seq!["sudo"@, "apt-get"@, "install"@, "-y"@, "openvpn"@]
            &&& container ==> c == seq!["apt-get"@, "install"@, "-y"@, "openvpn"@]
        }),
{
    let u = package_command(container, true);
    let i = package_command(container, false);
    assert(!container ==> u =~= seq!["sudo"@, "apt-get"@, "update"@]);
    assert(container ==> u =~= seq!["apt-get"@, "update"@]);
    assert(!container ==> i =~= seq!["sudo"@, "apt-get"@, "install"@, "-y"@, "openvpn"@]);
    assert(container ==> i =~= seq!["apt-get"@, "install"@, "-y"@, "openvpn"@]);
}

/// The number of a process is read from its file, whatever white space is around it, where
/// it is a number that a process can have.
pub proof fn law_process_number(raw: Seq<char>, n: u64)
    ensures
        trim_spec(raw) == decimal_spec(n as nat) ==> pid_of(raw) == (if n <= u32::MAX {
            Some(n as u32)
        } else {
            None
        }),
        blank(raw) ==> pid_of(raw) is None,
{
    law_parse_decimal(n);
    crate::text::lemma_trim_blank(raw);
}

/// The program runs in a container where there is the container's mark, or its host is
/// set, or only the engine is to run.
pub proof fn law_in_container(mark: bool, host: bool, engine_only: Option<Seq<char>>)
    ensures
        mark || host ==> in_container(mark, host, engine_only),
        !mark && !host && engine_only is None ==> !in_container(mark, host, engine_only),
        !mark && !host ==> (engine_only matches Some(s) ==> (in_container(mark, host, engine_only)
            <==> trim_spec(s) == "1"@ || trim_spec(s) == "true"@ || trim_spec(s) == "yes"@
            || trim_spec(s) == "on"@)),
{
}

} // verus!

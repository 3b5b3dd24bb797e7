//! Which image is run.

use crate::phrase::{behind, cat2, cat3, cat4, end_stripped, strip_front, trim_end_text};
use crate::repl::editor::{text_lines, text_lines_of};
use crate::text::{lowercase, same_text, starts_with_text, texts, trim_spec, trimmed};
use vstd::prelude::*;

verus! {

/// The owner and the name of a repository that its address tells, in small letters;
/// nothing for an address of another form.
pub open spec fn repository(url: Seq<char>) -> Option<Seq<char>> {
    let u = trim_spec(url);
    if "https://github.com/"@.is_prefix_of(u) {
        Some(lowercase(end_stripped(behind(u, "https://github.com/"@), ".git"@)))
    } else if "git@github.com:"@.is_prefix_of(u) {
        Some(lowercase(end_stripped(behind(u, "git@github.com:"@), ".git"@)))
    } else {
        None
    }
}

/// The owner and the name of a repository that its address tells.
pub fn detect_ghcr_repo(url: &str) -> (r: Option<String>)
    ensures
        match r {
            Some(s) => repository(url@) == Some(s@),
            None => repository(url@) is None,
        },
{
    let u = trimmed(url);
    let rest = if starts_with_text(u.as_str(), "https://github.com/") {
        strip_front(u.as_str(), "https://github.com/")
    } else if starts_with_text(u.as_str(), "git@github.com:") {
        strip_front(u.as_str(), "git@github.com:")
    } else {
        return None;
    };
    let s = trim_end_text(rest.as_str(), ".git");
    Some(s.as_str().to_lowercase())
}

/// The image of a repository, by a tag.
pub open spec fn image_of(url: Seq<char>, tag: Seq<char>) -> Option<Seq<char>> {
    match repository(url) {
        Some(r) => Some("ghcr.io/"@ + r + ":"@ + tag),
        None => None,
    }
}

/// The image of a repository, by a tag; `stable` for one that is renewed by itself.
pub fn image_reference(url: &str, tag: &str) -> (r: Option<String>)
    ensures
        match r {
            Some(s) => image_of(url@, tag@) == Some(s@),
            None => image_of(url@, tag@) is None,
        },
{
    match detect_ghcr_repo(url) {
        Some(repo) => Some(cat4("ghcr.io/", repo.as_str(), ":", tag)),
        None => None,
    }
}

/// The tag that git tells; nothing where it tells none.
pub fn latest_git_tag(told: &str) -> (r: Option<String>)
    ensures
        match r {
            Some(t) => t@ == trim_spec(told@) && t@.len() > 0,
            None => trim_spec(told@).len() == 0,
        },
{
    let t = trimmed(told);
    if t.as_str().is_empty() {
        None
    } else {
        Some(t)
    }
}

/// Whether a line names the package.
pub open spec fn names_package(line: Seq<char>) -> bool {
    trim_spec(line) == "name = \"bittice\""@
}

/// Whether a manifest is that of this project: a line of it names the package.
pub fn is_project_manifest(manifest: &str) -> (r: bool)
    ensures
        r == (exists|i: int|
            0 <= i < text_lines(manifest@).len() && #[trigger] names_package(
                text_lines(manifest@)[i],
            )),
{
    let lines = text_lines_of(manifest);
    let ghost ls = texts(lines@);
    let mut i: usize = 0;
    while i < lines.len()
        invariant
            i <= lines@.len(),
            ls == texts(lines@),
            ls == text_lines(manifest@),
            forall|k: int| 0 <= k < i ==> !(#[trigger] names_package(ls[k])),
        decreases lines@.len() - i,
    {
        assert(ls[i as int] == lines@[i as int]@);
        let t = trimmed(lines[i].as_str());
        if same_text(t.as_str(), "name = \"bittice\"") {
            assert(names_package(ls[i as int]));
            return true;
        }
        i = i + 1;
    }
    false
}

/// The container that runs, by whether it goes out through a VPN.
pub fn container_name(with_vpn: bool) -> (r: &'static str)
    ensures
        r@ == (if with_vpn {
            "bittice-local"@
        } else {
            "bittice"@
        }),
{
    if with_vpn {
        "bittice-local"
    } else {
        "bittice"
    }
}

/// How the image is run by itself, with the data in a folder.
pub open spec fn plain_run(data_root: Seq<char>, image: Seq<char>) -> Seq<Seq<char>> {
    seq![
        "run"@,
        "-d"@,
        "--name"@,
        "bittice"@,
        "-p"@,
        "3000:3000"@,
        "-p"@,
        "8080:8080"@,
        "-p"@,
        "50051:50051"@,
        "-e"@,
        "BITTICE_ENGINE_ONLY=1"@,
        "-e"@,
        "BITTICE_HOST=0.0.0.0"@,
        "-e"@,
        "BITTICE_CDC_HEALTH_CHECK_MAX_FAILURES=0"@,
        "-e"@,
        "BITTICE_CDC_STREAM_SILENCE_TIMEOUT_SECS=90"@,
        "-v"@,
        data_root + ":/app/data"@,
        image,
    ]
}

/// How the image is run by itself, with the data in a folder.
pub fn run_plain_container(data_root: &str, image: &str) -> (r: Vec<String>)
    ensures
        texts(r@) == plain_run(data_root@, image@),
{
    let r = vec![
        "run".to_owned(),
        "-d".to_owned(),
        "--name".to_owned(),
        "bittice".to_owned(),
        "-p".to_owned(),
        "3000:3000".to_owned(),
        "-p".to_owned(),
        "8080:8080".to_owned(),
        "-p".to_owned(),
        "50051:50051".to_owned(),
        "-e".to_owned(),
        "BITTICE_ENGINE_ONLY=1".to_owned(),
        "-e".to_owned(),
        "BITTICE_HOST=0.0.0.0".to_owned(),
        "-e".to_owned(),
        "BITTICE_CDC_HEALTH_CHECK_MAX_FAILURES=0".to_owned(),
        "-e".to_owned(),
        "BITTICE_CDC_STREAM_SILENCE_TIMEOUT_SECS=90".to_owned(),
        "-v".to_owned(),
        cat2(data_root, ":/app/data"),
        image.to_owned(),
    ];
    assert(texts(r@) =~= plain_run(data_root@, image@));
    r
}

/// What is done for the settings of the VPN before the image is run with one.
pub enum VpnConf {
    /// They are there.
    Keep,
    /// They are copied from the bundled ones.
    Copy,
    /// They are missing, with what is said.
    Missing(String),
}

/// What is said where the settings of the VPN are missing.
pub open spec fn missing_conf_text(bundled_path: Seq<char>) -> Seq<char> {
    "Sync profile uses VPN but "@ + bundled_path
        + " is missing.\nUse Deploy → add OpenVPN profile, or Deploy to cloud VM once (creates bittice-ec2.ovpn)."@
}

/// What is done for the settings of the VPN, by whether they and the bundled ones are
/// there.
pub fn ensure_vpn_conf_for_compose(conf: bool, bundled: bool, bundled_path: &str) -> (r: VpnConf)
    ensures
        match r {
            VpnConf::Keep => conf,
            VpnConf::Copy => !conf && bundled,
            VpnConf::Missing(m) => !conf && !bundled && m@ == missing_conf_text(bundled_path@),
        },
{
    if conf {
        VpnConf::Keep
    } else if bundled {
        VpnConf::Copy
    } else {
        VpnConf::Missing(
            cat3(
                "Sync profile uses VPN but ",
                bundled_path,
                " is missing.\nUse Deploy → add OpenVPN profile, or Deploy to cloud VM once (creates bittice-ec2.ovpn).",
            ),
        )
    }
}

/// A system that Terraform can be had for.
#[derive(Clone, Copy, Debug, PartialEq, Eq, Structural)]
pub enum PlatformError {
    System,
    Machine,
}

/// The names by which Terraform knows a system and a machine.
pub open spec fn platform(os: Seq<char>, arch: Seq<char>) -> Result<
    (Seq<char>, Seq<char>),
    PlatformError,
> {
    if os != "macos"@ && os != "linux"@ {
        Err(PlatformError::System)
    } else if arch != "aarch64"@ && arch != "x86_64"@ {
        Err(PlatformError::Machine)
    } else {
        Ok(
            (
                if os == "macos"@ {
                    "darwin"@
                } else {
                    "linux"@
                },
                if arch == "aarch64"@ {
                    "arm64"@
                } else {
                    "amd64"@
                },
            ),
        )
    }
}

/// The names by which Terraform knows a system and a machine.
pub fn terraform_platform(os: &str, arch: &str) -> (r: Result<
    (&'static str, &'static str),
    PlatformError,
>)
    ensures
        match r {
            Ok(p) => platform(os@, arch@) == Ok::<(Seq<char>, Seq<char>), PlatformError>(
                (p.0@, p.1@),
            ),
            Err(e) => platform(os@, arch@) == Err::<(Seq<char>, Seq<char>), PlatformError>(e),
        },
{
    let system = if same_text(os, "macos") {
        "darwin"
    } else if same_text(os, "linux") {
        "linux"
    } else {
        return Err(PlatformError::System);
    };
    let machine = if same_text(arch, "aarch64") {
        "arm64"
    } else if same_text(arch, "x86_64") {
        "amd64"
    } else {
        return Err(PlatformError::Machine);
    };
    Ok((system, machine))
}

/// The version of Terraform.
pub fn terraform_version() -> (r: &'static str)
    ensures
        r@ == "1.9.8"@,
{
    "1.9.8"
}

/// Where Terraform is downloaded from.
pub open spec fn terraform_address(os: Seq<char>, arch: Seq<char>) -> Seq<char> {
    "https://releases.hashicorp.com/terraform/1.9.8/terraform_1.9.8_"@ + os + "_"@ + arch + ".zip"@
}

/// Where Terraform is downloaded from.
pub fn terraform_url(os: &str, arch: &str) -> (r: String)
    ensures
        r@ == terraform_address(os@, arch@),
{
    crate::phrase::cat5(
        "https://releases.hashicorp.com/terraform/1.9.8/terraform_1.9.8_",
        os,
        "_",
        arch,
        ".zip",
    )
}

/// The folder in which Terraform is kept: under the home folder, or else under the
/// data.
pub open spec fn cache_folder(home: Option<Seq<char>>, data_root: Seq<char>) -> Seq<char> {
    match home {
        Some(h) => h + "/.bittice/bin"@,
        None => data_root + "/.terraform-bin"@,
    }
}

/// The folder in which Terraform is kept.
pub fn terraform_cache_dir(home: Option<&str>, data_root: &str) -> (r: String)
    ensures
        r@ == cache_folder(
            match home {
                Some(h) => Some(h@),
                None => None,
            },
            data_root@,
        ),
{
    match home {
        Some(h) => crate::phrase::cat2(h, "/.bittice/bin"),
        None => crate::phrase::cat2(data_root, "/.terraform-bin"),
    }
}

/// Where Terraform is kept.
pub fn terraform_binary_path(home: Option<&str>, data_root: &str) -> (r: String)
    ensures
        r@ == cache_folder(
            match home {
                Some(h) => Some(h@),
                None => None,
            },
            data_root@,
        ) + "/terraform"@,
{
    let dir = terraform_cache_dir(home, data_root);
    crate::phrase::cat2(dir.as_str(), "/terraform")
}

/// An address over HTTPS and one over SSH of the same repository tell the same.
pub proof fn law_addresses_agree(path: Seq<char>)
    requires
        trim_spec("https://github.com/"@ + path) == "https://github.com/"@ + path,
        trim_spec("git@github.com:"@ + path) == "git@github.com:"@ + path,
    ensures
        repository("https://github.com/"@ + path) == repository("git@github.com:"@ + path),
{
    let a = "https://github.com/"@ + path;
    let b = "git@github.com:"@ + path;
    reveal_strlit("https://github.com/");
    reveal_strlit("git@github.com:");
    assert("https://github.com/"@ =~= a.subrange(0, "https://github.com/"@.len() as int));
    assert("git@github.com:"@ =~= b.subrange(0, "git@github.com:"@.len() as int));
    assert(behind(a, "https://github.com/"@) =~= path);
    assert(behind(b, "git@github.com:"@) =~= path);
    assert(!"https://github.com/"@.is_prefix_of(b)) by {
        if "https://github.com/"@.is_prefix_of(b) {
            assert("https://github.com/"@[0] == b.subrange(
                0,
                "https://github.com/"@.len() as int,
            )[0]);
            assert(b[0] == 'g');
        }
    }
}

/// The lines that hold something, without white space around it, up to one of them.
pub open spec fn told_lines(lines: Seq<Seq<char>>, n: int) -> Seq<Seq<char>>
    decreases n,
{
    if n <= 0 {
        Seq::empty()
    } else {
        let front = told_lines(lines, n - 1);
        let line = trim_spec(lines[n - 1]);
        if line.len() == 0 {
            front
        } else {
            front.push(line)
        }
    }
}

/// What Terraform knows already, by what it printed; nothing where it failed.
pub fn terraform_state_list(success: bool, output: &str) -> (r: Vec<String>)
    ensures
        texts(r@) == (if success {
            told_lines(text_lines(output@), text_lines(output@).len() as int)
        } else {
            Seq::empty()
        }),
{
    let mut out: Vec<String> = Vec::new();
    assert(texts(out@) =~= Seq::empty());
    if !success {
        return out;
    }
    let lines = text_lines_of(output);
    let ghost ls = text_lines(output@);
    assert(ls.len() == lines@.len());
    let mut i: usize = 0;
    while i < lines.len()
        invariant
            i <= lines@.len(),
            ls == texts(lines@),
            texts(out@) == told_lines(ls, i as int),
        decreases lines@.len() - i,
    {
        assert(ls[i as int] == lines@[i as int]@);
        let line = trimmed(lines[i].as_str());
        if !line.as_str().is_empty() {
            let ghost held = texts(out@);
            let ghost l = line@;
            out.push(line);
            assert(texts(out@) =~= held.push(l));
        }
        i = i + 1;
    }
    out
}

} // verus!

//! What holds of what is said on the way, and of what is handed to a file.

use crate::deploy::image::terraform_address;
use crate::deploy::placement::{nth_text, vpc_message};
use crate::deploy::watch::{failure_text, silent_text, timeout_text, waiting_text};
use crate::deploy::wizard::size_of;
use crate::manifest::Bounds;
use crate::repl::connect_wizard::config_label;
use crate::repl::display::ResultView;
use crate::repl::editor::EditorView;
use crate::repl::grid::{byte_len, grid_lines};
use crate::repl::lists::{next_of, previous_of};
use crate::repl::load_form::LoadView;
use crate::repl::ovpn_picker::{pick_label, short_path, Picked};
use crate::repl::preview::{menu_lines, preview_lines, result_lines, sums_lines};
use crate::repl::search_panel::{filter_text, limit_text, SearchView};
use crate::repl::server_panel::OperationView;
use crate::repl::sheet::{SheetView, Tone};
use crate::repl::state::short_method;
use crate::segment::{row_texts, SegmentView};
use crate::segment_io::{bound_texts, index_rows};
use crate::text::decimal_spec;
use crate::types::{op_name, FilterView, ScalarView};
use crate::vpn::stopping;
use vstd::prelude::*;

verus! {

/// What is saved of the index of a field are its values with their rows, and of the bounds
/// of a column both texts.
pub proof fn law_saved_index(
    ix: Map<Seq<char>, (ScalarView, Set<u32>)>,
    bounds: Map<Seq<char>, Bounds>,
    v: Seq<char>,
)
    ensures
        index_rows(ix).contains_key(v) <==> ix.contains_key(v),
        ix.contains_key(v) ==> index_rows(ix)[v] == ix[v].1,
        bound_texts(bounds).contains_key(v) <==> bounds.contains_key(v),
        bounds.contains_key(v) ==> bound_texts(bounds)[v] == (
            bounds[v].min.text@,
            bounds[v].max.text@,
        ),
{
}

/// The texts of a row are those of its cells, in the order in which the fields are asked
/// for; a field that the segment has no column for gives nothing.
pub proof fn law_texts_of_row(s: SegmentView, row: u32, fields: Seq<Seq<char>>, i: int)
    requires
        0 <= i < fields.len(),
    ensures
        row_texts(s, row, fields).len() == fields.len(),
        s.columns.contains_key(fields[i]) ==> row_texts(s, row, fields)[i]
            == s.columns[fields[i]].text(row as int),
        !s.columns.contains_key(fields[i]) ==> row_texts(s, row, fields)[i].len() == 0,
{
}

/// A long path is shown by its end and a long name by its beginning; a short one as it is.
pub proof fn law_shortened(path: Seq<char>)
    ensures
        byte_len(path) <= 52 ==> short_path(path) == path,
        byte_len(path) > 52 && path.len() > 49 ==> short_path(path) == "..."@ + path.skip(
            path.len() - 49,
        ),
        path.len() <= 48 ==> config_label(path) == path,
        path.len() > 48 ==> config_label(path) == path.take(47) + "…"@,
{
}

/// What can be picked is shown by its name: a folder with a slash behind it.
pub proof fn law_pick_labels(dirs: Seq<Seq<char>>, files: Seq<Seq<char>>, i: usize)
    requires
        i < dirs.len(),
        i < files.len(),
        dirs[i as int].len() < 40,
        files[i as int].len() < 40,
    ensures
        pick_label(Picked::EnterDir(i), dirs, files) == "  "@ + ("📁 "@ + dirs[i as int] + "/"@),
        pick_label(Picked::OvpnFile(i), dirs, files) == "  "@ + ("📄 "@ + files[i as int]),
{
    reveal_strlit("  ");
    reveal_strlit("📁 ");
    reveal_strlit("📄 ");
    reveal_strlit("/");
}

/// The menu shows its items in their order with their numbers, and marks the one that is
/// selected.
pub proof fn law_menu_is_shown(items: Seq<Seq<char>>, selected: Option<usize>, i: int)
    requires
        0 <= i < items.len(),
    ensures
        menu_lines(items, selected).len() == items.len() + 2,
        menu_lines(items, selected)[1 + i][2].0 == decimal_spec((i + 1) as nat) + ". "@ + items[i],
        menu_lines(items, selected)[1 + i][1].0 == (if selected matches Some(k) && k == i {
            "◉ "@
        } else {
            "  "@
        }),
{
}

/// The results come behind the menu and the query, with the time that it took, in a grid, or
/// with the words that there are none, and then the sums.
pub proof fn law_results_are_shown(
    v: SearchView,
    items: Seq<Seq<char>>,
    selected: Option<usize>,
    r: ResultView,
)
    ensures
        ({
            let all = result_lines(v, items, selected, r);
            let n = menu_lines(items, selected).len() + 4 + preview_lines(v, true).len();
            let rows = if r.rows.len() == 0 {
                seq![seq![("  No results found"@, Tone::Fault)]]
            } else {
                grid_lines(r.headers, r.rows)
            };
            let sums = if r.counts is Some {
                sums_lines(r.counts->0, r.counts->0.len() as int)
            } else {
                SheetView::empty()
            };
            &&& all.len() == n + 1 + rows.len() + sums.len()
            &&& all.subrange(0, menu_lines(items, selected).len() as int) == menu_lines(
                items,
                selected,
            )
            &&& all[n as int][1].0 == r.time(" "@)
            &&& all.skip((n + 1) as int) == rows + sums
        }),
{
    let all = result_lines(v, items, selected, r);
    let n = menu_lines(items, selected).len() + 4 + preview_lines(v, true).len();
    let rows = if r.rows.len() == 0 {
        seq![seq![("  No results found"@, Tone::Fault)]]
    } else {
        grid_lines(r.headers, r.rows)
    };
    let sums = if r.counts is Some {
        sums_lines(r.counts->0, r.counts->0.len() as int)
    } else {
        SheetView::empty()
    };
    assert(all.subrange(0, menu_lines(items, selected).len() as int) =~= menu_lines(
        items,
        selected,
    ));
    assert(all.skip((n + 1) as int) =~= rows + sums);
}

/// Whether a text holds another.
pub open spec fn holds(all: Seq<char>, part: Seq<char>) -> bool {
    exists|a: Seq<char>, b: Seq<char>| all == #[trigger] (a + part + b)
}

proof fn lemma_holds(all: Seq<char>, a: Seq<char>, part: Seq<char>, b: Seq<char>)
    requires
        all =~= a + part + b,
    ensures
        holds(all, part),
{
    assert(all == a + part + b);
}

/// Whoever waits in vain is told how to reach the machine: with the key and at the address
/// that it has. How often one has looked and how often one will is told too.
pub proof fn law_told_while_waiting(
    out_of_reach: bool,
    expected: nat,
    attempt: nat,
    most: nat,
    key: Seq<char>,
    ip: Seq<char>,
)
    ensures
        holds(failure_text(out_of_reach, key, ip), "\nssh -i "@ + key + " ubuntu@"@ + ip),
        holds(timeout_text(expected, key, ip), key + " ubuntu@"@ + ip),
        holds(timeout_text(expected, key, ip), decimal_spec(expected)),
        holds(silent_text(key, ip), key + " -o StrictHostKeyChecking=no ubuntu@"@ + ip),
        holds(
            waiting_text(expected, attempt, most),
            decimal_spec(attempt) + ("/"@ + decimal_spec(most)),
        ),
{
    let none = Seq::<char>::empty();
    let hint = if out_of_reach {
        crate::deploy::watch::reach_hint()
    } else {
        none
    };
    lemma_holds(
        failure_text(out_of_reach, key, ip),
        "CDC did not start on the server."@ + hint,
        "\nssh -i "@ + key + " ubuntu@"@ + ip,
        " 'docker logs bittice 2>&1 | tail -n 80'"@,
    );
    let t = timeout_text(expected, key, ip);
    let a = "Timed out waiting for live CDC ("@;
    let b = " profile(s)). The API may serve a static mirror only.\nssh -i "@;
    let c = key + " ubuntu@"@ + ip;
    let d = " 'docker logs -f bittice'"@;
    lemma_holds(t, a + decimal_spec(expected) + b, c, d);
    lemma_holds(t, a, decimal_spec(expected), b + (c + d));
    let s = silent_text(key, ip);
    let head = "Could not connect via SSH to "@ + ip
        + ".\n\nTroubleshooting:\n1. Test manually: ssh -i "@;
    let tail =
        "\n2. Verify the instance is Running in the AWS Console\n3. Check the security group allows port 22 from your IP\n4. Make sure this .pem matches the key used when provisioning"@;
    lemma_holds(s, head, key + " -o StrictHostKeyChecking=no ubuntu@"@ + ip, tail);
    lemma_holds(
        waiting_text(expected, attempt, most),
        "Waiting for CDC live replication ("@ + decimal_spec(expected) + " profile(s))… ("@,
        decimal_spec(attempt) + ("/"@ + decimal_spec(most)),
        ")"@,
    );
}

/// A database in another network is told with both networks; several databases are counted;
/// and the tool that makes machines is fetched for the system and the kind of machine.
pub proof fn law_told_of_databases(
    name: Seq<char>,
    other: Seq<char>,
    vpc: Seq<char>,
    i: nat,
    total: nat,
)
    ensures
        holds(
            vpc_message(name, other, vpc),
            "RDS '"@ + name + "' lives in "@ + other + ", but the first RDS is in "@ + vpc,
        ),
        total > 1 ==> nth_text(i as int, total as int) == "("@ + decimal_spec(i + 1) + "/"@
            + decimal_spec(total) + ")"@,
        total <= 1 ==> nth_text(i as int, total as int).len() == 0,
        holds(terraform_address(name, other), "_"@ + name + "_"@ + other + ".zip"@),
        size_of(0) == "t3.micro"@,
        size_of(1) == "t3.small"@,
        size_of(2) == "t3.medium"@,
        size_of(3) == "t3.large"@,
{
    let none = Seq::<char>::empty();
    let m = vpc_message(name, other, vpc);
    let part = "RDS '"@ + name + "' lives in "@ + other + ", but the first RDS is in "@ + vpc;
    let rest =
        ".\nA single Bittice EC2 can only reach RDSes in one VPC. To cover both:\n• Set up VPC peering between "@
        + vpc + " and "@ + other
        + ", OR\n• Run a separate Bittice deployment per VPC (one entity per deploy)."@;
    lemma_holds(m, none, part, rest);
    let whole = "https://releases.hashicorp.com/terraform/1.9.8/terraform_1.9.8_"@;
    let front = "https://releases.hashicorp.com/terraform/1.9.8/terraform_1.9.8"@;
    assert(whole =~= front + "_"@) by {
        reveal_strlit("https://releases.hashicorp.com/terraform/1.9.8/terraform_1.9.8_");
        reveal_strlit("https://releases.hashicorp.com/terraform/1.9.8/terraform_1.9.8");
        reveal_strlit("_");
    }
    lemma_holds(
        terraform_address(name, other),
        front,
        "_"@ + name + "_"@ + other + ".zip"@,
        none,
    );
}

/// The VPN is stopped by its number and by its name, with more rights outside of a container
/// and without them in one.
pub proof fn law_vpn_is_stopped(container: bool)
    ensures
        ({
            let rights = if container {
                Seq::<char>::empty()
            } else {
                "sudo "@
            };
            &&& holds(stopping(container), " ]; then "@ + rights + "kill $(cat "@)
            &&& holds(stopping(container), " && "@ + rights + "pkill -f openvpn || true"@)
        }),
{
    let none = Seq::<char>::empty();
    let rights = if container {
        none
    } else {
        "sudo "@
    };
    let pid = crate::vpn::PID_FILE@;
    let a = "if [ -f "@ + pid;
    let long = ") 2>/dev/null || true; fi; command -v pkill >/dev/null 2>&1 && "@;
    let short = ") 2>/dev/null || true; fi; command -v pkill >/dev/null 2>&1"@;
    let c = "pkill -f openvpn || true"@;
    assert(""@ =~= none) by {
        reveal_strlit("");
    }
    assert(long =~= short + " && "@) by {
        reveal_strlit(") 2>/dev/null || true; fi; command -v pkill >/dev/null 2>&1 && ");
        reveal_strlit(") 2>/dev/null || true; fi; command -v pkill >/dev/null 2>&1");
        reveal_strlit(" && ");
    }
    let kill = " ]; then "@ + rights + "kill $(cat "@;
    lemma_holds(stopping(container), a, kill, pid + long + rights + c);
    lemma_holds(stopping(container), a + kill + pid + short, " && "@ + rights + c, none);
}

/// Of the paths that are offered the first is marked, and the marks go around; a filter is
/// shown by its field, its operator and its value; a limit by its number; and an operation
/// by its method, which is shortened where something is deleted.
pub proof fn law_offered(form: LoadView, paths: Seq<Seq<char>>, f: FilterView, op: OperationView, n: u64)
    ensures
        form.offered(paths).suggestions == paths,
        paths.len() > 0 ==> form.offered(paths).index == Some(0usize),
        paths.len() == 0 ==> form.offered(paths).index is None,
        form.offered(paths).input == form.input,
        form.suggestions.len() > 0 ==> form.next_suggested().index == Some(
            next_of(form.index, form.suggestions.len()),
        ) && form.previous_suggested().index == Some(
            previous_of(form.index, form.suggestions.len()),
        ),
        filter_text(f) == f.field + " "@ + op_name(f.op) + " "@ + f.value.text,
        limit_text(Some(n)) == decimal_spec(n as nat),
        limit_text(None) == "None"@,
        op is Delete ==> short_method(op) == "DEL"@,
        op is Insert ==> short_method(op) == "POST"@,
        op is Update ==> short_method(op) == "PUT"@,
        op is Read ==> short_method(op) == "GET"@,
{
}

/// That something was copied is told only where it was.
pub proof fn law_copy_is_reported(e: EditorView)
    ensures
        e.copied(true).status == Some(("Copied to clipboard"@, true)),
        e.copied(false) == e,
        e.copied(true).lines == e.lines,
{
}

} // verus!

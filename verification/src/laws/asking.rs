//! What holds of the forms: how a file is loaded, how a database is connected, and which
//! files and folders are offered.

use crate::repl::connect_wizard::{
    container_paths, foreign_path, main_item, nonempty, ovpn_names, source_of, turned,
    ConnectActionView, ConnectAnswer, ConnectStep, ConnectView, MainView,
};
use crate::repl::keys::Key;
use crate::repl::lists::{next_of, previous_of};
use crate::repl::load_form::{
    is_offered, looked_for, offered_paths, shown_path, EntryView, LoadAction, LoadStep, LoadView,
};
use crate::repl::ovpn_picker::{
    file_names, folder_names, is_ovpn, last_point, pick_list, PickView, Picked,
};
use crate::repl::preview::{page_footer, page_limit, preview_lines};
use crate::repl::search_panel::{SearchView, Task};
use crate::repl::sheet::Tone;
use crate::repl::startup_form::{
    news_of, CdcView, NewsView, StartupActionView, StartupStep, StartupView,
};
use crate::settings::ascii_lower;
use crate::text::{decimal_spec, join_spec, occurs_at, occurs_in};
use vstd::prelude::*;

verus! {

/// A file is loaded by its path, the name of the entity and the name of the table, which
/// are asked for in that order. What is typed is taken; where nothing is typed for a name,
/// the name of the file, or `default` and `records`.
pub proof fn law_load_form(
    form: LoadView,
    entity: Seq<char>,
    table: Seq<char>,
    separator: char,
    stem: Option<Seq<char>>,
)
    requires
        form.step == LoadStep::InputPath,
        form.input.len() > 0,
        form.suggestions.len() == 0,
    ensures
        ({
            let f1 = form.after(Key::Enter, separator, stem).0;
            let f2 = (LoadView { input: entity, ..f1 }).after(Key::Enter, separator, stem).0;
            let f3 = (LoadView { input: table, ..f2 }).after(Key::Enter, separator, stem).0;
            &&& f1.step == LoadStep::InputEntity && f1.input.len() == 0
            &&& f2.step == LoadStep::InputTable && f2.input.len() == 0
            &&& f3.step == LoadStep::Processing
            &&& f3.path == form.input
            &&& entity.len() > 0 ==> f3.entity == entity
            &&& table.len() > 0 ==> f3.table == table
            &&& entity.len() == 0 ==> f3.entity == (if stem is Some {
                stem->0
            } else {
                "default"@
            })
            &&& table.len() == 0 ==> f3.table == (if stem is Some {
                stem->0
            } else {
                "records"@
            })
        }),
{
}

/// Typing goes to the end of what was typed and backspace takes its last character; while
/// a path is typed, paths are offered for it. Escape leaves with nothing typed. The arrows
/// go through what is offered, and tab takes it over.
pub proof fn law_load_keys(
    form: LoadView,
    c: char,
    separator: char,
    stem: Option<Seq<char>>,
    i: usize,
)
    requires
        form.index == Some(i),
        i < form.suggestions.len() <= usize::MAX,
    ensures
        ({
            let typed = form.after(Key::Char(c), separator, stem);
            let back = form.after(Key::Backspace, separator, stem);
            let esc = form.after(Key::Esc, separator, stem);
            let tab = form.after(Key::Tab, separator, stem);
            &&& typed.0.input == form.input.push(c)
            &&& form.input.len() > 0 ==> back.0.input == form.input.drop_last()
            &&& form.input.len() == 0 ==> back.0.input.len() == 0
            &&& form.step == LoadStep::InputPath <==> typed.1 == LoadAction::Suggest
            &&& form.step == LoadStep::InputPath <==> back.1 == LoadAction::Suggest
            &&& esc.1 == LoadAction::Leave && esc.0.input.len() == 0 && esc.0.step
                == LoadStep::InputPath
            &&& tab.0.input == form.suggestions[i as int]
            &&& form.after(Key::Down, separator, stem).0.index == Some(
                next_of(Some(i), form.suggestions.len()),
            )
            &&& form.after(Key::Up, separator, stem).0.index == Some(
                previous_of(Some(i), form.suggestions.len()),
            )
        }),
{
}

/// Of what is offered, a folder is gone into and a file of records is taken as the path.
pub proof fn law_offered_path_is_taken(
    form: LoadView,
    separator: char,
    stem: Option<Seq<char>>,
    i: usize,
    name: Seq<char>,
)
    requires
        form.index == Some(i),
        i < form.suggestions.len(),
        separator != 'n',
    ensures
        form.suggestions[i as int] == name.push(separator) ==> form.after(
            Key::Enter,
            separator,
            stem,
        ) == ((LoadView { input: form.suggestions[i as int], ..form }), LoadAction::Suggest),
        form.suggestions[i as int] == name + ".ndjson"@ ==> form.after(
            Key::Enter,
            separator,
            stem,
        ).0.path == form.suggestions[i as int] && form.after(Key::Enter, separator, stem).0.step
            == LoadStep::InputEntity,
{
    reveal_strlit(".ndjson");
    let s = form.suggestions[i as int];
    if s == name + ".ndjson"@ {
        assert(s.skip(s.len() - 7) =~= ".ndjson"@);
        assert(".ndjson"@.is_suffix_of(s));
        assert(s.last() == 'n');
    }
}

/// Offered are the folders and the files of records whose names go on from what was typed,
/// but the hidden ones; a folder with the separator behind it.
pub proof fn law_paths_offered(
    entries: Seq<EntryView>,
    last: EntryView,
    prefix: Seq<char>,
    separator: char,
)
    ensures
        is_offered(last, prefix) <==> (prefix.len() <= last.name.len() && last.name.take(
            prefix.len() as int,
        ) == prefix) && !(last.name.len() > 0 && last.name[0] == '.') && (last.is_folder
            || ".ndjson"@.is_suffix_of(last.name)),
        offered_paths(Seq::empty(), prefix, None, separator).len() == 0,
        is_offered(last, prefix) ==> offered_paths(entries.push(last), prefix, None, separator)
            == offered_paths(entries, prefix, None, separator).push(
            if last.is_folder {
                last.path.push(separator)
            } else {
                last.path
            },
        ),
        !is_offered(last, prefix) ==> offered_paths(entries.push(last), prefix, None, separator)
            == offered_paths(entries, prefix, None, separator),
{
    assert(entries.push(last).drop_last() =~= entries);
    if prefix.is_prefix_of(last.name) {
        assert(last.name.take(prefix.len() as int) =~= prefix);
    }
    if prefix.len() <= last.name.len() && last.name.take(prefix.len() as int) == prefix {
        assert(prefix.is_prefix_of(last.name));
    }
}

/// A tilde in front stands for the home folder, where one is known, both for what is typed
/// and for what is shown; and where nothing is typed, the working folder is looked into.
pub proof fn law_home_folder(home: Seq<char>, rest: Seq<char>, e: EntryView, separator: char)
    ensures
        looked_for(seq!['~'] + rest, Some(home)) == home + rest,
        looked_for(seq!['~'] + rest, None) == seq!['~'] + rest,
        rest.len() > 0 && rest[0] != '~' ==> looked_for(rest, Some(home)) == rest,
        looked_for(Seq::empty(), Some(home)) == "./"@,
        e.path == home + rest && !e.is_folder ==> shown_path(e, Some(home), separator) == seq!['~']
            + rest,
{
    reveal_strlit("./");
    reveal_strlit("~");
    assert((seq!['~'] + rest).skip(1) =~= rest);
    if e.path == home + rest {
        assert(e.path.subrange(0, home.len() as int) =~= home);
        assert(occurs_at(e.path, home, 0));
        assert(e.path.take(0) + "~"@ + e.path.skip(home.len() as int) =~= seq!['~'] + rest);
    }
}

/// A database is asked for by its host, its port, its user, its password, its name and the
/// entity that it becomes; nothing typed keeps what was there, but for the password and the
/// database. Then it is taken in from its address.
pub proof fn law_startup_form(
    form: StartupView,
    host: Seq<char>,
    port: Seq<char>,
    user: Seq<char>,
    pass: Seq<char>,
    database: Seq<char>,
    entity: Seq<char>,
)
    requires
        form.step == StartupStep::Selection,
        form.selected == Some(0usize),
        host.len() > 0,
        port.len() > 0,
        user.len() > 0,
        entity.len() > 0,
    ensures
        ({
            let f0 = form.after(Key::Enter).0;
            let f1 = (StartupView { input: host, ..f0 }).after(Key::Enter).0;
            let f2 = (StartupView { input: port, ..f1 }).after(Key::Enter).0;
            let f3 = (StartupView { input: user, ..f2 }).after(Key::Enter).0;
            let f4 = (StartupView { input: pass, ..f3 }).after(Key::Enter).0;
            let f5 = (StartupView { input: database, ..f4 }).after(Key::Enter).0;
            let f6 = (StartupView { input: entity, ..f5 }).after(Key::Enter);
            &&& f0.step == StartupStep::Host && f1.step == StartupStep::Port && f2.step
                == StartupStep::User && f3.step == StartupStep::Password && f4.step
                == StartupStep::Database && f5.step == StartupStep::Entity && f6.0.step
                == StartupStep::CdcRunning
            &&& f6.1 == (StartupActionView::Sync {
                url: "mysql://"@ + user + ":"@ + pass + "@"@ + host + ":"@ + port + "/"@ + database,
                entity,
                database,
            })
            &&& f6.0.info.host == host && f6.0.info.port == port && f6.0.info.user == user
                && f6.0.info.pass == pass && f6.0.info.database == database && f6.0.info.entity
                == entity
        }),
{
    let a = "mysql://"@ + user + ":"@ + pass + "@"@;
    assert(a + (host + ":"@ + port + "/"@) + database =~= a + host + ":"@ + port + "/"@ + database);
}

/// The address of a database is that of its host, with its name behind it unless every
/// database of the host is taken.
pub proof fn law_database_address(i: CdcView)
    ensures
        ({
            let base = "mysql://"@ + i.user + ":"@ + i.pass + "@"@ + i.host + ":"@ + i.port + "/"@;
            &&& i.all ==> i.url() == base
            &&& !i.all ==> i.url() == base + i.database
        }),
{
    let a = "mysql://"@ + i.user + ":"@ + i.pass + "@"@;
    assert(a + (i.host + ":"@ + i.port + "/"@) =~= a + i.host + ":"@ + i.port + "/"@);
}

/// Where a database is taken in, escape leaves, and enter goes on to building an image,
/// which is called after the entity; that is begun again only after an error.
pub proof fn law_image_is_built(form: StartupView)
    ensures
        form.step == StartupStep::CdcRunning ==> form.after(Key::Esc).1 is Leave && form.after(
            Key::Enter,
        ).0.step == StartupStep::DockerBuild,
        form.step == StartupStep::DockerBuild ==> form.after(Key::Esc).0.step
            == StartupStep::CdcRunning,
        form.step == StartupStep::DockerBuild && form.build is None ==> form.after(Key::Enter).1
            == StartupActionView::Build("bittice-"@ + form.info.entity),
        form.step == StartupStep::DockerBuild ==> (form.build matches Some(s) ==> (occurs_in(
            s,
            "Error"@,
        ) <==> form.after(Key::Enter).1 is Build)),
        form.step == StartupStep::Selection ==> form.after(Key::Esc).1 is Quit,
        form.step == StartupStep::Selection && form.selected == Some(1usize) ==> form.after(
            Key::Enter,
        ).1 is Leave,
{
}

/// What is told of the taking in: that it is ready, that only what is there was taken in,
/// an error, or a line to be shown; lines that may hold a secret are not shown.
pub proof fn law_sync_news(rest: Seq<char>, msg: Seq<char>)
    ensures
        news_of("CDC_READY"@) is Ready,
        !occurs_in(msg, "Syncing table"@) && !occurs_in(msg, "Table sync"@) && !occurs_in(
            msg,
            "rows"@,
        ) && (occurs_in(msg, "Connection timed out"@) || occurs_in(msg, "Access denied"@))
            ==> news_of(msg) is Ready,
        msg == "CDC_ERROR: "@ + rest && !occurs_in(msg, "Syncing table"@) && !occurs_in(
            msg,
            "Table sync"@,
        ) && !occurs_in(msg, "rows"@) && !occurs_in(msg, "Connection timed out"@) && !occurs_in(
            msg,
            "Access denied"@,
        ) ==> news_of(msg) == NewsView::Failed(rest),
        occurs_in(msg, "Syncing table"@) || occurs_in(msg, "Table sync"@) || occurs_in(
            msg,
            "rows"@,
        ) ==> news_of(msg) is Progress,
{
    reveal_strlit("CDC_READY");
    reveal_strlit("CDC_DISABLED");
    reveal_strlit("CDC_ERROR: ");
    reveal_strlit("Syncing table");
    reveal_strlit("Table sync");
    reveal_strlit("rows");
    let ready = "CDC_READY"@;
    assert(!occurs_in(ready, "Syncing table"@)) by {
        if occurs_in(ready, "Syncing table"@) {
            let at = choose|at: int| #[trigger] occurs_at(ready, "Syncing table"@, at);
            assert(ready.subrange(at, at + 13).len() == 13);
        }
    }
    assert(!occurs_in(ready, "Table sync"@)) by {
        if occurs_in(ready, "Table sync"@) {
            let at = choose|at: int| #[trigger] occurs_at(ready, "Table sync"@, at);
            assert(ready.subrange(at, at + 10).len() == 10);
        }
    }
    assert(!occurs_in(ready, "rows"@)) by {
        if occurs_in(ready, "rows"@) {
            let at = choose|at: int| #[trigger] occurs_at(ready, "rows"@, at);
            assert(ready.subrange(at, at + 4)[0] == ready[at]);
            assert("rows"@[0] == 'r');
        }
    }
    if msg == "CDC_ERROR: "@ + rest {
        assert(msg.take(11) =~= "CDC_ERROR: "@);
        assert("CDC_ERROR: "@.is_prefix_of(msg));
        assert(msg.skip(11) =~= rest);
        assert(msg[4] == 'E' && "CDC_READY"@[4] == 'R' && "CDC_DISABLED"@[4] == 'D');
    }
}

/// A connection is asked for step by step, and what is typed is kept: the host, the port,
/// the user and the password; then one database by its name, with the entity that it
/// becomes, or all of them under the name of a profile. Outside of a container it is done.
pub proof fn law_connecting(
    w: ConnectView,
    host: String,
    port: String,
    user: String,
    pass: String,
    name: String,
    entity: String,
)
    requires
        w.step == ConnectStep::Host,
        !w.in_container,
    ensures
        ({
            let w1 = w.after(ConnectAnswer::Typed(host)).0;
            let w2 = w1.after(ConnectAnswer::Typed(port)).0;
            let w3 = w2.after(ConnectAnswer::Typed(user)).0;
            let w4 = w3.after(ConnectAnswer::Typed(pass)).0;
            let all = w4.after(ConnectAnswer::Chosen(0)).0;
            let one = w4.after(ConnectAnswer::Chosen(1)).0;
            let a = all.after(ConnectAnswer::Typed(name));
            let o = one.after(ConnectAnswer::Typed(name)).0.after(ConnectAnswer::Typed(entity));
            &&& w4.step == ConnectStep::Mode
            &&& a.1 is Keep && a.0.step == ConnectStep::Done
            &&& a.0.info == (CdcView {
                host: host@,
                port: port@,
                user: user@,
                pass: pass@,
                database: Seq::empty(),
                all: true,
                entity: name@,
                vpn_file: w.info.vpn_file,
            })
            &&& o.1 is Keep && o.0.step == ConnectStep::Done
            &&& o.0.info == (CdcView {
                host: host@,
                port: port@,
                user: user@,
                pass: pass@,
                database: name@,
                all: false,
                entity: entity@,
                vpn_file: w.info.vpn_file,
            })
            &&& w4.after(ConnectAnswer::Chosen(240)).1 is Cancel
        }),
{
}

/// In a container one is asked whether a VPN is needed. Without one it is done; with one,
/// the file that is picked is stored, and the VPN is started, after it was installed where
/// it is not there; whoever does not want that cannot go on.
pub proof fn law_connecting_by_vpn(
    w: ConnectView,
    name: String,
    pick: usize,
    path: String,
    installed: bool,
)
    requires
        w.step == ConnectStep::Entity,
        w.in_container,
        pick < w.configs.len(),
    ensures
        ({
            let v = w.after(ConnectAnswer::Typed(name)).0;
            let p = v.after(ConnectAnswer::Chosen(0)).0;
            let c = p.after(ConnectAnswer::Chosen(0)).0;
            let s = c.after(ConnectAnswer::Chosen(pick));
            let t = s.0.after(ConnectAnswer::Stored { path, installed });
            let done = t.0.after(ConnectAnswer::Finished);
            &&& v.step == ConnectStep::UseVpn
            &&& v.after(ConnectAnswer::Chosen(1)).1 is Keep
            &&& p.step == ConnectStep::VpnProvider
            &&& p.after(ConnectAnswer::Chosen(1)).1 is Unsupported
            &&& c.step == ConnectStep::VpnConfig
            &&& s.1 == ConnectActionView::Store(w.folder + "/"@ + w.configs[pick as int])
            &&& t.0.info.vpn_file == Some(path@)
            &&& t.0.info.entity == name@
            &&& installed ==> t.1 is Start && done.1 is Keep && done.0.step == ConnectStep::Done
            &&& !installed ==> t.0.step == ConnectStep::Install && t.0.after(
                ConnectAnswer::Chosen(0),
            ).1 is InstallAndStart && t.0.after(ConnectAnswer::Chosen(1)).1 is Fail
        }),
{
}

/// In the first menu one connects, watches what is taken in, deploys and leaves. Where
/// nothing is taken in yet, there are only the first and the last.
pub proof fn law_first_menu(entities: Seq<Seq<char>>)
    ensures
        main_item(0, true, entities) is Connect,
        main_item(0, false, entities) is Connect,
        entities.len() > 0 ==> main_item(1, true, entities) == MainView::Monitor(
            "all synchronized entities ("@ + join_spec(entities, ", "@) + ")"@,
        ),
        entities.len() == 0 ==> main_item(1, true, entities) is NoEntities,
        main_item(2, true, entities) is Deploy,
        main_item(3, true, entities) is Exit,
        main_item(1, false, entities) is Exit,
        main_item(2, false, entities) is Again,
{
}

/// The settings of a VPN are given by an address, whose last part is the name of the file;
/// as such, where the text reads like them; or by a path.
pub proof fn law_vpn_source(input: Seq<char>, rest: Seq<char>)
    ensures
        source_of(Seq::empty()) is Empty,
        input == "http://"@ + rest || input == "https://"@ + rest ==> source_of(input) is Address,
        input.len() > 0 && !"http://"@.is_prefix_of(input) && !"https://"@.is_prefix_of(input) ==> (
        source_of(input) is Pasted <==> occurs_in(input, "client"@) && occurs_in(input, "dev"@)),
        input.len() > 0 && !"http://"@.is_prefix_of(input) && !"https://"@.is_prefix_of(input) ==> (
        source_of(input) is Path <==> !occurs_in(input, "client"@) || !occurs_in(input, "dev"@)),
        foreign_path("/Users/"@ + rest),
        foreign_path("/home/"@ + rest),
        foreign_path("C:\\"@ + rest),
{
    reveal_strlit("http://");
    reveal_strlit("https://");
    reveal_strlit("/Users/");
    reveal_strlit("/home/");
    reveal_strlit("C:\\");
    if input == "http://"@ + rest {
        assert(input.take(7) =~= "http://"@);
        assert("http://"@.is_prefix_of(input));
    }
    if input == "https://"@ + rest {
        assert(input.take(8) =~= "https://"@);
        assert("https://"@.is_prefix_of(input));
    }
    assert("/Users/"@.is_prefix_of("/Users/"@ + rest));
    assert("/home/"@.is_prefix_of("/home/"@ + rest));
    assert("C:\\"@.is_prefix_of("C:\\"@ + rest));
}

/// A path of the host is looked for in the container under the home folder of the host,
/// with all of its parts, and then with one part less in front each time.
pub proof fn law_container_paths(input: Seq<char>, i: int)
    ensures
        ({
            let parts = nonempty(crate::phrase::pieces(turned(input), '/'));
            &&& container_paths(input).len() == parts.len()
            &&& 0 <= i < parts.len() ==> container_paths(input)[i] == "/app/host_home/"@
                + join_spec(parts.skip(i), "/"@)
        }),
        forall|k: int|
            0 <= k < input.len() ==> #[trigger] turned(input)[k] == (if input[k] == '\\' {
                '/'
            } else {
                input[k]
            }),
        turned(input).len() == input.len(),
{
}

proof fn lemma_last_point(s: Seq<char>)
    ensures
        last_point(s) is None <==> !s.contains('.'),
        last_point(s) matches Some(i) ==> 0 <= i < s.len() && s[i] == '.' && !s.skip(
            i + 1,
        ).contains('.'),
    decreases s.len(),
{
    if s.len() > 0 {
        if s.last() == '.' {
            assert(s[s.len() - 1] == '.');
            assert(s.skip(s.len() as int) =~= Seq::empty());
        } else {
            let front = s.drop_last();
            lemma_last_point(front);
            if s.contains('.') {
                let k = choose|k: int| 0 <= k < s.len() && s[k] == '.';
                assert(front[k] == '.');
            }
            if let Some(i) = last_point(front) {
                let rest = s.skip(i + 1);
                if rest.contains('.') {
                    let k = choose|k: int| 0 <= k < rest.len() && rest[k] == '.';
                    assert(rest[k] == s[i + 1 + k]);
                    assert(front.skip(i + 1)[k] == '.');
                }
            }
        }
    }
}

/// A file of a VPN is one whose name ends, behind its last point, in `ovpn`, however that
/// is written; a name that only begins with a point has no such end.
pub proof fn law_vpn_files(stem: Seq<char>, end: Seq<char>)
    requires
        !end.contains('.'),
    ensures
        stem.len() > 0 ==> (is_ovpn(stem + "."@ + end) <==> ascii_lower(end) == "ovpn"@),
        !is_ovpn("."@ + end),
        !is_ovpn(end),
{
    reveal_strlit(".");
    let name = stem + "."@ + end;
    lemma_last_point(name);
    assert(name[stem.len() as int] == '.');
    assert(name.contains('.'));
    if let Some(i) = last_point(name) {
        let at = stem.len() as int;
        if i < at {
            assert(name.skip(i + 1)[at - i - 1] == '.');
        } else if i > at {
            assert(end[i - at - 1] == '.');
            assert(end.contains('.'));
        }
        assert(name.skip(at + 1) =~= end);
    }
    let hidden = "."@ + end;
    lemma_last_point(hidden);
    if let Some(i) = last_point(hidden) {
        if i > 0 {
            assert(end[i - 1] == '.');
            assert(end.contains('.'));
        }
    }
    lemma_last_point(end);
}

/// Of a folder the folders are offered and the files of VPNs, but the hidden ones, after
/// the folder above, where there is one; and at the end that one can type instead.
pub proof fn law_picking(
    entries: Seq<PickView>,
    last: PickView,
    has_parent: bool,
    dirs: usize,
    files: usize,
    i: int,
)
    ensures
        folder_names(Seq::empty()).len() == 0,
        file_names(Seq::empty()).len() == 0,
        ({
            let hidden = last.name.len() > 0 && last.name[0] == '.';
            &&& folder_names(entries.push(last)) == (if last.is_folder && !hidden {
                folder_names(entries).push(last.name)
            } else {
                folder_names(entries)
            })
            &&& file_names(entries.push(last)) == (if !last.is_folder && last.is_file && !hidden
                && is_ovpn(last.name) {
                file_names(entries).push(last.name)
            } else {
                file_names(entries)
            })
        }),
        ({
            let list = pick_list(has_parent, dirs as nat, files as nat);
            let up: int = if has_parent {
                1
            } else {
                0
            };
            &&& list.len() == up + dirs + files + 1
            &&& has_parent ==> list[0] == Picked::Up
            &&& 0 <= i < dirs ==> list[up + i] == Picked::EnterDir(i as usize)
            &&& 0 <= i < files ==> list[up + dirs + i] == Picked::OvpnFile(i as usize)
            &&& list.last() == Picked::TypeInstead
        }),
{
    assert(entries.push(last).drop_last() =~= entries);
}

/// The names of files of VPNs are those that end so, in their order.
pub proof fn law_vpn_names(names: Seq<Seq<char>>, last: Seq<char>)
    ensures
        ovpn_names(Seq::empty()).len() == 0,
        ovpn_names(names.push(last)) == (if ".ovpn"@.is_suffix_of(last) {
            ovpn_names(names).push(last)
        } else {
            ovpn_names(names)
        }),
{
    assert(names.push(last).drop_last() =~= names);
}

/// Under the results stand the page, how many there are and how many rows were found. One
/// can go back from all but the first page and on from all but the last.
pub proof fn law_page_footer(total: u64, limit: u64, page: u64)
    requires
        limit > 0,
    ensures
        page_limit(Some(limit)) == limit,
        page_limit(None) == 100,
        page_footer(total, Some(limit), page).len() == 4,
        page_footer(total, Some(limit), page)[0].1 == Tone::FooterOn <==> page > 1,
        page_footer(total, Some(limit), page)[2].1 == Tone::FooterOn <==> page * limit < total,
        page_footer(total, Some(limit), page)[3].0 == "  (Total found: "@ + decimal_spec(
            total as nat,
        ) + ")"@,
{
    crate::repl::preview::law_next_page_is_open(total, Some(limit), page);
}

/// What is about to be done is told by its kind, its entity and its table, which are a
/// question mark as long as they are not known.
pub proof fn law_preview(v: SearchView, has_results: bool)
    ensures
        ({
            let lines = preview_lines(v, has_results);
            &&& v.task == Some(Task::Create) ==> lines[0][0].0 == "Record to Create"@
            &&& v.task == Some(Task::Update) ==> lines[0][0].0 == "Record to Update"@
            &&& v.task == Some(Task::Delete) ==> lines[0][0].0 == "Record to Delete"@
                && lines[3][2].0 == v.target_id
            &&& v.task == Some(Task::Search) ==> lines[0][0].0 == (if has_results {
                "Query"@
            } else {
                "Query Preview"@
            })
            &&& lines[1][2].0 == (if v.entity is Some {
                v.entity->0
            } else {
                "?"@
            })
            &&& lines[2][2].0 == (if v.table is Some {
                v.table->0
            } else {
                "?"@
            })
        }),
{
}

/// Of the two items that the program begins with, an arrow goes to the other one.
pub proof fn law_startup_choice(form: StartupView, i: usize)
    requires
        form.step == StartupStep::Selection,
        form.selected == Some(i),
        i < 2,
    ensures
        form.after(Key::Down).0.selected == Some((1 - i) as usize),
        form.after(Key::Up).0.selected == Some((1 - i) as usize),
        form.after(Key::Down).0.info == form.info,
{
}

} // verus!

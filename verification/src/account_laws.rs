//! What an import keeps of an account, what the journal keeps, and which applications are found.
use crate::accounts;
use crate::accounts::{Account, TraeLocalAccount};
use crate::checkin_laws::{has, lacks, lemma_member};
use crate::journal;
use crate::journal::JournalEvent;
use crate::json;
use crate::json::JsonV;
use crate::paths;
use crate::place_laws;
use crate::realtime_laws;
use crate::rules;
use crate::rules::Rules;
use crate::table;
use crate::target;
use crate::target::{AppTarget, Candidate, Platform};
use crate::text;
use vstd::prelude::*;
use vstd::string::*;

verus! {

// ---------------------------------------------------------------------------
// Accounts
// ---------------------------------------------------------------------------

/// An imported account holds everything that the login holds, under the id and the time that it is
/// given; it is enabled, and nothing is known of its credits. Its name is the nickname, or else the
/// phone number.
pub proof fn law_import_keeps_the_login(
    a: TraeLocalAccount,
    id: String,
    created_at: String,
    r: Account,
)
    requires
        accounts::imported(a, id, created_at, r),
    ensures
        r == (Account {
            id,
            name: r.name,
            phone: a.phone,
            region: a.region,
            user_id: a.user_id,
            token: a.token,
            refresh_token: a.refresh_token,
            host: a.host,
            expires_at: a.expires_at,
            refresh_expires_at: a.refresh_expires_at,
            device_id: a.device_id,
            machine_id: a.machine_id,
            created_at,
            enabled: true,
            credit_snapshot: None,
        }),
        a.nickname matches Some(n) ==> r.name@ == n@,
        a.nickname is None ==> (a.phone matches Some(p) ==> r.name@ == p@),
        a.nickname is None && a.phone is None ==> r.name@ == "未命名账号"@,
{
}

/// Two accounts are of one person exactly where their phone numbers are the same, or, where one has
/// none, their tokens are; this holds both ways.
pub proof fn law_who_is_the_same_person(x: Account, y: Account)
    ensures
        x.phone is Some && y.phone is Some ==> (accounts::equivalent(x, y) <==> x.phone->0@
            == y.phone->0@),
        x.phone is None || y.phone is None ==> (accounts::equivalent(x, y) <==> x.token@
            == y.token@),
        accounts::equivalent(x, y) == accounts::equivalent(y, x),
        accounts::equivalent(x, x),
{
}

/// An account keeps its own id and time; only what is missing is filled in, and nothing else
/// changes.
pub proof fn law_only_what_is_missing_is_filled_in(a: Account, id: String, at: String)
    ensures
        ({
            let r = accounts::filled_in(a, id, at);
            &&& a.id@.len() > 0 ==> r.id == a.id
            &&& a.id@.len() == 0 ==> r.id == id
            &&& a.created_at@.len() > 0 ==> r.created_at == a.created_at
            &&& a.created_at@.len() == 0 ==> r.created_at == at
            &&& (Account { id: a.id, created_at: a.created_at, ..r }) == a
        }),
{
}

/// A switch of an early settings file is on where it says so, and its port is brought into the range
/// of ports.
pub proof fn law_early_settings(raw: JsonV, key: Seq<char>, n: int)
    requires
        0 <= n <= u64::MAX,
    ensures
        has(raw, key, JsonV::Bool(true)) ==> accounts::legacy_on(raw, key),
        has(raw, key, JsonV::Bool(false)) ==> !accounts::legacy_on(raw, key),
        lacks(raw, key) ==> !accounts::legacy_on(raw, key),
        has(raw, "gateway_port"@, JsonV::Int(n)) && 1 <= n <= 65535 ==> accounts::legacy_port(raw)
            == Some(n),
        has(raw, "gateway_port"@, JsonV::Int(n)) && n == 0 ==> accounts::legacy_port(raw) == Some(
            1int,
        ),
        has(raw, "gateway_port"@, JsonV::Int(n)) && n > 65535 ==> accounts::legacy_port(raw)
            == Some(65535int),
        lacks(raw, "gateway_port"@) ==> accounts::legacy_port(raw) is None,
{
    lemma_member(raw, key);
    lemma_member(raw, "gateway_port"@);
}

// ---------------------------------------------------------------------------
// The journal and the cache of the rules
// ---------------------------------------------------------------------------

/// The journal after a new event: the event, then up to 499 of those before, in their order.
pub proof fn law_journal_after_an_event(events: Seq<JournalEvent>, entry: JournalEvent)
    ensures
        events.len() <= 499 ==> journal::noted(events, entry) == seq![entry] + events,
        events.len() > 499 ==> journal::noted(events, entry) == seq![entry] + events.take(499),
        journal::repeats(events, entry.event@, entry.detail@) <==> events.len() > 0
            && events.first().event@ == entry.event@ && events.first().detail@ == entry.detail@,
{
    if events.len() > 499 {
        assert(journal::noted(events, entry) =~= seq![entry] + events.take(499));
    }
}

/// A journal file is its lines, each with a line feed; the lines that are read are those that are
/// not blank, in their order.
pub proof fn law_lines_of_a_journal(lines: Seq<Seq<char>>, line: Seq<char>)
    ensures
        journal::framed(lines.push(line)) == journal::framed(lines) + line + seq!['\n'],
        journal::filled_lines(lines) == lines.filter(|l: Seq<char>| text::trim(l).len() > 0),
    decreases lines.len(),
{
    reveal_strlit("\n");
    assert("\n"@ =~= seq!['\n']);
    assert(lines.push(line).drop_last() =~= lines);
    let keep = |l: Seq<char>| text::trim(l).len() > 0;
    reveal(Seq::filter);
    if lines.len() > 0 {
        law_lines_of_a_journal(lines.drop_last(), line);
    }
    assert(journal::filled_lines(lines) =~= lines.filter(keep));
}

/// Something that was written counts as fresh until its time is over, and from its end on it does
/// not; only what is fresh stays.
pub proof fn law_what_is_fresh<V>(
    m: Map<Seq<char>, (u64, V)>,
    k: Seq<char>,
    at: u64,
    now: u64,
    ttl: u64,
)
    ensures
        table::fresh(at, now, ttl) <==> now < at + ttl,
        table::live(m, now, ttl).contains_key(k) <==> m.contains_key(k) && now < m[k].0 + ttl,
        table::live(m, now, ttl).contains_key(k) ==> table::live(m, now, ttl)[k] == m[k],
{
}

/// Two sets of rules that say the same swap the same.
pub proof fn law_same_rules_swap_the_same(
    a: Rules,
    b: Rules,
    path: Seq<char>,
    builtin: Seq<Seq<char>>,
)
    requires
        rules::same_rules(a, b),
    ensures
        rules::swaps(a, path, builtin) == rules::swaps(b, path, builtin),
        a.swap_ws == b.swap_ws,
        a.observe_only == b.observe_only,
{
}

// ---------------------------------------------------------------------------
// Applications
// ---------------------------------------------------------------------------

/// The id of a bundle is its name without `.app`; a directory without that ending is none. On
/// Windows the id is the name of the directory.
pub proof fn law_id_of_an_application(base: Seq<char>, name: Seq<char>, drive: char)
    requires
        place_laws::plain_name(name),
        base.len() > 0 ==> base.last() == '/',
        ('a' <= drive && drive <= 'z') || ('A' <= drive && drive <= 'Z'),
    ensures
        target::target_id(base + (name + ".app"@), Platform::MacOs) == Some(name),
        !".app"@.is_suffix_of(name) ==> target::target_id(base + name, Platform::MacOs) is None,
        target::target_id(seq![drive, ':', '\\'] + name, Platform::Windows) == Some(name),
{
    reveal_strlit(".app");
    reveal_strlit(".");
    reveal_strlit("..");
    let f = name + ".app"@;
    assert forall|k: int| 0 <= k < f.len() implies #[trigger] f[k] != '/' && f[k] != '\\' && f[k]
        != ':' by {
        if k < name.len() {
            assert(f[k] == name[k]);
        }
    }
    assert(f.len() > 4);
    assert("."@.len() == 1);
    assert(".."@.len() == 2);
    place_laws::law_last_part_is_the_name(base, f);
    place_laws::law_last_part_is_the_name(base, name);
    assert(f.subrange(f.len() - 4, f.len() as int) =~= ".app"@);
    assert(f.subrange(0, f.len() - 4) =~= name);
    if name.len() >= 4 {
        let end = name.subrange(name.len() - 4, name.len() as int);
        if end =~= ".app"@ {
            assert(".app"@.is_suffix_of(name));
        }
    }
    let dirs = seq!['\\'];
    place_laws::law_last_part_on_windows(drive, dirs, name);
    assert(seq![drive, ':', '\\'] + name =~= seq![drive, ':'] + dirs + name);
}

/// The application is in `resources\app` of a directory on Windows, and in
/// `Contents/Resources/app` of a bundle.
pub proof fn law_where_an_application_is(bundle: Seq<char>)
    requires
        place_laws::plain_dir(bundle),
    ensures
        target::app_dir_in(bundle, Platform::Windows) == bundle + "\\resources\\app"@,
        target::app_dir_in(bundle, Platform::MacOs) == bundle + "/Contents/Resources/app"@,
{
    reveal_strlit("\\");
    reveal_strlit("/");
    reveal_strlit("resources");
    reveal_strlit("app");
    reveal_strlit("Contents");
    reveal_strlit("Resources");
    reveal_strlit("\\resources\\app");
    reveal_strlit("/Contents/Resources/app");
    assert(paths::prefix_len("resources"@) == 0);
    assert(paths::prefix_len("app"@) == 0);
    let b = bundle + "\\"@ + "resources"@;
    assert(b.last() == 's');
    assert(paths::joined(bundle, "resources"@, true) == b);
    assert(b + "\\"@ + "app"@ =~= bundle + "\\resources\\app"@);
    let d = bundle + "/"@ + "Contents"@;
    assert(d.last() == 's');
    let e = d + "/"@ + "Resources"@;
    assert(e.last() == 's');
    assert(e + "/"@ + "app"@ =~= bundle + "/Contents/Resources/app"@);
}

/// Applications are installed in the two directories of macOS; on Windows below each directory of
/// the user, its programs first, and then in those of the machine; elsewhere nowhere.
pub proof fn law_where_applications_are_installed(
    home: Seq<char>,
    bases: Seq<Seq<char>>,
    machine: Seq<Seq<char>>,
    i: int,
)
    ensures
        target::install_roots(Platform::MacOs, Some(home), bases, machine) == seq![
            "/Applications"@,
            paths::joined(home, "Applications"@, false),
        ],
        target::install_roots(Platform::MacOs, None, bases, machine) == seq!["/Applications"@],
        target::install_roots(Platform::Other, Some(home), bases, machine).len() == 0,
        target::install_roots(Platform::Windows, Some(home), bases, machine).len() == 2
            * bases.len() + machine.len(),
        0 <= i < bases.len() ==> target::install_roots(
            Platform::Windows,
            Some(home),
            bases,
            machine,
        )[2 * i] == paths::joined(bases[i], "Programs"@, true),
        0 <= i < bases.len() ==> target::install_roots(
            Platform::Windows,
            Some(home),
            bases,
            machine,
        )[2 * i + 1] == bases[i],
        0 <= i < machine.len() ==> target::install_roots(
            Platform::Windows,
            Some(home),
            bases,
            machine,
        )[2 * bases.len() + i] == machine[i],
{
    lemma_user_roots(bases, i);
}

proof fn lemma_user_roots(bases: Seq<Seq<char>>, i: int)
    ensures
        target::user_roots(bases).len() == 2 * bases.len(),
        0 <= i < bases.len() ==> target::user_roots(bases)[2 * i] == paths::joined(
            bases[i],
            "Programs"@,
            true,
        ) && target::user_roots(bases)[2 * i + 1] == bases[i],
    decreases bases.len(),
{
    if bases.len() > 0 {
        lemma_user_roots(bases.drop_last(), i);
    }
}

/// A directory holds an application exactly where its product configuration has an object of boot
/// settings; it is the application of its name.
pub proof fn law_what_is_an_application(c: Candidate, t: Seq<char>, v: JsonV, platform: Platform)
    requires
        text::opt_text(c.product) == Some(t),
        json::parsed_json(t) == Some(v),
    ensures
        forall|m: Seq<(Seq<char>, JsonV)>| #[trigger]
            has(v, "bootConfig"@, JsonV::Obj(m)) ==> target::accepted(c, platform)
                == target::target_id(c.bundle@, platform),
        lacks(v, "bootConfig"@) ==> target::accepted(c, platform) is None,
        forall|x: JsonV| #[trigger]
            has(v, "bootConfig"@, x) && x !is Obj ==> target::accepted(c, platform) is None,
{
    lemma_member(v, "bootConfig"@);
}

/// Every application that is found is listed, as the first directory with its id has it; and nothing
/// else is.
pub proof fn law_every_application_is_listed(
    list: Seq<AppTarget>,
    found: Seq<Candidate>,
    platform: Platform,
    i: int,
    k: int,
)
    requires
        target::lists_targets(list, found, found.len() as int, platform),
        0 <= i < found.len(),
        target::accepted(found[i], platform) is Some,
        forall|j: int|
            0 <= j < i ==> target::accepted(#[trigger] found[j], platform) != target::accepted(
                found[i],
                platform,
            ),
        0 <= k < list.len(),
    ensures
        exists|n: int|
            0 <= n < list.len() && (#[trigger] list[n]).bundle == found[i].bundle && list[n].id@
                == target::accepted(found[i], platform)->0 && list[n].app_dir@
                == target::app_dir_in(found[i].bundle@, platform),
        exists|j: int|
            0 <= j < found.len() && (#[trigger] found[j]).bundle == list[k].bundle
                && target::accepted(found[j], platform) == Some(list[k].id@),
{
    let id = target::accepted(found[i], platform)->0;
    assert(target::has_id(list, id));
    let n = choose|n: int| 0 <= n < list.len() && (#[trigger] list[n]).id@ == id;
    assert(target::from_first(list[n], found, found.len() as int, platform));
    let p = choose|p: int|
        0 <= p < found.len() && target::made_from(list[n], #[trigger] found[p], platform) && forall|
            j: int,
        | 0 <= j < p ==> target::accepted(#[trigger] found[j], platform) != Some(list[n].id@);
    if p < i {
        assert(target::accepted(found[p], platform) != target::accepted(found[i], platform));
    } else if i < p {
        assert(target::accepted(found[i], platform) != Some(list[n].id@));
    }
    assert(list[n].bundle == found[i].bundle);
    assert(target::from_first(list[k], found, found.len() as int, platform));
    let q = choose|q: int|
        0 <= q < found.len() && target::made_from(list[k], #[trigger] found[q], platform) && forall|
            j: int,
        | 0 <= j < q ==> target::accepted(#[trigger] found[j], platform) != Some(list[k].id@);
    assert(found[q].bundle == list[k].bundle);
}

/// An application is selected where nothing or its id is selected, and a selected id is missing where
/// no application has it.
pub proof fn law_what_is_selected(all: Seq<AppTarget>, ids: Seq<String>, t: AppTarget, id: String)
    ensures
        target::is_chosen(ids)(t) <==> ids.len() == 0 || exists|i: int|
            0 <= i < ids.len() && (#[trigger] ids[i])@ == t.id@,
        target::is_absent(all)(id) <==> forall|k: int|
            0 <= k < all.len() ==> (#[trigger] all[k]).id@ != id@,
{
}

/// Exactly the stopped applications that were started again are told.
pub proof fn law_started_again_are_told(
    targets: Seq<AppTarget>,
    stopped: Seq<usize>,
    started: Seq<bool>,
    id: Seq<char>,
)
    requires
        started.len() == stopped.len(),
    ensures
        target::started_ids(targets, stopped, started).contains(id) <==> exists|i: int|
            0 <= i < stopped.len() && started[i] && targets[(#[trigger] stopped[i]) as int].id@
                == id,
        (forall|i: int| 0 <= i < started.len() ==> #[trigger] started[i]) ==> target::started_ids(
            targets,
            stopped,
            started,
        ) == stopped.map_values(|k: usize| targets[k as int].id@),
{
    lemma_started(targets, stopped, started, id);
}

proof fn lemma_started(
    targets: Seq<AppTarget>,
    stopped: Seq<usize>,
    started: Seq<bool>,
    id: Seq<char>,
)
    requires
        started.len() >= stopped.len(),
    ensures
        target::started_ids(targets, stopped, started).contains(id) <==> exists|i: int|
            0 <= i < stopped.len() && started[i] && targets[(#[trigger] stopped[i]) as int].id@
                == id,
        (forall|i: int| 0 <= i < started.len() ==> #[trigger] started[i]) ==> target::started_ids(
            targets,
            stopped,
            started,
        ) == stopped.map_values(|k: usize| targets[k as int].id@),
    decreases stopped.len(),
{
    let r = target::started_ids(targets, stopped, started);
    if stopped.len() > 0 {
        let rest = stopped.drop_last();
        let before = target::started_ids(targets, rest, started);
        lemma_started(targets, rest, started, id);
        let n = stopped.len() - 1;
        if r.contains(id) {
            let k = choose|k: int| 0 <= k < r.len() && r[k] == id;
            if k < before.len() {
                assert(before[k] == id);
                let i = choose|i: int|
                    0 <= i < rest.len() && started[i] && targets[(#[trigger] rest[i]) as int].id@
                        == id;
                assert(stopped[i] == rest[i]);
            } else {
                assert(started[n] && targets[stopped[n] as int].id@ == id);
            }
        }
        if exists|i: int|
            0 <= i < stopped.len() && started[i] && targets[(#[trigger] stopped[i]) as int].id@
                == id {
            let i = choose|i: int|
                0 <= i < stopped.len() && started[i] && targets[(#[trigger] stopped[i]) as int].id@
                    == id;
            if i < n {
                assert(rest[i] == stopped[i]);
                let k = choose|k: int| 0 <= k < before.len() && before[k] == id;
                assert(r[k] == id);
            } else {
                assert(r[r.len() - 1] == id);
            }
        }
        if forall|i: int| 0 <= i < started.len() ==> #[trigger] started[i] {
            assert(started[n]);
            assert(r =~= stopped.map_values(|k: usize| targets[k as int].id@));
        }
    } else {
        assert(r =~= stopped.map_values(|k: usize| targets[k as int].id@));
    }
}

/// The image in a line of the list of processes is its first field without the quotes; a carriage
/// return at the end of the line does not belong to it.
pub proof fn law_image_of_a_process(name: Seq<char>, rest: Seq<char>, ended: bool)
    requires
        realtime_laws::free_of(name, '"'),
        realtime_laws::free_of(name, ','),
        name.len() > 0,
        name.last() != '\r',
    ensures
        target::line_image(seq!['"'] + name + seq!['"', ',', '"'] + rest, ended) == name,
        target::line_image(name + seq!['\r'], true) == name,
        target::line_image(name, ended) == name,
{
    reveal_strlit("\",\"");
    let sep = "\",\""@;
    assert(sep =~= seq!['"', ',', '"']);
    let line = seq!['"'] + name + sep + rest;
    assert(seq!['"'] + name + seq!['"', ',', '"'] + rest =~= line);
    let whole = if ended && line.len() > 0 && line.last() == '\r' {
        line.subrange(0, line.len() - 1)
    } else {
        line
    };
    let n = 1 + name.len() as int;
    assert(whole.len() >= n + 3) by {
        if rest.len() == 0 {
            assert(line.last() == '"');
        }
    }
    assert(whole.subrange(n, n + 3) =~= sep);
    assert forall|j: int| 0 <= j < n implies !text::occurs_at(whole, sep, j) by {
        if text::occurs_at(whole, sep, j) {
            let w = whole.subrange(j, j + 3);
            assert(w[0] == whole[j] && w[1] == whole[j + 1] && w[2] == whole[j + 2]);
            if j > 0 {
                assert(whole[j] == name[j - 1]);
            } else {
                assert(whole[1] == name[0]);
            }
        }
    }
    text::lemma_find_is(whole, sep, 0, n);
    let field = whole.subrange(0, n);
    assert(field =~= seq!['"'] + name);
    assert(field.subrange(1, field.len() as int) =~= name);
    assert(name[0] != '"');
    assert(target::unquoted_start(name) == name);
    assert(target::unquoted_start(field) == name);
    assert(name[name.len() - 1] != '"');
    assert(text::trim_end_char(name, '"') == name);
    text::lemma_find_from(name, sep, 0);
    if let Some(i) = text::find_from(name, sep, 0) {
        assert(name.subrange(i, i + 3)[0] == name[i]);
    }
    let with = name + seq!['\r'];
    assert(with.subrange(0, with.len() - 1) =~= name);
}

} // verus!

//! The endpoint override of TraeWork: a file that points it to the local proxy.
use crate::clock;
use crate::json;
use crate::json::{Json, JsonV};
use crate::number;
use crate::paths;
use crate::proxy;
use crate::proxy::{Note, NoteV};
use crate::realtime;
use crate::table;
use crate::text;
use vstd::prelude::*;
use vstd::string::*;
use vstd::utf8::*;

verus! {

/// The file that TraeWork merges into its product configuration.
pub const OVERRIDE_FILE: &'static str = "product.desktop.local.json";

/// The member by which an override is known as one of the assistant.
pub const MARKER_KEY: &'static str = "__traeWorkAssistant";

/// The file of the lease, in the data directory.
pub const LEASE_FILE: &'static str = "endpoint_lease.json";

/// How long a lease counts as fresh, in milliseconds.
pub const LEASE_TTL_MS: u64 = 90_000;

/// The address of the local proxy.
pub open spec fn local_base(port: u16) -> Seq<char> {
    "http://127.0.0.1:"@ + number::decimal(port as nat)
}

/// The address of the local proxy.
pub fn base_url(port: u16) -> (r: String)
    ensures
        r@ == local_base(port),
{
    let n = number::to_decimal(port as u64);
    text::plus("http://127.0.0.1:".to_owned(), n.as_str())
}

// ---------------------------------------------------------------------------
// Where TraeWork is
// ---------------------------------------------------------------------------

/// The names that TraeWork may be installed under.
pub open spec fn names() -> Seq<Seq<char>> {
    seq!["TRAE SOLO CN"@, "TRAE"@, "Trae TRAE"@, "TRAE CN"@, "Trae CN"@]
}

/// The names that TraeWork may be installed under.
pub fn app_names() -> (r: Vec<String>)
    ensures
        text::texts(r@) == names(),
{
    let mut v: Vec<String> = Vec::new();
    v.push("TRAE SOLO CN".to_owned());
    v.push("TRAE".to_owned());
    v.push("Trae TRAE".to_owned());
    v.push("TRAE CN".to_owned());
    v.push("Trae CN".to_owned());
    assert(text::texts(v@) =~= names());
    v
}

/// The application directory under an installation directory on Windows.
pub open spec fn windows_dir(base: Seq<char>, name: Seq<char>) -> Seq<char> {
    paths::joined(paths::joined(paths::joined(base, name, true), "resources"@, true), "app"@, true)
}

/// The application directory of a bundle on macOS.
pub open spec fn bundle_dir(base: Seq<char>, name: Seq<char>) -> Seq<char> {
    let contents = paths::joined(paths::joined(base, name + ".app"@, false), "Contents"@, false);
    paths::joined(paths::joined(contents, "Resources"@, false), "app"@, false)
}

/// The places below one user directory on Windows, for each name in turn.
pub open spec fn user_places(base: Seq<char>, n: nat) -> Seq<Seq<char>>
    decreases n,
{
    if n == 0 {
        Seq::empty()
    } else {
        let name = names()[n - 1];
        user_places(base, (n - 1) as nat) + seq![
            windows_dir(paths::joined(base, "Programs"@, true), name),
            windows_dir(base, name),
        ]
    }
}

/// The places below several user directories on Windows.
pub open spec fn all_user_places(bases: Seq<Seq<char>>) -> Seq<Seq<char>>
    decreases bases.len(),
{
    if bases.len() == 0 {
        Seq::empty()
    } else {
        all_user_places(bases.drop_last()) + user_places(bases.last(), names().len())
    }
}

/// The places below several program directories on Windows.
pub open spec fn machine_places(bases: Seq<Seq<char>>) -> Seq<Seq<char>>
    decreases bases.len(),
{
    if bases.len() == 0 {
        Seq::empty()
    } else {
        machine_places(bases.drop_last()) + names().map_values(
            |n: Seq<char>| windows_dir(bases.last(), n),
        )
    }
}

/// The places of bundles on macOS: for all users, then for the user with this home directory.
pub open spec fn bundle_places(home: Option<Seq<char>>) -> Seq<Seq<char>> {
    names().map_values(|n: Seq<char>| bundle_dir("/Applications"@, n)) + (match home {
        Some(h) => names().map_values(
            |n: Seq<char>| bundle_dir(paths::joined(h, "Applications"@, false), n),
        ),
        None => Seq::empty(),
    })
}

fn windows_app_dir(base: &str, name: &str) -> (r: String)
    ensures
        r@ == windows_dir(base@, name@),
{
    let a = paths::join(base, name, true);
    let b = paths::join(a.as_str(), "resources", true);
    paths::join(b.as_str(), "app", true)
}

fn bundle_app_dir(base: &str, name: &str) -> (r: String)
    ensures
        r@ == bundle_dir(base@, name@),
{
    let bundle = text::plus(name.to_owned(), ".app");
    let a = paths::join(base, bundle.as_str(), false);
    let b = paths::join(a.as_str(), "Contents", false);
    let c = paths::join(b.as_str(), "Resources", false);
    paths::join(c.as_str(), "app", false)
}

/// The places where TraeWork may be on Windows, in the order in which they are tried: below the
/// directories of the user, then below those of the machine.
pub fn windows_candidates(user: &[String], machine: &[String]) -> (r: Vec<String>)
    ensures
        text::texts(r@) == all_user_places(text::texts(user@)) + machine_places(
            text::texts(machine@),
        ),
{
    let apps = app_names();
    let mut out: Vec<String> = Vec::new();
    let ghost users = text::texts(user@);
    let ghost machines = text::texts(machine@);
    let mut i: usize = 0;
    while i < user.len()
        invariant
            i <= user@.len(),
            text::texts(apps@) == names(),
            users == text::texts(user@),
            text::texts(out@) == all_user_places(users.take(i as int)),
        decreases user@.len() - i,
    {
        let ghost before = text::texts(out@);
        let ghost base = users[i as int];
        let mut k: usize = 0;
        assert(before + user_places(base, 0) == before);
        while k < apps.len()
            invariant
                k <= apps@.len(),
                i < user@.len(),
                text::texts(apps@) == names(),
                base == user@[i as int]@,
                text::texts(out@) == before + user_places(base, k as nat),
            decreases apps@.len() - k,
        {
            let programs = paths::join(user[i].as_str(), "Programs", true);
            let a = windows_app_dir(programs.as_str(), apps[k].as_str());
            let b = windows_app_dir(user[i].as_str(), apps[k].as_str());
            assert(names()[k as int] == apps@[k as int]@);
            let ghost prev = out@;
            let ghost pair = seq![a@, b@];
            out.push(a);
            out.push(b);
            assert(text::texts(out@) == text::texts(prev) + pair);
            assert(text::texts(out@) == before + user_places(base, (k + 1) as nat));
            k = k + 1;
        }
        assert(users.take(i + 1).drop_last() == users.take(i as int));
        assert(names().len() == apps@.len());
        i = i + 1;
    }
    assert(users.take(i as int) == users);
    let ghost first = text::texts(out@);
    let mut j: usize = 0;
    assert(first + machine_places(machines.take(0)) == first);
    while j < machine.len()
        invariant
            j <= machine@.len(),
            text::texts(apps@) == names(),
            machines == text::texts(machine@),
            text::texts(out@) == first + machine_places(machines.take(j as int)),
        decreases machine@.len() - j,
    {
        let ghost before = text::texts(out@);
        let ghost base = machines[j as int];
        let ghost row = names().map_values(|n: Seq<char>| windows_dir(base, n));
        let mut k: usize = 0;
        assert(before + row.take(0) == before);
        while k < apps.len()
            invariant
                k <= apps@.len(),
                j < machine@.len(),
                text::texts(apps@) == names(),
                base == machine@[j as int]@,
                row == names().map_values(|n: Seq<char>| windows_dir(base, n)),
                text::texts(out@) == before + row.take(k as int),
            decreases apps@.len() - k,
        {
            assert(names()[k as int] == apps@[k as int]@);
            let ghost prev = out@;
            out.push(windows_app_dir(machine[j].as_str(), apps[k].as_str()));
            assert(text::texts(out@) == text::texts(prev).push(row[k as int]));
            assert(before + row.take(k + 1) == (before + row.take(k as int)).push(row[k as int]));
            k = k + 1;
        }
        proof {
            let t = machines.take(j + 1);
            assert(names().len() == apps@.len());
            assert(row.take(k as int) == row);
            assert(t.drop_last() == machines.take(j as int));
            assert(t.last() == base);
            assert(machine_places(t) == machine_places(machines.take(j as int)) + row);
            assert(first + machine_places(t) == before + row);
        }
        j = j + 1;
    }
    assert(machines.take(j as int) == machines);
    out
}

/// The places where TraeWork may be on macOS, in the order in which they are tried.
pub fn macos_candidates(home: Option<&str>) -> (r: Vec<String>)
    ensures
        text::texts(r@) == bundle_places(realtime::opt_slice(home)),
{
    let mut out = bundles_in("/Applications");
    if let Some(h) = home {
        let base = paths::join(h, "Applications", false);
        let mut more = bundles_in(base.as_str());
        let ghost a = out@;
        let ghost b = more@;
        out.append(&mut more);
        assert(text::texts(out@) == text::texts(a) + text::texts(b));
    } else {
        assert(text::texts(out@) + Seq::<Seq<char>>::empty() == text::texts(out@));
    }
    out
}

fn bundles_in(base: &str) -> (r: Vec<String>)
    ensures
        text::texts(r@) == names().map_values(|n: Seq<char>| bundle_dir(base@, n)),
{
    let apps = app_names();
    let mut out: Vec<String> = Vec::new();
    let ghost row = names().map_values(|n: Seq<char>| bundle_dir(base@, n));
    let mut k: usize = 0;
    while k < apps.len()
        invariant
            k <= apps@.len(),
            text::texts(apps@) == names(),
            row == names().map_values(|n: Seq<char>| bundle_dir(base@, n)),
            text::texts(out@) == row.take(k as int),
        decreases apps@.len() - k,
    {
        assert(names()[k as int] == apps@[k as int]@);
        let ghost prev = out@;
        out.push(bundle_app_dir(base, apps[k].as_str()));
        assert(text::texts(out@) == text::texts(prev).push(row[k as int]));
        assert(row.take(k + 1) == row.take(k as int).push(row[k as int]));
        k = k + 1;
    }
    assert(names().len() == apps@.len());
    assert(row.take(k as int) == row);
    out
}

/// The programs with which TraeWork may be started on Windows, in the order in which they are tried.
pub open spec fn programs(local: Seq<char>) -> Seq<Seq<char>> {
    names().map_values(
        |n: Seq<char>|
            paths::joined(
                paths::joined(paths::joined(local, "Programs"@, true), n, true),
                n + ".exe"@,
                true,
            ),
    )
}

/// The programs with which TraeWork may be started on Windows.
pub fn relaunch_candidates(local: &str) -> (r: Vec<String>)
    ensures
        text::texts(r@) == programs(local@),
{
    let apps = app_names();
    let base = paths::join(local, "Programs", true);
    let mut out: Vec<String> = Vec::new();
    let ghost all = programs(local@);
    let mut k: usize = 0;
    while k < apps.len()
        invariant
            k <= apps@.len(),
            text::texts(apps@) == names(),
            base@ == paths::joined(local@, "Programs"@, true),
            all == programs(local@),
            text::texts(out@) == all.take(k as int),
        decreases apps@.len() - k,
    {
        assert(names()[k as int] == apps@[k as int]@);
        let ghost prev = out@;
        let dir = paths::join(base.as_str(), apps[k].as_str(), true);
        let file = text::plus(apps[k].clone(), ".exe");
        out.push(paths::join(dir.as_str(), file.as_str(), true));
        assert(text::texts(out@) == text::texts(prev).push(all[k as int]));
        assert(all.take(k + 1) == all.take(k as int).push(all[k as int]));
        k = k + 1;
    }
    assert(names().len() == apps@.len());
    assert(all.take(k as int) == all);
    out
}

/// The first place that holds a product configuration.
pub fn app_dir(places: &[String], has_product: &[bool]) -> (r: Option<String>)
    requires
        places@.len() == has_product@.len(),
    ensures
        match r {
            Some(p) => exists|i: int|
                0 <= i < places@.len() && has_product@[i] && (#[trigger] places@[i])@ == p@
                    && forall|j: int| 0 <= j < i ==> !(#[trigger] has_product@[j]),
            None => forall|j: int| 0 <= j < places@.len() ==> !(#[trigger] has_product@[j]),
        },
{
    let mut i: usize = 0;
    while i < places.len()
        invariant
            i <= places@.len(),
            places@.len() == has_product@.len(),
            forall|j: int| 0 <= j < i ==> !(#[trigger] has_product@[j]),
        decreases places@.len() - i,
    {
        if has_product[i] {
            let p = places[i].clone();
            assert(places@[i as int]@ == p@);
            return Some(p);
        }
        i = i + 1;
    }
    None
}

/// The file of the override in an application directory; `windows` tells what the machine runs.
pub fn override_path(app_dir: Option<&str>, windows: bool) -> (r: Option<String>)
    ensures
        match app_dir {
            Some(d) => text::opt_text(r) == Some(paths::joined(d@, OVERRIDE_FILE@, windows)),
            None => r is None,
        },
{
    match app_dir {
        Some(d) => Some(paths::join(d, OVERRIDE_FILE, windows)),
        None => None,
    }
}

// ---------------------------------------------------------------------------
// The original upstreams
// ---------------------------------------------------------------------------

/// The first string in a value, depth first, that begins with the prefix.
pub open spec fn prefixed(v: JsonV, prefix: Seq<char>) -> Option<Seq<char>>
    decreases v, 0nat,
{
    match v {
        JsonV::Str(s) => if text::starts_with(s, prefix) {
            Some(s)
        } else {
            None
        },
        JsonV::Arr(a) => prefixed_item(a, prefix, 0),
        JsonV::Obj(m) => prefixed_member(m, prefix, 0),
        _ => None,
    }
}

/// The first such string in the elements from `i` on.
pub open spec fn prefixed_item(a: Seq<JsonV>, prefix: Seq<char>, i: nat) -> Option<Seq<char>>
    decreases a, a.len() - i,
{
    if i >= a.len() {
        None
    } else {
        match prefixed(a[i as int], prefix) {
            Some(s) => Some(s),
            None => prefixed_item(a, prefix, i + 1),
        }
    }
}

/// The first such string in the members from `i` on.
pub open spec fn prefixed_member(
    m: Seq<(Seq<char>, JsonV)>,
    prefix: Seq<char>,
    i: nat,
) -> Option<Seq<char>>
    decreases m, m.len() - i,
{
    if i >= m.len() {
        None
    } else {
        match prefixed(m[i as int].1, prefix) {
            Some(s) => Some(s),
            None => prefixed_member(m, prefix, i + 1),
        }
    }
}

/// The first string in a value that begins with the prefix.
pub fn first_prefixed(v: &Json, prefix: &str) -> (r: Option<String>)
    ensures
        text::opt_text(r) == prefixed(v@, prefix@),
    decreases *v,
{
    proof {
        json::lemma_views(*v);
    }
    match v {
        Json::Str(s) => if text::text_starts_with(s.as_str(), prefix) {
            Some(s.clone())
        } else {
            None
        },
        Json::Arr(a) => {
            let ghost all = json::items_view(a@);
            let mut i: usize = 0;
            while i < a.len()
                invariant
                    i <= a@.len(),
                    *v matches Json::Arr(b) && b == *a,
                    all == json::items_view(a@),
                    v@ == JsonV::Arr(all),
                    prefixed(v@, prefix@) == prefixed_item(all, prefix@, i as nat),
                decreases a@.len() - i,
            {
                let found = first_prefixed(&a[i], prefix);
                assert(all[i as int] == a@[i as int]@);
                if found.is_some() {
                    return found;
                }
                i = i + 1;
            }
            None
        },
        Json::Obj(m) => {
            let ghost all = json::members_view(m@);
            let mut i: usize = 0;
            while i < m.len()
                invariant
                    i <= m@.len(),
                    *v matches Json::Obj(b) && b == *m,
                    all == json::members_view(m@),
                    v@ == JsonV::Obj(all),
                    prefixed(v@, prefix@) == prefixed_member(all, prefix@, i as nat),
                decreases m@.len() - i,
            {
                let found = first_prefixed(&m[i].1, prefix);
                assert(all[i as int].1 == m@[i as int].1@);
                if found.is_some() {
                    return found;
                }
                i = i + 1;
            }
            None
        },
        _ => None,
    }
}

/// The first string below a member of a member that begins with the prefix.
pub open spec fn prefixed_at(v: Option<JsonV>, prefix: Seq<char>) -> Option<Seq<char>> {
    match v {
        Some(x) => prefixed(x, prefix),
        None => None,
    }
}

/// The domain of the own region: the names of the region are tried first, since others may come
/// before them in the order of names.
pub open spec fn domain(v: JsonV, prefix: Seq<char>) -> Option<Seq<char>> {
    let trae = json::member(v, "trae"@);
    match prefixed_at(json::member_of(trae, "normal"@), prefix) {
        Some(s) => Some(s),
        None => match prefixed_at(json::member_of(trae, "cn"@), prefix) {
            Some(s) => Some(s),
            None => match prefixed_at(trae, prefix) {
                Some(s) => Some(s),
                None => match prefixed_at(json::member(v, "normal"@), prefix) {
                    Some(s) => Some(s),
                    None => match prefixed_at(json::member(v, "cn"@), prefix) {
                        Some(s) => Some(s),
                        None => prefixed(v, prefix),
                    },
                },
            },
        },
    }
}

fn prefixed_below(v: Option<&Json>, prefix: &str) -> (r: Option<String>)
    ensures
        text::opt_text(r) == prefixed_at(json::opt_json(v), prefix@),
{
    match v {
        Some(x) => first_prefixed(x, prefix),
        None => None,
    }
}

fn member_below<'a>(v: Option<&'a Json>, key: &str) -> (r: Option<&'a Json>)
    ensures
        json::opt_json(r) == json::member_of(json::opt_json(v), key@),
{
    match v {
        Some(x) => x.get(key),
        None => None,
    }
}

/// The domain of the own region.
pub fn pick_domain(v: &Json, prefix: &str) -> (r: Option<String>)
    ensures
        text::opt_text(r) == domain(v@, prefix@),
{
    let trae = v.get("trae");
    let a = prefixed_below(member_below(trae, "normal"), prefix);
    if a.is_some() {
        return a;
    }
    let b = prefixed_below(member_below(trae, "cn"), prefix);
    if b.is_some() {
        return b;
    }
    let c = prefixed_below(trae, prefix);
    if c.is_some() {
        return c;
    }
    let d = prefixed_below(v.get("normal"), prefix);
    if d.is_some() {
        return d;
    }
    let e = prefixed_below(v.get("cn"), prefix);
    if e.is_some() {
        return e;
    }
    first_prefixed(v, prefix)
}

/// The upstream of one service in a product configuration.
pub open spec fn service_upstream(product: JsonV, service: Seq<char>, prefix: Seq<char>) -> Option<
    Seq<char>,
> {
    match json::member_of(json::member(product, "bootConfig"@), service) {
        Some(s) => domain(s, prefix),
        None => None,
    }
}

/// The upstreams that a product configuration names.
pub fn upstreams_of(product: &Json) -> (r: (Option<String>, Option<String>))
    ensures
        text::opt_text(r.0) == service_upstream(product@, "remote"@, "http"@),
        text::opt_text(r.1) == service_upstream(product@, "ws"@, "ws"@),
{
    let boot = product.get("bootConfig");
    let http = match member_below(boot, "remote") {
        Some(s) => pick_domain(s, "http"),
        None => None,
    };
    let ws = match member_below(boot, "ws") {
        Some(s) => pick_domain(s, "ws"),
        None => None,
    };
    (http, ws)
}

/// The upstreams that the text of a product configuration names; none where it cannot be read.
pub fn read_upstreams(product: Option<&str>) -> (r: (Option<String>, Option<String>))
    ensures
        match product {
            Some(t) => match json::parsed_json(t@) {
                Some(v) => text::opt_text(r.0) == service_upstream(v, "remote"@, "http"@)
                    && text::opt_text(r.1) == service_upstream(v, "ws"@, "ws"@),
                None => r.0 is None && r.1 is None,
            },
            None => r.0 is None && r.1 is None,
        },
{
    match product {
        Some(t) => match Json::parse(t) {
            Some(v) => upstreams_of(&v),
            None => (None, None),
        },
        None => (None, None),
    }
}

// ---------------------------------------------------------------------------
// The override
// ---------------------------------------------------------------------------

/// A service with one domain, named twice.
pub open spec fn service_view(base: Seq<char>) -> JsonV {
    JsonV::Obj(
        seq![
            ("domain"@, JsonV::Str(base)),
            ("trae"@, JsonV::Obj(seq![("normal"@, JsonV::Str(base))])),
        ],
    )
}

/// The services that an override points elsewhere.
pub open spec fn boot_members(http: Seq<char>, ws: Option<Seq<char>>) -> Seq<(Seq<char>, JsonV)> {
    let five = seq![
        ("agent"@, service_view(http)),
        ("ckg"@, service_view(http)),
        ("cue"@, service_view(http)),
        ("hub"@, service_view(http)),
        ("remote"@, service_view(http)),
    ];
    match ws {
        Some(w) => if w.len() > 0 {
            five.push(("ws"@, service_view(w)))
        } else {
            five
        },
        None => five,
    }
}

/// The mark of the assistant.
pub open spec fn mark_view(http: Seq<char>, ws: Option<Seq<char>>, at: Seq<char>) -> JsonV {
    JsonV::Obj(
        seq![
            ("http_base"@, JsonV::Str(http)),
            ("installed_at"@, JsonV::Str(at)),
            (
                "ws_base"@,
                JsonV::Str(
                    match ws {
                        Some(w) => w,
                        None => ""@,
                    },
                ),
            ),
        ],
    )
}

/// The override that points to `http`, and to `ws` where that is not empty.
pub open spec fn override_view(http: Seq<char>, ws: Option<Seq<char>>, at: Seq<char>) -> JsonV {
    JsonV::Obj(
        seq![
            (MARKER_KEY@, mark_view(http, ws, at)),
            ("bootConfig"@, JsonV::Obj(boot_members(http, ws))),
        ],
    )
}

fn text_member(key: &str, value: &str) -> (r: (String, Json))
    ensures
        r.0@ == key@,
        r.1@ == JsonV::Str(value@),
{
    (key.to_owned(), Json::Str(value.to_owned()))
}

fn service(base: &str) -> (r: Json)
    ensures
        r@ == service_view(base@),
{
    let mut inner: Vec<(String, Json)> = Vec::new();
    inner.push(text_member("normal", base));
    assert(json::members_view(inner@) =~= seq![("normal"@, JsonV::Str(base@))]);
    let t = Json::Obj(inner);
    let mut outer: Vec<(String, Json)> = Vec::new();
    proof {
        json::lemma_views(t);
    }
    outer.push(text_member("domain", base));
    outer.push(("trae".to_owned(), t));
    assert(json::members_view(outer@) =~= service_view(base@)->Obj_0);
    let r = Json::Obj(outer);
    proof {
        json::lemma_views(r);
    }
    r
}

/// Builds the override that was installed at the given time.
pub fn override_doc(http_base: &str, ws_base: Option<&str>, at: &str) -> (r: Json)
    ensures
        r@ == override_view(http_base@, realtime::opt_slice(ws_base), at@),
{
    let mut boot: Vec<(String, Json)> = Vec::new();
    boot.push(("agent".to_owned(), service(http_base)));
    boot.push(("ckg".to_owned(), service(http_base)));
    boot.push(("cue".to_owned(), service(http_base)));
    boot.push(("hub".to_owned(), service(http_base)));
    boot.push(("remote".to_owned(), service(http_base)));
    if let Some(ws) = ws_base {
        if !ws.is_empty() {
            boot.push(("ws".to_owned(), service(ws)));
        }
    }
    assert(json::members_view(boot@) =~= boot_members(http_base@, realtime::opt_slice(ws_base)));
    let services = Json::Obj(boot);
    let mut mark: Vec<(String, Json)> = Vec::new();
    mark.push(text_member("http_base", http_base));
    mark.push(text_member("installed_at", at));
    mark.push(
        text_member(
            "ws_base",
            match ws_base {
                Some(ws) => ws,
                None => "",
            },
        ),
    );
    assert(json::members_view(mark@) =~= mark_view(
        http_base@,
        realtime::opt_slice(ws_base),
        at@,
    )->Obj_0);
    let marked = Json::Obj(mark);
    proof {
        json::lemma_views(services);
        json::lemma_views(marked);
    }
    let mut top: Vec<(String, Json)> = Vec::new();
    top.push((MARKER_KEY.to_owned(), marked));
    top.push(("bootConfig".to_owned(), services));
    assert(json::members_view(top@) =~= override_view(
        http_base@,
        realtime::opt_slice(ws_base),
        at@,
    )->Obj_0);
    let r = Json::Obj(top);
    proof {
        json::lemma_views(r);
    }
    r
}

/// Builds the override that is installed now. Its time is a time that the clock has told.
pub fn build_override_doc(http_base: &str, ws_base: Option<&str>) -> (r: Json)
    ensures
        exists|at: Seq<char>|
            clock::is_timestamp(at) && r@ == #[trigger] override_view(
                http_base@,
                realtime::opt_slice(ws_base),
                at,
            ),
{
    let at = clock::local_now(clock::TIMESTAMP_FORMAT);
    let r = override_doc(http_base, ws_base, at.as_str());
    assert(r@ == override_view(http_base@, realtime::opt_slice(ws_base), at@));
    r
}

/// A document is one of the assistant.
pub open spec fn ours(doc: JsonV) -> bool {
    json::member(doc, MARKER_KEY@) is Some
}

/// Whether a document is one of the assistant.
pub fn doc_is_ours(doc: &Json) -> (r: bool)
    ensures
        r == ours(doc@),
{
    doc.get(MARKER_KEY).is_some()
}

/// The text of a file is that of a document of the assistant.
pub open spec fn file_ours(content: Option<Seq<char>>) -> bool {
    match content {
        Some(t) => json::parsed_json(t) matches Some(v) && ours(v),
        None => false,
    }
}

/// Whether a file with this content is one of the assistant; none where it cannot be read.
pub fn is_ours(content: Option<&str>) -> (r: bool)
    ensures
        r == file_ours(realtime::opt_slice(content)),
{
    match content {
        Some(t) => match Json::parse(t) {
            Some(v) => doc_is_ours(&v),
            None => false,
        },
        None => false,
    }
}

/// The names in an override stand in ascending order, no number is in it, and it is not deep.
proof fn lemma_override_is_plain(http: Seq<char>, ws: Option<Seq<char>>, at: Seq<char>)
    ensures
        json::orderly(override_view(http, ws, at)),
        json::whole(override_view(http, ws, at)),
        json::nested(override_view(http, ws, at), 127),
{
    reveal_strlit("__traeWorkAssistant");
    reveal_strlit("bootConfig");
    reveal_strlit("http_base");
    reveal_strlit("installed_at");
    reveal_strlit("ws_base");
    reveal_strlit("agent");
    reveal_strlit("ckg");
    reveal_strlit("cue");
    reveal_strlit("hub");
    reveal_strlit("remote");
    reveal_strlit("ws");
    reveal_strlit("domain");
    reveal_strlit("trae");
    reveal_strlit("normal");
    reveal_with_fuel(text::text_less, 3);
    reveal_with_fuel(json::orderly, 2);
    reveal_with_fuel(json::whole, 2);
    reveal_with_fuel(json::nested, 2);
    lemma_service_is_plain(http);
    let m = boot_members(http, ws);
    if let Some(w) = ws {
        lemma_service_is_plain(w);
    }
    let ck = "ckg"@.subrange(1, 3);
    let cu = "cue"@.subrange(1, 3);
    assert(ck[0] == 'k' && cu[0] == 'u');
    assert(text::text_less("ckg"@, "cue"@));
    assert(json::ascending(m));
    let boot = JsonV::Obj(m);
    assert(json::orderly(boot));
    assert(json::whole(boot));
    assert(json::nested(boot, 126));
    let mark = mark_view(http, ws, at);
    assert(json::orderly(mark));
    assert(json::whole(mark));
    assert(json::nested(mark, 126));
    let top = override_view(http, ws, at);
    assert(json::ascending(top->Obj_0));
}

proof fn lemma_service_is_plain(base: Seq<char>)
    ensures
        json::orderly(service_view(base)),
        json::whole(service_view(base)),
        json::nested(service_view(base), 125),
{
    reveal_strlit("domain");
    reveal_strlit("trae");
    let inner = JsonV::Obj(seq![("normal"@, JsonV::Str(base))]);
    reveal_with_fuel(json::orderly, 2);
    reveal_with_fuel(json::whole, 2);
    reveal_with_fuel(json::nested, 2);
    assert(json::orderly(inner));
    assert(json::whole(inner));
    assert(json::nested(inner, 124));
}

/// Every override of the assistant is known as one.
pub proof fn law_override_is_ours(http: Seq<char>, ws: Option<Seq<char>>, at: Seq<char>)
    ensures
        ours(override_view(http, ws, at)),
{
}

/// Without a WebSocket address the override leaves the real-time channel alone.
pub proof fn law_override_leaves_ws_alone(http: Seq<char>, at: Seq<char>)
    ensures
        json::member_of(json::member(override_view(http, None, at), "bootConfig"@), "ws"@) is None,
        service_upstream(override_view(http, None, at), "ws"@, "ws"@) is None,
{
    reveal_strlit("__traeWorkAssistant");
    reveal_strlit("bootConfig");
    reveal_strlit("agent");
    reveal_strlit("ckg");
    reveal_strlit("cue");
    reveal_strlit("hub");
    reveal_strlit("remote");
    reveal_strlit("ws");
    reveal_with_fuel(json::lookup, 7);
    let m = boot_members(http, None);
    assert(MARKER_KEY@.len() != "bootConfig"@.len());
    assert(m[0].0.len() == 5);
    assert(m[1].0.len() == 3);
    assert(m[2].0.len() == 3);
    assert(m[3].0.len() == 3);
    assert(m[4].0.len() == 6);
    assert(json::lookup(m, "ws"@) is None);
}

/// A service that an override points to the proxy.
pub open spec fn is_pointed(service: Seq<char>) -> bool {
    ||| service == "remote"@
    ||| service == "agent"@
    ||| service == "ckg"@
    ||| service == "cue"@
    ||| service == "hub"@
}

proof fn lemma_pointed_service(http: Seq<char>, ws: Option<Seq<char>>, at: Seq<char>, service: Seq<char>)
    requires
        is_pointed(service),
    ensures
        json::member_of(json::member(override_view(http, ws, at), "bootConfig"@), service) == Some(
            service_view(http),
        ),
{
    reveal_strlit("__traeWorkAssistant");
    reveal_strlit("bootConfig");
    reveal_strlit("agent");
    reveal_strlit("ckg");
    reveal_strlit("cue");
    reveal_strlit("hub");
    reveal_strlit("remote");
    reveal_with_fuel(json::lookup, 7);
    let m = boot_members(http, ws);
    assert(MARKER_KEY@.len() != "bootConfig"@.len());
    assert(m[0].0.len() == 5);
    assert(m[1].0[1] == 'k');
    assert(m[2].0[0] == 'c' && m[2].0[1] == 'u');
    assert(m[3].0[0] == 'h');
    assert(m[4].0.len() == 6);
    assert(json::lookup(m, service) == Some(service_view(http)));
}

/// With the override every service but the real-time channel has the address of the proxy, both as
/// its domain and as that of its region; and TraeWork reads it as the service's upstream.
pub proof fn law_override_points_to_proxy(
    http: Seq<char>,
    ws: Option<Seq<char>>,
    at: Seq<char>,
    service: Seq<char>,
)
    requires
        is_pointed(service),
    ensures
        ({
            let entry = json::member_of(
                json::member(override_view(http, ws, at), "bootConfig"@),
                service,
            );
            &&& json::text_of(json::member_of(entry, "domain"@)) == Some(http)
            &&& json::text_of(json::member_of(json::member_of(entry, "trae"@), "normal"@)) == Some(
                http,
            )
        }),
        text::starts_with(http, "http"@) ==> service_upstream(
            override_view(http, ws, at),
            service,
            "http"@,
        ) == Some(http),
{
    lemma_pointed_service(http, ws, at, service);
    reveal_strlit("domain");
    reveal_strlit("trae");
    reveal_strlit("normal");
    reveal_with_fuel(json::lookup, 3);
    let entry = service_view(http)->Obj_0;
    let region = seq![("normal"@, JsonV::Str(http))];
    assert(entry[0].0.len() == 6);
    assert(json::lookup(entry, "domain"@) == Some(JsonV::Str(http)));
    assert(json::lookup(entry, "trae"@) == Some(JsonV::Obj(region)));
    assert(json::lookup(region, "normal"@) == Some(JsonV::Str(http)));
    if text::starts_with(http, "http"@) {
        assert(prefixed(JsonV::Str(http), "http"@) == Some(http));
    }
}

// ---------------------------------------------------------------------------
// The lease
// ---------------------------------------------------------------------------

/// The file of the lease in a data directory; `windows` tells what the machine runs.
pub fn lease_path(dir: &str, windows: bool) -> (r: String)
    ensures
        r@ == paths::joined(dir@, LEASE_FILE@, windows),
{
    paths::join(dir, LEASE_FILE, windows)
}

/// The document of a lease.
pub open spec fn lease_view(now: u64) -> JsonV {
    JsonV::Obj(seq![("at"@, JsonV::Int(now as int))])
}

/// The content of a lease that is renewed at `now`, in milliseconds since 1970. Reading it back
/// gives the same document.
pub fn lease_text(now: u64) -> (r: String)
    ensures
        r@ == json::compact_json(lease_view(now)),
        json::parsed_json(r@) == Some(lease_view(now)),
{
    let mut m: Vec<(String, Json)> = Vec::new();
    m.push(("at".to_owned(), Json::Big(now)));
    assert(json::members_view(m@) =~= lease_view(now)->Obj_0);
    let doc = Json::Obj(m);
    proof {
        json::lemma_views(doc);
        reveal_with_fuel(json::orderly, 2);
        reveal_with_fuel(json::whole, 2);
        reveal_with_fuel(json::nested, 2);
        assert(json::orderly(doc@));
        assert(json::whole(doc@));
        assert(json::nested(doc@, 127));
    }
    doc.to_compact()
}

/// The time of a lease; zero where it names none.
pub open spec fn lease_time(v: JsonV) -> int {
    match json::unsigned_of(json::member(v, "at"@)) {
        Some(n) => n,
        None => 0,
    }
}

/// A lease with this content is fresh at `now`.
pub open spec fn lease_is_fresh(content: Option<Seq<char>>, now: u64) -> bool {
    match content {
        Some(t) => match json::parsed_json(t) {
            Some(v) => now - lease_time(v) < LEASE_TTL_MS,
            None => false,
        },
        None => false,
    }
}

/// Whether a lease is fresh; its content is none where it cannot be read.
pub fn lease_fresh(content: Option<&str>, now: u64) -> (r: bool)
    ensures
        r == lease_is_fresh(realtime::opt_slice(content), now),
{
    let t = match content {
        Some(t) => t,
        None => {
            return false;
        },
    };
    let v = match Json::parse(t) {
        Some(v) => v,
        None => {
            return false;
        },
    };
    let at: u64 = match v.get("at") {
        Some(n) => match n.as_unsigned() {
            Some(n) => n,
            None => 0,
        },
        None => 0,
    };
    table::is_fresh(at, now, LEASE_TTL_MS)
}

/// A lease that was renewed is fresh until its time is over.
pub proof fn law_renewed_lease_is_fresh(renewed: u64, now: u64, content: Seq<char>)
    requires
        json::parsed_json(content) == Some(lease_view(renewed)),
    ensures
        lease_is_fresh(Some(content), now) == (now - renewed < LEASE_TTL_MS),
{
}

// ---------------------------------------------------------------------------
// Status, installing and uninstalling
// ---------------------------------------------------------------------------

/// The state of the override.
pub struct EndpointStatus {
    pub supported: bool,
    pub app_dir: Option<String>,
    pub installed: bool,
    pub ours: bool,
    pub writable: bool,
    pub http_base: String,
    pub upstream_http: Option<String>,
    pub upstream_ws: Option<String>,
    pub lease_fresh: bool,
    pub message: String,
}

/// What was found of the override.
pub struct EndpointProbe {
    pub app_dir: Option<String>,
    /// Whether the override is there; never without an application directory.
    pub installed: bool,
    /// The content of the override.
    pub content: Option<String>,
    pub writable: bool,
    /// The content of the product configuration.
    pub product: Option<String>,
    /// The content of the lease.
    pub lease: Option<String>,
}

/// The words on the state of the override.
pub open spec fn endpoint_words(app: bool, installed: bool, ours: bool) -> Seq<char> {
    if !app {
        "未找到 TraeWork 安装目录，本机不支持「拦截模式」。"@
    } else if installed && !ours {
        "检测到 product.desktop.local.json，但并非本助手写入——助手不会清理它，请自行确认内容。"@
    } else if installed {
        "拦截已安装：TraeWork 下次启动将把模型/会话请求发往本机网关。"@
    } else {
        "未安装拦截。"@
    }
}

/// The slice of an optional text.
pub fn opt_str(s: &Option<String>) -> (r: Option<&str>)
    ensures
        realtime::opt_slice(r) == text::opt_text(*s),
{
    match s {
        Some(t) => Some(t.as_str()),
        None => None,
    }
}

/// The state of the override, by what was found.
pub fn status(p: &EndpointProbe, http_base: &str, now: u64) -> (r: EndpointStatus)
    ensures
        ({
            let app = p.app_dir is Some;
            let mine = app && file_ours(text::opt_text(p.content));
            &&& r.supported == app
            &&& r.app_dir == p.app_dir
            &&& r.installed == (app && p.installed)
            &&& r.ours == mine
            &&& r.writable == (app && p.writable)
            &&& r.http_base@ == http_base@
            &&& match text::opt_text(p.product) {
                Some(t) => match json::parsed_json(t) {
                    Some(v) => app ==> text::opt_text(r.upstream_http) == service_upstream(
                        v,
                        "remote"@,
                        "http"@,
                    ) && text::opt_text(r.upstream_ws) == service_upstream(v, "ws"@, "ws"@),
                    None => r.upstream_http is None && r.upstream_ws is None,
                },
                None => r.upstream_http is None && r.upstream_ws is None,
            }
            &&& !app ==> r.upstream_http is None && r.upstream_ws is None
            &&& r.lease_fresh == lease_is_fresh(text::opt_text(p.lease), now)
            &&& r.message@ == endpoint_words(app, app && p.installed, mine)
        }),
{
    let app = p.app_dir.is_some();
    let mine = app && is_ours(opt_str(&p.content));
    let installed = app && p.installed;
    let (http, ws) = if app {
        read_upstreams(opt_str(&p.product))
    } else {
        (None, None)
    };
    let message = if !app {
        "未找到 TraeWork 安装目录，本机不支持「拦截模式」。"
    } else if installed && !mine {
        "检测到 product.desktop.local.json，但并非本助手写入——助手不会清理它，请自行确认内容。"
    } else if installed {
        "拦截已安装：TraeWork 下次启动将把模型/会话请求发往本机网关。"
    } else {
        "未安装拦截。"
    };
    EndpointStatus {
        supported: app,
        app_dir: text::clone_opt(&p.app_dir),
        installed,
        ours: mine,
        writable: app && p.writable,
        http_base: http_base.to_owned(),
        upstream_http: http,
        upstream_ws: ws,
        lease_fresh: lease_fresh(opt_str(&p.lease), now),
        message: message.to_owned(),
    }
}

/// What to write to install the override, and the note on it.
pub struct InstallPlan {
    pub path: String,
    pub content: String,
    pub note: Note,
}

/// Why the override is not installed; none where it is. A file of someone else is left alone.
pub open spec fn install_refusal(
    app_dir: Option<Seq<char>>,
    exists: bool,
    content: Option<Seq<char>>,
    windows: bool,
) -> Option<Seq<char>> {
    match app_dir {
        None => Some("未找到 TraeWork 安装目录"@),
        Some(d) => if exists && !file_ours(content) {
            Some(
                paths::joined(d, OVERRIDE_FILE@, windows)
                    + " 已存在且不是本助手写入的，为避免破坏你的自定义配置，已中止。请先手动处理该文件。"@,
            )
        } else {
            None
        },
    }
}

/// Decides what installing the override comes to. What is written is known as a file of the
/// assistant when it is read back. `windows` tells what the machine runs.
pub fn install(
    app_dir: Option<&str>,
    exists: bool,
    content: Option<&str>,
    http_base: &str,
    ws_base: Option<&str>,
    windows: bool,
) -> (r: Result<InstallPlan, String>)
    ensures
        match r {
            Ok(p) => {
                &&& install_refusal(
                    realtime::opt_slice(app_dir),
                    exists,
                    realtime::opt_slice(content),
                    windows,
                ) is None
                &&& app_dir is Some
                &&& p.path@ == paths::joined(app_dir->0@, OVERRIDE_FILE@, windows)
                &&& exists|at: Seq<char>|
                    clock::is_timestamp(at) && json::parsed_json(p.content@) == Some(
                        #[trigger] override_view(http_base@, realtime::opt_slice(ws_base), at),
                    ) && p.content@ == json::pretty_json(
                        override_view(http_base@, realtime::opt_slice(ws_base), at),
                    )
                &&& file_ours(Some(p.content@))
                &&& p.note@ == (NoteV {
                    event: "install"@,
                    detail: "已写入 TraeWork 端点覆盖，模型/会话请求改道 "@ + http_base@,
                    dedup: false,
                })
            },
            Err(e) => install_refusal(
                realtime::opt_slice(app_dir),
                exists,
                realtime::opt_slice(content),
                windows,
            ) == Some(e@),
        },
{
    let path = match override_path(app_dir, windows) {
        Some(p) => p,
        None => {
            return Err("未找到 TraeWork 安装目录".to_owned());
        },
    };
    if exists && !is_ours(content) {
        return Err(
            text::plus(
                path,
                " 已存在且不是本助手写入的，为避免破坏你的自定义配置，已中止。请先手动处理该文件。",
            ),
        );
    }
    let doc = build_override_doc(http_base, ws_base);
    let ghost at = choose|at: Seq<char>|
        clock::is_timestamp(at) && doc@ == #[trigger] override_view(
            http_base@,
            realtime::opt_slice(ws_base),
            at,
        );
    proof {
        lemma_override_is_plain(http_base@, realtime::opt_slice(ws_base), at);
        law_override_is_ours(http_base@, realtime::opt_slice(ws_base), at);
    }
    let content = doc.to_pretty();
    assert(json::parsed_json(content@) == Some(
        override_view(http_base@, realtime::opt_slice(ws_base), at),
    ));
    let detail = text::plus("已写入 TraeWork 端点覆盖，模型/会话请求改道 ".to_owned(), http_base);
    Ok(InstallPlan { path, content, note: proxy::note("install", detail, false) })
}

/// A document names the base for a service, as its domain and as that of its region.
pub open spec fn points_to(doc: JsonV, service: Seq<char>, base: Seq<char>) -> bool {
    let entry = json::member_of(json::member(doc, "bootConfig"@), service);
    &&& json::text_of(json::member_of(entry, "domain"@)) == Some(base)
    &&& json::text_of(json::member_of(json::member_of(entry, "trae"@), "normal"@)) == Some(base)
}

/// A file with this content is an override of the assistant that points all services to the base.
pub open spec fn in_place(content: Option<Seq<char>>, base: Seq<char>) -> bool {
    match content {
        Some(t) => json::parsed_json(t) matches Some(v) && ours(v) && points_to(v, "remote"@, base)
            && points_to(v, "agent"@, base) && points_to(v, "ckg"@, base) && points_to(
            v,
            "cue"@,
            base,
        ) && points_to(v, "hub"@, base),
        None => false,
    }
}

fn names_text(v: Option<&Json>, t: &str) -> (r: bool)
    ensures
        r == (json::text_of(json::opt_json(v)) == Some(t@)),
{
    match v {
        Some(j) => match j.as_text() {
            Some(s) => text::same_text(s.as_str(), t),
            None => false,
        },
        None => false,
    }
}

fn service_points(doc: &Json, service: &str, base: &str) -> (r: bool)
    ensures
        r == points_to(doc@, service@, base@),
{
    let entry = member_below(doc.get("bootConfig"), service);
    names_text(member_below(entry, "domain"), base) && names_text(
        member_below(member_below(entry, "trae"), "normal"),
        base,
    )
}

/// Tells whether the override has to be written again: a file with this content does not point all
/// services to the base, or is not one of the assistant.
pub fn needs_repair(content: Option<&str>, http_base: &str) -> (r: bool)
    ensures
        r == !in_place(realtime::opt_slice(content), http_base@),
{
    match content {
        Some(t) => match Json::parse(t) {
            Some(v) => !(doc_is_ours(&v) && service_points(&v, "remote", http_base)
                && service_points(&v, "agent", http_base) && service_points(&v, "ckg", http_base)
                && service_points(&v, "cue", http_base) && service_points(&v, "hub", http_base)),
            None => true,
        },
        None => true,
    }
}

/// What was installed needs no repair until something else is written.
pub proof fn law_installed_is_in_place(
    content: Seq<char>,
    http: Seq<char>,
    ws: Option<Seq<char>>,
    at: Seq<char>,
)
    requires
        json::parsed_json(content) == Some(override_view(http, ws, at)),
    ensures
        in_place(Some(content), http),
{
    law_override_is_ours(http, ws, at);
    law_override_points_to_proxy(http, ws, at, "remote"@);
    law_override_points_to_proxy(http, ws, at, "agent"@);
    law_override_points_to_proxy(http, ws, at, "ckg"@);
    law_override_points_to_proxy(http, ws, at, "cue"@);
    law_override_points_to_proxy(http, ws, at, "hub"@);
}

/// Uninstalling removes the override: it is there, and is one of the assistant.
pub open spec fn removed(exists: bool, content: Option<Seq<char>>) -> bool {
    exists && file_ours(content)
}

/// Decides whether to remove the override: only one of the assistant is removed.
pub fn uninstall(path: &str, exists: bool, content: Option<&str>) -> (r: Result<bool, String>)
    ensures
        match r {
            Ok(remove) => remove == removed(exists, realtime::opt_slice(content)) && remove
                == exists,
            Err(e) => exists && !file_ours(realtime::opt_slice(content)) && e@ == path@
                + " 不是本助手写入的，不予删除。"@,
        },
{
    if !exists {
        return Ok(false);
    }
    if !is_ours(content) {
        return Err(text::plus(path.to_owned(), " 不是本助手写入的，不予删除。"));
    }
    Ok(true)
}

/// The override is removed at start-up: it would be on uninstalling, and nothing serves it.
pub open spec fn swept(exists: bool, content: Option<Seq<char>>, keep: bool) -> bool {
    removed(exists, content) && !keep
}

/// Decides at start-up whether to remove the override: one of the assistant goes, unless the proxy
/// is there to serve it.
pub fn sweep(exists: bool, content: Option<&str>, keep: bool) -> (r: bool)
    ensures
        r == swept(exists, realtime::opt_slice(content), keep),
{
    exists && is_ours(content) && !keep
}

/// A file of someone else stays: it is neither written over nor removed.
pub proof fn law_foreign_file_is_left_alone(
    app_dir: Option<Seq<char>>,
    content: Option<Seq<char>>,
    keep: bool,
    windows: bool,
)
    requires
        !file_ours(content),
    ensures
        install_refusal(app_dir, true, content, windows) is Some,
        !removed(true, content),
        !swept(true, content, keep),
{
}

/// What was installed can be written again and removed, and does not outlive the proxy.
pub proof fn law_installed_can_be_removed(
    app_dir: Seq<char>,
    content: Seq<char>,
    http: Seq<char>,
    ws: Option<Seq<char>>,
    at: Seq<char>,
    windows: bool,
)
    requires
        json::parsed_json(content) == Some(override_view(http, ws, at)),
    ensures
        install_refusal(Some(app_dir), true, Some(content), windows) is None,
        removed(true, Some(content)),
        swept(true, Some(content), false),
        !swept(true, Some(content), true),
{
    law_override_is_ours(http, ws, at);
}

/// The note that the override was removed.
pub fn uninstall_note() -> (r: Note)
    ensures
        r@ == (NoteV {
            event: "uninstall"@,
            detail: "已删除 TraeWork 端点覆盖，恢复官方直连"@,
            dedup: false,
        }),
{
    proxy::note("uninstall", "已删除 TraeWork 端点覆盖，恢复官方直连".to_owned(), false)
}

/// The note that the override was removed at start-up.
pub fn sweep_note() -> (r: Note)
    ensures
        r@ == (NoteV {
            event: "sweep"@,
            detail: "启动时发现端点覆盖残留且本地反代不可用，已自动恢复 TraeWork 官方直连"@,
            dedup: false,
        }),
{
    proxy::note(
        "sweep",
        "启动时发现端点覆盖残留且本地反代不可用，已自动恢复 TraeWork 官方直连".to_owned(),
        false,
    )
}

// ---------------------------------------------------------------------------
// The process
// ---------------------------------------------------------------------------

/// The image names of TraeWork on Windows.
pub open spec fn image_names() -> Seq<Seq<char>> {
    seq!["TRAE SOLO CN.exe"@, "TRAE CN.exe"@, "Trae CN.exe"@, "TRAE.exe"@, "Trae.exe"@]
}

/// The image names of TraeWork on Windows.
pub fn trae_process_names() -> (r: Vec<String>)
    ensures
        text::texts(r@) == image_names(),
{
    let mut v: Vec<String> = Vec::new();
    v.push("TRAE SOLO CN.exe".to_owned());
    v.push("TRAE CN.exe".to_owned());
    v.push("Trae CN.exe".to_owned());
    v.push("TRAE.exe".to_owned());
    v.push("Trae.exe".to_owned());
    assert(text::texts(v@) =~= image_names());
    v
}

/// One of the names stands in a list of processes, both in lower case.
pub open spec fn lists_one(listing: Seq<char>, names: Seq<Seq<char>>) -> bool {
    exists|i: int|
        0 <= i < names.len() && text::contains(listing, text::lowercase(#[trigger] names[i]))
}

/// Whether one of the image names stands in a list of processes that is in lower case.
pub fn lists_trae(listing: &str) -> (r: bool)
    ensures
        r == lists_one(listing@, image_names()),
{
    let names = trae_process_names();
    let mut i: usize = 0;
    while i < names.len()
        invariant
            i <= names@.len(),
            text::texts(names@) == image_names(),
            forall|k: int|
                0 <= k < i ==> !text::contains(
                    listing@,
                    text::lowercase(#[trigger] image_names()[k]),
                ),
        decreases names@.len() - i,
    {
        let low = text::lowercase_text(names[i].as_str());
        assert(image_names()[i as int] == names@[i as int]@);
        if text::text_contains(listing, low.as_str()) {
            return true;
        }
        i = i + 1;
    }
    assert(image_names().len() == names@.len());
    false
}

/// Whether TraeWork stands in the output of the list of processes on Windows.
pub fn is_trae_listed(output: &[u8]) -> (r: bool)
    ensures
        r == lists_one(text::lowercase(text::lossy_text(output@)), image_names()),
        valid_utf8(output@) ==> text::lossy_text(output@) == decode_utf8(output@),
{
    let listing = text::utf8_text_lossy(output);
    let low = text::lowercase_text(listing.as_str());
    lists_trae(low.as_str())
}

/// The pattern of the processes of TraeWork on macOS.
pub open spec fn bundle_pattern() -> Seq<char> {
    realtime::joined_by(names().map_values(|n: Seq<char>| n + ".app"@), "|"@)
}

/// The pattern of the processes of TraeWork on macOS.
pub fn process_pattern() -> (r: String)
    ensures
        r@ == bundle_pattern(),
{
    let apps = app_names();
    let mut v: Vec<String> = Vec::new();
    let ghost row = names().map_values(|n: Seq<char>| n + ".app"@);
    let mut i: usize = 0;
    while i < apps.len()
        invariant
            i <= apps@.len(),
            text::texts(apps@) == names(),
            row == names().map_values(|n: Seq<char>| n + ".app"@),
            text::texts(v@) == row.take(i as int),
        decreases apps@.len() - i,
    {
        assert(names()[i as int] == apps@[i as int]@);
        let ghost prev = v@;
        v.push(text::plus(apps[i].clone(), ".app"));
        assert(text::texts(v@) == text::texts(prev).push(row[i as int]));
        assert(row.take(i + 1) == row.take(i as int).push(row[i as int]));
        i = i + 1;
    }
    assert(names().len() == apps@.len());
    assert(row.take(i as int) == row);
    realtime::join_texts(v.as_slice(), "|")
}

/// The words for an application that does not quit.
pub open spec fn will_not_quit_words() -> Seq<char> {
    "已发起退出请求，但 TraeWork 未在限时内退出，请手动关闭后重试。"@
}

/// Decides whether a change that needs a restart may be made: TraeWork does not run, or it has
/// quit. Tells whether it has to be started again.
pub fn with_trae_restart(was_running: bool, has_quit: bool) -> (r: Result<bool, String>)
    ensures
        match r {
            Ok(again) => again == was_running && (was_running ==> has_quit),
            Err(e) => was_running && !has_quit && e@ == will_not_quit_words(),
        },
{
    if was_running && !has_quit {
        return Err("已发起退出请求，但 TraeWork 未在限时内退出，请手动关闭后重试。".to_owned());
    }
    Ok(was_running)
}

/// What one look at the process tells while waiting for it to quit.
#[derive(Clone, Copy, PartialEq, Eq, Structural)]
pub enum Waiting {
    /// It has quit.
    Gone,
    /// It runs, and there is time to wait.
    Wait,
    /// It runs, and the time is over.
    Late,
}

/// Decides whether to go on waiting for the process to quit.
pub fn exit_step(running: bool, now: u64, deadline: u64) -> (r: Waiting)
    ensures
        r == (if !running {
            Waiting::Gone
        } else if now < deadline {
            Waiting::Wait
        } else {
            Waiting::Late
        }),
{
    if !running {
        Waiting::Gone
    } else if now < deadline {
        Waiting::Wait
    } else {
        Waiting::Late
    }
}

} // verus!

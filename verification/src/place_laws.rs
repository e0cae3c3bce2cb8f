//! What paths mean, where TraeWork is looked for, and what its endpoint override says.
use crate::checkin_laws::{has, lacks, lemma_member};
use crate::endpoint;
use crate::json;
use crate::json::JsonV;
use crate::number;
use crate::paths;
use crate::proxy_laws;
use crate::realtime;
use crate::realtime_laws;
use crate::text;
use vstd::prelude::*;
use vstd::string::*;

verus! {

// ---------------------------------------------------------------------------
// Paths
// ---------------------------------------------------------------------------

/// A name that is one part of a path: it is not empty, holds no separator and no colon, and is not
/// made of full stops.
pub open spec fn plain_name(name: Seq<char>) -> bool {
    &&& name.len() > 0
    &&& forall|k: int|
        0 <= k < name.len() ==> #[trigger] name[k] != '/' && name[k] != '\\' && name[k] != ':'
    &&& name != "."@
    &&& name != ".."@
}

/// A directory that a separator has to follow: it ends with none, and is not a drive alone.
pub open spec fn plain_dir(base: Seq<char>) -> bool {
    base.len() > 2 && base.last() != '/' && base.last() != '\\'
}

proof fn lemma_no_prefix(name: Seq<char>)
    requires
        name.len() > 0,
        name[0] != '/' && name[0] != '\\',
        name.len() > 1 ==> name[1] != ':',
    ensures
        paths::prefix_len(name) == 0,
{
}

/// On Unix a path under a directory follows it behind one slash; an absolute path stands alone.
pub proof fn law_path_under_a_directory(base: Seq<char>, rel: Seq<char>)
    requires
        base.len() > 0,
    ensures
        rel.len() > 0 && rel[0] == '/' ==> paths::joined(base, rel, false) == rel,
        (rel.len() == 0 || rel[0] != '/') && base.last() != '/' ==> paths::joined(base, rel, false)
            == base + "/"@ + rel,
        (rel.len() == 0 || rel[0] != '/') && base.last() == '/' ==> paths::joined(base, rel, false)
            == base + rel,
        paths::joined(Seq::empty(), rel, false) == rel,
{
    assert(Seq::<char>::empty() + rel =~= rel);
}

/// On Windows a name under a directory follows it behind one backslash, unless the directory ends
/// with a separator or is a drive alone.
pub proof fn law_name_under_a_windows_directory(base: Seq<char>, name: Seq<char>, drive: char)
    requires
        plain_name(name),
        ('a' <= drive && drive <= 'z') || ('A' <= drive && drive <= 'Z'),
    ensures
        plain_dir(base) ==> paths::joined(base, name, true) == base + "\\"@ + name,
        base.len() > 0 && (base.last() == '/' || base.last() == '\\') ==> paths::joined(
            base,
            name,
            true,
        ) == base + name,
        paths::joined(seq![drive, ':'], name, true) == seq![drive, ':'] + name,
        paths::joined(Seq::empty(), name, true) == name,
{
    lemma_no_prefix(name);
}

/// On Windows a path that begins with a separator stays on the drive of the directory, and one with
/// a drive stands alone.
pub proof fn law_drives_of_windows(drive: char, rest: Seq<char>, other: char, rel: Seq<char>)
    requires
        ('a' <= drive && drive <= 'z') || ('A' <= drive && drive <= 'Z'),
        ('a' <= other && other <= 'z') || ('A' <= other && other <= 'Z'),
    ensures
        (rel.len() < 2 || (rel[1] != '/' && rel[1] != '\\')) && rel.len() > 0 && (rel[0] == '\\'
            || rel[0] == '/') ==> paths::joined(seq![drive, ':'] + rest, rel, true) == seq![
            drive,
            ':',
        ] + rel,
        paths::joined(seq![drive, ':'] + rest, seq![other, ':'] + rel, true) == seq![other, ':']
            + rel,
{
    let base = seq![drive, ':'] + rest;
    assert(base[0] == drive && base[1] == ':');
    assert(base.subrange(0, 2) =~= seq![drive, ':']);
    let alone = seq![other, ':'] + rel;
    assert(alone[0] == other && alone[1] == ':');
}

proof fn lemma_part_end(p: Seq<char>, i: int, n: int)
    requires
        0 <= i <= n <= p.len(),
        forall|k: int| i <= k < n ==> #[trigger] p[k] != '/' && p[k] != '\\',
        n < p.len() ==> p[n] == '/' || p[n] == '\\',
    ensures
        paths::part_end(p, i) == n,
    decreases n - i,
{
    if i < n {
        lemma_part_end(p, i + 1, n);
    }
}

/// On Windows a path that begins with a separator stays on the share of the directory.
pub proof fn law_shares_of_windows(
    server: Seq<char>,
    share: Seq<char>,
    rest: Seq<char>,
    rel: Seq<char>,
)
    requires
        plain_name(server),
        plain_name(share),
        rest.len() > 0 ==> rest[0] == '\\',
        rel.len() > 0,
        rel[0] == '\\',
        rel.len() > 1 ==> rel[1] != '/' && rel[1] != '\\',
    ensures
        paths::joined(seq!['\\', '\\'] + server + seq!['\\'] + share + rest, rel, true) == seq![
            '\\',
            '\\',
        ] + server + seq!['\\'] + share + rel,
{
    let head = seq!['\\', '\\'] + server + seq!['\\'] + share;
    let base = head + rest;
    let n = 2 + server.len() as int;
    let m = n + 1 + share.len();
    assert(base[0] == '\\' && base[1] == '\\');
    assert forall|k: int| 2 <= k < n implies #[trigger] base[k] != '/' && base[k] != '\\' by {
        assert(base[k] == server[k - 2]);
    }
    assert(base[n] == '\\');
    lemma_part_end(base, 2, n);
    assert forall|k: int| n + 1 <= k < m implies #[trigger] base[k] != '/' && base[k] != '\\' by {
        assert(base[k] == share[k - n - 1]);
    }
    if m < base.len() {
        assert(base[m] == rest[0]);
    }
    lemma_part_end(base, n + 1, m);
    assert(paths::prefix_len(base) == m);
    assert(base.subrange(0, m) =~= head);
    assert(paths::prefix_len(rel) == 0);
}

proof fn lemma_part_start(p: Seq<char>, windows: bool, n: int, i: int)
    requires
        0 <= i <= n <= p.len(),
        forall|k: int| i <= k < n ==> !paths::separates(#[trigger] p[k], windows),
        i > 0 ==> paths::separates(p[i - 1], windows),
    ensures
        paths::part_start(p, windows, n) == i,
    decreases n - i,
{
    if i < n {
        lemma_part_start(p, windows, n - 1, i);
    }
}

/// The name of a file in a directory is the last part of its path, also where a separator follows.
pub proof fn law_last_part_is_the_name(base: Seq<char>, name: Seq<char>)
    requires
        plain_name(name),
        base.len() > 0 ==> base.last() == '/',
    ensures
        paths::last_part(base + name, false) == Some(name),
        paths::last_part(base + name + seq!['/'], false) == Some(name),
{
    let p = base + name;
    let q = p + seq!['/'];
    reveal_strlit(".");
    reveal_strlit("..");
    let n = base.len() as int;
    assert(p.last() == name.last());
    assert(name[name.len() - 1] != '/');
    assert(name.len() == 1 ==> name[0] != '.') by {
        if name.len() == 1 && name[0] == '.' {
            assert(name =~= "."@);
        }
    }
    if name.len() > 1 {
        assert(p[p.len() - 2] == name[name.len() - 2]);
    }
    assert(paths::stripped(p, false) == p);
    assert(q.subrange(0, q.len() - 1) =~= p);
    assert(paths::stripped(q, false) == p);
    assert forall|k: int| n <= k < p.len() implies !paths::separates(#[trigger] p[k], false) by {
        assert(p[k] == name[k - n]);
    }
    if n > 0 {
        assert(p[n - 1] == base.last());
    }
    lemma_part_start(p, false, p.len() as int, n);
    assert(p.subrange(n, p.len() as int) =~= name);
}

/// On Windows the last part of a path on a drive is the name behind the last backslash.
pub proof fn law_last_part_on_windows(drive: char, dirs: Seq<char>, name: Seq<char>)
    requires
        plain_name(name),
        ('a' <= drive && drive <= 'z') || ('A' <= drive && drive <= 'Z'),
        dirs.len() > 0 ==> dirs.last() == '\\',
    ensures
        paths::last_part(seq![drive, ':'] + dirs + name, true) == Some(name),
{
    let whole = seq![drive, ':'] + dirs + name;
    let p = dirs + name;
    reveal_strlit(".");
    reveal_strlit("..");
    assert(whole[0] == drive && whole[1] == ':');
    assert(whole.subrange(2, whole.len() as int) =~= p);
    let n = dirs.len() as int;
    assert(p.last() == name.last());
    assert(name[name.len() - 1] != '/');
    assert(name.len() == 1 ==> name[0] != '.') by {
        if name.len() == 1 && name[0] == '.' {
            assert(name =~= "."@);
        }
    }
    if name.len() > 1 {
        assert(p[p.len() - 2] == name[name.len() - 2]);
    }
    assert(paths::stripped(p, true) == p);
    assert forall|k: int| n <= k < p.len() implies !paths::separates(#[trigger] p[k], true) by {
        assert(p[k] == name[k - n]);
    }
    if n > 0 {
        assert(p[n - 1] == dirs.last());
    }
    lemma_part_start(p, true, p.len() as int, n);
    assert(p.subrange(n, p.len() as int) =~= name);
}

// ---------------------------------------------------------------------------
// Where TraeWork is
// ---------------------------------------------------------------------------

/// The address of the proxy is on this machine and carries its port, without TLS.
pub proof fn law_address_of_the_proxy(port: u16)
    ensures
        "http://"@.is_prefix_of(endpoint::local_base(port)),
        realtime::host_port(endpoint::local_base(port).skip(7), false) == Some(
            ("127.0.0.1"@, port as nat),
        ),
{
    reveal_strlit("http://127.0.0.1:");
    reveal_strlit("http://");
    reveal_strlit("127.0.0.1");
    let b = endpoint::local_base(port);
    realtime_laws::law_port_behind_the_last_colon("127.0.0.1"@, port as nat, false);
    assert(b.skip(7) =~= "127.0.0.1"@ + seq![':'] + number::decimal(port as nat));
    assert(b.take(7) =~= "http://"@);
}

/// TraeWork is known under these names, in this order, and as these images.
pub proof fn law_names_of_traework()
    ensures
        endpoint::names() == seq![
            "TRAE SOLO CN"@,
            "TRAE"@,
            "Trae TRAE"@,
            "TRAE CN"@,
            "Trae CN"@,
        ],
        endpoint::image_names() == seq![
            "TRAE SOLO CN.exe"@,
            "TRAE CN.exe"@,
            "Trae CN.exe"@,
            "TRAE.exe"@,
            "Trae.exe"@,
        ],
{
}

/// The application is in `resources\app` of an installation, and in `Contents/Resources/app` of a
/// bundle.
pub proof fn law_directory_of_the_application(base: Seq<char>, name: Seq<char>)
    requires
        plain_dir(base),
        plain_name(name),
        name.len() > 2,
    ensures
        endpoint::windows_dir(base, name) == base + "\\"@ + name + "\\resources\\app"@,
        endpoint::bundle_dir(base, name) == base + "/"@ + name + ".app/Contents/Resources/app"@,
{
    reveal_strlit("\\");
    reveal_strlit("/");
    reveal_strlit("resources");
    reveal_strlit("app");
    reveal_strlit(".app");
    reveal_strlit("Contents");
    reveal_strlit("Resources");
    reveal_strlit("\\resources\\app");
    reveal_strlit(".app/Contents/Resources/app");
    lemma_no_prefix(name);
    lemma_no_prefix("resources"@);
    lemma_no_prefix("app"@);
    let a = base + "\\"@ + name;
    assert(a.last() == name[name.len() - 1]);
    assert(paths::joined(base, name, true) == a);
    let b = a + "\\"@ + "resources"@;
    assert(b.last() == 's');
    assert(paths::joined(a, "resources"@, true) == b);
    assert(b + "\\"@ + "app"@ =~= base + "\\"@ + name + "\\resources\\app"@);
    let f = name + ".app"@;
    assert(f[0] == name[0]);
    let c = base + "/"@ + f;
    assert(c.last() == 'p');
    let d = c + "/"@ + "Contents"@;
    assert(d.last() == 's');
    let e = d + "/"@ + "Resources"@;
    assert(e.last() == 's');
    assert(e + "/"@ + "app"@ =~= base + "/"@ + name + ".app/Contents/Resources/app"@);
}

/// Below a directory of the user each name is looked for twice, under its programs and in the
/// directory itself, one name after the other; below a directory of the machine once.
pub proof fn law_order_of_places(base: Seq<char>, n: nat, i: int)
    requires
        0 <= i < n <= 5,
    ensures
        endpoint::user_places(base, n).len() == 2 * n,
        endpoint::user_places(base, n)[2 * i] == endpoint::windows_dir(
            paths::joined(base, "Programs"@, true),
            endpoint::names()[i],
        ),
        endpoint::user_places(base, n)[2 * i + 1] == endpoint::windows_dir(
            base,
            endpoint::names()[i],
        ),
    decreases n,
{
    if n > 1 {
        law_order_of_places(
            base,
            (n - 1) as nat,
            if i < n - 1 {
                i
            } else {
                0
            },
        );
    } else {
        assert(endpoint::user_places(base, 0).len() == 0);
    }
}

/// The directories are gone through in their order: all places of one come before those of the next.
pub proof fn law_places_of_all_directories(bases: Seq<Seq<char>>, i: int, j: int)
    requires
        0 <= i < bases.len(),
    ensures
        0 <= j < 10 ==> endpoint::all_user_places(bases)[10 * i + j] == endpoint::user_places(
            bases[i],
            5,
        )[j],
        0 <= j < 5 ==> endpoint::machine_places(bases)[5 * i + j] == endpoint::windows_dir(
            bases[i],
            endpoint::names()[j],
        ),
        endpoint::all_user_places(bases).len() == 10 * bases.len(),
        endpoint::machine_places(bases).len() == 5 * bases.len(),
    decreases bases.len(),
{
    let rest = bases.drop_last();
    law_order_of_places(bases.last(), 5, 0);
    if rest.len() > 0 {
        law_places_of_all_directories(
            rest,
            if i < rest.len() {
                i
            } else {
                0
            },
            j,
        );
    } else {
        assert(endpoint::all_user_places(rest).len() == 0);
        assert(endpoint::machine_places(rest).len() == 0);
    }
}

/// On macOS the bundles of all users come before those of the one user.
pub proof fn law_places_of_bundles(home: Seq<char>, j: int)
    requires
        0 <= j < 5,
    ensures
        endpoint::bundle_places(None).len() == 5,
        endpoint::bundle_places(Some(home)).len() == 10,
        endpoint::bundle_places(None)[j] == endpoint::bundle_dir(
            "/Applications"@,
            endpoint::names()[j],
        ),
        endpoint::bundle_places(Some(home))[j] == endpoint::bundle_dir(
            "/Applications"@,
            endpoint::names()[j],
        ),
        endpoint::bundle_places(Some(home))[5 + j] == endpoint::bundle_dir(
            paths::joined(home, "Applications"@, false),
            endpoint::names()[j],
        ),
{
}

/// A program is the one with the name of its directory under the user's programs.
pub proof fn law_programs_to_start(local: Seq<char>, j: int)
    requires
        0 <= j < 5,
        plain_dir(local),
        plain_name(endpoint::names()[j]),
        endpoint::names()[j].len() > 1,
    ensures
        endpoint::programs(local).len() == 5,
        endpoint::programs(local)[j] == local + "\\Programs\\"@ + endpoint::names()[j] + "\\"@
            + endpoint::names()[j] + ".exe"@,
{
    let n = endpoint::names()[j];
    reveal_strlit("\\");
    reveal_strlit("Programs");
    reveal_strlit("\\Programs\\");
    reveal_strlit(".exe");
    lemma_no_prefix("Programs"@);
    lemma_no_prefix(n);
    let a = local + "\\"@ + "Programs"@;
    assert(a.last() == 's');
    assert(paths::joined(local, "Programs"@, true) == a);
    let b = a + "\\"@ + n;
    assert(b.last() == n[n.len() - 1]);
    assert(paths::joined(a, n, true) == b);
    let f = n + ".exe"@;
    assert(f[0] == n[0] && f[1] == n[1]);
    lemma_no_prefix(f);
    assert(b + "\\"@ + f =~= local + "\\Programs\\"@ + n + "\\"@ + n + ".exe"@);
}

/// The pattern of the processes on macOS are the bundle names with bars in between.
pub proof fn law_pattern_of_processes()
    ensures
        endpoint::bundle_pattern() == text::glued(
            seq![
                "TRAE SOLO CN"@ + ".app"@,
                "TRAE"@ + ".app"@,
                "Trae TRAE"@ + ".app"@,
                "TRAE CN"@ + ".app"@,
                "Trae CN"@ + ".app"@,
            ],
            "|"@,
        ),
{
    let v = seq![
        "TRAE SOLO CN"@ + ".app"@,
        "TRAE"@ + ".app"@,
        "Trae TRAE"@ + ".app"@,
        "TRAE CN"@ + ".app"@,
        "Trae CN"@ + ".app"@,
    ];
    assert(endpoint::names().map_values(|n: Seq<char>| n + ".app"@) =~= v);
    realtime_laws::law_joined_texts(v, "|"@);
}

// ---------------------------------------------------------------------------
// The original upstreams
// ---------------------------------------------------------------------------

/// A string is found where it begins with the prefix; of several values the first that holds such a
/// string gives it.
pub proof fn law_first_string_with_the_prefix(
    s: Seq<char>,
    a: Seq<JsonV>,
    m: Seq<(Seq<char>, JsonV)>,
    prefix: Seq<char>,
    i: int,
)
    ensures
        endpoint::prefixed(JsonV::Str(s), prefix) == (if prefix.is_prefix_of(s) {
            Some(s)
        } else {
            None
        }),
        0 <= i < a.len() && endpoint::prefixed(a[i], prefix) is Some && (forall|k: int|
            0 <= k < i ==> endpoint::prefixed(#[trigger] a[k], prefix) is None)
            ==> endpoint::prefixed(JsonV::Arr(a), prefix) == endpoint::prefixed(a[i], prefix),
        0 <= i < m.len() && endpoint::prefixed(m[i].1, prefix) is Some && (forall|k: int|
            0 <= k < i ==> endpoint::prefixed((#[trigger] m[k]).1, prefix) is None)
            ==> endpoint::prefixed(JsonV::Obj(m), prefix) == endpoint::prefixed(m[i].1, prefix),
        (forall|k: int|
            0 <= k < a.len() ==> endpoint::prefixed(#[trigger] a[k], prefix) is None)
            ==> endpoint::prefixed(JsonV::Arr(a), prefix) is None,
        (forall|k: int|
            0 <= k < m.len() ==> endpoint::prefixed((#[trigger] m[k]).1, prefix) is None)
            ==> endpoint::prefixed(JsonV::Obj(m), prefix) is None,
{
    proxy_laws::lemma_starts(s, prefix);
    lemma_items(a, prefix, 0);
    lemma_members(m, prefix, 0);
}

proof fn lemma_items(a: Seq<JsonV>, prefix: Seq<char>, from: nat)
    requires
        from <= a.len(),
    ensures
        match endpoint::prefixed_item(a, prefix, from) {
            Some(s) => exists|k: int|
                from <= k < a.len() && endpoint::prefixed(#[trigger] a[k], prefix) == Some(s)
                    && forall|j: int|
                    from <= j < k ==> endpoint::prefixed(#[trigger] a[j], prefix) is None,
            None => forall|k: int|
                from <= k < a.len() ==> endpoint::prefixed(#[trigger] a[k], prefix) is None,
        },
    decreases a.len() - from,
{
    if from < a.len() {
        lemma_items(a, prefix, from + 1);
        if endpoint::prefixed(a[from as int], prefix) is Some {
            assert(endpoint::prefixed(a[from as int], prefix) == endpoint::prefixed_item(
                a,
                prefix,
                from,
            ));
        } else if let Some(s) = endpoint::prefixed_item(a, prefix, from + 1) {
            let k = choose|k: int|
                from + 1 <= k < a.len() && endpoint::prefixed(#[trigger] a[k], prefix) == Some(s)
                    && forall|j: int|
                    from + 1 <= j < k ==> endpoint::prefixed(#[trigger] a[j], prefix) is None;
            assert(endpoint::prefixed(a[k], prefix) == Some(s));
        }
    }
}

proof fn lemma_members(m: Seq<(Seq<char>, JsonV)>, prefix: Seq<char>, from: nat)
    requires
        from <= m.len(),
    ensures
        match endpoint::prefixed_member(m, prefix, from) {
            Some(s) => exists|k: int|
                from <= k < m.len() && endpoint::prefixed((#[trigger] m[k]).1, prefix) == Some(s)
                    && forall|j: int|
                    from <= j < k ==> endpoint::prefixed((#[trigger] m[j]).1, prefix) is None,
            None => forall|k: int|
                from <= k < m.len() ==> endpoint::prefixed((#[trigger] m[k]).1, prefix) is None,
        },
    decreases m.len() - from,
{
    if from < m.len() {
        lemma_members(m, prefix, from + 1);
        if endpoint::prefixed(m[from as int].1, prefix) is Some {
            assert(endpoint::prefixed(m[from as int].1, prefix) == endpoint::prefixed_member(
                m,
                prefix,
                from,
            ));
        } else if let Some(s) = endpoint::prefixed_member(m, prefix, from + 1) {
            let k = choose|k: int|
                from + 1 <= k < m.len() && endpoint::prefixed((#[trigger] m[k]).1, prefix) == Some(
                    s,
                ) && forall|j: int|
                    from + 1 <= j < k ==> endpoint::prefixed((#[trigger] m[j]).1, prefix) is None;
            assert(endpoint::prefixed(m[k].1, prefix) == Some(s));
        }
    }
}

/// The upstream of a service stands under its name in `bootConfig`: first under the region of the
/// product, by the names `normal` and `cn`, then anywhere under the product, then under these names
/// outside of it, and at last anywhere.
pub proof fn law_where_the_upstream_stands(
    product: JsonV,
    boot: JsonV,
    service: Seq<char>,
    v: JsonV,
    trae: JsonV,
    x: JsonV,
    prefix: Seq<char>,
)
    requires
        has(product, "bootConfig"@, boot),
        has(boot, service, v),
    ensures
        ({
            let r = endpoint::service_upstream(product, service, prefix);
            let p = |y: JsonV| endpoint::prefixed(y, prefix);
            &&& has(v, "trae"@, trae) && has(trae, "normal"@, x) && p(x) is Some ==> r == p(x)
            &&& has(v, "trae"@, trae) && lacks(trae, "normal"@) && has(trae, "cn"@, x) && p(x)
                is Some ==> r == p(x)
            &&& has(v, "trae"@, trae) && lacks(trae, "normal"@) && lacks(trae, "cn"@) && p(trae)
                is Some ==> r == p(trae)
            &&& lacks(v, "trae"@) && has(v, "normal"@, x) && p(x) is Some ==> r == p(x)
            &&& lacks(v, "trae"@) && lacks(v, "normal"@) && has(v, "cn"@, x) && p(x) is Some ==> r
                == p(x)
            &&& lacks(v, "trae"@) && lacks(v, "normal"@) && lacks(v, "cn"@) ==> r == p(v)
        }),
{
    lemma_member(product, "bootConfig"@);
    lemma_member(boot, service);
    lemma_member(v, "trae"@);
    lemma_member(trae, "normal"@);
    lemma_member(trae, "cn"@);
    lemma_member(v, "normal"@);
    lemma_member(v, "cn"@);
}

/// A configuration without `bootConfig`, or without the service in it, names no upstream.
pub proof fn law_unnamed_service_has_no_upstream(
    product: JsonV,
    boot: JsonV,
    service: Seq<char>,
    prefix: Seq<char>,
)
    ensures
        lacks(product, "bootConfig"@) ==> endpoint::service_upstream(
            product,
            service,
            prefix,
        ) is None,
        has(product, "bootConfig"@, boot) && lacks(boot, service) ==> endpoint::service_upstream(
            product,
            service,
            prefix,
        ) is None,
{
    lemma_member(product, "bootConfig"@);
    lemma_member(boot, service);
}

// ---------------------------------------------------------------------------
// The override
// ---------------------------------------------------------------------------

/// The mark of an override tells the addresses and the time, and a document is one of the assistant
/// exactly where it has the mark.
pub proof fn law_mark_of_the_assistant(
    http: Seq<char>,
    ws: Option<Seq<char>>,
    at: Seq<char>,
    doc: JsonV,
)
    ensures
        has(
            endpoint::override_view(http, ws, at),
            "__traeWorkAssistant"@,
            endpoint::mark_view(http, ws, at),
        ),
        has(endpoint::mark_view(http, ws, at), "http_base"@, JsonV::Str(http)),
        has(endpoint::mark_view(http, ws, at), "installed_at"@, JsonV::Str(at)),
        ws matches Some(w) ==> has(endpoint::mark_view(http, ws, at), "ws_base"@, JsonV::Str(w)),
        lacks(doc, "__traeWorkAssistant"@) ==> !endpoint::ours(doc),
        forall|x: JsonV| #[trigger]
            has(doc, "__traeWorkAssistant"@, x) ==> endpoint::ours(doc),
{
    reveal_strlit("http_base");
    reveal_strlit("installed_at");
    reveal_strlit("ws_base");
    assert("http_base"@.len() == 9);
    assert("installed_at"@.len() == 12);
    assert("ws_base"@.len() == 7);
    let m = endpoint::mark_view(http, ws, at)->Obj_0;
    assert(m[0] == ("http_base"@, JsonV::Str(http)));
    assert(m[1] == ("installed_at"@, JsonV::Str(at)));
    assert(m[2].0 == "ws_base"@);
    let top = endpoint::override_view(http, ws, at)->Obj_0;
    assert(top[0] == ("__traeWorkAssistant"@, endpoint::mark_view(http, ws, at)));
    lemma_member(doc, "__traeWorkAssistant"@);
}

/// With a WebSocket address the override points the real-time channel to it.
pub proof fn law_override_points_the_channel(http: Seq<char>, ws: Seq<char>, at: Seq<char>)
    requires
        ws.len() > 0,
    ensures
        endpoint::points_to(endpoint::override_view(http, Some(ws), at), "ws"@, ws),
{
    reveal_strlit("__traeWorkAssistant");
    reveal_strlit("bootConfig");
    reveal_strlit("agent");
    reveal_strlit("ckg");
    reveal_strlit("cue");
    reveal_strlit("hub");
    reveal_strlit("remote");
    reveal_strlit("ws");
    reveal_strlit("domain");
    reveal_strlit("trae");
    assert("__traeWorkAssistant"@.len() == 19);
    assert("bootConfig"@.len() == 10);
    assert("agent"@.len() == 5);
    assert("ckg"@.len() == 3);
    assert("cue"@.len() == 3);
    assert("hub"@.len() == 3);
    assert("remote"@.len() == 6);
    assert("ws"@.len() == 2);
    assert("domain"@.len() == 6);
    assert("trae"@.len() == 4);
    let doc = endpoint::override_view(http, Some(ws), at);
    let m = endpoint::boot_members(http, Some(ws));
    let boot = JsonV::Obj(m);
    let top = doc->Obj_0;
    assert(top[0].0 == "__traeWorkAssistant"@);
    assert(top[1] == ("bootConfig"@, boot));
    assert(has(doc, "bootConfig"@, boot));
    assert(m[0].0 == "agent"@ && m[1].0 == "ckg"@ && m[2].0 == "cue"@ && m[3].0 == "hub"@ && m[4].0
        == "remote"@);
    assert(m[5] == ("ws"@, endpoint::service_view(ws)));
    assert forall|j: int| 0 <= j < 5 implies (#[trigger] m[j]).0 != "ws"@ by {
        assert(j == 0 || j == 1 || j == 2 || j == 3 || j == 4);
    }
    assert(boot->Obj_0 == m);
    assert(boot->Obj_0[5].0 == "ws"@ && boot->Obj_0[5].1 == endpoint::service_view(ws));
    assert(has(boot, "ws"@, endpoint::service_view(ws)));
    let e = endpoint::service_view(ws);
    let region = JsonV::Obj(seq![("normal"@, JsonV::Str(ws))]);
    let em = e->Obj_0;
    assert(em[0] == ("domain"@, JsonV::Str(ws)));
    assert(em[1] == ("trae"@, region));
    assert(has(e, "domain"@, JsonV::Str(ws)));
    assert(has(e, "trae"@, region));
    assert(region->Obj_0[0] == ("normal"@, JsonV::Str(ws)));
    assert(has(region, "normal"@, JsonV::Str(ws)));
    lemma_member(doc, "bootConfig"@);
    lemma_member(boot, "ws"@);
    lemma_member(e, "domain"@);
    lemma_member(e, "trae"@);
    lemma_member(region, "normal"@);
}

/// A document names a base for a service exactly where both its domain and that of its region are
/// the base.
pub proof fn law_what_points_to_a_base(
    doc: JsonV,
    boot: JsonV,
    entry: JsonV,
    trae: JsonV,
    service: Seq<char>,
    base: Seq<char>,
    a: Seq<char>,
    b: Seq<char>,
)
    requires
        has(doc, "bootConfig"@, boot),
        has(boot, service, entry),
        has(entry, "domain"@, JsonV::Str(a)),
        has(entry, "trae"@, trae),
        has(trae, "normal"@, JsonV::Str(b)),
    ensures
        endpoint::points_to(doc, service, base) <==> a == base && b == base,
{
    lemma_member(doc, "bootConfig"@);
    lemma_member(boot, service);
    lemma_member(entry, "domain"@);
    lemma_member(entry, "trae"@);
    lemma_member(trae, "normal"@);
}

/// A file is in place exactly where it is one of the assistant and points all five services to the
/// base.
pub proof fn law_when_nothing_needs_repair(t: Seq<char>, v: JsonV, base: Seq<char>)
    requires
        json::parsed_json(t) == Some(v),
    ensures
        endpoint::in_place(Some(t), base) <==> endpoint::ours(v) && forall|s: Seq<char>|
            seq!["remote"@, "agent"@, "ckg"@, "cue"@, "hub"@].contains(s)
                ==> #[trigger] endpoint::points_to(v, s, base),
        !endpoint::in_place(None, base),
{
    let five = seq!["remote"@, "agent"@, "ckg"@, "cue"@, "hub"@];
    assert(five[0] == "remote"@ && five[1] == "agent"@ && five[2] == "ckg"@ && five[3] == "cue"@
        && five[4] == "hub"@);
    assert(five.contains("remote"@) && five.contains("agent"@) && five.contains("ckg"@)
        && five.contains("cue"@) && five.contains("hub"@));
}

/// A lease counts for a minute and a half after its time; without a time it counts from 1970.
pub proof fn law_how_long_a_lease_counts(t: Seq<char>, v: JsonV, at: int, now: u64)
    requires
        json::parsed_json(t) == Some(v),
        0 <= at <= u64::MAX,
    ensures
        has(v, "at"@, JsonV::Int(at)) ==> (endpoint::lease_is_fresh(Some(t), now) <==> now < at
            + 90_000),
        lacks(v, "at"@) ==> (endpoint::lease_is_fresh(Some(t), now) <==> now < 90_000),
        !endpoint::lease_is_fresh(None, now),
        has(endpoint::lease_view(now), "at"@, JsonV::Int(now as int)),
{
    lemma_member(v, "at"@);
    let m = endpoint::lease_view(now)->Obj_0;
    assert(m[0] == ("at"@, JsonV::Int(now as int)));
}

/// The override is installed exactly where there is a directory for it and no file of someone else;
/// it is removed exactly where it is there and one of the assistant, at start-up only where nothing
/// serves it.
pub proof fn law_when_the_override_changes(
    dir: Seq<char>,
    there: bool,
    content: Option<Seq<char>>,
    keep: bool,
    windows: bool,
)
    ensures
        endpoint::install_refusal(None, there, content, windows) == Some(
            "未找到 TraeWork 安装目录"@,
        ),
        endpoint::install_refusal(Some(dir), there, content, windows) is None <==> !there
            || endpoint::file_ours(content),
        endpoint::install_refusal(Some(dir), there, content, windows) matches Some(e)
            ==> paths::joined(dir, "product.desktop.local.json"@, windows).is_prefix_of(e),
        endpoint::removed(there, content) <==> there && endpoint::file_ours(content),
        endpoint::swept(there, content, keep) <==> there && endpoint::file_ours(content) && !keep,
        endpoint::file_ours(content) <==> content is Some && json::parsed_json(content->0) is Some
            && endpoint::ours(json::parsed_json(content->0)->0),
{
}

/// What is said of the state of the override.
pub proof fn law_words_on_the_override(app: bool, installed: bool, mine: bool)
    ensures
        endpoint::endpoint_words(false, installed, mine)
            == "未找到 TraeWork 安装目录，本机不支持「拦截模式」。"@,
        endpoint::endpoint_words(true, true, false)
            == "检测到 product.desktop.local.json，但并非本助手写入——助手不会清理它，请自行确认内容。"@,
        endpoint::endpoint_words(true, true, true)
            == "拦截已安装：TraeWork 下次启动将把模型/会话请求发往本机网关。"@,
        endpoint::endpoint_words(true, false, mine) == "未安装拦截。"@,
{
}

/// TraeWork is listed exactly where one of its image names stands in the list, in lower case.
pub proof fn law_when_traework_is_listed(listing: Seq<char>, i: int)
    requires
        0 <= i < 5,
    ensures
        text::contains(listing, text::lowercase(endpoint::image_names()[i])) ==> endpoint::lists_one(
            listing,
            endpoint::image_names(),
        ),
        (forall|k: int|
            0 <= k < 5 ==> !text::contains(
                listing,
                text::lowercase(#[trigger] endpoint::image_names()[k]),
            )) ==> !endpoint::lists_one(listing, endpoint::image_names()),
{
}

} // verus!

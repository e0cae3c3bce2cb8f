//! The applications that can be taken over: finding them, choosing among them, restarting them.
use crate::json;
use crate::json::Json;
use crate::paths;
use crate::realtime;
use crate::text;
use vstd::prelude::*;
use vstd::slice::slice_subrange;
use vstd::string::*;
use vstd::utf8::*;

verus! {

/// The product configuration, in the directory of the application.
pub const PRODUCT_FILE: &'static str = "product.json";

/// The file that is patched, in the directory of the application.
pub const MAIN_JS_REL: &'static str = "out/main.js";

/// The kind of machine.
#[derive(Clone, Copy, PartialEq, Eq, Structural)]
pub enum Platform {
    Windows,
    MacOs,
    Other,
}

/// An application that is installed and can be taken over.
pub struct AppTarget {
    /// The name of its bundle or directory.
    pub id: String,
    /// Its bundle or directory.
    pub bundle: String,
    /// The directory with its product configuration.
    pub app_dir: String,
}

impl Clone for AppTarget {
    fn clone(&self) -> (r: Self)
        ensures
            r == *self,
    {
        AppTarget {
            id: self.id.clone(),
            bundle: self.bundle.clone(),
            app_dir: self.app_dir.clone(),
        }
    }
}

impl AppTarget {
    /// Its product configuration; `windows` tells what the machine runs.
    pub fn product_path(&self, windows: bool) -> (r: String)
        ensures
            r@ == paths::joined(self.app_dir@, PRODUCT_FILE@, windows),
    {
        paths::join(self.app_dir.as_str(), PRODUCT_FILE, windows)
    }

    /// The file that is patched; `windows` tells what the machine runs.
    pub fn main_js_path(&self, windows: bool) -> (r: String)
        ensures
            r@ == paths::joined(self.app_dir@, MAIN_JS_REL@, windows),
    {
        paths::join(self.app_dir.as_str(), MAIN_JS_REL, windows)
    }
}

// ---------------------------------------------------------------------------
// Restarting
// ---------------------------------------------------------------------------

/// Stopping applications one after the other: which one is next, and which ones have quit.
pub struct Restart {
    pub next: usize,
    pub stopped: Vec<usize>,
}

/// What to do next while stopping applications.
pub enum RestartAction {
    /// Look whether this one runs; if it does, ask it to quit.
    Stop(usize),
    /// All have quit: make the change.
    Operate,
}

/// The words for an application that does not quit.
pub open spec fn will_not_quit_words(id: Seq<char>) -> Seq<char> {
    "已发起退出请求，但「"@ + id + "」未在限时内退出，请手动关闭后重试。"@
}

impl Restart {
    /// The stopped ones are among those that were looked at, in their order.
    pub open spec fn wf(self, n: nat) -> bool {
        &&& self.next <= n
        &&& forall|i: int| 0 <= i < self.stopped@.len() ==> (#[trigger] self.stopped@[i]) < self.next
        &&& forall|i: int, j: int|
            0 <= i < j < self.stopped@.len() ==> (#[trigger] self.stopped@[i]) < (
            #[trigger] self.stopped@[j])
    }

    /// Nothing has been looked at.
    pub fn new() -> (r: Self)
        ensures
            r.next == 0,
            r.stopped@.len() == 0,
            forall|n: nat| #[trigger] r.wf(n),
    {
        Restart { next: 0, stopped: Vec::new() }
    }

    /// What to do next with `n` applications.
    pub fn action(&self, n: usize) -> (r: RestartAction)
        requires
            self.wf(n as nat),
        ensures
            r == (if self.next < n {
                RestartAction::Stop(self.next)
            } else {
                RestartAction::Operate
            }),
    {
        if self.next < n {
            RestartAction::Stop(self.next)
        } else {
            RestartAction::Operate
        }
    }

    /// The next application does not run: it is left alone.
    pub fn not_running(&mut self, n: usize)
        requires
            old(self).wf(n as nat),
            old(self).next < n,
        ensures
            final(self).wf(n as nat),
            final(self).next == old(self).next + 1,
            final(self).stopped@ == old(self).stopped@,
    {
        self.next = self.next + 1;
    }

    /// The next application was asked to quit. Where it has not, the change is not made: those that
    /// have quit are to be started again, which the result lists.
    pub fn after_quit(&mut self, targets: &[AppTarget], has_quit: bool) -> (r: Result<
        (),
        (Vec<usize>, String),
    >)
        requires
            old(self).wf(targets@.len()),
            old(self).next < targets.len(),
        ensures
            final(self).wf(targets@.len()),
            match r {
                Ok(_) => has_quit && final(self).next == old(self).next + 1 && final(self).stopped@
                    == old(self).stopped@.push(old(self).next),
                Err((back, e)) => !has_quit && back@ == old(self).stopped@ && e@
                    == will_not_quit_words(targets@[old(self).next as int].id@) && *final(
                    self) == *old(self),
            },
    {
        if has_quit {
            self.stopped.push(self.next);
            self.next = self.next + 1;
            Ok(())
        } else {
            let a = text::plus(
                "已发起退出请求，但「".to_owned(),
                targets[self.next].id.as_str(),
            );
            let e = text::plus(a, "」未在限时内退出，请手动关闭后重试。");
            Err((copy_indices(self.stopped.as_slice()), e))
        }
    }
}

fn copy_indices(v: &[usize]) -> (r: Vec<usize>)
    ensures
        r@ == v@,
{
    let mut out: Vec<usize> = Vec::new();
    let mut i: usize = 0;
    while i < v.len()
        invariant
            i <= v@.len(),
            out@ == v@.take(i as int),
        decreases v@.len() - i,
    {
        out.push(v[i]);
        i = i + 1;
        assert(v@.take(i as int) == v@.take(i - 1).push(v@[i - 1]));
    }
    assert(v@.take(i as int) == v@);
    out
}

/// The ids of the stopped applications that were started again, in their order.
pub open spec fn started_ids(
    targets: Seq<AppTarget>,
    stopped: Seq<usize>,
    started: Seq<bool>,
) -> Seq<Seq<char>>
    decreases stopped.len(),
{
    if stopped.len() == 0 {
        Seq::empty()
    } else {
        let before = started_ids(targets, stopped.drop_last(), started);
        if started[stopped.len() - 1] {
            before.push(targets[stopped.last() as int].id@)
        } else {
            before
        }
    }
}

/// The result of a change that needed a restart, after the stopped applications were started again:
/// whether or not the change was made, they were.
pub fn with_restart<T>(
    targets: &[AppTarget],
    stopped: &[usize],
    out: Result<T, String>,
    started: &[bool],
) -> (r: Result<(T, Vec<String>), String>)
    requires
        started@.len() == stopped@.len(),
        forall|i: int| 0 <= i < stopped@.len() ==> (#[trigger] stopped@[i]) < targets@.len(),
    ensures
        match r {
            Ok((t, ids)) => out == Ok::<T, String>(t) && text::texts(ids@) == started_ids(
                targets@,
                stopped@,
                started@,
            ),
            Err(e) => out == Err::<T, String>(e),
        },
{
    let mut ids: Vec<String> = Vec::new();
    let mut i: usize = 0;
    while i < stopped.len()
        invariant
            i <= stopped@.len(),
            started@.len() == stopped@.len(),
            forall|i: int| 0 <= i < stopped@.len() ==> (#[trigger] stopped@[i]) < targets@.len(),
            text::texts(ids@) == started_ids(targets@, stopped@.take(i as int), started@),
        decreases stopped@.len() - i,
    {
        let ghost t = stopped@.take(i + 1);
        assert(t.drop_last() == stopped@.take(i as int));
        if started[i] {
            let ghost before = ids@;
            ids.push(targets[stopped[i]].id.clone());
            assert(text::texts(ids@) == text::texts(before).push(
                targets@[stopped@[i as int] as int].id@,
            ));
        }
        i = i + 1;
    }
    assert(stopped@.take(i as int) == stopped@);
    match out {
        Ok(t) => Ok((t, ids)),
        Err(e) => Err(e),
    }
}

// ---------------------------------------------------------------------------
// Finding
// ---------------------------------------------------------------------------

/// The directory with the product configuration of a bundle or directory.
pub open spec fn app_dir_in(bundle: Seq<char>, platform: Platform) -> Seq<char> {
    match platform {
        Platform::Windows => paths::joined(paths::joined(bundle, "resources"@, true), "app"@, true),
        _ => {
            let contents = paths::joined(bundle, "Contents"@, false);
            paths::joined(paths::joined(contents, "Resources"@, false), "app"@, false)
        },
    }
}

/// The directories below the user's own in which applications are installed on Windows.
pub open spec fn user_roots(bases: Seq<Seq<char>>) -> Seq<Seq<char>>
    decreases bases.len(),
{
    if bases.len() == 0 {
        Seq::empty()
    } else {
        user_roots(bases.drop_last()) + seq![
            paths::joined(bases.last(), "Programs"@, true),
            bases.last(),
        ]
    }
}

/// The directories in which applications are installed.
pub open spec fn install_roots(
    platform: Platform,
    home: Option<Seq<char>>,
    bases: Seq<Seq<char>>,
    machine: Seq<Seq<char>>,
) -> Seq<Seq<char>> {
    match platform {
        Platform::MacOs => match home {
            Some(h) => seq!["/Applications"@, paths::joined(h, "Applications"@, false)],
            None => seq!["/Applications"@],
        },
        Platform::Windows => user_roots(bases) + machine,
        Platform::Other => Seq::empty(),
    }
}

/// The directories in which applications are installed: given the home directory, the data
/// directories of the user and the program directories of the machine.
pub fn roots(platform: Platform, home: Option<&str>, bases: &[String], machine: &[String]) -> (r:
    Vec<String>)
    ensures
        text::texts(r@) == install_roots(
            platform,
            realtime::opt_slice(home),
            text::texts(bases@),
            text::texts(machine@),
        ),
{
    let mut out: Vec<String> = Vec::new();
    match platform {
        Platform::MacOs => {
            out.push("/Applications".to_owned());
            if let Some(h) = home {
                out.push(paths::join(h, "Applications", false));
            }
            assert(text::texts(out@) =~= install_roots(
                platform,
                realtime::opt_slice(home),
                text::texts(bases@),
                text::texts(machine@),
            ));
        },
        Platform::Windows => {
            let ghost all = text::texts(bases@);
            let mut i: usize = 0;
            while i < bases.len()
                invariant
                    i <= bases@.len(),
                    all == text::texts(bases@),
                    text::texts(out@) == user_roots(all.take(i as int)),
                decreases bases@.len() - i,
            {
                let ghost t = all.take(i + 1);
                let ghost prev = out@;
                assert(t.drop_last() == all.take(i as int));
                assert(t.last() == bases@[i as int]@);
                out.push(paths::join(bases[i].as_str(), "Programs", true));
                out.push(bases[i].clone());
                assert(text::texts(out@) == text::texts(prev) + seq![
                    paths::joined(t.last(), "Programs"@, true),
                    t.last(),
                ]);
                i = i + 1;
            }
            assert(all.take(i as int) == all);
            let ghost start = text::texts(out@);
            let mut more = text::clone_texts(machine);
            let ghost added = more@;
            out.append(&mut more);
            assert(text::texts(out@) == start + text::texts(added));
        },
        Platform::Other => {
            assert(text::texts(out@) =~= Seq::empty());
        },
    }
    out
}

/// The directory with the product configuration of a bundle or directory.
pub fn app_dir_of(bundle: &str, platform: Platform) -> (r: String)
    ensures
        r@ == app_dir_in(bundle@, platform),
{
    match platform {
        Platform::Windows => {
            let a = paths::join(bundle, "resources", true);
            paths::join(a.as_str(), "app", true)
        },
        _ => {
            let a = paths::join(bundle, "Contents", false);
            let b = paths::join(a.as_str(), "Resources", false);
            paths::join(b.as_str(), "app", false)
        },
    }
}

/// A product configuration is that of a build that can be taken over: it has an object of boot
/// settings.
pub open spec fn boots(content: Option<Seq<char>>) -> bool {
    match content {
        Some(t) => json::parsed_json(t) matches Some(v) && json::member(v, "bootConfig"@) matches Some(
            b,
        ) && b is Obj,
        None => false,
    }
}

/// Whether a parsed product configuration has an object of boot settings.
pub fn has_boot_config(v: &Json) -> (r: bool)
    ensures
        r == (json::member(v@, "bootConfig"@) matches Some(b) && b is Obj),
{
    match v.get("bootConfig") {
        Some(b) => match b {
            Json::Obj(_) => true,
            _ => false,
        },
        None => false,
    }
}

/// Whether a product configuration is that of a build that can be taken over; none where it cannot
/// be read.
pub fn is_trae_app(product: Option<&str>) -> (r: bool)
    ensures
        r == boots(realtime::opt_slice(product)),
{
    match product {
        Some(t) => match Json::parse(t) {
            Some(v) => has_boot_config(&v),
            None => false,
        },
        None => false,
    }
}

/// The id of a bundle or directory: its name, on macOS without `.app`.
pub open spec fn target_id(bundle: Seq<char>, platform: Platform) -> Option<Seq<char>> {
    match paths::last_part(bundle, platform == Platform::Windows) {
        Some(name) => if platform == Platform::MacOs {
            if text::ends_with(name, ".app"@) && name.len() > 4 {
                Some(name.subrange(0, name.len() - 4))
            } else {
                None
            }
        } else {
            Some(name)
        },
        None => None,
    }
}

/// The id of a bundle or directory.
pub fn id_of(bundle: &str, platform: Platform) -> (r: Option<String>)
    ensures
        text::opt_text(r) == target_id(bundle@, platform),
{
    let windows = platform == Platform::Windows;
    let name = match paths::file_name(bundle, windows) {
        Some(name) => name,
        None => {
            return None;
        },
    };
    if platform == Platform::MacOs {
        let chars = text::to_chars(name.as_str());
        let suffix = text::to_chars(".app");
        proof {
            reveal_strlit(".app");
        }
        let n: usize = chars.len();
        if n > 4 && text::stands_at(chars.as_slice(), suffix.as_slice(), n - 4) {
            Some(text::to_text(slice_subrange(chars.as_slice(), 0, n - 4)))
        } else {
            None
        }
    } else {
        Some(name)
    }
}

/// A directory that was found, with the content of its product configuration.
pub struct Candidate {
    pub bundle: String,
    pub product: Option<String>,
}

/// The application in a directory, by its id; none where there is none that can be taken over.
pub open spec fn accepted(c: Candidate, platform: Platform) -> Option<Seq<char>> {
    if boots(text::opt_text(c.product)) {
        target_id(c.bundle@, platform)
    } else {
        None
    }
}

/// The application is that of the directory.
pub open spec fn made_from(t: AppTarget, c: Candidate, platform: Platform) -> bool {
    &&& accepted(c, platform) == Some(t.id@)
    &&& t.bundle == c.bundle
    &&& t.app_dir@ == app_dir_in(c.bundle@, platform)
}

/// The ids of applications.
pub open spec fn ids_of(list: Seq<AppTarget>) -> Seq<Seq<char>> {
    list.map_values(|t: AppTarget| t.id@)
}

/// The list has an application with this id.
pub open spec fn has_id(list: Seq<AppTarget>, id: Seq<char>) -> bool {
    exists|i: int| 0 <= i < list.len() && (#[trigger] list[i]).id@ == id
}

/// The application is that of the first of the first `n` directories with its id.
pub open spec fn from_first(t: AppTarget, found: Seq<Candidate>, n: int, platform: Platform) -> bool {
    exists|i: int|
        0 <= i < n && made_from(t, #[trigger] found[i], platform) && forall|j: int|
            0 <= j < i ==> accepted(#[trigger] found[j], platform) != Some(t.id@)
}

/// The list is that of the applications in the first `n` directories: each once, from the first
/// directory with its id, ordered by id.
pub open spec fn lists_targets(
    list: Seq<AppTarget>,
    found: Seq<Candidate>,
    n: int,
    platform: Platform,
) -> bool {
    &&& realtime::strictly_sorted(ids_of(list))
    &&& forall|k: int|
        0 <= k < list.len() ==> from_first(#[trigger] list[k], found, n, platform)
    &&& forall|i: int|
        0 <= i < n && accepted(#[trigger] found[i], platform) is Some ==> has_id(
            list,
            accepted(found[i], platform)->0,
        )
}

/// Finds the place of an id in a list that is ordered by id, and whether it stands there.
fn place_of(list: &[AppTarget], id: &str) -> (r: (usize, bool))
    requires
        realtime::strictly_sorted(ids_of(list@)),
    ensures
        r.0 <= list@.len(),
        forall|k: int| 0 <= k < r.0 ==> text::text_less((#[trigger] list@[k]).id@, id@),
        r.1 ==> r.0 < list@.len() && list@[r.0 as int].id@ == id@,
        !r.1 ==> forall|k: int|
            r.0 <= k < list@.len() ==> text::text_less(id@, (#[trigger] list@[k]).id@),
        r.1 == has_id(list@, id@),
{
    let mut i: usize = 0;
    while i < list.len() && text::text_comes_before(list[i].id.as_str(), id)
        invariant
            i <= list@.len(),
            forall|k: int| 0 <= k < i ==> text::text_less((#[trigger] list@[k]).id@, id@),
        decreases list@.len() - i,
    {
        i = i + 1;
    }
    let here = i < list.len() && text::same_text(list[i].id.as_str(), id);
    proof {
        let ids = ids_of(list@);
        if here {
            assert(list@[i as int].id@ == id@);
        } else {
            assert forall|k: int| i <= k < list@.len() implies text::text_less(
                id@,
                (#[trigger] list@[k]).id@,
            ) by {
                text::lemma_text_order_total(list@[i as int].id@, id@);
                if k > i {
                    assert(text::text_less(ids[i as int], ids[k]));
                    text::lemma_text_order_transitive(id@, ids[i as int], ids[k]);
                }
            }
            assert forall|k: int| 0 <= k < list@.len() implies (#[trigger] list@[k]).id@ != id@ by {
                text::lemma_text_order_total(list@[k].id@, id@);
            }
        }
    }
    (i, here)
}

/// The applications that can be taken over among the directories that were found, ordered by id.
/// Of two with the same id the first one counts.
pub fn discover(found: &[Candidate], platform: Platform) -> (r: Vec<AppTarget>)
    ensures
        lists_targets(r@, found@, found@.len() as int, platform),
{
    let mut out: Vec<AppTarget> = Vec::new();
    let mut i: usize = 0;
    while i < found.len()
        invariant
            i <= found@.len(),
            lists_targets(out@, found@, i as int, platform),
        decreases found@.len() - i,
    {
        let ghost before = out@;
        let id = if is_trae_app(
            match &found[i].product {
                Some(p) => Some(p.as_str()),
                None => None,
            },
        ) {
            id_of(found[i].bundle.as_str(), platform)
        } else {
            None
        };
        assert(text::opt_text(id) == accepted(found@[i as int], platform));
        if let Some(id) = id {
            let (at, here) = place_of(out.as_slice(), id.as_str());
            if !here {
                let t = AppTarget {
                    id,
                    bundle: found[i].bundle.clone(),
                    app_dir: app_dir_of(found[i].bundle.as_str(), platform),
                };
                assert(made_from(t, found@[i as int], platform));
                out.insert(at, t);
                proof {
                    lemma_inserted(before, at as int, t, found@, i as int, platform);
                    assert(out@ =~= before.insert(at as int, t));
                }
            } else {
                proof {
                    lemma_kept(before, found@, i as int, platform);
                }
            }
        } else {
            proof {
                lemma_kept(before, found@, i as int, platform);
            }
        }
        i = i + 1;
    }
    out
}

proof fn lemma_kept(list: Seq<AppTarget>, found: Seq<Candidate>, n: int, platform: Platform)
    requires
        0 <= n < found.len(),
        lists_targets(list, found, n, platform),
        accepted(found[n], platform) matches Some(id) ==> has_id(list, id),
    ensures
        lists_targets(list, found, n + 1, platform),
{
    assert forall|k: int| 0 <= k < list.len() implies from_first(
        #[trigger] list[k],
        found,
        n + 1,
        platform,
    ) by {
        assert(from_first(list[k], found, n, platform));
        let i = choose|i: int|
            0 <= i < n && made_from(list[k], #[trigger] found[i], platform) && forall|j: int|
                0 <= j < i ==> accepted(#[trigger] found[j], platform) != Some(list[k].id@);
        assert(made_from(list[k], found[i], platform));
    }
}

proof fn lemma_inserted_in_order(list: Seq<AppTarget>, at: int, t: AppTarget)
    requires
        0 <= at <= list.len(),
        realtime::strictly_sorted(ids_of(list)),
        forall|k: int| 0 <= k < at ==> text::text_less((#[trigger] list[k]).id@, t.id@),
        forall|k: int| at <= k < list.len() ==> text::text_less(t.id@, (#[trigger] list[k]).id@),
    ensures
        realtime::strictly_sorted(ids_of(list.insert(at, t))),
{
    let w = list.insert(at, t);
    let ids = ids_of(list);
    let wids = ids_of(w);
    assert forall|a: int, b: int| 0 <= a < b < wids.len() implies text::text_less(
        #[trigger] wids[a],
        #[trigger] wids[b],
    ) by {
        if b < at {
            assert(text::text_less(ids[a], ids[b]));
        } else if b == at {
            assert(text::text_less(list[a].id@, t.id@));
        } else if a < at {
            assert(text::text_less(ids[a], ids[b - 1]));
        } else if a == at {
            assert(text::text_less(t.id@, list[b - 1].id@));
        } else {
            assert(text::text_less(ids[a - 1], ids[b - 1]));
        }
    }
}

proof fn lemma_inserted(
    list: Seq<AppTarget>,
    at: int,
    t: AppTarget,
    found: Seq<Candidate>,
    n: int,
    platform: Platform,
)
    requires
        0 <= n < found.len(),
        0 <= at <= list.len(),
        lists_targets(list, found, n, platform),
        made_from(t, found[n], platform),
        !has_id(list, t.id@),
        forall|k: int| 0 <= k < at ==> text::text_less((#[trigger] list[k]).id@, t.id@),
        forall|k: int| at <= k < list.len() ==> text::text_less(t.id@, (#[trigger] list[k]).id@),
    ensures
        lists_targets(list.insert(at, t), found, n + 1, platform),
{
    let w = list.insert(at, t);
    lemma_inserted_in_order(list, at, t);
    assert forall|k: int| 0 <= k < w.len() implies from_first(
        #[trigger] w[k],
        found,
        n + 1,
        platform,
    ) by {
        if k == at {
            assert(made_from(w[k], found[n], platform));
            assert forall|j: int| 0 <= j < n implies accepted(#[trigger] found[j], platform) != Some(
                t.id@,
            ) by {
                if accepted(found[j], platform) == Some(t.id@) {
                    assert(has_id(list, accepted(found[j], platform)->0));
                }
            }
        } else {
            let s = if k < at { list[k] } else { list[k - 1] };
            assert(from_first(s, found, n, platform));
            let i = choose|i: int|
                0 <= i < n && made_from(s, #[trigger] found[i], platform) && forall|j: int|
                    0 <= j < i ==> accepted(#[trigger] found[j], platform) != Some(s.id@);
            assert(made_from(w[k], found[i], platform));
        }
    }
    assert forall|i: int| 0 <= i < n + 1 && accepted(#[trigger] found[i], platform) is Some implies
        has_id(w, accepted(found[i], platform)->0) by {
        let id = accepted(found[i], platform)->0;
        if i < n {
            assert(has_id(list, id));
            let k = choose|k: int| 0 <= k < list.len() && (#[trigger] list[k]).id@ == id;
            if k < at {
                assert(w[k].id@ == id);
            } else {
                assert(w[k + 1].id@ == id);
            }
        } else {
            assert(w[at].id@ == id);
        }
    }
}

// ---------------------------------------------------------------------------
// Choosing
// ---------------------------------------------------------------------------

/// The id is selected; nothing selected means everything.
pub open spec fn chosen(ids: Seq<String>, id: Seq<char>) -> bool {
    ids.len() == 0 || text::has_text(ids, id)
}

/// Whether an id is selected; nothing selected means everything.
pub fn is_selected(ids: &[String], id: &str) -> (r: bool)
    ensures
        r == chosen(ids@, id@),
{
    ids.len() == 0 || text::contains_text(ids, id)
}

/// The test for an application that is selected.
pub open spec fn is_chosen(ids: Seq<String>) -> spec_fn(AppTarget) -> bool {
    |t: AppTarget| chosen(ids, t.id@)
}

/// The selected applications, in their order.
pub fn select(all: &[AppTarget], ids: &[String]) -> (r: Vec<AppTarget>)
    ensures
        r@ == all@.filter(is_chosen(ids@)),
{
    let mut out: Vec<AppTarget> = Vec::new();
    let ghost keep = is_chosen(ids@);
    let mut i: usize = 0;
    proof {
        reveal(Seq::filter);
        assert(all@.take(0).filter(keep) =~= Seq::empty());
    }
    while i < all.len()
        invariant
            i <= all@.len(),
            keep == is_chosen(ids@),
            out@ == all@.take(i as int).filter(keep),
        decreases all@.len() - i,
    {
        proof {
            reveal(Seq::filter);
            assert(all@.take(i + 1).drop_last() =~= all@.take(i as int));
        }
        if is_selected(ids, all[i].id.as_str()) {
            out.push(all[i].clone());
        }
        i = i + 1;
    }
    assert(all@.take(i as int) =~= all@);
    out
}

/// The test for an id that no application has.
pub open spec fn is_absent(all: Seq<AppTarget>) -> spec_fn(String) -> bool {
    |s: String| !has_id(all, s@)
}

/// The selected ids that no application has, in their order.
pub fn missing(all: &[AppTarget], ids: &[String]) -> (r: Vec<String>)
    ensures
        r@ == ids@.filter(is_absent(all@)),
{
    let mut out: Vec<String> = Vec::new();
    let ghost keep = is_absent(all@);
    let mut i: usize = 0;
    proof {
        reveal(Seq::filter);
        assert(ids@.take(0).filter(keep) =~= Seq::empty());
    }
    while i < ids.len()
        invariant
            i <= ids@.len(),
            keep == is_absent(all@),
            out@ == ids@.take(i as int).filter(keep),
        decreases ids@.len() - i,
    {
        proof {
            reveal(Seq::filter);
            assert(ids@.take(i + 1).drop_last() =~= ids@.take(i as int));
        }
        let mut k: usize = 0;
        while k < all.len() && !text::same_text(all[k].id.as_str(), ids[i].as_str())
            invariant
                k <= all@.len(),
                i < ids@.len(),
                forall|j: int| 0 <= j < k ==> (#[trigger] all@[j]).id@ != ids@[i as int]@,
            decreases all@.len() - k,
        {
            k = k + 1;
        }
        if k == all.len() {
            out.push(ids[i].clone());
        } else {
            assert(all@[k as int].id@ == ids@[i as int]@);
        }
        i = i + 1;
    }
    assert(ids@.take(i as int) =~= ids@);
    out
}

/// The first application.
pub fn default_target(all: &[AppTarget]) -> (r: Option<AppTarget>)
    ensures
        r == (if all@.len() > 0 {
            Some(all@[0])
        } else {
            None
        }),
{
    if all.len() > 0 {
        Some(all[0].clone())
    } else {
        None
    }
}

/// Selecting nothing selects everything, and then nothing is missing.
pub proof fn law_empty_selection_is_everything(all: Seq<AppTarget>, ids: Seq<String>)
    requires
        ids.len() == 0,
    ensures
        all.filter(is_chosen(ids)) == all,
        ids.filter(is_absent(all)).len() == 0,
    decreases all.len(),
{
    reveal(Seq::filter);
    if all.len() > 0 {
        law_empty_selection_is_everything(all.drop_last(), ids);
        assert(all.drop_last().push(all.last()) =~= all);
    } else {
        assert(all.filter(is_chosen(ids)) =~= all);
    }
}

/// No two applications that were found have the same id.
pub proof fn law_ids_are_unique(
    list: Seq<AppTarget>,
    found: Seq<Candidate>,
    n: int,
    platform: Platform,
    i: int,
    j: int,
)
    requires
        lists_targets(list, found, n, platform),
        0 <= i < j < list.len(),
    ensures
        list[i].id@ != list[j].id@,
{
    let ids = ids_of(list);
    assert(text::text_less(ids[i], ids[j]));
    text::lemma_text_order_total(ids[i], ids[j]);
}

// ---------------------------------------------------------------------------
// The process on Windows
// ---------------------------------------------------------------------------

/// The image name of an application on Windows.
pub fn process_image_name(id: &str) -> (r: String)
    ensures
        r@ == id@ + ".exe"@,
{
    text::plus(id.to_owned(), ".exe")
}

/// The text without quotes on both sides.
pub open spec fn unquoted(s: Seq<char>) -> Seq<char> {
    text::trim_end_char(unquoted_start(s), '"')
}

/// The text without quotes at its beginning.
pub open spec fn unquoted_start(s: Seq<char>) -> Seq<char>
    decreases s.len(),
{
    if s.len() > 0 && s[0] == '"' {
        unquoted_start(s.subrange(1, s.len() as int))
    } else {
        s
    }
}

/// The image name in a line of the list of processes: its first field. A carriage return belongs
/// to the end of a line that a line feed follows.
pub open spec fn line_image(line: Seq<char>, ended: bool) -> Seq<char> {
    let whole = if ended && line.len() > 0 && line.last() == '\r' {
        line.subrange(0, line.len() - 1)
    } else {
        line
    };
    let field = match text::find_from(whole, "\",\""@, 0) {
        Some(i) => whole.subrange(0, i),
        None => whole,
    };
    unquoted(field)
}

fn image_of(line: &[char], ended: bool) -> (r: String)
    ensures
        r@ == line_image(line@, ended),
{
    let n: usize = line.len();
    let whole = if ended && n > 0 && line[n - 1] == '\r' {
        slice_subrange(line, 0, n - 1)
    } else {
        line
    };
    let sep = text::to_chars("\",\"");
    let field = match text::find(whole, sep.as_slice(), 0) {
        Some(i) => slice_subrange(whole, 0, i),
        None => whole,
    };
    let mut k: usize = 0;
    assert(field@.subrange(0, field@.len() as int) == field@);
    while k < field.len() && field[k] == '"'
        invariant
            k <= field@.len(),
            unquoted_start(field@) == unquoted_start(
                field@.subrange(k as int, field@.len() as int),
            ),
        decreases field@.len() - k,
    {
        assert(field@.subrange(k as int, field@.len() as int).subrange(1, field@.len() - k)
            == field@.subrange(k + 1, field@.len() as int));
        k = k + 1;
    }
    let rest = slice_subrange(field, k, field.len());
    text::to_text(text::without_trailing_char(rest, '"'))
}

/// The image of an application stands in a list of processes, whatever the case of its letters.
pub open spec fn runs_in(listing: Seq<char>, id: Seq<char>) -> bool {
    let lines = text::split_by(listing, "\n"@);
    exists|i: int|
        0 <= i < lines.len() && text::lowercase(
            line_image(#[trigger] lines[i], i + 1 < lines.len()),
        ) == text::lowercase(id + ".exe"@)
}

/// Whether an application runs, by the output of the list of processes on Windows.
pub fn listed_running(output: &[u8], id: &str) -> (r: bool)
    ensures
        r == runs_in(text::lossy_text(output@), id@),
        valid_utf8(output@) ==> text::lossy_text(output@) == decode_utf8(output@),
{
    let listing = text::to_chars(text::utf8_text_lossy(output).as_str());
    let newline = text::to_chars("\n");
    proof {
        reveal_strlit("\n");
    }
    let lines = text::split(listing.as_slice(), newline.as_slice());
    let want = text::lowercase_text(process_image_name(id).as_str());
    let ghost all = text::split_by(listing@, "\n"@);
    let mut i: usize = 0;
    while i < lines.len()
        invariant
            i <= lines@.len(),
            all == text::rows(lines@),
            all == text::split_by(text::lossy_text(output@), "\n"@),
            valid_utf8(output@) ==> text::lossy_text(output@) == decode_utf8(output@),
            want@ == text::lowercase(id@ + ".exe"@),
            forall|k: int|
                0 <= k < i ==> text::lowercase(
                    line_image(#[trigger] all[k], k + 1 < all.len()),
                ) != want@,
        decreases lines@.len() - i,
    {
        let ended = i + 1 < lines.len();
        let image = text::lowercase_text(image_of(lines[i].as_slice(), ended).as_str());
        assert(all[i as int] == lines@[i as int]@);
        if text::same_text(image.as_str(), want.as_str()) {
            return true;
        }
        i = i + 1;
    }
    false
}

} // verus!

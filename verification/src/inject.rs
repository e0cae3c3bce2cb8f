//! The gateway model in TraeWork: finding it in the stored model lists, and selecting it.
//!
//! TraeWork keeps its state in a database of keys and JSON texts. The rows are read and written
//! elsewhere; here it is decided what they say and what is written.
use crate::endpoint;
use crate::json;
use crate::json::{Json, JsonV};
use crate::number;
use crate::paths;
use crate::realtime;
use crate::text;
use vstd::prelude::*;
use vstd::string::*;

verus! {

/// The provider of a model that the user has added.
pub const CUSTOM_PROVIDER: &'static str = "custom_openai_compatible";

/// The rows of one database that matter here. One that cannot be opened has none.
pub struct Db {
    pub path: String,
    /// The model lists: their keys, and their values where they can be read.
    pub model_lists: Vec<(String, Option<String>)>,
    /// The recent selections: their keys and values.
    pub recent: Vec<(String, String)>,
    /// All selections: the recent ones and those of sessions.
    pub selections: Vec<(String, String)>,
}

/// The endpoint of the gateway.
pub open spec fn gateway_url(port: u16) -> Seq<char> {
    "http://127.0.0.1:"@ + number::decimal(port as nat) + "/v1/chat/completions"@
}

/// The endpoint of the gateway.
pub fn gateway_base_url(port: u16) -> (r: String)
    ensures
        r@ == gateway_url(port),
{
    let n = number::to_decimal(port as u64);
    text::plus(text::plus("http://127.0.0.1:".to_owned(), n.as_str()), "/v1/chat/completions")
}

// ---------------------------------------------------------------------------
// Finding the model
// ---------------------------------------------------------------------------

/// A model that points to the gateway.
pub struct GatewayModel {
    pub db: String,
    pub key: String,
    pub label: String,
    pub name: String,
    pub provider: String,
    pub config_source: u8,
    pub custom_model_id: Option<String>,
    pub base_url: String,
}

/// What a model is.
#[verifier::ext_equal]
pub struct GatewayModelV {
    pub db: Seq<char>,
    pub key: Seq<char>,
    pub label: Seq<char>,
    pub name: Seq<char>,
    pub provider: Seq<char>,
    pub config_source: u8,
    pub custom_model_id: Option<Seq<char>>,
    pub base_url: Seq<char>,
}

impl View for GatewayModel {
    type V = GatewayModelV;

    open spec fn view(&self) -> GatewayModelV {
        GatewayModelV {
            db: self.db@,
            key: self.key@,
            label: self.label@,
            name: self.name@,
            provider: self.provider@,
            config_source: self.config_source,
            custom_model_id: text::opt_text(self.custom_model_id),
            base_url: self.base_url@,
        }
    }
}

/// The views of a list of models.
pub open spec fn models_view(v: Seq<GatewayModel>) -> Seq<GatewayModelV> {
    v.map_values(|m: GatewayModel| m@)
}

/// A label is not that of a remote agent; `lowered` is the label in lower case.
pub fn is_local_label(lowered: &str) -> (r: bool)
    ensures
        r == !text::contains(lowered@, "remote"@),
{
    !text::text_contains(lowered, "remote")
}

/// A label is not that of a remote agent.
pub open spec fn local_label(label: Seq<char>) -> bool {
    !text::contains(text::lowercase(label), "remote"@)
}

/// The source of a model that a user has added for themselves.
pub const PERSONAL_SOURCE: u8 = 3;

/// A model is one that a user has added for themselves.
pub open spec fn personal(m: JsonV) -> bool {
    json::unsigned_of(json::member(m, "config_source"@)) == Some(PERSONAL_SOURCE as int)
}

/// The id of a model that the user has added, unless it is empty.
pub open spec fn custom_id(m: JsonV) -> Option<Seq<char>> {
    match json::text_of(json::member(m, "custom_model_id"@)) {
        Some(s) => if s.len() == 0 {
            None
        } else {
            Some(s)
        },
        None => None,
    }
}

/// The model that an entry of a list describes, if it is a personal one that points to the gateway.
pub open spec fn model_of(
    m: JsonV,
    port: u16,
    db: Seq<char>,
    key: Seq<char>,
    label: Seq<char>,
) -> Option<GatewayModelV> {
    if json::text_of(json::member(m, "base_url"@)) == Some(gateway_url(port)) && json::text_of(
        json::member(m, "provider"@),
    ) == Some(CUSTOM_PROVIDER@) && personal(m) {
        match json::text_of(json::member(m, "name"@)) {
            Some(name) => Some(
                GatewayModelV {
                    db,
                    key,
                    label,
                    name,
                    provider: CUSTOM_PROVIDER@,
                    config_source: PERSONAL_SOURCE,
                    custom_model_id: custom_id(m),
                    base_url: gateway_url(port),
                },
            ),
            None => None,
        }
    } else {
        None
    }
}

/// The models of a list, in their order.
pub open spec fn list_models(
    a: Seq<JsonV>,
    port: u16,
    db: Seq<char>,
    key: Seq<char>,
    label: Seq<char>,
) -> Seq<GatewayModelV>
    decreases a.len(),
{
    if a.len() == 0 {
        Seq::empty()
    } else {
        let before = list_models(a.drop_last(), port, db, key, label);
        match model_of(a.last(), port, db, key, label) {
            Some(m) => before.push(m),
            None => before,
        }
    }
}

/// The models under the labels of local agents, in their order.
pub open spec fn label_models(
    m: Seq<(Seq<char>, JsonV)>,
    port: u16,
    db: Seq<char>,
    key: Seq<char>,
) -> Seq<GatewayModelV>
    decreases m.len(),
{
    if m.len() == 0 {
        Seq::empty()
    } else {
        let before = label_models(m.drop_last(), port, db, key);
        let (label, v) = m.last();
        match v {
            JsonV::Arr(a) => if local_label(label) {
                before + list_models(a, port, db, key, label)
            } else {
                before
            },
            _ => before,
        }
    }
}

/// The models in one stored list.
pub open spec fn row_models(value: Option<Seq<char>>, port: u16, db: Seq<char>, key: Seq<char>) -> Seq<
    GatewayModelV,
> {
    match value {
        Some(t) => match json::parsed_json(t) {
            Some(JsonV::Obj(m)) => label_models(m, port, db, key),
            _ => Seq::empty(),
        },
        None => Seq::empty(),
    }
}

/// The models in the stored lists of one database, in their order.
pub open spec fn db_models(rows: Seq<(String, Option<String>)>, port: u16, db: Seq<char>) -> Seq<
    GatewayModelV,
>
    decreases rows.len(),
{
    if rows.len() == 0 {
        Seq::empty()
    } else {
        db_models(rows.drop_last(), port, db) + row_models(
            text::opt_text(rows.last().1),
            port,
            db,
            rows.last().0@,
        )
    }
}

/// The models in all databases, in their order.
pub open spec fn all_models(dbs: Seq<Db>, port: u16) -> Seq<GatewayModelV>
    decreases dbs.len(),
{
    if dbs.len() == 0 {
        Seq::empty()
    } else {
        all_models(dbs.drop_last(), port) + db_models(
            dbs.last().model_lists@,
            port,
            dbs.last().path@,
        )
    }
}

fn text_member<'a>(m: &'a Json, key: &str) -> (r: Option<&'a String>)
    ensures
        match r {
            Some(s) => json::text_of(json::member(m@, key@)) == Some(s@),
            None => json::text_of(json::member(m@, key@)) is None,
        },
{
    match m.get(key) {
        Some(v) => v.as_text(),
        None => None,
    }
}

fn text_member_is(m: &Json, key: &str, want: &str) -> (r: bool)
    ensures
        r == (json::text_of(json::member(m@, key@)) == Some(want@)),
{
    match text_member(m, key) {
        Some(s) => text::same_text(s.as_str(), want),
        None => false,
    }
}

fn read_model(m: &Json, port: u16, db: &str, key: &str, label: &str) -> (r: Option<GatewayModel>)
    ensures
        match r {
            Some(g) => model_of(m@, port, db@, key@, label@) == Some(g@),
            None => model_of(m@, port, db@, key@, label@) is None,
        },
{
    let target = gateway_base_url(port);
    if !text_member_is(m, "base_url", target.as_str()) || !text_member_is(
        m,
        "provider",
        CUSTOM_PROVIDER,
    ) {
        return None;
    }
    let is_personal = match m.get("config_source") {
        Some(v) => match v.as_unsigned() {
            Some(n) => n == PERSONAL_SOURCE as u64,
            None => false,
        },
        None => false,
    };
    if !is_personal {
        return None;
    }
    let name = match text_member(m, "name") {
        Some(n) => n.clone(),
        None => {
            return None;
        },
    };
    let custom_model_id = match text_member(m, "custom_model_id") {
        Some(s) => if s.as_str().is_empty() {
            None
        } else {
            Some(s.clone())
        },
        None => None,
    };
    Some(
        GatewayModel {
            db: db.to_owned(),
            key: key.to_owned(),
            label: label.to_owned(),
            name,
            provider: CUSTOM_PROVIDER.to_owned(),
            config_source: PERSONAL_SOURCE,
            custom_model_id,
            base_url: target,
        },
    )
}

fn push_list(out: &mut Vec<GatewayModel>, a: &[Json], port: u16, db: &str, key: &str, label: &str)
    ensures
        models_view(final(out)@) == models_view(old(out)@) + list_models(
            json::items_view(a@),
            port,
            db@,
            key@,
            label@,
        ),
{
    let ghost all = json::items_view(a@);
    let ghost start = models_view(out@);
    let mut i: usize = 0;
    assert(start + list_models(all.take(0), port, db@, key@, label@) == start);
    while i < a.len()
        invariant
            i <= a@.len(),
            all == json::items_view(a@),
            models_view(out@) == start + list_models(
                all.take(i as int),
                port,
                db@,
                key@,
                label@,
            ),
        decreases a@.len() - i,
    {
        let ghost t = all.take(i + 1);
        assert(t.drop_last() == all.take(i as int));
        assert(t.last() == a@[i as int]@);
        let ghost before = models_view(out@);
        if let Some(g) = read_model(&a[i], port, db, key, label) {
            let ghost gv = g@;
            out.push(g);
            assert(models_view(out@) == before.push(gv));
        }
        assert(models_view(out@) == start + list_models(t, port, db@, key@, label@));
        i = i + 1;
    }
    assert(all.take(i as int) == all);
}

fn push_labels(out: &mut Vec<GatewayModel>, m: &[(String, Json)], port: u16, db: &str, key: &str)
    ensures
        models_view(final(out)@) == models_view(old(out)@) + label_models(
            json::members_view(m@),
            port,
            db@,
            key@,
        ),
{
    let ghost all = json::members_view(m@);
    let ghost start = models_view(out@);
    let mut i: usize = 0;
    assert(start + label_models(all.take(0), port, db@, key@) == start);
    while i < m.len()
        invariant
            i <= m@.len(),
            all == json::members_view(m@),
            models_view(out@) == start + label_models(all.take(i as int), port, db@, key@),
        decreases m@.len() - i,
    {
        let ghost t = all.take(i + 1);
        assert(t.drop_last() == all.take(i as int));
        assert(t.last() == (m@[i as int].0@, m@[i as int].1@));
        proof {
            json::lemma_views(m@[i as int].1);
        }
        let label = m[i].0.as_str();
        let lowered = text::lowercase_text(label);
        if is_local_label(lowered.as_str()) {
            if let Json::Arr(a) = &m[i].1 {
                push_list(out, a.as_slice(), port, db, key, label);
            }
        }
        assert(models_view(out@) == start + label_models(t, port, db@, key@));
        i = i + 1;
    }
    assert(all.take(i as int) == all);
}

fn push_rows(out: &mut Vec<GatewayModel>, rows: &[(String, Option<String>)], port: u16, db: &str)
    ensures
        models_view(final(out)@) == models_view(old(out)@) + db_models(rows@, port, db@),
{
    let ghost start = models_view(out@);
    let mut i: usize = 0;
    assert(start + db_models(rows@.take(0), port, db@) == start);
    while i < rows.len()
        invariant
            i <= rows@.len(),
            models_view(out@) == start + db_models(rows@.take(i as int), port, db@),
        decreases rows@.len() - i,
    {
        let ghost t = rows@.take(i + 1);
        assert(t.drop_last() == rows@.take(i as int));
        if let Some(value) = &rows[i].1 {
            if let Some(v) = Json::parse(value.as_str()) {
                proof {
                    json::lemma_views(v);
                }
                if let Json::Obj(m) = &v {
                    push_labels(out, m.as_slice(), port, db, rows[i].0.as_str());
                }
            }
        }
        assert(models_view(out@) == start + db_models(t, port, db@));
        i = i + 1;
    }
    assert(rows@.take(i as int) == rows@);
}

/// The models in the databases that point to the gateway.
pub fn find_gateway_models_in(dbs: &[Db], port: u16) -> (r: Vec<GatewayModel>)
    ensures
        models_view(r@) == all_models(dbs@, port),
{
    let mut out: Vec<GatewayModel> = Vec::new();
    let mut i: usize = 0;
    while i < dbs.len()
        invariant
            i <= dbs@.len(),
            models_view(out@) == all_models(dbs@.take(i as int), port),
        decreases dbs@.len() - i,
    {
        let ghost t = dbs@.take(i + 1);
        assert(t.drop_last() == dbs@.take(i as int));
        push_rows(&mut out, dbs[i].model_lists.as_slice(), port, dbs[i].path.as_str());
        i = i + 1;
    }
    assert(dbs@.take(i as int) == dbs@);
    out
}

/// The models that point to the gateway.
pub fn find_gateway_models(dbs: &[Db], port: u16) -> (r: Vec<GatewayModel>)
    ensures
        models_view(r@) == all_models(dbs@, port),
{
    find_gateway_models_in(dbs, port)
}

/// The id under which a model is selected.
pub open spec fn model_id(
    label: Seq<char>,
    source: u8,
    provider: Seq<char>,
    name: Seq<char>,
    custom: Option<Seq<char>>,
) -> Seq<char> {
    let base = label + "_"@ + number::decimal(source as nat) + "_"@ + provider + "_"@ + name;
    match custom {
        Some(id) => if id.len() == 0 {
            base
        } else {
            base + "_"@ + id
        },
        None => base,
    }
}

/// The id under which a model is selected.
pub open spec fn selection_id(m: GatewayModelV) -> Seq<char> {
    model_id(m.label, m.config_source, m.provider, m.name, m.custom_model_id)
}

/// Builds the id under which a model is selected.
pub fn build_model_id(
    label: &str,
    config_source: u8,
    provider: &str,
    name: &str,
    custom_model_id: Option<&str>,
) -> (r: String)
    ensures
        r@ == model_id(
            label@,
            config_source,
            provider@,
            name@,
            realtime::opt_slice(custom_model_id),
        ),
{
    let n = number::to_decimal(config_source as u64);
    let a = text::plus(text::plus(label.to_owned(), "_"), n.as_str());
    let b = text::plus(text::plus(a, "_"), provider);
    let base = text::plus(text::plus(b, "_"), name);
    match custom_model_id {
        Some(id) => if id.is_empty() {
            base
        } else {
            text::plus(text::plus(base, "_"), id)
        },
        None => base,
    }
}

fn id_of_model(m: &GatewayModel) -> (r: String)
    ensures
        r@ == selection_id(m@),
{
    build_model_id(
        m.label.as_str(),
        m.config_source,
        m.provider.as_str(),
        m.name.as_str(),
        endpoint::opt_str(&m.custom_model_id),
    )
}

// ---------------------------------------------------------------------------
// Selecting
// ---------------------------------------------------------------------------

/// The entry of a selected model.
pub open spec fn selected_view(id: Seq<char>) -> JsonV {
    JsonV::Obj(seq![("mode"@, JsonV::Int(0)), ("modelId"@, JsonV::Str(id))])
}

fn selected_entry(id: &str) -> (r: Json)
    ensures
        r@ == selected_view(id@),
{
    let mut m: Vec<(String, Json)> = Vec::new();
    m.push(("mode".to_owned(), Json::Int(0)));
    m.push(("modelId".to_owned(), Json::Str(id.to_owned())));
    assert(json::members_view(m@) =~= selected_view(id@)->Obj_0);
    let r = Json::Obj(m);
    proof {
        json::lemma_views(r);
    }
    r
}

/// The views of labels and ids.
pub open spec fn items_text(items: Seq<(String, String)>) -> Seq<(Seq<char>, Seq<char>)> {
    items.map_values(|e: (String, String)| (e.0@, e.1@))
}

/// The selections with the given ones made, one after the other.
pub open spec fn with_selections(
    m: Seq<(Seq<char>, JsonV)>,
    items: Seq<(Seq<char>, Seq<char>)>,
) -> Seq<(Seq<char>, JsonV)>
    decreases items.len(),
{
    if items.len() == 0 {
        m
    } else {
        json::with_member(
            with_selections(m, items.drop_last()),
            items.last().0,
            selected_view(items.last().1),
        )
    }
}

/// The members of the stored selections: none where they cannot be read; nothing where they are no
/// object.
pub open spec fn stored_members(v: Option<JsonV>) -> Option<Seq<(Seq<char>, JsonV)>> {
    match v {
        Some(JsonV::Obj(m)) => Some(m),
        Some(_) => None,
        None => Some(Seq::empty()),
    }
}

proof fn lemma_selections_orderly(
    m: Seq<(Seq<char>, JsonV)>,
    items: Seq<(Seq<char>, Seq<char>)>,
)
    requires
        json::orderly(JsonV::Obj(m)),
    ensures
        json::orderly(JsonV::Obj(with_selections(m, items))),
    decreases items.len(),
{
    if items.len() > 0 {
        lemma_selections_orderly(m, items.drop_last());
        let before = with_selections(m, items.drop_last());
        let entry = selected_view(items.last().1);
        json::lemma_with_member_ascends(before, items.last().0, entry);
        let w = with_selections(m, items);
        assert(json::orderly(entry)) by {
            reveal_with_fuel(json::orderly, 2);
            lemma_mode_order();
        }
        assert forall|i: int| 0 <= i < w.len() implies json::orderly((#[trigger] w[i]).1) by {
            if w[i] != (items.last().0, entry) {
                assert(before.contains(w[i]));
                let k = choose|k: int| 0 <= k < before.len() && before[k] == w[i];
                assert(json::orderly(before[k].1));
            }
        }
    }
}

proof fn lemma_mode_order()
    ensures
        text::text_less("mode"@, "modelId"@),
{
    reveal_strlit("mode");
    reveal_strlit("modelId");
    let a = "mode"@;
    let b = "modelId"@;
    let a1 = a.subrange(1, 4);
    let b1 = b.subrange(1, 7);
    let a2 = a1.subrange(1, 3);
    let b2 = b1.subrange(1, 6);
    let a3 = a2.subrange(1, 2);
    let b3 = b2.subrange(1, 5);
    let a4 = a3.subrange(1, 1);
    let b4 = b3.subrange(1, 4);
    assert(text::text_less(a4, b4));
    assert(text::text_less(a3, b3));
    assert(text::text_less(a2, b2));
    assert(text::text_less(a1, b1));
}

/// A text is the compact form of a value, and reads as that value where no number is a fraction
/// and the nesting is not too deep.
pub open spec fn writes_tree(t: Seq<char>, v: JsonV) -> bool {
    t == json::compact_json(v) && (json::whole(v) && json::nested(v, 127) ==> json::parsed_json(t)
        == Some(v))
}

/// The text of stored selections after the given ones were made; none where what is stored is JSON
/// but no object.
pub fn selected_text(stored: &str, items: &[(String, String)]) -> (r: Option<String>)
    ensures
        match r {
            Some(t) => stored_members(json::parsed_json(stored@)) matches Some(m) && writes_tree(
                t@,
                JsonV::Obj(with_selections(m, items_text(items@))),
            ),
            None => stored_members(json::parsed_json(stored@)) is None,
        },
{
    let mut members: Vec<(String, Json)> = Vec::new();
    match Json::parse(stored) {
        Some(v) => {
            proof {
                json::lemma_views(v);
            }
            match v {
                Json::Obj(m) => {
                    members = m;
                },
                _ => {
                    return None;
                },
            }
        },
        None => {},
    }
    let ghost start = json::members_view(members@);
    let ghost all = items_text(items@);
    assert(stored_members(json::parsed_json(stored@)) == Some(start));
    assert(json::orderly(JsonV::Obj(start)));
    let mut i: usize = 0;
    while i < items.len()
        invariant
            i <= items@.len(),
            all == items_text(items@),
            json::members_view(members@) == with_selections(start, all.take(i as int)),
        decreases items@.len() - i,
    {
        let ghost t = all.take(i + 1);
        assert(t.drop_last() == all.take(i as int));
        assert(t.last() == (items@[i as int].0@, items@[i as int].1@));
        let entry = selected_entry(items[i].1.as_str());
        json::set_member(&mut members, items[i].0.clone(), entry);
        i = i + 1;
    }
    assert(all.take(i as int) == all);
    let doc = Json::Obj(members);
    proof {
        json::lemma_views(doc);
        lemma_selections_orderly(start, all);
    }
    Some(doc.to_compact())
}

/// A row that is to be written.
pub struct RowWrite {
    pub db: String,
    pub key: String,
    pub value: String,
}

/// What selecting the gateway model comes to.
pub struct SelectPlan {
    /// The number of models that point to the gateway.
    pub count: usize,
    /// The labels under which the model is selected, each once.
    pub labels: Vec<String>,
    pub writes: Vec<RowWrite>,
}

/// Why the gateway model is not selected.
pub enum SelectError {
    /// TraeWork runs and would overwrite the selection.
    Running(String),
    /// What is stored under this key is JSON, but no object.
    NotAnObject(String),
}

/// The labels and ids of the models of one database, in their order.
pub open spec fn db_items(models: Seq<GatewayModelV>, db: Seq<char>) -> Seq<(Seq<char>, Seq<char>)>
    decreases models.len(),
{
    if models.len() == 0 {
        Seq::empty()
    } else {
        let before = db_items(models.drop_last(), db);
        let m = models.last();
        if m.db == db {
            before.push((m.label, selection_id(m)))
        } else {
            before
        }
    }
}

fn items_of(models: &[GatewayModel], db: &str) -> (r: Vec<(String, String)>)
    ensures
        items_text(r@) == db_items(models_view(models@), db@),
{
    let mut out: Vec<(String, String)> = Vec::new();
    let ghost all = models_view(models@);
    let mut i: usize = 0;
    while i < models.len()
        invariant
            i <= models@.len(),
            all == models_view(models@),
            items_text(out@) == db_items(all.take(i as int), db@),
        decreases models@.len() - i,
    {
        let ghost t = all.take(i + 1);
        assert(t.drop_last() == all.take(i as int));
        assert(t.last() == models@[i as int]@);
        if text::same_text(models[i].db.as_str(), db) {
            let ghost before = out@;
            let id = id_of_model(&models[i]);
            out.push((models[i].label.clone(), id));
            assert(items_text(out@) == items_text(before).push(
                (models@[i as int].label@, selection_id(models@[i as int]@)),
            ));
        }
        i = i + 1;
    }
    assert(all.take(i as int) == all);
    out
}

/// The words where TraeWork runs.
pub open spec fn select_running_words() -> Seq<char> {
    "TraeWork 正在运行，无法写入选中记录（运行时写入会在退出时被覆盖）。请先关闭 TraeWork 后重试。"@
}

/// The writes for the recent selections of one database: each row with the model selected.
pub open spec fn writes_rows(
    writes: Seq<RowWrite>,
    db: Seq<char>,
    rows: Seq<(String, String)>,
    items: Seq<(Seq<char>, Seq<char>)>,
) -> bool {
    &&& writes.len() == rows.len()
    &&& forall|i: int|
        0 <= i < writes.len() ==> {
            let w = #[trigger] writes[i];
            &&& w.db@ == db
            &&& w.key@ == rows[i].0@
            &&& stored_members(json::parsed_json(rows[i].1@)) matches Some(m) && writes_tree(
                w.value@,
                JsonV::Obj(with_selections(m, items)),
            )
        }
}

/// All rows hold an object, or something that cannot be read.
pub open spec fn readable_rows(rows: Seq<(String, String)>) -> bool {
    forall|i: int|
        0 <= i < rows.len() ==> stored_members(json::parsed_json((#[trigger] rows[i]).1@)) is Some
}

proof fn lemma_written_are_readable(
    writes: Seq<RowWrite>,
    db: Seq<char>,
    rows: Seq<(String, String)>,
    items: Seq<(Seq<char>, Seq<char>)>,
)
    requires
        writes_rows(writes, db, rows, items),
    ensures
        readable_rows(rows),
{
    assert forall|i: int| 0 <= i < rows.len() implies stored_members(
        json::parsed_json((#[trigger] rows[i]).1@),
    ) is Some by {
        assert(writes[i].db@ == db);
    }
}

/// The writes that select the given items in the recent selections of one database.
pub fn write_selections(db: &Db, items: &[(String, String)]) -> (r: Result<
    Vec<RowWrite>,
    SelectError,
>)
    ensures
        match r {
            Ok(w) => writes_rows(w@, db.path@, db.recent@, items_text(items@)),
            Err(e) => e matches SelectError::NotAnObject(key) && exists|i: int|
                0 <= i < db.recent@.len() && (#[trigger] db.recent@[i]).0@ == key@
                    && stored_members(json::parsed_json(db.recent@[i].1@)) is None
                    && readable_rows(db.recent@.take(i)),
        },
{
    let mut out: Vec<RowWrite> = Vec::new();
    let mut i: usize = 0;
    while i < db.recent.len()
        invariant
            i <= db.recent@.len(),
            writes_rows(out@, db.path@, db.recent@.take(i as int), items_text(items@)),
        decreases db.recent@.len() - i,
    {
        match selected_text(db.recent[i].1.as_str(), items) {
            Some(value) => {
                out.push(RowWrite { db: db.path.clone(), key: db.recent[i].0.clone(), value });
            },
            None => {
                let key = db.recent[i].0.clone();
                assert(db.recent@[i as int].0@ == key@);
                proof {
                    lemma_written_are_readable(
                        out@,
                        db.path@,
                        db.recent@.take(i as int),
                        items_text(items@),
                    );
                }
                return Err(SelectError::NotAnObject(key));
            },
        }
        i = i + 1;
    }
    assert(db.recent@.take(i as int) == db.recent@);
    Ok(out)
}

/// Some model has the label.
pub open spec fn labels_one(models: Seq<GatewayModelV>, label: Seq<char>) -> bool {
    exists|i: int| 0 <= i < models.len() && (#[trigger] models[i]).label == label
}

fn labels_of(models: &[GatewayModel]) -> (r: Vec<String>)
    ensures
        realtime::strictly_sorted(text::texts(r@)),
        forall|t: Seq<char>| #[trigger]
            text::has_text(r@, t) <==> labels_one(models_view(models@), t),
{
    let mut out: Vec<String> = Vec::new();
    let ghost all = models_view(models@);
    let mut i: usize = 0;
    while i < models.len()
        invariant
            i <= models@.len(),
            all == models_view(models@),
            realtime::strictly_sorted(text::texts(out@)),
            forall|t: Seq<char>| #[trigger]
                text::has_text(out@, t) <==> labels_one(all.take(i as int), t),
        decreases models@.len() - i,
    {
        let ghost before = out@;
        let label = models[i].label.clone();
        let ghost l = label@;
        realtime::insert_sorted(&mut out, label);
        assert forall|t: Seq<char>| #[trigger] text::has_text(out@, t) <==> labels_one(
            all.take(i + 1),
            t,
        ) by {
            let a = all.take(i as int);
            let b = all.take(i + 1);
            assert(b[i as int].label == l);
            if labels_one(a, t) {
                let k = choose|k: int| 0 <= k < a.len() && (#[trigger] a[k]).label == t;
                assert(b[k].label == t);
            }
            if labels_one(b, t) && t != l {
                let k = choose|k: int| 0 <= k < b.len() && (#[trigger] b[k]).label == t;
                assert(a[k].label == t);
            }
            assert(text::has_text(before, t) <==> labels_one(a, t));
        }
        i = i + 1;
    }
    assert(all.take(i as int) == all);
    out
}

/// The writes of several databases, those without a model left out.
pub open spec fn writes_all(
    writes: Seq<RowWrite>,
    dbs: Seq<Db>,
    models: Seq<GatewayModelV>,
) -> bool
    decreases dbs.len(),
{
    if dbs.len() == 0 {
        writes.len() == 0
    } else {
        let items = db_items(models, dbs.last().path@);
        let n = if items.len() == 0 {
            0
        } else {
            dbs.last().recent@.len() as int
        };
        &&& n <= writes.len()
        &&& writes_all(writes.subrange(0, writes.len() - n), dbs.drop_last(), models)
        &&& items.len() > 0 ==> writes_rows(
            writes.subrange(writes.len() - n, writes.len() as int),
            dbs.last().path@,
            dbs.last().recent@,
            items,
        )
    }
}

/// A database with models of the gateway holds a recent selection that is not an object, under the
/// given key; it is the first one.
pub open spec fn odd_selection(dbs: Seq<Db>, port: u16, key: Seq<char>) -> bool {
    exists|d: int, i: int|
        0 <= d < dbs.len() && db_items(all_models(dbs, port), dbs[d].path@).len() > 0 && 0 <= i
            < dbs[d].recent@.len() && (#[trigger] dbs[d].recent@[i]).0@ == key && stored_members(
            json::parsed_json(dbs[d].recent@[i].1@),
        ) is None && readable_rows(dbs[d].recent@.take(i)) && readable_dbs(
            dbs,
            all_models(dbs, port),
            d,
        )
}

/// Of the first `n` databases, those with models hold no odd selection.
pub open spec fn readable_dbs(dbs: Seq<Db>, models: Seq<GatewayModelV>, n: int) -> bool {
    forall|e: int|
        0 <= e < n && db_items(models, (#[trigger] dbs[e]).path@).len() > 0 ==> readable_rows(
            dbs[e].recent@,
        )
}

/// The plan selects every model of the gateway, and names each label once.
pub open spec fn selects_all(dbs: Seq<Db>, port: u16, p: SelectPlan) -> bool {
    let models = all_models(dbs, port);
    &&& p.count == models.len()
    &&& forall|t: Seq<char>| #[trigger] text::has_text(p.labels@, t) <==> labels_one(models, t)
    &&& realtime::strictly_sorted(text::texts(p.labels@))
    &&& writes_all(p.writes@, dbs, models)
}

/// What selecting the gateway model comes to.
pub open spec fn select_outcome(
    dbs: Seq<Db>,
    port: u16,
    running: bool,
    r: Result<SelectPlan, SelectError>,
) -> bool {
    match r {
        Ok(p) => !running && selects_all(dbs, port, p),
        Err(SelectError::Running(e)) => running && e@ == select_running_words(),
        Err(SelectError::NotAnObject(key)) => !running && odd_selection(dbs, port, key@),
    }
}

/// Decides what selecting the gateway model comes to: the rows that are written, and the labels
/// that are affected. Without a model nothing is written.
pub fn select_gateway_model_in(dbs: &[Db], port: u16, running: bool) -> (r: Result<
    SelectPlan,
    SelectError,
>)
    ensures
        select_outcome(dbs@, port, running, r),
{
    if running {
        return Err(
            SelectError::Running(
                "TraeWork 正在运行，无法写入选中记录（运行时写入会在退出时被覆盖）。请先关闭 TraeWork 后重试。".to_owned(),
            ),
        );
    }
    let models = find_gateway_models_in(dbs, port);
    let mut writes: Vec<RowWrite> = Vec::new();
    let ghost mv = models_view(models@);
    let mut i: usize = 0;
    while i < dbs.len()
        invariant
            i <= dbs@.len(),
            mv == models_view(models@),
            mv == all_models(dbs@, port),
            writes_all(writes@, dbs@.take(i as int), mv),
            readable_dbs(dbs@, mv, i as int),
            !running,
        decreases dbs@.len() - i,
    {
        let ghost t = dbs@.take(i + 1);
        let ghost before = writes@;
        assert(t.drop_last() == dbs@.take(i as int));
        let items = items_of(models.as_slice(), dbs[i].path.as_str());
        if items.len() > 0 {
            match write_selections(&dbs[i], items.as_slice()) {
                Ok(mut more) => {
                    let ghost m = more@;
                    writes.append(&mut more);
                    assert(writes@ == before + m);
                    assert(writes@.subrange(0, writes@.len() - m.len()) == before);
                    assert(writes@.subrange(writes@.len() - m.len(), writes@.len() as int) == m);
                    proof {
                        lemma_written_are_readable(
                            m,
                            dbs@[i as int].path@,
                            dbs@[i as int].recent@,
                            db_items(mv, dbs@[i as int].path@),
                        );
                    }
                },
                Err(e) => {
                    return Err(e);
                },
            }
        } else {
            assert(writes@.subrange(0, writes@.len() - 0) == before);
        }
        i = i + 1;
    }
    assert(dbs@.take(i as int) == dbs@);
    let labels = labels_of(models.as_slice());
    Ok(SelectPlan { count: models.len(), labels, writes })
}

/// Decides what selecting the gateway model comes to.
pub fn select_gateway_model(dbs: &[Db], port: u16, running: bool) -> (r: Result<
    SelectPlan,
    SelectError,
>)
    ensures
        select_outcome(dbs@, port, running, r),
{
    select_gateway_model_in(dbs, port, running)
}

// ---------------------------------------------------------------------------
// Clearing
// ---------------------------------------------------------------------------

/// A member names one of the models.
pub open spec fn names_model(key: Seq<char>, v: JsonV, ids: Seq<Seq<char>>) -> bool {
    key == "modelId"@ && (v matches JsonV::Str(s) && ids.contains(s))
}

/// The value with each `modelId` that is one of the given emptied, at every depth.
pub open spec fn scrubbed(v: JsonV, ids: Seq<Seq<char>>) -> JsonV
    decreases v,
{
    match v {
        JsonV::Arr(a) => JsonV::Arr(
            Seq::new(
                a.len(),
                |i: int|
                    if 0 <= i < a.len() {
                        scrubbed(a[i], ids)
                    } else {
                        JsonV::Null
                    },
            ),
        ),
        JsonV::Obj(m) => JsonV::Obj(
            Seq::new(
                m.len(),
                |i: int|
                    if 0 <= i < m.len() {
                        if names_model(m[i].0, m[i].1, ids) {
                            (m[i].0, JsonV::Str(""@))
                        } else {
                            (m[i].0, scrubbed(m[i].1, ids))
                        }
                    } else {
                        (""@, JsonV::Null)
                    },
            ),
        ),
        _ => v,
    }
}

/// The value names one of the models at some depth.
pub open spec fn mentions(v: JsonV, ids: Seq<Seq<char>>) -> bool
    decreases v,
{
    match v {
        JsonV::Arr(a) => exists|i: int| 0 <= i < a.len() && mentions(#[trigger] a[i], ids),
        JsonV::Obj(m) => exists|i: int|
            0 <= i < m.len() && (names_model((#[trigger] m[i]).0, m[i].1, ids) || mentions(
                m[i].1,
                ids,
            )),
        _ => false,
    }
}

fn is_model_id(key: &str, v: &Json, ids: &[String]) -> (r: bool)
    ensures
        r == names_model(key@, v@, text::texts(ids@)),
{
    proof {
        json::lemma_views(*v);
    }
    let ghost all = text::texts(ids@);
    match v {
        Json::Str(s) => {
            let found = text::contains_text(ids, s.as_str());
            assert(found == all.contains(s@)) by {
                if text::has_text(ids@, s@) {
                    let i = choose|i: int| 0 <= i < ids@.len() && (#[trigger] ids@[i])@ == s@;
                    assert(all[i] == s@);
                }
                if all.contains(s@) {
                    let i = choose|i: int| 0 <= i < all.len() && all[i] == s@;
                    assert(ids@[i]@ == s@);
                }
            }
            text::same_text(key, "modelId") && found
        },
        _ => false,
    }
}

/// Empties each `modelId` that is one of the given, and tells whether there was one.
pub fn scrub_by_ids(v: &Json, ids: &[String]) -> (r: (Json, bool))
    ensures
        r.0@ == scrubbed(v@, text::texts(ids@)),
        r.1 == mentions(v@, text::texts(ids@)),
    decreases *v,
{
    let ghost all = text::texts(ids@);
    proof {
        json::lemma_views(*v);
    }
    match v {
        Json::Arr(a) => {
            let ghost av = json::items_view(a@);
            let mut out: Vec<Json> = Vec::new();
            let mut touched = false;
            let mut i: usize = 0;
            while i < a.len()
                invariant
                    i <= a@.len(),
                    out@.len() == i,
                    *v matches Json::Arr(b) && b == *a,
                    av == json::items_view(a@),
                    all == text::texts(ids@),
                    forall|k: int| 0 <= k < i ==> (#[trigger] out@[k])@ == scrubbed(av[k], all),
                    touched == exists|k: int| 0 <= k < i && mentions(#[trigger] av[k], all),
                decreases a@.len() - i,
            {
                assert(av[i as int] == a@[i as int]@);
                let (child, t) = scrub_by_ids(&a[i], ids);
                out.push(child);
                if t {
                    touched = true;
                }
                i = i + 1;
            }
            let r = Json::Arr(out);
            proof {
                json::lemma_views(r);
                assert(r@->Arr_0 =~= scrubbed(v@, all)->Arr_0);
            }
            (r, touched)
        },
        Json::Obj(m) => {
            let ghost mv = json::members_view(m@);
            let mut out: Vec<(String, Json)> = Vec::new();
            let mut touched = false;
            let mut i: usize = 0;
            while i < m.len()
                invariant
                    i <= m@.len(),
                    out@.len() == i,
                    *v matches Json::Obj(b) && b == *m,
                    mv == json::members_view(m@),
                    all == text::texts(ids@),
                    forall|k: int|
                        0 <= k < i ==> (#[trigger] out@[k]).0@ == mv[k].0 && out@[k].1@ == (
                        if names_model(mv[k].0, mv[k].1, all) {
                            JsonV::Str(""@)
                        } else {
                            scrubbed(mv[k].1, all)
                        }),
                    touched == exists|k: int|
                        0 <= k < i && (names_model((#[trigger] mv[k]).0, mv[k].1, all) || mentions(
                            mv[k].1,
                            all,
                        )),
                decreases m@.len() - i,
            {
                assert(mv[i as int] == (m@[i as int].0@, m@[i as int].1@));
                if is_model_id(m[i].0.as_str(), &m[i].1, ids) {
                    out.push((m[i].0.clone(), Json::Str("".to_owned())));
                    proof {
                        json::lemma_views(out@[i as int].1);
                    }
                    touched = true;
                } else {
                    assert(decreases_to!(*v => m@[i as int].1));
                    let (child, t) = scrub_by_ids(&m[i].1, ids);
                    out.push((m[i].0.clone(), child));
                    if t {
                        touched = true;
                    }
                }
                i = i + 1;
            }
            let r = Json::Obj(out);
            proof {
                json::lemma_views(r);
                assert(r@->Obj_0 =~= scrubbed(v@, all)->Obj_0);
            }
            (r, touched)
        },
        Json::Null => (Json::Null, false),
        Json::Bool(b) => (Json::Bool(*b), false),
        Json::Int(n) => (Json::Int(*n), false),
        Json::Big(n) => (Json::Big(*n), false),
        Json::Float(f) => (Json::Float(f.clone()), false),
        Json::Str(s) => (Json::Str(s.clone()), false),
    }
}


proof fn lemma_scrubbed_orderly(v: JsonV, ids: Seq<Seq<char>>)
    requires
        json::orderly(v),
    ensures
        json::orderly(scrubbed(v, ids)),
    decreases v,
{
    match v {
        JsonV::Arr(a) => {
            let b = scrubbed(v, ids)->Arr_0;
            assert forall|i: int| 0 <= i < b.len() implies json::orderly(#[trigger] b[i]) by {
                assert(json::orderly(a[i]));
                lemma_scrubbed_orderly(a[i], ids);
            }
        },
        JsonV::Obj(m) => {
            let n = scrubbed(v, ids)->Obj_0;
            assert forall|i: int| 0 <= i < n.len() implies json::orderly((#[trigger] n[i]).1) by {
                assert(json::orderly(m[i].1));
                lemma_scrubbed_orderly(m[i].1, ids);
            }
            assert forall|i: int, j: int| 0 <= i < j < n.len() implies text::text_less(
                (#[trigger] n[i]).0,
                (#[trigger] n[j]).0,
            ) by {
                assert(text::text_less(m[i].0, m[j].0));
            }
        },
        _ => {},
    }
}

/// A stored selection names one of the models.
pub open spec fn row_mentions(t: Seq<char>, ids: Seq<Seq<char>>) -> bool {
    json::parsed_json(t) matches Some(v) && mentions(v, ids)
}

/// The text of a stored selection with the given models removed, if it names one of them.
pub fn cleared_text(stored: &str, ids: &[String]) -> (r: Option<String>)
    ensures
        match r {
            Some(t) => row_mentions(stored@, text::texts(ids@)) && writes_tree(
                t@,
                scrubbed(json::parsed_json(stored@)->0, text::texts(ids@)),
            ),
            None => !row_mentions(stored@, text::texts(ids@)),
        },
{
    match Json::parse(stored) {
        Some(v) => {
            let (clean, touched) = scrub_by_ids(&v, ids);
            if touched {
                proof {
                    lemma_scrubbed_orderly(v@, text::texts(ids@));
                }
                Some(clean.to_compact())
            } else {
                None
            }
        },
        None => None,
    }
}

/// The selections of one database that name one of the models.
pub open spec fn named_rows(rows: Seq<(String, String)>, ids: Seq<Seq<char>>) -> Seq<
    (String, String),
>
    decreases rows.len(),
{
    if rows.len() == 0 {
        Seq::empty()
    } else {
        let before = named_rows(rows.drop_last(), ids);
        if row_mentions(rows.last().1@, ids) {
            before.push(rows.last())
        } else {
            before
        }
    }
}

/// The writes clear the given rows of one database.
pub open spec fn clears_rows(
    writes: Seq<RowWrite>,
    db: Seq<char>,
    rows: Seq<(String, String)>,
    ids: Seq<Seq<char>>,
) -> bool {
    &&& writes.len() == rows.len()
    &&& forall|i: int|
        0 <= i < writes.len() ==> {
            let w = #[trigger] writes[i];
            &&& w.db@ == db
            &&& w.key@ == rows[i].0@
            &&& writes_tree(w.value@, scrubbed(json::parsed_json(rows[i].1@)->0, ids))
        }
}

/// The writes clear the given models in all databases.
pub open spec fn clears_all(writes: Seq<RowWrite>, dbs: Seq<Db>, ids: Seq<Seq<char>>) -> bool
    decreases dbs.len(),
{
    if dbs.len() == 0 {
        writes.len() == 0
    } else {
        let rows = named_rows(dbs.last().selections@, ids);
        let n = rows.len() as int;
        &&& n <= writes.len()
        &&& clears_all(writes.subrange(0, writes.len() - n), dbs.drop_last(), ids)
        &&& clears_rows(
            writes.subrange(writes.len() - n, writes.len() as int),
            dbs.last().path@,
            rows,
            ids,
        )
    }
}

/// The number of databases with a selection that names one of the models.
pub open spec fn named_dbs(dbs: Seq<Db>, ids: Seq<Seq<char>>) -> nat
    decreases dbs.len(),
{
    if dbs.len() == 0 {
        0
    } else if named_rows(dbs.last().selections@, ids).len() > 0 {
        named_dbs(dbs.drop_last(), ids) + 1
    } else {
        named_dbs(dbs.drop_last(), ids)
    }
}

/// The ids under which models are selected.
pub open spec fn selection_ids(models: Seq<GatewayModelV>) -> Seq<Seq<char>> {
    models.map_values(|m: GatewayModelV| selection_id(m))
}

fn ids_of(models: &[GatewayModel]) -> (r: Vec<String>)
    ensures
        text::texts(r@) == selection_ids(models_view(models@)),
{
    let mut out: Vec<String> = Vec::new();
    let ghost all = selection_ids(models_view(models@));
    let mut i: usize = 0;
    while i < models.len()
        invariant
            i <= models@.len(),
            all == selection_ids(models_view(models@)),
            text::texts(out@) == all.take(i as int),
        decreases models@.len() - i,
    {
        let ghost before = out@;
        let id = id_of_model(&models[i]);
        assert(id@ == all[i as int]);
        out.push(id);
        assert(text::texts(out@) == text::texts(before).push(all[i as int]));
        assert(all.take(i + 1) == all.take(i as int).push(all[i as int]));
        i = i + 1;
    }
    assert(all.take(i as int) == all);
    out
}

fn clear_db(db: &Db, ids: &[String]) -> (r: Vec<RowWrite>)
    ensures
        clears_rows(
            r@,
            db.path@,
            named_rows(db.selections@, text::texts(ids@)),
            text::texts(ids@),
        ),
{
    let ghost all = text::texts(ids@);
    let mut out: Vec<RowWrite> = Vec::new();
    let mut i: usize = 0;
    while i < db.selections.len()
        invariant
            i <= db.selections@.len(),
            all == text::texts(ids@),
            clears_rows(out@, db.path@, named_rows(db.selections@.take(i as int), all), all),
        decreases db.selections@.len() - i,
    {
        let ghost t = db.selections@.take(i + 1);
        assert(t.drop_last() == db.selections@.take(i as int));
        assert(t.last() == db.selections@[i as int]);
        if let Some(value) = cleared_text(db.selections[i].1.as_str(), ids) {
            let ghost before = out@;
            out.push(
                RowWrite { db: db.path.clone(), key: db.selections[i].0.clone(), value },
            );
            assert(forall|k: int| 0 <= k < before.len() ==> out@[k] == before[k]);
        }
        i = i + 1;
    }
    assert(db.selections@.take(i as int) == db.selections@);
    out
}

/// What clearing the selection comes to.
pub struct ClearPlan {
    /// The number of databases with a selection of the gateway model.
    pub cleared: usize,
    pub writes: Vec<RowWrite>,
}

/// The words where TraeWork runs.
pub open spec fn clear_running_words() -> Seq<char> {
    "TraeWork 正在运行，无法写入选中记录（运行时写入会被覆盖）。请先关闭 TraeWork 后重试。"@
}

/// What clearing the selection of the gateway model comes to.
pub open spec fn clear_outcome(
    dbs: Seq<Db>,
    port: u16,
    running: bool,
    r: Result<ClearPlan, String>,
) -> bool {
    let ids = selection_ids(all_models(dbs, port));
    match r {
        Ok(p) => !running && p.cleared == named_dbs(dbs, ids) && clears_all(p.writes@, dbs, ids),
        Err(e) => running && e@ == clear_running_words(),
    }
}

/// Decides what clearing the selection of the gateway model comes to: each selection that names it
/// is written with the name emptied, and nothing else is written.
pub fn clear_gateway_selection_in(dbs: &[Db], port: u16, running: bool) -> (r: Result<
    ClearPlan,
    String,
>)
    ensures
        clear_outcome(dbs@, port, running, r),
{
    if running {
        return Err(
            "TraeWork 正在运行，无法写入选中记录（运行时写入会被覆盖）。请先关闭 TraeWork 后重试。".to_owned(),
        );
    }
    let models = find_gateway_models_in(dbs, port);
    let ids = ids_of(models.as_slice());
    let ghost all = text::texts(ids@);
    let mut writes: Vec<RowWrite> = Vec::new();
    let mut cleared: usize = 0;
    let mut i: usize = 0;
    while i < dbs.len()
        invariant
            i <= dbs@.len(),
            cleared <= i,
            all == text::texts(ids@),
            cleared == named_dbs(dbs@.take(i as int), all),
            clears_all(writes@, dbs@.take(i as int), all),
        decreases dbs@.len() - i,
    {
        let ghost t = dbs@.take(i + 1);
        let ghost before = writes@;
        assert(t.drop_last() == dbs@.take(i as int));
        let mut more = clear_db(&dbs[i], ids.as_slice());
        if more.len() > 0 {
            cleared = cleared + 1;
        }
        let ghost m = more@;
        writes.append(&mut more);
        assert(writes@ == before + m);
        assert(writes@.subrange(0, writes@.len() - m.len()) == before);
        assert(writes@.subrange(writes@.len() - m.len(), writes@.len() as int) == m);
        i = i + 1;
    }
    assert(dbs@.take(i as int) == dbs@);
    Ok(ClearPlan { cleared, writes })
}

/// Decides what clearing the selection of the gateway model comes to.
pub fn clear_gateway_selection(dbs: &[Db], port: u16, running: bool) -> (r: Result<
    ClearPlan,
    String,
>)
    ensures
        clear_outcome(dbs@, port, running, r),
{
    clear_gateway_selection_in(dbs, port, running)
}

// ---------------------------------------------------------------------------
// Status
// ---------------------------------------------------------------------------

/// A stored selection selects the model under the label.
pub open spec fn selects(t: Seq<char>, label: Seq<char>, id: Seq<char>) -> bool {
    json::parsed_json(t) matches Some(v) && json::text_of(
        json::member_of(json::member(v, label), "modelId"@),
    ) == Some(id)
}

/// One of the stored selections selects the model under the label.
pub open spec fn selected_in(rows: Seq<(String, String)>, label: Seq<char>, id: Seq<char>) -> bool {
    exists|i: int| 0 <= i < rows.len() && selects((#[trigger] rows[i]).1@, label, id)
}

/// Tells whether one of the recent selections selects the model under the label.
pub fn is_selected(rows: &[(String, String)], label: &str, id: &str) -> (r: bool)
    ensures
        r == selected_in(rows@, label@, id@),
{
    let mut i: usize = 0;
    while i < rows.len()
        invariant
            i <= rows@.len(),
            forall|k: int| 0 <= k < i ==> !selects((#[trigger] rows@[k]).1@, label@, id@),
        decreases rows@.len() - i,
    {
        if let Some(v) = Json::parse(rows[i].1.as_str()) {
            if let Some(entry) = v.get(label) {
                if text_member_is(entry, "modelId", id) {
                    assert(selects(rows@[i as int].1@, label@, id@));
                    return true;
                }
            }
        }
        i = i + 1;
    }
    false
}

/// A model that points to the gateway, and whether it is selected.
pub struct TakeoverEntry {
    pub db: String,
    pub key: String,
    pub label: String,
    pub name: String,
    pub base_url: String,
    pub selected: bool,
}

/// The state of the gateway model in TraeWork.
pub struct TakeoverStatus {
    pub trae_running: bool,
    pub matched: bool,
    pub base_url: String,
    pub entries: Vec<TakeoverEntry>,
}

/// A model is selected in its database.
pub open spec fn model_selected(dbs: Seq<Db>, m: GatewayModelV) -> bool {
    exists|d: int|
        0 <= d < dbs.len() && (#[trigger] dbs[d]).path@ == m.db && selected_in(
            dbs[d].recent@,
            m.label,
            selection_id(m),
        )
}

fn model_is_selected(dbs: &[Db], m: &GatewayModel) -> (r: bool)
    ensures
        r == model_selected(dbs@, m@),
{
    let id = id_of_model(m);
    let mut d: usize = 0;
    while d < dbs.len()
        invariant
            d <= dbs@.len(),
            id@ == selection_id(m@),
            forall|k: int|
                0 <= k < d ==> !((#[trigger] dbs@[k]).path@ == m@.db && selected_in(
                    dbs@[k].recent@,
                    m@.label,
                    selection_id(m@),
                )),
        decreases dbs@.len() - d,
    {
        if text::same_text(dbs[d].path.as_str(), m.db.as_str()) {
            if is_selected(dbs[d].recent.as_slice(), m.label.as_str(), id.as_str()) {
                return true;
            }
        }
        d = d + 1;
    }
    false
}

/// The entry of a model.
pub open spec fn entry_shows(e: TakeoverEntry, dbs: Seq<Db>, m: GatewayModelV) -> bool {
    &&& e.db@ == m.db
    &&& e.key@ == m.key
    &&& e.label@ == m.label
    &&& e.name@ == m.name
    &&& e.base_url@ == m.base_url
    &&& e.selected == model_selected(dbs, m)
}

/// Tells which models point to the gateway, and which of them are selected.
pub fn takeover_status(dbs: &[Db], port: u16, running: bool) -> (r: TakeoverStatus)
    ensures
        r.trae_running == running,
        r.matched == (all_models(dbs@, port).len() > 0),
        r.base_url@ == gateway_url(port),
        r.entries@.len() == all_models(dbs@, port).len(),
        forall|i: int|
            0 <= i < r.entries@.len() ==> entry_shows(
                #[trigger] r.entries@[i],
                dbs@,
                all_models(dbs@, port)[i],
            ),
{
    let models = find_gateway_models(dbs, port);
    let ghost mv = models_view(models@);
    let mut entries: Vec<TakeoverEntry> = Vec::new();
    let mut i: usize = 0;
    while i < models.len()
        invariant
            i <= models@.len(),
            mv == models_view(models@),
            entries@.len() == i,
            forall|k: int|
                0 <= k < i ==> entry_shows(#[trigger] entries@[k], dbs@, mv[k]),
        decreases models@.len() - i,
    {
        assert(mv[i as int] == models@[i as int]@);
        let m = &models[i];
        let selected = model_is_selected(dbs, m);
        entries.push(
            TakeoverEntry {
                db: m.db.clone(),
                key: m.key.clone(),
                label: m.label.clone(),
                name: m.name.clone(),
                base_url: m.base_url.clone(),
                selected,
            },
        );
        i = i + 1;
    }
    assert(mv.len() == models@.len());
    TakeoverStatus {
        trae_running: running,
        matched: models.len() > 0,
        base_url: gateway_base_url(port),
        entries,
    }
}

/// Selects the gateway model at start, if that is switched on and TraeWork does not run. Gives the
/// plan, if there is one; the number of its labels is the number of selections.
pub fn self_heal(enabled: bool, dbs: &[Db], port: u16, running: bool) -> (r: Option<SelectPlan>)
    ensures
        match r {
            Some(p) => enabled && !running && selects_all(dbs@, port, p),
            None => !enabled || running || exists|key: Seq<char>|
                #[trigger] odd_selection(dbs@, port, key),
        },
{
    if !enabled || running {
        return None;
    }
    match select_gateway_model(dbs, port, running) {
        Ok(p) => Some(p),
        Err(e) => {
            assert(e matches SelectError::NotAnObject(key) && odd_selection(dbs@, port, key@));
            None
        },
    }
}

// ---------------------------------------------------------------------------
// Where the databases are
// ---------------------------------------------------------------------------

/// The database of an installation, on a machine with Windows or without.
pub open spec fn db_place(base: Seq<char>, app: Seq<char>, windows: bool) -> Seq<char> {
    let user = paths::joined(paths::joined(base, app, windows), "User"@, windows);
    paths::joined(paths::joined(user, "globalStorage"@, windows), "state.vscdb"@, windows)
}

/// The places of the databases below the given directories.
pub open spec fn db_places_of(bases: Seq<Seq<char>>, windows: bool) -> Seq<Seq<char>>
    decreases bases.len(),
{
    if bases.len() == 0 {
        Seq::empty()
    } else {
        db_places_of(bases.drop_last(), windows) + endpoint::names().map_values(
            |n: Seq<char>| db_place(bases.last(), n, windows),
        )
    }
}

fn push_places(out: &mut Vec<String>, base: &str, windows: bool)
    ensures
        text::texts(final(out)@) == text::texts(old(out)@) + endpoint::names().map_values(
            |n: Seq<char>| db_place(base@, n, windows),
        ),
{
    let apps = endpoint::app_names();
    let ghost start = text::texts(out@);
    let ghost row = endpoint::names().map_values(|n: Seq<char>| db_place(base@, n, windows));
    let mut k: usize = 0;
    assert(start + row.take(0) == start);
    while k < apps.len()
        invariant
            k <= apps@.len(),
            text::texts(apps@) == endpoint::names(),
            row == endpoint::names().map_values(|n: Seq<char>| db_place(base@, n, windows)),
            text::texts(out@) == start + row.take(k as int),
        decreases apps@.len() - k,
    {
        assert(endpoint::names()[k as int] == apps@[k as int]@);
        let ghost prev = out@;
        let root = paths::join(base, apps[k].as_str(), windows);
        let user = paths::join(root.as_str(), "User", windows);
        let storage = paths::join(user.as_str(), "globalStorage", windows);
        out.push(paths::join(storage.as_str(), "state.vscdb", windows));
        assert(text::texts(out@) == text::texts(prev).push(row[k as int]));
        assert(start + row.take(k + 1) == (start + row.take(k as int)).push(row[k as int]));
        k = k + 1;
    }
    assert(endpoint::names().len() == apps@.len());
    assert(row.take(k as int) == row);
}

/// The places where a database may be, below each of the given directories; `windows` tells what
/// the machine runs.
pub fn db_places(bases: &[String], windows: bool) -> (r: Vec<String>)
    ensures
        text::texts(r@) == db_places_of(text::texts(bases@), windows),
{
    let mut out: Vec<String> = Vec::new();
    let ghost all = text::texts(bases@);
    let mut i: usize = 0;
    while i < bases.len()
        invariant
            i <= bases@.len(),
            all == text::texts(bases@),
            text::texts(out@) == db_places_of(all.take(i as int), windows),
        decreases bases@.len() - i,
    {
        let ghost t = all.take(i + 1);
        assert(t.drop_last() == all.take(i as int));
        assert(t.last() == bases@[i as int]@);
        push_places(&mut out, bases[i].as_str(), windows);
        i = i + 1;
    }
    assert(all.take(i as int) == all);
    out
}

/// The places that exist, each where it stands first.
pub open spec fn present(places: Seq<(String, bool)>) -> Seq<Seq<char>>
    decreases places.len(),
{
    if places.len() == 0 {
        Seq::empty()
    } else {
        let before = present(places.drop_last());
        let (p, there) = places.last();
        if there && !before.contains(p@) {
            before.push(p@)
        } else {
            before
        }
    }
}

/// The databases of all installations, each once; for each place it is told whether it exists.
pub fn locate_db(places: &[(String, bool)]) -> (r: Vec<String>)
    ensures
        text::texts(r@) == present(places@),
{
    let mut out: Vec<String> = Vec::new();
    let mut i: usize = 0;
    while i < places.len()
        invariant
            i <= places@.len(),
            text::texts(out@) == present(places@.take(i as int)),
        decreases places@.len() - i,
    {
        let ghost t = places@.take(i + 1);
        let ghost before = out@;
        assert(t.drop_last() == places@.take(i as int));
        assert(t.last() == places@[i as int]);
        let seen = text::contains_text(out.as_slice(), places[i].0.as_str());
        assert(seen == text::texts(out@).contains(places@[i as int].0@)) by {
            let p = places@[i as int].0@;
            if text::has_text(out@, p) {
                let k = choose|k: int| 0 <= k < out@.len() && (#[trigger] out@[k])@ == p;
                assert(text::texts(out@)[k] == p);
            }
            if text::texts(out@).contains(p) {
                let k = choose|k: int| 0 <= k < out@.len() && text::texts(out@)[k] == p;
                assert(out@[k]@ == p);
            }
        }
        if places[i].1 && !seen {
            out.push(places[i].0.clone());
            assert(text::texts(out@) == text::texts(before).push(places@[i as int].0@));
        }
        i = i + 1;
    }
    assert(places@.take(i as int) == places@);
    out
}

// ---------------------------------------------------------------------------
// Laws
// ---------------------------------------------------------------------------

proof fn lemma_selections_lookup(
    m: Seq<(Seq<char>, JsonV)>,
    items: Seq<(Seq<char>, Seq<char>)>,
    label: Seq<char>,
)
    requires
        json::orderly(JsonV::Obj(m)),
    ensures
        (forall|j: int| 0 <= j < items.len() ==> (#[trigger] items[j]).0 != label)
            ==> json::lookup(with_selections(m, items), label) == json::lookup(m, label),
        forall|i: int|
            0 <= i < items.len() && (#[trigger] items[i]).0 == label && (forall|j: int|
                i < j < items.len() ==> (#[trigger] items[j]).0 != label) ==> json::lookup(
                with_selections(m, items),
                label,
            ) == Some(selected_view(items[i].1)),
    decreases items.len(),
{
    if items.len() > 0 {
        let short = items.drop_last();
        let before = with_selections(m, short);
        lemma_selections_lookup(m, short, label);
        lemma_selections_orderly(m, short);
        json::lemma_with_member(before, items.last().0, selected_view(items.last().1), label);
        assert forall|i: int|
            0 <= i < items.len() && (#[trigger] items[i]).0 == label && (forall|j: int|
                i < j < items.len() ==> (#[trigger] items[j]).0 != label) implies json::lookup(
            with_selections(m, items),
            label,
        ) == Some(selected_view(items[i].1)) by {
            if i < items.len() - 1 {
                assert(items[items.len() - 1].0 != label);
                assert(short[i] == items[i]);
                assert forall|j: int| i < j < short.len() implies (#[trigger] short[j]).0
                    != label by {
                    assert(items[j].0 != label);
                }
            }
        }
        if forall|j: int| 0 <= j < items.len() ==> (#[trigger] items[j]).0 != label {
            assert(items[items.len() - 1].0 != label);
            assert forall|j: int| 0 <= j < short.len() implies (#[trigger] short[j]).0
                != label by {
                assert(items[j].0 != label);
            }
        }
    }
}

/// A model that was selected under a label, and no other after it, is the one that the written
/// text selects.
pub proof fn law_written_is_selected(
    m: Seq<(Seq<char>, JsonV)>,
    items: Seq<(Seq<char>, Seq<char>)>,
    i: int,
    t: Seq<char>,
)
    requires
        json::orderly(JsonV::Obj(m)),
        0 <= i < items.len(),
        forall|j: int| i < j < items.len() ==> (#[trigger] items[j]).0 != items[i].0,
        json::parsed_json(t) == Some(JsonV::Obj(with_selections(m, items))),
    ensures
        selects(t, items[i].0, items[i].1),
{
    lemma_selections_lookup(m, items, items[i].0);
    let e = seq![("mode"@, JsonV::Int(0)), ("modelId"@, JsonV::Str(items[i].1))];
    assert(json::lookup(e, "modelId"@) == Some(JsonV::Str(items[i].1))) by {
        reveal_strlit("mode");
        reveal_strlit("modelId");
        assert("mode"@.len() != "modelId"@.len());
        let rest = e.subrange(1, 2);
        assert(rest[0].0 == "modelId"@);
        assert(json::lookup(rest, "modelId"@) == Some(JsonV::Str(items[i].1)));
    }
}

/// Selecting a model leaves all labels but its own alone.
pub proof fn law_other_labels_are_kept(
    m: Seq<(Seq<char>, JsonV)>,
    items: Seq<(Seq<char>, Seq<char>)>,
    label: Seq<char>,
)
    requires
        json::orderly(JsonV::Obj(m)),
        forall|j: int| 0 <= j < items.len() ==> (#[trigger] items[j]).0 != label,
    ensures
        json::lookup(with_selections(m, items), label) == json::lookup(m, label),
{
    lemma_selections_lookup(m, items, label);
}

/// Clearing leaves a value alone that names none of the models.
pub proof fn law_foreign_selection_is_kept(v: JsonV, ids: Seq<Seq<char>>)
    requires
        !mentions(v, ids),
    ensures
        scrubbed(v, ids) == v,
    decreases v,
{
    match v {
        JsonV::Arr(a) => {
            let b = scrubbed(v, ids)->Arr_0;
            assert forall|i: int| 0 <= i < a.len() implies b[i] == a[i] by {
                assert(!mentions(a[i], ids));
                law_foreign_selection_is_kept(a[i], ids);
            }
            assert(b =~= a);
        },
        JsonV::Obj(m) => {
            let n = scrubbed(v, ids)->Obj_0;
            assert forall|i: int| 0 <= i < m.len() implies n[i] == m[i] by {
                let e = m[i];
                assert(!names_model(e.0, e.1, ids) && !mentions(e.1, ids));
                law_foreign_selection_is_kept(e.1, ids);
            }
            assert(n =~= m);
        },
        _ => {},
    }
}

proof fn lemma_scrubbed_mentions_none(v: JsonV, ids: Seq<Seq<char>>)
    requires
        !ids.contains(""@),
    ensures
        !mentions(scrubbed(v, ids), ids),
    decreases v,
{
    match v {
        JsonV::Arr(a) => {
            let b = scrubbed(v, ids)->Arr_0;
            assert forall|i: int| 0 <= i < b.len() implies !mentions(#[trigger] b[i], ids) by {
                lemma_scrubbed_mentions_none(a[i], ids);
            }
        },
        JsonV::Obj(m) => {
            let n = scrubbed(v, ids)->Obj_0;
            assert forall|i: int| 0 <= i < n.len() implies !names_model(
                (#[trigger] n[i]).0,
                n[i].1,
                ids,
            ) && !mentions(n[i].1, ids) by {
                lemma_scrubbed_mentions_none(m[i].1, ids);
            }
        },
        _ => {},
    }
}

proof fn lemma_ids_are_not_empty(models: Seq<GatewayModelV>)
    ensures
        !selection_ids(models).contains(""@),
{
    let ids = selection_ids(models);
    reveal_strlit("");
    reveal_strlit("_");
    assert forall|i: int| 0 <= i < ids.len() implies ids[i] != ""@ by {
        assert(ids[i] == selection_id(models[i]));
        assert(ids[i].len() > 0);
    }
}

/// After clearing, nothing at any depth names one of the models, so that clearing once more
/// changes nothing.
pub proof fn law_cleared_names_nothing(v: JsonV, models: Seq<GatewayModelV>)
    ensures
        !mentions(scrubbed(v, selection_ids(models)), selection_ids(models)),
        scrubbed(scrubbed(v, selection_ids(models)), selection_ids(models)) == scrubbed(
            v,
            selection_ids(models),
        ),
{
    let ids = selection_ids(models);
    lemma_ids_are_not_empty(models);
    lemma_scrubbed_mentions_none(v, ids);
    law_foreign_selection_is_kept(scrubbed(v, ids), ids);
}

proof fn lemma_lookup_index(m: Seq<(Seq<char>, JsonV)>, key: Seq<char>)
    requires
        json::lookup(m, key) is Some,
    ensures
        exists|i: int| 0 <= i < m.len() && #[trigger] m[i] == (key, json::lookup(m, key)->0),
    decreases m.len(),
{
    if m.len() > 0 {
        if m[0].0 == key {
            assert(m[0] == (key, json::lookup(m, key)->0));
        } else {
            let rest = m.subrange(1, m.len() as int);
            lemma_lookup_index(rest, key);
            let i = choose|i: int|
                0 <= i < rest.len() && #[trigger] rest[i] == (key, json::lookup(rest, key)->0);
            assert(m[i + 1] == rest[i]);
        }
    }
}

/// A text that was cleared of the models selects none of them under any label.
pub proof fn law_cleared_is_not_selected(
    v: JsonV,
    models: Seq<GatewayModelV>,
    i: int,
    label: Seq<char>,
    t: Seq<char>,
)
    requires
        0 <= i < models.len(),
        json::parsed_json(t) == Some(scrubbed(v, selection_ids(models))),
    ensures
        !selects(t, label, selection_id(models[i])),
{
    let ids = selection_ids(models);
    let id = selection_id(models[i]);
    assert(ids[i] == id);
    assert(ids.contains(id));
    let w = scrubbed(v, ids);
    law_cleared_names_nothing(v, models);
    if selects(t, label, id) {
        let outer = w->Obj_0;
        lemma_lookup_index(outer, label);
        let a = choose|a: int|
            0 <= a < outer.len() && #[trigger] outer[a] == (label, json::lookup(outer, label)->0);
        let inner = outer[a].1->Obj_0;
        lemma_lookup_index(inner, "modelId"@);
        let b = choose|b: int|
            0 <= b < inner.len() && #[trigger] inner[b] == (
                "modelId"@,
                json::lookup(inner, "modelId"@)->0,
            );
        assert(names_model(inner[b].0, inner[b].1, ids));
        assert(mentions(outer[a].1, ids));
        assert(mentions(w, ids));
    }
}

} // verus!

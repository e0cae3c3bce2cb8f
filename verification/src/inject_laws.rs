//! Which models point to the gateway, and what selecting and clearing them writes.
use crate::checkin_laws::{has, lacks, lemma_member};
use crate::endpoint;
use crate::gateway;
use crate::inject;
use crate::inject::{Db, GatewayModelV, RowWrite};
use crate::json;
use crate::json::JsonV;
use crate::number;
use crate::paths;
use crate::place_laws;
use crate::realtime_laws;
use crate::text;
use vstd::prelude::*;
use vstd::string::*;

verus! {

// ---------------------------------------------------------------------------
// Finding the model
// ---------------------------------------------------------------------------

/// The endpoint of the gateway is at the local address, under the path for chat completions.
pub proof fn law_endpoint_of_the_gateway(port: u16)
    ensures
        inject::gateway_url(port) == endpoint::local_base(port) + "/v1/chat/completions"@,
        gateway::chat_target("/v1/chat/completions"@),
{
    reveal_strlit("/v1/chat/completions");
    let p = "/v1/chat/completions"@;
    assert(realtime_laws::free_of(p, '?'));
    realtime_laws::law_paths_of_chat_completions(p, p);
}

/// The entry of a personal model that points to the gateway: its address, its provider and its
/// source are as they have to be.
pub open spec fn points_here(m: JsonV, port: u16) -> bool {
    &&& has(m, "base_url"@, JsonV::Str(inject::gateway_url(port)))
    &&& has(m, "provider"@, JsonV::Str("custom_openai_compatible"@))
    &&& has(m, "config_source"@, JsonV::Int(3))
}

/// An entry is a model of the gateway exactly where it points here and has a name; the model holds
/// what the entry says, and where it was found.
pub proof fn law_which_entry_is_a_model(
    m: JsonV,
    port: u16,
    db: Seq<char>,
    key: Seq<char>,
    label: Seq<char>,
    name: Seq<char>,
    custom: Seq<char>,
)
    ensures
        ({
            let r = inject::model_of(m, port, db, key, label);
            &&& points_here(m, port) && has(m, "name"@, JsonV::Str(name)) ==> {
                &&& r is Some
                &&& r->0.db == db && r->0.key == key && r->0.label == label && r->0.name == name
                &&& r->0.provider == "custom_openai_compatible"@ && r->0.config_source == 3
                &&& r->0.base_url == inject::gateway_url(port)
                &&& has(m, "custom_model_id"@, JsonV::Str(custom)) && custom.len() > 0
                    ==> r->0.custom_model_id == Some(custom)
                &&& has(m, "custom_model_id"@, JsonV::Str(custom)) && custom.len() == 0
                    ==> r->0.custom_model_id is None
                &&& lacks(m, "custom_model_id"@) ==> r->0.custom_model_id is None
            }
            &&& !points_here(m, port) ==> r is None
            &&& lacks(m, "name"@) ==> r is None
        }),
{
    lemma_member(m, "base_url"@);
    lemma_member(m, "provider"@);
    lemma_member(m, "config_source"@);
    lemma_member(m, "name"@);
    lemma_member(m, "custom_model_id"@);
    crate::checkin_laws::law_first_member_counts(m, "base_url"@);
    crate::checkin_laws::law_first_member_counts(m, "provider"@);
    crate::checkin_laws::law_first_member_counts(m, "config_source"@);
}

/// The models of a list are those of its entries that are models, in their order.
pub proof fn law_models_of_a_list(
    a: Seq<JsonV>,
    port: u16,
    db: Seq<char>,
    key: Seq<char>,
    label: Seq<char>,
)
    ensures
        inject::list_models(a, port, db, key, label) == a.filter(
            |m: JsonV| inject::model_of(m, port, db, key, label) is Some,
        ).map_values(|m: JsonV| inject::model_of(m, port, db, key, label)->0),
    decreases a.len(),
{
    let is = |m: JsonV| inject::model_of(m, port, db, key, label) is Some;
    let to = |m: JsonV| inject::model_of(m, port, db, key, label)->0;
    reveal(Seq::filter);
    if a.len() > 0 {
        law_models_of_a_list(a.drop_last(), port, db, key, label);
    }
    assert(inject::list_models(a, port, db, key, label) =~= a.filter(is).map_values(to));
}

/// A model stands in a list exactly where one of its entries is that model.
pub proof fn lemma_in_list(
    a: Seq<JsonV>,
    port: u16,
    db: Seq<char>,
    key: Seq<char>,
    label: Seq<char>,
    g: GatewayModelV,
)
    ensures
        inject::list_models(a, port, db, key, label).contains(g) <==> exists|k: int|
            0 <= k < a.len() && inject::model_of(#[trigger] a[k], port, db, key, label) == Some(g),
    decreases a.len(),
{
    let r = inject::list_models(a, port, db, key, label);
    if a.len() > 0 {
        let rest = a.drop_last();
        let before = inject::list_models(rest, port, db, key, label);
        lemma_in_list(rest, port, db, key, label, g);
        lemma_grown(before, r, g);
        if before.contains(g) {
            let k = choose|k: int|
                0 <= k < rest.len() && inject::model_of(#[trigger] rest[k], port, db, key, label)
                    == Some(g);
            assert(a[k] == rest[k]);
        }
        if exists|k: int|
            0 <= k < a.len() && inject::model_of(#[trigger] a[k], port, db, key, label) == Some(
                g,
            ) {
            let k = choose|k: int|
                0 <= k < a.len() && inject::model_of(#[trigger] a[k], port, db, key, label) == Some(
                    g,
                );
            if k < rest.len() {
                assert(rest[k] == a[k]);
            } else {
                assert(r[r.len() - 1] == g);
            }
        }
        if r.contains(g) && !before.contains(g) {
            assert(a[a.len() - 1] == a.last());
        }
    }
}

/// What a list holds that has grown at its end: what it held, and what was added.
proof fn lemma_grown(before: Seq<GatewayModelV>, after: Seq<GatewayModelV>, g: GatewayModelV)
    requires
        before.is_prefix_of(after),
    ensures
        before.contains(g) ==> after.contains(g),
        after.contains(g) && !before.contains(g) ==> after.skip(before.len() as int).contains(g),
        after.skip(before.len() as int).contains(g) ==> after.contains(g),
{
    let tail = after.skip(before.len() as int);
    if before.contains(g) {
        let i = choose|i: int| 0 <= i < before.len() && before[i] == g;
        assert(after[i] == g);
    }
    if after.contains(g) && !before.contains(g) {
        let i = choose|i: int| 0 <= i < after.len() && after[i] == g;
        if i < before.len() {
            assert(before[i] == g);
        }
        assert(tail[i - before.len()] == g);
    }
    if tail.contains(g) {
        let i = choose|i: int| 0 <= i < tail.len() && tail[i] == g;
        assert(after[i + before.len()] == g);
    }
}

/// The models of a stored value are those in the lists under labels of local agents.
pub proof fn law_models_under_labels(
    m: Seq<(Seq<char>, JsonV)>,
    port: u16,
    db: Seq<char>,
    key: Seq<char>,
    g: GatewayModelV,
)
    ensures
        inject::label_models(m, port, db, key).contains(g) <==> exists|i: int|
            0 <= i < m.len() && inject::local_label((#[trigger] m[i]).0) && (m[i].1 is Arr)
                && inject::list_models(m[i].1->Arr_0, port, db, key, m[i].0).contains(g),
    decreases m.len(),
{
    let r = inject::label_models(m, port, db, key);
    if m.len() > 0 {
        let rest = m.drop_last();
        let before = inject::label_models(rest, port, db, key);
        law_models_under_labels(rest, port, db, key, g);
        let n = m.len() - 1;
        let took = inject::local_label(m[n].0) && m[n].1 is Arr;
        let added = inject::list_models(m[n].1->Arr_0, port, db, key, m[n].0);
        if took {
            assert(r.skip(before.len() as int) =~= added);
        }
        lemma_grown(before, r, g);
        if before.contains(g) {
            let i = choose|i: int|
                0 <= i < rest.len() && inject::local_label((#[trigger] rest[i]).0) && (rest[i].1
                    is Arr) && inject::list_models(rest[i].1->Arr_0, port, db, key, rest[i].0)
                    .contains(g);
            assert(m[i] == rest[i]);
        }
        if exists|i: int|
            0 <= i < m.len() && inject::local_label((#[trigger] m[i]).0) && (m[i].1 is Arr)
                && inject::list_models(m[i].1->Arr_0, port, db, key, m[i].0).contains(g) {
            let i = choose|i: int|
                0 <= i < m.len() && inject::local_label((#[trigger] m[i]).0) && (m[i].1 is Arr)
                    && inject::list_models(m[i].1->Arr_0, port, db, key, m[i].0).contains(g);
            if i < n {
                assert(rest[i] == m[i]);
            }
        }
        if r.contains(g) && !before.contains(g) {
            assert(took && added.contains(g));
            assert(inject::local_label(m[n].0));
        }
    }
}

/// A label is not local where it speaks of a remote agent.
pub proof fn law_remote_labels_are_left_out(label: Seq<char>, a: Seq<char>, b: Seq<char>)
    ensures
        text::lowercase(label) == a + "remote"@ + b ==> !inject::local_label(label),
        !text::contains(text::lowercase(label), "remote"@) ==> inject::local_label(label),
{
    let s = a + "remote"@ + b;
    text::lemma_contains(s, "remote"@);
    assert(s.subrange(a.len() as int, (a.len() + "remote"@.len()) as int) =~= "remote"@);
    assert(text::occurs_at(s, "remote"@, a.len() as int));
}

/// The models of a database are those of its rows that hold an object; a row that cannot be read, or
/// holds something else, has none.
pub proof fn law_models_of_a_database(
    rows: Seq<(String, Option<String>)>,
    port: u16,
    db: Seq<char>,
    g: GatewayModelV,
)
    ensures
        inject::db_models(rows, port, db).contains(g) <==> exists|i: int|
            0 <= i < rows.len() && {
                let v = (#[trigger] rows[i]).1;
                &&& v is Some
                &&& json::parsed_json(v->0@) is Some
                &&& json::parsed_json(v->0@)->0 is Obj
                &&& inject::label_models(
                    json::parsed_json(v->0@)->0->Obj_0,
                    port,
                    db,
                    rows[i].0@,
                ).contains(g)
            },
    decreases rows.len(),
{
    let r = inject::db_models(rows, port, db);
    if rows.len() > 0 {
        let rest = rows.drop_last();
        let before = inject::db_models(rest, port, db);
        law_models_of_a_database(rest, port, db, g);
        let n = rows.len() - 1;
        let added = inject::row_models(text::opt_text(rows[n].1), port, db, rows[n].0@);
        assert(r.skip(before.len() as int) =~= added);
        lemma_grown(before, r, g);
        assert forall|i: int| 0 <= i < rest.len() implies rest[i] == #[trigger] rows[i] by {}
        if before.contains(g) {
            let i = choose|i: int|
                0 <= i < rest.len() && {
                    let v = (#[trigger] rest[i]).1;
                    &&& v is Some
                    &&& json::parsed_json(v->0@) is Some
                    &&& json::parsed_json(v->0@)->0 is Obj
                    &&& inject::label_models(
                        json::parsed_json(v->0@)->0->Obj_0,
                        port,
                        db,
                        rest[i].0@,
                    ).contains(g)
                };
            assert(rows[i] == rest[i]);
        }
        if exists|i: int|
            0 <= i < rows.len() && {
                let v = (#[trigger] rows[i]).1;
                &&& v is Some
                &&& json::parsed_json(v->0@) is Some
                &&& json::parsed_json(v->0@)->0 is Obj
                &&& inject::label_models(
                    json::parsed_json(v->0@)->0->Obj_0,
                    port,
                    db,
                    rows[i].0@,
                ).contains(g)
            } {
            let i = choose|i: int|
                0 <= i < rows.len() && {
                    let v = (#[trigger] rows[i]).1;
                    &&& v is Some
                    &&& json::parsed_json(v->0@) is Some
                    &&& json::parsed_json(v->0@)->0 is Obj
                    &&& inject::label_models(
                        json::parsed_json(v->0@)->0->Obj_0,
                        port,
                        db,
                        rows[i].0@,
                    ).contains(g)
                };
            if i < n {
                assert(rest[i] == rows[i]);
            }
        }
        if r.contains(g) && !before.contains(g) {
            assert(added.contains(g));
            assert(rows[n].1 is Some);
        }
    }
}

/// The models that are found are those of all databases.
pub proof fn law_models_of_all_databases(dbs: Seq<Db>, port: u16, g: GatewayModelV)
    ensures
        inject::all_models(dbs, port).contains(g) <==> exists|d: int|
            0 <= d < dbs.len() && inject::db_models(
                (#[trigger] dbs[d]).model_lists@,
                port,
                dbs[d].path@,
            ).contains(g),
    decreases dbs.len(),
{
    let r = inject::all_models(dbs, port);
    if dbs.len() > 0 {
        let rest = dbs.drop_last();
        let before = inject::all_models(rest, port);
        law_models_of_all_databases(rest, port, g);
        let n = dbs.len() - 1;
        let added = inject::db_models(dbs[n].model_lists@, port, dbs[n].path@);
        assert(r.skip(before.len() as int) =~= added);
        lemma_grown(before, r, g);
        assert forall|i: int| 0 <= i < rest.len() implies rest[i] == #[trigger] dbs[i] by {}
        if before.contains(g) {
            let i = choose|i: int|
                0 <= i < rest.len() && inject::db_models(
                    (#[trigger] rest[i]).model_lists@,
                    port,
                    rest[i].path@,
                ).contains(g);
            assert(dbs[i] == rest[i]);
        }
        if exists|d: int|
            0 <= d < dbs.len() && inject::db_models(
                (#[trigger] dbs[d]).model_lists@,
                port,
                dbs[d].path@,
            ).contains(g) {
            let i = choose|d: int|
                0 <= d < dbs.len() && inject::db_models(
                    (#[trigger] dbs[d]).model_lists@,
                    port,
                    dbs[d].path@,
                ).contains(g);
            if i < n {
                assert(rest[i] == dbs[i]);
            }
        }
    }
}

/// The id of a model joins its label, source, provider and name by underscores, and then its own id
/// where it has one.
pub proof fn law_id_of_a_model(m: GatewayModelV, custom: Seq<char>)
    ensures
        m.custom_model_id is None ==> inject::selection_id(m) == text::glued(
            seq![m.label, number::decimal(m.config_source as nat), m.provider, m.name],
            "_"@,
        ),
        m.custom_model_id == Some(custom) && custom.len() > 0 ==> inject::selection_id(m)
            == text::glued(
            seq![m.label, number::decimal(m.config_source as nat), m.provider, m.name, custom],
            "_"@,
        ),
{
    let n = number::decimal(m.config_source as nat);
    let one = seq![m.label];
    let two = seq![m.label, n];
    let three = seq![m.label, n, m.provider];
    let four = seq![m.label, n, m.provider, m.name];
    let five = seq![m.label, n, m.provider, m.name, custom];
    assert(two.drop_last() =~= one);
    assert(three.drop_last() =~= two);
    assert(four.drop_last() =~= three);
    assert(five.drop_last() =~= four);
    let u = "_"@;
    assert(text::glued(one, u) == m.label);
    assert(text::glued(two, u) == m.label + u + n);
    assert(text::glued(three, u) == m.label + u + n + u + m.provider);
    assert(text::glued(four, u) == m.label + u + n + u + m.provider + u + m.name);
    assert(text::glued(five, u) == text::glued(four, u) + u + custom);
}

// ---------------------------------------------------------------------------
// Selecting
// ---------------------------------------------------------------------------

/// The entry of a selected model names it.
pub proof fn law_entry_of_a_selection(id: Seq<char>)
    ensures
        has(inject::selected_view(id), "modelId"@, JsonV::Str(id)),
        has(inject::selected_view(id), "mode"@, JsonV::Int(0)),
{
    reveal_strlit("mode");
    reveal_strlit("modelId");
    assert("mode"@.len() == 4);
    assert("modelId"@.len() == 7);
    let m = inject::selected_view(id)->Obj_0;
    assert(m[0] == ("mode"@, JsonV::Int(0)));
    assert(m[1] == ("modelId"@, JsonV::Str(id)));
}

/// Of the models of one database the label and the id are written, in their order.
pub proof fn law_what_is_selected_in_a_database(models: Seq<GatewayModelV>, db: Seq<char>)
    ensures
        inject::db_items(models, db) == models.filter(
            |m: GatewayModelV| m.db == db,
        ).map_values(|m: GatewayModelV| (m.label, inject::selection_id(m))),
    decreases models.len(),
{
    let here = |m: GatewayModelV| m.db == db;
    let item = |m: GatewayModelV| (m.label, inject::selection_id(m));
    reveal(Seq::filter);
    if models.len() > 0 {
        law_what_is_selected_in_a_database(models.drop_last(), db);
    }
    assert(inject::db_items(models, db) =~= models.filter(here).map_values(item));
}

/// What is stored is changed where it is an object, begun anew where it cannot be read, and left
/// alone where it is anything else.
pub proof fn law_what_selections_start_from(m: Seq<(Seq<char>, JsonV)>, v: JsonV)
    ensures
        inject::stored_members(Some(JsonV::Obj(m))) == Some(m),
        inject::stored_members(None) == Some(Seq::<(Seq<char>, JsonV)>::empty()),
        v !is Obj ==> inject::stored_members(Some(v)) is None,
{
}

/// A write puts the selections of a database into one of its rows.
pub open spec fn puts(
    w: RowWrite,
    db: Seq<char>,
    row: (String, String),
    items: Seq<(Seq<char>, Seq<char>)>,
) -> bool {
    &&& w.db@ == db
    &&& w.key@ == row.0@
    &&& inject::stored_members(json::parsed_json(row.1@)) is Some
    &&& inject::writes_tree(
        w.value@,
        JsonV::Obj(
            inject::with_selections(
                inject::stored_members(json::parsed_json(row.1@))->0,
                items,
            ),
        ),
    )
}

/// Every row of recent selections of every database with a model is written, with all models of
/// that database selected; nothing else is written.
pub proof fn law_what_selecting_writes(
    writes: Seq<RowWrite>,
    dbs: Seq<Db>,
    models: Seq<GatewayModelV>,
    d: int,
    i: int,
    w: int,
)
    requires
        inject::writes_all(writes, dbs, models),
    ensures
        0 <= d < dbs.len() && inject::db_items(models, dbs[d].path@).len() > 0 && 0 <= i
            < dbs[d].recent@.len() ==> exists|k: int|
            0 <= k < writes.len() && puts(
                #[trigger] writes[k],
                dbs[d].path@,
                dbs[d].recent@[i],
                inject::db_items(models, dbs[d].path@),
            ),
        0 <= w < writes.len() ==> exists|e: int, j: int|
            0 <= e < dbs.len() && inject::db_items(models, dbs[e].path@).len() > 0 && 0 <= j
                < dbs[e].recent@.len() && puts(
                writes[w],
                dbs[e].path@,
                #[trigger] dbs[e].recent@[j],
                inject::db_items(models, dbs[e].path@),
            ),
    decreases dbs.len(),
{
    if dbs.len() > 0 {
        let rest = dbs.drop_last();
        let last = dbs.last();
        let items = inject::db_items(models, last.path@);
        let n = if items.len() == 0 {
            0
        } else {
            last.recent@.len() as int
        };
        let p = writes.len() - n;
        let head = writes.subrange(0, p);
        let tail = writes.subrange(p, writes.len() as int);
        law_what_selecting_writes(head, rest, models, d, i, w);
        if 0 <= d < dbs.len() && inject::db_items(models, dbs[d].path@).len() > 0 && 0 <= i
            < dbs[d].recent@.len() {
            if d < rest.len() {
                assert(rest[d] == dbs[d]);
                let k = choose|k: int|
                    0 <= k < head.len() && puts(
                        #[trigger] head[k],
                        rest[d].path@,
                        rest[d].recent@[i],
                        inject::db_items(models, rest[d].path@),
                    );
                assert(writes[k] == head[k]);
            } else {
                assert(tail[i] == writes[p + i]);
                assert(puts(writes[p + i], last.path@, last.recent@[i], items));
            }
        }
        if 0 <= w < writes.len() {
            if w < p {
                assert(head[w] == writes[w]);
                let (e, j) = choose|e: int, j: int|
                    0 <= e < rest.len() && inject::db_items(models, rest[e].path@).len() > 0 && 0
                        <= j < rest[e].recent@.len() && puts(
                        head[w],
                        rest[e].path@,
                        #[trigger] rest[e].recent@[j],
                        inject::db_items(models, rest[e].path@),
                    );
                assert(dbs[e] == rest[e]);
                assert(puts(
                    writes[w],
                    dbs[e].path@,
                    dbs[e].recent@[j],
                    inject::db_items(models, dbs[e].path@),
                ));
            } else {
                let e = dbs.len() - 1;
                assert(tail[w - p] == writes[w]);
                assert(puts(
                    writes[w],
                    dbs[e].path@,
                    dbs[e].recent@[w - p],
                    inject::db_items(models, dbs[e].path@),
                ));
            }
        }
    }
}

// ---------------------------------------------------------------------------
// Clearing
// ---------------------------------------------------------------------------

/// Clearing an object keeps its names and their order: a `modelId` that is one of the models becomes
/// empty, every other member is cleared inside. Clearing a list clears its elements; nothing else
/// changes.
pub proof fn law_what_clearing_changes(
    m: Seq<(Seq<char>, JsonV)>,
    a: Seq<JsonV>,
    v: JsonV,
    ids: Seq<Seq<char>>,
    i: int,
)
    ensures
        inject::scrubbed(JsonV::Obj(m), ids) is Obj,
        inject::scrubbed(JsonV::Arr(a), ids) is Arr,
        inject::scrubbed(JsonV::Obj(m), ids)->Obj_0.len() == m.len(),
        inject::scrubbed(JsonV::Arr(a), ids)->Arr_0.len() == a.len(),
        0 <= i < a.len() ==> inject::scrubbed(JsonV::Arr(a), ids)->Arr_0[i] == inject::scrubbed(
            a[i],
            ids,
        ),
        0 <= i < m.len() ==> {
            let e = inject::scrubbed(JsonV::Obj(m), ids)->Obj_0[i];
            &&& e.0 == m[i].0
            &&& m[i].0 == "modelId"@ && m[i].1 is Str && ids.contains(m[i].1->Str_0) ==> e.1
                == JsonV::Str(""@)
            &&& m[i].0 != "modelId"@ || m[i].1 !is Str || !ids.contains(m[i].1->Str_0) ==> e.1
                == inject::scrubbed(m[i].1, ids)
        },
        v !is Obj && v !is Arr ==> inject::scrubbed(v, ids) == v,
{
}

/// A value names a model where a `modelId` at some depth is one of the models.
pub proof fn law_what_names_a_model(
    m: Seq<(Seq<char>, JsonV)>,
    a: Seq<JsonV>,
    v: JsonV,
    ids: Seq<Seq<char>>,
    i: int,
    s: Seq<char>,
)
    ensures
        0 <= i < m.len() && m[i] == ("modelId"@, JsonV::Str(s)) && ids.contains(s)
            ==> inject::mentions(JsonV::Obj(m), ids),
        0 <= i < m.len() && inject::mentions(m[i].1, ids) ==> inject::mentions(JsonV::Obj(m), ids),
        0 <= i < a.len() && inject::mentions(a[i], ids) ==> inject::mentions(JsonV::Arr(a), ids),
        v !is Obj && v !is Arr ==> !inject::mentions(v, ids),
        (forall|k: int|
            0 <= k < m.len() ==> !inject::mentions((#[trigger] m[k]).1, ids) && (m[k].0
                != "modelId"@ || m[k].1 !is Str || !ids.contains(m[k].1->Str_0)))
            ==> !inject::mentions(JsonV::Obj(m), ids),
{
    if 0 <= i < a.len() && inject::mentions(a[i], ids) {
        lemma_item_named(a, ids, i);
    }
    if 0 <= i < m.len() && inject::mentions(m[i].1, ids) {
        lemma_member_named(m, ids, i);
    }
    if 0 <= i < m.len() && m[i] == ("modelId"@, JsonV::Str(s)) && ids.contains(s) {
        lemma_member_named(m, ids, i);
    }
}

proof fn lemma_item_named(a: Seq<JsonV>, ids: Seq<Seq<char>>, i: int)
    requires
        0 <= i < a.len(),
        inject::mentions(a[i], ids),
    ensures
        inject::mentions(JsonV::Arr(a), ids),
{
    let w = JsonV::Arr(a);
    assert(w->Arr_0[i] == a[i]);
    assert(exists|k: int| 0 <= k < a.len() && inject::mentions(#[trigger] a[k], ids));
}

proof fn lemma_member_named(m: Seq<(Seq<char>, JsonV)>, ids: Seq<Seq<char>>, i: int)
    requires
        0 <= i < m.len(),
        inject::names_model(m[i].0, m[i].1, ids) || inject::mentions(m[i].1, ids),
    ensures
        inject::mentions(JsonV::Obj(m), ids),
{
    let w = JsonV::Obj(m);
    assert(w->Obj_0[i] == m[i]);
    assert(exists|k: int|
        0 <= k < m.len() && (inject::names_model((#[trigger] m[k]).0, m[k].1, ids)
            || inject::mentions(m[k].1, ids)));
}

/// Exactly the selections that name a model are cleared, in their order, and the databases with such
/// a selection are counted.
pub proof fn law_which_selections_are_cleared(
    rows: Seq<(String, String)>,
    dbs: Seq<Db>,
    ids: Seq<Seq<char>>,
)
    ensures
        inject::named_rows(rows, ids) == rows.filter(
            |r: (String, String)|
                json::parsed_json(r.1@) is Some && inject::mentions(
                    json::parsed_json(r.1@)->0,
                    ids,
                ),
        ),
        inject::named_dbs(dbs, ids) == dbs.filter(
            |d: Db| inject::named_rows(d.selections@, ids).len() > 0,
        ).len(),
{
    lemma_named_rows(rows, ids);
    lemma_named_dbs(dbs, ids);
}

proof fn lemma_named_rows(rows: Seq<(String, String)>, ids: Seq<Seq<char>>)
    ensures
        inject::named_rows(rows, ids) == rows.filter(
            |r: (String, String)|
                json::parsed_json(r.1@) is Some && inject::mentions(
                    json::parsed_json(r.1@)->0,
                    ids,
                ),
        ),
    decreases rows.len(),
{
    let named = |r: (String, String)|
        json::parsed_json(r.1@) is Some && inject::mentions(json::parsed_json(r.1@)->0, ids);
    reveal(Seq::filter);
    if rows.len() > 0 {
        lemma_named_rows(rows.drop_last(), ids);
    }
    assert(inject::named_rows(rows, ids) =~= rows.filter(named));
}

proof fn lemma_named_dbs(dbs: Seq<Db>, ids: Seq<Seq<char>>)
    ensures
        inject::named_dbs(dbs, ids) == dbs.filter(
            |d: Db| inject::named_rows(d.selections@, ids).len() > 0,
        ).len(),
    decreases dbs.len(),
{
    reveal(Seq::filter);
    if dbs.len() > 0 {
        lemma_named_dbs(dbs.drop_last(), ids);
    }
}

/// A write clears one row of a database.
pub open spec fn wipes(
    w: RowWrite,
    db: Seq<char>,
    row: (String, String),
    ids: Seq<Seq<char>>,
) -> bool {
    &&& w.db@ == db
    &&& w.key@ == row.0@
    &&& inject::writes_tree(
        w.value@,
        inject::scrubbed(json::parsed_json(row.1@)->0, ids),
    )
}

/// Every selection that names a model is written with the name emptied; nothing else is written.
pub proof fn law_what_clearing_writes(
    writes: Seq<RowWrite>,
    dbs: Seq<Db>,
    ids: Seq<Seq<char>>,
    d: int,
    i: int,
    w: int,
)
    requires
        inject::clears_all(writes, dbs, ids),
    ensures
        0 <= d < dbs.len() && 0 <= i < inject::named_rows(dbs[d].selections@, ids).len()
            ==> exists|k: int|
            0 <= k < writes.len() && wipes(
                #[trigger] writes[k],
                dbs[d].path@,
                inject::named_rows(dbs[d].selections@, ids)[i],
                ids,
            ),
        0 <= w < writes.len() ==> exists|e: int, j: int|
            0 <= e < dbs.len() && 0 <= j < inject::named_rows(dbs[e].selections@, ids).len()
                && wipes(
                writes[w],
                dbs[e].path@,
                #[trigger] inject::named_rows(dbs[e].selections@, ids)[j],
                ids,
            ),
    decreases dbs.len(),
{
    if dbs.len() > 0 {
        let rest = dbs.drop_last();
        let last = dbs.last();
        let rows = inject::named_rows(last.selections@, ids);
        let p = writes.len() - rows.len();
        let head = writes.subrange(0, p);
        let tail = writes.subrange(p, writes.len() as int);
        law_what_clearing_writes(head, rest, ids, d, i, w);
        if 0 <= d < dbs.len() && 0 <= i < inject::named_rows(dbs[d].selections@, ids).len() {
            if d < rest.len() {
                assert(rest[d] == dbs[d]);
                let k = choose|k: int|
                    0 <= k < head.len() && wipes(
                        #[trigger] head[k],
                        rest[d].path@,
                        inject::named_rows(rest[d].selections@, ids)[i],
                        ids,
                    );
                assert(writes[k] == head[k]);
            } else {
                assert(tail[i] == writes[p + i]);
                assert(wipes(writes[p + i], last.path@, rows[i], ids));
            }
        }
        if 0 <= w < writes.len() {
            if w < p {
                assert(head[w] == writes[w]);
                let (e, j) = choose|e: int, j: int|
                    0 <= e < rest.len() && 0 <= j < inject::named_rows(
                        rest[e].selections@,
                        ids,
                    ).len() && wipes(
                        head[w],
                        rest[e].path@,
                        #[trigger] inject::named_rows(rest[e].selections@, ids)[j],
                        ids,
                    );
                assert(dbs[e] == rest[e]);
                assert(wipes(
                    writes[w],
                    dbs[e].path@,
                    inject::named_rows(dbs[e].selections@, ids)[j],
                    ids,
                ));
            } else {
                let e = dbs.len() - 1;
                assert(tail[w - p] == writes[w]);
                assert(wipes(
                    writes[w],
                    dbs[e].path@,
                    inject::named_rows(dbs[e].selections@, ids)[w - p],
                    ids,
                ));
            }
        }
    }
}

// ---------------------------------------------------------------------------
// Status and places
// ---------------------------------------------------------------------------

/// A stored text selects a model exactly where the entry under its label has its id.
pub proof fn law_what_selects_a_model(
    t: Seq<char>,
    v: JsonV,
    e: JsonV,
    label: Seq<char>,
    id: Seq<char>,
    other: Seq<char>,
)
    requires
        json::parsed_json(t) == Some(v),
    ensures
        has(v, label, e) && has(e, "modelId"@, JsonV::Str(other)) ==> (inject::selects(
            t,
            label,
            id,
        ) <==> other == id),
        lacks(v, label) ==> !inject::selects(t, label, id),
        has(v, label, e) && lacks(e, "modelId"@) ==> !inject::selects(t, label, id),
{
    lemma_member(v, label);
    lemma_member(e, "modelId"@);
}

/// A model is selected exactly where a row of its own database selects its id under its label.
pub proof fn law_when_a_model_is_selected(dbs: Seq<Db>, m: GatewayModelV)
    ensures
        inject::model_selected(dbs, m) <==> exists|d: int, i: int|
            0 <= d < dbs.len() && 0 <= i < dbs[d].recent@.len() && dbs[d].path@ == m.db
                && inject::selects(
                (#[trigger] dbs[d].recent@[i]).1@,
                m.label,
                inject::selection_id(m),
            ),
{
    if inject::model_selected(dbs, m) {
        let d = choose|d: int|
            0 <= d < dbs.len() && (#[trigger] dbs[d]).path@ == m.db && inject::selected_in(
                dbs[d].recent@,
                m.label,
                inject::selection_id(m),
            );
        let i = choose|i: int|
            0 <= i < dbs[d].recent@.len() && inject::selects(
                (#[trigger] dbs[d].recent@[i]).1@,
                m.label,
                inject::selection_id(m),
            );
        assert(inject::selects(dbs[d].recent@[i].1@, m.label, inject::selection_id(m)));
    }
    if exists|d: int, i: int|
        0 <= d < dbs.len() && 0 <= i < dbs[d].recent@.len() && dbs[d].path@ == m.db
            && inject::selects(
            (#[trigger] dbs[d].recent@[i]).1@,
            m.label,
            inject::selection_id(m),
        ) {
        let (d, i) = choose|d: int, i: int|
            0 <= d < dbs.len() && 0 <= i < dbs[d].recent@.len() && dbs[d].path@ == m.db
                && inject::selects(
                (#[trigger] dbs[d].recent@[i]).1@,
                m.label,
                inject::selection_id(m),
            );
        assert(inject::selected_in(dbs[d].recent@, m.label, inject::selection_id(m)));
    }
}

/// A database is the file `User/globalStorage/state.vscdb` below the directory of an installation.
pub proof fn law_where_a_database_is(base: Seq<char>, app: Seq<char>)
    requires
        place_laws::plain_dir(base),
        place_laws::plain_name(app),
    ensures
        inject::db_place(base, app, false) == base + "/"@ + app
            + "/User/globalStorage/state.vscdb"@,
        inject::db_place(base, app, true) == base + "\\"@ + app
            + "\\User\\globalStorage\\state.vscdb"@,
{
    reveal_strlit("\\");
    reveal_strlit("/");
    reveal_strlit("User");
    reveal_strlit("globalStorage");
    reveal_strlit("state.vscdb");
    reveal_strlit("/User/globalStorage/state.vscdb");
    reveal_strlit("\\User\\globalStorage\\state.vscdb");
    let a = base + "/"@ + app;
    assert(a.last() == app[app.len() - 1]);
    let b = a + "/"@ + "User"@;
    assert(b.last() == 'r');
    let c = b + "/"@ + "globalStorage"@;
    assert(c.last() == 'e');
    assert(c + "/"@ + "state.vscdb"@ =~= base + "/"@ + app + "/User/globalStorage/state.vscdb"@);
    assert(paths::prefix_len("User"@) == 0);
    assert(paths::prefix_len("globalStorage"@) == 0);
    assert(paths::prefix_len("state.vscdb"@) == 0);
    assert(paths::prefix_len(app) == 0) by {
        assert(app[0] != '/');
        if app.len() > 1 {
            assert(app[1] != ':');
        }
    }
    let x = base + "\\"@ + app;
    assert(x.last() == app[app.len() - 1]);
    assert(paths::joined(base, app, true) == x);
    let y = x + "\\"@ + "User"@;
    assert(y.last() == 'r');
    assert(paths::joined(x, "User"@, true) == y);
    let z = y + "\\"@ + "globalStorage"@;
    assert(z.last() == 'e');
    assert(paths::joined(y, "globalStorage"@, true) == z);
    assert(z + "\\"@ + "state.vscdb"@ =~= base + "\\"@ + app
        + "\\User\\globalStorage\\state.vscdb"@);
}

/// The databases are looked for below each directory in turn, under each name in turn.
pub proof fn law_order_of_databases(bases: Seq<Seq<char>>, windows: bool, i: int, j: int)
    requires
        0 <= i < bases.len(),
        0 <= j < 5,
    ensures
        inject::db_places_of(bases, windows).len() == 5 * bases.len(),
        inject::db_places_of(bases, windows)[5 * i + j] == inject::db_place(
            bases[i],
            endpoint::names()[j],
            windows,
        ),
    decreases bases.len(),
{
    let rest = bases.drop_last();
    if rest.len() > 0 {
        law_order_of_databases(
            rest,
            windows,
            if i < rest.len() {
                i
            } else {
                0
            },
            j,
        );
    } else {
        assert(inject::db_places_of(rest, windows).len() == 0);
    }
}

/// The databases that are used are those that exist, each once.
pub proof fn law_which_databases_are_used(places: Seq<(String, bool)>, p: Seq<char>)
    ensures
        inject::present(places).contains(p) <==> exists|i: int|
            0 <= i < places.len() && (#[trigger] places[i]).0@ == p && places[i].1,
        inject::present(places).no_duplicates(),
    decreases places.len(),
{
    let r = inject::present(places);
    if places.len() > 0 {
        let rest = places.drop_last();
        let before = inject::present(rest);
        law_which_databases_are_used(rest, p);
        let n = places.len() - 1;
        let q = places[n].0@;
        law_which_databases_are_used(rest, q);
        assert(before.is_prefix_of(r));
        if before.contains(p) {
            let k = choose|k: int| 0 <= k < before.len() && before[k] == p;
            assert(r[k] == p);
            let i = choose|i: int|
                0 <= i < rest.len() && (#[trigger] rest[i]).0@ == p && rest[i].1;
            assert(places[i] == rest[i]);
        }
        if r.contains(p) && !before.contains(p) {
            let k = choose|k: int| 0 <= k < r.len() && r[k] == p;
            if k < before.len() {
                assert(before[k] == p);
            }
            assert(places[n].0@ == p && places[n].1);
        }
        if exists|i: int| 0 <= i < places.len() && (#[trigger] places[i]).0@ == p && places[i].1 {
            let i = choose|i: int|
                0 <= i < places.len() && (#[trigger] places[i]).0@ == p && places[i].1;
            if i < n {
                assert(rest[i] == places[i]);
            } else if !before.contains(q) {
                assert(r[r.len() - 1] == p);
            }
        }
        assert(r.no_duplicates()) by {
            assert forall|a: int, b: int|
                0 <= a < r.len() && 0 <= b < r.len() && a != b implies r[a] != r[b] by {
                if a < before.len() && b < before.len() {
                    assert(before[a] != before[b]);
                } else if a < before.len() {
                    assert(before.contains(before[a]));
                } else {
                    assert(before.contains(before[b]));
                }
            }
        }
    }
}

/// What is said where TraeWork runs, and nothing is written.
pub proof fn law_words_while_traework_runs()
    ensures
        inject::select_running_words()
            == "TraeWork 正在运行，无法写入选中记录（运行时写入会在退出时被覆盖）。请先关闭 TraeWork 后重试。"@,
        inject::clear_running_words()
            == "TraeWork 正在运行，无法写入选中记录（运行时写入会被覆盖）。请先关闭 TraeWork 后重试。"@,
{
}

} // verus!

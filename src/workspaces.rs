use std::collections::HashMap;
use vstd::prelude::*;
use crate::config::{decls_view, opt_chars, WorkspaceDecl, WorkspaceInfoConfig};
use crate::error::HyprError;
use crate::json::{
    fields_view, items_view, lemma_array_view, lemma_object_view, put, put_field, Json,
    JsonNumber, JsonView,
};

verus! {

// Which workspaces the monitors show.

/// The (workspace id, active) entries that one monitor contributes: its
/// special workspace, where it has one, is shown and active; its active
/// workspace is shown, and active when the monitor is focused.
pub open spec fn monitor_entries(m: JsonView) -> Option<Seq<(i64, bool)>> {
    let active = match m.field("activeWorkspace"@) {
        Some(a) => a.i64_at("id"@),
        None => None,
    };
    let special = match m.field("specialWorkspace"@) {
        Some(a) => a.i64_at("id"@),
        None => None,
    };
    match (active, m.bool_at("focused"@)) {
        (Some(a), Some(f)) => Some(special_entry(special) + seq![(a, f)]),
        _ => None,
    }
}

pub open spec fn special_entry(special: Option<i64>) -> Seq<(i64, bool)> {
    match special {
        Some(s) => if s != 0 {
            seq![(s, true)]
        } else {
            seq![]
        },
        None => seq![],
    }
}

/// The entries of all monitors, in order; `None` where one lacks a field.
pub open spec fn shown_entries(ms: Seq<JsonView>) -> Option<Seq<(i64, bool)>>
    decreases ms.len(),
{
    if ms.len() == 0 {
        Some(seq![])
    } else {
        match (shown_entries(ms.drop_last()), monitor_entries(ms.last())) {
            (Some(e), Some(p)) => Some(e + p),
            _ => None,
        }
    }
}

pub open spec fn shown_table(monitors: JsonView) -> Option<Seq<(i64, bool)>> {
    match monitors {
        JsonView::Array(ms) => shown_entries(ms),
        _ => None,
    }
}

/// The map from workspace id to whether it is active that the entries build
/// when inserted in order: a later entry for an id replaces an earlier one.
pub open spec fn shown_map(t: Seq<(i64, bool)>) -> Map<i64, bool>
    decreases t.len(),
{
    if t.len() == 0 {
        Map::empty()
    } else {
        shown_map(t.drop_last()).insert(t.last().0, t.last().1)
    }
}

/// What the map says of workspace `id`.
pub open spec fn shown_in(m: Map<i64, bool>, id: i64) -> Option<bool> {
    if m.contains_key(id) {
        Some(m[id])
    } else {
        None
    }
}

// Which live workspaces are kept, and what they gain.

pub open spec fn keep_workspace(
    w: JsonView,
    on_monitor: Option<Seq<char>>,
    special: Option<bool>,
) -> bool {
    (match on_monitor {
        Some(m) => w.str_at("monitor"@) == Some(m),
        None => true,
    }) && (match special {
        Some(s) => match w.i64_at("id"@) {
            Some(i) => (i < 0) == s,
            None => false,
        },
        None => true,
    })
}

pub open spec fn mark_fields(fs: Seq<(Seq<char>, JsonView)>, shown: Option<bool>) -> Seq<
    (Seq<char>, JsonView),
> {
    put(
        put(
            put(fs, "shown"@, JsonView::Bool(shown is Some)),
            "active"@,
            JsonView::Bool(
                match shown {
                    Some(b) => b,
                    None => false,
                },
            ),
        ),
        "exists"@,
        JsonView::Bool(true),
    )
}

pub open spec fn decl_matches(d: WorkspaceDecl, id: i64, name: Seq<char>, by_id: bool) -> bool {
    if by_id {
        d.id == Some(id)
    } else {
        d.name == Some(name)
    }
}

/// `i` is the first declaration not yet consumed that matches.
pub open spec fn is_first_free(
    cfg: Seq<WorkspaceDecl>,
    used: Seq<bool>,
    id: i64,
    name: Seq<char>,
    by_id: bool,
    i: int,
) -> bool {
    0 <= i < cfg.len() && !used[i] && decl_matches(cfg[i], id, name, by_id) && forall|j: int|
        0 <= j < i ==> used[j] || !decl_matches(cfg[j], id, name, by_id)
}

pub open spec fn first_free(
    cfg: Seq<WorkspaceDecl>,
    used: Seq<bool>,
    id: i64,
    name: Seq<char>,
    by_id: bool,
) -> Option<int> {
    if exists|i: int| is_first_free(cfg, used, id, name, by_id, i) {
        Some(choose|i: int| is_first_free(cfg, used, id, name, by_id, i))
    } else {
        None
    }
}

/// The declaration that a live workspace consumes: the first free one with
/// its id, else the first free one with its name.
pub open spec fn config_match(cfg: Seq<WorkspaceDecl>, used: Seq<bool>, id: i64, name: Seq<char>) -> Option<int> {
    match first_free(cfg, used, id, name, true) {
        Some(i) => Some(i),
        None => first_free(cfg, used, id, name, false),
    }
}

/// One kept live workspace, enriched, and the consumed declarations after it.
pub open spec fn enrich_one(
    w: JsonView,
    table: Map<i64, bool>,
    cfg: Option<Seq<WorkspaceDecl>>,
    used: Seq<bool>,
) -> Option<(JsonView, Seq<bool>)> {
    match w {
        JsonView::Object(fs) => match (w.i64_at("id"@), w.str_at("name"@)) {
            (Some(id), Some(name)) => {
                let base = mark_fields(fs, shown_in(table, id));
                match cfg {
                    None => Some((JsonView::Object(base), used)),
                    Some(c) => {
                        let m = config_match(c, used, id, name);
                        Some(
                            (
                                JsonView::Object(put(base, "dynamic"@, JsonView::Bool(m is None))),
                                match m {
                                    Some(k) => used.update(k, true),
                                    None => used,
                                },
                            ),
                        )
                    },
                }
            },
            _ => None,
        },
        _ => None,
    }
}

pub open spec fn cfg_len(cfg: Option<Seq<WorkspaceDecl>>) -> nat {
    match cfg {
        Some(c) => c.len(),
        None => 0,
    }
}

/// The kept live workspaces, enriched in order, and the declarations they
/// consumed; `None` where a kept workspace lacks its id or name.
pub open spec fn enrich_live(
    ws: Seq<JsonView>,
    table: Map<i64, bool>,
    on_monitor: Option<Seq<char>>,
    special: Option<bool>,
    cfg: Option<Seq<WorkspaceDecl>>,
) -> Option<(Seq<JsonView>, Seq<bool>)>
    decreases ws.len(),
{
    if ws.len() == 0 {
        Some((seq![], Seq::new(cfg_len(cfg), |i: int| false)))
    } else {
        match enrich_live(ws.drop_last(), table, on_monitor, special, cfg) {
            None => None,
            Some((out, used)) => {
                let w = ws.last();
                if !keep_workspace(w, on_monitor, special) {
                    Some((out, used))
                } else {
                    match enrich_one(w, table, cfg, used) {
                        None => None,
                        Some((x, u)) => Some((out.push(x), u)),
                    }
                }
            },
        }
    }
}

/// The members of the entry that stands for a declared workspace that is
/// not live.
pub open spec fn decl_fields(d: WorkspaceDecl) -> Seq<(Seq<char>, JsonView)> {
    (match d.id {
        Some(i) => seq![("id"@, JsonView::Int(i as int))],
        None => seq![],
    }) + (match d.name {
        Some(n) => seq![("name"@, JsonView::Str(n))],
        None => seq![],
    }) + (match d.monitor {
        Some(m) => seq![("monitor"@, JsonView::Str(m))],
        None => seq![],
    }) + seq![("dynamic"@, JsonView::Bool(false)), ("exists"@, JsonView::Bool(false))]
}

pub open spec fn decl_fits(d: WorkspaceDecl, on_monitor: Option<Seq<char>>) -> bool {
    on_monitor is None || d.monitor is None || d.monitor == on_monitor
}

/// The entries for the first `n` declarations that no live workspace
/// consumed and that fit the monitor filter.
pub open spec fn declared_only(
    cfg: Seq<WorkspaceDecl>,
    used: Seq<bool>,
    on_monitor: Option<Seq<char>>,
    n: int,
) -> Seq<JsonView>
    decreases n,
{
    if n <= 0 {
        seq![]
    } else {
        let rest = declared_only(cfg, used, on_monitor, n - 1);
        if !used[n - 1] && decl_fits(cfg[n - 1], on_monitor) {
            rest.push(JsonView::Object(decl_fields(cfg[n - 1])))
        } else {
            rest
        }
    }
}

// Ordering by id.

/// The id a workspace sorts by; one without an id sorts last.
pub open spec fn sort_key(w: JsonView) -> i64 {
    match w.i64_at("id"@) {
        Some(i) => i,
        None => i64::MAX,
    }
}

/// Places `x` into the ordered `s` after every entry whose key is not larger.
pub open spec fn insert_sorted(s: Seq<JsonView>, x: JsonView) -> Seq<JsonView>
    decreases s.len(),
{
    if s.len() == 0 {
        seq![x]
    } else if sort_key(s.last()) <= sort_key(x) {
        s.push(x)
    } else {
        insert_sorted(s.drop_last(), x).push(s.last())
    }
}

/// `s` ordered by ascending id; entries with equal keys keep their order.
pub open spec fn sort_by_id(s: Seq<JsonView>) -> Seq<JsonView>
    decreases s.len(),
{
    if s.len() == 0 {
        s
    } else {
        insert_sorted(sort_by_id(s.drop_last()), s.last())
    }
}

pub open spec fn cfg_view(config: Option<Vec<WorkspaceInfoConfig>>) -> Option<Seq<WorkspaceDecl>> {
    match config {
        Some(v) => Some(decls_view(v@)),
        None => None,
    }
}

/// The enriched workspace document for a batch response of workspaces and
/// monitors, in that order.
pub open spec fn workspaces_doc(
    data: Seq<JsonView>,
    on_monitor: Option<Seq<char>>,
    special: Option<bool>,
    cfg: Option<Seq<WorkspaceDecl>>,
) -> Result<JsonView, HyprError> {
    if data.len() < 2 {
        Err(HyprError::MissingDocument)
    } else {
        match shown_table(data[1]) {
            None => Err(HyprError::MonitorFields),
            Some(t) => match data[0] {
                JsonView::Array(ws) => match enrich_live(ws, shown_map(t), on_monitor, special, cfg) {
                    None => Err(HyprError::WorkspaceFields),
                    Some((out, used)) => Ok(
                        JsonView::Array(
                            sort_by_id(
                                out + match cfg {
                                    Some(c) => declared_only(c, used, on_monitor, c.len() as int),
                                    None => seq![],
                                },
                            ),
                        ),
                    ),
                },
                _ => Err(HyprError::NotAnArray),
            },
        }
    }
}

// Proofs.

proof fn lemma_entries_none(ms: Seq<JsonView>, k: int)
    requires
        0 <= k <= ms.len(),
        shown_entries(ms.take(k)) is None,
    ensures
        shown_entries(ms) is None,
    decreases ms.len(),
{
    if k < ms.len() {
        assert(ms.drop_last().take(k) =~= ms.take(k));
        lemma_entries_none(ms.drop_last(), k);
    } else {
        assert(ms.take(k) =~= ms);
    }
}

proof fn lemma_live_none(
    ws: Seq<JsonView>,
    k: int,
    table: Map<i64, bool>,
    on_monitor: Option<Seq<char>>,
    special: Option<bool>,
    cfg: Option<Seq<WorkspaceDecl>>,
)
    requires
        0 <= k <= ws.len(),
        enrich_live(ws.take(k), table, on_monitor, special, cfg) is None,
    ensures
        enrich_live(ws, table, on_monitor, special, cfg) is None,
    decreases ws.len(),
{
    if k < ws.len() {
        assert(ws.drop_last().take(k) =~= ws.take(k));
        lemma_live_none(ws.drop_last(), k, table, on_monitor, special, cfg);
    } else {
        assert(ws.take(k) =~= ws);
    }
}

proof fn lemma_live_used_len(
    ws: Seq<JsonView>,
    table: Map<i64, bool>,
    on_monitor: Option<Seq<char>>,
    special: Option<bool>,
    cfg: Option<Seq<WorkspaceDecl>>,
)
    ensures
        enrich_live(ws, table, on_monitor, special, cfg) matches Some((out, used)) ==> used.len()
            == cfg_len(cfg),
    decreases ws.len(),
{
    if ws.len() > 0 {
        lemma_live_used_len(ws.drop_last(), table, on_monitor, special, cfg);
    }
}

proof fn lemma_first_free_unique(
    cfg: Seq<WorkspaceDecl>,
    used: Seq<bool>,
    id: i64,
    name: Seq<char>,
    by_id: bool,
    i: int,
    k: int,
)
    requires
        is_first_free(cfg, used, id, name, by_id, i),
        is_first_free(cfg, used, id, name, by_id, k),
    ensures
        i == k,
{
    if i < k {
        assert(used[i] || !decl_matches(cfg[i], id, name, by_id));
    } else if k < i {
        assert(used[k] || !decl_matches(cfg[k], id, name, by_id));
    }
}

proof fn lemma_insert_sorted_at(s: Seq<JsonView>, x: JsonView, p: int)
    requires
        0 <= p <= s.len(),
        forall|j: int| p <= j < s.len() ==> sort_key(s[j]) > sort_key(x),
        p == 0 || sort_key(s[p - 1]) <= sort_key(x),
    ensures
        insert_sorted(s, x) == s.insert(p, x),
    decreases s.len(),
{
    if s.len() == 0 {
        assert(s.insert(p, x) =~= seq![x]);
    } else if p == s.len() {
        assert(s.insert(p, x) =~= s.push(x));
    } else {
        lemma_insert_sorted_at(s.drop_last(), x, p);
        assert(s.drop_last().insert(p, x).push(s.last()) =~= s.insert(p, x));
    }
}

// Executable parts.

fn monitor_entries_exec(m: &Json) -> (r: Option<Vec<(i64, bool)>>)
    ensures
        match r {
            Some(v) => monitor_entries(m.view()) == Some(v@),
            None => monitor_entries(m.view()) is None,
        },
{
    let active = match m.get("activeWorkspace") {
        Some(a) => a.i64_at("id"),
        None => None,
    };
    let special = match m.get("specialWorkspace") {
        Some(a) => a.i64_at("id"),
        None => None,
    };
    match (active, m.bool_at("focused")) {
        (Some(a), Some(f)) => {
            let mut v: Vec<(i64, bool)> = Vec::new();
            match special {
                Some(s) => {
                    if s != 0 {
                        v.push((s, true));
                    }
                },
                None => {},
            }
            v.push((a, f));
            assert(v@ =~= special_entry(special) + seq![(a, f)]);
            Some(v)
        },
        _ => None,
    }
}

fn shown_table_exec(monitors: &Json) -> (r: Option<Vec<(i64, bool)>>)
    ensures
        match r {
            Some(v) => shown_table(monitors.view()) == Some(v@),
            None => shown_table(monitors.view()) is None,
        },
{
    match monitors {
        Json::Array(ms) => {
            proof {
                lemma_array_view(ms@);
            }
            let ghost mv = items_view(ms@);
            let mut acc: Vec<(i64, bool)> = Vec::new();
            let mut i: usize = 0;
            assert(mv.take(0) =~= Seq::<JsonView>::empty());
            while i < ms.len()
                invariant
                    0 <= i <= ms@.len(),
                    mv == items_view(ms@),
                    monitors.view() == JsonView::Array(mv),
                    shown_entries(mv.take(i as int)) == Some(acc@),
                decreases ms@.len() - i,
            {
                assert(mv.take(i + 1).drop_last() =~= mv.take(i as int));
                assert(mv.take(i + 1).last() == ms@[i as int].view());
                match monitor_entries_exec(&ms[i]) {
                    Some(p) => {
                        let mut p = p;
                        acc.append(&mut p);
                    },
                    None => {
                        proof {
                            lemma_entries_none(mv, i + 1);
                        }
                        return None;
                    },
                }
                i = i + 1;
            }
            assert(mv.take(i as int) =~= mv);
            Some(acc)
        },
        _ => None,
    }
}

fn shown_map_exec(t: &Vec<(i64, bool)>) -> (r: HashMap<i64, bool>)
    ensures
        r@ == shown_map(t@),
{
    let mut m: HashMap<i64, bool> = HashMap::new();
    let mut i: usize = 0;
    assert(t@.take(0) =~= Seq::<(i64, bool)>::empty());
    while i < t.len()
        invariant
            0 <= i <= t@.len(),
            m@ == shown_map(t@.take(i as int)),
        decreases t@.len() - i,
    {
        assert(t@.take(i + 1).drop_last() =~= t@.take(i as int));
        m.insert(t[i].0, t[i].1);
        i = i + 1;
    }
    assert(t@.take(i as int) =~= t@);
    m
}

fn keep_workspace_exec(w: &Json, on_monitor: &Option<String>, special: Option<bool>) -> (r: bool)
    ensures
        r == keep_workspace(w.view(), opt_chars(*on_monitor), special),
{
    let monitor_ok = match on_monitor {
        Some(m) => match w.str_at("monitor") {
            Some(s) => *s == *m,
            None => false,
        },
        None => true,
    };
    let special_ok = match special {
        Some(s) => match w.i64_at("id") {
            Some(i) => (i < 0) == s,
            None => false,
        },
        None => true,
    };
    monitor_ok && special_ok
}

fn decl_matches_exec(d: &WorkspaceInfoConfig, id: i64, name: &String, by_id: bool) -> (r: bool)
    ensures
        r == decl_matches(d.view(), id, name@, by_id),
{
    if by_id {
        match d.id {
            Some(x) => x == id,
            None => false,
        }
    } else {
        match &d.name {
            Some(n) => *n == *name,
            None => false,
        }
    }
}

fn first_free_exec(
    cfg: &Vec<WorkspaceInfoConfig>,
    used: &Vec<bool>,
    id: i64,
    name: &String,
    by_id: bool,
) -> (r: Option<usize>)
    requires
        used@.len() == cfg@.len(),
    ensures
        match r {
            Some(i) => first_free(decls_view(cfg@), used@, id, name@, by_id) == Some(i as int),
            None => first_free(decls_view(cfg@), used@, id, name@, by_id) is None,
        },
{
    let ghost cv = decls_view(cfg@);
    let mut i: usize = 0;
    while i < cfg.len()
        invariant
            0 <= i <= cfg@.len(),
            used@.len() == cfg@.len(),
            cv == decls_view(cfg@),
            forall|j: int| 0 <= j < i ==> used@[j] || !decl_matches(cv[j], id, name@, by_id),
        decreases cfg@.len() - i,
    {
        if !used[i] && decl_matches_exec(&cfg[i], id, name, by_id) {
            proof {
                assert(is_first_free(cv, used@, id, name@, by_id, i as int));
                let k = choose|k: int| is_first_free(cv, used@, id, name@, by_id, k);
                lemma_first_free_unique(cv, used@, id, name@, by_id, i as int, k);
            }
            return Some(i);
        }
        i = i + 1;
    }
    proof {
        assert forall|k: int| !is_first_free(cv, used@, id, name@, by_id, k) by {
            if 0 <= k < cv.len() {
                assert(used@[k] || !decl_matches(cv[k], id, name@, by_id));
            }
        }
    }
    None
}

fn config_match_exec(cfg: &Vec<WorkspaceInfoConfig>, used: &Vec<bool>, id: i64, name: &String) -> (r:
    Option<usize>)
    requires
        used@.len() == cfg@.len(),
    ensures
        match r {
            Some(i) => config_match(decls_view(cfg@), used@, id, name@) == Some(i as int) && i
                < cfg@.len(),
            None => config_match(decls_view(cfg@), used@, id, name@) is None,
        },
{
    match first_free_exec(cfg, used, id, name, true) {
        Some(i) => Some(i),
        None => first_free_exec(cfg, used, id, name, false),
    }
}

fn enrich_one_exec(
    w: Json,
    table: &HashMap<i64, bool>,
    config: &Option<Vec<WorkspaceInfoConfig>>,
    used: &mut Vec<bool>,
) -> (r: Option<Json>)
    requires
        old(used)@.len() == cfg_len(cfg_view(*config)),
    ensures
        final(used)@.len() == old(used)@.len(),
        match r {
            Some(x) => enrich_one(w.view(), table@, cfg_view(*config), old(used)@) == Some(
                (x.view(), final(used)@),
            ),
            None => enrich_one(w.view(), table@, cfg_view(*config), old(used)@) is None,
        },
{
    let ghost wv = w.view();
    let id = w.i64_at("id");
    let name = match w.str_at("name") {
        Some(n) => Some(n.clone()),
        None => None,
    };
    match w {
        Json::Object(fs) => {
            proof {
                lemma_object_view(fs@);
            }
            let (id, name) = match (id, name) {
                (Some(id), Some(name)) => (id, name),
                _ => {
                    return None;
                },
            };
            let mut fs = fs;
            let shown = match table.get(&id) {
                Some(b) => Some(*b),
                None => None,
            };
            put_field(&mut fs, "shown", Json::Bool(shown.is_some()));
            let active = match shown {
                Some(b) => b,
                None => false,
            };
            put_field(&mut fs, "active", Json::Bool(active));
            put_field(&mut fs, "exists", Json::Bool(true));
            proof {
                lemma_object_view(fs@);
            }
            match config {
                None => Some(Json::Object(fs)),
                Some(c) => {
                    let m = config_match_exec(c, used, id, &name);
                    match m {
                        Some(k) => {
                            used.set(k, true);
                        },
                        None => {},
                    }
                    put_field(&mut fs, "dynamic", Json::Bool(m.is_none()));
                    proof {
                        lemma_object_view(fs@);
                    }
                    Some(Json::Object(fs))
                },
            }
        },
        _ => None,
    }
}

fn enrich_live_exec(
    ws: Vec<Json>,
    table: &HashMap<i64, bool>,
    on_monitor: &Option<String>,
    special: Option<bool>,
    config: &Option<Vec<WorkspaceInfoConfig>>,
) -> (r: Option<(Vec<Json>, Vec<bool>)>)
    ensures
        match r {
            Some((out, used)) => enrich_live(
                items_view(ws@),
                table@,
                opt_chars(*on_monitor),
                special,
                cfg_view(*config),
            ) == Some((items_view(out@), used@)),
            None => enrich_live(
                items_view(ws@),
                table@,
                opt_chars(*on_monitor),
                special,
                cfg_view(*config),
            ) is None,
        },
{
    let ghost wv = items_view(ws@);
    let ghost mon = opt_chars(*on_monitor);
    let ghost cv = cfg_view(*config);
    let n: usize = match config {
        Some(c) => c.len(),
        None => 0,
    };
    let mut used: Vec<bool> = Vec::new();
    while used.len() < n
        invariant
            used@.len() <= n,
            n == cfg_len(cv),
            cv == cfg_view(*config),
            forall|j: int| 0 <= j < used@.len() ==> !used@[j],
        decreases n - used@.len(),
    {
        used.push(false);
    }
    assert(used@ =~= Seq::new(cfg_len(cv), |i: int| false));
    let mut out: Vec<Json> = Vec::new();
    let total = ws.len();
    let mut rest = ws;
    let mut k: usize = 0;
    assert(wv.take(0) =~= Seq::<JsonView>::empty());
    assert(items_view(out@) =~= Seq::<JsonView>::empty());
    while rest.len() > 0
        invariant
            wv == items_view(ws@),
            mon == opt_chars(*on_monitor),
            cv == cfg_view(*config),
            0 <= k <= ws@.len(),
            total == ws@.len(),
            rest@ == ws@.skip(k as int),
            used@.len() == cfg_len(cv),
            enrich_live(wv.take(k as int), table@, mon, special, cv) == Some(
                (items_view(out@), used@),
            ),
        decreases rest@.len(),
    {
        assert(ws@.skip(k as int).len() == ws@.len() - k);
        let w = rest.remove(0);
        assert(w.view() == wv[k as int]);
        assert(wv.take(k + 1).drop_last() =~= wv.take(k as int));
        assert(wv.take(k + 1).last() == wv[k as int]);
        assert(rest@ =~= ws@.skip(k + 1));
        if keep_workspace_exec(&w, on_monitor, special) {
            match enrich_one_exec(w, table, config, &mut used) {
                Some(x) => {
                    let ghost before = out@;
                    out.push(x);
                    assert(items_view(out@) =~= items_view(before).push(x.view()));
                },
                None => {
                    proof {
                        lemma_live_none(wv, k + 1, table@, mon, special, cv);
                    }
                    return None;
                },
            }
        }
        k = k + 1;
    }
    assert(k == ws@.len());
    assert(wv.take(k as int) =~= wv);
    Some((out, used))
}

fn decl_entry_exec(d: &WorkspaceInfoConfig) -> (r: Json)
    ensures
        r.view() == JsonView::Object(decl_fields(d.view())),
{
    let ghost dv = d.view();
    let mut fs: Vec<(String, Json)> = Vec::new();
    let ghost part1 = match dv.id {
        Some(i) => seq![("id"@, JsonView::Int(i as int))],
        None => Seq::<(Seq<char>, JsonView)>::empty(),
    };
    match d.id {
        Some(i) => {
            let n = if i >= 0 {
                JsonNumber::PosInt(i as u64)
            } else {
                JsonNumber::NegInt(i)
            };
            fs.push(("id".to_owned(), Json::Number(n)));
        },
        None => {},
    }
    assert(fields_view(fs@) =~= part1);
    let ghost part2 = part1 + match dv.name {
        Some(n) => seq![("name"@, JsonView::Str(n))],
        None => Seq::<(Seq<char>, JsonView)>::empty(),
    };
    match &d.name {
        Some(n) => {
            fs.push(("name".to_owned(), Json::Str(n.clone())));
        },
        None => {},
    }
    assert(fields_view(fs@) =~= part2);
    let ghost part3 = part2 + match dv.monitor {
        Some(m) => seq![("monitor"@, JsonView::Str(m))],
        None => Seq::<(Seq<char>, JsonView)>::empty(),
    };
    match &d.monitor {
        Some(m) => {
            fs.push(("monitor".to_owned(), Json::Str(m.clone())));
        },
        None => {},
    }
    assert(fields_view(fs@) =~= part3);
    fs.push(("dynamic".to_owned(), Json::Bool(false)));
    fs.push(("exists".to_owned(), Json::Bool(false)));
    assert(fields_view(fs@) =~= decl_fields(dv));
    proof {
        lemma_object_view(fs@);
    }
    Json::Object(fs)
}

fn decl_fits_exec(d: &WorkspaceInfoConfig, on_monitor: &Option<String>) -> (r: bool)
    ensures
        r == decl_fits(d.view(), opt_chars(*on_monitor)),
{
    match on_monitor {
        None => true,
        Some(f) => match &d.monitor {
            None => true,
            Some(m) => *m == *f,
        },
    }
}

fn declared_only_exec(
    cfg: &Vec<WorkspaceInfoConfig>,
    used: &Vec<bool>,
    on_monitor: &Option<String>,
) -> (r: Vec<Json>)
    requires
        used@.len() == cfg@.len(),
    ensures
        items_view(r@) == declared_only(
            decls_view(cfg@),
            used@,
            opt_chars(*on_monitor),
            cfg@.len() as int,
        ),
{
    let ghost cv = decls_view(cfg@);
    let mut out: Vec<Json> = Vec::new();
    let mut i: usize = 0;
    assert(items_view(out@) =~= Seq::<JsonView>::empty());
    while i < cfg.len()
        invariant
            0 <= i <= cfg@.len(),
            used@.len() == cfg@.len(),
            cv == decls_view(cfg@),
            items_view(out@) == declared_only(cv, used@, opt_chars(*on_monitor), i as int),
        decreases cfg@.len() - i,
    {
        if !used[i] && decl_fits_exec(&cfg[i], on_monitor) {
            let e = decl_entry_exec(&cfg[i]);
            let ghost before = out@;
            out.push(e);
            assert(items_view(out@) =~= items_view(before).push(e.view()));
        }
        i = i + 1;
    }
    out
}

fn sort_key_exec(w: &Json) -> (r: i64)
    ensures
        r == sort_key(w.view()),
{
    match w.i64_at("id") {
        Some(i) => i,
        None => i64::MAX,
    }
}

fn sort_by_id_exec(v: Vec<Json>) -> (r: Vec<Json>)
    ensures
        items_view(r@) == sort_by_id(items_view(v@)),
{
    let ghost vv = items_view(v@);
    let mut out: Vec<Json> = Vec::new();
    let total = v.len();
    let mut rest = v;
    let mut k: usize = 0;
    assert(vv.take(0) =~= Seq::<JsonView>::empty());
    assert(items_view(out@) =~= Seq::<JsonView>::empty());
    while rest.len() > 0
        invariant
            vv == items_view(v@),
            0 <= k <= v@.len(),
            total == v@.len(),
            rest@ == v@.skip(k as int),
            items_view(out@) == sort_by_id(vv.take(k as int)),
        decreases rest@.len(),
    {
        assert(v@.skip(k as int).len() == v@.len() - k);
        let x = rest.remove(0);
        assert(x.view() == vv[k as int]);
        assert(vv.take(k + 1).drop_last() =~= vv.take(k as int));
        assert(vv.take(k + 1).last() == vv[k as int]);
        assert(rest@ =~= v@.skip(k + 1));
        let key = sort_key_exec(&x);
        let ghost ov = items_view(out@);
        let mut p: usize = out.len();
        while p > 0 && sort_key_exec(&out[p - 1]) > key
            invariant
                0 <= p <= out@.len(),
                ov == items_view(out@),
                key == sort_key(x.view()),
                forall|j: int| p <= j < ov.len() ==> sort_key(ov[j]) > key,
            decreases p,
        {
            p = p - 1;
        }
        proof {
            lemma_insert_sorted_at(ov, x.view(), p as int);
        }
        let ghost xv = x.view();
        out.insert(p, x);
        assert(items_view(out@) =~= ov.insert(p as int, xv));
        k = k + 1;
    }
    assert(vv.take(k as int) =~= vv);
    out
}

/// Enriches the workspaces of a batch response of workspaces and monitors,
/// in that order.
///
/// Keeps the live workspaces on `on_monitor` (and, with `special_status`,
/// those whose special status it names), marks each as `shown` and `active`
/// as the monitors say and as `exists`; with declarations, marks each as
/// `dynamic` unless it consumes one, and adds an entry for each declaration
/// left over that fits the monitor filter. The result is ordered by id.
pub fn prepare_workspaces(
    data: Vec<Json>,
    on_monitor: &Option<String>,
    special_status: Option<bool>,
    config: &Option<Vec<WorkspaceInfoConfig>>,
) -> (r: Result<Json, HyprError>)
    ensures
        match r {
            Ok(j) => workspaces_doc(
                items_view(data@),
                opt_chars(*on_monitor),
                special_status,
                cfg_view(*config),
            ) == Ok::<JsonView, HyprError>(j.view()),
            Err(e) => workspaces_doc(
                items_view(data@),
                opt_chars(*on_monitor),
                special_status,
                cfg_view(*config),
            ) == Err::<JsonView, HyprError>(e),
        },
{
    let ghost dv = items_view(data@);
    if data.len() < 2 {
        return Err(HyprError::MissingDocument);
    }
    assert(dv[1] == data@[1].view());
    let table = match shown_table_exec(&data[1]) {
        Some(t) => shown_map_exec(&t),
        None => {
            return Err(HyprError::MonitorFields);
        },
    };
    let mut data = data;
    let body = data.remove(0);
    assert(body.view() == dv[0]);
    match body {
        Json::Array(ws) => {
            proof {
                lemma_array_view(ws@);
            }
            let (out, used) = match enrich_live_exec(ws, &table, on_monitor, special_status, config) {
                Some(p) => p,
                None => {
                    return Err(HyprError::WorkspaceFields);
                },
            };
            proof {
                lemma_live_used_len(
                    items_view(ws@),
                    table@,
                    opt_chars(*on_monitor),
                    special_status,
                    cfg_view(*config),
                );
            }
            let mut all = out;
            let ghost live = items_view(all@);
            match config {
                Some(c) => {
                    let mut extra = declared_only_exec(c, &used, on_monitor);
                    let ghost ev = items_view(extra@);
                    all.append(&mut extra);
                    assert(items_view(all@) =~= live + ev);
                },
                None => {
                    assert(items_view(all@) =~= live + seq![]);
                },
            }
            let sorted = sort_by_id_exec(all);
            proof {
                lemma_array_view(sorted@);
            }
            Ok(Json::Array(sorted))
        },
        _ => Err(HyprError::NotAnArray),
    }
}

} // verus!

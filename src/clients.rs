use std::collections::HashMap;
use vstd::prelude::*;
use crate::config::{opt_chars, WorkspaceDecl};
use crate::error::HyprError;
use crate::ipc::batch_docs;
use crate::json::{items_view, lemma_array_view, lemma_object_view, put, put_field, Json, JsonView};
use crate::text::{chars_of, int_of, parse_int, slice_chars, starts_with, starts_with_chars, string_of};
use crate::workspaces::workspaces_doc;

verus! {

pub open spec fn monitor_name_entry(m: JsonView) -> Option<(u64, Seq<char>)> {
    match (m.u64_at("id"@), m.str_at("name"@)) {
        (Some(i), Some(n)) => Some((i, n)),
        _ => None,
    }
}

/// The (monitor id, monitor name) entries of the monitors, in order; `None`
/// where one lacks its id or name.
pub open spec fn monitor_names(ms: Seq<JsonView>) -> Option<Seq<(u64, Seq<char>)>>
    decreases ms.len(),
{
    if ms.len() == 0 {
        Some(seq![])
    } else {
        match (monitor_names(ms.drop_last()), monitor_name_entry(ms.last())) {
            (Some(t), Some(e)) => Some(t.push(e)),
            _ => None,
        }
    }
}

pub open spec fn names_table(monitors: JsonView) -> Option<Seq<(u64, Seq<char>)>> {
    match monitors {
        JsonView::Array(ms) => monitor_names(ms),
        _ => None,
    }
}

/// The map from monitor id to name that the entries build when inserted in
/// order: a later entry for an id replaces an earlier one.
pub open spec fn names_map(t: Seq<(u64, Seq<char>)>) -> Map<u64, Seq<char>>
    decreases t.len(),
{
    if t.len() == 0 {
        Map::empty()
    } else {
        names_map(t.drop_last()).insert(t.last().0, t.last().1)
    }
}

/// The name of monitor `id`, where the map has one.
pub open spec fn name_in(m: Map<u64, Seq<char>>, id: u64) -> Option<Seq<char>> {
    if m.contains_key(id) {
        Some(m[id])
    } else {
        None
    }
}

/// Whether a client is on the workspace that `filter` names, either as
/// `name:NAME` or as an integer id.
pub open spec fn on_workspace(c: JsonView, filter: Seq<char>) -> bool {
    match c.field("workspace"@) {
        Some(ws) => match (ws.str_at("name"@), ws.i64_at("id"@)) {
            (Some(name), Some(id)) => if starts_with(filter, "name:"@) {
                filter.skip("name:"@.len() as int) == name
            } else {
                int_of(filter) == Some(id as int)
            },
            _ => false,
        },
        None => false,
    }
}

/// A client with the name of its monitor attached, or `None` where the
/// monitor filter drops it.
pub open spec fn place_client(
    c: JsonView,
    names: Map<u64, Seq<char>>,
    monitor: Option<Seq<char>>,
) -> Option<JsonView> {
    match c {
        JsonView::Object(fs) => {
            let resolved = match c.i64_at("monitor"@) {
                Some(m) => name_in(names, m as u64),
                None => None,
            };
            match resolved {
                Some(n) => if monitor is None || monitor == Some(n) {
                    Some(JsonView::Object(put(fs, "monitorName"@, JsonView::Str(n))))
                } else {
                    None
                },
                None => if monitor is None {
                    Some(c)
                } else {
                    None
                },
            }
        },
        _ => if monitor is None {
            Some(c)
        } else {
            None
        },
    }
}

/// The clients that the filters keep, in their order, each placed on its
/// monitor.
pub open spec fn filter_clients(
    cs: Seq<JsonView>,
    names: Map<u64, Seq<char>>,
    monitor: Option<Seq<char>>,
    workspace: Option<Seq<char>>,
) -> Seq<JsonView>
    decreases cs.len(),
{
    if cs.len() == 0 {
        seq![]
    } else {
        let rest = filter_clients(cs.drop_last(), names, monitor, workspace);
        let c = cs.last();
        if workspace is Some && !on_workspace(c, workspace->0) {
            rest
        } else {
            match place_client(c, names, monitor) {
                Some(x) => rest.push(x),
                None => rest,
            }
        }
    }
}

/// The client document for a batch response of clients and monitors, in
/// that order.
pub open spec fn clients_doc(
    data: Seq<JsonView>,
    monitor: Option<Seq<char>>,
    workspace: Option<Seq<char>>,
) -> Result<JsonView, HyprError> {
    if data.len() < 2 {
        Err(HyprError::MissingDocument)
    } else {
        match names_table(data[1]) {
            None => Err(HyprError::MonitorFields),
            Some(t) => match data[0] {
                JsonView::Array(cs) => Ok(JsonView::Array(filter_clients(cs, names_map(t), monitor, workspace))),
                _ => Err(HyprError::NotAnArray),
            },
        }
    }
}

/// The monitor document of a batch response that asked for monitors alone.
pub open spec fn monitors_doc(data: Seq<JsonView>) -> Result<JsonView, HyprError> {
    if data.len() == 0 {
        Err(HyprError::MissingDocument)
    } else {
        Ok(data.last())
    }
}

pub open spec fn names_view(t: Seq<(u64, String)>) -> Seq<(u64, Seq<char>)> {
    t.map_values(|p: (u64, String)| (p.0, p.1@))
}

proof fn lemma_names_none(ms: Seq<JsonView>, k: int)
    requires
        0 <= k <= ms.len(),
        monitor_names(ms.take(k)) is None,
    ensures
        monitor_names(ms) is None,
    decreases ms.len(),
{
    if k < ms.len() {
        assert(ms.drop_last().take(k) =~= ms.take(k));
        lemma_names_none(ms.drop_last(), k);
    } else {
        assert(ms.take(k) =~= ms);
    }
}

fn names_table_exec(monitors: &Json) -> (r: Option<Vec<(u64, String)>>)
    ensures
        match r {
            Some(v) => names_table(monitors.view()) == Some(names_view(v@)),
            None => names_table(monitors.view()) is None,
        },
{
    match monitors {
        Json::Array(ms) => {
            proof {
                lemma_array_view(ms@);
            }
            let ghost mv = items_view(ms@);
            let mut acc: Vec<(u64, String)> = Vec::new();
            let mut i: usize = 0;
            assert(mv.take(0) =~= Seq::<JsonView>::empty());
            assert(names_view(acc@) =~= Seq::<(u64, Seq<char>)>::empty());
            while i < ms.len()
                invariant
                    0 <= i <= ms@.len(),
                    mv == items_view(ms@),
                    monitors.view() == JsonView::Array(mv),
                    monitor_names(mv.take(i as int)) == Some(names_view(acc@)),
                decreases ms@.len() - i,
            {
                assert(mv.take(i + 1).drop_last() =~= mv.take(i as int));
                assert(mv.take(i + 1).last() == ms@[i as int].view());
                let m = &ms[i];
                match (m.u64_at("id"), m.str_at("name")) {
                    (Some(id), Some(name)) => {
                        let ghost before = acc@;
                        acc.push((id, name.clone()));
                        assert(names_view(acc@) =~= names_view(before).push((id, name@)));
                    },
                    _ => {
                        proof {
                            lemma_names_none(mv, i + 1);
                        }
                        return None;
                    },
                }
                i = i + 1;
            }
            assert(mv.take(i as int) =~= mv);
            Some(acc)
        },
        _ => None,
    }
}

pub open spec fn map_names_view(m: Map<u64, String>) -> Map<u64, Seq<char>> {
    m.map_values(|n: String| n@)
}

fn names_map_exec(t: &Vec<(u64, String)>) -> (r: HashMap<u64, String>)
    ensures
        map_names_view(r@) == names_map(names_view(t@)),
{
    let ghost tv = names_view(t@);
    let mut m: HashMap<u64, String> = HashMap::new();
    let mut i: usize = 0;
    assert(tv.take(0) =~= Seq::<(u64, Seq<char>)>::empty());
    assert(map_names_view(m@) =~= Map::<u64, Seq<char>>::empty());
    while i < t.len()
        invariant
            0 <= i <= t@.len(),
            tv == names_view(t@),
            map_names_view(m@) == names_map(tv.take(i as int)),
        decreases t@.len() - i,
    {
        assert(tv.take(i + 1).drop_last() =~= tv.take(i as int));
        assert(tv.take(i + 1).last() == (t@[i as int].0, t@[i as int].1@));
        let ghost before = m@;
        let n = t[i].1.clone();
        m.insert(t[i].0, n);
        assert(map_names_view(m@) =~= map_names_view(before).insert(t@[i as int].0, n@));
        i = i + 1;
    }
    assert(tv.take(i as int) =~= tv);
    m
}

fn on_workspace_exec(c: &Json, filter: &String) -> (r: bool)
    ensures
        r == on_workspace(c.view(), filter@),
{
    let ws = match c.get("workspace") {
        Some(ws) => ws,
        None => {
            return false;
        },
    };
    match (ws.str_at("name"), ws.i64_at("id")) {
        (Some(name), Some(id)) => {
            let fc = chars_of(filter.as_str());
            if starts_with_chars(&fc, "name:") {
                let skip = chars_of("name:").len();
                let wanted = slice_chars(&fc, skip, fc.len());
                assert(wanted@ =~= filter@.skip("name:"@.len() as int));
                string_of(wanted.as_slice()) == *name
            } else {
                match parse_int(&fc) {
                    Some(v) => v == id,
                    None => false,
                }
            }
        },
        _ => false,
    }
}

fn place_client_exec(c: Json, names: &HashMap<u64, String>, monitor: &Option<String>) -> (r: Option<
    Json,
>)
    ensures
        match r {
            Some(x) => place_client(c.view(), map_names_view(names@), opt_chars(*monitor)) == Some(
                x.view(),
            ),
            None => place_client(c.view(), map_names_view(names@), opt_chars(*monitor)) is None,
        },
{
    let resolved = match c.i64_at("monitor") {
        Some(m) => names.get(&(m as u64)),
        None => None,
    };
    match c {
        Json::Object(fs) => {
            proof {
                lemma_object_view(fs@);
            }
            match resolved {
                Some(n) => {
                    let keep = match monitor {
                        Some(f) => *f == *n,
                        None => true,
                    };
                    if keep {
                        let mut fs = fs;
                        put_field(&mut fs, "monitorName", Json::Str(n.clone()));
                        proof {
                            lemma_object_view(fs@);
                        }
                        Some(Json::Object(fs))
                    } else {
                        None
                    }
                },
                None => {
                    if monitor.is_none() {
                        Some(Json::Object(fs))
                    } else {
                        None
                    }
                },
            }
        },
        other => {
            if monitor.is_none() {
                Some(other)
            } else {
                None
            }
        },
    }
}

/// Filters the clients of a batch response of clients and monitors, in that
/// order, and attaches to each the name of its monitor.
///
/// With `workspace` (`name:NAME` or an integer id) only the clients on that
/// workspace stay; with `monitor` only those on the monitor of that name.
/// The clients keep their order.
pub fn prepare_clients(data: Vec<Json>, monitor: &Option<String>, workspace: &Option<String>) -> (r:
    Result<Json, HyprError>)
    ensures
        match r {
            Ok(j) => clients_doc(items_view(data@), opt_chars(*monitor), opt_chars(*workspace))
                == Ok::<JsonView, HyprError>(j.view()),
            Err(e) => clients_doc(items_view(data@), opt_chars(*monitor), opt_chars(*workspace))
                == Err::<JsonView, HyprError>(e),
        },
{
    let ghost dv = items_view(data@);
    let ghost mon = opt_chars(*monitor);
    let ghost wsf = opt_chars(*workspace);
    if data.len() < 2 {
        return Err(HyprError::MissingDocument);
    }
    assert(dv[1] == data@[1].view());
    let names = match names_table_exec(&data[1]) {
        Some(t) => names_map_exec(&t),
        None => {
            return Err(HyprError::MonitorFields);
        },
    };
    let mut data = data;
    let body = data.remove(0);
    assert(body.view() == dv[0]);
    match body {
        Json::Array(cs) => {
            proof {
                lemma_array_view(cs@);
            }
            let ghost cv = items_view(cs@);
            let total = cs.len();
            let mut out: Vec<Json> = Vec::new();
            let mut rest = cs;
            let mut k: usize = 0;
            assert(cv.take(0) =~= Seq::<JsonView>::empty());
            assert(items_view(out@) =~= Seq::<JsonView>::empty());
            while rest.len() > 0
                invariant
                    cv == items_view(cs@),
                    mon == opt_chars(*monitor),
                    wsf == opt_chars(*workspace),
                    0 <= k <= cs@.len(),
                    total == cs@.len(),
                    rest@ == cs@.skip(k as int),
                    items_view(out@) == filter_clients(cv.take(k as int), map_names_view(names@), mon, wsf),
                decreases rest@.len(),
            {
                assert(cs@.skip(k as int).len() == cs@.len() - k);
                let c = rest.remove(0);
                assert(c.view() == cv[k as int]);
                assert(cv.take(k + 1).drop_last() =~= cv.take(k as int));
                assert(cv.take(k + 1).last() == cv[k as int]);
                assert(rest@ =~= cs@.skip(k + 1));
                let wanted = match workspace {
                    Some(f) => on_workspace_exec(&c, f),
                    None => true,
                };
                if wanted {
                    match place_client_exec(c, &names, monitor) {
                        Some(x) => {
                            let ghost before = out@;
                            out.push(x);
                            assert(items_view(out@) =~= items_view(before).push(x.view()));
                        },
                        None => {},
                    }
                }
                k = k + 1;
            }
            assert(cv.take(k as int) =~= cv);
            proof {
                lemma_array_view(out@);
            }
            Ok(Json::Array(out))
        },
        _ => Err(HyprError::NotAnArray),
    }
}

/// The monitor document of a batch response that asked for monitors alone:
/// passed through as it came.
pub fn prepare_monitors(data: Vec<Json>) -> (r: Result<Json, HyprError>)
    ensures
        match r {
            Ok(j) => monitors_doc(items_view(data@)) == Ok::<JsonView, HyprError>(j.view()),
            Err(e) => monitors_doc(items_view(data@)) == Err::<JsonView, HyprError>(e),
        },
{
    let ghost dv = items_view(data@);
    let mut data = data;
    match data.pop() {
        Some(j) => {
            assert(j.view() == dv.last());
            Ok(j)
        },
        None => Err(HyprError::MissingDocument),
    }
}

/// The projections depend on the raw batch response, the filters and the
/// declarations alone: the same inputs give the same documents on every run.
pub proof fn lemma_projection_repeatable(
    resp1: Seq<u8>,
    resp2: Seq<u8>,
    on_monitor: Option<Seq<char>>,
    special: Option<bool>,
    cfg: Option<Seq<WorkspaceDecl>>,
    workspace: Option<Seq<char>>,
)
    requires
        resp1 == resp2,
    ensures
        batch_docs(resp1) == batch_docs(resp2),
        batch_docs(resp1) matches Some(d1) ==> {
            let d2 = batch_docs(resp2)->0;
            &&& workspaces_doc(d1, on_monitor, special, cfg) == workspaces_doc(
                d2,
                on_monitor,
                special,
                cfg,
            )
            &&& clients_doc(d1, on_monitor, workspace) == clients_doc(d2, on_monitor, workspace)
            &&& monitors_doc(d1) == monitors_doc(d2)
        },
{
}

} // verus!

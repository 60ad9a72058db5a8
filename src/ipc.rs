use vstd::prelude::*;
use crate::error::HyprError;
use vstd::utf8::valid_utf8;
use crate::json::{items_view, json_parse, parse_json, Json, JsonView};
use crate::text::utf8_string;

verus! {

// Requests.

/// The requests of a batch, each as `j/<resource>`, separated by ` ; `.
pub open spec fn joined_requests(rs: Seq<Seq<char>>) -> Seq<char>
    decreases rs.len(),
{
    if rs.len() == 0 {
        Seq::empty()
    } else if rs.len() == 1 {
        "j/"@ + rs[0]
    } else {
        joined_requests(rs.drop_last()) + " ; "@ + "j/"@ + rs.last()
    }
}

/// The command line that asks for the resources `rs` in one batch.
pub open spec fn batch_text(rs: Seq<Seq<char>>) -> Seq<char> {
    "[[BATCH]] "@ + joined_requests(rs)
}

pub open spec fn strings_view(v: Seq<String>) -> Seq<Seq<char>> {
    v.map_values(|s: String| s@)
}

/// Builds the command that asks for `requests` in one batch, in order, e.g.
/// `[[BATCH]] j/monitors ; j/workspaces`.
pub fn batch_request(requests: &Vec<String>) -> (r: String)
    ensures
        r@ == batch_text(strings_view(requests@)),
{
    let ghost rv = strings_view(requests@);
    let mut s = "[[BATCH]] ".to_owned();
    let mut i: usize = 0;
    assert(rv.take(0) =~= Seq::<Seq<char>>::empty());
    assert(s@ =~= "[[BATCH]] "@ + joined_requests(rv.take(0)));
    while i < requests.len()
        invariant
            0 <= i <= requests@.len(),
            rv == strings_view(requests@),
            s@ == "[[BATCH]] "@ + joined_requests(rv.take(i as int)),
        decreases requests@.len() - i,
    {
        assert(rv.take(i + 1).drop_last() =~= rv.take(i as int));
        assert(rv.take(i + 1).last() == requests@[i as int]@);
        if i > 0 {
            s.append(" ; ");
        }
        s.append("j/");
        s.append(requests[i].as_str());
        if i == 0 {
            assert(rv.take(1)[0] == requests@[0]@);
        }
        assert(s@ =~= "[[BATCH]] "@ + joined_requests(rv.take(i + 1)));
        i = i + 1;
    }
    assert(rv.take(i as int) =~= rv);
    s
}

// Responses.

/// The byte pairs at which one document of a batch response ends and the next
/// begins: `][`, `}[` and `]{`.
pub open spec fn is_boundary(a: u8, b: u8) -> bool {
    (a == 0x5du8 && b == 0x5bu8) || (a == 0x7du8 && b == 0x5bu8) || (a == 0x5du8 && b == 0x7bu8)
}

/// The pieces of a batch response, cut between the two bytes of every
/// boundary pair.
pub open spec fn split_documents(s: Seq<u8>) -> Seq<Seq<u8>>
    decreases s.len(),
{
    if s.len() <= 1 {
        seq![s]
    } else {
        let prev = split_documents(s.drop_last());
        if is_boundary(s[s.len() - 2], s.last()) {
            prev.push(seq![s.last()])
        } else {
            prev.update(prev.len() - 1, prev.last().push(s.last()))
        }
    }
}

/// The documents of a batch response, or `None` where a piece is not JSON.
pub open spec fn batch_docs(resp: Seq<u8>) -> Option<Seq<JsonView>> {
    let ps = split_documents(resp);
    if forall|i: int| 0 <= i < ps.len() ==> (#[trigger] json_parse(ps[i])) is Some {
        Some(ps.map_values(|p: Seq<u8>| json_parse(p)->0))
    } else {
        None
    }
}

pub open spec fn bytes_views(v: Seq<Vec<u8>>) -> Seq<Seq<u8>> {
    v.map_values(|x: Vec<u8>| x@)
}

proof fn lemma_split_documents_nonempty(s: Seq<u8>)
    ensures
        split_documents(s).len() >= 1,
    decreases s.len(),
{
    if s.len() > 1 {
        lemma_split_documents_nonempty(s.drop_last());
    }
}

/// Cuts a batch response into its documents, as `split_documents` says.
pub fn split_response(resp: &[u8]) -> (r: Vec<Vec<u8>>)
    ensures
        bytes_views(r@) == split_documents(resp@),
{
    let mut done: Vec<Vec<u8>> = Vec::new();
    let mut cur: Vec<u8> = Vec::new();
    let mut i: usize = 0;
    assert(resp@.take(0) =~= Seq::<u8>::empty());
    assert(bytes_views(done@).push(cur@) =~= split_documents(resp@.take(0)));
    while i < resp.len()
        invariant
            0 <= i <= resp@.len(),
            bytes_views(done@).push(cur@) == split_documents(resp@.take(i as int)),
        decreases resp@.len() - i,
    {
        let b = resp[i];
        let ghost t = resp@.take(i + 1);
        assert(t.drop_last() =~= resp@.take(i as int));
        proof {
            lemma_split_documents_nonempty(resp@.take(i as int));
        }
        if i > 0 && (resp[i - 1] == 0x5du8 && b == 0x5bu8 || resp[i - 1] == 0x7du8 && b == 0x5bu8
            || resp[i - 1] == 0x5du8 && b == 0x7bu8) {
            assert(t[t.len() - 2] == resp@[i - 1]);
            assert(t.last() == b);
            assert(split_documents(t) == split_documents(resp@.take(i as int)).push(seq![b]));
            let old_cur = cur;
            done.push(old_cur);
            cur = Vec::new();
            cur.push(b);
            assert(bytes_views(done@).push(cur@) =~= split_documents(resp@.take(i as int)).push(
                seq![b],
            ));
        } else {
            let ghost prev = split_documents(resp@.take(i as int));
            if i == 0 {
                assert(t =~= seq![b]);
                assert(resp@.take(0) =~= Seq::<u8>::empty());
                assert(prev =~= seq![Seq::<u8>::empty()]);
                assert(split_documents(t) =~= prev.update(prev.len() - 1, prev.last().push(b)));
            } else {
                assert(t[t.len() - 2] == resp@[i - 1]);
                assert(t.last() == b);
                assert(split_documents(t) == prev.update(prev.len() - 1, prev.last().push(b)));
            }
            cur.push(b);
            assert(bytes_views(done@).push(cur@) =~= prev.update(
                prev.len() - 1,
                prev.last().push(b),
            ));
        }
        i = i + 1;
    }
    assert(resp@.take(i as int) =~= resp@);
    done.push(cur);
    done
}

/// Reads the documents of a batch response: a response that is not UTF-8
/// is refused; otherwise it is cut at every boundary pair and each piece is
/// read as one JSON document.
pub fn parse_batch_response(resp: &[u8]) -> (r: Result<Vec<Json>, HyprError>)
    ensures
        !valid_utf8(resp@) ==> r == Err::<Vec<Json>, HyprError>(HyprError::InvalidUtf8),
        valid_utf8(resp@) ==> match r {
            Ok(v) => batch_docs(resp@) == Some(items_view(v@)),
            Err(e) => batch_docs(resp@) is None && e is InvalidJson,
        },
{
    let mut copy: Vec<u8> = Vec::new();
    let mut k: usize = 0;
    while k < resp.len()
        invariant
            0 <= k <= resp@.len(),
            copy@ == resp@.take(k as int),
        decreases resp@.len() - k,
    {
        copy.push(resp[k]);
        k = k + 1;
        assert(copy@ =~= resp@.take(k as int));
    }
    assert(resp@.take(k as int) =~= resp@);
    if utf8_string(copy).is_none() {
        return Err(HyprError::InvalidUtf8);
    }
    let pieces = split_response(resp);
    let ghost ps = split_documents(resp@);
    let mut out: Vec<Json> = Vec::new();
    let mut i: usize = 0;
    while i < pieces.len()
        invariant
            0 <= i <= pieces@.len(),
            bytes_views(pieces@) == ps,
            ps == split_documents(resp@),
            valid_utf8(resp@),
            out@.len() == i,
            forall|j: int| 0 <= j < i ==> json_parse(#[trigger] ps[j]) == Some(out@[j].view()),
        decreases pieces@.len() - i,
    {
        assert(ps[i as int] == pieces@[i as int]@);
        match parse_json(pieces[i].as_slice()) {
            Ok(j) => {
                out.push(j);
            },
            Err(msg) => {
                assert(json_parse(ps[i as int]) is None);
                return Err(HyprError::InvalidJson(msg));
            },
        }
        i = i + 1;
    }
    assert(ps.map_values(|p: Seq<u8>| json_parse(p)->0) =~= items_view(out@));
    Ok(out)
}

// The law of the splitter.

/// No boundary pair lies inside `d`.
pub open spec fn no_inner_boundary(d: Seq<u8>) -> bool {
    forall|j: int| 0 <= j < d.len() - 1 ==> !is_boundary(#[trigger] d[j], d[j + 1])
}

/// Documents that the splitter can tell apart once they are written one
/// after another: none is empty or holds a boundary pair, and each one ends
/// and the next begins with a boundary pair.
pub open spec fn separable(docs: Seq<Seq<u8>>) -> bool {
    &&& docs.len() >= 1
    &&& forall|i: int| 0 <= i < docs.len() ==> (#[trigger] docs[i]).len() >= 1
    &&& forall|i: int| 0 <= i < docs.len() ==> no_inner_boundary(#[trigger] docs[i])
    &&& forall|i: int|
        0 <= i < docs.len() - 1 ==> is_boundary((#[trigger] docs[i]).last(), docs[i + 1][0])
}

/// The documents written one after another, with nothing between them.
pub open spec fn concat_docs(docs: Seq<Seq<u8>>) -> Seq<u8>
    decreases docs.len(),
{
    if docs.len() == 0 {
        Seq::empty()
    } else {
        concat_docs(docs.drop_last()) + docs.last()
    }
}

proof fn lemma_split_single(d: Seq<u8>)
    requires
        d.len() >= 1,
        no_inner_boundary(d),
    ensures
        split_documents(d) == seq![d],
    decreases d.len(),
{
    if d.len() > 1 {
        let p = d.drop_last();
        assert(no_inner_boundary(p)) by {
            assert forall|j: int| 0 <= j < p.len() - 1 implies !is_boundary(#[trigger] p[j], p[j + 1]) by {
                assert(p[j] == d[j] && p[j + 1] == d[j + 1]);
            }
        }
        lemma_split_single(p);
        assert(!is_boundary(d[d.len() - 2], d.last()));
        assert(p.push(d.last()) =~= d);
    }
}

proof fn lemma_split_append(a: Seq<u8>, d: Seq<u8>, k: int)
    requires
        a.len() >= 1,
        1 <= k <= d.len(),
        no_inner_boundary(d),
        is_boundary(a.last(), d[0]),
    ensures
        split_documents(a + d.take(k)) == split_documents(a).push(d.take(k)),
    decreases k,
{
    let s = a + d.take(k);
    if k == 1 {
        assert(s.drop_last() =~= a);
        assert(s[s.len() - 2] == a.last());
        assert(d.take(1) =~= seq![d[0]]);
    } else {
        assert(s.drop_last() =~= a + d.take(k - 1));
        lemma_split_append(a, d, k - 1);
        assert(s[s.len() - 2] == d[k - 2]);
        assert(!is_boundary(d[k - 2], d[k - 1]));
        assert(d.take(k - 1).push(d[k - 1]) =~= d.take(k));
    }
}

/// Writing separable documents one after another and cutting the result
/// gives back exactly those documents, in order.
pub proof fn lemma_split_round_trip(docs: Seq<Seq<u8>>)
    requires
        separable(docs),
    ensures
        split_documents(concat_docs(docs)) == docs,
    decreases docs.len(),
{
    if docs.len() == 1 {
        assert(docs[0].len() >= 1);
        assert(no_inner_boundary(docs[0]));
        assert(concat_docs(docs.drop_last()) =~= Seq::<u8>::empty());
        assert(concat_docs(docs) =~= docs[0]);
        lemma_split_single(docs[0]);
        assert(docs =~= seq![docs[0]]);
    } else {
        let init = docs.drop_last();
        let n = docs.len();
        assert(separable(init)) by {
            assert forall|i: int| 0 <= i < init.len() implies (#[trigger] init[i]).len() >= 1 by {
                assert(init[i] == docs[i]);
            }
            assert forall|i: int| 0 <= i < init.len() implies no_inner_boundary(#[trigger] init[i]) by {
                assert(init[i] == docs[i]);
            }
            assert forall|i: int| 0 <= i < init.len() - 1 implies is_boundary(
                (#[trigger] init[i]).last(),
                init[i + 1][0],
            ) by {
                assert(init[i] == docs[i] && init[i + 1] == docs[i + 1]);
            }
        }
        lemma_split_round_trip(init);
        let a = concat_docs(init);
        let d = docs.last();
        assert(docs[n - 2].len() >= 1);
        assert(init.len() >= 1);
        assert(a == concat_docs(init.drop_last()) + init.last());
        assert(a.last() == docs[n - 2].last());
        assert(is_boundary(docs[n - 2].last(), docs[n - 1][0]));
        assert(d.len() >= 1);
        assert(no_inner_boundary(docs[n - 1]));
        lemma_split_append(a, d, d.len() as int);
        assert(d.take(d.len() as int) =~= d);
        assert(init.push(d) =~= docs);
    }
}

/// A batch response made of separable documents that are each JSON reads
/// back as exactly those documents, in order.
pub proof fn lemma_batch_round_trip(docs: Seq<Seq<u8>>)
    requires
        separable(docs),
        forall|i: int| 0 <= i < docs.len() ==> (#[trigger] json_parse(docs[i])) is Some,
    ensures
        batch_docs(concat_docs(docs)) == Some(docs.map_values(|p: Seq<u8>| json_parse(p)->0)),
{
    lemma_split_round_trip(docs);
}

// Socket paths.

/// The path of the compositor's socket `name` for the given instance, under
/// `dir`.
pub open spec fn socket_path(dir: Seq<char>, instance: Seq<char>, name: Seq<char>) -> Seq<char> {
    dir + "/"@ + instance + "/."@ + name + ".sock"@
}

/// The directory of the compositor's sockets under the user's runtime
/// directory; the caller checks that it exists.
pub fn runtime_hypr_dir(runtime: &str) -> (r: String)
    ensures
        r@ == runtime@ + "/hypr"@,
{
    let mut s = runtime.to_owned();
    s.append("/hypr");
    s
}

/// The path of the compositor's socket `name` (`socket` or `socket2`).
///
/// `hypr_dir` is the socket directory under the runtime directory where that
/// exists; without it the sockets are under `/tmp/hypr`. Without an instance
/// signature there is no path.
pub fn get_hypr_socket(name: &str, instance: &Option<String>, hypr_dir: &Option<String>) -> (r:
    Result<String, HyprError>)
    ensures
        match instance {
            None => r == Err::<String, HyprError>(HyprError::MissingInstance),
            Some(i) => r is Ok && r->Ok_0@ == socket_path(
                match hypr_dir {
                    Some(d) => d@,
                    None => "/tmp/hypr"@,
                },
                i@,
                name@,
            ),
        },
{
    let inst = match instance {
        Some(i) => i,
        None => {
            return Err(HyprError::MissingInstance);
        },
    };
    let mut s = match hypr_dir {
        Some(d) => d.clone(),
        None => "/tmp/hypr".to_owned(),
    };
    s.append("/");
    s.append(inst.as_str());
    s.append("/.");
    s.append(name);
    s.append(".sock");
    Ok(s)
}

} // verus!

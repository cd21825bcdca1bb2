//! The canonical form of a request: URI path, query string, signed headers,
//! and the canonical request text built from them.
use vstd::prelude::*;

use crate::encode::{percent_decode, percent_encode, uri_decode, uri_encode};
use crate::text::{
    bytes_equal, bytes_less, bytes_lt, join, join_bytes, lemma_join_push, lower, push_all,
    split, split_bytes, split_first, squeeze, squeeze_bytes, to_lower, trim, trim_bytes, views,
    before_first, after_first,
};

verus! {

/// One request header, as received.
pub struct Header {
    pub name: Vec<u8>,
    pub value: Vec<u8>,
}

/// The headers of a request as (name, value) pairs, in the order received.
pub open spec fn header_views(hs: Seq<Header>) -> Seq<(Seq<u8>, Seq<u8>)> {
    hs.map_values(|h: Header| (h.name@, h.value@))
}

/// The canonical values of every header whose lower-cased name is `name`, in order:
/// each trimmed, with inner whitespace runs collapsed to one space.
pub open spec fn header_values(hs: Seq<(Seq<u8>, Seq<u8>)>, name: Seq<u8>) -> Seq<Seq<u8>>
    decreases hs.len(),
{
    if hs.len() == 0 {
        Seq::empty()
    } else {
        let p = header_values(hs.drop_last(), name);
        if lower(hs.last().0) == name {
            p.push(squeeze(trim(hs.last().1)))
        } else {
            p
        }
    }
}

/// `name:value1,value2,...` followed by a newline.
pub open spec fn header_line(name: Seq<u8>, values: Seq<Seq<u8>>) -> Seq<u8> {
    name + seq![58u8] + join(values, 44u8) + seq![10u8]
}

/// One line per signed header name, in the order of `names`; `None` when one of
/// the names matches no header of the request.
pub open spec fn canonical_headers(hs: Seq<(Seq<u8>, Seq<u8>)>, names: Seq<Seq<u8>>) -> Option<
    Seq<u8>,
>
    decreases names.len(),
{
    if names.len() == 0 {
        Some(Seq::empty())
    } else {
        match canonical_headers(hs, names.drop_last()) {
            None => None,
            Some(c) => {
                let vs = header_values(hs, names.last());
                if vs.len() == 0 {
                    None
                } else {
                    Some(c + header_line(names.last(), vs))
                }
            },
        }
    }
}

/// The canonical URI: the path decoded and encoded again with `/` kept; `/` for an empty path.
pub open spec fn canonical_uri(path: Seq<u8>) -> Seq<u8> {
    if path.len() == 0 {
        seq![47u8]
    } else {
        uri_encode(uri_decode(path), true)
    }
}

/// A query parameter `key=value` (or a bare `key`), decoded and encoded again.
pub open spec fn query_pair(seg: Seq<u8>) -> (Seq<u8>, Seq<u8>) {
    (
        uri_encode(uri_decode(before_first(seg, 61u8)), false),
        uri_encode(uri_decode(after_first(seg, 61u8)), false),
    )
}

/// The encoded parameters of the query segments, empty segments left out.
pub open spec fn query_pairs(segs: Seq<Seq<u8>>) -> Seq<(Seq<u8>, Seq<u8>)>
    decreases segs.len(),
{
    if segs.len() == 0 {
        Seq::empty()
    } else {
        let p = query_pairs(segs.drop_last());
        if segs.last().len() == 0 {
            p
        } else {
            p.push(query_pair(segs.last()))
        }
    }
}

/// Order of parameters: by key, then by value, byte-wise.
pub open spec fn pair_lt(a: (Seq<u8>, Seq<u8>), b: (Seq<u8>, Seq<u8>)) -> bool {
    bytes_lt(a.0, b.0) || (a.0 == b.0 && bytes_lt(a.1, b.1))
}

/// The first position at or after `i` whose entry does not sort before `x`.
pub open spec fn insert_pos(s: Seq<(Seq<u8>, Seq<u8>)>, x: (Seq<u8>, Seq<u8>), i: int) -> int
    decreases s.len() - i,
{
    if i < 0 || i >= s.len() {
        s.len() as int
    } else if !pair_lt(s[i], x) {
        i
    } else {
        insert_pos(s, x, i + 1)
    }
}

/// `x` placed into `s` before the first entry that does not sort before it.
pub open spec fn insert_sorted(s: Seq<(Seq<u8>, Seq<u8>)>, x: (Seq<u8>, Seq<u8>)) -> Seq<
    (Seq<u8>, Seq<u8>),
> {
    let p = insert_pos(s, x, 0);
    s.take(p).push(x) + s.skip(p)
}

/// The parameters in ascending order (insertion order among equal ones).
pub open spec fn sort_pairs(s: Seq<(Seq<u8>, Seq<u8>)>) -> Seq<(Seq<u8>, Seq<u8>)>
    decreases s.len(),
{
    if s.len() == 0 {
        s
    } else {
        insert_sorted(sort_pairs(s.drop_last()), s.last())
    }
}

/// `key=value` pairs joined with `&`.
pub open spec fn join_pairs(ps: Seq<(Seq<u8>, Seq<u8>)>) -> Seq<u8> {
    join(ps.map_values(|p: (Seq<u8>, Seq<u8>)| p.0 + seq![61u8] + p.1), 38u8)
}

/// The canonical query string.
pub open spec fn canonical_query(query: Seq<u8>) -> Seq<u8> {
    join_pairs(sort_pairs(query_pairs(split(query, 38u8))))
}

/// The canonical request text; `None` when a signed header is absent from the request.
pub open spec fn canonical_request_of(
    method: Seq<u8>,
    path: Seq<u8>,
    query: Seq<u8>,
    hs: Seq<(Seq<u8>, Seq<u8>)>,
    names: Seq<Seq<u8>>,
    hashed_payload: Seq<u8>,
) -> Option<Seq<u8>> {
    match canonical_headers(hs, names) {
        None => None,
        Some(ch) => Some(
            method + seq![10u8] + canonical_uri(path) + seq![10u8] + canonical_query(query) + seq![
                10u8,
            ] + ch + seq![10u8] + join(names, 59u8) + seq![10u8] + hashed_payload,
        ),
    }
}

/// Query parameters as (key, value) byte strings.
pub open spec fn pair_views(v: Seq<(Vec<u8>, Vec<u8>)>) -> Seq<(Seq<u8>, Seq<u8>)> {
    v.map_values(|p: (Vec<u8>, Vec<u8>)| (p.0@, p.1@))
}

/// The canonical values of the headers named `name` (lower-case), joined with commas;
/// `None` when no header has that name.
pub fn joined_header_values(headers: &Vec<Header>, name: &[u8]) -> (r: Option<Vec<u8>>)
    ensures
        match r {
            None => header_values(header_views(headers@), name@).len() == 0,
            Some(v) => header_values(header_views(headers@), name@).len() > 0 && v@ == join(
                header_values(header_views(headers@), name@),
                44u8,
            ),
        },
{
    let ghost hv = header_views(headers@);
    let mut joined: Vec<u8> = Vec::new();
    let mut found = false;
    let mut i: usize = 0;
    assert(hv.take(0) =~= Seq::<(Seq<u8>, Seq<u8>)>::empty());
    while i < headers.len()
        invariant
            i <= headers@.len(),
            hv == header_views(headers@),
            found == (header_values(hv.take(i as int), name@).len() > 0),
            joined@ == join(header_values(hv.take(i as int), name@), 44u8),
        decreases headers@.len() - i,
    {
        let h = &headers[i];
        let ghost prev = header_values(hv.take(i as int), name@);
        assert(hv.take(i + 1).drop_last() =~= hv.take(i as int));
        assert(hv.take(i + 1).last() == (h.name@, h.value@));
        let lname = to_lower(h.name.as_slice());
        if bytes_equal(lname.as_slice(), name) {
            let t = trim_bytes(h.value.as_slice());
            let v = squeeze_bytes(t.as_slice());
            proof {
                lemma_join_push(prev, v@, 44u8);
            }
            if found {
                joined.push(44u8);
            }
            push_all(&mut joined, v.as_slice());
            found = true;
        }
        i = i + 1;
    }
    assert(hv.take(headers@.len() as int) =~= hv);
    if found {
        Some(joined)
    } else {
        None
    }
}

proof fn lemma_headers_none_extends(hs: Seq<(Seq<u8>, Seq<u8>)>, names: Seq<Seq<u8>>, k: int)
    requires
        0 <= k <= names.len(),
        canonical_headers(hs, names.take(k)).is_none(),
    ensures
        canonical_headers(hs, names).is_none(),
    decreases names.len() - k,
{
    if k < names.len() {
        assert(names.take(k + 1).drop_last() =~= names.take(k));
        lemma_headers_none_extends(hs, names, k + 1);
    } else {
        assert(names.take(k) =~= names);
    }
}

/// The canonical header lines for the signed names, in their order;
/// `None` when one of them is absent from the request.
pub fn build_canonical_headers(headers: &Vec<Header>, names: &Vec<Vec<u8>>) -> (r: Option<Vec<u8>>)
    ensures
        match r {
            None => canonical_headers(header_views(headers@), views(names@)).is_none(),
            Some(v) => canonical_headers(header_views(headers@), views(names@)) == Some(v@),
        },
{
    let ghost hv = header_views(headers@);
    let ghost nv = views(names@);
    let mut out: Vec<u8> = Vec::new();
    let mut i: usize = 0;
    assert(nv.take(0) =~= Seq::<Seq<u8>>::empty());
    while i < names.len()
        invariant
            i <= names@.len(),
            hv == header_views(headers@),
            nv == views(names@),
            canonical_headers(hv, nv.take(i as int)) == Some(out@),
        decreases names@.len() - i,
    {
        let name = &names[i];
        assert(nv.take(i + 1).drop_last() =~= nv.take(i as int));
        assert(nv.take(i + 1).last() == name@);
        match joined_header_values(headers, name.as_slice()) {
            None => {
                proof {
                    lemma_headers_none_extends(hv, nv, i + 1);
                }
                return None;
            },
            Some(v) => {
                push_all(&mut out, name.as_slice());
                out.push(58u8);
                push_all(&mut out, v.as_slice());
                out.push(10u8);
                assert(out@ =~= canonical_headers(hv, nv.take(i as int)).unwrap() + header_line(
                    name@,
                    header_values(hv, name@),
                ));
            },
        }
        i = i + 1;
    }
    assert(nv.take(names@.len() as int) =~= nv);
    Some(out)
}

/// The canonical URI of a request path.
pub fn build_canonical_uri(path: &[u8]) -> (r: Vec<u8>)
    ensures
        r@ == canonical_uri(path@),
{
    if path.len() == 0 {
        let mut r: Vec<u8> = Vec::new();
        r.push(47u8);
        assert(r@ =~= seq![47u8]);
        r
    } else {
        let d = percent_decode(path);
        percent_encode(d.as_slice(), true)
    }
}

fn pair_less(a: &(Vec<u8>, Vec<u8>), b: &(Vec<u8>, Vec<u8>)) -> (r: bool)
    ensures
        r == pair_lt((a.0@, a.1@), (b.0@, b.1@)),
{
    bytes_less(a.0.as_slice(), b.0.as_slice()) || (bytes_equal(a.0.as_slice(), b.0.as_slice())
        && bytes_less(a.1.as_slice(), b.1.as_slice()))
}

/// Inserts `x` into the ordered parameters `out`, after every entry that sorts before it.
fn insert_pair(out: &mut Vec<(Vec<u8>, Vec<u8>)>, x: (Vec<u8>, Vec<u8>))
    ensures
        pair_views(final(out)@) == insert_sorted(pair_views(old(out)@), (x.0@, x.1@)),
{
    let ghost pv = pair_views(out@);
    let ghost xv = (x.0@, x.1@);
    let mut j: usize = 0;
    loop
        invariant
            j <= out@.len(),
            pv == pair_views(out@),
            xv == (x.0@, x.1@),
            pv == pair_views(old(out)@),
            insert_pos(pv, xv, 0) == insert_pos(pv, xv, j as int),
        ensures
            j <= out@.len(),
            pv == pair_views(out@),
            insert_pos(pv, xv, 0) == j as int,
        decreases out@.len() - j,
    {
        if j >= out.len() {
            break;
        }
        let less = pair_less(&out[j], &x);
        assert(pv[j as int] == (out@[j as int].0@, out@[j as int].1@));
        assert(less == pair_lt((out@[j as int].0@, out@[j as int].1@), (x.0@, x.1@)));
        assert(xv == (x.0@, x.1@));
        assert(less == pair_lt(pv[j as int], xv));
        if !less {
            break;
        }
        assert(insert_pos(pv, xv, j as int) == insert_pos(pv, xv, j + 1));
        j = j + 1;
    }
    out.insert(j, x);
    assert(pair_views(out@) =~= pv.take(j as int).push(xv) + pv.skip(j as int));
}

/// The canonical query string: parameters decoded, encoded again, sorted by key
/// then value, and joined as `key=value` with `&`.
pub fn build_canonical_query(query: &[u8]) -> (r: Vec<u8>)
    ensures
        r@ == canonical_query(query@),
{
    let segs = split_bytes(query, 38u8);
    let ghost sv = views(segs@);
    let mut sorted: Vec<(Vec<u8>, Vec<u8>)> = Vec::new();
    let mut i: usize = 0;
    assert(sv.take(0) =~= Seq::<Seq<u8>>::empty());
    while i < segs.len()
        invariant
            i <= segs@.len(),
            sv == views(segs@),
            pair_views(sorted@) == sort_pairs(query_pairs(sv.take(i as int))),
        decreases segs@.len() - i,
    {
        let seg = &segs[i];
        assert(sv.take(i + 1).drop_last() =~= sv.take(i as int));
        assert(sv.take(i + 1).last() == seg@);
        if seg.len() > 0 {
            let (k, v) = split_first(seg.as_slice(), 61u8);
            let kd = percent_decode(k.as_slice());
            let vd = percent_decode(v.as_slice());
            let ke = percent_encode(kd.as_slice(), false);
            let ve = percent_encode(vd.as_slice(), false);
            let ghost before = query_pairs(sv.take(i as int));
            assert(query_pairs(sv.take(i + 1)).drop_last() =~= before);
            insert_pair(&mut sorted, (ke, ve));
        }
        i = i + 1;
    }
    assert(sv.take(segs@.len() as int) =~= sv);
    let mut texts: Vec<Vec<u8>> = Vec::new();
    let mut j: usize = 0;
    while j < sorted.len()
        invariant
            j <= sorted@.len(),
            views(texts@) == pair_views(sorted@).take(j as int).map_values(
                |p: (Seq<u8>, Seq<u8>)| p.0 + seq![61u8] + p.1,
            ),
        decreases sorted@.len() - j,
    {
        let mut t: Vec<u8> = Vec::new();
        push_all(&mut t, sorted[j].0.as_slice());
        t.push(61u8);
        push_all(&mut t, sorted[j].1.as_slice());
        assert(pair_views(sorted@)[j as int] == (sorted@[j as int].0@, sorted@[j as int].1@));
        assert(t@ =~= sorted@[j as int].0@ + seq![61u8] + sorted@[j as int].1@);
        assert(pair_views(sorted@).take(j + 1) =~= pair_views(sorted@).take(j as int).push(
            pair_views(sorted@)[j as int],
        ));
        let ghost old_texts = texts@;
        texts.push(t);
        assert(views(texts@) =~= views(old_texts).push(t@));
        j = j + 1;
        assert(views(texts@) =~= pair_views(sorted@).take(j as int).map_values(
            |p: (Seq<u8>, Seq<u8>)| p.0 + seq![61u8] + p.1,
        ));
    }
    assert(pair_views(sorted@).take(sorted@.len() as int) =~= pair_views(sorted@));
    join_bytes(&texts, 38u8)
}

/// The canonical request for the given request parts, signed header names and
/// payload digest; `None` when a signed header is absent from the request.
pub fn build_canonical_request(
    method: &[u8],
    path: &[u8],
    query: &[u8],
    headers: &Vec<Header>,
    names: &Vec<Vec<u8>>,
    hashed_payload: &[u8],
) -> (r: Option<Vec<u8>>)
    ensures
        match r {
            None => canonical_request_of(
                method@,
                path@,
                query@,
                header_views(headers@),
                views(names@),
                hashed_payload@,
            ).is_none(),
            Some(v) => canonical_request_of(
                method@,
                path@,
                query@,
                header_views(headers@),
                views(names@),
                hashed_payload@,
            ) == Some(v@),
        },
{
    let ch = match build_canonical_headers(headers, names) {
        None => {
            return None;
        },
        Some(c) => c,
    };
    let uri = build_canonical_uri(path);
    let q = build_canonical_query(query);
    let sh = join_bytes(names, 59u8);
    let mut out: Vec<u8> = Vec::new();
    push_all(&mut out, method);
    out.push(10u8);
    push_all(&mut out, uri.as_slice());
    out.push(10u8);
    push_all(&mut out, q.as_slice());
    out.push(10u8);
    push_all(&mut out, ch.as_slice());
    out.push(10u8);
    push_all(&mut out, sh.as_slice());
    out.push(10u8);
    push_all(&mut out, hashed_payload);
    assert(out@ =~= method@ + seq![10u8] + canonical_uri(path@) + seq![10u8] + canonical_query(
        query@,
    ) + seq![10u8] + ch@ + seq![10u8] + join(views(names@), 59u8) + seq![10u8] + hashed_payload@);
    Some(out)
}

} // verus!

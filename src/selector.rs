//! Resolution of a probe request into the ordered, de-duplicated list of
//! target plugins, and of the batch id.

use vstd::prelude::*;
use crate::manifest::LoadedPlugin;
use crate::text::{normalize_token, normalized_token, opt_text};

verus! {

/// The ids of the registry's plugins, in registry order.
pub open spec fn ids_of(registry: Seq<LoadedPlugin>) -> Seq<Seq<char>> {
    registry.map_values(|p: LoadedPlugin| p.manifest.id@)
}

/// The ids of a list of strings.
pub open spec fn texts_of(v: Seq<String>) -> Seq<Seq<char>> {
    v.map_values(|s: String| s@)
}

/// The first position at or after `j` whose id is `id`.
pub open spec fn find_from(ids: Seq<Seq<char>>, id: Seq<char>, j: int) -> Option<int>
    decreases ids.len() - j,
{
    if j < 0 || j >= ids.len() {
        None
    } else if ids[j] == id {
        Some(j)
    } else {
        find_from(ids, id, j + 1)
    }
}

/// Registry positions picked by an explicit id list: the list is read in
/// order, an id already seen is skipped, and an id is kept where the
/// registry holds it.
pub open spec fn resolve(ids: Seq<Seq<char>>, req: Seq<Seq<char>>) -> Seq<usize>
    decreases req.len(),
{
    if req.len() == 0 {
        Seq::empty()
    } else {
        let prev = resolve(ids, req.drop_last());
        let id = req.last();
        if req.drop_last().contains(id) {
            prev
        } else {
            match find_from(ids, id, 0) {
                Some(j) => prev.push(j as usize),
                None => prev,
            }
        }
    }
}

/// Registry positions picked by a request: every plugin when no list is
/// given, else the resolution of the list.
pub open spec fn selection(ids: Seq<Seq<char>>, req: Option<Seq<Seq<char>>>) -> Seq<usize> {
    match req {
        None => Seq::new(ids.len(), |i: int| i as usize),
        Some(r) => resolve(ids, r),
    }
}

/// The request's id list, as text.
pub open spec fn request_of(req: Option<Vec<String>>) -> Option<Seq<Seq<char>>> {
    match req {
        Some(v) => Some(texts_of(v@)),
        None => None,
    }
}

/// Position of the first plugin whose id is `id`.
pub fn find_plugin(registry: &Vec<LoadedPlugin>, id: &String) -> (r: Option<usize>)
    ensures
        match r {
            Some(j) => find_from(ids_of(registry@), id@, 0) == Some(j as int),
            None => find_from(ids_of(registry@), id@, 0) is None,
        },
{
    let ghost ids = ids_of(registry@);
    let mut j: usize = 0;
    while j < registry.len()
        invariant
            j <= registry@.len(),
            ids == ids_of(registry@),
            find_from(ids, id@, j as int) == find_from(ids, id@, 0),
        decreases registry@.len() - j,
    {
        if registry[j].manifest.id == *id {
            return Some(j);
        }
        j = j + 1;
    }
    None
}

/// Whether `id` occurs among the first `n` entries of `req`.
fn seen_before(req: &Vec<String>, n: usize, id: &String) -> (r: bool)
    requires
        n <= req@.len(),
    ensures
        r == texts_of(req@).take(n as int).contains(id@),
{
    let ghost prefix = texts_of(req@).take(n as int);
    let mut t: usize = 0;
    while t < n
        invariant
            t <= n <= req@.len(),
            prefix == texts_of(req@).take(n as int),
            forall|u: int| 0 <= u < t ==> prefix[u] != id@,
        decreases n - t,
    {
        if req[t] == *id {
            assert(prefix[t as int] == id@);
            return true;
        }
        t = t + 1;
    }
    false
}

/// Registry positions that a request picks, in the order described by
/// `selection`.
pub fn select_targets(registry: &Vec<LoadedPlugin>, plugin_ids: &Option<Vec<String>>) -> (r: Vec<
    usize,
>)
    ensures
        r@ == selection(ids_of(registry@), request_of(*plugin_ids)),
{
    let ghost ids = ids_of(registry@);
    match plugin_ids {
        None => {
            let mut out: Vec<usize> = Vec::new();
            let mut i: usize = 0;
            while i < registry.len()
                invariant
                    i <= registry@.len(),
                    out@ =~= Seq::new(i as nat, |k: int| k as usize),
                decreases registry@.len() - i,
            {
                out.push(i);
                i = i + 1;
            }
            out
        },
        Some(req) => {
            let ghost rq = texts_of(req@);
            let mut out: Vec<usize> = Vec::new();
            let mut i: usize = 0;
            while i < req.len()
                invariant
                    i <= req@.len(),
                    rq == texts_of(req@),
                    ids == ids_of(registry@),
                    out@ == resolve(ids, rq.take(i as int)),
                decreases req@.len() - i,
            {
                let ghost pre = rq.take(i as int);
                assert(rq.take(i + 1).drop_last() =~= pre);
                assert(rq.take(i + 1).last() == req@[i as int]@);
                if !seen_before(req, i, &req[i]) {
                    match find_plugin(registry, &req[i]) {
                        Some(j) => {
                            out.push(j);
                        },
                        None => {},
                    }
                }
                i = i + 1;
            }
            assert(rq.take(req@.len() as int) =~= rq);
            out
        },
    }
}

/// Relies on `uuid::Uuid::new_v4` and its hyphenated `Display`: a fresh
/// random token of 36 characters.
#[verifier::external_body]
fn fresh_token() -> (r: String)
    ensures
        r@.len() == 36,
{
    uuid::Uuid::new_v4().to_string()
}

/// The batch id: the caller's token trimmed, unless it is missing or
/// blank, in which case a fresh random token.
pub fn resolve_batch_id(batch_id: Option<String>) -> (r: String)
    ensures
        match normalized_token(opt_text(batch_id)) {
            Some(t) => r@ == t,
            None => r@.len() == 36,
        },
{
    match normalize_token(batch_id) {
        Some(t) => t,
        None => fresh_token(),
    }
}

/// Every position that a request selects is a registry position.
pub proof fn lemma_selection_in_bounds(ids: Seq<Seq<char>>, req: Option<Seq<Seq<char>>>)
    requires
        ids.len() <= usize::MAX,
    ensures
        forall|t: int|
            0 <= t < selection(ids, req).len() ==> #[trigger] selection(ids, req)[t] < ids.len(),
{
    match req {
        None => {},
        Some(r) => lemma_resolve_in_bounds(ids, r),
    }
}

pub proof fn lemma_find_in_bounds(ids: Seq<Seq<char>>, id: Seq<char>, j: int)
    ensures
        match find_from(ids, id, j) {
            Some(k) => j <= k < ids.len() && ids[k] == id,
            None => true,
        },
    decreases ids.len() - j,
{
    if 0 <= j < ids.len() && ids[j] != id {
        lemma_find_in_bounds(ids, id, j + 1);
    }
}

proof fn lemma_resolve_in_bounds(ids: Seq<Seq<char>>, req: Seq<Seq<char>>)
    requires
        ids.len() <= usize::MAX,
    ensures
        forall|t: int|
            0 <= t < resolve(ids, req).len() ==> #[trigger] resolve(ids, req)[t] < ids.len(),
    decreases req.len(),
{
    if req.len() > 0 {
        lemma_resolve_in_bounds(ids, req.drop_last());
        lemma_find_in_bounds(ids, req.last(), 0);
        let prev = resolve(ids, req.drop_last());
        let cur = resolve(ids, req);
        assert forall|t: int| 0 <= t < cur.len() implies #[trigger] cur[t] < ids.len() by {
            if t < prev.len() {
                assert(prev[t] < ids.len());
            }
        }
    }
}

/// Where `id` first occurs in `s`, or the length of `s`.
pub open spec fn first_index(s: Seq<Seq<char>>, id: Seq<char>) -> int {
    match find_from(s, id, 0) {
        Some(k) => k,
        None => s.len() as int,
    }
}

proof fn lemma_find_push(s: Seq<Seq<char>>, y: Seq<char>, id: Seq<char>, j: int)
    requires
        0 <= j <= s.len(),
    ensures
        find_from(s.push(y), id, j) == match find_from(s, id, j) {
            Some(k) => Some(k),
            None => if id == y {
                Some(s.len() as int)
            } else {
                None
            },
        },
    decreases s.len() - j,
{
    if j < s.len() {
        assert(s.push(y)[j] == s[j]);
        if s[j] != id {
            lemma_find_push(s, y, id, j + 1);
        }
    } else {
        assert(s.push(y)[j] == y);
        assert(find_from(s.push(y), id, j + 1) is None);
    }
}

proof fn lemma_find_found(s: Seq<Seq<char>>, id: Seq<char>, j: int, t: int)
    requires
        0 <= j <= t < s.len(),
        s[t] == id,
    ensures
        find_from(s, id, j) is Some,
    decreases t - j,
{
    if s[j] != id {
        lemma_find_found(s, id, j + 1, t);
    }
}

/// `find_from` from the start finds `id` exactly when `s` holds it.
pub proof fn lemma_find_iff_contains(s: Seq<Seq<char>>, id: Seq<char>)
    ensures
        (find_from(s, id, 0) is Some) == s.contains(id),
{
    lemma_find_in_bounds(s, id, 0);
    if s.contains(id) {
        let t = choose|t: int| 0 <= t < s.len() && s[t] == id;
        lemma_find_found(s, id, 0, t);
    }
}

/// Without an id list every plugin of the registry is a target, in
/// registry order.
pub proof fn lemma_no_list_selects_all(registry: Seq<LoadedPlugin>)
    requires
        registry.len() <= usize::MAX,
    ensures
        selection(ids_of(registry), None).len() == registry.len(),
        forall|i: int|
            0 <= i < registry.len() ==> #[trigger] selection(ids_of(registry), None)[i] == i,
{
}

/// A resolved id list holds each registered requested id once, no other
/// id, in the order in which the ids first occur in the request; unknown
/// and repeated ids are dropped.
pub proof fn lemma_resolve_first_seen(ids: Seq<Seq<char>>, req: Seq<Seq<char>>)
    requires
        ids.len() <= usize::MAX,
    ensures
        forall|a: int, b: int|
            0 <= a < b < resolve(ids, req).len() ==> ids[#[trigger] resolve(ids, req)[a] as int]
                != ids[#[trigger] resolve(ids, req)[b] as int] && first_index(
                req,
                ids[resolve(ids, req)[a] as int],
            ) < first_index(req, ids[resolve(ids, req)[b] as int]),
        forall|a: int|
            0 <= a < resolve(ids, req).len() ==> req.contains(
                ids[#[trigger] resolve(ids, req)[a] as int],
            ) && find_from(ids, ids[resolve(ids, req)[a] as int], 0) == Some(
                resolve(ids, req)[a] as int,
            ),
        forall|t: int|
            0 <= t < req.len() && ids.contains(#[trigger] req[t]) ==> exists|a: int|
                0 <= a < resolve(ids, req).len() && ids[resolve(ids, req)[a] as int] == req[t],
    decreases req.len(),
{
    if req.len() > 0 {
        let pre = req.drop_last();
        let x = req.last();
        let r0 = resolve(ids, pre);
        let r = resolve(ids, req);
        lemma_resolve_first_seen(ids, pre);
        lemma_resolve_in_bounds(ids, pre);
        lemma_resolve_in_bounds(ids, req);
        lemma_find_in_bounds(ids, x, 0);
        lemma_find_iff_contains(ids, x);
        lemma_find_iff_contains(pre, x);
        assert(req =~= pre.push(x));
        assert forall|id: Seq<char>| #[trigger] pre.contains(id) implies first_index(req, id)
            == first_index(pre, id) && first_index(pre, id) < pre.len() by {
            lemma_find_push(pre, x, id, 0);
            lemma_find_iff_contains(pre, id);
            lemma_find_in_bounds(pre, id, 0);
        }
        assert forall|id: Seq<char>| #[trigger] pre.contains(id) implies req.contains(id) by {
            let t = choose|t: int| 0 <= t < pre.len() && pre[t] == id;
            assert(req[t] == id);
        }
        if !pre.contains(x) {
            lemma_find_push(pre, x, x, 0);
            assert(first_index(req, x) == pre.len());
        }
        assert forall|a: int, b: int| 0 <= a < b < r.len() implies ids[#[trigger] r[a] as int]
            != ids[#[trigger] r[b] as int] && first_index(req, ids[r[a] as int]) < first_index(
            req,
            ids[r[b] as int],
        ) by {
            if b < r0.len() {
                assert(r[a] == r0[a] && r[b] == r0[b]);
                assert(pre.contains(ids[r0[a] as int]));
                assert(pre.contains(ids[r0[b] as int]));
            } else {
                assert(r[a] == r0[a]);
                assert(pre.contains(ids[r0[a] as int]));
            }
        }
        assert forall|a: int| 0 <= a < r.len() implies req.contains(ids[#[trigger] r[a] as int])
            && find_from(ids, ids[r[a] as int], 0) == Some(r[a] as int) by {
            if a < r0.len() {
                assert(r[a] == r0[a]);
                assert(pre.contains(ids[r0[a] as int]));
            } else {
                assert(req[req.len() - 1] == x);
            }
        }
        assert forall|t: int| 0 <= t < req.len() && ids.contains(#[trigger] req[t]) implies exists|
            a: int,
        | 0 <= a < r.len() && ids[r[a] as int] == req[t] by {
            if t < pre.len() {
                assert(pre[t] == req[t]);
                let a0 = choose|a: int| 0 <= a < r0.len() && ids[r0[a] as int] == pre[t];
                assert(r[a0] == r0[a0]);
            } else if pre.contains(x) {
                let t0 = choose|t0: int| 0 <= t0 < pre.len() && pre[t0] == x;
                assert(req[t0] == pre[t0]);
                assert(ids.contains(pre[t0]));
                let a0 = choose|a: int| 0 <= a < r0.len() && ids[r0[a] as int] == pre[t0];
                assert(r[a0] == r0[a0]);
            } else {
                assert(r[r0.len() as int] == find_from(ids, x, 0).unwrap() as usize);
            }
        }
    }
}

} // verus!

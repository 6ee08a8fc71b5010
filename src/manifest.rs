//! Plugin manifests, loaded plugins, and the listing handed to the UI.

use vstd::prelude::*;

verus! {

/// The kind of a manifest line.
#[derive(Debug, Clone, Copy, PartialEq, Eq, Structural)]
pub enum LineKind {
    Progress,
    Text,
    Badge,
}

/// The tag under which a line kind is shown to the UI.
pub open spec fn tag_of(k: LineKind) -> Seq<char> {
    match k {
        LineKind::Progress => "progress"@,
        LineKind::Text => "text"@,
        LineKind::Badge => "badge"@,
    }
}

impl LineKind {
    /// The tag of this kind.
    pub fn tag(&self) -> (r: String)
        ensures
            r@ == tag_of(*self),
    {
        match self {
            LineKind::Progress => String::from_str("progress"),
            LineKind::Text => String::from_str("text"),
            LineKind::Badge => String::from_str("badge"),
        }
    }
}

/// One metric line that a plugin declares it can report.
#[derive(Debug, Clone)]
pub struct ManifestLine {
    pub kind: LineKind,
    pub label: String,
    pub scope: String,
    /// Rank among the progress lines eligible as the headline metric.
    pub primary_order: Option<u32>,
}

/// A plugin's identity, display metadata and declared lines.
#[derive(Debug, Clone)]
pub struct Manifest {
    pub id: String,
    pub name: String,
    pub icon_url: String,
    pub brand_color: Option<String>,
    pub lines: Vec<ManifestLine>,
}

/// A manifest together with its icon resolved to a data URL.
#[derive(Debug, Clone)]
pub struct LoadedPlugin {
    pub manifest: Manifest,
    pub icon_data_url: String,
}

/// A manifest line as listed to the UI.
#[derive(Debug, Clone)]
pub struct ManifestLineDto {
    pub line_type: String,
    pub label: String,
    pub scope: String,
}

/// A link a plugin offers, as listed to the UI.
#[derive(Debug, Clone)]
pub struct PluginLinkDto {
    pub label: String,
    pub url: String,
}

/// A plugin as listed to the UI.
#[derive(Debug, Clone)]
pub struct PluginMeta {
    pub id: String,
    pub name: String,
    pub icon_url: String,
    pub brand_color: Option<String>,
    pub lines: Vec<ManifestLineDto>,
    pub primary_candidates: Vec<String>,
}

/// A line that may be the headline metric: a progress line with a rank.
pub open spec fn is_candidate(l: ManifestLine) -> bool {
    l.kind == LineKind::Progress && l.primary_order is Some
}

/// The rank of a line (zero where it has none).
pub open spec fn order_key(l: ManifestLine) -> u32 {
    match l.primary_order {
        Some(o) => o,
        None => 0,
    }
}

/// Indices of the candidate lines among the first `n` lines, in line order.
pub open spec fn candidate_indices(lines: Seq<ManifestLine>, n: int) -> Seq<usize>
    decreases n,
{
    if n <= 0 {
        Seq::empty()
    } else {
        let prev = candidate_indices(lines, n - 1);
        if is_candidate(lines[n - 1]) {
            prev.push((n - 1) as usize)
        } else {
            prev
        }
    }
}

/// The first position at or after `j` in `s` whose line ranks above `k`,
/// or the length of `s`.
pub open spec fn first_above(lines: Seq<ManifestLine>, s: Seq<usize>, k: u32, j: int) -> int
    decreases s.len() - j,
{
    if j < 0 || j >= s.len() {
        s.len() as int
    } else if order_key(lines[s[j] as int]) > k {
        j
    } else {
        first_above(lines, s, k, j + 1)
    }
}

/// Stable ranking of line indices by ascending rank: each index is placed
/// after every earlier one of equal or lower rank.
pub open spec fn ranked(lines: Seq<ManifestLine>, s: Seq<usize>) -> Seq<usize>
    decreases s.len(),
{
    if s.len() == 0 {
        s
    } else {
        let r = ranked(lines, s.drop_last());
        let i = s.last();
        r.insert(first_above(lines, r, order_key(lines[i as int]), 0), i)
    }
}

/// Labels of the candidate lines, stably sorted by ascending rank.
pub open spec fn primary_candidates_of(lines: Seq<ManifestLine>) -> Seq<Seq<char>> {
    ranked(lines, candidate_indices(lines, lines.len() as int)).map_values(
        |i: usize| lines[i as int].label@,
    )
}

/// `d` lists the line `l`.
pub open spec fn describes_line(d: ManifestLineDto, l: ManifestLine) -> bool {
    &&& d.line_type@ == tag_of(l.kind)
    &&& d.label@ == l.label@
    &&& d.scope@ == l.scope@
}

/// `m` lists the plugin `p`.
pub open spec fn describes(m: PluginMeta, p: LoadedPlugin) -> bool {
    &&& m.id@ == p.manifest.id@
    &&& m.name@ == p.manifest.name@
    &&& m.icon_url@ == p.icon_data_url@
    &&& opt_text_eq(m.brand_color, p.manifest.brand_color)
    &&& m.lines@.len() == p.manifest.lines@.len()
    &&& forall|i: int|
        0 <= i < m.lines@.len() ==> describes_line(#[trigger] m.lines@[i], p.manifest.lines@[i])
    &&& m.primary_candidates@.map_values(|s: String| s@) == primary_candidates_of(
        p.manifest.lines@,
    )
}

/// Two optional strings hold the same text.
pub open spec fn opt_text_eq(a: Option<String>, b: Option<String>) -> bool {
    match (a, b) {
        (Some(x), Some(y)) => x@ == y@,
        (None, None) => true,
        _ => false,
    }
}

fn copy_opt(o: &Option<String>) -> (r: Option<String>)
    ensures
        opt_text_eq(r, *o),
{
    match o {
        Some(s) => Some(s.clone()),
        None => None,
    }
}

fn rank_of(l: &ManifestLine) -> (r: u32)
    ensures
        r == order_key(*l),
{
    match l.primary_order {
        Some(o) => o,
        None => 0,
    }
}

/// Indices of the candidate lines, stably ranked by ascending order.
pub fn rank_candidates(lines: &Vec<ManifestLine>) -> (r: Vec<usize>)
    ensures
        r@ == ranked(lines@, candidate_indices(lines@, lines@.len() as int)),
{
    let mut out: Vec<usize> = Vec::new();
    let mut i: usize = 0;
    while i < lines.len()
        invariant
            i <= lines@.len(),
            out@ == ranked(lines@, candidate_indices(lines@, i as int)),
            forall|t: int| 0 <= t < out@.len() ==> out@[t] < i,
        decreases lines@.len() - i,
    {
        let line = &lines[i];
        let is_progress = match line.kind {
            LineKind::Progress => true,
            _ => false,
        };
        if is_progress && line.primary_order.is_some() {
            let k: u32 = rank_of(line);
            let ghost prev = candidate_indices(lines@, i as int);
            let mut j: usize = 0;
            while j < out.len() && rank_of(&lines[out[j]]) <= k
                invariant
                    j <= out@.len(),
                    i < lines@.len(),
                    k == order_key(lines@[i as int]),
                    forall|t: int| 0 <= t < out@.len() ==> out@[t] < i,
                    first_above(lines@, out@, k, j as int) == first_above(lines@, out@, k, 0),
                decreases out@.len() - j,
            {
                j = j + 1;
            }
            assert(prev.push(i).drop_last() =~= prev);
            out.insert(j, i);
        }
        i = i + 1;
    }
    out
}

/// Labels of the candidate lines, stably sorted by ascending rank.
pub fn primary_candidates(lines: &Vec<ManifestLine>) -> (r: Vec<String>)
    ensures
        r@.map_values(|s: String| s@) == primary_candidates_of(lines@),
{
    let order = rank_candidates(lines);
    let n: usize = lines.len();
    proof {
        lemma_ranked_in_bounds(lines@, candidate_indices(lines@, lines@.len() as int));
    }
    let ghost target = primary_candidates_of(lines@);
    let mut out: Vec<String> = Vec::new();
    let mut j: usize = 0;
    while j < order.len()
        invariant
            j <= order@.len(),
            order@ == ranked(lines@, candidate_indices(lines@, lines@.len() as int)),
            forall|t: int| 0 <= t < order@.len() ==> order@[t] < lines@.len(),
            target == order@.map_values(|i: usize| lines@[i as int].label@),
            out@.map_values(|s: String| s@) =~= target.take(j as int),
        decreases order@.len() - j,
    {
        let label = lines[order[j]].label.clone();
        assert(target[j as int] == label@);
        let ghost before = out@;
        out.push(label);
        assert(out@ == before.push(label));
        assert(out@.map_values(|s: String| s@) =~= before.map_values(|s: String| s@).push(label@));
        j = j + 1;
        assert(target.take(j as int) =~= target.take(j - 1).push(label@));
    }
    out
}

/// Every index of the candidates is a line index, and ranking keeps that.
proof fn lemma_ranked_in_bounds(lines: Seq<ManifestLine>, s: Seq<usize>)
    requires
        s == candidate_indices(lines, lines.len() as int),
        lines.len() <= usize::MAX,
    ensures
        forall|t: int|
            0 <= t < ranked(lines, s).len() ==> #[trigger] ranked(lines, s)[t] < lines.len(),
{
    lemma_candidates_below(lines, lines.len() as int);
    lemma_ranked_keeps_bound(lines, s, lines.len() as int);
}

proof fn lemma_candidates_below(lines: Seq<ManifestLine>, n: int)
    requires
        0 <= n <= usize::MAX,
    ensures
        forall|t: int|
            0 <= t < candidate_indices(lines, n).len() ==> #[trigger] candidate_indices(
                lines,
                n,
            )[t] < n,
    decreases n,
{
    if n > 0 {
        lemma_candidates_below(lines, n - 1);
        assert(((n - 1) as usize) as int == n - 1);
        let prev = candidate_indices(lines, n - 1);
        let cur = candidate_indices(lines, n);
        assert forall|t: int| 0 <= t < cur.len() implies #[trigger] cur[t] < n by {
            if t < prev.len() {
                assert(prev[t] < n - 1);
            }
        }
    }
}

proof fn lemma_ranked_keeps_bound(lines: Seq<ManifestLine>, s: Seq<usize>, n: int)
    requires
        forall|t: int| 0 <= t < s.len() ==> #[trigger] s[t] < n,
    ensures
        forall|t: int| 0 <= t < ranked(lines, s).len() ==> #[trigger] ranked(lines, s)[t] < n,
        ranked(lines, s).len() == s.len(),
    decreases s.len(),
{
    if s.len() > 0 {
        let r = ranked(lines, s.drop_last());
        lemma_ranked_keeps_bound(lines, s.drop_last(), n);
        lemma_first_above_range(lines, r, order_key(lines[s.last() as int]), 0);
        assert(s[s.len() - 1] < n);
    }
}

proof fn lemma_first_above_range(lines: Seq<ManifestLine>, s: Seq<usize>, k: u32, j: int)
    requires
        0 <= j,
    ensures
        0 <= first_above(lines, s, k, j) <= s.len(),
    decreases s.len() - j,
{
    if j < s.len() && order_key(lines[s[j] as int]) <= k {
        lemma_first_above_range(lines, s, k, j + 1);
    }
}

/// The listing of one plugin.
pub fn plugin_meta(p: &LoadedPlugin) -> (r: PluginMeta)
    ensures
        describes(r, *p),
{
    let lines = &p.manifest.lines;
    let mut dtos: Vec<ManifestLineDto> = Vec::new();
    let mut i: usize = 0;
    while i < lines.len()
        invariant
            i <= lines@.len(),
            dtos@.len() == i,
            forall|t: int| 0 <= t < i ==> describes_line(#[trigger] dtos@[t], lines@[t]),
        decreases lines@.len() - i,
    {
        let l = &lines[i];
        dtos.push(ManifestLineDto { line_type: l.kind.tag(), label: l.label.clone(), scope: l.scope.clone() });
        i = i + 1;
    }
    PluginMeta {
        id: p.manifest.id.clone(),
        name: p.manifest.name.clone(),
        icon_url: p.icon_data_url.clone(),
        brand_color: copy_opt(&p.manifest.brand_color),
        lines: dtos,
        primary_candidates: primary_candidates(lines),
    }
}

/// The listing of every plugin of the registry, in registry order.
pub fn list_plugins(registry: &Vec<LoadedPlugin>) -> (r: Vec<PluginMeta>)
    ensures
        r@.len() == registry@.len(),
        forall|i: int| 0 <= i < r@.len() ==> describes(#[trigger] r@[i], registry@[i]),
{
    let mut out: Vec<PluginMeta> = Vec::new();
    let mut i: usize = 0;
    while i < registry.len()
        invariant
            i <= registry@.len(),
            out@.len() == i,
            forall|t: int| 0 <= t < i ==> describes(#[trigger] out@[t], registry@[t]),
        decreases registry@.len() - i,
    {
        out.push(plugin_meta(&registry[i]));
        i = i + 1;
    }
    out
}

/// The ranks of `s`'s lines never decrease.
pub open spec fn ranks_ascending(lines: Seq<ManifestLine>, s: Seq<usize>) -> bool {
    forall|a: int, b: int|
        0 <= a < b < s.len() ==> order_key(lines[#[trigger] s[a] as int]) <= order_key(
            lines[#[trigger] s[b] as int],
        )
}

proof fn lemma_first_above_split(lines: Seq<ManifestLine>, s: Seq<usize>, k: u32, j: int)
    requires
        0 <= j <= s.len(),
    ensures
        j <= first_above(lines, s, k, j) <= s.len(),
        forall|t: int|
            j <= t < first_above(lines, s, k, j) ==> order_key(lines[#[trigger] s[t] as int])
                <= k,
        first_above(lines, s, k, j) < s.len() ==> order_key(
            lines[s[first_above(lines, s, k, j)] as int],
        ) > k,
    decreases s.len() - j,
{
    if j < s.len() && order_key(lines[s[j] as int]) <= k {
        lemma_first_above_split(lines, s, k, j + 1);
    }
}

/// The stable ranking lists the lines by ascending rank.
pub proof fn lemma_ranked_ascending(lines: Seq<ManifestLine>, s: Seq<usize>)
    ensures
        ranks_ascending(lines, ranked(lines, s)),
    decreases s.len(),
{
    if s.len() > 0 {
        let r = ranked(lines, s.drop_last());
        let i = s.last();
        let k = order_key(lines[i as int]);
        lemma_ranked_ascending(lines, s.drop_last());
        lemma_first_above_split(lines, r, k, 0);
        let p = first_above(lines, r, k, 0);
        let out = r.insert(p, i);
        assert forall|a: int, b: int| 0 <= a < b < out.len() implies order_key(
            lines[#[trigger] out[a] as int],
        ) <= order_key(lines[#[trigger] out[b] as int]) by {
            if b < p {
                assert(out[a] == r[a] && out[b] == r[b]);
            } else if b == p {
                assert(out[a] == r[a]);
            } else if a < p {
                assert(out[a] == r[a] && out[b] == r[b - 1]);
                assert(order_key(lines[r[a] as int]) <= k);
                assert(order_key(lines[r[p] as int]) > k);
                if b - 1 > p {
                    assert(order_key(lines[r[p] as int]) <= order_key(lines[r[b - 1] as int]));
                }
            } else if a == p {
                assert(out[b] == r[b - 1]);
                assert(order_key(lines[r[p] as int]) > k);
                if b - 1 > p {
                    assert(order_key(lines[r[p] as int]) <= order_key(lines[r[b - 1] as int]));
                }
            } else {
                assert(out[a] == r[a - 1] && out[b] == r[b - 1]);
            }
        }
    }
}

} // verus!

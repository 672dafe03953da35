//! Ranges of user and group identifiers, and maps that translate identifiers
//! inside a container to identifiers on the host.

use vstd::prelude::*;

verus! {

/// A closed range of identifiers that a sandbox may use: `start ..= end`.
#[derive(Clone, Copy, Debug, PartialEq, Eq, Structural)]
pub struct Range {
    pub start: u32,
    pub end: u32,
}

/// One line of an identifier map: the `count` identifiers from `inside` on,
/// as seen in the container, are the `count` identifiers from `outside` on,
/// as seen on the host.
#[derive(Clone, Copy, Debug, PartialEq, Eq, Structural)]
pub struct IdMap {
    pub inside: u32,
    pub outside: u32,
    pub count: u32,
}

/// `id` lies in the closed range `r`.
pub open spec fn range_holds(r: Range, id: u32) -> bool {
    r.start <= id <= r.end
}

/// `id` lies in one of `ranges`.
pub open spec fn in_range_spec(ranges: Seq<Range>, id: u32) -> bool {
    exists|i: int| 0 <= i < ranges.len() && range_holds(#[trigger] ranges[i], id)
}

/// `id` is one of the inside identifiers of the entry `m`.
pub open spec fn entry_holds(m: IdMap, id: u32) -> bool {
    m.inside <= id < m.inside + m.count
}

/// `id` is an inside identifier of one of the entries of `map`.
pub open spec fn in_mapping_spec(map: Seq<IdMap>, id: u32) -> bool {
    exists|i: int| 0 <= i < map.len() && entry_holds(#[trigger] map[i], id)
}

/// The outside identifiers of `m`, `outside .. outside + count`, all lie in
/// the one range `r`.
pub open spec fn entry_fits(r: Range, m: IdMap) -> bool {
    r.start <= m.outside && m.outside + m.count - 1 <= r.end
}

/// Some range of `allowed` holds all outside identifiers of `m`.
pub open spec fn entry_allowed(allowed: Seq<Range>, m: IdMap) -> bool {
    exists|i: int| 0 <= i < allowed.len() && entry_fits(#[trigger] allowed[i], m)
}

/// Every entry of `map` maps into a single range of `allowed`.
pub open spec fn check_mapping_spec(allowed: Seq<Range>, map: Seq<IdMap>) -> bool {
    forall|j: int| 0 <= j < map.len() ==> entry_allowed(allowed, #[trigger] map[j])
}

/// Where the entry `m` sends the inside identifier `id`: as far from
/// `outside` as `id` is from `inside`. `None` where that is no `u32`.
pub open spec fn translate(m: IdMap, id: u32) -> Option<u32> {
    if m.outside + (id - m.inside) <= u32::MAX {
        Some((m.outside + (id - m.inside)) as u32)
    } else {
        None
    }
}

/// `map_id_spec` on the entries from index `from` on.
pub open spec fn map_id_from(map: Seq<IdMap>, id: u32, from: int) -> Option<u32>
    decreases map.len() - from,
{
    if from < 0 || from >= map.len() {
        None
    } else if entry_holds(map[from], id) {
        translate(map[from], id)
    } else {
        map_id_from(map, id, from + 1)
    }
}

/// The outside identifier of the inside identifier `id`: the first entry of
/// `map` that holds `id` translates it.
pub open spec fn map_id_spec(map: Seq<IdMap>, id: u32) -> Option<u32> {
    map_id_from(map, id, 0)
}

/// Is `id` within one of the allowed `ranges`?
pub fn in_range(ranges: &Vec<Range>, id: u32) -> (r: bool)
    ensures
        r == in_range_spec(ranges@, id),
{
    let mut i: usize = 0;
    while i < ranges.len()
        invariant
            i <= ranges.len(),
            forall|k: int| 0 <= k < i ==> !range_holds(#[trigger] ranges@[k], id),
        decreases ranges.len() - i,
    {
        if ranges[i].start <= id && id <= ranges[i].end {
            return true;
        }
        i += 1;
    }
    false
}

/// Is `id` an inside identifier of `map`?
pub fn in_mapping(map: &Vec<IdMap>, id: u32) -> (r: bool)
    ensures
        r == in_mapping_spec(map@, id),
{
    let mut i: usize = 0;
    while i < map.len()
        invariant
            i <= map.len(),
            forall|k: int| 0 <= k < i ==> !entry_holds(#[trigger] map@[k], id),
        decreases map.len() - i,
    {
        let m = map[i];
        if m.inside <= id && (id as u64) < m.inside as u64 + m.count as u64 {
            return true;
        }
        i += 1;
    }
    false
}

/// Does one range of `allowed` hold all outside identifiers of `m`?
pub fn entry_is_allowed(allowed: &Vec<Range>, m: IdMap) -> (r: bool)
    ensures
        r == entry_allowed(allowed@, m),
{
    let mut i: usize = 0;
    while i < allowed.len()
        invariant
            i <= allowed.len(),
            forall|k: int| 0 <= k < i ==> !entry_fits(#[trigger] allowed@[k], m),
        decreases allowed.len() - i,
    {
        let r = allowed[i];
        if r.start <= m.outside && m.outside as u64 + m.count as u64 <= r.end as u64 + 1 {
            return true;
        }
        i += 1;
    }
    false
}

/// Does every entry of `map` map into a single allowed range?
pub fn check_mapping(allowed: &Vec<Range>, map: &Vec<IdMap>) -> (r: bool)
    ensures
        r == check_mapping_spec(allowed@, map@),
{
    let mut j: usize = 0;
    while j < map.len()
        invariant
            j <= map.len(),
            forall|k: int| 0 <= k < j ==> entry_allowed(allowed@, #[trigger] map@[k]),
        decreases map.len() - j,
    {
        if !entry_is_allowed(allowed, map[j]) {
            return false;
        }
        j += 1;
    }
    true
}

/// Translates the inside identifier `id` to the host's.
pub fn map_id(map: &Vec<IdMap>, id: u32) -> (r: Option<u32>)
    ensures
        r == map_id_spec(map@, id),
{
    let mut i: usize = 0;
    while i < map.len()
        invariant
            i <= map.len(),
            map_id_spec(map@, id) == map_id_from(map@, id, i as int),
        decreases map.len() - i,
    {
        let m = map[i];
        if m.inside <= id && (id as u64) < m.inside as u64 + m.count as u64 {
            let t: u64 = m.outside as u64 + (id - m.inside) as u64;
            if t <= u32::MAX as u64 {
                return Some(t as u32);
            } else {
                return None;
            }
        }
        i += 1;
    }
    None
}

/// An identifier map sends the `k`-th inside identifier of an entry to the
/// `k`-th outside identifier of that entry, provided no earlier entry of the
/// map claims the same inside identifier.
pub proof fn lemma_map_id_offset(map: Seq<IdMap>, i: int, k: nat)
    requires
        0 <= i < map.len(),
        k < map[i].count,
        map[i].inside + k <= u32::MAX,
        map[i].outside + k <= u32::MAX,
        forall|j: int| 0 <= j < i ==> !entry_holds(#[trigger] map[j], (map[i].inside + k) as u32),
    ensures
        map_id_spec(map, (map[i].inside + k) as u32) == Some((map[i].outside + k) as u32),
{
    let id = (map[i].inside + k) as u32;
    lemma_map_id_skips(map, id, 0, i);
}

/// Entries that do not hold `id` do not take part in its translation.
pub proof fn lemma_map_id_skips(map: Seq<IdMap>, id: u32, from: int, to: int)
    requires
        0 <= from <= to <= map.len(),
        forall|j: int| from <= j < to ==> !entry_holds(#[trigger] map[j], id),
    ensures
        map_id_from(map, id, from) == map_id_from(map, id, to),
    decreases to - from,
{
    if from < to {
        lemma_map_id_skips(map, id, from + 1, to);
    }
}

/// With a map of one entry, the `k`-th inside identifier is the `k`-th
/// outside identifier.
pub proof fn lemma_map_id_round_trip(inside: u32, outside: u32, count: u32, k: nat)
    requires
        k < count,
        inside + k <= u32::MAX,
        outside + k <= u32::MAX,
    ensures
        map_id_spec(seq![IdMap { inside, outside, count }], (inside + k) as u32) == Some(
            (outside + k) as u32,
        ),
{
    let map = seq![IdMap { inside, outside, count }];
    assert(map[0] == IdMap { inside, outside, count });
    lemma_map_id_offset(map, 0, k);
}

/// An identifier that a map translates is one that the map holds.
pub proof fn lemma_map_id_some_in_mapping(map: Seq<IdMap>, id: u32, from: int)
    requires
        0 <= from,
        map_id_from(map, id, from) is Some,
    ensures
        in_mapping_spec(map, id),
    decreases map.len() - from,
{
    if from < map.len() {
        if entry_holds(map[from], id) {
        } else {
            lemma_map_id_some_in_mapping(map, id, from + 1);
        }
    }
}

} // verus!

use vstd::prelude::*;

use crate::addresses::{
    at, PKMN_ORDER_BANK, PKMN_ORDER_OFFSET, WILD_PKMN_PROBABILITIES_BANK,
    WILD_PKMN_PROBABILITIES_OFFSET,
};
use crate::pokedex::{dex_of, Pokedex};
use crate::reader::{advanced, rom_u8, span_readable, Addr, Reader, RomError};
use crate::structures::{
    table_entry, table_readable, RomStructure, RomStructureTable, WildPokemon, WildProbability,
};

verus! {

broadcast use vstd::seq_lib::group_to_multiset_ensures;

/// Number of encounter slots of a location.
pub const WILD_SLOTS: usize = 10;

/// A species met at a given level, with its encounter probability out of 255.
#[derive(Debug, Clone, Copy, PartialEq, Eq, Structural)]
pub struct WildPokemonInfo {
    pub dex_id: u8,
    pub level: u8,
    pub proba: u8,
}

/// Sum of the probabilities.
pub open spec fn total(s: Seq<WildPokemonInfo>) -> int
    decreases s.len(),
{
    if s.len() == 0 {
        0
    } else {
        total(s.drop_last()) + s.last().proba
    }
}

/// Sum of the probabilities of the entries for `dex_id` at `level`.
pub open spec fn key_total(s: Seq<WildPokemonInfo>, dex_id: u8, level: u8) -> int
    decreases s.len(),
{
    if s.len() == 0 {
        0
    } else {
        key_total(s.drop_last(), dex_id, level) + if s.last().dex_id == dex_id && s.last().level
            == level {
            s.last().proba as int
        } else {
            0
        }
    }
}

pub open spec fn same_key(a: WildPokemonInfo, b: WildPokemonInfo) -> bool {
    a.dex_id == b.dex_id && a.level == b.level
}

/// Some entry of `s` is for `dex_id` at `level`.
pub open spec fn has_key(s: Seq<WildPokemonInfo>, dex_id: u8, level: u8) -> bool {
    exists|i: int| 0 <= i < s.len() && #[trigger] s[i].dex_id == dex_id && s[i].level == level
}

/// `m` merges `s`: one entry per (species, level) of `s`, whose
/// probability is the sum of the probabilities of those entries.
pub open spec fn merges(m: Seq<WildPokemonInfo>, s: Seq<WildPokemonInfo>) -> bool {
    &&& forall|i: int, j: int| 0 <= i < j < m.len() ==> !same_key(#[trigger] m[i], #[trigger] m[j])
    &&& forall|i: int|
        0 <= i < m.len() ==> has_key(s, (#[trigger] m[i]).dex_id, m[i].level) && m[i].proba
            == key_total(s, m[i].dex_id, m[i].level)
    &&& forall|i: int| 0 <= i < s.len() ==> has_key(m, (#[trigger] s[i]).dex_id, s[i].level)
}

proof fn lemma_total_nonneg(s: Seq<WildPokemonInfo>)
    ensures
        total(s) >= 0,
    decreases s.len(),
{
    if s.len() > 0 {
        lemma_total_nonneg(s.drop_last());
    }
}

proof fn lemma_total_update(s: Seq<WildPokemonInfo>, j: int, v: WildPokemonInfo)
    requires
        0 <= j < s.len(),
    ensures
        total(s.update(j, v)) == total(s) - s[j].proba + v.proba,
    decreases s.len(),
{
    if j < s.len() - 1 {
        lemma_total_update(s.drop_last(), j, v);
        assert(s.update(j, v).drop_last() =~= s.drop_last().update(j, v));
    } else {
        assert(s.update(j, v).drop_last() =~= s.drop_last());
    }
}

proof fn lemma_element_le_total(s: Seq<WildPokemonInfo>, j: int)
    requires
        0 <= j < s.len(),
    ensures
        s[j].proba <= total(s),
    decreases s.len(),
{
    lemma_total_nonneg(s.drop_last());
    if j < s.len() - 1 {
        lemma_element_le_total(s.drop_last(), j);
    }
}

proof fn lemma_prefix_total(s: Seq<WildPokemonInfo>, i: int)
    requires
        0 <= i <= s.len(),
    ensures
        total(s.subrange(0, i)) <= total(s),
    decreases s.len() - i,
{
    if i < s.len() {
        lemma_prefix_total(s, i + 1);
        assert(s.subrange(0, i + 1).drop_last() =~= s.subrange(0, i));
    } else {
        assert(s.subrange(0, i) =~= s);
    }
}

proof fn lemma_key_total_absent(s: Seq<WildPokemonInfo>, dex_id: u8, level: u8)
    requires
        !has_key(s, dex_id, level),
    ensures
        key_total(s, dex_id, level) == 0,
    decreases s.len(),
{
    if s.len() > 0 {
        assert(!has_key(s.drop_last(), dex_id, level)) by {
            if has_key(s.drop_last(), dex_id, level) {
                let i = choose|i: int|
                    0 <= i < s.drop_last().len() && #[trigger] s.drop_last()[i].dex_id == dex_id
                        && s.drop_last()[i].level == level;
                assert(s[i] == s.drop_last()[i]);
            }
        }
        lemma_key_total_absent(s.drop_last(), dex_id, level);
        assert(s[s.len() - 1] == s.last());
    }
}

/// Merges the entries that share a species and a level, summing their
/// probabilities; the first entry of each key gives its place.
pub fn merge_probabilities(entries: &Vec<WildPokemonInfo>) -> (r: Vec<WildPokemonInfo>)
    requires
        total(entries@) <= 0xff,
    ensures
        merges(r@, entries@),
        total(r@) == total(entries@),
{
    let mut out: Vec<WildPokemonInfo> = Vec::new();
    let mut i: usize = 0;
    while i < entries.len()
        invariant
            i <= entries@.len(),
            total(entries@) <= 0xff,
            merges(out@, entries@.subrange(0, i as int)),
            total(out@) == total(entries@.subrange(0, i as int)),
        decreases entries@.len() - i,
    {
        let e = entries[i];
        let ghost prefix = entries@.subrange(0, i as int);
        let ghost next = entries@.subrange(0, i + 1);
        assert(next =~= prefix.push(e));
        assert(next.drop_last() =~= prefix);
        proof {
            lemma_prefix_total(entries@, i + 1);
            lemma_total_nonneg(out@);
        }
        let mut j: usize = 0;
        while j < out.len() && !(out[j].dex_id == e.dex_id && out[j].level == e.level)
            invariant
                j <= out@.len(),
                forall|k: int| 0 <= k < j ==> !same_key(#[trigger] out@[k], e),
            decreases out@.len() - j,
        {
            j = j + 1;
        }
        let ghost old_out = out@;
        if j < out.len() {
            proof {
                lemma_element_le_total(out@, j as int);
            }
            let v = WildPokemonInfo {
                dex_id: e.dex_id,
                level: e.level,
                proba: out[j].proba + e.proba,
            };
            out.set(j, v);
            proof {
                lemma_total_update(old_out, j as int, v);
                assert forall|k: int| 0 <= k < out@.len() implies has_key(
                    next,
                    (#[trigger] out@[k]).dex_id,
                    out@[k].level,
                ) && out@[k].proba == key_total(next, out@[k].dex_id, out@[k].level) by {
                    let w = choose|w: int|
                        0 <= w < prefix.len() && #[trigger] prefix[w].dex_id == old_out[k].dex_id
                            && prefix[w].level == old_out[k].level;
                    assert(next[w] == prefix[w]);
                }
                assert forall|k: int| 0 <= k < next.len() implies has_key(
                    out@,
                    (#[trigger] next[k]).dex_id,
                    next[k].level,
                ) by {
                    if k < prefix.len() {
                        assert(next[k] == prefix[k]);
                        let w = choose|w: int|
                            0 <= w < old_out.len() && #[trigger] old_out[w].dex_id
                                == prefix[k].dex_id && old_out[w].level == prefix[k].level;
                        assert(out@[w].dex_id == old_out[w].dex_id);
                    } else {
                        assert(out@[j as int].dex_id == e.dex_id);
                    }
                }
            }
        } else {
            out.push(e);
            proof {
                assert(!has_key(prefix, e.dex_id, e.level)) by {
                    if has_key(prefix, e.dex_id, e.level) {
                        let w = choose|w: int|
                            0 <= w < prefix.len() && #[trigger] prefix[w].dex_id == e.dex_id
                                && prefix[w].level == e.level;
                        assert(has_key(old_out, prefix[w].dex_id, prefix[w].level));
                        let q = choose|q: int|
                            0 <= q < old_out.len() && #[trigger] old_out[q].dex_id
                                == prefix[w].dex_id && old_out[q].level == prefix[w].level;
                        assert(!same_key(old_out[q], e));
                    }
                }
                lemma_key_total_absent(prefix, e.dex_id, e.level);
                assert(out@.drop_last() =~= old_out);
                assert forall|k: int| 0 <= k < out@.len() implies has_key(
                    next,
                    (#[trigger] out@[k]).dex_id,
                    out@[k].level,
                ) && out@[k].proba == key_total(next, out@[k].dex_id, out@[k].level) by {
                    if k < old_out.len() {
                        let w = choose|w: int|
                            0 <= w < prefix.len() && #[trigger] prefix[w].dex_id
                                == old_out[k].dex_id && prefix[w].level == old_out[k].level;
                        assert(next[w] == prefix[w]);
                    } else {
                        assert(next[i as int] == e);
                    }
                }
                assert forall|k: int| 0 <= k < next.len() implies has_key(
                    out@,
                    (#[trigger] next[k]).dex_id,
                    next[k].level,
                ) by {
                    if k < prefix.len() {
                        assert(next[k] == prefix[k]);
                        let w = choose|w: int|
                            0 <= w < old_out.len() && #[trigger] old_out[w].dex_id
                                == prefix[k].dex_id && old_out[w].level == prefix[k].level;
                        assert(out@[w] == old_out[w]);
                    } else {
                        assert(out@[old_out.len() as int] == e);
                    }
                }
            }
        }
        i = i + 1;
    }
    assert(entries@.subrange(0, entries@.len() as int) =~= entries@);
    out
}


/// `a` comes before `b` in the listing: higher probability first, then
/// higher species number, then higher level.
pub open spec fn ranks_before(a: WildPokemonInfo, b: WildPokemonInfo) -> bool {
    a.proba > b.proba || (a.proba == b.proba && (a.dex_id > b.dex_id || (a.dex_id == b.dex_id
        && a.level > b.level)))
}

pub open spec fn sorted_desc(s: Seq<WildPokemonInfo>) -> bool {
    forall|i: int, j: int| 0 <= i < j < s.len() ==> !ranks_before(#[trigger] s[j], #[trigger] s[i])
}

fn ranks_before_exec(a: &WildPokemonInfo, b: &WildPokemonInfo) -> (r: bool)
    ensures
        r == ranks_before(*a, *b),
{
    a.proba > b.proba || (a.proba == b.proba && (a.dex_id > b.dex_id || (a.dex_id == b.dex_id
        && a.level > b.level)))
}

/// The entries ordered with the highest probability first (ties broken by
/// species, then level, both descending).
pub fn sort_by_rank(entries: &Vec<WildPokemonInfo>) -> (r: Vec<WildPokemonInfo>)
    ensures
        sorted_desc(r@),
        r@.to_multiset() == entries@.to_multiset(),
{
    let mut out: Vec<WildPokemonInfo> = Vec::new();
    let mut i: usize = 0;
    while i < entries.len()
        invariant
            i <= entries@.len(),
            sorted_desc(out@),
            out@.to_multiset() == entries@.subrange(0, i as int).to_multiset(),
        decreases entries@.len() - i,
    {
        let e = entries[i];
        let mut p: usize = 0;
        while p < out.len() && !ranks_before_exec(&e, &out[p])
            invariant
                p <= out@.len(),
                forall|k: int| 0 <= k < p ==> !ranks_before(e, #[trigger] out@[k]),
            decreases out@.len() - p,
        {
            p = p + 1;
        }
        let ghost old_out = out@;
        out.insert(p, e);
        proof {
            assert(entries@.subrange(0, i + 1) =~= entries@.subrange(0, i as int).push(e));
            assert forall|a: int, b: int| 0 <= a < b < out@.len() implies !ranks_before(
                #[trigger] out@[b],
                #[trigger] out@[a],
            ) by {
                if a < p && b == p {
                    assert(out@[a] == old_out[a]);
                } else if a == p && b > p {
                    assert(out@[b] == old_out[b - 1]);
                    assert(ranks_before(e, old_out[p as int]));
                    if b - 1 > p {
                        assert(!ranks_before(old_out[b - 1], old_out[p as int]));
                    }
                } else if a < p && b > p {
                    assert(out@[a] == old_out[a]);
                    assert(out@[b] == old_out[b - 1]);
                } else if b < p {
                    assert(out@[a] == old_out[a]);
                    assert(out@[b] == old_out[b]);
                } else {
                    assert(out@[a] == old_out[a - 1]);
                    assert(out@[b] == old_out[b - 1]);
                }
            }
        }
        i = i + 1;
    }
    assert(entries@.subrange(0, entries@.len() as int) =~= entries@);
    out
}

/// Where the cumulative encounter probabilities live.
pub open spec fn proba_base() -> Addr {
    at(WILD_PKMN_PROBABILITIES_BANK, WILD_PKMN_PROBABILITIES_OFFSET)
}

/// Cumulative probability up to slot `i` (0 before the first slot).
pub open spec fn cumulative(s: Seq<u8>, i: int) -> int {
    if i < 0 {
        0
    } else {
        table_entry::<WildProbability>(s, proba_base(), i).proba as int
    }
}

/// The ten cumulative entries can be read.
pub open spec fn probas_readable(s: Seq<u8>) -> bool {
    forall|i: int| 0 <= i < WILD_SLOTS ==> #[trigger] table_readable::<WildProbability>(s, proba_base(), i)
}

/// The cumulative probabilities never decrease.
pub open spec fn probas_sorted(s: Seq<u8>) -> bool {
    forall|i: int| 0 <= i < WILD_SLOTS ==> cumulative(s, i - 1) <= #[trigger] cumulative(s, i)
}

/// Probability of slot `i`: the step of the cumulative table.
pub open spec fn slot_proba(s: Seq<u8>, i: int) -> int {
    cumulative(s, i) - cumulative(s, i - 1)
}

/// Encounter probability of each slot, from the cumulative table.
pub struct Probabilities(pub Vec<u8>);

impl Probabilities {
    /// The ten slot probabilities: the differences of consecutive cumulative
    /// values, counted from 0. A decreasing cumulative value is a
    /// consistency error.
    pub fn load(stream: &Vec<u8>) -> (r: Result<Probabilities, RomError>)
        ensures
            r is Ok <==> probas_readable(stream@) && probas_sorted(stream@),
            r is Ok ==> r->Ok_0.0@.len() == WILD_SLOTS && forall|i: int|
                0 <= i < WILD_SLOTS ==> #[trigger] r->Ok_0.0@[i] == slot_proba(stream@, i),
            probas_readable(stream@) && !probas_sorted(stream@) ==> r == Err::<
                Probabilities,
                RomError,
            >(RomError::Consistency),
    {
        let table = RomStructureTable::<WildProbability>::new_at(
            stream,
            Addr::new(WILD_PKMN_PROBABILITIES_BANK, WILD_PKMN_PROBABILITIES_OFFSET),
        );
        let mut probas: Vec<u8> = Vec::new();
        let mut prev: u8 = 0;
        let mut i: u8 = 0;
        while i < 10
            invariant
                i <= 10,
                table.stream == stream,
                table.addr == proba_base(),
                probas@.len() == i,
                prev == cumulative(stream@, i - 1),
                forall|j: int|
                    0 <= j < i ==> #[trigger] table_readable::<WildProbability>(
                        stream@,
                        proba_base(),
                        j,
                    ),
                forall|j: int| 0 <= j < i ==> cumulative(stream@, j - 1) <= #[trigger] cumulative(stream@, j),
                forall|j: int| 0 <= j < i ==> #[trigger] probas@[j] == slot_proba(stream@, j),
            decreases 10 - i,
        {
            let entry = table.entry_at(i)?;
            let cur = entry.proba;
            if cur < prev {
                assert(cumulative(stream@, i as int) < cumulative(stream@, i - 1));
                return Err(RomError::Consistency);
            }
            probas.push(cur - prev);
            prev = cur;
            i = i + 1;
        }
        Ok(Probabilities(probas))
    }
}

/// Slot `i` of the slot table that starts at `a`.
pub open spec fn slot_at(s: Seq<u8>, a: Addr, i: int) -> WildPokemon {
    WildPokemon::decoded(s, advanced(a, i * 2))
}

/// The species of internal id `id` can be looked up.
pub open spec fn species_known(s: Seq<u8>, id: u8) -> bool {
    id != 0 && table_readable::<u8>(s, at(PKMN_ORDER_BANK, PKMN_ORDER_OFFSET), id - 1)
}

/// The ten slots read at `a`: species (pokedex number), level, and the
/// probability from the cumulative table.
pub open spec fn slots_of(s: Seq<u8>, a: Addr) -> Seq<WildPokemonInfo> {
    Seq::new(
        WILD_SLOTS as nat,
        |i: int|
            WildPokemonInfo {
                dex_id: dex_of(s, slot_at(s, a, i).id),
                level: slot_at(s, a, i).level,
                proba: slot_proba(s, i) as u8,
            },
    )
}

/// The slot table at `a`, the probability table and every species can be
/// read, and the probabilities never decrease.
pub open spec fn slots_decodable(s: Seq<u8>, a: Addr) -> bool {
    &&& span_readable(s, a, 20)
    &&& probas_readable(s)
    &&& probas_sorted(s)
    &&& forall|i: int| 0 <= i < WILD_SLOTS ==> species_known(s, #[trigger] slot_at(s, a, i).id)
}

impl WildPokemonInfo {
    /// A slot: its species (by pokedex number), level and probability.
    pub fn new(raw: &WildPokemon, proba: u8, stream: &Vec<u8>) -> (r: Result<
        WildPokemonInfo,
        RomError,
    >)
        ensures
            r is Ok <==> species_known(stream@, raw.id),
            r is Ok ==> r->Ok_0.level == raw.level && r->Ok_0.proba == proba
                && r->Ok_0.dex_id == dex_of(stream@, raw.id),
    {
        Ok(WildPokemonInfo {
            dex_id: Pokedex::rom_id_to_dex_id(stream, raw.id)?,
            level: raw.level,
            proba,
        })
    }
}

/// Sums the probabilities.
pub fn total_proba(entries: &Vec<WildPokemonInfo>) -> (r: u32)
    requires
        entries@.len() <= 0x100_0000,
    ensures
        r == total(entries@),
{
    let mut acc: u32 = 0;
    let mut i: usize = 0;
    while i < entries.len()
        invariant
            i <= entries@.len(),
            entries@.len() <= 0x100_0000,
            acc == total(entries@.subrange(0, i as int)),
            acc <= 255 * i,
        decreases entries@.len() - i,
    {
        assert(entries@.subrange(0, i + 1).drop_last() =~= entries@.subrange(0, i as int));
        acc = acc + entries[i].proba as u32;
        i = i + 1;
    }
    assert(entries@.subrange(0, entries@.len() as int) =~= entries@);
    acc
}

/// The encounters of one area (grass or water) of a location.
pub struct WildPokemonLocationInfo {
    /// Encounter rate; 0 when the area has no encounters.
    pub rate: u8,
    pub pokemons: Vec<WildPokemonInfo>,
}

/// The encounter block at `a` decodes: its rate byte is readable, and when
/// it is not 0 the ten slots decode and their probabilities add up to 255.
pub open spec fn block_ok(s: Seq<u8>, a: Addr) -> bool {
    span_readable(s, a, 1) && (rom_u8(s, a, 0) == 0 || (slots_decodable(s, advanced(a, 1)) && total(
        slots_of(s, advanced(a, 1)),
    ) == 0xff))
}

/// `info` lists the encounters of the ten slots at `a`: merged by species
/// and level, ordered by rank.
pub open spec fn lists_slots(info: WildPokemonLocationInfo, s: Seq<u8>, a: Addr) -> bool {
    sorted_desc(info.pokemons@) && exists|m: Seq<WildPokemonInfo>|
        #![trigger merges(m, slots_of(s, a))]
        merges(m, slots_of(s, a)) && total(m) == 0xff && info.pokemons@.to_multiset()
            == m.to_multiset()
}

impl WildPokemonLocationInfo {
    /// Reads the rate byte, then, when it is not 0, the ten slots. Slots of
    /// the same species and level are merged with their probabilities
    /// summed, the list is ordered by rank, and the probabilities must add up
    /// to 255 (a consistency error otherwise).
    pub fn new(reader: &mut Reader) -> (r: Result<WildPokemonLocationInfo, RomError>)
        ensures
            final(reader).stream == old(reader).stream,
            !old(reader).can_read(1) ==> r == Err::<WildPokemonLocationInfo, RomError>(
                RomError::Address,
            ),
            old(reader).can_read(1) && old(reader).byte(0) == 0 ==> r is Ok,
            ({
                let s = old(reader).stream@;
                let a = advanced(old(reader).addr, 1);
                old(reader).can_read(1) && old(reader).byte(0) != 0 ==> (r is Ok <==> slots_decodable(
                    s,
                    a,
                ) && total(slots_of(s, a)) == 0xff)
            }),
            ({
                let s = old(reader).stream@;
                let a = advanced(old(reader).addr, 1);
                old(reader).can_read(1) && old(reader).byte(0) != 0 && slots_decodable(s, a) && total(
                    slots_of(s, a),
                ) != 0xff ==> r == Err::<WildPokemonLocationInfo, RomError>(RomError::Consistency)
            }),
            r is Ok ==> ({
                let info = r->Ok_0;
                let s = old(reader).stream@;
                let a = advanced(old(reader).addr, 1);
                &&& info.rate == old(reader).byte(0)
                &&& final(reader).moved_from(
                    *old(reader),
                    if info.rate == 0 {
                        1
                    } else {
                        21
                    },
                )
                &&& info.rate == 0 ==> info.pokemons@.len() == 0
                &&& info.rate != 0 ==> total(slots_of(s, a)) == 0xff && lists_slots(info, s, a)
            }),
            r is Ok <==> block_ok(old(reader).stream@, old(reader).addr),
    {
        let stream = reader.stream;
        let ghost s = stream@;
        let ghost a = advanced(reader.addr, 1);
        let rate = reader.read_u8()?;
        if rate == 0 {
            return Ok(WildPokemonLocationInfo { rate, pokemons: Vec::new() });
        }
        let probas = Probabilities::load(stream)?;
        let slots = crate::structures::read_records::<WildPokemon>(reader, 10)?;
        proof {
            crate::reader::lemma_advanced_pos(old(reader).addr, 1);
        }
        let mut entries: Vec<WildPokemonInfo> = Vec::new();
        let mut i: usize = 0;
        while i < WILD_SLOTS
            invariant
                i <= WILD_SLOTS,
                entries@.len() == i,
                slots@.len() == WILD_SLOTS,
                probas.0@.len() == WILD_SLOTS,
                forall|j: int| 0 <= j < WILD_SLOTS ==> #[trigger] probas.0@[j] == slot_proba(s, j),
                forall|j: int| 0 <= j < WILD_SLOTS ==> #[trigger] slots@[j] == slot_at(s, a, j),
                forall|j: int| 0 <= j < i ==> #[trigger] entries@[j] == slots_of(s, a)[j],
                forall|j: int| 0 <= j < i ==> species_known(s, #[trigger] slot_at(s, a, j).id),
                probas_readable(s) && probas_sorted(s),
                span_readable(s, a, 20),
                reader.stream == old(reader).stream,
                stream == old(reader).stream,
                s == stream@,
                a == advanced(old(reader).addr, 1),
                old(reader).can_read(1),
                old(reader).byte(0) != 0,
            decreases WILD_SLOTS - i,
        {
            proof {
                assert(slot_at(s, a, i as int) == slots@[i as int]);
            }
            entries.push(WildPokemonInfo::new(&slots[i], probas.0[i], stream)?);
            i = i + 1;
        }
        assert(entries@ =~= slots_of(s, a));
        if total_proba(&entries) != 0xff {
            return Err(RomError::Consistency);
        }
        let merged = merge_probabilities(&entries);
        let pokemons = sort_by_rank(&merged);
        assert(merges(merged@, slots_of(s, a)));
        Ok(WildPokemonLocationInfo { rate, pokemons })
    }
}

/// The grass and water encounters of a location, each absent when its rate
/// is 0.
pub struct WildPokemonsInfo {
    pub grass: Option<WildPokemonLocationInfo>,
    pub water: Option<WildPokemonLocationInfo>,
}

impl WildPokemonsInfo {
    /// Reads the grass area at `addr`, then the water area right after it.
    pub fn new(addr: Addr, stream: &Vec<u8>) -> (r: Result<WildPokemonsInfo, RomError>)
        ensures
            ({
                let g = rom_u8(stream@, addr, 0);
                let water_at = advanced(
                    addr,
                    if g == 0 {
                        1
                    } else {
                        21
                    },
                );
                r is Ok <==> block_ok(stream@, addr) && block_ok(stream@, water_at)
            }),
            r is Ok ==> ({
                let g = rom_u8(stream@, addr, 0);
                let water_at = advanced(
                    addr,
                    if g == 0 {
                        1
                    } else {
                        21
                    },
                );
                &&& r->Ok_0.grass is Some ==> lists_slots(r->Ok_0.grass->Some_0, stream@, advanced(addr, 1))
                &&& r->Ok_0.water is Some ==> lists_slots(
                    r->Ok_0.water->Some_0,
                    stream@,
                    advanced(water_at, 1),
                )
                &&& (r->Ok_0.grass is Some <==> g != 0)
                &&& (r->Ok_0.water is Some <==> rom_u8(stream@, water_at, 0) != 0)
                &&& r->Ok_0.grass is Some ==> r->Ok_0.grass->Some_0.rate == g
                &&& r->Ok_0.water is Some ==> r->Ok_0.water->Some_0.rate == rom_u8(
                    stream@,
                    water_at,
                    0,
                )
            }),
    {
        let mut reader = Reader::new_at(stream, addr);
        let grass_pkmn = WildPokemonLocationInfo::new(&mut reader)?;
        let water_pkmn = WildPokemonLocationInfo::new(&mut reader)?;
        Ok(WildPokemonsInfo {
            grass: if grass_pkmn.rate != 0 {
                Some(grass_pkmn)
            } else {
                None
            },
            water: if water_pkmn.rate != 0 {
                Some(water_pkmn)
            } else {
                None
            },
        })
    }
}

} // verus!

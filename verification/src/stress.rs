//! The load that the benchmark puts on a GPU: which cards are forced to their
//! highest clocks, and what puts them back.
use crate::sysfs::{join, ordered, performed, sort_paths, write_sysfs, PathOrder, SysfsWrite};
use crate::sysfs::below;
use crate::text;
use vstd::prelude::*;

verus! {

/// An entry of the DRM directory.
#[derive(Debug, Clone)]
pub struct DrmEntry {
    pub name: String,
    pub path: String,
    /// The name of the driver that the device is bound to, where it can be read.
    pub driver: Option<String>,
    /// Whether the device has a performance level file.
    pub has_level: bool,
}

/// The performance level file of a card, below its directory.
pub open spec fn level_file() -> Seq<char> {
    "device/power_dpm_force_performance_level"@
}

/// Whether the entry is a card, and not one of its connectors.
pub open spec fn is_card(name: Seq<char>) -> bool {
    "card"@.is_prefix_of(name) && !name.contains('-')
}

/// Whether the entry is a card that can be forced to its highest clocks.
pub open spec fn can_be_forced(e: DrmEntry) -> bool {
    is_card(e.name@) && (e.driver matches Some(d) && d@ == "amdgpu"@) && e.has_level
}

/// The directories of the cards among the first `n` entries that can be forced.
pub open spec fn forced_dirs(entries: Seq<DrmEntry>, n: int) -> Seq<Seq<char>>
    decreases n,
{
    if n <= 0 {
        Seq::empty()
    } else if can_be_forced(entries[n - 1]) {
        forced_dirs(entries, n - 1).push(entries[n - 1].path@)
    } else {
        forced_dirs(entries, n - 1)
    }
}

fn holds_dash(name: &str) -> (r: bool)
    ensures
        r == name@.contains('-'),
{
    let v = text::chars_of(name);
    for i in 0..v.len()
        invariant
            v@ == name@,
            forall|k: int| 0 <= k < i ==> #[trigger] v@[k] != '-',
    {
        if v[i] == '-' {
            assert(name@[i as int] == '-');
            return true;
        }
    }
    false
}

/// The cards that can be forced to their highest clocks, in order of their paths.
pub fn find_amdgpu_cards(entries: &Vec<DrmEntry>) -> (r: Vec<String>)
    ensures
        text::views(r@) == ordered(PathOrder::Text, forced_dirs(entries@, entries@.len() as int)),
{
    let mut cards: Vec<String> = Vec::new();
    assert(text::views(cards@) =~= forced_dirs(entries@, 0));
    for i in 0..entries.len()
        invariant
            text::views(cards@) == forced_dirs(entries@, i as int),
    {
        let e = &entries[i];
        let amd = match &e.driver {
            Some(d) => text::same(d.as_str(), "amdgpu"),
            None => false,
        };
        if text::starts_with(e.name.as_str(), "card") && !holds_dash(e.name.as_str()) && amd
            && e.has_level {
            let ghost was = cards@;
            cards.push(e.path.clone());
            assert(text::views(cards@) =~= text::views(was).push(e.path@));
        }
    }
    sort_paths(PathOrder::Text, &cards)
}

/// There has to be a card to force.
pub fn check_cards(cards: &Vec<String>) -> (r: Result<(), String>)
    ensures
        match r {
            Ok(_) => cards@.len() > 0,
            Err(m) => cards@.len() == 0 && m@
                == "no AMD GPU DRM cards found for clock forcing.\nGPU stress currently supports AMD GPUs via sysfs power management."@,
        },
{
    if cards.len() == 0 {
        return Err(
            "no AMD GPU DRM cards found for clock forcing.\nGPU stress currently supports AMD GPUs via sysfs power management.".to_owned(),
        );
    }
    Ok(())
}

/// Cards that are forced to their highest clocks, with what puts them back.
#[derive(Debug)]
pub struct ForcedCards {
    pub originals: Vec<SysfsWrite>,
}

impl ForcedCards {
    pub fn new() -> (r: Self)
        ensures
            r.originals@.len() == 0,
    {
        ForcedCards { originals: Vec::new() }
    }

    /// The performance level file of the card in `dir`.
    pub fn level_path(dir: &str) -> (r: String)
        ensures
            r@ == below(dir@, level_file()),
    {
        join(dir, "device/power_dpm_force_performance_level")
    }

    /// The write that forces the card in `dir`.
    pub fn force(dir: &str) -> (r: SysfsWrite)
        ensures
            r.path@ == below(dir@, level_file()),
            r.value@ == "high"@,
    {
        write_sysfs(
            join(dir, "device/power_dpm_force_performance_level").as_str(),
            "high",
        )
    }

    /// Notes that the card in `dir` was forced, with what its performance level
    /// file held before.
    pub fn forced(&mut self, dir: &str, held: &str)
        ensures
            final(self).originals@.len() == old(self).originals@.len() + 1,
            final(self).originals@.drop_last() == old(self).originals@,
            final(self).originals@.last().path@ == below(dir@, level_file()),
            final(self).originals@.last().value@ == text::trimmed(held@),
    {
        let ghost was = self.originals@;
        self.originals.push(
            write_sysfs(
                join(dir, "device/power_dpm_force_performance_level").as_str(),
                text::trim(held).as_str(),
            ),
        );
        assert(self.originals@.drop_last() =~= was);
    }

    /// The writes that put every forced card back, each once.
    pub fn stop(&mut self) -> (r: Vec<SysfsWrite>)
        ensures
            r@ == old(self).originals@,
            final(self).originals@.len() == 0,
    {
        let mut writes: Vec<SysfsWrite> = Vec::new();
        std::mem::swap(&mut writes, &mut self.originals);
        writes
    }
}

/// Once the writes of `stop` are performed, the performance level file of every
/// card, where no card was forced twice, holds what it held before.
pub proof fn law_stop_puts_back(
    files: Map<Seq<char>, Seq<char>>,
    originals: Seq<SysfsWrite>,
    i: int,
)
    requires
        0 <= i < originals.len(),
        forall|a: int, b: int|
            0 <= a < b < originals.len() ==> (#[trigger] originals[a]).path@ != (
            #[trigger] originals[b]).path@,
    ensures
        performed(files, originals).dom().contains(originals[i].path@),
        performed(files, originals)[originals[i].path@] == originals[i].value@,
    decreases originals.len(),
{
    let rest = originals.drop_last();
    if i < rest.len() {
        assert forall|a: int, b: int| 0 <= a < b < rest.len() implies (
        #[trigger] rest[a]).path@ != (#[trigger] rest[b]).path@ by {
            assert(originals[a].path@ != originals[b].path@);
        }
        law_stop_puts_back(files, rest, i);
        assert(rest[i] == originals[i]);
        assert(originals[i].path@ != originals[originals.len() - 1].path@);
    }
}

/// The cards that are forced are the entries called `card` and something, without a
/// dash, that are bound to `amdgpu` and have a performance level; all of them, as they
/// are listed.
pub proof fn law_forced_cards(entries: Seq<DrmEntry>)
    ensures
        forced_dirs(entries, entries.len() as int) == entries.filter(
            |e: DrmEntry|
                "card"@.is_prefix_of(e.name@) && !e.name@.contains('-') && e.has_level && (
                e.driver matches Some(d) && d@ == "amdgpu"@),
        ).map_values(|e: DrmEntry| e.path@),
{
    assert(entries.take(entries.len() as int) =~= entries);
    lemma_forced_cards(entries, entries.len() as int);
}

proof fn lemma_forced_cards(entries: Seq<DrmEntry>, n: int)
    requires
        0 <= n <= entries.len(),
    ensures
        forced_dirs(entries, n) == entries.take(n).filter(
            |e: DrmEntry|
                "card"@.is_prefix_of(e.name@) && !e.name@.contains('-') && e.has_level && (
                e.driver matches Some(d) && d@ == "amdgpu"@),
        ).map_values(|e: DrmEntry| e.path@),
    decreases n,
{
    reveal(Seq::filter);
    let pred = |e: DrmEntry|
        "card"@.is_prefix_of(e.name@) && !e.name@.contains('-') && e.has_level && (
        e.driver matches Some(d) && d@ == "amdgpu"@);
    let path = |e: DrmEntry| e.path@;
    let all = entries.take(n);
    if n > 0 {
        lemma_forced_cards(entries, n - 1);
        let rest = entries.take(n - 1);
        assert(all.drop_last() =~= rest);
        if pred(all.last()) {
            assert(rest.filter(pred).push(all.last()).map_values(path) =~= rest.filter(
                pred,
            ).map_values(path).push(path(all.last())));
        }
    }
    assert(forced_dirs(entries, n) =~= all.filter(pred).map_values(path));
}

} // verus!

use vstd::prelude::*;
use crate::results::{add_results, format_seed, line_shows, natures_known, seed_text, AdvanceEntry, PermuteOutcome, PermuteResult};
use crate::text::{decimal, push_decimal};

verus! {

/// One spawner of a mass outbreak block, with what the engine returned for
/// it (`PermuteOutcome::none()` where it was not permuted).
pub struct MassOutbreakSpawner {
    /// The name of the area the spawner stands in.
    pub area_name: String,
    pub has_outbreak: bool,
    /// The coordinates as the spawner's description shows them.
    pub x: String,
    pub y: String,
    pub z: String,
    /// The species the spawner displays on the map.
    pub display_species: u16,
    pub seed: u64,
    pub outcome: PermuteOutcome,
}

/// One spawner of a massive mass outbreak area.
pub struct MassiveOutbreakSpawner {
    /// Whether the spawner's status is anything but empty.
    pub is_present: bool,
    pub x: String,
    pub y: String,
    pub z: String,
    pub display_species: u16,
    pub seed: u64,
    pub outcome: PermuteOutcome,
}

/// One area of a massive mass outbreak block, with its spawners in order.
pub struct MassiveOutbreakArea {
    pub area_name: String,
    pub is_active: bool,
    pub spawners: Vec<MassiveOutbreakSpawner>,
}

/// What to do with a dropped binary save block, by its length.
#[derive(Clone, Copy, Debug, PartialEq, Eq, Structural)]
pub enum BinaryDrop {
    /// Both blocks: the mass outbreak block from the first `mass_end` bytes,
    /// the massive mass outbreak block from byte `massive_start` on.
    Both { mass_end: usize, massive_start: usize },
    /// The whole file is a massive mass outbreak block.
    MassiveOnly,
    /// The whole file is a mass outbreak block.
    MassOnly,
    /// Too short for either block: nothing happens.
    Ignored,
}

/// The plan for a dropped file of `len` bytes, given the sizes of the two
/// blocks: both where the file holds both, else the larger massive block
/// where it fits, else the mass block where it fits.
pub open spec fn spec_binary_drop(len: nat, massive_size: nat, mass_size: nat) -> BinaryDrop {
    if len >= massive_size + mass_size {
        BinaryDrop::Both { mass_end: mass_size as usize, massive_start: massive_size as usize }
    } else if len >= massive_size {
        BinaryDrop::MassiveOnly
    } else if len >= mass_size {
        BinaryDrop::MassOnly
    } else {
        BinaryDrop::Ignored
    }
}

/// What a dropped file of `len` bytes is read as: both blocks exactly when it
/// is as long as both together, the massive block alone when it is at least
/// that block but shorter than both, the mass block alone when it is at
/// least that block but shorter than the massive one, and nothing exactly
/// when it is shorter than each block.
pub proof fn lemma_binary_drop_by_length(len: usize, massive_size: usize, mass_size: usize)
    ensures
        spec_binary_drop(len as nat, massive_size as nat, mass_size as nat) is Both <==> len >= massive_size + mass_size,
        spec_binary_drop(len as nat, massive_size as nat, mass_size as nat) is MassiveOnly <==> massive_size <= len < massive_size
            + mass_size,
        spec_binary_drop(len as nat, massive_size as nat, mass_size as nat) is MassOnly <==> mass_size <= len < massive_size,
        spec_binary_drop(len as nat, massive_size as nat, mass_size as nat) is Ignored <==> len < massive_size && len < mass_size,
        spec_binary_drop(len as nat, massive_size as nat, mass_size as nat) matches BinaryDrop::Both { mass_end, massive_start }
            ==> mass_end == mass_size && massive_start == massive_size,
{
}

/// Decides what a dropped binary file of `len` bytes holds.
pub fn plan_binary_drop(len: usize, massive_size: usize, mass_size: usize) -> (plan: BinaryDrop)
    requires
        massive_size + mass_size <= usize::MAX,
    ensures
        plan == spec_binary_drop(len as nat, massive_size as nat, mass_size as nat),
{
    if len >= massive_size + mass_size {
        BinaryDrop::Both { mass_end: mass_size, massive_start: massive_size }
    } else if len >= massive_size {
        BinaryDrop::MassiveOnly
    } else if len >= mass_size {
        BinaryDrop::MassOnly
    } else {
        BinaryDrop::Ignored
    }
}

/// Whether a dropped file with this extension is a spawner description.
pub fn is_spawner_extension(extension: &str) -> (b: bool)
    ensures
        b == (extension@ == "json"@ || extension@ == "txt"@),
{
    crate::text::same_text(extension, "json") || crate::text::same_text(extension, "txt")
}

/// Whether a dropped file with this name is a spawner description.
pub fn is_spawner_file_name(name: &str) -> (b: bool)
    ensures
        b == ((".json"@.len() <= name@.len() && name@.skip(name@.len() - ".json"@.len()) == ".json"@)
            || (".txt"@.len() <= name@.len() && name@.skip(name@.len() - ".txt"@.len()) == ".txt"@)),
{
    crate::text::ends_with_text(name, ".json") || crate::text::ends_with_text(name, ".txt")
}

/// The description of a single spawner.
pub open spec fn single_spawner_name(species: Seq<char>) -> Seq<char> {
    "Single Spawner displays "@ + species
}

/// The description of a spawner of a mass outbreak.
pub open spec fn outbreak_spawner_name(
    area: Seq<char>,
    x: Seq<char>,
    y: Seq<char>,
    z: Seq<char>,
    species: Seq<char>,
) -> Seq<char> {
    area + " Outbreak Spawner at ("@ + x + ", "@ + y + ". "@ + z + ") displays "@ + species
}

/// The description of the `number`th spawner of a massive mass outbreak area.
pub open spec fn massive_spawner_name(
    area: Seq<char>,
    number: nat,
    x: Seq<char>,
    y: Seq<char>,
    z: Seq<char>,
    species: Seq<char>,
) -> Seq<char> {
    area + " MMO Spawner "@ + decimal(number) + " at ("@ + x + ", "@ + y + ". "@ + z
        + ") displays "@ + species
}

/// Whether `r` shows a permutation with this name and seed whose entries
/// are `entries`.
pub open spec fn result_shows(
    r: PermuteResult,
    name: Seq<char>,
    seed: u64,
    entries: Seq<AdvanceEntry>,
    natures: Seq<&'static str>,
) -> bool {
    &&& r.name@ == name
    &&& r.seed@ == seed_text(seed)
    &&& r.lines@.len() == entries.len()
    &&& forall|k: int| 0 <= k < entries.len() ==> line_shows(#[trigger] r.lines@[k], entries[k], natures)
}

/// Whether a spawner of a mass outbreak block gets a result: it has an
/// outbreak and its permutation found something.
pub open spec fn mass_reported(s: MassOutbreakSpawner) -> bool {
    s.has_outbreak && s.outcome.has_results
}

/// The spawners of a mass outbreak block that get a result, in order.
pub open spec fn mass_reports(block: Seq<MassOutbreakSpawner>) -> Seq<MassOutbreakSpawner>
    decreases block.len(),
{
    if block.len() == 0 {
        Seq::empty()
    } else if mass_reported(block.last()) {
        mass_reports(block.drop_last()).push(block.last())
    } else {
        mass_reports(block.drop_last())
    }
}

/// The spawners of one massive mass outbreak area that get a result, each
/// with its number in the area (counted from one): those that are present
/// and whose permutation found something.
pub open spec fn area_reports(spawners: Seq<MassiveOutbreakSpawner>) -> Seq<(nat, MassiveOutbreakSpawner)>
    decreases spawners.len(),
{
    if spawners.len() == 0 {
        Seq::empty()
    } else if spawners.last().is_present && spawners.last().outcome.has_results {
        area_reports(spawners.drop_last()).push((spawners.len(), spawners.last()))
    } else {
        area_reports(spawners.drop_last())
    }
}

/// The spawners of a massive mass outbreak block that get a result, in
/// order, each with the name of its area and its number there; inactive
/// areas give none.
pub open spec fn massive_reports(areas: Seq<MassiveOutbreakArea>) -> Seq<(Seq<char>, nat, MassiveOutbreakSpawner)>
    decreases areas.len(),
{
    if areas.len() == 0 {
        Seq::empty()
    } else {
        let area = areas.last();
        massive_reports(areas.drop_last()) + if area.is_active {
            area_reports(area.spawners@).map_values(
                |r: (nat, MassiveOutbreakSpawner)| (area.area_name@, r.0, r.1),
            )
        } else {
            Seq::empty()
        }
    }
}

/// Builds the description of a spawner of a mass outbreak.
fn build_outbreak_name(area: &str, x: &str, y: &str, z: &str, species: &str) -> (name: String)
    ensures
        name@ == outbreak_spawner_name(area@, x@, y@, z@, species@),
{
    let mut name = String::from_str(area);
    name.append(" Outbreak Spawner at (");
    name.append(x);
    name.append(", ");
    name.append(y);
    name.append(". ");
    name.append(z);
    name.append(") displays ");
    name.append(species);
    name
}

/// Builds the description of the `number`th spawner of a massive mass
/// outbreak area.
fn build_massive_name(area: &str, number: u64, x: &str, y: &str, z: &str, species: &str) -> (name: String)
    ensures
        name@ == massive_spawner_name(area@, number as nat, x@, y@, z@, species@),
{
    let mut name = String::from_str(area);
    name.append(" MMO Spawner ");
    push_decimal(&mut name, number);
    name.append(" at (");
    name.append(x);
    name.append(", ");
    name.append(y);
    name.append(". ");
    name.append(z);
    name.append(") displays ");
    name.append(species);
    name
}

/// The state of the interface: the results shown, and the names by which
/// species and natures are shown.
pub struct PermuteMMO {
    results: Vec<PermuteResult>,
    species_names: Vec<&'static str>,
    nature_names: Vec<&'static str>,
}

impl View for PermuteMMO {
    type V = Seq<PermuteResult>;

    /// The results shown, in order.
    closed spec fn view(&self) -> Seq<PermuteResult> {
        self.results@
    }
}

impl PermuteMMO {
    /// The names of species, by species number.
    pub closed spec fn species(&self) -> Seq<&'static str> {
        self.species_names@
    }

    /// The names of natures, by nature number.
    pub closed spec fn natures(&self) -> Seq<&'static str> {
        self.nature_names@
    }

    /// An interface with no results, showing species and natures by these names.
    pub fn new(species_names: Vec<&'static str>, nature_names: Vec<&'static str>) -> (s: PermuteMMO)
        ensures
            s@.len() == 0,
            s.species() == species_names@,
            s.natures() == nature_names@,
    {
        PermuteMMO { results: Vec::new(), species_names, nature_names }
    }

    /// The results shown, in order.
    pub fn results(&self) -> (r: &Vec<PermuteResult>)
        ensures
            r@ == self@,
    {
        &self.results
    }

    /// Removes every result.
    pub fn clear_results(&mut self)
        ensures
            final(self)@.len() == 0,
            final(self).species() == old(self).species(),
            final(self).natures() == old(self).natures(),
    {
        self.results = Vec::new();
    }

    /// Appends the result of a permutation with this name and seed where it
    /// found something; otherwise changes nothing.
    fn record(&mut self, name: String, seed: u64, outcome: &PermuteOutcome)
        requires
            outcome.has_results ==> natures_known(outcome.entries@, old(self).natures()),
        ensures
            final(self).species() == old(self).species(),
            final(self).natures() == old(self).natures(),
            final(self)@.len() == old(self)@.len() + if outcome.has_results { 1int } else { 0int },
            forall|k: int| 0 <= k < old(self)@.len() ==> #[trigger] final(self)@[k] == old(self)@[k],
            outcome.has_results ==> result_shows(
                final(self)@[old(self)@.len() as int],
                name@,
                seed,
                outcome.entries@,
                old(self).natures(),
            ),
    {
        if outcome.has_results {
            let mut permute_result = PermuteResult { name, seed: format_seed(seed), lines: Vec::new() };
            add_results(&mut permute_result, &outcome.entries, &self.nature_names);
            assert forall|k: int| 0 <= k < outcome.entries@.len() implies line_shows(
                #[trigger] permute_result.lines@[k],
                outcome.entries@[k],
                self.nature_names@,
            ) by {
                assert(permute_result.lines@[0 + k] == permute_result.lines@[k]);
            }
            self.results.push(permute_result);
        }
    }

    /// Records the permutation of a single spawner that displays `species`.
    pub fn permute_single(&mut self, outcome: &PermuteOutcome, seed: u64, species: u16)
        requires
            outcome.has_results ==> species < old(self).species().len() && natures_known(
                outcome.entries@,
                old(self).natures(),
            ),
        ensures
            final(self).species() == old(self).species(),
            final(self).natures() == old(self).natures(),
            final(self)@.len() == old(self)@.len() + if outcome.has_results { 1int } else { 0int },
            forall|k: int| 0 <= k < old(self)@.len() ==> #[trigger] final(self)@[k] == old(self)@[k],
            outcome.has_results ==> result_shows(
                final(self)@[old(self)@.len() as int],
                single_spawner_name(old(self).species()[species as int]@),
                seed,
                outcome.entries@,
                old(self).natures(),
            ),
    {
        if outcome.has_results {
            let mut name = String::from_str("Single Spawner displays ");
            name.append(self.species_names[species as usize]);
            self.record(name, seed, outcome);
        }
    }
}

impl PermuteMMO {
    /// Records the permutations of a mass outbreak block: one result per
    /// spawner that has an outbreak and whose permutation found something,
    /// in the order of the block.
    pub fn permute_mass_outbreak(&mut self, block: &Vec<MassOutbreakSpawner>)
        requires
            forall|k: int|
                0 <= k < mass_reports(block@).len() ==> {
                    &&& (#[trigger] mass_reports(block@)[k]).display_species < old(self).species().len()
                    &&& natures_known(mass_reports(block@)[k].outcome.entries@, old(self).natures())
                },
        ensures
            final(self).species() == old(self).species(),
            final(self).natures() == old(self).natures(),
            final(self)@.len() == old(self)@.len() + mass_reports(block@).len(),
            forall|k: int| 0 <= k < old(self)@.len() ==> #[trigger] final(self)@[k] == old(self)@[k],
            forall|k: int|
                0 <= k < mass_reports(block@).len() ==> {
                    let s = #[trigger] mass_reports(block@)[k];
                    result_shows(
                        final(self)@[old(self)@.len() + k],
                        outbreak_spawner_name(
                            s.area_name@,
                            s.x@,
                            s.y@,
                            s.z@,
                            old(self).species()[s.display_species as int]@,
                        ),
                        s.seed,
                        s.outcome.entries@,
                        old(self).natures(),
                    )
                },
    {
        let ghost before = self.results@;
        let mut i: usize = 0;
        assert(block@.take(0) =~= Seq::<MassOutbreakSpawner>::empty());
        while i < block.len()
            invariant
                i <= block@.len(),
                self.species_names@ == old(self).species(),
                self.nature_names@ == old(self).natures(),
                before == old(self)@,
                forall|k: int|
                    0 <= k < mass_reports(block@).len() ==> {
                        &&& (#[trigger] mass_reports(block@)[k]).display_species < old(self).species().len()
                        &&& natures_known(mass_reports(block@)[k].outcome.entries@, old(self).natures())
                    },
                self.results@.len() == before.len() + mass_reports(block@.take(i as int)).len(),
                forall|k: int| 0 <= k < before.len() ==> #[trigger] self.results@[k] == before[k],
                forall|k: int|
                    0 <= k < mass_reports(block@.take(i as int)).len() ==> {
                        let s = #[trigger] mass_reports(block@.take(i as int))[k];
                        result_shows(
                            self.results@[before.len() + k],
                            outbreak_spawner_name(
                                s.area_name@,
                                s.x@,
                                s.y@,
                                s.z@,
                                old(self).species()[s.display_species as int]@,
                            ),
                            s.seed,
                            s.outcome.entries@,
                            old(self).natures(),
                        )
                    },
            decreases block@.len() - i,
        {
            let spawner = &block[i];
            let ghost prefix = block@.take(i as int);
            let ghost next = block@.take(i + 1);
            assert(next.drop_last() =~= prefix);
            assert(next.last() == *spawner);
            proof {
                lemma_mass_reports_prefix(block@, i + 1);
            }
            if spawner.has_outbreak && spawner.outcome.has_results {
                assert(mass_reports(next) == mass_reports(prefix).push(*spawner));
                let ghost m = mass_reports(prefix).len() as int;
                assert(mass_reports(next)[m] == *spawner);
                assert(mass_reports(block@)[m] == *spawner);
                let name = build_outbreak_name(
                    spawner.area_name.as_str(),
                    spawner.x.as_str(),
                    spawner.y.as_str(),
                    spawner.z.as_str(),
                    self.species_names[spawner.display_species as usize],
                );
                self.record(name, spawner.seed, &spawner.outcome);
            } else {
                assert(mass_reports(next) == mass_reports(prefix));
            }
            i = i + 1;
        }
        assert(block@.take(block@.len() as int) =~= block@);
    }
}

/// The reports of a prefix of a block are a prefix of the block's reports.
proof fn lemma_mass_reports_prefix(block: Seq<MassOutbreakSpawner>, j: int)
    requires
        0 <= j <= block.len(),
    ensures
        mass_reports(block.take(j)).len() <= mass_reports(block).len(),
        forall|k: int|
            0 <= k < mass_reports(block.take(j)).len() ==> #[trigger] mass_reports(block.take(j))[k]
                == mass_reports(block)[k],
    decreases block.len(),
{
    if j < block.len() {
        assert(block.drop_last().take(j) =~= block.take(j));
        lemma_mass_reports_prefix(block.drop_last(), j);
    } else {
        assert(block.take(j) =~= block);
    }
}

/// Whether the reported spawner `r` of a massive mass outbreak can be shown:
/// the names of its species and of its entities' natures are known.
pub open spec fn massive_report_named(
    r: (Seq<char>, nat, MassiveOutbreakSpawner),
    species: Seq<&'static str>,
    natures: Seq<&'static str>,
) -> bool {
    &&& r.2.display_species < species.len()
    &&& natures_known(r.2.outcome.entries@, natures)
}

/// Whether `result` shows the reported spawner `r` of a massive mass outbreak.
pub open spec fn massive_result_shows(
    result: PermuteResult,
    r: (Seq<char>, nat, MassiveOutbreakSpawner),
    species: Seq<&'static str>,
    natures: Seq<&'static str>,
) -> bool {
    result_shows(
        result,
        massive_spawner_name(r.0, r.1, r.2.x@, r.2.y@, r.2.z@, species[r.2.display_species as int]@),
        r.2.seed,
        r.2.outcome.entries@,
        natures,
    )
}

/// The reports of a prefix of an area are a prefix of the area's reports.
proof fn lemma_area_reports_prefix(spawners: Seq<MassiveOutbreakSpawner>, j: int)
    requires
        0 <= j <= spawners.len(),
    ensures
        area_reports(spawners.take(j)).len() <= area_reports(spawners).len(),
        forall|k: int|
            0 <= k < area_reports(spawners.take(j)).len() ==> #[trigger] area_reports(spawners.take(j))[k]
                == area_reports(spawners)[k],
    decreases spawners.len(),
{
    if j < spawners.len() {
        assert(spawners.drop_last().take(j) =~= spawners.take(j));
        lemma_area_reports_prefix(spawners.drop_last(), j);
    } else {
        assert(spawners.take(j) =~= spawners);
    }
}

/// The reports of a prefix of a block are a prefix of the block's reports.
proof fn lemma_massive_reports_prefix(areas: Seq<MassiveOutbreakArea>, j: int)
    requires
        0 <= j <= areas.len(),
    ensures
        massive_reports(areas.take(j)).len() <= massive_reports(areas).len(),
        forall|k: int|
            0 <= k < massive_reports(areas.take(j)).len() ==> #[trigger] massive_reports(areas.take(j))[k]
                == massive_reports(areas)[k],
    decreases areas.len(),
{
    if j < areas.len() {
        assert(areas.drop_last().take(j) =~= areas.take(j));
        lemma_massive_reports_prefix(areas.drop_last(), j);
    } else {
        assert(areas.take(j) =~= areas);
    }
}

/// The spawners of a mass outbreak block that get a result are exactly those
/// that have an outbreak and whose permutation found something, each once,
/// in block order, wherever they stand.
pub proof fn lemma_mass_reports_filter(block: Seq<MassOutbreakSpawner>)
    ensures
        mass_reports(block) == block.filter(|s: MassOutbreakSpawner| s.has_outbreak && s.outcome.has_results),
    decreases block.len(),
{
    reveal(Seq::filter);
    if block.len() > 0 {
        lemma_mass_reports_filter(block.drop_last());
    }
}

/// Reporting a block is reporting its parts: the reports of two blocks one
/// after the other are the reports of the first, then those of the second.
pub proof fn lemma_mass_reports_concat(a: Seq<MassOutbreakSpawner>, b: Seq<MassOutbreakSpawner>)
    ensures
        mass_reports(a + b) == mass_reports(a) + mass_reports(b),
{
    let pred = |s: MassOutbreakSpawner| s.has_outbreak && s.outcome.has_results;
    lemma_mass_reports_filter(a);
    lemma_mass_reports_filter(b);
    lemma_mass_reports_filter(a + b);
    Seq::filter_distributes_over_add(a, b, pred);
}

/// The reports of a massive mass outbreak area are its spawners that are
/// present and whose permutation found something, each once, in area order,
/// each numbered with its own position in the area counted from one.
pub proof fn lemma_area_reports_numbered(spawners: Seq<MassiveOutbreakSpawner>)
    ensures
        forall|k: int|
            0 <= k < area_reports(spawners).len() ==> {
                let r = #[trigger] area_reports(spawners)[k];
                &&& 1 <= r.0 <= spawners.len()
                &&& r.1 == spawners[r.0 - 1]
                &&& r.1.is_present && r.1.outcome.has_results
            },
        forall|k1: int, k2: int|
            0 <= k1 < k2 < area_reports(spawners).len() ==> #[trigger] area_reports(spawners)[k1].0
                < #[trigger] area_reports(spawners)[k2].0,
        forall|j: int|
            0 <= j < spawners.len() && (#[trigger] spawners[j]).is_present && spawners[j].outcome.has_results
                ==> exists|k: int| 0 <= k < area_reports(spawners).len() && #[trigger] area_reports(spawners)[k].0 == j + 1,
    decreases spawners.len(),
{
    if spawners.len() > 0 {
        let rest = spawners.drop_last();
        lemma_area_reports_numbered(rest);
        let p = area_reports(rest);
        let n = spawners.len();
        let last = spawners.last();
        if last.is_present && last.outcome.has_results {
            let q = p.push((n, last));
            assert(area_reports(spawners) == q);
            assert forall|k: int| 0 <= k < q.len() implies {
                let r = #[trigger] q[k];
                &&& 1 <= r.0 <= spawners.len()
                &&& r.1 == spawners[r.0 - 1]
                &&& r.1.is_present && r.1.outcome.has_results
            } by {
                if k < p.len() {
                    assert(q[k] == p[k]);
                    assert(rest[p[k].0 - 1] == spawners[p[k].0 - 1]);
                }
            }
            assert forall|k1: int, k2: int| 0 <= k1 < k2 < q.len() implies #[trigger] q[k1].0 < #[trigger] q[k2].0 by {
                assert(q[k1] == p[k1]);
                if k2 < p.len() {
                    assert(q[k2] == p[k2]);
                }
            }
            assert forall|j: int|
                0 <= j < spawners.len() && (#[trigger] spawners[j]).is_present && spawners[j].outcome.has_results
                implies exists|k: int| 0 <= k < q.len() && #[trigger] q[k].0 == j + 1 by {
                if j < n - 1 {
                    assert(rest[j] == spawners[j]);
                    let k = choose|k: int| 0 <= k < p.len() && #[trigger] p[k].0 == j + 1;
                    assert(q[k] == p[k]);
                } else {
                    assert(q[p.len() as int].0 == j + 1);
                }
            }
        } else {
            assert(area_reports(spawners) == p);
            assert forall|k: int| 0 <= k < p.len() implies {
                let r = #[trigger] p[k];
                &&& 1 <= r.0 <= spawners.len()
                &&& r.1 == spawners[r.0 - 1]
                &&& r.1.is_present && r.1.outcome.has_results
            } by {
                assert(rest[p[k].0 - 1] == spawners[p[k].0 - 1]);
            }
            assert forall|j: int|
                0 <= j < spawners.len() && (#[trigger] spawners[j]).is_present && spawners[j].outcome.has_results
                implies exists|k: int| 0 <= k < p.len() && #[trigger] p[k].0 == j + 1 by {
                assert(j < n - 1);
                assert(rest[j] == spawners[j]);
            }
        }
    }
}

/// Reporting a massive mass outbreak block is reporting its areas one after
/// the other: an inactive area reports nothing, an active one reports its
/// own reports under its own name.
pub proof fn lemma_massive_reports_by_area(a: Seq<MassiveOutbreakArea>, b: Seq<MassiveOutbreakArea>)
    ensures
        massive_reports(a + b) == massive_reports(a) + massive_reports(b),
        forall|area: MassiveOutbreakArea| #[trigger] massive_reports(seq![area]) == if area.is_active {
            area_reports(area.spawners@).map_values(|r: (nat, MassiveOutbreakSpawner)| (area.area_name@, r.0, r.1))
        } else {
            Seq::empty()
        },
    decreases b.len(),
{
    assert forall|area: MassiveOutbreakArea| #[trigger] massive_reports(seq![area]) == if area.is_active {
        area_reports(area.spawners@).map_values(|r: (nat, MassiveOutbreakSpawner)| (area.area_name@, r.0, r.1))
    } else {
        Seq::empty()
    } by {
        let one = seq![area];
        assert(one.drop_last() =~= Seq::<MassiveOutbreakArea>::empty());
        assert(one.last() == area);
        assert(massive_reports(one.drop_last()) =~= Seq::empty());
        if area.is_active {
            assert(massive_reports(one) =~= area_reports(area.spawners@).map_values(
                |r: (nat, MassiveOutbreakSpawner)| (area.area_name@, r.0, r.1),
            ));
        } else {
            assert(massive_reports(one) =~= Seq::empty());
        }
    }
    if b.len() == 0 {
        assert(a + b =~= a);
        assert(massive_reports(b) =~= Seq::empty());
    } else {
        lemma_massive_reports_by_area(a, b.drop_last());
        assert((a + b).drop_last() =~= a + b.drop_last());
        assert((a + b).last() == b.last());
    }
}

/// Whether two massive mass outbreak blocks agree everywhere but in the
/// spawners of inactive areas: the same areas, in the same order, with the
/// same names and the same activity, and the same spawners where active.
pub open spec fn same_but_inactive_spawners(a: Seq<MassiveOutbreakArea>, b: Seq<MassiveOutbreakArea>) -> bool {
    &&& a.len() == b.len()
    &&& forall|i: int|
        0 <= i < a.len() ==> {
            &&& (#[trigger] a[i]).area_name@ == b[i].area_name@
            &&& a[i].is_active == b[i].is_active
            &&& a[i].is_active ==> a[i].spawners@ == b[i].spawners@
        }
}

/// The spawners of inactive areas make no difference: two blocks that agree
/// everywhere else report the same spawners, so permuting either appends the
/// same results.
pub proof fn lemma_inactive_areas_unreported(a: Seq<MassiveOutbreakArea>, b: Seq<MassiveOutbreakArea>)
    requires
        same_but_inactive_spawners(a, b),
    ensures
        massive_reports(a) == massive_reports(b),
    decreases a.len(),
{
    if a.len() > 0 {
        let n = a.len() - 1;
        assert(same_but_inactive_spawners(a.drop_last(), b.drop_last())) by {
            assert forall|i: int| 0 <= i < a.drop_last().len() implies {
                &&& (#[trigger] a.drop_last()[i]).area_name@ == b.drop_last()[i].area_name@
                &&& a.drop_last()[i].is_active == b.drop_last()[i].is_active
                &&& a.drop_last()[i].is_active ==> a.drop_last()[i].spawners@ == b.drop_last()[i].spawners@
            } by {
                assert(a.drop_last()[i] == a[i]);
                assert(b.drop_last()[i] == b[i]);
            }
        }
        lemma_inactive_areas_unreported(a.drop_last(), b.drop_last());
        assert(a.last() == a[n]);
        assert(b.last() == b[n]);
        let fa = |r: (nat, MassiveOutbreakSpawner)| (a.last().area_name@, r.0, r.1);
        let fb = |r: (nat, MassiveOutbreakSpawner)| (b.last().area_name@, r.0, r.1);
        if a.last().is_active {
            assert(area_reports(a.last().spawners@).map_values(fa) =~= area_reports(b.last().spawners@).map_values(fb));
        }
    }
}

impl PermuteMMO {
    /// Records the permutations of the spawners of one active area.
    fn permute_massive_area(&mut self, area: &MassiveOutbreakArea)
        requires
            forall|k: int|
                0 <= k < area_reports(area.spawners@).len() ==> {
                    let r = #[trigger] area_reports(area.spawners@)[k];
                    massive_report_named((area.area_name@, r.0, r.1), old(self).species(), old(self).natures())
                },
        ensures
            final(self).species() == old(self).species(),
            final(self).natures() == old(self).natures(),
            final(self)@.len() == old(self)@.len() + area_reports(area.spawners@).len(),
            forall|k: int| 0 <= k < old(self)@.len() ==> #[trigger] final(self)@[k] == old(self)@[k],
            forall|k: int|
                0 <= k < area_reports(area.spawners@).len() ==> {
                    let r = #[trigger] area_reports(area.spawners@)[k];
                    massive_result_shows(
                        final(self)@[old(self)@.len() + k],
                        (area.area_name@, r.0, r.1),
                        old(self).species(),
                        old(self).natures(),
                    )
                },
    {
        let ghost before = self.results@;
        let spawners = &area.spawners;
        let mut j: usize = 0;
        assert(spawners@.take(0) =~= Seq::<MassiveOutbreakSpawner>::empty());
        while j < spawners.len()
            invariant
                j <= spawners@.len(),
                spawners == &area.spawners,
                self.species_names@ == old(self).species(),
                self.nature_names@ == old(self).natures(),
                before == old(self)@,
                forall|k: int|
                    0 <= k < area_reports(spawners@).len() ==> {
                        let r = #[trigger] area_reports(spawners@)[k];
                        massive_report_named((area.area_name@, r.0, r.1), old(self).species(), old(self).natures())
                    },
                self.results@.len() == before.len() + area_reports(spawners@.take(j as int)).len(),
                forall|k: int| 0 <= k < before.len() ==> #[trigger] self.results@[k] == before[k],
                forall|k: int|
                    0 <= k < area_reports(spawners@.take(j as int)).len() ==> {
                        let r = #[trigger] area_reports(spawners@.take(j as int))[k];
                        massive_result_shows(
                            self.results@[before.len() + k],
                            (area.area_name@, r.0, r.1),
                            old(self).species(),
                            old(self).natures(),
                        )
                    },
            decreases spawners@.len() - j,
        {
            let spawner = &spawners[j];
            let ghost prefix = spawners@.take(j as int);
            let ghost next = spawners@.take(j + 1);
            assert(next.drop_last() =~= prefix);
            assert(next.last() == *spawner);
            proof {
                lemma_area_reports_prefix(spawners@, j + 1);
            }
            if spawner.is_present && spawner.outcome.has_results {
                assert(area_reports(next) == area_reports(prefix).push((next.len(), *spawner)));
                let ghost m = area_reports(prefix).len() as int;
                assert(area_reports(next)[m] == (next.len(), *spawner));
                assert(area_reports(spawners@)[m] == (next.len(), *spawner));
                let name = build_massive_name(
                    area.area_name.as_str(),
                    (j + 1) as u64,
                    spawner.x.as_str(),
                    spawner.y.as_str(),
                    spawner.z.as_str(),
                    self.species_names[spawner.display_species as usize],
                );
                self.record(name, spawner.seed, &spawner.outcome);
            } else {
                assert(area_reports(next) == area_reports(prefix));
            }
            j = j + 1;
        }
        assert(spawners@.take(spawners@.len() as int) =~= spawners@);
    }

    /// Records the permutations of a massive mass outbreak block: for each
    /// active area in order, one result per spawner that is present and
    /// whose permutation found something, in the order of the area.
    pub fn permute_massive_mass_outbreak(&mut self, block: &Vec<MassiveOutbreakArea>)
        requires
            forall|k: int|
                0 <= k < massive_reports(block@).len() ==> massive_report_named(
                    #[trigger] massive_reports(block@)[k],
                    old(self).species(),
                    old(self).natures(),
                ),
        ensures
            final(self).species() == old(self).species(),
            final(self).natures() == old(self).natures(),
            final(self)@.len() == old(self)@.len() + massive_reports(block@).len(),
            forall|k: int| 0 <= k < old(self)@.len() ==> #[trigger] final(self)@[k] == old(self)@[k],
            forall|k: int|
                0 <= k < massive_reports(block@).len() ==> massive_result_shows(
                    final(self)@[old(self)@.len() + k],
                    #[trigger] massive_reports(block@)[k],
                    old(self).species(),
                    old(self).natures(),
                ),
    {
        let ghost before = self.results@;
        let mut i: usize = 0;
        assert(block@.take(0) =~= Seq::<MassiveOutbreakArea>::empty());
        while i < block.len()
            invariant
                i <= block@.len(),
                self.species_names@ == old(self).species(),
                self.nature_names@ == old(self).natures(),
                before == old(self)@,
                forall|k: int|
                    0 <= k < massive_reports(block@).len() ==> massive_report_named(
                        #[trigger] massive_reports(block@)[k],
                        old(self).species(),
                        old(self).natures(),
                    ),
                self.results@.len() == before.len() + massive_reports(block@.take(i as int)).len(),
                forall|k: int| 0 <= k < before.len() ==> #[trigger] self.results@[k] == before[k],
                forall|k: int|
                    0 <= k < massive_reports(block@.take(i as int)).len() ==> massive_result_shows(
                        self.results@[before.len() + k],
                        #[trigger] massive_reports(block@.take(i as int))[k],
                        old(self).species(),
                        old(self).natures(),
                    ),
            decreases block@.len() - i,
        {
            let area = &block[i];
            let ghost prefix = block@.take(i as int);
            let ghost next = block@.take(i + 1);
            let ghost done = massive_reports(prefix);
            assert(next.drop_last() =~= prefix);
            assert(next.last() == *area);
            proof {
                lemma_massive_reports_prefix(block@, i + 1);
            }
            if area.is_active {
                let ghost added = area_reports(area.spawners@).map_values(
                    |r: (nat, MassiveOutbreakSpawner)| (area.area_name@, r.0, r.1),
                );
                assert(massive_reports(next) == done + added);
                assert forall|k: int| 0 <= k < area_reports(area.spawners@).len() implies {
                    let r = #[trigger] area_reports(area.spawners@)[k];
                    massive_report_named((area.area_name@, r.0, r.1), self.species_names@, self.nature_names@)
                } by {
                    assert(massive_reports(next)[done.len() + k] == added[k]);
                    assert(massive_reports(block@)[done.len() + k] == added[k]);
                }
                let ghost mid = self.results@;
                self.permute_massive_area(area);
                assert forall|k: int| 0 <= k < massive_reports(next).len() implies massive_result_shows(
                    self.results@[before.len() + k],
                    #[trigger] massive_reports(next)[k],
                    old(self).species(),
                    old(self).natures(),
                ) by {
                    if k < done.len() {
                        assert(massive_reports(next)[k] == done[k]);
                        assert(self.results@[before.len() + k] == mid[before.len() + k]);
                    } else {
                        let kk = k - done.len();
                        assert(massive_reports(next)[k] == added[kk]);
                        assert(self.results@[before.len() + k] == self.results@[mid.len() + kk]);
                    }
                }
            } else {
                assert(massive_reports(next) =~= done);
            }
            i = i + 1;
        }
        assert(block@.take(block@.len() as int) =~= block@);
    }

    /// Begins reading a dropped binary file of `len` bytes: decides what it
    /// holds and removes every result unless it holds neither block.
    pub fn begin_binary_drop(&mut self, len: usize, massive_size: usize, mass_size: usize) -> (plan: BinaryDrop)
        requires
            massive_size + mass_size <= usize::MAX,
        ensures
            plan == spec_binary_drop(len as nat, massive_size as nat, mass_size as nat),
            final(self).species() == old(self).species(),
            final(self).natures() == old(self).natures(),
            plan == BinaryDrop::Ignored ==> final(self)@ == old(self)@,
            plan != BinaryDrop::Ignored ==> final(self)@.len() == 0,
    {
        let plan = plan_binary_drop(len, massive_size, mass_size);
        match plan {
            BinaryDrop::Ignored => {},
            _ => {
                self.clear_results();
            },
        }
        plan
    }
}

} // verus!

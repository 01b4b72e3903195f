use vstd::prelude::*;
use crate::hex::{parse_prefixed_hex, spec_parse_prefixed_hex};

verus! {

/// The table hash that a spawner file gives for an empty table: the FNV-1a
/// offset basis, the hash of the empty string.
pub const EMPTY_TABLE_HASH: u64 = 0xCBF2_9CE4_8422_2645;

/// A single spawner as a spawner file describes it.  The seed and the two
/// tables are hexadecimal text, with or without `0x`.
#[derive(Clone, Debug)]
pub struct Spawner {
    pub seed: String,
    pub species: u16,
    pub base_count: usize,
    pub base_table: String,
    pub bonus_count: usize,
    pub bonus_table: String,
}

/// What a spawner asks the permutation engine to simulate.
#[derive(Clone, Copy, Debug, PartialEq, Eq, Structural)]
pub enum SpawnRequest {
    /// A mass outbreak: one table, one wave.
    Outbreak { table: u64, count: usize },
    /// A massive mass outbreak: a base wave and a bonus wave.
    MassiveOutbreak { table: u64, count: usize, bonus_table: u64, bonus_count: usize },
}

/// Whether a table hash stands for no table at all.
pub open spec fn is_blank_table(table: u64) -> bool {
    table == 0 || table == EMPTY_TABLE_HASH
}

/// The request that a spawner with these fields makes: a mass outbreak where
/// neither table names one, whose table is then the species wherever the
/// base table reads below 1000; otherwise a massive mass outbreak with both
/// tables.
pub open spec fn spec_spawn_request(
    species: u16,
    base_count: usize,
    base_table: Seq<char>,
    bonus_count: usize,
    bonus_table: Seq<char>,
) -> SpawnRequest {
    let table = spec_parse_prefixed_hex(base_table);
    let bonus = spec_parse_prefixed_hex(bonus_table);
    if is_blank_table(table) && is_blank_table(bonus) {
        SpawnRequest::Outbreak {
            table: if table < 1000 { species as u64 } else { table },
            count: base_count,
        }
    } else {
        SpawnRequest::MassiveOutbreak {
            table,
            count: base_count,
            bonus_table: bonus,
            bonus_count,
        }
    }
}

/// What a spawner's request holds, field by field: it is a mass outbreak
/// exactly when both tables read as 0 or the empty-table hash; a mass
/// outbreak takes the base count and, as its table, the species where the
/// base table reads below 1000 and the base table otherwise; a massive mass
/// outbreak takes the base table, the base count, the bonus table and the
/// bonus count, each as its own field reads.
pub proof fn lemma_spawn_request_fields(
    species: u16,
    base_count: usize,
    base_table: Seq<char>,
    bonus_count: usize,
    bonus_table: Seq<char>,
)
    ensures
        ({
            let r = spec_spawn_request(species, base_count, base_table, bonus_count, bonus_table);
            let t = spec_parse_prefixed_hex(base_table);
            let b = spec_parse_prefixed_hex(bonus_table);
            &&& (r is Outbreak) <==> ((t == 0 || t == 0xCBF2_9CE4_8422_2645u64) && (b == 0 || b == 0xCBF2_9CE4_8422_2645u64))
            &&& r matches SpawnRequest::Outbreak { table, count } ==> {
                &&& count == base_count
                &&& t < 1000 ==> table == species as u64
                &&& t >= 1000 ==> table == t
            }
            &&& r matches SpawnRequest::MassiveOutbreak { table, count, bonus_table: bt, bonus_count: bc } ==> {
                &&& table == t
                &&& count == base_count
                &&& bt == b
                &&& bc == bonus_count
            }
        }),
{
}

impl Spawner {
    /// The request this spawner makes of the permutation engine.
    pub fn spawn_request(&self) -> (r: SpawnRequest)
        ensures
            r == spec_spawn_request(
                self.species,
                self.base_count,
                self.base_table@,
                self.bonus_count,
                self.bonus_table@,
            ),
            (r is Outbreak) <==> (is_blank_table(spec_parse_prefixed_hex(self.base_table@))
                && is_blank_table(spec_parse_prefixed_hex(self.bonus_table@))),
            r matches SpawnRequest::MassiveOutbreak { table, count, bonus_table, bonus_count } ==> {
                &&& table == spec_parse_prefixed_hex(self.base_table@)
                &&& count == self.base_count
                &&& bonus_table == spec_parse_prefixed_hex(self.bonus_table@)
                &&& bonus_count == self.bonus_count
            },
            r matches SpawnRequest::Outbreak { table, count } ==> {
                &&& count == self.base_count
                &&& table == if spec_parse_prefixed_hex(self.base_table@) < 1000 {
                    self.species as u64
                } else {
                    spec_parse_prefixed_hex(self.base_table@)
                }
            },
    {
        let mut table = parse_prefixed_hex(self.base_table.as_str());
        let bonus = parse_prefixed_hex(self.bonus_table.as_str());
        let is_outbreak = !(table != 0 && table != EMPTY_TABLE_HASH)
            && !(bonus != 0 && bonus != EMPTY_TABLE_HASH);
        if is_outbreak {
            if table < 1000 {
                table = self.species as u64;
            }
            SpawnRequest::Outbreak { table, count: self.base_count }
        } else {
            SpawnRequest::MassiveOutbreak {
                table,
                count: self.base_count,
                bonus_table: bonus,
                bonus_count: self.bonus_count,
            }
        }
    }

    /// The group seed this spawner names; a seed that does not parse reads
    /// as zero.
    pub fn group_seed(&self) -> (seed: u64)
        ensures
            seed == spec_parse_prefixed_hex(self.seed@),
    {
        parse_prefixed_hex(self.seed.as_str())
    }
}

impl Default for Spawner {
    /// The spawner a file that does not parse stands for: empty texts and
    /// zero counts.
    fn default() -> (s: Spawner)
        ensures
            s.seed@ == Seq::<char>::empty(),
            s.species == 0,
            s.base_count == 0,
            s.base_table@ == Seq::<char>::empty(),
            s.bonus_count == 0,
            s.bonus_table@ == Seq::<char>::empty(),
    {
        Spawner {
            seed: String::new(),
            species: 0,
            base_count: 0,
            base_table: String::new(),
            bonus_count: 0,
            bonus_table: String::new(),
        }
    }
}

} // verus!

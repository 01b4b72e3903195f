use vstd::prelude::*;
use crate::hex::{hex_upper_fixed, lemma_prefixed_hex_round_trip, spec_parse_prefixed_hex};
use crate::text::{decimal, decimal_pad2, push_decimal, push_decimal_pad2, space_bars, spaced_bars, trim, trim_whitespace};

verus! {

/// One line of a permutation result, as the result panel shows it.
pub struct ResultLine {
    pub path: String,
    pub wave_indicator: String,
    pub spawn: String,
    pub shiny: String,
    pub name: String,
    pub gender: &'static str,
    pub not_alpha: &'static str,
    pub ivs: String,
    pub extras: String,
    pub nature: &'static str,
}

/// The permutation of one spawner: its description, its seed as shown, and
/// one line per path that reaches a matching spawn.
pub struct PermuteResult {
    pub name: String,
    pub seed: String,
    pub lines: Vec<ResultLine>,
}

/// What the permutation engine reports of one path to a matching spawn, as
/// plain values: the relations of this path to the others, the texts the
/// engine renders for it, and the spawned entity.
pub struct AdvanceEntry {
    /// Whether an earlier result shares a prefix of this path.
    pub has_parent: bool,
    /// Whether the last action of the path spawns several results.
    pub is_action_multi_result: bool,
    /// Whether a later result continues this path.
    pub has_child_chain: bool,
    /// The feasibility note for the path.
    pub feasibility: String,
    /// The steps of the path, separated by `|`.
    pub steps: String,
    /// The wave marker of the path.
    pub wave_indicator: String,
    /// The index of the spawn within its wave.
    pub spawn_index: u64,
    /// The shiny marker of the entity.
    pub shiny: String,
    pub is_alpha: bool,
    /// The name of the entity's species, as its spawn slot gives it.
    pub species_name: String,
    /// 0 male, 1 female, 2 genderless.
    pub gender: u8,
    pub ivs: Vec<u8>,
    /// The index of the entity's nature in the list of nature names.
    pub nature: usize,
}

/// Everything the engine returned for one spawner.
pub struct PermuteOutcome {
    /// Whether any path reached a matching spawn.
    pub has_results: bool,
    pub entries: Vec<AdvanceEntry>,
}

impl PermuteOutcome {
    /// The outcome of a spawner that was not permuted.
    pub fn none() -> (o: PermuteOutcome)
        ensures
            !o.has_results,
            o.entries@.len() == 0,
    {
        PermuteOutcome { has_results: false, entries: Vec::new() }
    }
}

/// The label for a gender code: none for genderless, `(F)`, else `(M)`.
pub open spec fn gender_label(gender: u8) -> Seq<char> {
    if gender == 2 {
        ""@
    } else if gender == 1 {
        "(F)"@
    } else {
        "(M)"@
    }
}

/// The name column: the species, marked `α-` when the entity is an alpha.
pub open spec fn entity_name(is_alpha: bool, species_name: Seq<char>) -> Seq<char> {
    if is_alpha {
        "α-"@ + species_name
    } else {
        species_name
    }
}

/// The warning column: `-- NOT ALPHA` unless the entity is an alpha.
pub open spec fn not_alpha_label(is_alpha: bool) -> Seq<char> {
    if is_alpha {
        ""@
    } else {
        "-- NOT ALPHA"@
    }
}

/// The notes column: a chain note where the path has a parent or a child, a
/// note where its last action spawns several results, then the feasibility.
pub open spec fn extras_text(entry: AdvanceEntry) -> Seq<char> {
    (if entry.has_parent || entry.has_child_chain { " ~~ Chain result!"@ } else { ""@ })
        + (if entry.is_action_multi_result { " ~~ Spawns multiple results!"@ } else { ""@ })
        + entry.feasibility@
}

/// The notes column is the feasibility behind a head of notes: the chain note
/// ` ~~ Chain result!` (17 characters) first exactly when the path has a
/// parent or a child, and the note ` ~~ Spawns multiple results!` (28
/// characters) last exactly when its last action spawns several results,
/// each regardless of the other.
pub proof fn lemma_extras_notes(entry: AdvanceEntry)
    ensures
        ({
            let chain = entry.has_parent || entry.has_child_chain;
            let multi = entry.is_action_multi_result;
            let text = extras_text(entry);
            let head_len = (if chain { 17int } else { 0int }) + (if multi { 28int } else { 0int });
            &&& text.len() == head_len + entry.feasibility@.len()
            &&& text.skip(head_len) == entry.feasibility@
            &&& chain ==> text.take(17) == seq![' ', '~', '~', ' ', 'C', 'h', 'a', 'i', 'n', ' ', 'r', 'e', 's', 'u', 'l', 't', '!']
            &&& multi ==> text.subrange(head_len - 28, head_len) == seq![
                ' ', '~', '~', ' ', 'S', 'p', 'a', 'w', 'n', 's', ' ', 'm', 'u', 'l', 't', 'i', 'p', 'l', 'e', ' ',
                'r', 'e', 's', 'u', 'l', 't', 's', '!',
            ]
        }),
{
    reveal_strlit(" ~~ Chain result!");
    reveal_strlit(" ~~ Spawns multiple results!");
    reveal_strlit("");
    let chain = entry.has_parent || entry.has_child_chain;
    let multi = entry.is_action_multi_result;
    let c = if chain { " ~~ Chain result!"@ } else { ""@ };
    let m = if multi { " ~~ Spawns multiple results!"@ } else { ""@ };
    let text = extras_text(entry);
    let head_len = (if chain { 17int } else { 0int }) + (if multi { 28int } else { 0int });
    assert(text == c + m + entry.feasibility@);
    assert(text.skip(head_len) =~= entry.feasibility@);
    if chain {
        assert(text.take(17) =~= c);
    }
    if multi {
        assert(text.subrange(head_len - 28, head_len) =~= m);
    }
}

/// The IVs, each padded to two digits, separated by ` / `.
pub open spec fn ivs_text(ivs: Seq<u8>) -> Seq<char>
    decreases ivs.len(),
{
    if ivs.len() == 0 {
        Seq::empty()
    } else if ivs.len() == 1 {
        decimal_pad2(ivs[0] as nat)
    } else {
        ivs_text(ivs.drop_last()) + " / "@ + decimal_pad2(ivs.last() as nat)
    }
}

/// Whether `line` shows `entry`, with nature names taken from `natures`.
pub open spec fn line_shows(line: ResultLine, entry: AdvanceEntry, natures: Seq<&'static str>) -> bool {
    &&& line.path@ == spaced_bars(entry.steps@)
    &&& line.wave_indicator@ == trim(entry.wave_indicator@)
    &&& line.spawn@ == "Spawn "@ + decimal(entry.spawn_index as nat)
    &&& line.shiny@ == entry.shiny@
    &&& line.name@ == entity_name(entry.is_alpha, entry.species_name@)
    &&& line.gender@ == gender_label(entry.gender)
    &&& line.not_alpha@ == not_alpha_label(entry.is_alpha)
    &&& line.ivs@ == ivs_text(entry.ivs@)
    &&& line.extras@ == extras_text(entry)
    &&& line.nature == natures[entry.nature as int]
}

/// Whether every entry names a nature that `natures` holds.
pub open spec fn natures_known(entries: Seq<AdvanceEntry>, natures: Seq<&'static str>) -> bool {
    forall|k: int| 0 <= k < entries.len() ==> #[trigger] entries[k].nature < natures.len()
}

/// The seed as a result shows it: `Seed: 0x` and sixteen upper-case digits.
pub open spec fn seed_text(seed: u64) -> Seq<char> {
    "Seed: 0x"@ + hex_upper_fixed(seed as nat, 16)
}

/// Shows a group seed as `Seed: 0x` followed by sixteen upper-case
/// hexadecimal digits.
pub fn format_seed(seed: u64) -> (s: String)
    ensures
        s@ == seed_text(seed),
{
    let mut s = String::from_str("Seed: 0x");
    crate::hex::push_hex_upper_fixed(&mut s, seed, 16);
    s
}

/// The IVs, each padded to two digits, separated by ` / `.
pub fn format_ivs(ivs: &Vec<u8>) -> (s: String)
    ensures
        s@ == ivs_text(ivs@),
{
    let mut s = String::new();
    let mut i: usize = 0;
    assert(ivs@.take(0) =~= Seq::<u8>::empty());
    while i < ivs.len()
        invariant
            i <= ivs@.len(),
            s@ == ivs_text(ivs@.take(i as int)),
        decreases ivs@.len() - i,
    {
        let ghost before = s@;
        assert(ivs@.take(i + 1).drop_last() =~= ivs@.take(i as int));
        if i > 0 {
            s.append(" / ");
        }
        push_decimal_pad2(&mut s, ivs[i] as u64);
        proof {
            if i == 0 {
                assert(ivs@.take(1) =~= seq![ivs@[0]]);
                assert(before =~= Seq::<char>::empty());
                assert(s@ =~= decimal_pad2(ivs@[0] as nat));
            } else {
                assert(s@ =~= before + " / "@ + decimal_pad2(ivs@[i as int] as nat));
            }
        }
        i = i + 1;
    }
    assert(ivs@.take(ivs@.len() as int) =~= ivs@);
    s
}

/// The label for a gender code.
pub fn gender_text(gender: u8) -> (s: &'static str)
    ensures
        s@ == gender_label(gender),
{
    match gender {
        2 => "",
        1 => "(F)",
        _ => "(M)",
    }
}

/// The notes column of a line.
pub fn format_extras(entry: &AdvanceEntry) -> (s: String)
    ensures
        s@ == extras_text(*entry),
{
    let mut extras = String::new();
    if entry.has_parent || entry.has_child_chain {
        extras.append(" ~~ Chain result!");
    }
    if entry.is_action_multi_result {
        extras.append(" ~~ Spawns multiple results!");
    }
    extras.append(entry.feasibility.as_str());
    proof {
        let chain = if entry.has_parent || entry.has_child_chain { " ~~ Chain result!"@ } else { ""@ };
        let multi = if entry.is_action_multi_result { " ~~ Spawns multiple results!"@ } else { ""@ };
        assert(""@ =~= Seq::<char>::empty()) by {
            reveal_strlit("");
        }
        assert(extras@ =~= chain + multi + entry.feasibility@);
    }
    extras
}

/// The line that shows `entry`.
pub fn result_line(entry: &AdvanceEntry, natures: &Vec<&'static str>) -> (line: ResultLine)
    requires
        entry.nature < natures@.len(),
    ensures
        line_shows(line, *entry, natures@),
{
    let mut spawn = String::from_str("Spawn ");
    push_decimal(&mut spawn, entry.spawn_index);
    let name = if entry.is_alpha {
        let mut name = String::from_str("α-");
        name.append(entry.species_name.as_str());
        name
    } else {
        String::from_str(entry.species_name.as_str())
    };
    let not_alpha: &'static str = if !entry.is_alpha { "-- NOT ALPHA" } else { "" };
    let nature: &'static str = natures[entry.nature];
    ResultLine {
        path: space_bars(entry.steps.as_str()),
        wave_indicator: trim_whitespace(entry.wave_indicator.as_str()),
        spawn,
        shiny: String::from_str(entry.shiny.as_str()),
        name,
        gender: gender_text(entry.gender),
        not_alpha,
        ivs: format_ivs(&entry.ivs),
        extras: format_extras(entry),
        nature,
    }
}

/// Appends to `permute_result` one line per entry, in order, leaving its
/// name, its seed and the lines it had as they were.
pub fn add_results(permute_result: &mut PermuteResult, entries: &Vec<AdvanceEntry>, natures: &Vec<&'static str>)
    requires
        natures_known(entries@, natures@),
    ensures
        final(permute_result).name == old(permute_result).name,
        final(permute_result).seed == old(permute_result).seed,
        final(permute_result).lines@.len() == old(permute_result).lines@.len() + entries@.len(),
        forall|k: int|
            0 <= k < old(permute_result).lines@.len() ==> #[trigger] final(permute_result).lines@[k]
                == old(permute_result).lines@[k],
        forall|k: int|
            0 <= k < entries@.len() ==> line_shows(
                #[trigger] final(permute_result).lines@[old(permute_result).lines@.len() + k],
                entries@[k],
                natures@,
            ),
{
    let ghost before = permute_result.lines@;
    let mut i: usize = 0;
    while i < entries.len()
        invariant
            i <= entries@.len(),
            natures_known(entries@, natures@),
            permute_result.name == old(permute_result).name,
            permute_result.seed == old(permute_result).seed,
            before == old(permute_result).lines@,
            permute_result.lines@.len() == before.len() + i,
            forall|k: int| 0 <= k < before.len() ==> #[trigger] permute_result.lines@[k] == before[k],
            forall|k: int|
                0 <= k < i ==> line_shows(#[trigger] permute_result.lines@[before.len() + k], entries@[k], natures@),
        decreases entries@.len() - i,
    {
        assert(entries@[i as int].nature < natures@.len());
        let line = result_line(&entries[i], natures);
        permute_result.lines.push(line);
        i = i + 1;
    }
}

/// A seed as a result shows it has twenty-four characters, and reading the
/// part after `Seed: ` as a spawner file's seed field gives the seed back.
pub proof fn lemma_seed_text_reads_back(seed: u64)
    ensures
        seed_text(seed).len() == 24,
        seed_text(seed).take(8) == seq!['S', 'e', 'e', 'd', ':', ' ', '0', 'x'],
        forall|i: int| 8 <= i < 24 ==> crate::hex::is_upper_hex_digit(#[trigger] seed_text(seed)[i]),
        spec_parse_prefixed_hex(seed_text(seed).skip(6)) == seed,
{
    reveal_strlit("Seed: 0x");
    lemma_prefixed_hex_round_trip(seed);
    crate::hex::lemma_hex_upper_fixed_len(seed as nat, 16);
    assert(seed_text(seed).skip(6) =~= seq!['0', 'x'] + hex_upper_fixed(seed as nat, 16));
    assert(seed_text(seed).take(8) =~= seq!['S', 'e', 'e', 'd', ':', ' ', '0', 'x']);
    crate::hex::lemma_hex_upper_fixed_writes_number(seed as nat, 16);
    assert forall|i: int| 8 <= i < 24 implies crate::hex::is_upper_hex_digit(#[trigger] seed_text(seed)[i]) by {
        assert(seed_text(seed)[i] == hex_upper_fixed(seed as nat, 16)[i - 8]);
    }
}

/// The labels of a line: a genderless entity (code 2) shows no gender, a
/// female one (code 1) `(F)` and any other `(M)`; an alpha's name is marked
/// `α-` and only a non-alpha carries the `-- NOT ALPHA` warning.
pub proof fn lemma_line_labels(gender: u8, is_alpha: bool, species_name: Seq<char>)
    ensures
        gender == 2 ==> gender_label(gender) == Seq::<char>::empty(),
        gender == 1 ==> gender_label(gender) == seq!['(', 'F', ')'],
        gender != 1 && gender != 2 ==> gender_label(gender) == seq!['(', 'M', ')'],
        is_alpha ==> entity_name(is_alpha, species_name) == seq!['α', '-'] + species_name,
        !is_alpha ==> entity_name(is_alpha, species_name) == species_name,
        is_alpha ==> not_alpha_label(is_alpha) == Seq::<char>::empty(),
        !is_alpha ==> not_alpha_label(is_alpha) == seq!['-', '-', ' ', 'N', 'O', 'T', ' ', 'A', 'L', 'P', 'H', 'A'],
{
    reveal_strlit("");
    reveal_strlit("(F)");
    reveal_strlit("(M)");
    reveal_strlit("α-");
    reveal_strlit("-- NOT ALPHA");
    assert(""@ =~= Seq::<char>::empty());
    assert("(F)"@ =~= seq!['(', 'F', ')']);
    assert("(M)"@ =~= seq!['(', 'M', ')']);
    assert("α-"@ =~= seq!['α', '-']);
    assert("-- NOT ALPHA"@ =~= seq!['-', '-', ' ', 'N', 'O', 'T', ' ', 'A', 'L', 'P', 'H', 'A']);
}

/// The IVs column of a list of IVs is the columns of its parts joined by
/// ` / `, and a single IV shows as its two-digit padding.
pub proof fn lemma_ivs_text_by_parts(a: Seq<u8>, b: Seq<u8>)
    requires
        a.len() > 0,
        b.len() > 0,
    ensures
        ivs_text(a + b) == ivs_text(a) + seq![' ', '/', ' '] + ivs_text(b),
    decreases b.len(),
{
    reveal_strlit(" / ");
    assert(" / "@ =~= seq![' ', '/', ' ']);
    assert((a + b).drop_last() =~= a + b.drop_last());
    assert((a + b).last() == b.last());
    if b.len() == 1 {
        assert(b.drop_last().len() == 0);
        assert((a + b).drop_last() =~= a);
        assert(ivs_text(b) == decimal_pad2(b[0] as nat));
    } else {
        lemma_ivs_text_by_parts(a, b.drop_last());
        assert(ivs_text(a + b) =~= ivs_text(a) + seq![' ', '/', ' '] + ivs_text(b));
    }
}

/// A single IV shows as its two-digit padding; no IVs show as nothing.
pub proof fn lemma_ivs_text_single(x: u8)
    ensures
        ivs_text(seq![x]) == decimal_pad2(x as nat),
        ivs_text(Seq::<u8>::empty()) == Seq::<char>::empty(),
{
}

} // verus!

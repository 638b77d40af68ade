//! Geometric relationships between bands: their catalog, their notation, and which
//! bands a relationship turns.

use vstd::prelude::*;
use vstd::string::*;
use crate::parse::{parse_number, parsed, part, pieces, split, trim, trimmed, views};
use crate::text::{chars_of, same_chars};

verus! {

/// Geometric relationship types.
#[derive(Clone, Copy, Debug, PartialEq, Eq, Structural)]
pub enum RelationType {
    Conjunction,
    Opposition,
    Trine,
    Square,
    Quintile,
    Sextile,
    SemiSquare,
    SemiSextile,
    Quincunx,
    Sesquiquadrate,
    BiQuintile,
    Quartet,
}

impl RelationType {
    /// The name of a relationship.
    pub open spec fn name_of(self) -> Seq<char> {
        match self {
            RelationType::Conjunction => "conjunction"@,
            RelationType::Opposition => "opposition"@,
            RelationType::Trine => "trine"@,
            RelationType::Square => "square"@,
            RelationType::Quintile => "quintile"@,
            RelationType::Sextile => "sextile"@,
            RelationType::SemiSquare => "semi-square"@,
            RelationType::SemiSextile => "semi-sextile"@,
            RelationType::Quincunx => "quincunx"@,
            RelationType::Sesquiquadrate => "sesquiquadrate"@,
            RelationType::BiQuintile => "bi-quintile"@,
            RelationType::Quartet => "quartet"@,
        }
    }

    /// The angle of a relationship in degrees; a quartet matches phases instead.
    pub open spec fn degrees(self) -> int {
        match self {
            RelationType::Conjunction => 0,
            RelationType::Opposition => 180,
            RelationType::Trine => 120,
            RelationType::Square => 90,
            RelationType::Quintile => 72,
            RelationType::Sextile => 60,
            RelationType::SemiSquare => 45,
            RelationType::SemiSextile => 30,
            RelationType::Quincunx => 150,
            RelationType::Sesquiquadrate => 135,
            RelationType::BiQuintile => 144,
            RelationType::Quartet => 0,
        }
    }

    /// The name of the relationship.
    pub fn name(self) -> (s: &'static str)
        ensures
            s@ == self.name_of(),
    {
        match self {
            RelationType::Conjunction => "conjunction",
            RelationType::Opposition => "opposition",
            RelationType::Trine => "trine",
            RelationType::Square => "square",
            RelationType::Quintile => "quintile",
            RelationType::Sextile => "sextile",
            RelationType::SemiSquare => "semi-square",
            RelationType::SemiSextile => "semi-sextile",
            RelationType::Quincunx => "quincunx",
            RelationType::Sesquiquadrate => "sesquiquadrate",
            RelationType::BiQuintile => "bi-quintile",
            RelationType::Quartet => "quartet",
        }
    }

    /// The angle of the relationship in degrees.
    pub fn angle_deg(self) -> (deg: u32)
        ensures
            deg == self.degrees(),
    {
        match self {
            RelationType::Conjunction => 0,
            RelationType::Opposition => 180,
            RelationType::Trine => 120,
            RelationType::Square => 90,
            RelationType::Quintile => 72,
            RelationType::Sextile => 60,
            RelationType::SemiSquare => 45,
            RelationType::SemiSextile => 30,
            RelationType::Quincunx => 150,
            RelationType::Sesquiquadrate => 135,
            RelationType::BiQuintile => 144,
            RelationType::Quartet => 0,
        }
    }
}

/// A Latin capital as its small letter; any other character as it is.
pub open spec fn lower(c: char) -> char {
    if 'A' <= c && c <= 'Z' {
        (c as u8 + 32) as char
    } else {
        c
    }
}

/// A text in small letters.
pub open spec fn lowered(s: Seq<char>) -> Seq<char> {
    s.map_values(|c: char| lower(c))
}

/// The relationship that a name in small letters, or its other form, stands for.
pub open spec fn named(s: Seq<char>) -> Option<RelationType> {
    if s == "conjunction"@ || s == "conj"@ {
        Some(RelationType::Conjunction)
    } else if s == "opposition"@ || s == "opp"@ {
        Some(RelationType::Opposition)
    } else if s == "trine"@ {
        Some(RelationType::Trine)
    } else if s == "square"@ {
        Some(RelationType::Square)
    } else if s == "quintile"@ {
        Some(RelationType::Quintile)
    } else if s == "sextile"@ {
        Some(RelationType::Sextile)
    } else if s == "semi-square"@ || s == "semisquare"@ {
        Some(RelationType::SemiSquare)
    } else if s == "semi-sextile"@ || s == "semisextile"@ {
        Some(RelationType::SemiSextile)
    } else if s == "quincunx"@ {
        Some(RelationType::Quincunx)
    } else if s == "sesquiquadrate"@ {
        Some(RelationType::Sesquiquadrate)
    } else if s == "bi-quintile"@ || s == "biquintile"@ {
        Some(RelationType::BiQuintile)
    } else if s == "quartet"@ {
        Some(RelationType::Quartet)
    } else {
        None
    }
}

/// Small letters of a text.
fn to_lower(s: &[char]) -> (out: Vec<char>)
    ensures
        out@ == lowered(s@),
{
    let n: usize = s.len();
    let mut out: Vec<char> = Vec::new();
    let mut i: usize = 0;
    while i < n
        invariant
            n == s@.len(),
            i <= n,
            out@ == lowered(s@.take(i as int)),
        decreases n - i,
    {
        let c: char = s[i];
        if 'A' <= c && c <= 'Z' {
            out.push((c as u8 + 32) as char);
        } else {
            out.push(c);
        }
        i += 1;
        assert(out@ =~= lowered(s@.take(i as int)));
    }
    assert(s@.take(n as int) =~= s@);
    out
}

/// Whether characters spell a word.
fn spells(s: &[char], word: &str) -> (yes: bool)
    ensures
        yes == (s@ == word@),
{
    let w: Vec<char> = chars_of(word);
    same_chars(s, &w)
}

/// The relationship of a name, in capitals or small letters. No name holds a letter
/// that a character outside the Latin capitals turns into.
pub fn parse_rel_type(s: &str) -> (rel: Option<RelationType>)
    ensures
        rel == named(lowered(s@)),
{
    let chars: Vec<char> = chars_of(s);
    rel_type_of(&chars)
}

/// The relationship of a name given by its characters.
fn rel_type_of(s: &[char]) -> (rel: Option<RelationType>)
    ensures
        rel == named(lowered(s@)),
{
    let t: Vec<char> = to_lower(s);
    if spells(&t, "conjunction") || spells(&t, "conj") {
        Some(RelationType::Conjunction)
    } else if spells(&t, "opposition") || spells(&t, "opp") {
        Some(RelationType::Opposition)
    } else if spells(&t, "trine") {
        Some(RelationType::Trine)
    } else if spells(&t, "square") {
        Some(RelationType::Square)
    } else if spells(&t, "quintile") {
        Some(RelationType::Quintile)
    } else if spells(&t, "sextile") {
        Some(RelationType::Sextile)
    } else if spells(&t, "semi-square") || spells(&t, "semisquare") {
        Some(RelationType::SemiSquare)
    } else if spells(&t, "semi-sextile") || spells(&t, "semisextile") {
        Some(RelationType::SemiSextile)
    } else if spells(&t, "quincunx") {
        Some(RelationType::Quincunx)
    } else if spells(&t, "sesquiquadrate") {
        Some(RelationType::Sesquiquadrate)
    } else if spells(&t, "bi-quintile") || spells(&t, "biquintile") {
        Some(RelationType::BiQuintile)
    } else if spells(&t, "quartet") {
        Some(RelationType::Quartet)
    } else {
        None
    }
}

/// A relationship is found again by its name.
pub proof fn law_relation_named_by_name(rel: RelationType)
    ensures
        named(rel.name_of()) == Some(rel),
{
    reveal_strlit("conjunction");
    reveal_strlit("conj");
    reveal_strlit("opposition");
    reveal_strlit("opp");
    reveal_strlit("trine");
    reveal_strlit("square");
    reveal_strlit("quintile");
    reveal_strlit("sextile");
    reveal_strlit("semi-square");
    reveal_strlit("semisquare");
    reveal_strlit("semi-sextile");
    reveal_strlit("semisextile");
    reveal_strlit("quincunx");
    reveal_strlit("sesquiquadrate");
    reveal_strlit("bi-quintile");
    reveal_strlit("biquintile");
    reveal_strlit("quartet");
    assert("conjunction"@[0] == 'c' && "semi-square"@[0] == 's' && "semisextile"@[0] == 's'
        && "bi-quintile"@[0] == 'b');
    assert("semi-square"@[4] == '-' && "semisextile"@[4] == 's');
    assert("opposition"@[0] == 'o' && "semisquare"@[0] == 's' && "biquintile"@[0] == 'b');
    assert("quintile"@[4] == 't' && "quincunx"@[4] == 'c');
    assert("sextile"@[0] == 's' && "quartet"@[0] == 'q');
    assert("conjunction"@.len() == 11 && "conj"@.len() == 4 && "opposition"@.len() == 10
        && "opp"@.len() == 3 && "trine"@.len() == 5 && "square"@.len() == 6);
    assert("quintile"@.len() == 8 && "sextile"@.len() == 7 && "semi-square"@.len() == 11
        && "semisquare"@.len() == 10 && "semi-sextile"@.len() == 12 && "semisextile"@.len()
        == 11);
    assert("quincunx"@.len() == 8 && "sesquiquadrate"@.len() == 14 && "bi-quintile"@.len() == 11
        && "biquintile"@.len() == 10 && "quartet"@.len() == 7);
}

/// A catalog entry: a relationship, its angle and how far off it may be, in
/// degrees.
#[derive(Clone, Copy, Debug, PartialEq, Eq, Structural)]
pub struct CatalogEntry {
    pub rel_type: RelationType,
    pub angle_deg: u32,
    pub orb_deg: u32,
}

/// The orb of an angular relationship in degrees.
pub open spec fn orb(rel: RelationType) -> int {
    match rel {
        RelationType::Conjunction | RelationType::Opposition | RelationType::Trine => 8,
        RelationType::Square => 7,
        RelationType::Sextile => 6,
        _ => 2,
    }
}

/// The angular relationships in the order in which they are tried.
pub open spec fn catalog_order() -> Seq<RelationType> {
    seq![
        RelationType::Conjunction,
        RelationType::Opposition,
        RelationType::Trine,
        RelationType::Square,
        RelationType::Quintile,
        RelationType::Sextile,
        RelationType::SemiSquare,
        RelationType::SemiSextile,
        RelationType::Quincunx,
        RelationType::Sesquiquadrate,
        RelationType::BiQuintile,
    ]
}

/// Entry `i` of the catalog.
pub open spec fn entry(i: int) -> CatalogEntry {
    let rel = catalog_order()[i];
    CatalogEntry { rel_type: rel, angle_deg: rel.degrees() as u32, orb_deg: orb(rel) as u32 }
}

fn make_entry(rel_type: RelationType, orb_deg: u32) -> (e: CatalogEntry)
    ensures
        e == (CatalogEntry { rel_type, angle_deg: rel_type.degrees() as u32, orb_deg }),
{
    CatalogEntry { rel_type, angle_deg: rel_type.angle_deg(), orb_deg }
}

/// The catalog that output angles are matched against.
pub fn catalog() -> (out: Vec<CatalogEntry>)
    ensures
        out@ == Seq::new(11, |i: int| entry(i)),
{
    let mut out: Vec<CatalogEntry> = Vec::new();
    out.push(make_entry(RelationType::Conjunction, 8));
    out.push(make_entry(RelationType::Opposition, 8));
    out.push(make_entry(RelationType::Trine, 8));
    out.push(make_entry(RelationType::Square, 7));
    out.push(make_entry(RelationType::Quintile, 2));
    out.push(make_entry(RelationType::Sextile, 6));
    out.push(make_entry(RelationType::SemiSquare, 2));
    out.push(make_entry(RelationType::SemiSextile, 2));
    out.push(make_entry(RelationType::Quincunx, 2));
    out.push(make_entry(RelationType::Sesquiquadrate, 2));
    out.push(make_entry(RelationType::BiQuintile, 2));
    assert(out@ =~= Seq::new(11, |i: int| entry(i)));
    out
}

/// How far two directions are apart, in degrees.
pub open spec fn apart(a: int, b: int) -> int {
    let d = if a >= b {
        a - b
    } else {
        b - a
    };
    if d <= 360 - d {
        d
    } else {
        360 - d
    }
}

/// No angle lies in the orbs of two catalog entries: the order in which they are
/// tried does not matter.
pub proof fn law_orbs_disjoint(i: int, j: int)
    requires
        0 <= i < 11,
        0 <= j < 11,
        i != j,
    ensures
        apart(entry(i).angle_deg as int, entry(j).angle_deg as int) > entry(i).orb_deg
            + entry(j).orb_deg,
{
}

/// A relationship between bands.
pub struct CatalogConfig {
    pub rel_type: RelationType,
    pub bands: Vec<usize>,
}

/// The numbers that can be read out of pieces.
pub open spec fn numbers(parts: Seq<Seq<char>>) -> Seq<usize>
    decreases parts.len(),
{
    if parts.len() == 0 {
        Seq::empty()
    } else {
        let rest = numbers(parts.drop_last());
        match parsed(trimmed(parts.last())) {
            Some(n) => rest.push(n),
            None => rest,
        }
    }
}

/// The place of the first colon; the length where there is none.
pub open spec fn colon_in(s: Seq<char>, from: int) -> int
    decreases s.len() - from,
{
    if from >= s.len() {
        s.len() as int
    } else if s[from] == ':' {
        from
    } else {
        colon_in(s, from + 1)
    }
}

/// The relationship that one part of a specification describes.
pub open spec fn config_of(piece: Seq<char>) -> Option<(RelationType, Seq<usize>)> {
    let t = trimmed(piece);
    let at = colon_in(t, 0);
    if at >= t.len() {
        None
    } else {
        let bands = numbers(pieces(t.subrange(at + 1, t.len() as int), ','));
        match named(lowered(t.subrange(0, at))) {
            Some(rel) => if bands.len() == 0 {
                None
            } else {
                Some((rel, bands))
            },
            None => None,
        }
    }
}

/// The relationships that the parts of a specification describe.
pub open spec fn configs_of(parts: Seq<Seq<char>>) -> Seq<(RelationType, Seq<usize>)>
    decreases parts.len(),
{
    if parts.len() == 0 {
        Seq::empty()
    } else {
        let rest = configs_of(parts.drop_last());
        match config_of(parts.last()) {
            Some(c) => rest.push(c),
            None => rest,
        }
    }
}

/// What a list of configurations holds.
pub open spec fn config_views(configs: Seq<CatalogConfig>) -> Seq<(RelationType, Seq<usize>)> {
    configs.map_values(|c: CatalogConfig| (c.rel_type, c.bands@))
}

/// Reads the numbers of a list; what is no number is left out.
fn parse_numbers(parts: &Vec<Vec<char>>) -> (out: Vec<usize>)
    ensures
        out@ == numbers(views(parts@)),
{
    let n: usize = parts.len();
    let mut out: Vec<usize> = Vec::new();
    let mut i: usize = 0;
    while i < n
        invariant
            n == parts@.len(),
            i <= n,
            out@ == numbers(views(parts@).take(i as int)),
        decreases n - i,
    {
        let ghost all = views(parts@);
        assert(all.take(i + 1).drop_last() =~= all.take(i as int));
        assert(all.take(i + 1).last() == parts@[i as int]@);
        let t: Vec<char> = trim(&parts[i]);
        match parse_number(&t) {
            Some(v) => out.push(v),
            None => {},
        }
        i += 1;
    }
    assert(views(parts@).take(n as int) =~= views(parts@));
    out
}

/// Reads one part of a specification.
fn parse_config(piece: &[char]) -> (config: Option<CatalogConfig>)
    ensures
        match config {
            Some(c) => config_of(piece@) == Some((c.rel_type, c.bands@)),
            None => config_of(piece@) is None,
        },
{
    let t: Vec<char> = trim(piece);
    let n: usize = t.len();
    let mut at: usize = 0;
    while at < n && t[at] != ':'
        invariant
            n == t@.len(),
            at <= n,
            colon_in(t@, 0) == colon_in(t@, at as int),
        decreases n - at,
    {
        at += 1;
    }
    assert(colon_in(t@, 0) == at);
    if at == n {
        return None;
    }
    let name: Vec<char> = part(&t, 0, at);
    let list: Vec<char> = part(&t, at + 1, n);
    match rel_type_of(&name) {
        Some(rel_type) => {
            let bands: Vec<usize> = parse_numbers(&split(&list, ','));
            if bands.len() == 0 {
                None
            } else {
                Some(CatalogConfig { rel_type, bands })
            }
        },
        None => None,
    }
}

/// Reads a specification such as `trine:35,63+opposition:12,54`. Parts that
/// describe no relationship are left out.
pub fn parse_catalog_spec(s: &str) -> (out: Vec<CatalogConfig>)
    ensures
        config_views(out@) == configs_of(pieces(s@, '+')),
{
    let chars: Vec<char> = chars_of(s);
    let parts: Vec<Vec<char>> = split(&chars, '+');
    let n: usize = parts.len();
    let mut out: Vec<CatalogConfig> = Vec::new();
    let mut i: usize = 0;
    assert(config_views(out@) =~= Seq::<(RelationType, Seq<usize>)>::empty());
    while i < n
        invariant
            n == parts@.len(),
            i <= n,
            config_views(out@) == configs_of(views(parts@).take(i as int)),
        decreases n - i,
    {
        let ghost all = views(parts@);
        assert(all.take(i + 1).drop_last() =~= all.take(i as int));
        assert(all.take(i + 1).last() == parts@[i as int]@);
        let ghost before = out@;
        match parse_config(&parts[i]) {
            Some(c) => {
                out.push(c);
                assert(config_views(out@) =~= config_views(before).push((c.rel_type, c.bands@)));
            },
            None => {},
        }
        i += 1;
    }
    assert(views(parts@).take(n as int) =~= views(parts@));
    out
}

} // verus!

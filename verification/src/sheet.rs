//! What a creature or character sheet shows in each of its modes, in the
//! order it is drawn.
use vstd::prelude::*;

verus! {

/// How much of a creature is shown.
#[derive(Clone, Copy, Debug, PartialEq, Eq, Structural)]
pub enum CreatureRenderMode {
    Full,
    Compact,
}

/// How much of a character is shown.
#[derive(Clone, Copy, Debug, PartialEq, Eq, Structural)]
pub enum CharacterRenderMode {
    Full,
    Compact,
}

/// A part of a sheet, each drawn when the creature has it.
#[derive(Clone, Copy, Debug, PartialEq, Eq, Structural)]
pub enum SheetPart {
    Name,
    Race,
    Size,
    CreatureType,
    Levels,
    ChallengeRating,
    HitPoints,
    ArmorClass,
    AbilityScores,
    DamageResistances,
    Effects,
    Feats,
    Skills,
    Loadout,
    Spellbook,
    Resources,
    Conditions,
}

/// The tabs of the full creature sheet, each with its parts.
pub open spec fn full_creature_tabs() -> Seq<(Seq<char>, Seq<SheetPart>)> {
    seq![
        ("Overview"@, seq![
            SheetPart::Race,
            SheetPart::Size,
            SheetPart::CreatureType,
            SheetPart::Levels,
            SheetPart::ChallengeRating,
            SheetPart::HitPoints,
            SheetPart::ArmorClass,
            SheetPart::AbilityScores,
            SheetPart::DamageResistances,
        ]),
        ("Effects"@, seq![SheetPart::Effects, SheetPart::Feats]),
        ("Skills"@, seq![SheetPart::Skills]),
        ("Inventory"@, seq![SheetPart::Loadout]),
        ("Spellbook"@, seq![SheetPart::Spellbook]),
        ("Resources"@, seq![SheetPart::Resources]),
    ]
}

/// The parts of the compact creature sheet.
pub open spec fn compact_creature_parts() -> Seq<SheetPart> {
    seq![SheetPart::Name, SheetPart::Levels, SheetPart::ChallengeRating, SheetPart::HitPoints, SheetPart::Conditions]
}

/// A tab of a sheet: its title and its parts.
pub type SheetTab = (&'static str, Vec<SheetPart>);

/// The views of a list of tabs.
pub open spec fn tabs_view(tabs: Seq<SheetTab>) -> Seq<(Seq<char>, Seq<SheetPart>)> {
    tabs.map_values(|t: SheetTab| (t.0@, t.1@))
}

/// The tabs of a creature sheet in `mode`: the full sheet's tabs, or one
/// untitled tab with the compact sheet's parts.
pub fn creature_sheet(mode: CreatureRenderMode) -> (tabs: Vec<SheetTab>)
    ensures
        tabs_view(tabs@) == match mode {
            CreatureRenderMode::Full => full_creature_tabs(),
            CreatureRenderMode::Compact => seq![(""@, compact_creature_parts())],
        },
{
    let mut tabs: Vec<SheetTab> = Vec::new();
    match mode {
        CreatureRenderMode::Full => {
            tabs.push(("Overview", vec![
                SheetPart::Race,
                SheetPart::Size,
                SheetPart::CreatureType,
                SheetPart::Levels,
                SheetPart::ChallengeRating,
                SheetPart::HitPoints,
                SheetPart::ArmorClass,
                SheetPart::AbilityScores,
                SheetPart::DamageResistances,
            ]));
            tabs.push(("Effects", vec![SheetPart::Effects, SheetPart::Feats]));
            tabs.push(("Skills", vec![SheetPart::Skills]));
            tabs.push(("Inventory", vec![SheetPart::Loadout]));
            tabs.push(("Spellbook", vec![SheetPart::Spellbook]));
            tabs.push(("Resources", vec![SheetPart::Resources]));
        },
        CreatureRenderMode::Compact => {
            tabs.push(("", vec![
                SheetPart::Name,
                SheetPart::Levels,
                SheetPart::ChallengeRating,
                SheetPart::HitPoints,
                SheetPart::Conditions,
            ]));
        },
    }
    assert(tabs_view(tabs@) =~~= match mode {
        CreatureRenderMode::Full => full_creature_tabs(),
        CreatureRenderMode::Compact => seq![(""@, compact_creature_parts())],
    });
    tabs
}

/// The parts of the compact character sheet; the full character sheet is
/// not made yet.
pub fn character_sheet(mode: CharacterRenderMode) -> (parts: Vec<SheetPart>)
    requires
        mode == CharacterRenderMode::Compact,
    ensures
        parts@ == seq![SheetPart::Name, SheetPart::Levels, SheetPart::HitPoints],
{
    let parts = vec![SheetPart::Name, SheetPart::Levels, SheetPart::HitPoints];
    assert(parts@ =~= seq![SheetPart::Name, SheetPart::Levels, SheetPart::HitPoints]);
    parts
}

} // verus!

//! Pure text-building rules used by the GUI widgets: numbers, signs, roman
//! numerals and the coloured text segments of the event log.
use vstd::prelude::*;
use vstd::string::{StrSliceExecFns, StringExecFns};
use crate::inventory::whitespace_char;

verus! {

/// Kinds of damage; each one is drawn in its own colour.
#[derive(Clone, Copy, Debug, PartialEq, Eq, Structural)]
pub enum DamageType {
    Acid,
    Bludgeoning,
    Cold,
    Fire,
    Force,
    Lightning,
    Necrotic,
    Piercing,
    Poison,
    Psychic,
    Radiant,
    Slashing,
    Thunder,
}

/// Item rarities; each one is drawn in its own colour.
#[derive(Clone, Copy, Debug, PartialEq, Eq, Structural)]
pub enum ItemRarity {
    Common,
    Uncommon,
    Rare,
    VeryRare,
    Legendary,
}

/// What a piece of text stands for; the renderer picks the colour from it.
#[derive(Clone, Copy, Debug, PartialEq, Eq, Structural)]
pub enum TextKind {
    Actor,
    Target,
    Action,
    Normal,
    Damage(DamageType),
    Healing,
    Effect,
    Details,
    Ability,
    Skill,
    Item(ItemRarity),
    Green,
    Red,
}

/// A run of text and the kind it is drawn as.
pub type Segment = (String, TextKind);

/// The mathematical value of a list of segments.
pub open spec fn segments_view(v: Seq<Segment>) -> Seq<(Seq<char>, TextKind)> {
    v.map_values(|p: Segment| (p.0@, p.1))
}

/// Sign shown in front of a modifier: `+` for zero and positive values.
pub open spec fn sign_text(value: int) -> Seq<char> {
    if value >= 0 {
        "+"@
    } else {
        "-"@
    }
}

/// Returns `"+"` for non-negative values and `"-"` otherwise.
pub fn sign(value: i32) -> (s: &'static str)
    ensures
        s@ == sign_text(value as int),
{
    if value >= 0 {
        "+"
    } else {
        "-"
    }
}

/// Roman numeral of a spell or slot level from 1 to 9, `?` otherwise.
pub open spec fn roman_text(level: int) -> Seq<char> {
    if level == 1 {
        "I"@
    } else if level == 2 {
        "II"@
    } else if level == 3 {
        "III"@
    } else if level == 4 {
        "IV"@
    } else if level == 5 {
        "V"@
    } else if level == 6 {
        "VI"@
    } else if level == 7 {
        "VII"@
    } else if level == 8 {
        "VIII"@
    } else if level == 9 {
        "IX"@
    } else {
        "?"@
    }
}

/// Roman numeral for levels 1 to 9; any other level is shown as `?`.
pub fn roman_numeral(level: u8) -> (s: &'static str)
    ensures
        s@ == roman_text(level as int),
{
    match level {
        1 => "I",
        2 => "II",
        3 => "III",
        4 => "IV",
        5 => "V",
        6 => "VI",
        7 => "VII",
        8 => "VIII",
        9 => "IX",
        _ => "?",
    }
}

/// Heading of a spell level: level 0 holds the cantrips.
pub open spec fn spell_level_text(level: int) -> Seq<char> {
    if level == 0 {
        "Cantrips"@
    } else {
        roman_text(level)
    }
}

/// Like [`roman_numeral`], but level 0 is shown as `Cantrips`.
pub fn spell_level_roman_numeral(level: u8) -> (s: &'static str)
    ensures
        s@ == spell_level_text(level as int),
{
    if level == 0 {
        "Cantrips"
    } else {
        roman_numeral(level)
    }
}

/// Proficiency levels of a skill or saving throw.
#[derive(Clone, Copy, Debug, PartialEq, Eq, Structural)]
pub enum ProficiencyLevel {
    Untrained,
    Half,
    Proficient,
    Expertise,
}

/// The marker drawn next to a proficient skill.
pub open spec fn proficiency_icon_text(level: ProficiencyLevel) -> Seq<char> {
    match level {
        ProficiencyLevel::Untrained => ""@,
        ProficiencyLevel::Half => "½"@,
        ProficiencyLevel::Proficient => "*"@,
        ProficiencyLevel::Expertise => "**"@,
    }
}

/// Marker for a proficiency level: nothing, `½`, `*` or `**`.
pub fn proficiency_icon(level: ProficiencyLevel) -> (s: &'static str)
    ensures
        s@ == proficiency_icon_text(level),
{
    match level {
        ProficiencyLevel::Untrained => "",
        ProficiencyLevel::Half => "½",
        ProficiencyLevel::Proficient => "*",
        ProficiencyLevel::Expertise => "**",
    }
}

/// The character of a decimal digit.
pub open spec fn digit_char(d: int) -> char {
    if d == 0 {
        '0'
    } else if d == 1 {
        '1'
    } else if d == 2 {
        '2'
    } else if d == 3 {
        '3'
    } else if d == 4 {
        '4'
    } else if d == 5 {
        '5'
    } else if d == 6 {
        '6'
    } else if d == 7 {
        '7'
    } else if d == 8 {
        '8'
    } else {
        '9'
    }
}

/// Decimal notation of a natural number, without leading zeros.
pub open spec fn decimal(n: nat) -> Seq<char>
    decreases n,
{
    if n < 10 {
        seq![digit_char(n as int)]
    } else {
        decimal(n / 10).push(digit_char((n % 10) as int))
    }
}

/// Decimal notation of an integer, with a leading `-` when negative.
pub open spec fn signed_decimal(v: int) -> Seq<char> {
    if v < 0 {
        seq!['-'] + decimal((-v) as nat)
    } else {
        decimal(v as nat)
    }
}

/// Appends one character to a string.
#[verifier::external_body]
pub(crate) fn push_char(s: &mut String, c: char)
    ensures
        final(s)@ == old(s)@.push(c),
{
    s.push(c);
}

fn digit_to_char(d: u64) -> (c: char)
    requires
        d < 10,
    ensures
        c == digit_char(d as int),
{
    match d {
        0 => '0',
        1 => '1',
        2 => '2',
        3 => '3',
        4 => '4',
        5 => '5',
        6 => '6',
        7 => '7',
        8 => '8',
        _ => '9',
    }
}

/// The decimal digits of `n`, most significant first.
pub fn decimal_string(n: u64) -> (s: String)
    ensures
        s@ == decimal(n as nat),
{
    let mut rev: Vec<char> = Vec::new();
    let mut m = n;
    loop
        invariant_except_break
            decimal(n as nat) =~= decimal(m as nat) + rev@.reverse(),
        ensures
            decimal(n as nat) =~= rev@.reverse(),
        decreases m,
    {
        let c = digit_to_char(m % 10);
        let ghost old_rev = rev@;
        rev.push(c);
        assert(rev@.reverse() =~= seq![c] + old_rev.reverse());
        if m < 10 {
            assert(decimal(m as nat) =~= seq![c]);
            break;
        }
        assert(decimal(m as nat) =~= decimal((m / 10) as nat).push(c));
        m = m / 10;
    }
    let mut s = String::new();
    let mut i = rev.len();
    while i > 0
        invariant
            i <= rev.len(),
            s@ == rev@.reverse().take((rev.len() - i) as int),
        decreases i,
    {
        i = i - 1;
        push_char(&mut s, rev[i]);
        assert(s@ =~= rev@.reverse().take((rev.len() - i) as int));
    }
    assert(rev@.reverse().take(rev.len() as int) =~= rev@.reverse());
    s
}


/// Appends `t` to `s`.
pub(crate) fn push_text(s: &mut String, t: &str)
    ensures
        final(s)@ == old(s)@ + t@,
{
    s.append(t);
}

/// Magnitude of an integer.
pub open spec fn magnitude(v: int) -> nat {
    if v < 0 {
        (-v) as nat
    } else {
        v as nat
    }
}

/// A modifier as `+ 2` or `- 1`: sign, space, magnitude.
pub open spec fn modifier_spaced(v: int) -> Seq<char> {
    sign_text(v) + seq![' '] + decimal(magnitude(v))
}

/// A modifier as `+2` or `-1`: sign and magnitude.
pub open spec fn modifier_compact(v: int) -> Seq<char> {
    sign_text(v) + decimal(magnitude(v))
}

/// The text of a modifier: sign, a space when `spaced`, and magnitude.
pub fn modifier_text(v: i32, spaced: bool) -> (s: String)
    requires
        v != i32::MIN,
    ensures
        s@ == if spaced { modifier_spaced(v as int) } else { modifier_compact(v as int) },
{
    let mut s = String::new();
    push_text(&mut s, sign(v));
    if spaced {
        push_char(&mut s, ' ');
    }
    let m: u64 = if v < 0 { (-v) as u64 } else { v as u64 };
    let digits = decimal_string(m);
    push_text(&mut s, digits.as_str());
    s
}

/// The parts of `s` between occurrences of `sep`, as `str::split` gives
/// them: one more part than there are separators, empty parts included.
pub open spec fn split_on(s: Seq<char>, sep: char) -> Seq<Seq<char>>
    decreases s.len(),
{
    if s.len() == 0 {
        seq![Seq::empty()]
    } else {
        let prev = split_on(s.drop_last(), sep);
        if s.last() == sep {
            prev.push(Seq::empty())
        } else {
            prev.update(prev.len() - 1, prev.last().push(s.last()))
        }
    }
}

/// A text has at least one part.
pub proof fn lemma_split_nonempty(s: Seq<char>, sep: char)
    ensures
        split_on(s, sep).len() >= 1,
    decreases s.len(),
{
    if s.len() > 0 {
        lemma_split_nonempty(s.drop_last(), sep);
    }
}

/// Position of the last `sep` in `s`, or -1.
pub open spec fn last_sep(s: Seq<char>, sep: char) -> int
    decreases s.len(),
{
    if s.len() == 0 {
        -1
    } else if s.last() == sep {
        s.len() - 1
    } else {
        last_sep(s.drop_last(), sep)
    }
}

/// The last part of a text is what follows its last separator.
pub proof fn lemma_last_piece(s: Seq<char>, sep: char)
    ensures
        -1 <= last_sep(s, sep) < s.len(),
        split_on(s, sep).last() == s.skip(last_sep(s, sep) + 1),
    decreases s.len(),
{
    lemma_split_nonempty(s, sep);
    if s.len() == 0 {
        assert(s.skip(0) =~= Seq::<char>::empty());
    } else {
        let p = s.drop_last();
        lemma_last_piece(p, sep);
        lemma_split_nonempty(p, sep);
        if s.last() == sep {
            assert(s.skip(s.len() as int) =~= Seq::<char>::empty());
        } else {
            assert(s.skip(last_sep(p, sep) + 1) =~= p.skip(last_sep(p, sep) + 1).push(s.last()));
        }
    }
}

/// The parts of `key` between occurrences of `sep`.
pub fn split_text(key: &str, sep: char) -> (parts: Vec<String>)
    ensures
        parts@.map_values(|p: String| p@) == split_on(key@, sep),
{
    let n = key.unicode_len();
    let mut done: Vec<String> = Vec::new();
    let mut cur = String::new();
    let mut i: usize = 0;
    assert(key@.take(0) =~= Seq::<char>::empty());
    assert(done@.map_values(|p: String| p@).push(cur@) =~= seq![Seq::<char>::empty()]);
    while i < n
        invariant
            n == key@.len(),
            i <= n,
            split_on(key@.take(i as int), sep) == done@.map_values(|p: String| p@).push(cur@),
        decreases n - i,
    {
        let c = key.get_char(i);
        let ghost before = done@.map_values(|p: String| p@);
        assert(key@.take(i + 1).drop_last() =~= key@.take(i as int));
        assert(key@.take(i + 1).last() == c);
        if c == sep {
            let finished = cur;
            done.push(finished);
            cur = String::new();
            assert(done@.map_values(|p: String| p@) =~= before.push(finished@));
        } else {
            push_char(&mut cur, c);
            assert(done@.map_values(|p: String| p@).push(cur@) =~= before.push(cur@));
        }
        i = i + 1;
    }
    assert(key@.take(n as int) =~= key@);
    let ghost before = done@.map_values(|p: String| p@);
    done.push(cur);
    assert(done@.map_values(|p: String| p@) =~= before.push(cur@));
    done
}



/// The decimal notation of `v`, with a leading `-` when negative.
pub fn signed_decimal_string(v: i32) -> (s: String)
    ensures
        s@ == signed_decimal(v as int),
{
    if v < 0 {
        let m: u64 = (-(v as i64)) as u64;
        let digits = decimal_string(m);
        let mut s = String::new();
        push_char(&mut s, '-');
        push_text(&mut s, digits.as_str());
        assert(s@ =~= seq!['-'] + decimal((-(v as int)) as nat));
        s
    } else {
        decimal_string(v as u64)
    }
}

/// How a set of modifiers is shown: on one line, one per line with an
/// indent, or as the total with the list on hover.
#[derive(Clone, Copy, Debug, PartialEq, Eq, Structural)]
pub enum ModifierSetRenderMode {
    Line,
    List(u8),
    Hoverable,
}

/// A line of text: its indent level and its segments.
pub type TextLine = (u8, Vec<Segment>);

/// The mathematical value of a list of lines.
pub open spec fn lines_view(v: Seq<TextLine>) -> Seq<(u8, Seq<(Seq<char>, TextKind)>)> {
    v.map_values(|l: TextLine| (l.0, segments_view(l.1@)))
}

/// The sources and values of a set of modifiers.
pub open spec fn modifiers_view(v: Seq<(String, i32)>) -> Seq<(Seq<char>, i32)> {
    v.map_values(|m: (String, i32)| (m.0@, m.1))
}

/// The modifiers on one line: each non-zero one as `+ 2` followed by its
/// source in parentheses.
pub open spec fn modifier_line(mods: Seq<(Seq<char>, i32)>) -> Seq<(Seq<char>, TextKind)>
    decreases mods.len(),
{
    if mods.len() == 0 {
        Seq::empty()
    } else {
        let prev = modifier_line(mods.drop_last());
        let (source, value) = mods.last();
        if value == 0 {
            prev
        } else {
            prev + seq![
                (modifier_spaced(value as int), TextKind::Normal),
                (seq!['('] + source + seq![')'], TextKind::Details),
            ]
        }
    }
}

/// The modifiers one per line at `indent`: each non-zero one as `+2`
/// followed by its source.
pub open spec fn modifier_rows(mods: Seq<(Seq<char>, i32)>, indent: u8) -> Seq<(u8, Seq<(Seq<char>, TextKind)>)>
    decreases mods.len(),
{
    if mods.len() == 0 {
        Seq::empty()
    } else {
        let prev = modifier_rows(mods.drop_last(), indent);
        let (source, value) = mods.last();
        if value == 0 {
            prev
        } else {
            prev.push((indent, seq![(modifier_compact(value as int), TextKind::Normal), (source, TextKind::Details)]))
        }
    }
}

/// What a set of modifiers with the given total shows in each mode.
pub open spec fn modifier_set_text(
    mods: Seq<(Seq<char>, i32)>,
    total: i32,
    mode: ModifierSetRenderMode,
) -> Seq<(u8, Seq<(Seq<char>, TextKind)>)> {
    match mode {
        ModifierSetRenderMode::Line => if modifier_line(mods).len() == 0 {
            Seq::empty()
        } else {
            seq![(0u8, modifier_line(mods))]
        },
        ModifierSetRenderMode::List(indent) => modifier_rows(mods, indent),
        ModifierSetRenderMode::Hoverable => seq![(0u8, seq![(modifier_compact(total as int), TextKind::Normal)])],
    }
}

/// The tooltip of a hovered set of modifiers: the total, then the list.
pub open spec fn modifier_tooltip_text(mods: Seq<(Seq<char>, i32)>, total: i32) -> Seq<(u8, Seq<(Seq<char>, TextKind)>)> {
    if mods.len() == 0 {
        Seq::empty()
    } else {
        seq![(0u8, seq![("Total: "@ + signed_decimal(total as int), TextKind::Normal)])] + modifier_rows(mods, 1)
    }
}

/// No value is the smallest `i32`, whose magnitude has no `i32`.
pub open spec fn magnitudes_fit(mods: Seq<(String, i32)>) -> bool {
    forall|i: int| 0 <= i < mods.len() ==> #[trigger] mods[i].1 != i32::MIN
}

/// The modifiers on one line.
fn modifier_line_segments(mods: &Vec<(String, i32)>) -> (r: Vec<Segment>)
    requires
        magnitudes_fit(mods@),
    ensures
        segments_view(r@) == modifier_line(modifiers_view(mods@)),
{
    let ghost mv = modifiers_view(mods@);
    let mut r: Vec<Segment> = Vec::new();
    let mut i: usize = 0;
    while i < mods.len()
        invariant
            i <= mods@.len(),
            magnitudes_fit(mods@),
            mv == modifiers_view(mods@),
            segments_view(r@) == modifier_line(mv.take(i as int)),
        decreases mods@.len() - i,
    {
        proof {
            assert(mv.take(i + 1).drop_last() =~= mv.take(i as int));
            assert(mv.take(i + 1).last() == mv[i as int]);
            assert(mods@[i as int].1 != i32::MIN);
        }
        let value = mods[i].1;
        if value != 0 {
            let ghost before = segments_view(r@);
            let amount = modifier_text(value, true);
            let mut source = String::new();
            push_char(&mut source, '(');
            push_text(&mut source, mods[i].0.as_str());
            push_char(&mut source, ')');
            let ghost pair = seq![(amount@, TextKind::Normal), (source@, TextKind::Details)];
            assert(source@ =~= seq!['('] + mv[i as int].0 + seq![')']);
            r.push((amount, TextKind::Normal));
            r.push((source, TextKind::Details));
            assert(segments_view(r@) =~= before + pair);
            assert(segments_view(r@) =~= modifier_line(mv.take(i + 1)));
        }
        i = i + 1;
    }
    assert(mv.take(mods@.len() as int) =~= mv);
    r
}

/// The modifiers one per line at `indent`.
fn modifier_row_lines(mods: &Vec<(String, i32)>, indent: u8) -> (r: Vec<TextLine>)
    requires
        magnitudes_fit(mods@),
    ensures
        lines_view(r@) == modifier_rows(modifiers_view(mods@), indent),
{
    let ghost mv = modifiers_view(mods@);
    let mut r: Vec<TextLine> = Vec::new();
    let mut i: usize = 0;
    while i < mods.len()
        invariant
            i <= mods@.len(),
            magnitudes_fit(mods@),
            mv == modifiers_view(mods@),
            lines_view(r@) == modifier_rows(mv.take(i as int), indent),
        decreases mods@.len() - i,
    {
        proof {
            assert(mv.take(i + 1).drop_last() =~= mv.take(i as int));
            assert(mv.take(i + 1).last() == mv[i as int]);
            assert(mods@[i as int].1 != i32::MIN);
        }
        let value = mods[i].1;
        if value != 0 {
            let amount = modifier_text(value, false);
            let mut row: Vec<Segment> = Vec::new();
            row.push((amount, TextKind::Normal));
            row.push((copy_text(&mods[i].0), TextKind::Details));
            let ghost row_view = segments_view(row@);
            r.push((indent, row));
            assert(row_view =~= seq![(modifier_compact(value as int), TextKind::Normal), (mv[i as int].0, TextKind::Details)]);
            assert(lines_view(r@) =~= modifier_rows(mv.take(i + 1), indent));
        }
        i = i + 1;
    }
    assert(mv.take(mods@.len() as int) =~= mv);
    r
}

/// A copy of a string.
fn copy_text(s: &String) -> (r: String)
    ensures
        r@ == s@,
{
    s.clone()
}

/// The lines a set of modifiers shows in `mode`; `total` is the sum the
/// set reports.
pub fn modifier_set_lines(mods: &Vec<(String, i32)>, total: i32, mode: ModifierSetRenderMode) -> (r: Vec<TextLine>)
    requires
        magnitudes_fit(mods@),
        total != i32::MIN,
    ensures
        lines_view(r@) == modifier_set_text(modifiers_view(mods@), total, mode),
{
    match mode {
        ModifierSetRenderMode::Line => {
            let segs = modifier_line_segments(mods);
            assert(segments_view(segs@).len() == segs@.len());
            let mut r: Vec<TextLine> = Vec::new();
            if segs.len() > 0 {
                let ghost sv = segments_view(segs@);
                r.push((0u8, segs));
                assert(lines_view(r@) =~= seq![(0u8, sv)]);
                assert(modifier_set_text(modifiers_view(mods@), total, mode) == seq![(0u8, sv)]);
            } else {
                assert(lines_view(r@) =~= Seq::<(u8, Seq<(Seq<char>, TextKind)>)>::empty());
                assert(modifier_line(modifiers_view(mods@)).len() == 0);
                assert(modifier_set_text(modifiers_view(mods@), total, mode) == Seq::<(u8, Seq<(Seq<char>, TextKind)>)>::empty());
            }
            r
        },
        ModifierSetRenderMode::List(indent) => modifier_row_lines(mods, indent),
        ModifierSetRenderMode::Hoverable => {
            let mut row: Vec<Segment> = Vec::new();
            let amount = modifier_text(total, false);
            let ghost amount_view = amount@;
            row.push((amount, TextKind::Normal));
            let ghost sv = segments_view(row@);
            assert(sv =~= seq![(amount_view, TextKind::Normal)]);
            let mut r: Vec<TextLine> = Vec::new();
            r.push((0u8, row));
            assert(lines_view(r@) =~= seq![(0u8, sv)]);
            r
        },
    }
}

/// The tooltip lines of a hovered set of modifiers.
pub fn modifier_tooltip_lines(mods: &Vec<(String, i32)>, total: i32) -> (r: Vec<TextLine>)
    requires
        magnitudes_fit(mods@),
    ensures
        lines_view(r@) == modifier_tooltip_text(modifiers_view(mods@), total),
{
    if mods.len() == 0 {
        assert(modifiers_view(mods@).len() == 0);
        let r: Vec<TextLine> = Vec::new();
        assert(lines_view(r@) =~= Seq::<(u8, Seq<(Seq<char>, TextKind)>)>::empty());
        return r;
    }
    let mut head = String::new();
    push_text(&mut head, "Total: ");
    let number = signed_decimal_string(total);
    push_text(&mut head, number.as_str());
    let mut row: Vec<Segment> = Vec::new();
    let ghost head_view = head@;
    assert(head_view == "Total: "@ + signed_decimal(total as int));
    row.push((head, TextKind::Normal));
    let ghost sv = segments_view(row@);
    assert(sv =~= seq![(head_view, TextKind::Normal)]);
    let mut r: Vec<TextLine> = Vec::new();
    r.push((0u8, row));
    let mut rest = modifier_row_lines(mods, 1);
    let ghost first = lines_view(r@);
    let ghost tail = lines_view(rest@);
    r.append(&mut rest);
    assert(lines_view(r@) =~= first + tail);
    assert(first =~= seq![(0u8, sv)]);
    r
}

/// Whether a creature is up, dying (with its death saving throws so far),
/// stable, dead or defeated.
#[derive(Clone, Copy, Debug, PartialEq, Eq, Structural)]
pub enum LifeState {
    Normal,
    Unconscious { successes: u8, failures: u8 },
    Stable,
    Dead,
    Defeated,
}

/// The words between the creature and the actor (if any) when a creature
/// enters `state`.
pub open spec fn life_phrase(state: LifeState, by_actor: bool) -> Seq<char> {
    match state {
        LifeState::Normal => if by_actor { "was revived by"@ } else { "was revived"@ },
        LifeState::Unconscious { .. } => if by_actor {
            "was knocked unconscious by"@
        } else {
            "fell unconscious"@
        },
        LifeState::Stable => if by_actor { "was stabilized by"@ } else { "was stabilized"@ },
        LifeState::Dead => if by_actor { "was killed by"@ } else { "died"@ },
        LifeState::Defeated => if by_actor { "was defeated by"@ } else { "was defeated"@ },
    }
}

/// The log line for a creature entering `state`, caused by `actor` if any.
pub open spec fn life_change_text(
    entity: Seq<char>,
    state: LifeState,
    actor: Option<Seq<char>>,
) -> Seq<(Seq<char>, TextKind)> {
    seq![(entity, TextKind::Target), (life_phrase(state, actor is Some), TextKind::Normal)] + match actor {
        Some(a) => seq![(a, TextKind::Actor)],
        Option::None => Seq::empty(),
    }
}

fn life_phrase_text(state: &LifeState, by_actor: bool) -> (s: &'static str)
    ensures
        s@ == life_phrase(*state, by_actor),
{
    match state {
        LifeState::Normal => if by_actor { "was revived by" } else { "was revived" },
        LifeState::Unconscious { .. } => if by_actor {
            "was knocked unconscious by"
        } else {
            "fell unconscious"
        },
        LifeState::Stable => if by_actor { "was stabilized by" } else { "was stabilized" },
        LifeState::Dead => if by_actor { "was killed by" } else { "died" },
        LifeState::Defeated => if by_actor { "was defeated by" } else { "was defeated" },
    }
}

/// The log line for `entity` entering `new_state`, caused by `actor` if any.
pub fn new_life_state_text(entity: &str, new_state: &LifeState, actor: Option<&str>) -> (r: Vec<Segment>)
    ensures
        segments_view(r@) == life_change_text(
            entity@,
            *new_state,
            match actor {
                Some(a) => Some(a@),
                Option::None => Option::None,
            },
        ),
{
    let phrase = life_phrase_text(new_state, actor.is_some());
    let mut r: Vec<Segment> = Vec::new();
    r.push((entity.to_owned(), TextKind::Target));
    r.push((phrase.to_owned(), TextKind::Normal));
    match actor {
        Some(a) => {
            r.push((a.to_owned(), TextKind::Actor));
        },
        None => {},
    }
    assert(segments_view(r@) =~= life_change_text(
        entity@,
        *new_state,
        match actor {
            Some(a) => Some(a@),
            Option::None => Option::None,
        },
    ));
    r
}

/// `n` copies of `c`.
pub open spec fn repeated(c: char, n: nat) -> Seq<char> {
    Seq::new(n, |i: int| c)
}

/// How a creature's life state is shown next to it: nothing when it is up,
/// its death saving throws as `[++|-]` while it is dying, its state's name
/// otherwise.
pub open spec fn life_state_text(state: LifeState) -> Seq<(Seq<char>, TextKind)> {
    match state {
        LifeState::Normal => Seq::empty(),
        LifeState::Unconscious { successes, failures } => seq![
            ("Unconscious: "@, TextKind::Details),
            ("["@, TextKind::Details),
            (repeated('+', successes as nat), TextKind::Green),
            ("|"@, TextKind::Details),
            (repeated('-', failures as nat), TextKind::Red),
            ("]"@, TextKind::Details),
        ],
        LifeState::Stable => seq![("Stable"@, TextKind::Details)],
        LifeState::Dead => seq![("Dead"@, TextKind::Details)],
        LifeState::Defeated => seq![("Defeated"@, TextKind::Details)],
    }
}

/// `n` copies of `c`.
fn repeat_char(c: char, n: u8) -> (s: String)
    ensures
        s@ == repeated(c, n as nat),
{
    let mut s = String::new();
    let mut i: u8 = 0;
    while i < n
        invariant
            i <= n,
            s@ == repeated(c, i as nat),
        decreases n - i,
    {
        push_char(&mut s, c);
        i = i + 1;
        assert(s@ =~= repeated(c, i as nat));
    }
    s
}

/// The segments showing a creature's life state.
pub fn life_state_segments(state: &LifeState) -> (r: Vec<Segment>)
    ensures
        segments_view(r@) == life_state_text(*state),
{
    let mut r: Vec<Segment> = Vec::new();
    match state {
        LifeState::Normal => {},
        LifeState::Unconscious { successes, failures } => {
            r.push(("Unconscious: ".to_owned(), TextKind::Details));
            r.push(("[".to_owned(), TextKind::Details));
            r.push((repeat_char('+', *successes), TextKind::Green));
            r.push(("|".to_owned(), TextKind::Details));
            r.push((repeat_char('-', *failures), TextKind::Red));
            r.push(("]".to_owned(), TextKind::Details));
        },
        LifeState::Stable => {
            r.push(("Stable".to_owned(), TextKind::Details));
        },
        LifeState::Dead => {
            r.push(("Dead".to_owned(), TextKind::Details));
        },
        LifeState::Defeated => {
            r.push(("Defeated".to_owned(), TextKind::Details));
        },
    }
    assert(segments_view(r@) =~= life_state_text(*state));
    r
}
/// What `str::to_lowercase` gives for a text.
pub uninterp spec fn lowercase_of(s: Seq<char>) -> Seq<char>;

/// A text without its leading whitespace (as `char::is_whitespace` tells it).
pub open spec fn trimmed_start(s: Seq<char>) -> Seq<char>
    decreases s.len(),
{
    if s.len() > 0 && whitespace_char(s[0]) {
        trimmed_start(s.drop_first())
    } else {
        s
    }
}

/// A text without its trailing whitespace.
pub open spec fn trimmed_end(s: Seq<char>) -> Seq<char>
    decreases s.len(),
{
    if s.len() > 0 && whitespace_char(s.last()) {
        trimmed_end(s.drop_last())
    } else {
        s
    }
}

/// A text without its leading and trailing whitespace.
pub open spec fn trimmed(s: Seq<char>) -> Seq<char> {
    trimmed_end(trimmed_start(s))
}

/// `str::to_lowercase`: the text with each character replaced by its
/// lowercase mapping, a function of the text alone, named by
/// [`lowercase_of`].
#[verifier::external_body]
pub(crate) fn lowercase(s: &str) -> (r: String)
    ensures
        r@ == lowercase_of(s@),
{
    s.to_lowercase()
}

/// `str::trim`: the text without leading and trailing whitespace, where
/// whitespace is what has the Unicode `White_Space` property, the property
/// that `char::is_whitespace` tests.
#[verifier::external_body]
pub(crate) fn trim_text(s: &str) -> (r: &str)
    ensures
        r@ == trimmed(s@),
{
    s.trim()
}

/// The lines of a text as `str::lines` splits it: the parts between
/// newlines, without the empty part after a final newline.
pub open spec fn text_lines(s: Seq<char>) -> Seq<Seq<char>> {
    let parts = split_on(s, '\n');
    if parts.last().len() == 0 {
        parts.drop_last()
    } else {
        parts
    }
}

/// `s` without its leading run of `c`.
pub open spec fn without_leading(s: Seq<char>, c: char) -> Seq<char>
    decreases s.len(),
{
    if s.len() > 0 && s[0] == c {
        without_leading(s.drop_first(), c)
    } else {
        s
    }
}

/// Lines joined with newlines between them.
pub open spec fn joined_lines(ls: Seq<Seq<char>>) -> Seq<char>
    decreases ls.len(),
{
    if ls.len() == 0 {
        Seq::empty()
    } else if ls.len() == 1 {
        ls[0]
    } else {
        joined_lines(ls.drop_last()) + seq!['\n'] + ls.last()
    }
}

/// A doc comment as plain text: each line trimmed and stripped of its
/// leading slashes, the lines joined with newlines.
pub open spec fn doc_text(doc: Seq<char>) -> Seq<char> {
    joined_lines(text_lines(doc).map_values(|l: Seq<char>| without_leading(trimmed(l), '/')))
}

/// `s` without its leading run of `c`.
fn strip_leading(s: &str, c: char) -> (r: &str)
    ensures
        r@ == without_leading(s@, c),
{
    let n = s.unicode_len();
    let mut k: usize = 0;
    assert(s@.skip(0) =~= s@);
    while k < n && s.get_char(k) == c
        invariant
            n == s@.len(),
            k <= n,
            without_leading(s@, c) == without_leading(s@.skip(k as int), c),
        decreases n - k,
    {
        assert(s@.skip(k as int).drop_first() =~= s@.skip(k + 1));
        k = k + 1;
    }
    s.substring_char(k, n)
}

/// Turns a doc comment into plain text: every line trimmed and stripped of
/// its leading slashes, the lines joined with newlines.
pub fn rust_doc_to_str(doc: &str) -> (r: String)
    ensures
        r@ == doc_text(doc@),
{
    let mut parts = split_text(doc, '\n');
    proof {
        lemma_split_nonempty(doc@, '\n');
    }
    let ghost all = parts@.map_values(|p: String| p@);
    let last = parts.len() - 1;
    if parts[last].as_str().is_empty() {
        parts.pop();
        assert(parts@.map_values(|p: String| p@) =~= all.drop_last());
    }
    let ghost lines = text_lines(doc@);
    let ghost cleaned = lines.map_values(|l: Seq<char>| without_leading(trimmed(l), '/'));
    assert(parts@.map_values(|p: String| p@) == lines);
    let mut out = String::new();
    let mut i: usize = 0;
    while i < parts.len()
        invariant
            i <= parts@.len(),
            parts@.map_values(|p: String| p@) == lines,
            cleaned == lines.map_values(|l: Seq<char>| without_leading(trimmed(l), '/')),
            out@ == joined_lines(cleaned.take(i as int)),
        decreases parts@.len() - i,
    {
        let ghost before = out@;
        if i > 0 {
            push_char(&mut out, '\n');
        }
        let t = trim_text(parts[i].as_str());
        let u = strip_leading(t, '/');
        push_text(&mut out, u);
        proof {
            assert(lines[i as int] == parts@[i as int]@);
            assert(cleaned.take(i + 1).drop_last() =~= cleaned.take(i as int));
            if i == 0 {
                assert(out@ =~= cleaned.take(1)[0]);
            } else {
                assert(out@ =~= before + seq!['\n'] + cleaned[i as int]);
            }
        }
        i = i + 1;
    }
    assert(cleaned.take(parts@.len() as int) =~= cleaned);
    out
}

/// A decimal has at least one digit, and at least two from ten on.
pub proof fn lemma_decimal_len(n: nat)
    ensures
        decimal(n).len() >= 1,
        n >= 10 ==> decimal(n).len() >= 2,
    decreases n,
{
    if n >= 10 {
        lemma_decimal_len(n / 10);
    }
}

/// Different numbers have different decimals.
pub proof fn lemma_decimal_injective(a: nat, b: nat)
    requires
        decimal(a) == decimal(b),
    ensures
        a == b,
    decreases a,
{
    lemma_decimal_len(a);
    lemma_decimal_len(b);
    if a >= 10 && b >= 10 {
        assert(decimal(a).drop_last() =~= decimal(a / 10));
        assert(decimal(b).drop_last() =~= decimal(b / 10));
        lemma_decimal_injective(a / 10, b / 10);
        assert(decimal(a).last() == digit_char((a % 10) as int));
        assert(decimal(b).last() == digit_char((b % 10) as int));
    } else if a < 10 && b < 10 {
        assert(decimal(a)[0] == digit_char(a as int));
        assert(decimal(b)[0] == digit_char(b as int));
    }
}

/// `Level n name` for each class (its subclass's name when it has one),
/// separated by commas.
pub open spec fn class_levels_text(classes: Seq<(u8, Seq<char>)>) -> Seq<char>
    decreases classes.len(),
{
    if classes.len() == 0 {
        Seq::empty()
    } else {
        let entry = "Level "@ + decimal(classes.last().0 as nat) + seq![' '] + classes.last().1;
        if classes.len() == 1 {
            entry
        } else {
            class_levels_text(classes.drop_last()) + seq![',', ' '] + entry
        }
    }
}

/// The line listing a character's class levels; `classes` holds each
/// class's level and the name shown for it.
pub fn class_levels_line(classes: &Vec<(u8, String)>) -> (s: String)
    ensures
        s@ == class_levels_text(classes@.map_values(|c: (u8, String)| (c.0, c.1@))),
{
    let ghost cv = classes@.map_values(|c: (u8, String)| (c.0, c.1@));
    let mut s = String::new();
    let mut i: usize = 0;
    while i < classes.len()
        invariant
            i <= classes@.len(),
            cv == classes@.map_values(|c: (u8, String)| (c.0, c.1@)),
            s@ == class_levels_text(cv.take(i as int)),
        decreases classes@.len() - i,
    {
        let ghost before = s@;
        if i > 0 {
            push_char(&mut s, ',');
            push_char(&mut s, ' ');
        }
        push_text(&mut s, "Level ");
        let digits = decimal_string(classes[i].0 as u64);
        push_text(&mut s, digits.as_str());
        push_char(&mut s, ' ');
        push_text(&mut s, classes[i].1.as_str());
        proof {
            let t = cv.take(i + 1);
            assert(t.drop_last() =~= cv.take(i as int));
            assert(t.last() == (classes@[i as int].0, classes@[i as int].1@));
            let entry = "Level "@ + decimal(classes@[i as int].0 as nat) + seq![' '] + classes@[i as int].1@;
            if i == 0 {
                assert(s@ =~= entry);
            } else {
                assert(s@ =~= before + seq![',', ' '] + entry);
            }
        }
        i = i + 1;
    }
    assert(cv.take(classes@.len() as int) =~= cv);
    assert(s@ == class_levels_text(cv));
    s
}

/// The header of an ability score: its total, and its modifier written as
/// the sign of the modifier followed by the modifier itself (so a negative
/// modifier shows two minus signs).
pub open spec fn ability_score_text(total: int, modifier: int) -> Seq<(Seq<char>, TextKind)> {
    seq![
        ("Total: "@ + signed_decimal(total), TextKind::Normal),
        ("(Modifier: "@ + sign_text(modifier) + signed_decimal(modifier) + seq![')'], TextKind::Details),
    ]
}

/// The header segments of an ability score with the given total and
/// modifier.
pub fn ability_score_segments(total: i32, modifier: i32) -> (r: Vec<Segment>)
    ensures
        segments_view(r@) == ability_score_text(total as int, modifier as int),
{
    let mut head = String::new();
    push_text(&mut head, "Total: ");
    let t = signed_decimal_string(total);
    push_text(&mut head, t.as_str());
    let mut detail = String::new();
    push_text(&mut detail, "(Modifier: ");
    push_text(&mut detail, sign(modifier));
    let m = signed_decimal_string(modifier);
    push_text(&mut detail, m.as_str());
    push_char(&mut detail, ')');
    let ghost hv = head@;
    let ghost dv = detail@;
    assert(hv =~= "Total: "@ + signed_decimal(total as int));
    assert(dv =~= "(Modifier: "@ + sign_text(modifier as int) + signed_decimal(modifier as int) + seq![')']);
    let mut r: Vec<Segment> = Vec::new();
    r.push((head, TextKind::Normal));
    r.push((detail, TextKind::Details));
    assert(segments_view(r@) =~= seq![(hv, TextKind::Normal), (dv, TextKind::Details)]);
    r
}

/// The line for a target that took no damage: its name, why (`took no
/// damage` or `was not hit`), and a note when the attack was a critical miss.
pub open spec fn no_damage_text(target: Seq<char>, reason: Seq<char>, critical_miss: bool) -> Seq<(Seq<char>, TextKind)> {
    seq![(target, TextKind::Target), (reason, TextKind::Normal)] + if critical_miss {
        seq![("(Critical Miss!)"@, TextKind::Details)]
    } else {
        Seq::empty()
    }
}

/// The line for a target that took no damage; `critical_miss` tells whether
/// an attack roll was made and failed critically.
pub fn no_damage_segments(target: &str, reason: &str, critical_miss: bool) -> (r: Vec<Segment>)
    ensures
        segments_view(r@) == no_damage_text(target@, reason@, critical_miss),
{
    let mut r: Vec<Segment> = Vec::new();
    r.push((target.to_owned(), TextKind::Target));
    r.push((reason.to_owned(), TextKind::Normal));
    if critical_miss {
        r.push(("(Critical Miss!)".to_owned(), TextKind::Details));
    }
    assert(segments_view(r@) =~= no_damage_text(target@, reason@, critical_miss));
    r
}

/// The line for a healed target: `X was healed for N HP`.
pub open spec fn healing_text(target: Seq<char>, amount: int) -> Seq<(Seq<char>, TextKind)> {
    seq![
        (target, TextKind::Target),
        ("was healed for"@, TextKind::Normal),
        (signed_decimal(amount) + " HP"@, TextKind::Healing),
    ]
}

/// The line for a target healed by `amount` hit points.
pub fn healing_segments(target: &str, amount: i32) -> (r: Vec<Segment>)
    ensures
        segments_view(r@) == healing_text(target@, amount as int),
{
    let mut hp = signed_decimal_string(amount);
    push_text(&mut hp, " HP");
    let ghost hv = hp@;
    let mut r: Vec<Segment> = Vec::new();
    r.push((target.to_owned(), TextKind::Target));
    r.push(("was healed for".to_owned(), TextKind::Normal));
    r.push((hp, TextKind::Healing));
    assert(segments_view(r@) =~= seq![
        (target@, TextKind::Target),
        ("was healed for"@, TextKind::Normal),
        (hv, TextKind::Healing),
    ]);
    r
}

/// The line for a target that gained a beneficial effect.
pub open spec fn effect_gained_text(target: Seq<char>, effect: Seq<char>) -> Seq<(Seq<char>, TextKind)> {
    seq![(target, TextKind::Target), ("gained effect"@, TextKind::Normal), (effect, TextKind::Effect)]
}

/// The line for a target that gained the effect `effect`.
pub fn effect_gained_segments(target: &str, effect: &str) -> (r: Vec<Segment>)
    ensures
        segments_view(r@) == effect_gained_text(target@, effect@),
{
    let mut r: Vec<Segment> = Vec::new();
    r.push((target.to_owned(), TextKind::Target));
    r.push(("gained effect".to_owned(), TextKind::Normal));
    r.push((effect.to_owned(), TextKind::Effect));
    assert(segments_view(r@) =~= effect_gained_text(target@, effect@));
    r
}

/// Why an attack missed, with the roll and the armour class.
pub open spec fn miss_text(attack_total: int, armor_class: int) -> Seq<char> {
    "Attack did not hit. Attack roll ("@ + signed_decimal(attack_total) + ") was less than Armor Class ("@
        + signed_decimal(armor_class) + seq![')']
}

/// The explanation shown when an attack roll did not reach the armour
/// class.
pub fn miss_explanation(attack_total: i32, armor_class: i32) -> (s: String)
    ensures
        s@ == miss_text(attack_total as int, armor_class as int),
{
    let mut s = String::new();
    push_text(&mut s, "Attack did not hit. Attack roll (");
    let a = signed_decimal_string(attack_total);
    push_text(&mut s, a.as_str());
    push_text(&mut s, ") was less than Armor Class (");
    let b = signed_decimal_string(armor_class);
    push_text(&mut s, b.as_str());
    push_char(&mut s, ')');
    assert(s@ =~= miss_text(attack_total as int, armor_class as int));
    s
}

/// Whether a d20 was rolled once, or twice keeping the higher or the lower.
#[derive(Clone, Copy, Debug, PartialEq, Eq, Structural)]
pub enum RollMode {
    Normal,
    Advantage,
    Disadvantage,
}

/// The name of a roll mode.
pub open spec fn roll_mode_name(mode: RollMode) -> Seq<char> {
    match mode {
        RollMode::Normal => "Normal"@,
        RollMode::Advantage => "Advantage"@,
        RollMode::Disadvantage => "Disadvantage"@,
    }
}

fn roll_mode_text(mode: RollMode) -> (s: &'static str)
    ensures
        s@ == roll_mode_name(mode),
{
    match mode {
        RollMode::Normal => "Normal",
        RollMode::Advantage => "Advantage",
        RollMode::Disadvantage => "Disadvantage",
    }
}

/// The segments of a d20 roll: the die kept, both dice and the mode when
/// two were rolled, and the critical success or failure.
pub open spec fn d20_roll_text(
    kept: u32,
    rolls: (u32, u32),
    mode: RollMode,
    is_crit: bool,
    is_crit_fail: bool,
) -> Seq<(Seq<char>, TextKind)> {
    seq![(decimal(kept as nat), TextKind::Normal), ("(1d20)"@, TextKind::Details)] + (if mode != RollMode::Normal {
        seq![(seq![' ', '('] + decimal(rolls.0 as nat) + seq![',', ' '] + decimal(rolls.1 as nat) + seq![',', ' ']
            + roll_mode_name(mode) + seq![')'], TextKind::Details)]
    } else {
        Seq::empty()
    }) + (if is_crit {
        seq![("(Critical Success!)"@, TextKind::Normal)]
    } else {
        Seq::empty()
    }) + (if is_crit_fail {
        seq![("(Critical Failure!)"@, TextKind::Normal)]
    } else {
        Seq::empty()
    })
}

/// The segments showing a d20 roll.
pub fn d20_roll_segments(kept: u32, rolls: (u32, u32), mode: RollMode, is_crit: bool, is_crit_fail: bool) -> (r: Vec<Segment>)
    ensures
        segments_view(r@) == d20_roll_text(kept, rolls, mode, is_crit, is_crit_fail),
{
    let mut r: Vec<Segment> = Vec::new();
    r.push((decimal_string(kept as u64), TextKind::Normal));
    r.push(("(1d20)".to_owned(), TextKind::Details));
    let ghost base = segments_view(r@);
    let mut two = false;
    match mode {
        RollMode::Normal => {},
        _ => {
            two = true;
        },
    }
    if two {
        let mut dice = String::new();
        push_char(&mut dice, ' ');
        push_char(&mut dice, '(');
        let a = decimal_string(rolls.0 as u64);
        push_text(&mut dice, a.as_str());
        push_char(&mut dice, ',');
        push_char(&mut dice, ' ');
        let b = decimal_string(rolls.1 as u64);
        push_text(&mut dice, b.as_str());
        push_char(&mut dice, ',');
        push_char(&mut dice, ' ');
        push_text(&mut dice, roll_mode_text(mode));
        push_char(&mut dice, ')');
        assert(dice@ =~= seq![' ', '('] + decimal(rolls.0 as nat) + seq![',', ' '] + decimal(rolls.1 as nat)
            + seq![',', ' '] + roll_mode_name(mode) + seq![')']);
        r.push((dice, TextKind::Details));
    }
    assert(two == (mode != RollMode::Normal));
    let ghost with_dice = segments_view(r@);
    if is_crit {
        r.push(("(Critical Success!)".to_owned(), TextKind::Normal));
    }
    let ghost with_crit = segments_view(r@);
    if is_crit_fail {
        r.push(("(Critical Failure!)".to_owned(), TextKind::Normal));
    }
    proof {
        let dice_part = if mode != RollMode::Normal {
            seq![(seq![' ', '('] + decimal(rolls.0 as nat) + seq![',', ' '] + decimal(rolls.1 as nat) + seq![',', ' ']
                + roll_mode_name(mode) + seq![')'], TextKind::Details)]
        } else {
            Seq::<(Seq<char>, TextKind)>::empty()
        };
        let crit_part = if is_crit {
            seq![("(Critical Success!)"@, TextKind::Normal)]
        } else {
            Seq::<(Seq<char>, TextKind)>::empty()
        };
        let fail_part = if is_crit_fail {
            seq![("(Critical Failure!)"@, TextKind::Normal)]
        } else {
            Seq::<(Seq<char>, TextKind)>::empty()
        };
        assert(base =~= seq![(decimal(kept as nat), TextKind::Normal), ("(1d20)"@, TextKind::Details)]);
        assert(with_dice =~= base + dice_part);
        assert(with_crit =~= with_dice + crit_part);
        assert(segments_view(r@) =~= with_crit + fail_part);
    }
    r
}

/// The text naming a targeting kind other than an area, whose shape and
/// size are written by the window.
pub open spec fn targeting_text(kind: crate::combat::TargetingKind) -> Option<Seq<char>> {
    match kind {
        crate::combat::TargetingKind::SelfTarget => Some("Self Target"@),
        crate::combat::TargetingKind::Single => Some("Single Target"@),
        crate::combat::TargetingKind::Multiple { max_targets } => Some(decimal(max_targets as nat) + " Targets"@),
        crate::combat::TargetingKind::Area => Option::None,
    }
}

/// The text naming a targeting kind; `None` for an area.
pub fn targeting_label(kind: crate::combat::TargetingKind) -> (s: Option<String>)
    ensures
        match s {
            Some(t) => targeting_text(kind) == Some(t@),
            Option::None => targeting_text(kind) is None,
        },
{
    match kind {
        crate::combat::TargetingKind::SelfTarget => Some("Self Target".to_owned()),
        crate::combat::TargetingKind::Single => Some("Single Target".to_owned()),
        crate::combat::TargetingKind::Multiple { max_targets } => {
            let mut t = decimal_string(max_targets as u64);
            push_text(&mut t, " Targets");
            Some(t)
        },
        crate::combat::TargetingKind::Area => None,
    }
}

/// The value of a decimal digit character.
pub open spec fn digit_value(c: char) -> int {
    c as u32 - '0' as u32
}

/// The number a string of decimal digits stands for.
pub open spec fn decimal_value(s: Seq<char>) -> int
    decreases s.len(),
{
    if s.len() == 0 {
        0
    } else {
        decimal_value(s.drop_last()) * 10 + digit_value(s.last())
    }
}

/// A character is a decimal digit.
pub open spec fn is_digit(c: char) -> bool {
    '0' <= c <= '9'
}

pub(crate) proof fn lemma_digit_value_of(d: int)
    requires
        0 <= d < 10,
    ensures
        is_digit(digit_char(d)),
        digit_value(digit_char(d)) == d,
{
}

proof fn lemma_digit_char(d: int)
    requires
        0 <= d < 10,
    ensures
        is_digit(digit_char(d)),
        digit_value(digit_char(d)) == d,
{
}

/// The decimal notation of a number is made of digits, starts with a digit
/// other than 0 unless the number is 0, and reads back as the number.
pub proof fn lemma_decimal_reads_back(n: nat)
    ensures
        decimal(n).len() > 0,
        forall|i: int| 0 <= i < decimal(n).len() ==> is_digit(#[trigger] decimal(n)[i]),
        decimal_value(decimal(n)) == n,
        n > 0 ==> decimal(n)[0] != '0',
        n == 0 ==> decimal(n) == seq!['0'],
    decreases n,
{
    if n < 10 {
        lemma_digit_char(n as int);
        assert(decimal(n).drop_last() =~= Seq::<char>::empty());
        assert(decimal_value(Seq::<char>::empty()) == 0);
        assert(decimal(n).last() == digit_char(n as int));
        assert(decimal_value(decimal(n)) == 0 * 10 + digit_value(digit_char(n as int)));
    } else {
        lemma_decimal_reads_back(n / 10);
        lemma_digit_char((n % 10) as int);
        let p = decimal(n / 10);
        assert(decimal(n).drop_last() =~= p);
        assert(decimal(n)[0] == p[0]);
        assert(decimal_value(decimal(n)) == decimal_value(p) * 10 + digit_value(digit_char((n % 10) as int)));
        assert((n / 10) * 10 + n % 10 == n) by (nonlinear_arith);
        assert(decimal_value(p) == n / 10);
        assert(digit_value(digit_char((n % 10) as int)) == n % 10);
        assert forall|i: int| 0 <= i < decimal(n).len() implies is_digit(#[trigger] decimal(n)[i]) by {
            if i < p.len() {
                assert(decimal(n)[i] == p[i]);
            }
        }
    }
}

/// A signed decimal starts with `-` exactly for a negative number, and the
/// rest reads back as its magnitude.
pub proof fn lemma_signed_decimal(v: int)
    ensures
        (signed_decimal(v)[0] == '-') == (v < 0),
        v < 0 ==> signed_decimal(v).drop_first() == decimal(magnitude(v)),
        v >= 0 ==> signed_decimal(v) == decimal(magnitude(v)),
{
    lemma_decimal_reads_back(magnitude(v));
    if v < 0 {
        assert((seq!['-'] + decimal((-v) as nat)).drop_first() =~= decimal((-v) as nat));
    } else {
        assert(is_digit(decimal(v as nat)[0]));
    }
}

/// A modifier carries `+` for zero and positive values and `-` for negative
/// ones; the spaced form is the compact one with a space after the sign.
pub proof fn lemma_modifier_forms(v: int)
    ensures
        v >= 0 ==> sign_text(v) == "+"@,
        v < 0 ==> sign_text(v) == "-"@,
        modifier_compact(v) == sign_text(v) + decimal(magnitude(v)),
        modifier_spaced(v) == modifier_compact(v).insert(1, ' '),
{
    reveal_strlit("+");
    reveal_strlit("-");
    assert(sign_text(v).len() == 1);
    assert(modifier_spaced(v) =~= modifier_compact(v).insert(1, ' '));
}

/// The value of a Roman numeral symbol.
pub open spec fn roman_symbol(c: char) -> int {
    if c == 'I' {
        1
    } else if c == 'V' {
        5
    } else if c == 'X' {
        10
    } else {
        0
    }
}

/// The number a Roman numeral stands for, from position `i` on: a symbol
/// followed by a larger one counts negatively.
pub open spec fn roman_value_from(s: Seq<char>, i: int) -> int
    decreases s.len() - i,
{
    if i >= s.len() || i < 0 {
        0
    } else {
        let v = roman_symbol(s[i]);
        (if i + 1 < s.len() && v < roman_symbol(s[i + 1]) {
            -v
        } else {
            v
        }) + roman_value_from(s, i + 1)
    }
}

/// Spell levels 1 to 9 are written as the Roman numerals of their value;
/// level 0 is `Cantrips`, and any other level `?`.
pub proof fn lemma_roman_numerals(level: int)
    ensures
        1 <= level <= 9 ==> roman_value_from(roman_text(level), 0) == level,
        1 <= level <= 9 ==> forall|i: int| 0 <= i < roman_text(level).len() ==> roman_symbol(
            #[trigger] roman_text(level)[i],
        ) > 0,
        !(1 <= level <= 9) ==> roman_text(level) == "?"@,
        spell_level_text(0) == "Cantrips"@,
        level != 0 ==> spell_level_text(level) == roman_text(level),
{
    reveal_strlit("I");
    reveal_strlit("II");
    reveal_strlit("III");
    reveal_strlit("IV");
    reveal_strlit("V");
    reveal_strlit("VI");
    reveal_strlit("VII");
    reveal_strlit("VIII");
    reveal_strlit("IX");
    reveal_with_fuel(roman_value_from, 5);
}


/// The modifiers of a list are written in turn: the line (and the rows) of
/// two lists one after the other are the line (and the rows) of the first
/// followed by those of the second; a zero modifier writes nothing, any
/// other one its value and its source.
pub proof fn lemma_modifier_lists_concatenate(a: Seq<(Seq<char>, i32)>, b: Seq<(Seq<char>, i32)>, indent: u8)
    ensures
        modifier_line(a + b) == modifier_line(a) + modifier_line(b),
        modifier_rows(a + b, indent) == modifier_rows(a, indent) + modifier_rows(b, indent),
        forall|s: Seq<char>| #[trigger] modifier_line(seq![(s, 0i32)]) == Seq::<(Seq<char>, TextKind)>::empty(),
        forall|s: Seq<char>, v: i32|
            v != 0 ==> #[trigger] modifier_line(seq![(s, v)]) == seq![
                (modifier_spaced(v as int), TextKind::Normal),
                (seq!['('] + s + seq![')'], TextKind::Details),
            ],
        forall|s: Seq<char>, v: i32|
            v != 0 ==> #[trigger] modifier_rows(seq![(s, v)], indent) == seq![
                (indent, seq![(modifier_compact(v as int), TextKind::Normal), (s, TextKind::Details)]),
            ],
    decreases b.len(),
{
    assert(modifier_line(Seq::<(Seq<char>, i32)>::empty()) == Seq::<(Seq<char>, TextKind)>::empty());
    assert forall|s: Seq<char>| #[trigger] modifier_line(seq![(s, 0i32)]) == Seq::<(Seq<char>, TextKind)>::empty() by {
        assert(seq![(s, 0i32)].drop_last() =~= Seq::<(Seq<char>, i32)>::empty());
        assert(seq![(s, 0i32)].last() == (s, 0i32));
    }
    assert forall|s: Seq<char>, v: i32| v != 0 implies #[trigger] modifier_line(seq![(s, v)]) == seq![
        (modifier_spaced(v as int), TextKind::Normal),
        (seq!['('] + s + seq![')'], TextKind::Details),
    ] by {
        assert(seq![(s, v)].drop_last() =~= Seq::<(Seq<char>, i32)>::empty());
        assert(seq![(s, v)].last() == (s, v));
        assert(Seq::<(Seq<char>, TextKind)>::empty() + seq![
            (modifier_spaced(v as int), TextKind::Normal),
            (seq!['('] + s + seq![')'], TextKind::Details),
        ] =~= seq![
            (modifier_spaced(v as int), TextKind::Normal),
            (seq!['('] + s + seq![')'], TextKind::Details),
        ]);
    }
    assert forall|s: Seq<char>, v: i32| v != 0 implies #[trigger] modifier_rows(seq![(s, v)], indent) == seq![
        (indent, seq![(modifier_compact(v as int), TextKind::Normal), (s, TextKind::Details)]),
    ] by {
        assert(seq![(s, v)].drop_last() =~= Seq::<(Seq<char>, i32)>::empty());
        assert(seq![(s, v)].last() == (s, v));
        assert(modifier_rows(Seq::<(Seq<char>, i32)>::empty(), indent) == Seq::<(u8, Seq<(Seq<char>, TextKind)>)>::empty());
        assert(Seq::<(u8, Seq<(Seq<char>, TextKind)>)>::empty().push(
            (indent, seq![(modifier_compact(v as int), TextKind::Normal), (s, TextKind::Details)]),
        ) =~= seq![(indent, seq![(modifier_compact(v as int), TextKind::Normal), (s, TextKind::Details)])]);
    }
    if b.len() == 0 {
        assert(a + b =~= a);
        assert(modifier_line(a) + modifier_line(b) =~= modifier_line(a));
        assert(modifier_rows(a, indent) + modifier_rows(b, indent) =~= modifier_rows(a, indent));
    } else {
        lemma_modifier_lists_concatenate(a, b.drop_last(), indent);
        assert((a + b).drop_last() =~= a + b.drop_last());
        assert((a + b).last() == b.last());
        let (source, value) = b.last();
        if value != 0 {
            let extra = seq![
                (modifier_spaced(value as int), TextKind::Normal),
                (seq!['('] + source + seq![')'], TextKind::Details),
            ];
            assert(modifier_line(a) + modifier_line(b.drop_last()) + extra =~= modifier_line(a) + (modifier_line(
                b.drop_last(),
            ) + extra));
            let row = (indent, seq![(modifier_compact(value as int), TextKind::Normal), (source, TextKind::Details)]);
            assert((modifier_rows(a, indent) + modifier_rows(b.drop_last(), indent)).push(row) =~= modifier_rows(
                a,
                indent,
            ) + modifier_rows(b.drop_last(), indent).push(row));
        }
    }
}

/// The hoverable form shows the total alone; the list form one row per
/// non-zero modifier; the line form one line, or nothing when every
/// modifier is zero. The tooltip starts with the total and then lists the
/// modifiers one level in, and is empty without modifiers.
pub proof fn lemma_modifier_set_forms(mods: Seq<(Seq<char>, i32)>, total: i32, indent: u8)
    ensures
        modifier_set_text(mods, total, ModifierSetRenderMode::Hoverable) == seq![
            (0u8, seq![(modifier_compact(total as int), TextKind::Normal)]),
        ],
        modifier_set_text(mods, total, ModifierSetRenderMode::List(indent)) == modifier_rows(mods, indent),
        modifier_set_text(mods, total, ModifierSetRenderMode::Line).len() <= 1,
        modifier_line(mods).len() > 0 ==> modifier_set_text(mods, total, ModifierSetRenderMode::Line) == seq![
            (0u8, modifier_line(mods)),
        ],
        mods.len() == 0 ==> modifier_tooltip_text(mods, total).len() == 0,
        mods.len() > 0 ==> modifier_tooltip_text(mods, total)[0] == (
            0u8,
            seq![("Total: "@ + signed_decimal(total as int), TextKind::Normal)],
        ) && modifier_tooltip_text(mods, total).drop_first() == modifier_rows(mods, 1),
{
    if mods.len() > 0 {
        let t = modifier_tooltip_text(mods, total);
        assert(t.drop_first() =~= modifier_rows(mods, 1));
    }
}

/// A d20 roll shows the die kept (reading back as its value) and `(1d20)`,
/// then both dice and the mode exactly when two were rolled, then a
/// critical success and a critical failure each exactly when it happened.
pub proof fn lemma_d20_roll_parts(kept: u32, rolls: (u32, u32), mode: RollMode, is_crit: bool, is_crit_fail: bool)
    ensures
        ({
            let t = d20_roll_text(kept, rolls, mode, is_crit, is_crit_fail);
            let two: int = if mode != RollMode::Normal { 1 } else { 0 };
            let c: int = if is_crit { 1 } else { 0 };
            let f: int = if is_crit_fail { 1 } else { 0 };
            &&& t.len() == 2 + two + c + f
            &&& decimal_value(t[0].0) == kept
            &&& t[1] == ("(1d20)"@, TextKind::Details)
            &&& is_crit ==> t[2 + two] == ("(Critical Success!)"@, TextKind::Normal)
            &&& is_crit_fail ==> t.last() == ("(Critical Failure!)"@, TextKind::Normal)
        }),
{
    lemma_decimal_reads_back(kept as nat);
}

/// A life-state change names the creature, and the one who caused it at
/// the end exactly when there is one, in which case the words before it
/// end with `by`.
pub proof fn lemma_life_change_line(entity: Seq<char>, state: LifeState, actor: Option<Seq<char>>)
    ensures
        ({
            let l = life_change_text(entity, state, actor);
            &&& l[0] == (entity, TextKind::Target)
            &&& l[1].1 == TextKind::Normal
            &&& actor is None ==> l.len() == 2
            &&& actor matches Some(a) ==> l.len() == 3 && l[2] == (a, TextKind::Actor) && l[1].0.subrange(
                l[1].0.len() - 2,
                l[1].0.len() as int,
            ) == "by"@
            &&& actor is None ==> l[1].0.len() >= 3 && l[1].0.subrange(l[1].0.len() - 3, l[1].0.len() as int) != " by"@
        }),
{
    reveal_strlit("by");
    reveal_strlit(" by");
    reveal_strlit("was revived by");
    reveal_strlit("was revived");
    reveal_strlit("was knocked unconscious by");
    reveal_strlit("fell unconscious");
    reveal_strlit("was stabilized by");
    reveal_strlit("was stabilized");
    reveal_strlit("was killed by");
    reveal_strlit("died");
    reveal_strlit("was defeated by");
    reveal_strlit("was defeated");
    let l = life_change_text(entity, state, actor);
    let p = l[1].0;
    if actor is Some {
        assert(p.subrange(p.len() - 2, p.len() as int) =~= "by"@);
    } else {
        assert(p.subrange(p.len() - 3, p.len() as int) != " by"@) by {
            let t = p.subrange(p.len() - 3, p.len() as int);
            assert(t[1] != 'b' || t[2] != 'y');
        }
    }
}

/// A dying creature shows one `+` per death saving throw it made and one
/// `-` per one it failed; a creature that is up shows nothing.
pub proof fn lemma_life_state_marks(state: LifeState)
    ensures
        state == LifeState::Normal ==> life_state_text(state).len() == 0,
        state matches LifeState::Unconscious { successes, failures } ==> {
            let t = life_state_text(state);
            &&& t.len() == 6
            &&& t[2].0.len() == successes && forall|i: int| 0 <= i < successes ==> #[trigger] t[2].0[i] == '+'
            &&& t[4].0.len() == failures && forall|i: int| 0 <= i < failures ==> #[trigger] t[4].0[i] == '-'
            &&& t[2].1 == TextKind::Green && t[4].1 == TextKind::Red
        },
        state != LifeState::Normal && !(state is Unconscious) ==> life_state_text(state).len() == 1,
{
}

} // verus!

//! The sentences of the combat log: what each game event reads as, built
//! from the names the game gives its creatures and actions.
use vstd::prelude::*;
use crate::combat::{EntityId, TargetInstance};
use crate::event_log::{aimed_at_self, named_targets};
use crate::text::{
    decimal, decimal_string, effect_gained_segments, effect_gained_text, healing_segments,
    healing_text, life_change_text, new_life_state_text, no_damage_segments, no_damage_text,
    push_text, segments_view, signed_decimal, signed_decimal_string, DamageType, LifeState,
    Segment, TextKind, TextLine,
};

verus! {

/// A run of text as a mathematical value.
pub type SegmentView = (Seq<char>, TextKind);

/// A line of text as a mathematical value: its indent and its segments.
pub type LineView = (u8, Seq<SegmentView>);

/// The title of the separator that opens an encounter: `Encounter <id>`.
pub open spec fn encounter_title_text(id: u64) -> Seq<char> {
    "Encounter "@ + decimal(id as nat)
}

/// The title of the separator that opens an encounter.
pub fn encounter_title(id: u64) -> (s: String)
    ensures
        s@ == encounter_title_text(id),
{
    let mut s = "Encounter ".to_owned();
    let n = decimal_string(id);
    push_text(&mut s, n.as_str());
    s
}

/// The title of the separator that opens a round: `Round <n>`.
pub open spec fn round_title_text(round: u64) -> Seq<char> {
    "Round "@ + decimal(round as nat)
}

/// The title of the separator that opens a round.
pub fn round_title(round: u64) -> (s: String)
    ensures
        s@ == round_title_text(round),
{
    let mut s = "Round ".to_owned();
    let n = decimal_string(round);
    push_text(&mut s, n.as_str());
    s
}

/// How the log names an event inside another line: a requested action as
/// the actor's name with `'s` and the action, any other event by the text
/// the game gives for its kind.
pub enum EventDescription {
    Request { actor: String, action: String },
    Other { text: String },
}

/// The segments naming an event inside another line.
pub open spec fn description_text(d: EventDescription) -> Seq<SegmentView> {
    match d {
        EventDescription::Request { actor, action } => seq![
            (actor@ + "'s"@, TextKind::Actor),
            (action@, TextKind::Action),
        ],
        EventDescription::Other { text } => seq![(text@, TextKind::Details)],
    }
}

/// The segments naming `d` inside another line.
pub fn event_description_segments(d: &EventDescription) -> (r: Vec<Segment>)
    ensures
        segments_view(r@) == description_text(*d),
{
    let mut r: Vec<Segment> = Vec::new();
    match d {
        EventDescription::Request { actor, action } => {
            let mut owner = actor.clone();
            push_text(&mut owner, "'s");
            r.push((owner, TextKind::Actor));
            r.push((action.clone(), TextKind::Action));
        },
        EventDescription::Other { text } => {
            r.push((text.clone(), TextKind::Details));
        },
    }
    assert(segments_view(r@) =~= description_text(*d));
    r
}

/// The difficulty a d20 check was made against: a saving throw or a check
/// of the named ability or skill, or an attack roll against the named
/// creature.
pub enum DcText {
    SavingThrow { ability: String },
    Skill { skill: String },
    AttackRoll { target: String },
}

/// The line of a resolved d20 check: `X succeeded a` or `X failed a`, then
/// `<ability> saving throw`, `<skill> check` or `attack roll against <Y>`.
pub open spec fn d20_check_text(entity: Seq<char>, success: bool, dc: DcText) -> Seq<SegmentView> {
    seq![
        (entity, TextKind::Actor),
        (if success { "succeeded a"@ } else { "failed a"@ }, TextKind::Normal),
    ] + match dc {
        DcText::SavingThrow { ability } => seq![
            (ability@, TextKind::Ability),
            ("saving throw"@, TextKind::Normal),
        ],
        DcText::Skill { skill } => seq![(skill@, TextKind::Ability), ("check"@, TextKind::Normal)],
        DcText::AttackRoll { target } => seq![
            ("attack roll against"@, TextKind::Normal),
            (target@, TextKind::Actor),
        ],
    }
}

/// The line of a d20 check made by `entity` against `dc`.
pub fn d20_check_segments(entity: &str, success: bool, dc: &DcText) -> (r: Vec<Segment>)
    ensures
        segments_view(r@) == d20_check_text(entity@, success, *dc),
{
    let mut r: Vec<Segment> = Vec::new();
    r.push((entity.to_owned(), TextKind::Actor));
    let verdict = if success { "succeeded a" } else { "failed a" };
    r.push((verdict.to_owned(), TextKind::Normal));
    match dc {
        DcText::SavingThrow { ability } => {
            r.push((ability.clone(), TextKind::Ability));
            r.push(("saving throw".to_owned(), TextKind::Normal));
        },
        DcText::Skill { skill } => {
            r.push((skill.clone(), TextKind::Ability));
            r.push(("check".to_owned(), TextKind::Normal));
        },
        DcText::AttackRoll { target } => {
            r.push(("attack roll against".to_owned(), TextKind::Normal));
            r.push((target.clone(), TextKind::Actor));
        },
    }
    assert(segments_view(r@) =~= d20_check_text(entity@, success, *dc));
    r
}

/// The line of a damage roll: `X rolled N damage`, all as details.
pub open spec fn damage_roll_text(entity: Seq<char>, total: int) -> Seq<SegmentView> {
    seq![
        (entity, TextKind::Details),
        ("rolled"@, TextKind::Details),
        (signed_decimal(total), TextKind::Details),
        ("damage"@, TextKind::Details),
    ]
}

/// The line of a damage roll of `entity` that came to `total`.
pub fn damage_roll_segments(entity: &str, total: i32) -> (r: Vec<Segment>)
    ensures
        segments_view(r@) == damage_roll_text(entity@, total as int),
{
    let n = signed_decimal_string(total);
    let ghost nv = n@;
    let mut r: Vec<Segment> = Vec::new();
    r.push((entity.to_owned(), TextKind::Details));
    r.push(("rolled".to_owned(), TextKind::Details));
    r.push((n, TextKind::Details));
    r.push(("damage".to_owned(), TextKind::Details));
    assert(segments_view(r@) =~= seq![
        (entity@, TextKind::Details),
        ("rolled"@, TextKind::Details),
        (nv, TextKind::Details),
        ("damage"@, TextKind::Details),
    ]);
    r
}

/// The line of a performed action: `X used A`, then `on T` when the action
/// had exactly one target and that target is not the actor.
pub open spec fn action_performed_text(
    actor_id: EntityId,
    actor: Seq<char>,
    action: Seq<char>,
    targets: Seq<TargetInstance>,
    target: Seq<char>,
) -> Seq<SegmentView> {
    seq![(actor, TextKind::Actor), ("used"@, TextKind::Normal), (action, TextKind::Action)] + if targets.len()
        == 1 && targets[0] != TargetInstance::Entity(actor_id) {
        seq![("on"@, TextKind::Normal), (target, TextKind::Target)]
    } else {
        Seq::empty()
    }
}

/// The line of the action `action` that `actor` (the creature `actor_id`)
/// performed on `targets`; `target` is how the single target is named.
pub fn action_performed_segments(
    actor_id: EntityId,
    actor: &str,
    action: &str,
    targets: &Vec<TargetInstance>,
    target: &str,
) -> (r: Vec<Segment>)
    ensures
        segments_view(r@) == action_performed_text(actor_id, actor@, action@, targets@, target@),
{
    let mut r: Vec<Segment> = Vec::new();
    r.push((actor.to_owned(), TextKind::Actor));
    r.push(("used".to_owned(), TextKind::Normal));
    r.push((action.to_owned(), TextKind::Action));
    if targets.len() == 1 && targets[0] != TargetInstance::Entity(actor_id) {
        r.push(("on".to_owned(), TextKind::Normal));
        r.push((target.to_owned(), TextKind::Target));
    }
    assert(segments_view(r@) =~= action_performed_text(actor_id, actor@, action@, targets@, target@));
    r
}

/// Positions among the first `n` creatures of `ids` of those that did not
/// occur earlier in `ids`: each creature once, where it first occurs.
pub open spec fn first_occurrences(ids: Seq<EntityId>, n: nat) -> Seq<int>
    decreases n,
{
    if n == 0 {
        Seq::empty()
    } else {
        let r = first_occurrences(ids, (n - 1) as nat);
        if ids.take(n - 1).contains(ids[n - 1]) {
            r
        } else {
            r.push(n - 1)
        }
    }
}

/// The lines of `first` followed by the creatures `ids`, named by `names`:
/// a single creature ends the first line; several stand one per line,
/// indented, each creature once in the order of first occurrence.
pub open spec fn with_targets(first: Seq<SegmentView>, ids: Seq<EntityId>, names: Seq<Seq<char>>) -> Seq<
    LineView,
> {
    if ids.len() == 1 {
        seq![(0u8, first.push((names[0], TextKind::Target)))]
    } else {
        seq![(0u8, first)] + first_occurrences(ids, ids.len()).map_values(
            |i: int| (1u8, seq![(names[i], TextKind::Target)]),
        )
    }
}

/// The lines with `segs` added at the end of the last one (on a line of
/// their own when there is none).
pub open spec fn extend_last(lines: Seq<LineView>, segs: Seq<SegmentView>) -> Seq<LineView> {
    if lines.len() == 0 {
        seq![(0u8, segs)]
    } else {
        lines.drop_last().push((lines.last().0, lines.last().1 + segs))
    }
}

/// The mathematical value of a list of lines.
pub open spec fn log_lines_view(v: Seq<TextLine>) -> Seq<LineView> {
    v.map_values(|l: TextLine| (l.0, segments_view(l.1@)))
}

/// The views of a list of names.
pub open spec fn names_view(v: Seq<String>) -> Seq<Seq<char>> {
    v.map_values(|s: String| s@)
}

/// Whether `ids[i]` occurs before position `i`.
fn occurs_before(ids: &Vec<EntityId>, i: usize) -> (b: bool)
    requires
        i < ids.len(),
    ensures
        b == ids@.take(i as int).contains(ids@[i as int]),
{
    let mut j: usize = 0;
    while j < i
        invariant
            j <= i < ids.len(),
            forall|k: int| 0 <= k < j ==> ids@[k] != ids@[i as int],
        decreases i - j,
    {
        if ids[j] == ids[i] {
            assert(ids@.take(i as int)[j as int] == ids@[i as int]);
            return true;
        }
        j = j + 1;
    }
    assert forall|k: int| 0 <= k < i implies ids@.take(i as int)[k] != ids@[i as int] by {}
    false
}

/// The lines of `first` followed by the creatures `ids`, the creature
/// `ids[i]` being named `names[i]`.
pub fn target_lines(first: Vec<Segment>, ids: &Vec<EntityId>, names: &Vec<String>) -> (r: Vec<
    TextLine,
>)
    requires
        names.len() == ids.len(),
    ensures
        log_lines_view(r@) == with_targets(segments_view(first@), ids@, names_view(names@)),
{
    let ghost fv = segments_view(first@);
    let ghost nv = names_view(names@);
    let mut r: Vec<TextLine> = Vec::new();
    if ids.len() == 1 {
        let mut first = first;
        first.push((names[0].clone(), TextKind::Target));
        r.push((0u8, first));
        assert(segments_view(r@[0].1@) =~= fv.push((nv[0], TextKind::Target)));
        assert(log_lines_view(r@) =~= with_targets(fv, ids@, nv));
        return r;
    }
    r.push((0u8, first));
    let mut i: usize = 0;
    while i < ids.len()
        invariant
            i <= ids.len() == names.len(),
            nv == names_view(names@),
            log_lines_view(r@) == seq![(0u8, fv)] + first_occurrences(ids@, i as nat).map_values(
                |k: int| (1u8, seq![(nv[k], TextKind::Target)]),
            ),
        decreases ids.len() - i,
    {
        let ghost before = r@;
        if !occurs_before(ids, i) {
            let mut line: Vec<Segment> = Vec::new();
            line.push((names[i].clone(), TextKind::Target));
            r.push((1u8, line));
            assert(segments_view(line@) =~= seq![(nv[i as int], TextKind::Target)]);
            assert(log_lines_view(r@) =~= log_lines_view(before).push((1u8, seq![(nv[i as int], TextKind::Target)])));
        }
        i = i + 1;
        assert(log_lines_view(r@) =~= seq![(0u8, fv)] + first_occurrences(ids@, i as nat).map_values(
            |k: int| (1u8, seq![(nv[k], TextKind::Target)]),
        ));
    }
    r
}

/// Adds `segs` at the end of the last line (as a line of its own when there
/// is none).
pub fn extend_last_line(lines: &mut Vec<TextLine>, segs: Vec<Segment>)
    ensures
        log_lines_view(final(lines)@) == extend_last(log_lines_view(old(lines)@), segments_view(segs@)),
{
    let ghost old_view = log_lines_view(lines@);
    let ghost sv = segments_view(segs@);
    let mut segs = segs;
    match lines.pop() {
        Some(last) => {
            let (indent, mut line) = last;
            let ghost lv = line@;
            line.append(&mut segs);
            lines.push((indent, line));
            assert(segments_view(line@) =~= segments_view(lv) + sv);
            assert(log_lines_view(lines@) =~= extend_last(old_view, sv));
        },
        None => {
            lines.push((0u8, segs));
            assert(log_lines_view(lines@) =~= extend_last(old_view, segments_view(segs@)));
        },
    }
}

/// The lines of a requested action: `X is using A`, then `on` and the
/// creatures aimed at unless the action aims only at its actor (a point
/// stands for the actor), then, for a reaction, `as a response to` and the
/// event it answers.
pub open spec fn action_requested_text(
    actor_id: EntityId,
    actor: Seq<char>,
    action: Seq<char>,
    targets: Seq<TargetInstance>,
    names: Seq<Seq<char>>,
    response: Option<EventDescription>,
) -> Seq<LineView> {
    let head = seq![(actor, TextKind::Actor), ("is using"@, TextKind::Normal), (action, TextKind::Action)];
    let lines = if aimed_at_self(targets, actor_id) {
        seq![(0u8, head)]
    } else {
        with_targets(head.push(("on"@, TextKind::Normal)), named_targets(targets, actor_id), names)
    };
    match response {
        Some(d) => extend_last(lines, seq![("as a response to"@, TextKind::Normal)] + description_text(d)),
        Option::None => lines,
    }
}

/// The lines of the action `action` that `actor` (the creature `actor_id`)
/// asks to perform on `targets`; `names[i]` names the creature of
/// `targets[i]` (the actor for a point); `response` is the event a reaction
/// answers.
pub fn action_requested_lines(
    actor_id: EntityId,
    actor: &str,
    action: &str,
    targets: &Vec<TargetInstance>,
    names: &Vec<String>,
    response: Option<&EventDescription>,
) -> (r: Vec<TextLine>)
    requires
        names.len() == targets.len(),
    ensures
        log_lines_view(r@) == action_requested_text(
            actor_id,
            actor@,
            action@,
            targets@,
            names_view(names@),
            match response {
                Some(d) => Some(*d),
                Option::None => Option::None,
            },
        ),
{
    let mut head: Vec<Segment> = Vec::new();
    head.push((actor.to_owned(), TextKind::Actor));
    head.push(("is using".to_owned(), TextKind::Normal));
    head.push((action.to_owned(), TextKind::Action));
    let ghost hv = seq![(actor@, TextKind::Actor), ("is using"@, TextKind::Normal), (action@, TextKind::Action)];
    assert(segments_view(head@) =~= hv);
    let mut lines: Vec<TextLine> = Vec::new();
    if crate::event_log::is_self_target(targets, actor_id) {
        lines.push((0u8, head));
        assert(log_lines_view(lines@) =~= seq![(0u8, hv)]);
    } else {
        head.push(("on".to_owned(), TextKind::Normal));
        assert(segments_view(head@) =~= hv.push(("on"@, TextKind::Normal)));
        let ids = crate::event_log::target_entities(targets, actor_id);
        lines = target_lines(head, &ids, names);
    }
    match response {
        Some(d) => {
            let mut tail: Vec<Segment> = Vec::new();
            tail.push(("as a response to".to_owned(), TextKind::Normal));
            let mut desc = event_description_segments(d);
            let ghost dv = segments_view(desc@);
            tail.append(&mut desc);
            assert(segments_view(tail@) =~= seq![("as a response to"@, TextKind::Normal)] + dv);
            extend_last_line(&mut lines, tail);
        },
        None => {},
    }
    lines
}

/// The lines of a triggered reaction: the triggering event, `triggered a
/// reaction from`, and the creatures that may react.
pub open spec fn reaction_triggered_text(
    trigger: EventDescription,
    reactors: Seq<EntityId>,
    names: Seq<Seq<char>>,
) -> Seq<LineView> {
    with_targets(
        description_text(trigger).push(("triggered a reaction from"@, TextKind::Normal)),
        reactors,
        names,
    )
}

/// The lines of `trigger` having triggered a reaction from `reactors`,
/// `names[i]` naming `reactors[i]`.
pub fn reaction_triggered_lines(trigger: &EventDescription, reactors: &Vec<EntityId>, names: &Vec<String>) -> (r:
    Vec<TextLine>)
    requires
        names.len() == reactors.len(),
    ensures
        log_lines_view(r@) == reaction_triggered_text(*trigger, reactors@, names_view(names@)),
{
    let mut first = event_description_segments(trigger);
    let ghost dv = segments_view(first@);
    first.push(("triggered a reaction from".to_owned(), TextKind::Normal));
    assert(segments_view(first@) =~= dv.push(("triggered a reaction from"@, TextKind::Normal)));
    target_lines(first, reactors, names)
}

/// One component of the damage a target took: the amount after
/// resistances, its type, and the type's name as the game writes it.
pub struct DamageComponentText {
    pub amount: i32,
    pub damage_type: DamageType,
    pub type_label: String,
}

/// What an action did to one target, as far as the log tells it.
/// `damage_taken` is `None` when no damage got through.
pub enum ActionResultKind {
    UnconditionalDamage { damage_taken: Option<Vec<DamageComponentText>>, new_life_state: Option<LifeState> },
    AttackRollDamage {
        critical_hit: bool,
        critical_miss: bool,
        damage_taken: Option<Vec<DamageComponentText>>,
        new_life_state: Option<LifeState>,
    },
    SavingThrowDamage { damage_taken: Option<Vec<DamageComponentText>>, new_life_state: Option<LifeState> },
    BeneficialEffect { effect: String },
    Healing { amount: i32, new_life_state: Option<LifeState> },
    /// A reaction that changed the event it answered.
    ModifyEvent,
    /// A reaction that cancelled the event it answered.
    CancelEvent { event: EventDescription },
    /// A reaction that had no effect.
    NoEffect,
}

/// The result of an action on one target: who performed it, the target's
/// name, and what happened.
pub struct ActionResultText {
    pub performer: String,
    pub target: String,
    pub kind: ActionResultKind,
}

/// The line of one damage component: `T was hit for N <type> damage`, with
/// `(Critical Hit!)` after it when the attack was a critical hit.
pub open spec fn damage_component_text(target: Seq<char>, c: DamageComponentText, critical_hit: bool) -> Seq<
    SegmentView,
> {
    seq![
        (target, TextKind::Target),
        ("was hit for"@, TextKind::Normal),
        (signed_decimal(c.amount as int) + " "@ + c.type_label@ + " damage"@, TextKind::Damage(c.damage_type)),
    ] + if critical_hit {
        seq![("(Critical Hit!)"@, TextKind::Details)]
    } else {
        Seq::empty()
    }
}

/// The lines of the damage a target took, one per component, indented; or
/// the line saying why it took none.
pub open spec fn damage_taken_lines(
    target: Seq<char>,
    taken: Option<Vec<DamageComponentText>>,
    reason: Seq<char>,
    critical_hit: bool,
    critical_miss: bool,
) -> Seq<LineView> {
    match taken {
        Some(cs) => cs@.map_values(|c: DamageComponentText| (1u8, damage_component_text(target, c, critical_hit))),
        Option::None => seq![(1u8, no_damage_text(target, reason, critical_miss))],
    }
}

/// The indented line of the target's new life state, caused by the
/// performer, when it changed.
pub open spec fn life_line(target: Seq<char>, performer: Seq<char>, state: Option<LifeState>) -> Seq<LineView> {
    match state {
        Some(s) => seq![(1u8, life_change_text(target, s, Some(performer)))],
        Option::None => Seq::empty(),
    }
}

/// The log lines after the result `r` is added: damage as taken or not
/// (`took no damage`, or `was not hit` for an attack), then the new life
/// state; an effect gained; healing then the new life state; a cancelled
/// event on a line of its own; `with no effect` at the end of the last line;
/// nothing for a modified event.
pub open spec fn with_result(lines: Seq<LineView>, r: ActionResultText) -> Seq<LineView> {
    let target = r.target@;
    let performer = r.performer@;
    match r.kind {
        ActionResultKind::UnconditionalDamage { damage_taken, new_life_state } => lines + damage_taken_lines(
            target,
            damage_taken,
            "took no damage"@,
            false,
            false,
        ) + life_line(target, performer, new_life_state),
        ActionResultKind::AttackRollDamage { critical_hit, critical_miss, damage_taken, new_life_state } => lines
            + damage_taken_lines(target, damage_taken, "was not hit"@, critical_hit, critical_miss) + life_line(
            target,
            performer,
            new_life_state,
        ),
        ActionResultKind::SavingThrowDamage { damage_taken, new_life_state } => lines + damage_taken_lines(
            target,
            damage_taken,
            "took no damage"@,
            false,
            false,
        ) + life_line(target, performer, new_life_state),
        ActionResultKind::BeneficialEffect { effect } => lines.push((1u8, effect_gained_text(target, effect@))),
        ActionResultKind::Healing { amount, new_life_state } => lines.push(
            (1u8, healing_text(target, amount as int)),
        ) + life_line(target, performer, new_life_state),
        ActionResultKind::ModifyEvent => lines,
        ActionResultKind::CancelEvent { event } => lines.push(
            (0u8, seq![("\tcancelling"@, TextKind::Normal)] + description_text(event)),
        ),
        ActionResultKind::NoEffect => extend_last(lines, seq![("with no effect"@, TextKind::Normal)]),
    }
}

/// The line of one damage component taken by `target`.
pub fn damage_component_segments(target: &str, c: &DamageComponentText, critical_hit: bool) -> (r: Vec<Segment>)
    ensures
        segments_view(r@) == damage_component_text(target@, *c, critical_hit),
{
    let mut amount = signed_decimal_string(c.amount);
    push_text(&mut amount, " ");
    push_text(&mut amount, c.type_label.as_str());
    push_text(&mut amount, " damage");
    let ghost av = amount@;
    let mut r: Vec<Segment> = Vec::new();
    r.push((target.to_owned(), TextKind::Target));
    r.push(("was hit for".to_owned(), TextKind::Normal));
    r.push((amount, TextKind::Damage(c.damage_type)));
    if critical_hit {
        r.push(("(Critical Hit!)".to_owned(), TextKind::Details));
    }
    assert(segments_view(r@) =~= damage_component_text(target@, *c, critical_hit));
    r
}

fn push_damage_taken(
    lines: &mut Vec<TextLine>,
    target: &str,
    taken: &Option<Vec<DamageComponentText>>,
    reason: &str,
    critical_hit: bool,
    critical_miss: bool,
)
    ensures
        log_lines_view(final(lines)@) == log_lines_view(old(lines)@) + damage_taken_lines(
            target@,
            *taken,
            reason@,
            critical_hit,
            critical_miss,
        ),
{
    let ghost start = log_lines_view(lines@);
    match taken {
        Some(cs) => {
            let ghost all = cs@.map_values(
                |c: DamageComponentText| (1u8, damage_component_text(target@, c, critical_hit)),
            );
            let mut i: usize = 0;
            while i < cs.len()
                invariant
                    i <= cs.len(),
                    all == cs@.map_values(
                        |c: DamageComponentText| (1u8, damage_component_text(target@, c, critical_hit)),
                    ),
                    log_lines_view(lines@) == start + all.take(i as int),
                decreases cs.len() - i,
            {
                let ghost before = lines@;
                let line = damage_component_segments(target, &cs[i], critical_hit);
                let ghost lv = segments_view(line@);
                lines.push((1u8, line));
                assert(log_lines_view(lines@) =~= log_lines_view(before).push((1u8, lv)));
                assert(all[i as int] == (1u8, lv));
                assert(all.take(i + 1) =~= all.take(i as int).push(all[i as int]));
                assert(log_lines_view(lines@) =~= start + all.take(i + 1));
                i = i + 1;
            }
            assert(all.take(cs.len() as int) =~= all);
        },
        None => {
            let line = no_damage_segments(target, reason, critical_miss);
            lines.push((1u8, line));
            assert(log_lines_view(lines@) =~= start + damage_taken_lines(
                target@,
                *taken,
                reason@,
                critical_hit,
                critical_miss,
            ));
        },
    }
}

fn push_life_line(lines: &mut Vec<TextLine>, target: &str, performer: &str, state: &Option<LifeState>)
    ensures
        log_lines_view(final(lines)@) == log_lines_view(old(lines)@) + life_line(target@, performer@, *state),
{
    let ghost start = log_lines_view(lines@);
    match state {
        Some(s) => {
            let line = new_life_state_text(target, s, Some(performer));
            lines.push((1u8, line));
            assert(log_lines_view(lines@) =~= start + life_line(target@, performer@, *state));
        },
        None => {
            assert(log_lines_view(lines@) =~= start + life_line(target@, performer@, *state));
        },
    }
}

/// Adds the lines of the result `r` to the log lines of its action.
pub fn push_action_result(lines: &mut Vec<TextLine>, r: &ActionResultText)
    ensures
        log_lines_view(final(lines)@) == with_result(log_lines_view(old(lines)@), *r),
{
    let ghost start = log_lines_view(lines@);
    let target = r.target.as_str();
    let performer = r.performer.as_str();
    match &r.kind {
        ActionResultKind::UnconditionalDamage { damage_taken, new_life_state } => {
            push_damage_taken(lines, target, damage_taken, "took no damage", false, false);
            push_life_line(lines, target, performer, new_life_state);
        },
        ActionResultKind::AttackRollDamage { critical_hit, critical_miss, damage_taken, new_life_state } => {
            push_damage_taken(lines, target, damage_taken, "was not hit", *critical_hit, *critical_miss);
            push_life_line(lines, target, performer, new_life_state);
        },
        ActionResultKind::SavingThrowDamage { damage_taken, new_life_state } => {
            push_damage_taken(lines, target, damage_taken, "took no damage", false, false);
            push_life_line(lines, target, performer, new_life_state);
        },
        ActionResultKind::BeneficialEffect { effect } => {
            let line = effect_gained_segments(target, effect.as_str());
            lines.push((1u8, line));
            assert(log_lines_view(lines@) =~= with_result(start, *r));
        },
        ActionResultKind::Healing { amount, new_life_state } => {
            let line = healing_segments(target, *amount);
            lines.push((1u8, line));
            assert(log_lines_view(lines@) =~= start.push((1u8, healing_text(target@, *amount as int))));
            push_life_line(lines, target, performer, new_life_state);
        },
        ActionResultKind::ModifyEvent => {},
        ActionResultKind::CancelEvent { event } => {
            let mut line: Vec<Segment> = Vec::new();
            line.push(("\tcancelling".to_owned(), TextKind::Normal));
            let mut desc = event_description_segments(event);
            let ghost dv = segments_view(desc@);
            line.append(&mut desc);
            lines.push((0u8, line));
            assert(segments_view(line@) =~= seq![("\tcancelling"@, TextKind::Normal)] + dv);
            assert(log_lines_view(lines@) =~= with_result(start, *r));
        },
        ActionResultKind::NoEffect => {
            let mut tail: Vec<Segment> = Vec::new();
            tail.push(("with no effect".to_owned(), TextKind::Normal));
            assert(segments_view(tail@) =~= seq![("with no effect"@, TextKind::Normal)]);
            extend_last_line(lines, tail);
        },
    }
}

/// The lines after the results `results` are added, in order.
pub open spec fn with_results(lines: Seq<LineView>, results: Seq<ActionResultText>) -> Seq<LineView>
    decreases results.len(),
{
    if results.len() == 0 {
        lines
    } else {
        with_result(with_results(lines, results.drop_last()), results.last())
    }
}

/// The lines of a performed action: its line, then the lines of each of its
/// results.
pub open spec fn action_performed_lines_text(
    actor_id: EntityId,
    actor: Seq<char>,
    action: Seq<char>,
    targets: Seq<TargetInstance>,
    target: Seq<char>,
    results: Seq<ActionResultText>,
) -> Seq<LineView> {
    with_results(seq![(0u8, action_performed_text(actor_id, actor, action, targets, target))], results)
}

/// The lines of the action `action` that `actor` (the creature `actor_id`)
/// performed on `targets` (`target` naming a single one), with its results.
pub fn action_performed_lines(
    actor_id: EntityId,
    actor: &str,
    action: &str,
    targets: &Vec<TargetInstance>,
    target: &str,
    results: &Vec<ActionResultText>,
) -> (r: Vec<TextLine>)
    ensures
        log_lines_view(r@) == action_performed_lines_text(actor_id, actor@, action@, targets@, target@, results@),
{
    let head = action_performed_segments(actor_id, actor, action, targets, target);
    let mut lines: Vec<TextLine> = Vec::new();
    lines.push((0u8, head));
    let ghost start = log_lines_view(lines@);
    assert(start =~= seq![(0u8, action_performed_text(actor_id, actor@, action@, targets@, target@))]);
    let mut i: usize = 0;
    while i < results.len()
        invariant
            i <= results.len(),
            log_lines_view(lines@) == with_results(start, results@.take(i as int)),
        decreases results.len() - i,
    {
        push_action_result(&mut lines, &results[i]);
        assert(results@.take(i + 1).drop_last() =~= results@.take(i as int));
        i = i + 1;
    }
    assert(results@.take(results.len() as int) =~= results@);
    lines
}

/// A game event with the names the log shows for it. Creature lists carry
/// one name per creature (per target for an action: the actor's name for a
/// point).
pub enum EventText {
    EncounterStarted { id: u64 },
    NewRound { round: u64 },
    EncounterEnded { id: u64 },
    ActionRequested {
        actor_id: EntityId,
        actor: String,
        action: String,
        targets: Vec<TargetInstance>,
        names: Vec<String>,
        response: Option<EventDescription>,
    },
    ActionPerformed {
        actor_id: EntityId,
        actor: String,
        action: String,
        targets: Vec<TargetInstance>,
        target: String,
        results: Vec<ActionResultText>,
    },
    ReactionTriggered { trigger: EventDescription, reactors: Vec<EntityId>, names: Vec<String> },
    LifeStateChanged { entity: String, new_state: LifeState, caused_by: Option<String> },
    /// A d20 check; without a difficulty the log shows nothing for it.
    D20Check { entity: String, success: bool, dc: Option<DcText> },
    DamageRoll { entity: String, total: i32 },
}

/// Every creature list of the event has one name per creature.
pub open spec fn event_text_wf(e: EventText) -> bool {
    match e {
        EventText::ActionRequested { targets, names, .. } => names.len() == targets.len(),
        EventText::ReactionTriggered { reactors, names, .. } => names.len() == reactors.len(),
        _ => true,
    }
}

/// What the log shows for an event: a separator with a title, the
/// collapsible log of an encounter that ended, or lines of text.
pub enum LogEntry {
    Separator(String),
    EncounterLog { id: u64 },
    Lines(Vec<TextLine>),
}

/// The mathematical value of a log entry.
pub enum LogEntryView {
    Separator(Seq<char>),
    EncounterLog { id: u64 },
    Lines(Seq<LineView>),
}

/// The mathematical value of a log entry.
pub open spec fn log_entry_view(e: LogEntry) -> LogEntryView {
    match e {
        LogEntry::Separator(t) => LogEntryView::Separator(t@),
        LogEntry::EncounterLog { id } => LogEntryView::EncounterLog { id },
        LogEntry::Lines(l) => LogEntryView::Lines(log_lines_view(l@)),
    }
}

/// What the log shows for the event `e`.
pub open spec fn event_entry_text(e: EventText) -> LogEntryView {
    match e {
        EventText::EncounterStarted { id } => LogEntryView::Separator(encounter_title_text(id)),
        EventText::NewRound { round } => LogEntryView::Separator(round_title_text(round)),
        EventText::EncounterEnded { id } => LogEntryView::EncounterLog { id },
        EventText::ActionRequested { actor_id, actor, action, targets, names, response } => LogEntryView::Lines(
            action_requested_text(actor_id, actor@, action@, targets@, names_view(names@), response),
        ),
        EventText::ActionPerformed { actor_id, actor, action, targets, target, results } => LogEntryView::Lines(
            action_performed_lines_text(actor_id, actor@, action@, targets@, target@, results@),
        ),
        EventText::ReactionTriggered { trigger, reactors, names } => LogEntryView::Lines(
            reaction_triggered_text(trigger, reactors@, names_view(names@)),
        ),
        EventText::LifeStateChanged { entity, new_state, caused_by } => LogEntryView::Lines(
            seq![(0u8, life_change_text(entity@, new_state, match caused_by {
                Some(a) => Some(a@),
                Option::None => Option::None,
            }))],
        ),
        EventText::D20Check { entity, success, dc } => LogEntryView::Lines(
            match dc {
                Some(d) => seq![(0u8, d20_check_text(entity@, success, d))],
                Option::None => Seq::empty(),
            },
        ),
        EventText::DamageRoll { entity, total } => LogEntryView::Lines(
            seq![(0u8, damage_roll_text(entity@, total as int))],
        ),
    }
}

/// What the log shows for the event `e`.
pub fn event_entry(e: &EventText) -> (r: LogEntry)
    requires
        event_text_wf(*e),
    ensures
        log_entry_view(r) == event_entry_text(*e),
{
    match e {
        EventText::EncounterStarted { id } => LogEntry::Separator(encounter_title(*id)),
        EventText::NewRound { round } => LogEntry::Separator(round_title(*round)),
        EventText::EncounterEnded { id } => LogEntry::EncounterLog { id: *id },
        EventText::ActionRequested { actor_id, actor, action, targets, names, response } => {
            let r = action_requested_lines(
                *actor_id,
                actor.as_str(),
                action.as_str(),
                targets,
                names,
                match response {
                    Some(d) => Some(d),
                    None => None,
                },
            );
            LogEntry::Lines(r)
        },
        EventText::ActionPerformed { actor_id, actor, action, targets, target, results } => {
            LogEntry::Lines(
                action_performed_lines(*actor_id, actor.as_str(), action.as_str(), targets, target.as_str(), results),
            )
        },
        EventText::ReactionTriggered { trigger, reactors, names } => {
            LogEntry::Lines(reaction_triggered_lines(trigger, reactors, names))
        },
        EventText::LifeStateChanged { entity, new_state, caused_by } => {
            let line = match caused_by {
                Some(a) => new_life_state_text(entity.as_str(), new_state, Some(a.as_str())),
                None => new_life_state_text(entity.as_str(), new_state, None),
            };
            let mut lines: Vec<TextLine> = Vec::new();
            lines.push((0u8, line));
            let ghost expected = seq![(0u8, life_change_text(entity@, *new_state, match caused_by {
                Some(a) => Some(a@),
                Option::None => Option::None,
            }))];
            assert(log_lines_view(lines@) =~= expected);
            LogEntry::Lines(lines)
        },
        EventText::D20Check { entity, success, dc } => {
            let mut lines: Vec<TextLine> = Vec::new();
            match dc {
                Some(d) => {
                    let line = d20_check_segments(entity.as_str(), *success, d);
                    lines.push((0u8, line));
                    assert(log_lines_view(lines@) =~= seq![(0u8, d20_check_text(entity@, *success, *d))]);
                },
                None => {
                    assert(log_lines_view(lines@) =~= Seq::<LineView>::empty());
                },
            }
            LogEntry::Lines(lines)
        },
        EventText::DamageRoll { entity, total } => {
            let line = damage_roll_segments(entity.as_str(), *total);
            let mut lines: Vec<TextLine> = Vec::new();
            lines.push((0u8, line));
            assert(log_lines_view(lines@) =~= seq![(0u8, damage_roll_text(entity@, *total as int))]);
            LogEntry::Lines(lines)
        },
    }
}


/// A damage result of any kind (unconditional, attack roll, saving throw)
/// keeps the lines before it, then tells of the target: its first new line
/// starts with the target's name; when the target's life state changed, the
/// last new line is that change, caused by the performer. Without a change
/// no line tells of one.
pub proof fn lemma_damage_result_lines(lines: Seq<LineView>, r: ActionResultText)
    requires
        r.kind is UnconditionalDamage || r.kind is AttackRollDamage || r.kind is SavingThrowDamage,
    ensures
        ({
            let out = with_result(lines, r);
            let state = match r.kind {
                ActionResultKind::UnconditionalDamage { new_life_state, .. } => new_life_state,
                ActionResultKind::AttackRollDamage { new_life_state, .. } => new_life_state,
                ActionResultKind::SavingThrowDamage { new_life_state, .. } => new_life_state,
                _ => Option::None,
            };
            let taken = match r.kind {
                ActionResultKind::UnconditionalDamage { damage_taken, .. } => damage_taken,
                ActionResultKind::AttackRollDamage { damage_taken, .. } => damage_taken,
                ActionResultKind::SavingThrowDamage { damage_taken, .. } => damage_taken,
                _ => Option::None,
            };
            let damage_lines = match taken {
                Some(cs) => cs@.len() as int,
                Option::None => 1int,
            };
            &&& out.take(lines.len() as int) == lines
            &&& out.len() == lines.len() + damage_lines + if state is Some { 1int } else { 0int }
            &&& damage_lines > 0 ==> out[lines.len() as int].0 == 1 && out[lines.len() as int].1[0] == (
                r.target@,
                TextKind::Target,
            )
            &&& state matches Some(s) ==> out.last() == (
                1u8,
                life_change_text(r.target@, s, Some(r.performer@)),
            )
        }),
{
    let out = with_result(lines, r);
    assert(out.take(lines.len() as int) =~= lines);
}

/// The result of healing keeps the lines before it and adds the line of the
/// amount healed, then the target's life-state change caused by the
/// performer when there is one.
pub proof fn lemma_healing_result_lines(lines: Seq<LineView>, r: ActionResultText)
    requires
        r.kind is Healing,
    ensures
        ({
            let out = with_result(lines, r);
            &&& out.take(lines.len() as int) == lines
            &&& out[lines.len() as int] == (1u8, healing_text(r.target@, r.kind->amount as int))
            &&& r.kind->Healing_new_life_state matches Some(s) ==> out.len() == lines.len() + 2 && out.last() == (
                1u8,
                life_change_text(r.target@, s, Some(r.performer@)),
            )
            &&& r.kind->Healing_new_life_state is None ==> out.len() == lines.len() + 1
        }),
{
    let out = with_result(lines, r);
    assert(out.take(lines.len() as int) =~= lines);
}

/// "with no effect" ends the last line and adds no line; a modified event
/// adds nothing; a cancelled event adds one line of its own.
pub proof fn lemma_reaction_result_lines(lines: Seq<LineView>, r: ActionResultText)
    requires
        lines.len() > 0,
    ensures
        r.kind is NoEffect ==> with_result(lines, r).len() == lines.len() && with_result(lines, r).drop_last()
            == lines.drop_last() && with_result(lines, r).last().1 == lines.last().1.push(
            ("with no effect"@, TextKind::Normal),
        ),
        r.kind is ModifyEvent ==> with_result(lines, r) == lines,
        r.kind is CancelEvent ==> with_result(lines, r).len() == lines.len() + 1 && with_result(
            lines,
            r,
        ).drop_last() == lines,
{
    if r.kind is NoEffect {
        assert(seq![("with no effect"@, TextKind::Normal)] =~= Seq::<SegmentView>::empty().push(
            ("with no effect"@, TextKind::Normal),
        ));
        assert(lines.last().1 + seq![("with no effect"@, TextKind::Normal)] =~= lines.last().1.push(
            ("with no effect"@, TextKind::Normal),
        ));
    }
}

/// The line of a performed action names the actor, `used` and the action;
/// it goes on with `on` and the target exactly when there is one target
/// and that target is not the actor.
pub proof fn lemma_performed_line(
    actor_id: EntityId,
    actor: Seq<char>,
    action: Seq<char>,
    targets: Seq<TargetInstance>,
    target: Seq<char>,
)
    ensures
        ({
            let l = action_performed_text(actor_id, actor, action, targets, target);
            &&& l.take(3) == seq![(actor, TextKind::Actor), ("used"@, TextKind::Normal), (action, TextKind::Action)]
            &&& (l.len() == 5) == (targets.len() == 1 && targets[0] != TargetInstance::Entity(actor_id))
            &&& l.len() == 5 ==> l[3] == ("on"@, TextKind::Normal) && l[4] == (target, TextKind::Target)
            &&& l.len() != 5 ==> l.len() == 3
        }),
{
    let l = action_performed_text(actor_id, actor, action, targets, target);
    assert(l.take(3) =~= seq![(actor, TextKind::Actor), ("used"@, TextKind::Normal), (action, TextKind::Action)]);
}

/// The lines of a requested action start with the actor, `is using` and
/// the action; `on` follows on the first line unless the action aims only
/// at its actor; a reaction's last line ends with `as a response to` and the
/// event it answers.
pub proof fn lemma_requested_lines(
    actor_id: EntityId,
    actor: Seq<char>,
    action: Seq<char>,
    targets: Seq<TargetInstance>,
    names: Seq<Seq<char>>,
    response: Option<EventDescription>,
)
    requires
        names.len() == targets.len(),
    ensures
        ({
            let ls = action_requested_text(actor_id, actor, action, targets, names, response);
            let base = action_requested_text(actor_id, actor, action, targets, names, Option::None);
            &&& base.len() >= 1
            &&& base[0].1.take(3) == seq![
                (actor, TextKind::Actor),
                ("is using"@, TextKind::Normal),
                (action, TextKind::Action),
            ]
            &&& aimed_at_self(targets, actor_id) ==> base == seq![(0u8, base[0].1.take(3))]
            &&& !aimed_at_self(targets, actor_id) ==> base[0].1[3] == ("on"@, TextKind::Normal)
            &&& response is None ==> ls == base
            &&& response matches Some(d) ==> ls.len() == base.len() && ls.drop_last() == base.drop_last()
                && ls.last().1 == base.last().1 + seq![("as a response to"@, TextKind::Normal)]
                    + description_text(d)
        }),
{
    let head = seq![(actor, TextKind::Actor), ("is using"@, TextKind::Normal), (action, TextKind::Action)];
    let base = action_requested_text(actor_id, actor, action, targets, names, Option::None);
    assert(head.take(3) =~= head);
    if !aimed_at_self(targets, actor_id) {
        let ids = named_targets(targets, actor_id);
        let first = head.push(("on"@, TextKind::Normal));
        assert(first.take(3) =~= head);
        if ids.len() == 1 {
            assert(first.push((names[0], TextKind::Target)).take(3) =~= head);
            assert(first.push((names[0], TextKind::Target))[3] == ("on"@, TextKind::Normal));
        }
    }
    if let Some(d) = response {
        let tail = seq![("as a response to"@, TextKind::Normal)] + description_text(d);
        assert(seq![("as a response to"@, TextKind::Normal)] + description_text(d) =~= tail);
    }
}

/// A d20 check line names the creature, says `succeeded a` exactly when
/// the check succeeded (`failed a` otherwise), and ends with what was
/// rolled against.
pub proof fn lemma_d20_check_line(entity: Seq<char>, success: bool, dc: DcText)
    ensures
        d20_check_text(entity, success, dc).len() == 4,
        d20_check_text(entity, success, dc)[0] == (entity, TextKind::Actor),
        d20_check_text(entity, success, dc)[1].0 == (if success { "succeeded a"@ } else { "failed a"@ }),
        dc matches DcText::SavingThrow { ability } ==> d20_check_text(entity, success, dc)[2].0 == ability@
            && d20_check_text(entity, success, dc)[3].0 == "saving throw"@,
        dc matches DcText::Skill { skill } ==> d20_check_text(entity, success, dc)[2].0 == skill@
            && d20_check_text(entity, success, dc)[3].0 == "check"@,
        dc matches DcText::AttackRoll { target } ==> d20_check_text(entity, success, dc)[3] == (
            target@,
            TextKind::Actor,
        ),
{
}

/// The targets after a line: one creature ends the first line; several
/// stand one per indented line, each creature once, in the order in which
/// they first appear.
pub proof fn lemma_target_lines(first: Seq<SegmentView>, ids: Seq<EntityId>, names: Seq<Seq<char>>)
    requires
        names.len() == ids.len(),
    ensures
        ids.len() == 1 ==> with_targets(first, ids, names) == seq![(0u8, first.push((names[0], TextKind::Target)))],
        ids.len() != 1 ==> with_targets(first, ids, names)[0] == (0u8, first),
        ids.len() == 0 ==> with_targets(first, ids, names).len() == 1,
        ids.no_duplicates() && ids.len() > 1 ==> with_targets(first, ids, names).len() == ids.len() + 1
            && forall|k: int| 0 <= k < ids.len() ==> #[trigger] with_targets(first, ids, names)[k + 1] == (
                1u8,
                seq![(names[k], TextKind::Target)],
            ),
{
    if ids.no_duplicates() {
        lemma_first_occurrences_all(ids, ids.len());
    }
}

proof fn lemma_first_occurrences_all(ids: Seq<EntityId>, n: nat)
    requires
        ids.no_duplicates(),
        n <= ids.len(),
    ensures
        first_occurrences(ids, n) == Seq::new(n, |k: int| k),
    decreases n,
{
    if n > 0 {
        lemma_first_occurrences_all(ids, (n - 1) as nat);
        assert(!ids.take(n - 1).contains(ids[n - 1])) by {
            if ids.take(n - 1).contains(ids[n - 1]) {
                let k = choose|k: int| 0 <= k < n - 1 && #[trigger] ids.take(n - 1)[k] == ids[n - 1];
                assert(ids[k] == ids[n - 1]);
            }
        }
        assert(Seq::new((n - 1) as nat, |k: int| k).push(n - 1) =~= Seq::new(n, |k: int| k));
    } else {
        assert(first_occurrences(ids, 0) =~= Seq::new(0, |k: int| k));
    }
}


/// The separator titles are `Encounter ` and `Round ` followed by the
/// number, which reads back from the digits.
pub proof fn lemma_titles(id: u64, round: u64)
    ensures
        encounter_title_text(id).take(10) == "Encounter "@,
        crate::text::decimal_value(encounter_title_text(id).skip(10)) == id,
        round_title_text(round).take(6) == "Round "@,
        crate::text::decimal_value(round_title_text(round).skip(6)) == round,
{
    reveal_strlit("Encounter ");
    reveal_strlit("Round ");
    crate::text::lemma_decimal_reads_back(id as nat);
    crate::text::lemma_decimal_reads_back(round as nat);
    assert(encounter_title_text(id).take(10) =~= "Encounter "@);
    assert(encounter_title_text(id).skip(10) =~= decimal(id as nat));
    assert(round_title_text(round).take(6) =~= "Round "@);
    assert(round_title_text(round).skip(6) =~= decimal(round as nat));
}

/// A damage roll line names the creature, then `rolled`, the total (with a
/// `-` only when negative) and `damage`, all as details.
pub proof fn lemma_damage_roll_line(entity: Seq<char>, total: int)
    ensures
        damage_roll_text(entity, total).len() == 4,
        damage_roll_text(entity, total)[0] == (entity, TextKind::Details),
        damage_roll_text(entity, total)[1] == ("rolled"@, TextKind::Details),
        damage_roll_text(entity, total)[3] == ("damage"@, TextKind::Details),
        (damage_roll_text(entity, total)[2].0[0] == '-') == (total < 0),
        total >= 0 ==> crate::text::decimal_value(damage_roll_text(entity, total)[2].0) == total,
        forall|i: int| 0 <= i < 4 ==> (#[trigger] damage_roll_text(entity, total)[i]).1 == TextKind::Details,
{
    crate::text::lemma_signed_decimal(total);
    crate::text::lemma_decimal_reads_back(crate::text::magnitude(total));
}

/// A requested action inside another line is the actor's name with `'s`
/// and the action; any other event is the text the game gives for it.
pub proof fn lemma_description(d: EventDescription)
    ensures
        d matches EventDescription::Request { actor, action } ==> description_text(d) == seq![
            (actor@ + "'s"@, TextKind::Actor),
            (action@, TextKind::Action),
        ],
        d matches EventDescription::Other { text } ==> description_text(d) == seq![(text@, TextKind::Details)],
{
}

/// A damage component line: the target, `was hit for`, the amount with the
/// damage type's name and `damage`, drawn in the colour of that type, and
/// `(Critical Hit!)` exactly for a critical hit.
pub proof fn lemma_damage_component_line(target: Seq<char>, c: DamageComponentText, critical_hit: bool)
    ensures
        ({
            let l = damage_component_text(target, c, critical_hit);
            &&& l.len() == if critical_hit { 4int } else { 3int }
            &&& l[0] == (target, TextKind::Target)
            &&& l[1] == ("was hit for"@, TextKind::Normal)
            &&& l[2].1 == TextKind::Damage(c.damage_type)
            &&& l[2].0 == signed_decimal(c.amount as int) + " "@ + c.type_label@ + " damage"@
            &&& critical_hit ==> l[3] == ("(Critical Hit!)"@, TextKind::Details)
        }),
{
}


/// Every event is written with its own sentence: encounters and rounds as
/// titled separators, an ended encounter as its log, a d20 check with a
/// difficulty as one line (and nothing without one), a damage roll and a
/// life-state change as one line each, and actions and reactions with their
/// lines.
pub proof fn lemma_event_entries(e: EventText)
    ensures
        e matches EventText::EncounterStarted { id } ==> event_entry_text(e) == LogEntryView::Separator(
            encounter_title_text(id),
        ),
        e matches EventText::NewRound { round } ==> event_entry_text(e) == LogEntryView::Separator(
            round_title_text(round),
        ),
        e matches EventText::EncounterEnded { id } ==> event_entry_text(e) == (LogEntryView::EncounterLog { id }),
        e matches EventText::D20Check { entity, success, dc } ==> event_entry_text(e) == LogEntryView::Lines(
            match dc {
                Some(d) => seq![(0u8, d20_check_text(entity@, success, d))],
                Option::None => Seq::empty(),
            },
        ),
        e matches EventText::DamageRoll { entity, total } ==> event_entry_text(e) == LogEntryView::Lines(
            seq![(0u8, damage_roll_text(entity@, total as int))],
        ),
        e matches EventText::LifeStateChanged { entity, new_state, caused_by } ==> event_entry_text(e)
            == LogEntryView::Lines(
            seq![(0u8, life_change_text(entity@, new_state, match caused_by {
                Some(a) => Some(a@),
                Option::None => Option::None,
            }))],
        ),
        e matches EventText::ActionPerformed { actor_id, actor, action, targets, target, results } ==> event_entry_text(e)
            == LogEntryView::Lines(action_performed_lines_text(actor_id, actor@, action@, targets@, target@, results@)),
        e matches EventText::ActionRequested { actor_id, actor, action, targets, names, response } ==> event_entry_text(e)
            == LogEntryView::Lines(action_requested_text(actor_id, actor@, action@, targets@, names_view(names@), response)),
        e matches EventText::ReactionTriggered { trigger, reactors, names } ==> event_entry_text(e) == LogEntryView::Lines(
            reaction_triggered_text(trigger, reactors@, names_view(names@)),
        ),
{
}

/// A performed action's lines are its own line followed, in order, by what
/// each of its results adds.
pub proof fn lemma_performed_lines_start(
    actor_id: EntityId,
    actor: Seq<char>,
    action: Seq<char>,
    targets: Seq<TargetInstance>,
    target: Seq<char>,
    results: Seq<ActionResultText>,
)
    ensures
        results.len() == 0 ==> action_performed_lines_text(actor_id, actor, action, targets, target, results) == seq![
            (0u8, action_performed_text(actor_id, actor, action, targets, target)),
        ],
        results.len() > 0 ==> action_performed_lines_text(actor_id, actor, action, targets, target, results)
            == with_result(
            action_performed_lines_text(actor_id, actor, action, targets, target, results.drop_last()),
            results.last(),
        ),
{
}

} // verus!

use vstd::prelude::*;

use std::collections::HashMap;
use std::path::PathBuf;
use std::time::Duration;

use std::time::SystemTime;

use crate::calendar::{
    civil_date, lemma_civil_date_is, lemma_civil_steps, lemma_month_of_year, lemma_year_of_era,
};
use crate::extract::db::{SaveRow, SystemDiscovery};
use crate::extract::model::{path_from_string, path_from_text, SaveInfo};
use crate::rank::{RankScorer, RankSortMode};
use crate::solver::state::{action_text, format_action, Action};
use crate::text::{
    decimal, push_char, push_decimal, push_signed_zero_padded, push_zero_padded,
    signed_zero_padded, zero_padded,
};
use crate::timekeeping::{
    duration_as_secs, duration_nanos, duration_new, nanos_since_epoch, since_unix_epoch,
    NANOS_PER_SEC,
};
use crate::tui::config::DiscoveryDefinition;
use crate::tui::screens::rank::scorer_text;

verus! {

/// The screens of the terminal UI.
#[derive(Debug, Clone, Copy, PartialEq, Eq, Structural)]
pub enum Screen {
    Saves,
    Rank,
    System,
    Solve,
    Plan,
}

/// Dialogs shown over the current screen.
#[derive(Debug, Clone, PartialEq, Eq, Structural)]
pub enum Modal {
    Help,
    Settings,
    Scorer,
    RankSort,
    SpoilerConfirm,
    QuitConfirm,
}

/// One row of the save list: a save on disk, an extracted save, or both.
#[derive(Debug, Clone)]
pub struct SaveListRow {
    pub dir_name: String,
    pub character_name: String,
    pub modified: String,
    pub extracted_at: Option<String>,
    pub path: PathBuf,
}

/// Which systems the ranking covers.
#[derive(Debug, Clone, Copy, PartialEq, Eq, Structural)]
pub enum ScopeMode {
    Discovered,
    All,
}

/// What the solve screen computes.
#[derive(Debug, Clone, Copy, PartialEq, Eq, Structural)]
pub enum SolveMode {
    Pareto,
    Goal,
    Maximize,
}

/// The display name of a solve mode.
pub open spec fn solve_mode_text(mode: SolveMode) -> Seq<char> {
    match mode {
        SolveMode::Pareto => "Pareto"@,
        SolveMode::Goal => "Goal"@,
        SolveMode::Maximize => "Maximize"@,
    }
}

impl SolveMode {
    pub fn as_str(self) -> (s: &'static str)
        ensures
            s@ == solve_mode_text(self),
    {
        match self {
            SolveMode::Pareto => "Pareto",
            SolveMode::Goal => "Goal",
            SolveMode::Maximize => "Maximize",
        }
    }
}

/// Which pane of the solve screen has the focus.
#[derive(Debug, Clone, Copy, PartialEq, Eq, Structural)]
pub enum SolveFocus {
    Parameters,
    Results,
}

/// One non-wait step of a plan, with the month it happens in.
#[derive(Debug, Clone)]
pub struct PlanActionRow {
    pub month: i32,
    pub action_index: usize,
    pub text: String,
}

/// The plan screen: the plan's steps and which of them the player ticked off.
#[derive(Debug, Clone)]
pub struct PlanState {
    pub header: String,
    pub actions: Vec<Action>,
    pub rows: Vec<PlanActionRow>,
    pub checked: Vec<bool>,
    pub selection: usize,
}

/// Whether a system is in the current scope.
pub open spec fn in_scope(
    row: SystemDiscovery,
    definition: DiscoveryDefinition,
    include_core_worlds: bool,
    mode: ScopeMode,
) -> bool {
    &&& (include_core_worlds || !row.is_core)
    &&& match mode {
        ScopeMode::All => true,
        ScopeMode::Discovered => match definition {
            DiscoveryDefinition::AtLeastOneSurveyed => row.surveyed_any >= 1,
            DiscoveryDefinition::FullySurveyed => row.planet_count > 0 && row.surveyed_full
                == row.planet_count,
        },
    }
}

/// The names of the systems in scope, in row order.
pub open spec fn scope_names(
    rows: Seq<SystemDiscovery>,
    definition: DiscoveryDefinition,
    include_core_worlds: bool,
    mode: ScopeMode,
) -> Seq<String>
    decreases rows.len(),
{
    if rows.len() == 0 {
        Seq::empty()
    } else {
        let pre = scope_names(rows.drop_last(), definition, include_core_worlds, mode);
        if in_scope(rows.last(), definition, include_core_worlds, mode) {
            pre.push(rows.last().system_name)
        } else {
            pre
        }
    }
}

/// The names of the rows `keep` holds for, in row order.
pub open spec fn names_where(rows: Seq<SystemDiscovery>, keep: spec_fn(SystemDiscovery) -> bool) -> Seq<String> {
    rows.filter(keep).map_values(|r: SystemDiscovery| r.system_name)
}

proof fn lemma_scope_names_where(
    rows: Seq<SystemDiscovery>,
    definition: DiscoveryDefinition,
    include_core_worlds: bool,
    mode: ScopeMode,
    keep: spec_fn(SystemDiscovery) -> bool,
)
    requires
        forall|r: SystemDiscovery| #[trigger] keep(r) == in_scope(r, definition, include_core_worlds, mode),
    ensures
        scope_names(rows, definition, include_core_worlds, mode) == names_where(rows, keep),
    decreases rows.len(),
{
    if rows.len() > 0 {
        lemma_scope_names_where(rows.drop_last(), definition, include_core_worlds, mode, keep);
        let pre = rows.drop_last().filter(keep);
        reveal(Seq::filter);
        assert(keep(rows.last()) == in_scope(rows.last(), definition, include_core_worlds, mode));
        if keep(rows.last()) {
            assert(rows.filter(keep) == pre.push(rows.last()));
            assert(pre.push(rows.last()).map_values(|r: SystemDiscovery| r.system_name) =~= pre.map_values(
                |r: SystemDiscovery| r.system_name,
            ).push(rows.last().system_name));
        } else {
            assert(rows.filter(keep) == pre);
        }
    } else {
        reveal(Seq::filter);
        assert(names_where(rows, keep) =~= Seq::<String>::empty());
    }
}

/// Law: in discovered mode under the fully-surveyed definition, exactly the
/// systems that have planets and have every one of them fully surveyed are
/// kept (core worlds only when they are included), in row order.
pub proof fn lemma_scope_fully_surveyed(rows: Seq<SystemDiscovery>, include_core_worlds: bool)
    ensures
        scope_names(rows, DiscoveryDefinition::FullySurveyed, include_core_worlds, ScopeMode::Discovered)
            == names_where(
            rows,
            |r: SystemDiscovery|
                (include_core_worlds || !r.is_core) && r.planet_count > 0 && r.surveyed_full
                    == r.planet_count,
        ),
{
    lemma_scope_names_where(
        rows,
        DiscoveryDefinition::FullySurveyed,
        include_core_worlds,
        ScopeMode::Discovered,
        |r: SystemDiscovery|
            (include_core_worlds || !r.is_core) && r.planet_count > 0 && r.surveyed_full == r.planet_count,
    );
}

/// Law: in discovered mode under the at-least-one-surveyed definition,
/// exactly the systems with a surveyed planet are kept (core worlds only
/// when they are included), in row order.
pub proof fn lemma_scope_one_surveyed(rows: Seq<SystemDiscovery>, include_core_worlds: bool)
    ensures
        scope_names(rows, DiscoveryDefinition::AtLeastOneSurveyed, include_core_worlds, ScopeMode::Discovered)
            == names_where(
            rows,
            |r: SystemDiscovery| (include_core_worlds || !r.is_core) && r.surveyed_any >= 1,
        ),
{
    lemma_scope_names_where(
        rows,
        DiscoveryDefinition::AtLeastOneSurveyed,
        include_core_worlds,
        ScopeMode::Discovered,
        |r: SystemDiscovery| (include_core_worlds || !r.is_core) && r.surveyed_any >= 1,
    );
}

/// Law: in all-systems mode every system is kept, whatever its survey
/// state, except core worlds when they are not included.
pub proof fn lemma_scope_all(rows: Seq<SystemDiscovery>, definition: DiscoveryDefinition, include_core_worlds: bool)
    ensures
        scope_names(rows, definition, include_core_worlds, ScopeMode::All) == names_where(
            rows,
            |r: SystemDiscovery| include_core_worlds || !r.is_core,
        ),
{
    lemma_scope_names_where(
        rows,
        definition,
        include_core_worlds,
        ScopeMode::All,
        |r: SystemDiscovery| include_core_worlds || !r.is_core,
    );
}

/// The names of the systems that the scope settings keep, in row order.
pub fn filter_scope<'a>(
    rows: &'a [SystemDiscovery],
    definition: DiscoveryDefinition,
    include_core_worlds: bool,
    mode: ScopeMode,
) -> (names: Vec<&'a String>)
    ensures
        names@.map_values(|n: &String| *n) == scope_names(
            rows@,
            definition,
            include_core_worlds,
            mode,
        ),
{
    let mut names: Vec<&'a String> = Vec::new();
    let mut i: usize = 0;
    while i < rows.len()
        invariant
            0 <= i <= rows@.len(),
            names@.map_values(|n: &String| *n) == scope_names(
                rows@.take(i as int),
                definition,
                include_core_worlds,
                mode,
            ),
        decreases rows@.len() - i,
    {
        let row = &rows[i];
        proof {
            assert(rows@.take(i + 1).drop_last() =~= rows@.take(i as int));
            assert(rows@.take(i + 1).last() == rows@[i as int]);
        }
        let keep_core = include_core_worlds || !row.is_core;
        let discovered = match mode {
            ScopeMode::All => true,
            ScopeMode::Discovered => match definition {
                DiscoveryDefinition::AtLeastOneSurveyed => row.surveyed_any >= 1,
                DiscoveryDefinition::FullySurveyed => row.planet_count > 0 && row.surveyed_full
                    == row.planet_count,
            },
        };
        if keep_core && discovered {
            names.push(&row.system_name);
            proof {
                assert(names@.map_values(|n: &String| *n) =~= scope_names(
                    rows@.take(i as int),
                    definition,
                    include_core_worlds,
                    mode,
                ).push(rows@[i as int].system_name));
            }
        }
        i = i + 1;
    }
    proof {
        assert(rows@.take(i as int) =~= rows@);
    }
    names
}

/// Estimated ranking time per system, in milliseconds.
pub open spec fn rank_millis_per_system(scorer: RankScorer) -> nat {
    match scorer {
        RankScorer::Quick => 10_000,
        RankScorer::Bound => 1_000,
        RankScorer::Template => 150,
    }
}

/// Rough wall time to rank `system_count` systems with `scorer`: ten seconds
/// per system for the quick scorer, one second for the bound, 0.15 seconds
/// for the template scorer.
pub fn estimate_rank_cost(system_count: usize, scorer: RankScorer) -> (d: Duration)
    requires
        system_count * rank_millis_per_system(scorer) / 1000 <= u64::MAX,
    ensures
        duration_nanos(d) == system_count * rank_millis_per_system(scorer) * 1_000_000,
{
    let millis: u128 = match scorer {
        RankScorer::Quick => 10_000,
        RankScorer::Bound => 1_000,
        RankScorer::Template => 150,
    };
    let total: u128 = system_count as u128 * millis;
    let secs: u64 = (total / 1000) as u64;
    let nanos: u32 = ((total % 1000) * 1_000_000) as u32;
    proof {
        assert(total == (total / 1000) * 1000 + total % 1000);
    }
    let d = duration_new(secs, nanos);
    proof {
        assert(secs * NANOS_PER_SEC + nanos == total * 1_000_000) by (nonlinear_arith)
            requires
                secs == total / 1000,
                nanos == (total % 1000) * 1_000_000,
                NANOS_PER_SEC == 1_000_000_000,
                total == (total / 1000) * 1000 + total % 1000,
        ;
    }
    d
}

/// Months of waiting in a plan.
pub open spec fn wait_months(actions: Seq<Action>) -> int
    decreases actions.len(),
{
    if actions.len() == 0 {
        0
    } else {
        wait_months(actions.drop_last()) + match actions.last() {
            Action::Wait(m) => m as int,
            _ => 0,
        }
    }
}

/// The `(month, action index)` of each non-wait step of a plan, in order:
/// the month is the number of months waited before the step.
pub open spec fn plan_steps(actions: Seq<Action>) -> Seq<(int, int)>
    decreases actions.len(),
{
    if actions.len() == 0 {
        Seq::empty()
    } else {
        let pre = plan_steps(actions.drop_last());
        match actions.last() {
            Action::Wait(_) => pre,
            _ => pre.push((wait_months(actions.drop_last()), actions.len() - 1)),
        }
    }
}

proof fn lemma_wait_months_monotone(actions: Seq<Action>, k: int)
    requires
        0 <= k <= actions.len(),
    ensures
        0 <= wait_months(actions.take(k)) <= wait_months(actions),
    decreases actions.len() - k,
{
    lemma_wait_months_nonneg(actions.take(k));
    if k < actions.len() {
        lemma_wait_months_monotone(actions, k + 1);
        assert(actions.take(k + 1).drop_last() =~= actions.take(k));
        assert(actions.take(k + 1).last() == actions[k]);
    } else {
        assert(actions.take(k) =~= actions);
        lemma_wait_months_nonneg(actions);
    }
}

proof fn lemma_wait_months_nonneg(actions: Seq<Action>)
    ensures
        wait_months(actions) >= 0,
    decreases actions.len(),
{
    if actions.len() > 0 {
        lemma_wait_months_nonneg(actions.drop_last());
    }
}

/// The plan as rows: every non-wait action with the month it falls in (the
/// months waited before it), its index in the plan, and its text.
pub fn group_plan_actions(actions: &[Action], planet_names: &HashMap<u64, String>) -> (rows: Vec<
    PlanActionRow,
>)
    requires
        wait_months(actions@) <= i32::MAX,
    ensures
        rows@.len() == plan_steps(actions@).len(),
        forall|r: int|
            0 <= r < rows@.len() ==> {
                &&& #[trigger] rows@[r].month == plan_steps(actions@)[r].0
                &&& rows@[r].action_index == plan_steps(actions@)[r].1
                &&& rows@[r].text@ == action_text(
                    actions@[plan_steps(actions@)[r].1],
                    planet_names@,
                )
            },
{
    let mut month: i32 = 0;
    let mut rows: Vec<PlanActionRow> = Vec::new();
    let mut i: usize = 0;
    while i < actions.len()
        invariant
            0 <= i <= actions@.len(),
            wait_months(actions@) <= i32::MAX,
            month == wait_months(actions@.take(i as int)),
            rows@.len() == plan_steps(actions@.take(i as int)).len(),
            forall|r: int|
                0 <= r < rows@.len() ==> {
                    &&& #[trigger] rows@[r].month == plan_steps(actions@.take(i as int))[r].0
                    &&& rows@[r].action_index == plan_steps(actions@.take(i as int))[r].1
                    &&& 0 <= rows@[r].action_index < i
                    &&& rows@[r].text@ == action_text(
                        actions@[plan_steps(actions@.take(i as int))[r].1],
                        planet_names@,
                    )
                },
        decreases actions@.len() - i,
    {
        let ghost pre = actions@.take(i as int);
        let ghost cur = actions@.take(i + 1);
        proof {
            assert(cur.drop_last() =~= pre);
            assert(cur.last() == actions@[i as int]);
            lemma_wait_months_monotone(actions@, i + 1);
        }
        match &actions[i] {
            Action::Wait(m) => {
                proof {
                    lemma_wait_months_nonneg(pre);
                    assert(wait_months(cur) == month + *m);
                    assert(0 <= month + *m <= i32::MAX);
                    assert((*m as i32) as int == *m as int);
                }
                month = month + *m as i32;
            },
            _ => {
                let text = format_action(&actions[i], planet_names);
                rows.push(PlanActionRow { month, action_index: i, text });
            },
        }
        i = i + 1;
    }
    proof {
        assert(actions@.take(i as int) =~= actions@);
    }
    rows
}

/// How a duration of `secs` seconds is shown: hours and minutes from an
/// hour up, minutes and seconds from a minute up, else seconds.
pub open spec fn duration_text(secs: nat) -> Seq<char> {
    if secs >= 3600 {
        decimal(secs / 3600) + "h"@ + decimal((secs % 3600) / 60) + "m"@
    } else if secs >= 60 {
        decimal(secs / 60) + "m"@ + decimal(secs % 60) + "s"@
    } else {
        decimal(secs) + "s"@
    }
}

/// Law: from an hour up, a duration reads as its whole hours, then the whole
/// minutes left over after those hours: for `h` and `m < 60` with
/// `h*3600 + m*60 <= secs < h*3600 + (m+1)*60`, the text is `{h}h{m}m`.
pub proof fn lemma_duration_text_hours(secs: nat, h: nat, m: nat)
    requires
        secs >= 3600,
        m < 60,
        h * 3600 + m * 60 <= secs < h * 3600 + (m + 1) * 60,
    ensures
        duration_text(secs) == decimal(h) + "h"@ + decimal(m) + "m"@,
{
    let r = secs - h * 3600;
    assert(0 <= r < 3600);
    assert(secs == h * 3600 + r);
    vstd::arithmetic::div_mod::lemma_fundamental_div_mod_converse(secs as int, 3600, h as int, r as int);
    assert(m * 60 <= r < m * 60 + 60);
    vstd::arithmetic::div_mod::lemma_fundamental_div_mod_converse(r as int, 60, m as int, r - m * 60);
}

/// Law: from a minute up to an hour, a duration reads as its whole minutes,
/// then the seconds left over: for `m` and `s < 60` with `secs = m*60 + s`,
/// the text is `{m}m{s}s`.
pub proof fn lemma_duration_text_minutes(secs: nat, m: nat, s: nat)
    requires
        60 <= secs < 3600,
        s < 60,
        secs == m * 60 + s,
    ensures
        duration_text(secs) == decimal(m) + "m"@ + decimal(s) + "s"@,
{
    vstd::arithmetic::div_mod::lemma_fundamental_div_mod_converse(secs as int, 60, m as int, s as int);
}

/// Law: under a minute, a duration reads as its seconds.
pub proof fn lemma_duration_text_seconds(secs: nat)
    requires
        secs < 60,
    ensures
        duration_text(secs) == decimal(secs) + "s"@,
{
}

/// A duration as `XhYm`, `XmYs` or `Xs`, from its whole seconds.
pub fn format_duration(duration: Duration) -> (s: String)
    ensures
        s@ == duration_text(duration_nanos(duration) / (NANOS_PER_SEC as nat)),
{
    let secs = duration_as_secs(&duration);
    let mut out = String::new();
    if secs >= 3600 {
        push_decimal(&mut out, secs / 3600);
        out.append("h");
        push_decimal(&mut out, (secs % 3600) / 60);
        out.append("m");
    } else if secs >= 60 {
        push_decimal(&mut out, secs / 60);
        out.append("m");
        push_decimal(&mut out, secs % 60);
        out.append("s");
    } else {
        push_decimal(&mut out, secs);
        out.append("s");
    }
    proof {
        assert(out@ =~= duration_text(secs as nat));
    }
    out
}

/// The calendar date (year, month, day) of a day number counted from
/// 1970-01-01, with the year wrapped to `i32` as `as i32` does.
fn civil_from_days(days_since_unix_epoch: i64) -> (r: (i32, u32, u32))
    requires
        i64::MIN + 146_096 - 719_468 <= days_since_unix_epoch <= i64::MAX - 719_468,
    ensures
        ({
            let t = civil_date(days_since_unix_epoch as int);
            r.0 == t.0 as i32 && r.1 as int == t.1 && r.2 as int == t.2
        }),
{
    let z: i64 = days_since_unix_epoch + 719_468;
    let era: i64 = if z >= 0 {
        z / 146_097
    } else {
        -((146_096 - z) / 146_097)
    };
    proof {
        assert(era * 146_097 <= z < era * 146_097 + 146_097);
    }
    let doe: i64 = z - era * 146_097;
    proof {
        lemma_year_of_era(doe as int);
    }
    let yoe: i64 = (doe - doe / 1_460 + doe / 36_524 - doe / 146_096) / 365;
    let y: i64 = yoe + era * 400;
    let doy: i64 = doe - (365 * yoe + yoe / 4 - yoe / 100);
    proof {
        lemma_month_of_year(doy as int);
    }
    let mp: i64 = (5 * doy + 2) / 153;
    let day: i64 = doy - (153 * mp + 2) / 5 + 1;
    let month: i64 = mp + if mp < 10 {
        3
    } else {
        -9
    };
    let year: i64 = y + if month <= 2 {
        1
    } else {
        0
    };
    proof {
        lemma_civil_steps(
            days_since_unix_epoch as int,
            era as int,
            doe as int,
            yoe as int,
            doy as int,
            mp as int,
            day as int,
            month as int,
            year as int,
        );
        lemma_civil_date_is(days_since_unix_epoch as int, year as int, month as int, day as int);
    }
    (year as i32, month as u32, day as u32)
}

/// A date as `YYYY-MM-DD`, each part zero-padded (the year sign-aware).
pub open spec fn date_text(days: int) -> Seq<char> {
    let t = civil_date(days);
    signed_zero_padded((t.0 as i32) as int, 4) + "-"@ + zero_padded(decimal(t.1 as nat), 2) + "-"@
        + zero_padded(decimal(t.2 as nat), 2)
}

/// How a file time is shown: its UTC date, or `-` before the epoch.
pub open spec fn system_time_text(t: SystemTime) -> Seq<char> {
    match nanos_since_epoch(t) {
        Some(n) => date_text((n / (NANOS_PER_SEC as nat) / 86400) as int),
        None => "-"@,
    }
}

/// A file time as its UTC date `YYYY-MM-DD`, or `-` if it lies before the
/// Unix epoch.
pub fn format_system_time(time: SystemTime) -> (s: String)
    ensures
        s@ == system_time_text(time),
{
    match since_unix_epoch(&time) {
        Some(duration) => {
            let secs = duration_as_secs(&duration);
            let days: i64 = (secs / 86_400) as i64;
            proof {
                assert(days as int == secs as int / 86400);
            }
            let (year, month, day) = civil_from_days(days);
            let mut out = String::new();
            push_signed_zero_padded(&mut out, year as i64, 4);
            push_char(&mut out, '-');
            push_zero_padded(&mut out, month as u64, 2);
            push_char(&mut out, '-');
            push_zero_padded(&mut out, day as u64, 2);
            proof {
                let t = civil_date(days as int);
                reveal_strlit("-");
                assert(nanos_since_epoch(time) == Some(duration_nanos(duration)));
                assert((year as i64) as int == (t.0 as i32) as int);
                assert((month as u64) as nat == t.1 as nat);
                assert((day as u64) as nat == t.2 as nat);
                assert(out@ =~= system_time_text(time));
            }
            out
        },
        None => {
            let out = String::from_str("-");
            out
        },
    }
}

/// The extraction time of the first extracted save with directory `name`.
pub open spec fn first_extracted_at(extracted: Seq<SaveRow>, name: Seq<char>) -> Option<String>
    decreases extracted.len(),
{
    if extracted.len() == 0 {
        None
    } else if extracted[0].dir_name@ == name {
        Some(extracted[0].extracted_at)
    } else {
        first_extracted_at(extracted.drop_first(), name)
    }
}

/// The row shown for a save found on disk.
pub open spec fn disk_row(row: SaveListRow, save: SaveInfo, extracted: Seq<SaveRow>) -> bool {
    &&& row.dir_name == save.dir_name
    &&& row.character_name == save.character_name
    &&& row.modified@ == system_time_text(save.modified)
    &&& row.extracted_at == first_extracted_at(extracted, save.dir_name@)
    &&& row.path == save.path
}

/// The row shown for an extracted save that is not on disk.
pub open spec fn extracted_row(row: SaveListRow, save: SaveRow) -> bool {
    &&& row.dir_name == save.dir_name
    &&& row.character_name == save.character_name
    &&& row.modified == save.save_date
    &&& row.extracted_at == Some(save.extracted_at)
    &&& row.path == path_from_text(save.path@)
}

pub open spec fn disk_names(disk: Seq<SaveInfo>) -> Seq<Seq<char>> {
    disk.map_values(|s: SaveInfo| s.dir_name@)
}

/// The extracted saves that get rows of their own: those whose directory is
/// neither on disk nor shared with an earlier extracted save.
pub open spec fn extracted_only(names: Seq<Seq<char>>, extracted: Seq<SaveRow>) -> Seq<SaveRow>
    decreases extracted.len(),
{
    if extracted.len() == 0 {
        Seq::empty()
    } else {
        let pre = extracted_only(names, extracted.drop_last());
        let last = extracted.last();
        if names.contains(last.dir_name@) || exists|j: int|
            0 <= j < extracted.len() - 1 && (#[trigger] extracted[j]).dir_name@ == last.dir_name@ {
            pre
        } else {
            pre.push(last)
        }
    }
}

/// The extraction time of the first extracted save with the same directory.
fn find_extracted_at(extracted: &[SaveRow], name: &String) -> (r: Option<String>)
    ensures
        r == first_extracted_at(extracted@, name@),
{
    proof {
        assert(extracted@.skip(0) =~= extracted@);
    }
    let mut i: usize = 0;
    while i < extracted.len()
        invariant
            0 <= i <= extracted@.len(),
            first_extracted_at(extracted@, name@) == first_extracted_at(
                extracted@.skip(i as int),
                name@,
            ),
        decreases extracted@.len() - i,
    {
        proof {
            assert(extracted@.skip(i as int).drop_first() =~= extracted@.skip(i + 1));
            assert(extracted@.skip(i as int)[0] == extracted@[i as int]);
        }
        if extracted[i].dir_name == *name {
            return Some(extracted[i].extracted_at.clone());
        }
        i = i + 1;
    }
    None
}

/// Some row has directory name `n`.
pub open spec fn has_row_named(rows: Seq<SaveListRow>, n: Seq<char>) -> bool {
    exists|r: int| 0 <= r < rows.len() && (#[trigger] rows[r]).dir_name@ == n
}

/// `n` is a disk directory or the directory of one of the first `j`
/// extracted saves.
pub open spec fn seen_name(names: Seq<Seq<char>>, extracted: Seq<SaveRow>, j: int, n: Seq<char>) -> bool {
    names.contains(n) || exists|e: int| 0 <= e < j && (#[trigger] extracted[e]).dir_name@ == n
}

/// The save list: one row per save on disk (with its extraction time when
/// it was extracted), then one row per extracted save not on disk.
pub fn merge_saves(disk: Vec<SaveInfo>, extracted: &[SaveRow]) -> (rows: Vec<SaveListRow>)
    ensures
        ({
            let only = extracted_only(disk_names(disk@), extracted@);
            &&& rows@.len() == disk@.len() + only.len()
            &&& forall|k: int| 0 <= k < disk@.len() ==> disk_row(#[trigger] rows@[k], disk@[k], extracted@)
            &&& forall|k: int|
                0 <= k < only.len() ==> extracted_row(#[trigger] rows@[disk@.len() + k], only[k])
        }),
{
    let mut rows: Vec<SaveListRow> = Vec::new();
    let mut i: usize = 0;
    while i < disk.len()
        invariant
            0 <= i <= disk@.len(),
            rows@.len() == i,
            forall|k: int| 0 <= k < i ==> disk_row(#[trigger] rows@[k], disk@[k], extracted@),
        decreases disk@.len() - i,
    {
        let save = &disk[i];
        rows.push(SaveListRow {
            dir_name: save.dir_name.clone(),
            character_name: save.character_name.clone(),
            modified: format_system_time(save.modified.clone()),
            extracted_at: find_extracted_at(extracted, &save.dir_name),
            path: save.path.clone(),
        });
        i = i + 1;
    }
    let ghost names = disk_names(disk@);
    proof {
        assert(extracted@.take(0) =~= Seq::<SaveRow>::empty());
        assert forall|n: Seq<char>| #[trigger] has_row_named(rows@, n) == seen_name(
            names,
            extracted@,
            0,
            n,
        ) by {
            if has_row_named(rows@, n) {
                let r = choose|r: int| 0 <= r < rows@.len() && (#[trigger] rows@[r]).dir_name@ == n;
                assert(names[r] == n);
            }
            if names.contains(n) {
                let r = choose|r: int| 0 <= r < names.len() && names[r] == n;
                assert(rows@[r].dir_name@ == n);
            }
        }
    }
    let mut j: usize = 0;
    while j < extracted.len()
        invariant
            0 <= j <= extracted@.len(),
            names == disk_names(disk@),
            rows@.len() == disk@.len() + extracted_only(names, extracted@.take(j as int)).len(),
            forall|k: int| 0 <= k < disk@.len() ==> disk_row(#[trigger] rows@[k], disk@[k], extracted@),
            forall|k: int|
                0 <= k < extracted_only(names, extracted@.take(j as int)).len() ==> extracted_row(
                    #[trigger] rows@[disk@.len() + k],
                    extracted_only(names, extracted@.take(j as int))[k],
                ),
            forall|n: Seq<char>| #[trigger] has_row_named(rows@, n) == seen_name(
                names,
                extracted@,
                j as int,
                n,
            ),
        decreases extracted@.len() - j,
    {
        let row = &extracted[j];
        let ghost pre = extracted@.take(j as int);
        let ghost cur = extracted@.take(j + 1);
        let ghost name = row.dir_name@;
        proof {
            assert(cur.drop_last() =~= pre);
            assert(cur.last() == extracted@[j as int]);
        }
        let mut present = false;
        let mut r: usize = 0;
        while r < rows.len()
            invariant
                0 <= r <= rows@.len(),
                name == row.dir_name@,
                present == exists|q: int| 0 <= q < r && (#[trigger] rows@[q]).dir_name@ == name,
            decreases rows@.len() - r,
        {
            if rows[r].dir_name == row.dir_name {
                present = true;
            }
            r = r + 1;
        }
        proof {
            assert(present == has_row_named(rows@, name));
            let dup = exists|e: int| 0 <= e < cur.len() - 1 && (#[trigger] cur[e]).dir_name@ == name;
            assert(dup == exists|e: int| 0 <= e < j && (#[trigger] extracted@[e]).dir_name@ == name) by {
                if dup {
                    let e = choose|e: int| 0 <= e < cur.len() - 1 && (#[trigger] cur[e]).dir_name@ == name;
                    assert(extracted@[e] == cur[e]);
                }
                if exists|e: int| 0 <= e < j && (#[trigger] extracted@[e]).dir_name@ == name {
                    let e = choose|e: int| 0 <= e < j && (#[trigger] extracted@[e]).dir_name@ == name;
                    assert(extracted@[e] == cur[e]);
                }
            }
            assert(present == (names.contains(name) || dup));
        }
        let ghost old_rows = rows@;
        if !present {
            rows.push(SaveListRow {
                dir_name: row.dir_name.clone(),
                character_name: row.character_name.clone(),
                modified: row.save_date.clone(),
                extracted_at: Some(row.extracted_at.clone()),
                path: path_from_string(&row.path),
            });
        }
        proof {
            assert forall|n: Seq<char>| #[trigger] has_row_named(rows@, n) == seen_name(
                names,
                extracted@,
                j + 1,
                n,
            ) by {
                assert(has_row_named(old_rows, n) == seen_name(names, extracted@, j as int, n));
                if has_row_named(rows@, n) {
                    let q = choose|q: int| 0 <= q < rows@.len() && (#[trigger] rows@[q]).dir_name@ == n;
                    if q < old_rows.len() {
                        assert(old_rows[q] == rows@[q]);
                        assert(has_row_named(old_rows, n));
                    } else {
                        assert(extracted@[j as int].dir_name@ == n);
                    }
                }
                if seen_name(names, extracted@, j + 1, n) {
                    if !seen_name(names, extracted@, j as int, n) {
                        let e = choose|e: int| 0 <= e < j + 1 && (#[trigger] extracted@[e]).dir_name@ == n;
                        assert(e == j);
                        if !present {
                            assert(rows@[rows@.len() - 1].dir_name@ == n);
                        }
                    } else {
                        let q = choose|q: int| 0 <= q < old_rows.len() && (#[trigger] old_rows[q]).dir_name@ == n;
                        assert(rows@[q] == old_rows[q]);
                    }
                }
                if seen_name(names, extracted@, j as int, n) {
                    assert(seen_name(names, extracted@, j + 1, n));
                }
            }
        }
        j = j + 1;
    }
    proof {
        assert(extracted@.take(j as int) =~= extracted@);
    }
    rows
}

/// The scorer's display name.
fn scorer_name(scorer: RankScorer) -> (s: &'static str)
    ensures
        s@ == scorer_text(scorer),
{
    match scorer {
        RankScorer::Quick => "quick",
        RankScorer::Template => "template",
        RankScorer::Bound => "bound",
    }
}

/// The display name of a ranking order.
pub open spec fn rank_sort_text(mode: RankSortMode) -> Seq<char> {
    match mode {
        RankSortMode::ScorePerPlanet => "score/planet"@,
        RankSortMode::TotalScore => "score"@,
    }
}

fn rank_sort_name(mode: RankSortMode) -> (s: &'static str)
    ensures
        s@ == rank_sort_text(mode),
{
    match mode {
        RankSortMode::ScorePerPlanet => "score/planet",
        RankSortMode::TotalScore => "score",
    }
}

/// The scorers in picker order.
pub open spec fn scorer_index(scorer: RankScorer) -> int {
    match scorer {
        RankScorer::Quick => 0,
        RankScorer::Template => 1,
        RankScorer::Bound => 2,
    }
}

/// The scorer `delta` steps (one, either way) from `scorer` in the picker,
/// stopping at either end.
pub fn move_scorer_picker(scorer: RankScorer, delta: i32) -> (next: RankScorer)
    ensures
        scorer_index(next) == if delta < 0 {
            if scorer_index(scorer) == 0 {
                0
            } else {
                scorer_index(scorer) - 1
            }
        } else if scorer_index(scorer) == 2 {
            2
        } else {
            scorer_index(scorer) + 1
        },
{
    let scorers: [RankScorer; 3] = [RankScorer::Quick, RankScorer::Template, RankScorer::Bound];
    let current: usize = match scorer {
        RankScorer::Quick => 0,
        RankScorer::Template => 1,
        RankScorer::Bound => 2,
    };
    let next: usize = if delta < 0 {
        current.saturating_sub(1)
    } else if current + 1 < 2 {
        current + 1
    } else {
        2
    };
    scorers[next]
}

/// The ranking order picked `delta` steps from the current one: score per
/// planet comes first, total score second, and the picker stops at either
/// end.
pub fn move_rank_sort_picker(by_score_per_planet: bool, delta: i32) -> (next: bool)
    ensures
        next == (delta < 0),
{
    let modes: [bool; 2] = [true, false];
    let current: usize = if by_score_per_planet {
        0
    } else {
        1
    };
    let next: usize = if delta < 0 {
        current.saturating_sub(1)
    } else if current + 1 < 1 {
        current + 1
    } else {
        1
    };
    modes[next]
}

/// The ranking order a configuration asks for.
pub fn rank_sort_mode(by_score_per_planet: bool) -> (mode: RankSortMode)
    ensures
        mode == if by_score_per_planet {
            RankSortMode::ScorePerPlanet
        } else {
            RankSortMode::TotalScore
        },
{
    if by_score_per_planet {
        RankSortMode::ScorePerPlanet
    } else {
        RankSortMode::TotalScore
    }
}

} // verus!

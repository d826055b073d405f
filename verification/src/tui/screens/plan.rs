use vstd::prelude::*;

use crate::text::{push_signed_zero_padded, signed_zero_padded};
use crate::tui::app::{PlanActionRow, PlanState};

verus! {

/// Whether row `i` starts a new month: the first row, or one whose month
/// differs from the row before.
pub open spec fn starts_month(rows: Seq<PlanActionRow>, i: int) -> bool {
    i == 0 || rows[i - 1].month != rows[i].month
}

/// The month heading of a row.
pub open spec fn month_heading(month: i32) -> Seq<char> {
    "month "@ + signed_zero_padded(month as int, 0)
}

/// The month column of the plan table: the heading on each row that starts
/// a month, empty on the others.
pub open spec fn month_label(rows: Seq<PlanActionRow>, i: int) -> Seq<char> {
    if starts_month(rows, i) {
        month_heading(rows[i].month)
    } else {
        Seq::empty()
    }
}

fn push_month_heading(s: &mut String, month: i32)
    ensures
        final(s)@ == old(s)@ + month_heading(month),
{
    s.append("month ");
    push_signed_zero_padded(s, month as i64, 0);
    proof {
        assert(old(s)@ + "month "@ + signed_zero_padded(month as int, 0) =~= old(s)@ + month_heading(
            month,
        ));
    }
}

/// The month column of the plan table, one label per row.
pub fn plan_month_labels(rows: &[PlanActionRow]) -> (labels: Vec<String>)
    ensures
        labels@.len() == rows@.len(),
        forall|i: int| 0 <= i < rows@.len() ==> (#[trigger] labels@[i])@ == month_label(rows@, i),
{
    let mut labels: Vec<String> = Vec::new();
    let mut i: usize = 0;
    while i < rows.len()
        invariant
            0 <= i <= rows@.len(),
            labels@.len() == i,
            forall|k: int| 0 <= k < i ==> (#[trigger] labels@[k])@ == month_label(rows@, k),
        decreases rows@.len() - i,
    {
        let mut label = String::new();
        if i == 0 || rows[i - 1].month != rows[i].month {
            push_month_heading(&mut label, rows[i].month);
            proof {
                assert(Seq::<char>::empty() + month_heading(rows@[i as int].month) =~= month_heading(
                    rows@[i as int].month,
                ));
            }
        }
        labels.push(label);
        i = i + 1;
    }
    labels
}

/// The check box of a plan step.
pub open spec fn check_box(checked: bool) -> Seq<char> {
    if checked {
        "[x]"@
    } else {
        "[ ]"@
    }
}

/// The exported lines of step `i`: a blank line and the month heading when
/// it starts a month, then the step with its check box.
pub open spec fn export_step(rows: Seq<PlanActionRow>, checked: Seq<bool>, i: int) -> Seq<char> {
    (if starts_month(rows, i) {
        "\n"@ + month_heading(rows[i].month) + "\n"@
    } else {
        Seq::empty()
    }) + check_box(checked[i]) + " "@ + rows[i].text@ + "\n"@
}

/// The exported lines of the first `n` steps.
pub open spec fn export_lines(rows: Seq<PlanActionRow>, checked: Seq<bool>, n: int) -> Seq<char>
    decreases n,
{
    if n <= 0 {
        Seq::empty()
    } else {
        export_lines(rows, checked, n - 1) + export_step(rows, checked, n - 1)
    }
}

/// The exported plan: its header line, then its steps grouped by month.
pub open spec fn export_text(plan: PlanState) -> Seq<char> {
    plan.header@ + "\n"@ + export_lines(plan.rows@, plan.checked@, plan.rows@.len() as int)
}

fn push_export_step(out: &mut String, plan: &PlanState, i: usize)
    requires
        i < plan.rows@.len(),
        plan.checked@.len() >= plan.rows@.len(),
    ensures
        final(out)@ == old(out)@ + export_step(plan.rows@, plan.checked@, i as int),
{
    let row = &plan.rows[i];
    let ghost start = out@;
    if i == 0 || plan.rows[i - 1].month != row.month {
        out.append("\n");
        push_month_heading(out, row.month);
        out.append("\n");
    }
    let ghost heading = out@;
    out.append(if plan.checked[i] {
        "[x]"
    } else {
        "[ ]"
    });
    out.append(" ");
    out.append(row.text.as_str());
    out.append("\n");
    proof {
        let rows = plan.rows@;
        let h = if starts_month(rows, i as int) {
            "\n"@ + month_heading(rows[i as int].month) + "\n"@
        } else {
            Seq::empty()
        };
        assert(heading =~= start + h);
        assert(out@ =~= start + (h + check_box(plan.checked@[i as int]) + " "@ + rows[i as int].text@
            + "\n"@));
    }
}

/// The text of the plan export.
pub fn plan_export_text(plan: &PlanState) -> (out: String)
    requires
        plan.checked@.len() >= plan.rows@.len(),
    ensures
        out@ == export_text(*plan),
{
    let mut out = String::new();
    out.append(plan.header.as_str());
    out.append("\n");
    let ghost head = out@;
    let mut i: usize = 0;
    while i < plan.rows.len()
        invariant
            0 <= i <= plan.rows@.len(),
            plan.checked@.len() >= plan.rows@.len(),
            out@ == head + export_lines(plan.rows@, plan.checked@, i as int),
        decreases plan.rows@.len() - i,
    {
        push_export_step(&mut out, plan, i);
        proof {
            assert(head + export_lines(plan.rows@, plan.checked@, i + 1) =~= head + export_lines(
                plan.rows@,
                plan.checked@,
                i as int,
            ) + export_step(plan.rows@, plan.checked@, i as int));
        }
        i = i + 1;
    }
    proof {
        assert(out@ =~= export_text(*plan));
    }
    out
}

/// The plan screen's own keys.
#[derive(Debug, Clone, Copy, PartialEq, Eq, Structural)]
pub enum PlanKey {
    /// Select the next step.
    Down,
    /// Select the previous step.
    Up,
    /// Tick or untick the selected step.
    ToggleChecked,
    /// Select the next step after the selection that is not ticked yet.
    NextUnchecked,
}

/// The first index after `from` whose box is unticked, if any.
pub open spec fn next_unchecked(checked: Seq<bool>, from: int) -> Option<int> {
    if exists|i: int| from < i < checked.len() && !checked[i] {
        Some(choose|i: int| from < i < checked.len() && !checked[i] && forall|j: int| from < j < i ==> checked[j])
    } else {
        None
    }
}

/// The first index after `from` whose box is unticked.
fn find_next_unchecked(checked: &Vec<bool>, from: usize) -> (r: Option<usize>)
    requires
        from < usize::MAX,
    ensures
        match r {
            Some(k) => next_unchecked(checked@, from as int) == Some(k as int),
            None => next_unchecked(checked@, from as int) is None,
        },
{
    let mut i = from + 1;
    while i < checked.len()
        invariant
            from < i,
            forall|j: int| from < j < i && j < checked@.len() ==> checked@[j],
        decreases checked@.len() - i,
    {
        if !checked[i] {
            proof {
                let c = choose|k: int|
                    from < k < checked@.len() && !checked@[k] && forall|j: int|
                        from < j < k ==> checked@[j];
                assert(from < i < checked@.len() && !checked@[i as int] && forall|j: int|
                    from < j < i ==> checked@[j]);
                if c < i {
                    assert(checked@[c]);
                } else if c > i {
                    assert(checked@[i as int]);
                }
            }
            return Some(i);
        }
        i = i + 1;
    }
    None
}

/// Apply a plan-screen key to the plan: move the selection (stopping at the
/// ends), tick or untick the selected step, or jump to the next unticked
/// step after the selection (staying put when there is none).
pub fn apply_plan_key(plan: &mut PlanState, key: PlanKey)
    requires
        key == PlanKey::Down || key == PlanKey::NextUnchecked ==> old(plan).selection < usize::MAX,
    ensures
        final(plan).header == old(plan).header,
        final(plan).actions@ == old(plan).actions@,
        final(plan).rows@ == old(plan).rows@,
        key != PlanKey::ToggleChecked ==> final(plan).checked@ == old(plan).checked@,
        key == PlanKey::ToggleChecked ==> final(plan).selection == old(plan).selection,
        match key {
            PlanKey::Down => final(plan).selection == if old(plan).selection + 1 < old(plan).rows@.len() {
                old(plan).selection + 1
            } else if old(plan).rows@.len() == 0 {
                0
            } else {
                old(plan).rows@.len() - 1
            },
            PlanKey::Up => final(plan).selection == if old(plan).selection == 0 {
                0
            } else {
                old(plan).selection - 1
            },
            PlanKey::ToggleChecked => final(plan).checked@ == if old(plan).selection < old(plan).checked@.len() {
                old(plan).checked@.update(
                    old(plan).selection as int,
                    !old(plan).checked@[old(plan).selection as int],
                )
            } else {
                old(plan).checked@
            },
            PlanKey::NextUnchecked => final(plan).selection == match next_unchecked(
                old(plan).checked@,
                old(plan).selection as int,
            ) {
                Some(i) => i,
                None => old(plan).selection as int,
            },
        },
{
    match key {
        PlanKey::Down => {
            let last = plan.rows.len().saturating_sub(1);
            let next = plan.selection + 1;
            plan.selection = if next < last {
                next
            } else {
                last
            };
        },
        PlanKey::Up => {
            plan.selection = plan.selection.saturating_sub(1);
        },
        PlanKey::ToggleChecked => {
            let s = plan.selection;
            if s < plan.checked.len() {
                let value = plan.checked[s];
                plan.checked.set(s, !value);
            }
        },
        PlanKey::NextUnchecked => {
            match find_next_unchecked(&plan.checked, plan.selection) {
                Some(i) => {
                    plan.selection = i;
                },
                None => {},
            }
        },
    }
}

} // verus!

use vstd::prelude::*;

use crate::solver::goal::Metric;
use crate::tui::app::SolveMode;

verus! {

pub open spec fn is_digit(c: char) -> bool {
    '0' <= c <= '9'
}

/// The value of a string of decimal digits.
pub open spec fn digits_value(d: Seq<char>) -> int
    decreases d.len(),
{
    if d.len() == 0 {
        0
    } else {
        digits_value(d.drop_last()) * 10 + (d.last() as int - '0' as int)
    }
}

/// Whether the text starts with a minus sign that the type accepts.
pub open spec fn has_minus(s: Seq<char>, signed: bool) -> bool {
    signed && s.len() > 0 && s[0] == '-'
}

/// The text after an accepted leading sign.
pub open spec fn digit_part(s: Seq<char>, signed: bool) -> Seq<char> {
    if s.len() > 0 && (s[0] == '+' || has_minus(s, signed)) {
        s.drop_first()
    } else {
        s
    }
}

pub open spec fn all_digits(d: Seq<char>) -> bool {
    forall|k: int| 0 <= k < d.len() ==> is_digit(#[trigger] d[k])
}

/// What `str::parse` gives for an integer type with range `min..=max`: an
/// optional sign (`-` only for signed types) followed by at least one
/// decimal digit and nothing else, whose value lies in the range.
pub open spec fn parse_integer_spec(s: Seq<char>, signed: bool, min: int, max: int) -> Option<int> {
    let digits = digit_part(s, signed);
    if digits.len() == 0 || !all_digits(digits) {
        None
    } else {
        let v = if has_minus(s, signed) {
            -digits_value(digits)
        } else {
            digits_value(digits)
        };
        if min <= v <= max {
            Some(v)
        } else {
            None
        }
    }
}

proof fn lemma_digits_value_grows(d: Seq<char>, k: int)
    requires
        0 <= k <= d.len(),
        forall|j: int| 0 <= j < d.len() ==> is_digit(#[trigger] d[j]),
    ensures
        0 <= digits_value(d.take(k)) <= digits_value(d),
    decreases d.len() - k,
{
    if k < d.len() {
        lemma_digits_value_grows(d, k + 1);
        assert(d.take(k + 1).drop_last() =~= d.take(k));
        assert(d.take(k + 1).last() == d[k]);
        assert(is_digit(d[k]));
    } else {
        assert(d.take(k) =~= d);
    }
    lemma_digits_value_nonneg(d.take(k));
}

proof fn lemma_digits_value_nonneg(d: Seq<char>)
    requires
        forall|j: int| 0 <= j < d.len() ==> is_digit(#[trigger] d[j]),
    ensures
        digits_value(d) >= 0,
    decreases d.len(),
{
    if d.len() > 0 {
        assert(is_digit(d[d.len() - 1]));
        lemma_digits_value_nonneg(d.drop_last());
    }
}

/// Parse an integer in the range `min..=max` the way `str::parse` does.
fn parse_integer(value: &str, signed: bool, min: i64, max: i64) -> (r: Option<i64>)
    requires
        -0x1_0000_0000 <= min <= 0 <= max <= 0x1_0000_0000,
    ensures
        match parse_integer_spec(value@, signed, min as int, max as int) {
            Some(v) => r == Some(v as i64),
            None => r is None,
        },
{
    let ghost s = value@;
    let n = value.unicode_len();
    if n == 0 {
        return None;
    }
    let first = value.get_char(0);
    assert(first == s[0]);
    let neg = signed && first == '-';
    let start: usize = if first == '+' || neg {
        1
    } else {
        0
    };
    let ghost digits = if s.len() > 0 && (s[0] == '+' || neg) {
        s.drop_first()
    } else {
        s
    };
    proof {
        assert(digits =~= s.skip(start as int));
    }
    if start >= n {
        return None;
    }
    let limit: i64 = if neg {
        -min
    } else {
        max
    };
    let mut acc: i64 = 0;
    let mut i: usize = start;
    proof {
        assert(digits.take(0) =~= Seq::<char>::empty());
    }
    while i < n
        invariant
            n == s.len(),
            s == value@,
            start <= i <= n,
            start <= 1,
            digits =~= s.skip(start as int),
            neg == (signed && s.len() > 0 && s[0] == '-'),
            digits == (if s.len() > 0 && (s[0] == '+' || neg) {
                s.drop_first()
            } else {
                s
            }),
            -0x1_0000_0000 <= min <= 0 <= max <= 0x1_0000_0000,
            0 <= limit <= 0x1_0000_0000,
            limit == (if neg { -min } else { max as int }),
            0 <= acc <= limit,
            acc == digits_value(digits.take(i - start)),
            forall|k: int| 0 <= k < i - start ==> is_digit(#[trigger] digits[k]),
        decreases n - i,
    {
        let c = value.get_char(i);
        let ghost pre = digits.take(i - start);
        proof {
            assert(digits.take(i + 1 - start).drop_last() =~= pre);
            assert(digits[i - start] == c);
        }
        if !('0' <= c && c <= '9') {
            proof {
                assert(!is_digit(digits[i - start]));
                assert(!(forall|k: int| 0 <= k < digits.len() ==> is_digit(#[trigger] digits[k])));
                assert(parse_integer_spec(value@, signed, min as int, max as int) is None);
            }
            return None;
        }
        let d: i64 = (c as u32 - '0' as u32) as i64;
        if acc * 10 + d > limit {
            proof {
                assert(digits_value(digits.take(i + 1 - start)) == acc * 10 + d);
                if all_digits(digits) {
                    lemma_digits_value_grows(digits, i + 1 - start);
                    assert(digits_value(digits) > limit);
                }
                assert(parse_integer_spec(value@, signed, min as int, max as int) is None);
            }
            return None;
        }
        acc = acc * 10 + d;
        i = i + 1;
    }
    proof {
        assert(digits.take(n - start) =~= digits);
    }
    if neg {
        Some(-acc)
    } else {
        Some(acc)
    }
}

/// Parse `value` as an `i32` into `target`; on failure leave `target` alone.
/// Returns whether it parsed.
pub fn parse_i32(value: &str, target: &mut i32) -> (ok: bool)
    ensures
        match parse_integer_spec(value@, true, i32::MIN as int, i32::MAX as int) {
            Some(v) => ok && *final(target) == v,
            None => !ok && *final(target) == *old(target),
        },
{
    match parse_integer(value, true, i32::MIN as i64, i32::MAX as i64) {
        Some(v) => {
            *target = v as i32;
            true
        },
        None => false,
    }
}

/// Parse `value` as a `u32` into `target`; on failure leave `target` alone.
/// Returns whether it parsed.
pub fn parse_u32(value: &str, target: &mut u32) -> (ok: bool)
    ensures
        match parse_integer_spec(value@, false, 0, u32::MAX as int) {
            Some(v) => ok && *final(target) == v,
            None => !ok && *final(target) == *old(target),
        },
{
    match parse_integer(value, false, 0, u32::MAX as i64) {
        Some(v) => {
            *target = v as u32;
            true
        },
        None => false,
    }
}

/// The floor fields of a maximize solve.
#[derive(Debug, Clone, Copy, PartialEq, Eq, Structural)]
pub enum MaxFloorField {
    Income,
    Stability,
    Defense,
}

/// The floor fields shown for a maximize solve: one for each metric other
/// than the maximized one, in the order income, stability, defense.
pub open spec fn floor_fields(metric: Metric) -> Seq<MaxFloorField> {
    match metric {
        Metric::Income => seq![MaxFloorField::Stability, MaxFloorField::Defense],
        Metric::Stability => seq![MaxFloorField::Income, MaxFloorField::Defense],
        Metric::Defense => seq![MaxFloorField::Income, MaxFloorField::Stability],
    }
}

/// The rows of the solve parameter pane: the mode; the goal's three targets
/// or the maximized metric and its floors; the horizon, the time budget, and
/// the run button.
pub open spec fn param_labels_text(mode: SolveMode, metric: Metric) -> Seq<Seq<char>> {
    let middle = match mode {
        SolveMode::Pareto => Seq::<Seq<char>>::empty(),
        SolveMode::Goal => seq!["income"@, "stability"@, "defense"@],
        SolveMode::Maximize => seq!["metric"@] + floor_fields(metric).map_values(
            |f: MaxFloorField| match f {
                MaxFloorField::Income => "income floor"@,
                MaxFloorField::Stability => "stability floor"@,
                MaxFloorField::Defense => "defense floor"@,
            },
        ),
    };
    seq!["mode"@] + middle + seq!["horizon"@, "time budget ms"@, "[Run]"@]
}

/// The labels of the solve parameter rows.
pub fn param_labels(mode: SolveMode, metric: Metric) -> (labels: Vec<&'static str>)
    ensures
        labels@.map_values(|l: &str| l@) == param_labels_text(mode, metric),
{
    let mut labels: Vec<&'static str> = Vec::new();
    labels.push("mode");
    match mode {
        SolveMode::Pareto => {},
        SolveMode::Goal => {
            labels.push("income");
            labels.push("stability");
            labels.push("defense");
        },
        SolveMode::Maximize => {
            labels.push("metric");
            match metric {
                Metric::Income => {},
                _ => labels.push("income floor"),
            }
            match metric {
                Metric::Stability => {},
                _ => labels.push("stability floor"),
            }
            match metric {
                Metric::Defense => {},
                _ => labels.push("defense floor"),
            }
        },
    }
    labels.push("horizon");
    labels.push("time budget ms");
    labels.push("[Run]");
    proof {
        assert(labels@.map_values(|l: &str| l@) =~= param_labels_text(mode, metric));
    }
    labels
}

/// The floor field on parameter row `selection` of a maximize solve: the
/// rows after the mode and metric rows list the floors.
pub fn max_floor_field(metric: Metric, selection: usize) -> (f: Option<MaxFloorField>)
    ensures
        f == if 2 <= selection < 2 + floor_fields(metric).len() {
            Some(floor_fields(metric)[selection - 2])
        } else {
            None
        },
{
    let fields: [MaxFloorField; 2] = match metric {
        Metric::Income => [MaxFloorField::Stability, MaxFloorField::Defense],
        Metric::Stability => [MaxFloorField::Income, MaxFloorField::Defense],
        Metric::Defense => [MaxFloorField::Income, MaxFloorField::Stability],
    };
    match selection.checked_sub(2) {
        Some(index) => {
            if index < 2 {
                Some(fields[index])
            } else {
                None
            }
        },
        None => None,
    }
}

/// The selected row after moving by `delta` (one, either way) among
/// `row_count` rows, stopping at either end.
pub fn move_selection(selection: usize, delta: i32, row_count: usize) -> (next: usize)
    ensures
        next == if delta < 0 {
            if selection == 0 {
                0
            } else {
                (selection - 1) as usize
            }
        } else {
            let max = if row_count == 0 {
                0
            } else {
                (row_count - 1) as usize
            };
            if selection + 1 < max {
                (selection + 1) as usize
            } else {
                max
            }
        },
{
    let max = row_count.saturating_sub(1);
    if delta < 0 {
        selection.saturating_sub(1)
    } else if selection < max {
        selection + 1
    } else {
        max
    }
}

/// The metrics in the order the metric row cycles through them.
pub open spec fn metric_index(m: Metric) -> int {
    match m {
        Metric::Income => 0,
        Metric::Stability => 1,
        Metric::Defense => 2,
    }
}

/// The maximized metric after cycling: forward wraps around, backward stops
/// at the first.
pub fn cycle_metric(current: Metric, delta: i32) -> (next: Metric)
    ensures
        metric_index(next) == if delta < 0 {
            if metric_index(current) == 0 {
                0
            } else {
                metric_index(current) - 1
            }
        } else {
            (metric_index(current) + 1) % 3
        },
{
    let metrics: [Metric; 3] = [Metric::Income, Metric::Stability, Metric::Defense];
    let index: usize = match current {
        Metric::Income => 0,
        Metric::Stability => 1,
        Metric::Defense => 2,
    };
    let next: usize = if delta < 0 {
        index.saturating_sub(1)
    } else {
        (index + 1) % 3
    };
    metrics[next]
}

/// The modes in the order the mode row cycles through them.
pub open spec fn mode_index(m: SolveMode) -> int {
    match m {
        SolveMode::Pareto => 0,
        SolveMode::Goal => 1,
        SolveMode::Maximize => 2,
    }
}

/// The solve mode after cycling (forward wraps around, backward stops at
/// the first), with the selected row kept within the new mode's rows.
pub fn cycle_mode(current: SolveMode, delta: i32, selection: usize, metric: Metric) -> (r: (
    SolveMode,
    usize,
))
    ensures
        mode_index(r.0) == if delta < 0 {
            if mode_index(current) == 0 {
                0
            } else {
                mode_index(current) - 1
            }
        } else {
            (mode_index(current) + 1) % 3
        },
        r.1 == if selection < param_labels_text(r.0, metric).len() - 1 {
            selection as int
        } else {
            param_labels_text(r.0, metric).len() - 1
        },
{
    let modes: [SolveMode; 3] = [SolveMode::Pareto, SolveMode::Goal, SolveMode::Maximize];
    let index: usize = match current {
        SolveMode::Pareto => 0,
        SolveMode::Goal => 1,
        SolveMode::Maximize => 2,
    };
    let next: usize = if delta < 0 {
        index.saturating_sub(1)
    } else {
        (index + 1) % 3
    };
    let mode = modes[next];
    let rows = param_labels(mode, metric);
    proof {
        assert(rows@.len() == param_labels_text(mode, metric).len());
    }
    let last = rows.len().saturating_sub(1);
    let clamped = if selection < last {
        selection
    } else {
        last
    };
    (mode, clamped)
}

} // verus!

//! Rendering the store as a listing: one line per task between a heading and
//! a summary, with a stamp under completed tasks whose creation time parses.

use vstd::prelude::*;
use crate::todo::{StoreV, TaskV, TodoList};

verus! {

/// One line of the listing, ready for presentation.
pub enum ListLine {
    /// The message shown when the store is empty.
    NoTasks,
    /// The heading above the tasks.
    Header,
    /// The horizontal rule above and below the tasks.
    Separator,
    /// One task: its completion state, identifier and description.
    TaskLine { completed: bool, id: usize, description: String },
    /// The stamp under a completed task, derived from its creation time.
    CompletedOn { stamp: String },
    /// The closing summary: total, completed and pending counts.
    Footer { total: usize, completed: usize, pending: usize },
}

/// Model of a line.
pub ghost enum LineV {
    NoTasks,
    Header,
    Separator,
    TaskLine { completed: bool, id: int, description: Seq<char> },
    CompletedOn { stamp: Seq<char> },
    Footer { total: int, completed: int, pending: int },
}

impl View for ListLine {
    type V = LineV;

    open spec fn view(&self) -> LineV {
        match self {
            ListLine::NoTasks => LineV::NoTasks,
            ListLine::Header => LineV::Header,
            ListLine::Separator => LineV::Separator,
            ListLine::TaskLine { completed, id, description } => LineV::TaskLine {
                completed: *completed,
                id: *id as int,
                description: description@,
            },
            ListLine::CompletedOn { stamp } => LineV::CompletedOn { stamp: stamp@ },
            ListLine::Footer { total, completed, pending } => LineV::Footer {
                total: *total as int,
                completed: *completed as int,
                pending: *pending as int,
            },
        }
    }
}

/// How many of these tasks are completed.
pub open spec fn spec_count_completed(ts: Seq<TaskV>) -> int
    decreases ts.len(),
{
    if ts.len() == 0 {
        0
    } else if ts[0].completed {
        1 + spec_count_completed(ts.drop_first())
    } else {
        spec_count_completed(ts.drop_first())
    }
}

/// The line or lines one task contributes: its own line, and a stamp line
/// when a stamp is offered.
pub open spec fn spec_task_lines(t: TaskV, stamp: Option<Seq<char>>) -> Seq<LineV> {
    match stamp {
        Some(s) => seq![
            LineV::TaskLine { completed: t.completed, id: t.id, description: t.description },
            LineV::CompletedOn { stamp: s },
        ],
        None => seq![
            LineV::TaskLine { completed: t.completed, id: t.id, description: t.description },
        ],
    }
}

/// The task lines of the listing, in store order.
pub open spec fn spec_lines_body(ts: Seq<TaskV>, stamps: Seq<Option<Seq<char>>>) -> Seq<LineV>
    decreases ts.len(),
{
    if ts.len() == 0 {
        Seq::empty()
    } else {
        spec_task_lines(ts[0], stamps[0]) + spec_lines_body(ts.drop_first(), stamps.drop_first())
    }
}

/// The whole listing: the empty message alone, or heading, rule, task lines,
/// rule and summary.
pub open spec fn spec_list_lines(s: StoreV, stamps: Seq<Option<Seq<char>>>) -> Seq<LineV> {
    if s.tasks.len() == 0 {
        seq![LineV::NoTasks]
    } else {
        seq![LineV::Header, LineV::Separator] + spec_lines_body(s.tasks, stamps) + seq![
            LineV::Separator,
            LineV::Footer {
                total: s.tasks.len() as int,
                completed: spec_count_completed(s.tasks),
                pending: s.tasks.len() - spec_count_completed(s.tasks),
            },
        ]
    }
}

/// Whether the creation stamp parses as RFC 3339; decided by the characters
/// alone.
pub uninterp spec fn rfc3339_parses(s: Seq<char>) -> bool;

/// A stamp is offered exactly under a completed task whose creation time
/// parses.
pub open spec fn stamps_match(ts: Seq<TaskV>, stamps: Seq<Option<Seq<char>>>) -> bool {
    &&& stamps.len() == ts.len()
    &&& forall|k: int|
        0 <= k < ts.len() ==> (#[trigger] stamps[k] is Some <==> (ts[k].completed
            && rfc3339_parses(ts[k].created_at)))
}

pub open spec fn stamp_view(o: Option<String>) -> Option<Seq<char>> {
    match o {
        Some(s) => Some(s@),
        None => None,
    }
}

/// Relies on chrono::DateTime::parse_from_rfc3339, chrono::Local and
/// chrono::DateTime::format: the stamp rendered as a local
/// "year-month-day hour:minute" string. Whether the parse succeeds depends on
/// the characters alone; what the rendering yields depends also on the
/// machine's time zone, so only the success of the parse is stated.
#[verifier::external_body]
fn format_stamp(s: &str) -> (r: Option<String>)
    ensures
        r is Some <==> rfc3339_parses(s@),
{
    match chrono::DateTime::parse_from_rfc3339(s) {
        Ok(parsed) => {
            let local = parsed.with_timezone(&chrono::Local);
            Some(format!("{}", local.format("%Y-%m-%d %H:%M")))
        },
        Err(_) => None,
    }
}

impl TodoList {
    /// The listing when the stamp to show under each task is already chosen:
    /// exactly the lines of `spec_list_lines`.
    pub fn list_at(&self, stamps: Vec<Option<String>>) -> (r: Vec<ListLine>)
        requires
            stamps@.len() == self@.tasks.len(),
        ensures
            r@.map_values(|l: ListLine| l@) == spec_list_lines(
                self@,
                stamps@.map_values(|o: Option<String>| stamp_view(o)),
            ),
    {
        let ghost ts = self@.tasks;
        let ghost sts = stamps@.map_values(|o: Option<String>| stamp_view(o));
        let mut lines: Vec<ListLine> = Vec::new();
        let n = self.tasks.len();
        if n == 0 {
            lines.push(ListLine::NoTasks);
            proof {
                assert(lines@.map_values(|l: ListLine| l@) =~= spec_list_lines(self@, sts));
            }
            return lines;
        }
        lines.push(ListLine::Header);
        lines.push(ListLine::Separator);
        let mut done: usize = 0;
        let mut k: usize = 0;
        proof {
            assert(ts.skip(0) =~= ts);
            assert(sts.skip(0) =~= sts);
            assert(lines@.map_values(|l: ListLine| l@) =~= seq![LineV::Header, LineV::Separator]);
        }
        while k < n
            invariant
                n == self.tasks.len(),
                ts == self@.tasks,
                ts.len() == n,
                sts == stamps@.map_values(|o: Option<String>| stamp_view(o)),
                sts.len() == n,
                forall|j: int| 0 <= j < n ==> ts[j] == #[trigger] self.tasks@[j]@,
                forall|j: int| 0 <= j < n ==> sts[j] == stamp_view(#[trigger] stamps@[j]),
                k <= n,
                done <= k,
                done as int + spec_count_completed(ts.skip(k as int)) == spec_count_completed(ts),
                lines@.map_values(|l: ListLine| l@) + spec_lines_body(
                    ts.skip(k as int),
                    sts.skip(k as int),
                ) == seq![LineV::Header, LineV::Separator] + spec_lines_body(ts, sts),
            decreases n - k,
        {
            proof {
                assert(ts.skip(k as int).drop_first() =~= ts.skip(k + 1 as int));
                assert(sts.skip(k as int).drop_first() =~= sts.skip(k + 1 as int));
                assert(ts.skip(k as int)[0] == ts[k as int]);
                assert(sts.skip(k as int)[0] == sts[k as int]);
            }
            let t = &self.tasks[k];
            lines.push(
                ListLine::TaskLine {
                    completed: t.completed,
                    id: t.id,
                    description: t.description.clone(),
                },
            );
            if t.completed {
                done = done + 1;
            }
            match &stamps[k] {
                Some(st) => {
                    lines.push(ListLine::CompletedOn { stamp: st.clone() });
                },
                None => {},
            }
            proof {
                assert(lines@.map_values(|l: ListLine| l@) + spec_lines_body(
                    ts.skip(k + 1 as int),
                    sts.skip(k + 1 as int),
                ) =~= seq![LineV::Header, LineV::Separator] + spec_lines_body(ts, sts));
            }
            k += 1;
        }
        proof {
            assert(ts.skip(n as int) =~= Seq::<TaskV>::empty());
            assert(sts.skip(n as int) =~= Seq::<Option<Seq<char>>>::empty());
            assert(spec_count_completed(ts) <= ts.len()) by {
                lemma_count_completed_le(ts);
            }
        }
        lines.push(ListLine::Separator);
        lines.push(ListLine::Footer { total: n, completed: done, pending: n - done });
        proof {
            assert(lines@.map_values(|l: ListLine| l@) =~= spec_list_lines(self@, sts));
        }
        lines
    }

    /// The listing, with the stamp under each completed task taken from the
    /// clock library's local rendering of its creation time.
    pub fn list(&self) -> (r: Vec<ListLine>)
        ensures
            exists|stamps: Seq<Option<Seq<char>>>|
                stamps_match(self@.tasks, stamps) && r@.map_values(|l: ListLine| l@)
                    == spec_list_lines(self@, stamps),
    {
        let ghost ts = self@.tasks;
        let mut stamps: Vec<Option<String>> = Vec::new();
        let n = self.tasks.len();
        let mut k: usize = 0;
        while k < n
            invariant
                n == self.tasks.len(),
                ts == self@.tasks,
                ts.len() == n,
                forall|j: int| 0 <= j < n ==> ts[j] == #[trigger] self.tasks@[j]@,
                k <= n,
                stamps@.len() == k,
                forall|j: int|
                    0 <= j < k ==> (stamp_view(#[trigger] stamps@[j]) is Some <==> (ts[j].completed
                        && rfc3339_parses(ts[j].created_at))),
            decreases n - k,
        {
            let t = &self.tasks[k];
            if t.completed {
                stamps.push(format_stamp(t.created_at.as_str()));
            } else {
                stamps.push(None);
            }
            k += 1;
        }
        let ghost sts = stamps@.map_values(|o: Option<String>| stamp_view(o));
        proof {
            assert(stamps_match(ts, sts));
        }
        self.list_at(stamps)
    }
}

/// No more tasks are completed than there are tasks.
pub proof fn lemma_count_completed_le(ts: Seq<TaskV>)
    ensures
        0 <= spec_count_completed(ts) <= ts.len(),
    decreases ts.len(),
{
    if ts.len() > 0 {
        lemma_count_completed_le(ts.drop_first());
    }
}

} // verus!

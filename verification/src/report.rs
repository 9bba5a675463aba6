//! The report generator: renders a day's todos and a caller-supplied memo
//! into a text document. Pure over the snapshot it fetches from the store.
use vstd::prelude::*;

use crate::model::seq_views;
use crate::model::CommandError;
use crate::model::DailyTodoWithTask;
use crate::model::DailyTodoWithTaskView;
use crate::store::todos_on_date;
use crate::store::Database;
use vstd::string::StringExecFns;

verus! {

/// The project prefix of a report line: the project's name and a colon when
/// the item is linked to a known project, nothing otherwise.
pub open spec fn line_prefix(project_name: Option<Seq<char>>) -> Seq<char> {
    match project_name {
        Option::Some(n) => n + ": "@,
        Option::None => Seq::empty(),
    }
}

/// The indented memo line under a completed item: present only when the
/// item's memo is present and non-empty.
pub open spec fn memo_line(memo: Option<Seq<char>>) -> Seq<char> {
    match memo {
        Option::Some(m) => if m.len() > 0 {
            "  - "@ + m + "\n"@
        } else {
            Seq::empty()
        },
        Option::None => Seq::empty(),
    }
}

/// The lines of the completed section, in list order: a checked item per
/// completed todo, each followed by its memo line if any.
pub open spec fn completed_lines(ts: Seq<DailyTodoWithTaskView>) -> Seq<char>
    decreases ts.len(),
{
    if ts.len() == 0 {
        Seq::empty()
    } else {
        let t = ts.last();
        completed_lines(ts.drop_last()) + (if t.completed {
            "- [x] "@ + line_prefix(t.project_name) + t.title + "\n"@ + memo_line(t.memo)
        } else {
            Seq::empty()
        })
    }
}

/// The lines of the incomplete section, in list order: an unchecked item
/// per incomplete todo; memos are not surfaced here.
pub open spec fn incomplete_lines(ts: Seq<DailyTodoWithTaskView>) -> Seq<char>
    decreases ts.len(),
{
    if ts.len() == 0 {
        Seq::empty()
    } else {
        let t = ts.last();
        incomplete_lines(ts.drop_last()) + (if !t.completed {
            "- [ ] "@ + line_prefix(t.project_name) + t.title + "\n"@
        } else {
            Seq::empty()
        })
    }
}

pub open spec fn has_completed(ts: Seq<DailyTodoWithTaskView>) -> bool {
    exists|i: int| 0 <= i < ts.len() && ts[i].completed
}

pub open spec fn has_incomplete(ts: Seq<DailyTodoWithTaskView>) -> bool {
    exists|i: int| 0 <= i < ts.len() && !ts[i].completed
}

/// The closing memo section: the caller's memo verbatim, only when it is
/// non-empty.
pub open spec fn memo_section(memo: Seq<char>) -> Seq<char> {
    if memo.len() > 0 {
        "\n## メモ\n"@ + memo + "\n"@
    } else {
        Seq::empty()
    }
}

/// The whole daily report document over a day's enriched todo list: title
/// line, completed section, incomplete section, memo section; an empty
/// section renders a fixed placeholder.
pub open spec fn report_text(
    ts: Seq<DailyTodoWithTaskView>,
    date: Seq<char>,
    memo: Seq<char>,
) -> Seq<char> {
    "# 日報 - "@ + date + "\n\n"@ + "## 完了したタスク\n"@ + (if has_completed(ts) {
        completed_lines(ts)
    } else {
        "なし\n"@
    }) + "\n## 未完了のタスク\n"@ + (if has_incomplete(ts) {
        incomplete_lines(ts)
    } else {
        "なし\n"@
    }) + memo_section(memo)
}

/// Whether the list holds a completed item.
fn any_completed(todos: &Vec<DailyTodoWithTask>) -> (r: bool)
    ensures
        r == has_completed(seq_views(todos@)),
{
    let ghost ts = seq_views(todos@);
    let n = todos.len();
    let mut found = false;
    let mut i: usize = 0;
    while i < n
        invariant
            i <= n,
            n == ts.len(),
            ts == seq_views(todos@),
            found == has_completed(ts.take(i as int)),
        decreases n - i,
    {
        if todos[i].completed {
            found = true;
            assert(ts.take(i as int + 1)[i as int].completed);
        } else {
            proof {
                if has_completed(ts.take(i as int + 1)) {
                    let j = choose|j: int|
                        #![trigger ts.take(i as int + 1)[j]]
                        0 <= j < ts.take(i as int + 1).len() && ts.take(i as int + 1)[j].completed;
                    if j < i {
                        assert(ts.take(i as int)[j].completed);
                    }
                }
            }
        }
        i += 1;
    }
    proof {
        assert(ts.take(n as int) =~= ts);
    }
    found
}

/// Whether the list holds an incomplete item.
fn any_incomplete(todos: &Vec<DailyTodoWithTask>) -> (r: bool)
    ensures
        r == has_incomplete(seq_views(todos@)),
{
    let ghost ts = seq_views(todos@);
    let n = todos.len();
    let mut found = false;
    let mut i: usize = 0;
    while i < n
        invariant
            i <= n,
            n == ts.len(),
            ts == seq_views(todos@),
            found == has_incomplete(ts.take(i as int)),
        decreases n - i,
    {
        if !todos[i].completed {
            found = true;
            assert(!ts.take(i as int + 1)[i as int].completed);
        } else {
            proof {
                if has_incomplete(ts.take(i as int + 1)) {
                    let j = choose|j: int|
                        #![trigger ts.take(i as int + 1)[j]]
                        0 <= j < ts.take(i as int + 1).len() && !ts.take(i as int + 1)[j].completed;
                    if j < i {
                        assert(!ts.take(i as int)[j].completed);
                    }
                }
            }
        }
        i += 1;
    }
    proof {
        assert(ts.take(n as int) =~= ts);
    }
    found
}

/// Appends the lines of the completed section.
fn append_completed(report: &mut String, todos: &Vec<DailyTodoWithTask>)
    ensures
        final(report)@ == old(report)@ + completed_lines(seq_views(todos@)),
{
    let ghost ts = seq_views(todos@);
    let ghost head = report@;
    let n = todos.len();
    let mut k: usize = 0;
    while k < n
        invariant
            k <= n,
            n == ts.len(),
            ts == seq_views(todos@),
            report@ == head + completed_lines(ts.take(k as int)),
        decreases n - k,
    {
        proof {
            assert(ts.take(k as int + 1).drop_last() =~= ts.take(k as int));
            assert(ts.take(k as int + 1).last() == ts[k as int]);
        }
        let t = &todos[k];
        if t.completed {
            report.append("- [x] ");
            match &t.project_name {
                Option::Some(p) => {
                    report.append(p.as_str());
                    report.append(": ");
                },
                Option::None => {},
            }
            report.append(t.title.as_str());
            report.append("\n");
            match &t.memo {
                Option::Some(m) => {
                    if !m.as_str().is_empty() {
                        report.append("  - ");
                        report.append(m.as_str());
                        report.append("\n");
                    }
                },
                Option::None => {},
            }
        }
        proof {
            assert(report@ =~= head + completed_lines(ts.take(k as int + 1)));
        }
        k += 1;
    }
    proof {
        assert(ts.take(n as int) =~= ts);
    }
}

/// Appends the lines of the incomplete section.
fn append_incomplete(report: &mut String, todos: &Vec<DailyTodoWithTask>)
    ensures
        final(report)@ == old(report)@ + incomplete_lines(seq_views(todos@)),
{
    let ghost ts = seq_views(todos@);
    let ghost head = report@;
    let n = todos.len();
    let mut k: usize = 0;
    while k < n
        invariant
            k <= n,
            n == ts.len(),
            ts == seq_views(todos@),
            report@ == head + incomplete_lines(ts.take(k as int)),
        decreases n - k,
    {
        proof {
            assert(ts.take(k as int + 1).drop_last() =~= ts.take(k as int));
            assert(ts.take(k as int + 1).last() == ts[k as int]);
        }
        let t = &todos[k];
        if !t.completed {
            report.append("- [ ] ");
            match &t.project_name {
                Option::Some(p) => {
                    report.append(p.as_str());
                    report.append(": ");
                },
                Option::None => {},
            }
            report.append(t.title.as_str());
            report.append("\n");
        }
        proof {
            assert(report@ =~= head + incomplete_lines(ts.take(k as int + 1)));
        }
        k += 1;
    }
    proof {
        assert(ts.take(n as int) =~= ts);
    }
}

/// Renders the daily report for `date` from the store's snapshot and the
/// caller's memo; empty sections yield placeholders, never an error.
#[verifier::rlimit(80)]
pub fn generate_daily_report(db: &Database, date: &String, memo: &String) -> (r: Result<
    String,
    CommandError,
>)
    requires
        db.wf(),
    ensures
        r is Ok,
        r matches Ok(text) ==> text@ == report_text(todos_on_date(db@, date@), date@, memo@),
{
    let todos = match db.get_todos_by_date(date) {
        Result::Ok(v) => v,
        Result::Err(e) => {
            return Result::Err(e);
        },
    };
    let ghost ts = seq_views(todos@);
    let mut report = String::new();
    report.append("# 日報 - ");
    report.append(date.as_str());
    report.append("\n\n");
    report.append("## 完了したタスク\n");
    if any_completed(&todos) {
        append_completed(&mut report, &todos);
    } else {
        report.append("なし\n");
    }
    report.append("\n## 未完了のタスク\n");
    if any_incomplete(&todos) {
        append_incomplete(&mut report, &todos);
    } else {
        report.append("なし\n");
    }
    if !memo.as_str().is_empty() {
        report.append("\n## メモ\n");
        report.append(memo.as_str());
        report.append("\n");
    }
    proof {
        assert(report@ =~= report_text(ts, date@, memo@));
    }
    Result::Ok(report)
}

} // verus!

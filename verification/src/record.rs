//! The on-disk board record: the shape that the text codec stores and
//! loads. It is distinct from the interactive model in `model`; the
//! bridging between the two is in `bridge`.
use crate::numtext::{dec_digits, usize_to_string};
use vstd::prelude::*;

verus! {

/// The impact / urgency / effort breakdown of a task, each scored 0-10
/// in normal use (any `u8` value is tolerated by the codec).
#[derive(Debug, Clone, Copy, PartialEq, Eq, Structural)]
pub struct Priority {
    pub impact: u8,
    pub urgency: u8,
    pub effort: u8,
}

/// The exact rational value of the priority formula
/// `1 + 9 * (((impact + urgency) / effort - 0.2) / 19.8)`,
/// scaled by one hundred and rounded to the nearest integer
/// (halves round up). The formula simplifies to
/// `5 * (impact + urgency + 2 * effort) / (11 * effort)`.
pub open spec fn computed_hundredths_spec(impact: u8, urgency: u8, effort: u8) -> int {
    (1000 * (impact + urgency + 2 * effort) + 11 * effort) / (22 * effort)
}

impl Priority {
    /// The overall priority on the 1-10 scale, in hundredths,
    /// or `None` when `effort` is zero.
    pub fn computed_hundredths(&self) -> (r: Option<u64>)
        ensures
            self.effort == 0 <==> r is None,
            self.effort != 0 ==> r == Some(
                computed_hundredths_spec(self.impact, self.urgency, self.effort) as u64,
            ),
    {
        if self.effort == 0 {
            None
        } else {
            let num: u64 = 1000 * (self.impact as u64 + self.urgency as u64
                + 2 * self.effort as u64) + 11 * self.effort as u64;
            let den: u64 = 22 * self.effort as u64;
            Some(num / den)
        }
    }
}

/// A single stored task.
#[derive(Debug, Clone)]
pub struct Task {
    pub id: usize,
    pub title: String,
    pub priority: Option<Priority>,
    pub tags: Vec<String>,
    pub created: Option<String>,
}

/// A stored column: a name and its tasks in order.
#[derive(Debug, Clone)]
pub struct Column {
    pub name: String,
    pub tasks: Vec<Task>,
}

/// A stored board: metadata and columns in order.
#[derive(Debug, Clone)]
pub struct Board {
    pub name: String,
    pub date: String,
    pub description: String,
    pub columns: Vec<Column>,
}

/// Mathematical value of a stored task.
#[verifier::ext_equal]
pub struct TaskV {
    pub id: int,
    pub title: Seq<char>,
    pub priority: Option<Priority>,
    pub tags: Seq<Seq<char>>,
    pub created: Option<Seq<char>>,
}

/// Mathematical value of a stored column.
#[verifier::ext_equal]
pub struct ColumnV {
    pub name: Seq<char>,
    pub tasks: Seq<TaskV>,
}

/// Mathematical value of a stored board.
#[verifier::ext_equal]
pub struct BoardV {
    pub name: Seq<char>,
    pub date: Seq<char>,
    pub description: Seq<char>,
    pub columns: Seq<ColumnV>,
}

/// The views of a sequence of tasks.
pub open spec fn tasks_views(ts: Seq<Task>) -> Seq<TaskV> {
    Seq::new(ts.len(), |i: int| ts[i]@)
}

/// The views of a sequence of columns.
pub open spec fn columns_views(cs: Seq<Column>) -> Seq<ColumnV> {
    Seq::new(cs.len(), |i: int| cs[i]@)
}

impl View for Task {
    type V = TaskV;

    open spec fn view(&self) -> TaskV {
        TaskV {
            id: self.id as int,
            title: self.title@,
            priority: self.priority,
            tags: self.tags.deep_view(),
            created: match self.created {
                Some(c) => Some(c@),
                None => None,
            },
        }
    }
}

impl View for Column {
    type V = ColumnV;

    open spec fn view(&self) -> ColumnV {
        ColumnV { name: self.name@, tasks: tasks_views(self.tasks@) }
    }
}

impl View for Board {
    type V = BoardV;

    open spec fn view(&self) -> BoardV {
        BoardV {
            name: self.name@,
            date: self.date@,
            description: self.description@,
            columns: columns_views(self.columns@),
        }
    }
}

/// The index of the first column in `columns` whose name is `name`,
/// or -1 when no column carries it.
pub open spec fn find_column_spec(columns: Seq<ColumnV>, name: Seq<char>) -> int
    decreases columns.len(),
{
    if columns.len() == 0 {
        -1
    } else if columns[0].name == name {
        0
    } else {
        let r = find_column_spec(columns.drop_first(), name);
        if r < 0 {
            -1
        } else {
            1 + r
        }
    }
}

/// The index of the first task in `tasks` whose id is `id`, or -1.
pub open spec fn find_task_spec(tasks: Seq<TaskV>, id: int) -> int
    decreases tasks.len(),
{
    if tasks.len() == 0 {
        -1
    } else if tasks[0].id == id {
        0
    } else {
        let r = find_task_spec(tasks.drop_first(), id);
        if r < 0 {
            -1
        } else {
            1 + r
        }
    }
}

pub proof fn lemma_find_column_bounds(columns: Seq<ColumnV>, name: Seq<char>)
    ensures
        -1 <= find_column_spec(columns, name) < columns.len(),
        find_column_spec(columns, name) >= 0 ==> columns[find_column_spec(columns, name)].name
            == name,
        find_column_spec(columns, name) == -1 ==> forall|i: int|
            0 <= i < columns.len() ==> columns[i].name != name,
        forall|i: int| 0 <= i < find_column_spec(columns, name) ==> columns[i].name != name,
    decreases columns.len(),
{
    if columns.len() > 0 && columns[0].name != name {
        let d = columns.drop_first();
        lemma_find_column_bounds(d, name);
        let r = find_column_spec(columns, name);
        if find_column_spec(d, name) == -1 {
            assert forall|i: int| 0 <= i < columns.len() implies columns[i].name != name by {
                if i > 0 {
                    assert(d[i - 1] == columns[i]);
                }
            }
        } else {
            assert(columns[r] == d[r - 1]);
            assert forall|i: int| 0 <= i < r implies columns[i].name != name by {
                if i > 0 {
                    assert(d[i - 1] == columns[i]);
                }
            }
        }
    }
}

pub proof fn lemma_find_task_bounds(tasks: Seq<TaskV>, id: int)
    ensures
        -1 <= find_task_spec(tasks, id) < tasks.len(),
        find_task_spec(tasks, id) >= 0 ==> tasks[find_task_spec(tasks, id)].id == id,
        find_task_spec(tasks, id) == -1 ==> forall|i: int| 0 <= i < tasks.len() ==> tasks[i].id
            != id,
        forall|i: int| 0 <= i < find_task_spec(tasks, id) ==> tasks[i].id != id,
    decreases tasks.len(),
{
    if tasks.len() > 0 && tasks[0].id != id {
        let d = tasks.drop_first();
        lemma_find_task_bounds(d, id);
        let r = find_task_spec(tasks, id);
        if find_task_spec(d, id) == -1 {
            assert forall|i: int| 0 <= i < tasks.len() implies tasks[i].id != id by {
                if i > 0 {
                    assert(d[i - 1] == tasks[i]);
                }
            }
        } else {
            assert(tasks[r] == d[r - 1]);
            assert forall|i: int| 0 <= i < r implies tasks[i].id != id by {
                if i > 0 {
                    assert(d[i - 1] == tasks[i]);
                }
            }
        }
    }
}

pub proof fn lemma_find_column_first(columns: Seq<ColumnV>, name: Seq<char>, i: int)
    requires
        0 <= i < columns.len(),
        columns[i].name == name,
        forall|k: int| 0 <= k < i ==> columns[k].name != name,
    ensures
        find_column_spec(columns, name) == i,
    decreases columns.len(),
{
    if i > 0 {
        let d = columns.drop_first();
        assert forall|k: int| 0 <= k < i - 1 implies d[k].name != name by {
            assert(d[k] == columns[k + 1]);
        }
        assert(d[i - 1] == columns[i]);
        lemma_find_column_first(d, name, i - 1);
    }
}

proof fn lemma_find_task_first(tasks: Seq<TaskV>, id: int, i: int)
    requires
        0 <= i < tasks.len(),
        tasks[i].id == id,
        forall|k: int| 0 <= k < i ==> tasks[k].id != id,
    ensures
        find_task_spec(tasks, id) == i,
    decreases tasks.len(),
{
    if i > 0 {
        let d = tasks.drop_first();
        assert forall|k: int| 0 <= k < i - 1 implies d[k].id != id by {
            assert(d[k] == tasks[k + 1]);
        }
        assert(d[i - 1] == tasks[i]);
        lemma_find_task_first(d, id, i - 1);
    }
}

/// True when the two string slices hold the same characters.
pub fn str_eq(a: &str, b: &str) -> (r: bool)
    ensures
        r == (a@ == b@),
{
    let la = a.unicode_len();
    let lb = b.unicode_len();
    if la != lb {
        return false;
    }
    let mut i: usize = 0;
    while i < la
        invariant
            la == a@.len(),
            lb == b@.len(),
            la == lb,
            i <= la,
            forall|j: int| 0 <= j < i ==> a@[j] == b@[j],
        decreases la - i,
    {
        if a.get_char(i) != b.get_char(i) {
            return false;
        }
        i += 1;
    }
    proof {
        assert(a@ =~= b@);
    }
    true
}

/// `prefix + middle + suffix` as one owned string.
pub fn concat_strs(prefix: &str, middle: &str, suffix: &str) -> (r: String)
    ensures
        r@ == prefix@ + middle@ + suffix@,
{
    let mut s = prefix.to_owned();
    s.append(middle);
    s.append(suffix);
    s
}

/// The message for a column that was not found.
fn column_not_found(column_name: &str) -> (r: String)
    ensures
        r@ == "Column '"@ + column_name@ + "' not found"@,
{
    concat_strs("Column '", column_name, "' not found")
}

/// The message for a task id that was not found in a column.
fn task_not_found(task_id: usize, column_name: &str) -> (r: String)
    ensures
        r@ == "Task with id "@ + dec_digits(task_id as nat) + " not found in column '"@
            + column_name@ + "'"@,
{
    let mut s = "Task with id ".to_owned();
    let digits = usize_to_string(task_id);
    s.append(digits.as_str());
    s.append(" not found in column '");
    s.append(column_name);
    s.append("'");
    proof {
        assert(s@ =~= "Task with id "@ + dec_digits(task_id as nat) + " not found in column '"@
            + column_name@ + "'"@);
    }
    s
}

impl Board {
    /// A fresh board with the given metadata and no columns.
    pub fn new(name: &str, date: &str, description: &str) -> (r: Board)
        ensures
            r@.name == name@,
            r@.date == date@,
            r@.description == description@,
            r@.columns == Seq::<ColumnV>::empty(),
    {
        let b = Board {
            name: name.to_owned(),
            date: date.to_owned(),
            description: description.to_owned(),
            columns: Vec::new(),
        };
        proof {
            assert(b@.columns =~= Seq::<ColumnV>::empty());
        }
        b
    }

    /// Appends an empty column named `column_name`.
    pub fn add_column(&mut self, column_name: &str)
        ensures
            final(self)@.columns == old(self)@.columns.push(
                ColumnV { name: column_name@, tasks: Seq::empty() },
            ),
            final(self)@.name == old(self)@.name,
            final(self)@.date == old(self)@.date,
            final(self)@.description == old(self)@.description,
    {
        self.columns.push(Column { name: column_name.to_owned(), tasks: Vec::new() });
        proof {
            assert(tasks_views(Seq::<Task>::empty()) =~= Seq::<TaskV>::empty());
            assert(self@.columns =~= old(self)@.columns.push(
                ColumnV { name: column_name@, tasks: Seq::empty() },
            ));
        }
    }

    /// Appends `task` to the first column named `column_name`; an error
    /// names the column when none carries that name.
    pub fn add_task(&mut self, column_name: &str, task: Task) -> (r: Result<(), String>)
        ensures
            r is Ok <==> find_column_spec(old(self)@.columns, column_name@) >= 0,
            r is Ok ==> {
                let j = find_column_spec(old(self)@.columns, column_name@);
                final(self)@.columns == old(self)@.columns.update(
                    j,
                    ColumnV {
                        name: old(self)@.columns[j].name,
                        tasks: old(self)@.columns[j].tasks.push(task@),
                    },
                )
            },
            r is Err ==> *final(self) == *old(self),
            r matches Err(m) ==> m@ == "Column '"@ + column_name@ + "' not found"@,
            final(self)@.name == old(self)@.name,
            final(self)@.date == old(self)@.date,
            final(self)@.description == old(self)@.description,
    {
        let n = self.columns.len();
        let mut i: usize = 0;
        while i < n
            invariant
                n == self.columns.len(),
                i <= n,
                self == old(self),
                forall|k: int| 0 <= k < i ==> old(self)@.columns[k].name != column_name@,
            decreases n - i,
        {
            if str_eq(self.columns[i].name.as_str(), column_name) {
                proof {
                    lemma_find_column_first(self@.columns, column_name@, i as int);
                }
                let ghost old_cols = self@.columns;
                let col = &mut self.columns[i];
                col.tasks.push(task);
                proof {
                    assert(tasks_views(old(self).columns@[i as int].tasks@.push(task)) =~= old_cols[
                        i as int
                    ].tasks.push(task@));
                    assert(self@.columns =~= old_cols.update(
                        i as int,
                        ColumnV {
                            name: old_cols[i as int].name,
                            tasks: old_cols[i as int].tasks.push(task@),
                        },
                    ));
                }
                return Ok(());
            }
            i += 1;
        }
        proof {
            lemma_find_column_bounds(self@.columns, column_name@);
        }
        Err(column_not_found(column_name))
    }

    /// Replaces the first task with id `task_id` in the first column named
    /// `column_name` by `updated_task`; an error reports whichever of the
    /// two was not found.
    pub fn update_task(&mut self, column_name: &str, task_id: usize, updated_task: Task) -> (r:
        Result<(), String>)
        ensures
            ({
                let j = find_column_spec(old(self)@.columns, column_name@);
                &&& (r is Ok <==> j >= 0 && find_task_spec(
                    old(self)@.columns[j].tasks,
                    task_id as int,
                ) >= 0)
                &&& (r is Ok ==> {
                    let k = find_task_spec(old(self)@.columns[j].tasks, task_id as int);
                    final(self)@.columns == old(self)@.columns.update(
                        j,
                        ColumnV {
                            name: old(self)@.columns[j].name,
                            tasks: old(self)@.columns[j].tasks.update(k, updated_task@),
                        },
                    )
                })
            }),
            r is Err ==> *final(self) == *old(self),
            r matches Err(m) ==> m@ == (if find_column_spec(old(self)@.columns, column_name@)
                >= 0 {
                "Task with id "@ + dec_digits(task_id as nat) + " not found in column '"@
                    + column_name@ + "'"@
            } else {
                "Column '"@ + column_name@ + "' not found"@
            }),
            final(self)@.name == old(self)@.name,
            final(self)@.date == old(self)@.date,
            final(self)@.description == old(self)@.description,
    {
        let n = self.columns.len();
        let mut i: usize = 0;
        while i < n
            invariant
                n == self.columns.len(),
                i <= n,
                self == old(self),
                forall|k: int| 0 <= k < i ==> old(self)@.columns[k].name != column_name@,
            decreases n - i,
        {
            if str_eq(self.columns[i].name.as_str(), column_name) {
                proof {
                    lemma_find_column_first(self@.columns, column_name@, i as int);
                }
                let ghost old_cols = self@.columns;
                let m = self.columns[i].tasks.len();
                let mut t: usize = 0;
                while t < m
                    invariant
                        i < self.columns.len(),
                        m == self@.columns[i as int].tasks.len(),
                        t <= m,
                        self == old(self),
                        old_cols == self@.columns,
                        find_column_spec(old(self)@.columns, column_name@) == i as int,
                        forall|k: int|
                            0 <= k < t ==> old_cols[i as int].tasks[k].id != task_id as int,
                    decreases m - t,
                {
                    if self.columns[i].tasks[t].id == task_id {
                        proof {
                            lemma_find_task_first(old_cols[i as int].tasks, task_id as int, t as int);
                        }
                        let col = &mut self.columns[i];
                        col.tasks[t] = updated_task;
                        proof {
                            assert(tasks_views(
                                old(self).columns@[i as int].tasks@.update(t as int, updated_task),
                            ) =~= old_cols[i as int].tasks.update(t as int, updated_task@));
                            assert(self@.columns =~= old_cols.update(
                                i as int,
                                ColumnV {
                                    name: old_cols[i as int].name,
                                    tasks: old_cols[i as int].tasks.update(t as int, updated_task@),
                                },
                            ));
                        }
                        return Ok(());
                    }
                    t += 1;
                }
                proof {
                    lemma_find_task_bounds(old_cols[i as int].tasks, task_id as int);
                }
                return Err(task_not_found(task_id, column_name));
            }
            i += 1;
        }
        proof {
            lemma_find_column_bounds(self@.columns, column_name@);
        }
        Err(column_not_found(column_name))
    }

    /// Removes every task with id `task_id` from the first column named
    /// `column_name`; an error reports whichever was not found.
    pub fn delete_task(&mut self, column_name: &str, task_id: usize) -> (r: Result<(), String>)
        ensures
            ({
                let j = find_column_spec(old(self)@.columns, column_name@);
                &&& (r is Ok <==> j >= 0 && find_task_spec(
                    old(self)@.columns[j].tasks,
                    task_id as int,
                ) >= 0)
                &&& (r is Ok ==> final(self)@.columns == old(self)@.columns.update(
                    j,
                    ColumnV {
                        name: old(self)@.columns[j].name,
                        tasks: old(self)@.columns[j].tasks.filter(
                            |t: TaskV| t.id != task_id as int,
                        ),
                    },
                ))
            }),
            r is Err ==> *final(self) == *old(self),
            r matches Err(m) ==> m@ == (if find_column_spec(old(self)@.columns, column_name@)
                >= 0 {
                "Task with id "@ + dec_digits(task_id as nat) + " not found in column '"@
                    + column_name@ + "'"@
            } else {
                "Column '"@ + column_name@ + "' not found"@
            }),
            final(self)@.name == old(self)@.name,
            final(self)@.date == old(self)@.date,
            final(self)@.description == old(self)@.description,
    {
        let n = self.columns.len();
        let mut i: usize = 0;
        while i < n
            invariant
                n == self.columns.len(),
                i <= n,
                self == old(self),
                forall|k: int| 0 <= k < i ==> old(self)@.columns[k].name != column_name@,
            decreases n - i,
        {
            if str_eq(self.columns[i].name.as_str(), column_name) {
                proof {
                    lemma_find_column_first(self@.columns, column_name@, i as int);
                }
                let ghost old_cols = self@.columns;
                let ghost orig = old_cols[i as int].tasks;
                let ghost keep = |tv: TaskV| tv.id != task_id as int;
                let mut t: usize = 0;
                let ghost mut j: int = 0;
                let mut removed = false;
                proof {
                    assert(orig.subrange(0, 0) =~= Seq::<TaskV>::empty());
                    lemma_filter_empty(keep);
                    assert(tasks_views(self.columns@[i as int].tasks@) =~= orig.subrange(
                        0,
                        0,
                    ).filter(keep) + orig.subrange(0, orig.len() as int));
                }
                while t < self.columns[i].tasks.len()
                    invariant
                        i < self.columns.len(),
                        self.columns.len() == old(self).columns.len(),
                        0 <= j <= orig.len(),
                        t as int == orig.subrange(0, j).filter(keep).len(),
                        tasks_views(self.columns@[i as int].tasks@) == orig.subrange(0, j).filter(
                            keep,
                        ) + orig.subrange(j, orig.len() as int),
                        self.columns@[i as int].name == old(self).columns@[i as int].name,
                        self.name == old(self).name,
                        self.date == old(self).date,
                        self.description == old(self).description,
                        forall|k: int|
                            0 <= k < self.columns.len() && k != i ==> self.columns@[k]
                                == old(self).columns@[k],
                        old_cols == columns_views(old(self).columns@),
                        orig == old_cols[i as int].tasks,
                        keep == (|tv: TaskV| tv.id != task_id as int),
                        removed <==> exists|k: int| 0 <= k < j && orig[k].id == task_id as int,
                        !removed ==> self == old(self),
                    decreases orig.len() - j,
                {
                    let ghost cur = tasks_views(self.columns@[i as int].tasks@);
                    let ghost prefix = orig.subrange(0, j);
                    let ghost prefix1 = orig.subrange(0, j + 1);
                    proof {
                        lemma_filter_len_le(prefix, keep);
                        assert(j < orig.len());
                        assert(prefix1.drop_last() =~= prefix);
                        lemma_filter_step(prefix1, keep);
                        assert(cur[t as int] == orig[j]);
                    }
                    if self.columns[i].tasks[t].id == task_id {
                        let col = &mut self.columns[i];
                        col.tasks.remove(t);
                        removed = true;
                        proof {
                            assert(!keep(orig[j]));
                            assert(tasks_views(self.columns@[i as int].tasks@) =~= cur.remove(
                                t as int,
                            ));
                            assert(cur.remove(t as int) =~= prefix1.filter(keep) + orig.subrange(
                                j + 1,
                                orig.len() as int,
                            ));
                            j = j + 1;
                        }
                    } else {
                        proof {
                            assert(keep(orig[j]));
                            assert(prefix1.filter(keep) == prefix.filter(keep).push(orig[j]));
                            assert(cur =~= prefix1.filter(keep) + orig.subrange(
                                j + 1,
                                orig.len() as int,
                            ));
                            j = j + 1;
                        }
                        t += 1;
                    }
                }
                proof {
                    assert(j == orig.len());
                    assert(orig.subrange(0, j) =~= orig);
                    assert(orig.subrange(j, orig.len() as int) =~= Seq::<TaskV>::empty());
                    assert(tasks_views(self.columns@[i as int].tasks@) =~= orig.filter(keep));
                    lemma_find_task_bounds(orig, task_id as int);
                    assert(self@.columns =~= old_cols.update(
                        i as int,
                        ColumnV { name: old_cols[i as int].name, tasks: orig.filter(keep) },
                    ));
                }
                if removed {
                    return Ok(());
                } else {
                    return Err(task_not_found(task_id, column_name));
                }
            }
            i += 1;
        }
        proof {
            lemma_find_column_bounds(self@.columns, column_name@);
        }
        Err(column_not_found(column_name))
    }
}

/// Filtering the empty sequence gives the empty sequence.
proof fn lemma_filter_empty(pred: spec_fn(TaskV) -> bool)
    ensures
        Seq::<TaskV>::empty().filter(pred) == Seq::<TaskV>::empty(),
{
    reveal(Seq::filter);
    assert(Seq::<TaskV>::empty().filter(pred) =~= Seq::<TaskV>::empty());
}

/// One unfolding of `Seq::filter`.
proof fn lemma_filter_step(s: Seq<TaskV>, pred: spec_fn(TaskV) -> bool)
    requires
        s.len() > 0,
    ensures
        pred(s.last()) ==> s.filter(pred) == s.drop_last().filter(pred).push(s.last()),
        !pred(s.last()) ==> s.filter(pred) == s.drop_last().filter(pred),
{
    reveal(Seq::filter);
}

/// Filtering cannot lengthen a sequence.
proof fn lemma_filter_len_le(s: Seq<TaskV>, pred: spec_fn(TaskV) -> bool)
    ensures
        s.filter(pred).len() <= s.len(),
    decreases s.len(),
{
    reveal(Seq::filter);
    if s.len() > 0 {
        lemma_filter_len_le(s.drop_last(), pred);
    }
}

/// A filter that keeps every element changes nothing.
proof fn lemma_filter_all_kept(s: Seq<TaskV>, pred: spec_fn(TaskV) -> bool)
    requires
        forall|k: int| 0 <= k < s.len() ==> pred(s[k]),
    ensures
        s.filter(pred) == s,
    decreases s.len(),
{
    reveal(Seq::filter);
    if s.len() > 0 {
        assert(forall|k: int| 0 <= k < s.drop_last().len() ==> s.drop_last()[k] == s[k]);
        lemma_filter_all_kept(s.drop_last(), pred);
        assert(s.filter(pred) =~= s.drop_last().filter(pred).push(s.last()));
        assert(s.drop_last().push(s.last()) =~= s);
    }
}

} // verus!

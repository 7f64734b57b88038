//! The lossy bridge between the interactive board and the stored
//! record: saving assigns the stored defaults (urgency 5, effort 3, a
//! derived id, today's date), loading keeps only the impact as the
//! interactive priority and re-finds the active column by its title.
use crate::codec::{board_text, parse_board_spec};
use crate::model::{App, Column, InputMode, Task};
use crate::record::{
    find_column_spec, lemma_find_column_bounds, Board, BoardV, ColumnV, Priority, TaskV,
    columns_views, str_eq, tasks_views,
};
use vstd::prelude::*;

verus! {

/// One step of the stored id: the running value times 31 plus the next
/// byte, wrapping.
pub open spec fn id_step(acc: usize, b: u8) -> usize {
    vstd::wrapping::usize_specs::wrapping_add(
        vstd::wrapping::usize_specs::wrapping_mul(acc, 31),
        b as usize,
    )
}

/// The stored id of a title: a wrapping fold of its bytes. It is a
/// transient key for one save, not a unique identity.
pub open spec fn title_id(bytes: Seq<u8>) -> usize
    decreases bytes.len(),
{
    if bytes.len() == 0 {
        0
    } else {
        id_step(title_id(bytes.drop_last()), bytes.last())
    }
}

/// The id a task's title folds to.
pub fn task_to_id(task: &Task) -> (r: usize)
    ensures
        r == title_id(vstd::utf8::encode_utf8(task.title@)),
{
    let bs = task.title.as_str().as_bytes();
    let n = bs.len();
    let mut acc: usize = 0;
    let mut i: usize = 0;
    while i < n
        invariant
            n == bs@.len(),
            i <= n,
            acc == title_id(bs@.subrange(0, i as int)),
        decreases n - i,
    {
        let ghost pre = bs@.subrange(0, i as int);
        let ghost pre1 = bs@.subrange(0, i + 1);
        proof {
            assert(pre1.drop_last() =~= pre);
            assert(pre1.last() == bs@[i as int]);
        }
        acc = acc.wrapping_mul(31).wrapping_add(bs[i] as usize);
        i += 1;
    }
    proof {
        assert(bs@.subrange(0, n as int) =~= bs@);
    }
    acc
}

/// The stored priority impact: the task's own value, or 5.
pub open spec fn impact_or_default(p: Option<u8>) -> u8 {
    match p {
        Some(v) => v,
        None => 5,
    }
}

/// The stored record a board saves as on `date`: every column and task
/// by title, urgency 5 and effort 3 throughout, no tags, every task
/// created on `date`.
pub open spec fn backend_of(app: App, date: Seq<char>) -> BoardV {
    BoardV {
        name: app.title@,
        date,
        description: "TUI Kanban Board"@,
        columns: Seq::new(
            app.columns@.len(),
            |i: int|
                ColumnV {
                    name: app.columns@[i].title@,
                    tasks: Seq::new(
                        app.columns@[i].tasks@.len(),
                        |j: int|
                            TaskV {
                                id: title_id(
                                    vstd::utf8::encode_utf8(app.columns@[i].tasks@[j].title@),
                                ) as int,
                                title: app.columns@[i].tasks@[j].title@,
                                priority: Some(
                                    Priority {
                                        impact: impact_or_default(
                                            app.columns@[i].tasks@[j].priority,
                                        ),
                                        urgency: 5,
                                        effort: 3,
                                    },
                                ),
                                tags: Seq::empty(),
                                created: Some(date),
                            },
                    ),
                },
        ),
    }
}

/// How a board looks after it took a stored record in: columns and
/// tasks rebuilt from the record (only the impact survives as the
/// interactive priority), the active column re-found by its old title
/// or clamped, and only the active column's first task selected. The
/// input mode is the caller's to state: rebuilding keeps it, a load
/// returns to the normal mode.
pub open spec fn rebuilt_from(pre: App, post: App, b: BoardV) -> bool {
    let prev = if pre.columns.len() > 0 && pre.active_column < pre.columns.len() {
        Some(pre.columns@[pre.active_column as int].title@)
    } else {
        None
    };
    let f = match prev {
        Some(nm) => find_column_spec(b.columns, nm),
        None => -1,
    };
    let active: int = if f >= 0 {
        f
    } else if b.columns.len() == 0 {
        0
    } else if pre.active_column >= b.columns.len() {
        b.columns.len() - 1
    } else {
        pre.active_column as int
    };
    &&& post.columns.len() == b.columns.len()
    &&& post.active_column == active
    &&& forall|i: int|
        0 <= i < b.columns.len() ==> {
            let c = #[trigger] post.columns@[i];
            &&& c.title@ == b.columns[i].name
            &&& c.tasks@.len() == b.columns[i].tasks.len()
            &&& (forall|j: int|
                0 <= j < b.columns[i].tasks.len() ==> {
                    let t = #[trigger] c.tasks@[j];
                    &&& t.title@ == b.columns[i].tasks[j].title
                    &&& t.description is None
                    &&& t.priority == (match b.columns[i].tasks[j].priority {
                        Some(p) => Some(p.impact),
                        None => None,
                    })
                })
            &&& c.selected_task == (if i == active && b.columns[i].tasks.len() > 0 {
                Some(0usize)
            } else {
                None
            })
        }
    &&& post.title == pre.title
    &&& post.input_text == pre.input_text
    &&& post.file_path == pre.file_path
    &&& post.base_dir == pre.base_dir
    &&& post.available_boards == pre.available_boards
    &&& post.selected_board_index == pre.selected_board_index
    &&& post.pending_chord == pre.pending_chord
    &&& post.scroll_offset == pre.scroll_offset
    &&& post.start_index == pre.start_index
}

/// Relies on chrono's local clock and `%Y-%m-%d` formatting for
/// today's date; nothing is assumed of the value.
#[verifier::external_body]
fn today_string() -> String {
    chrono::Local::now().format("%Y-%m-%d").to_string()
}

impl App {
    /// The stored record this board saves as on `date`.
    pub fn to_backend_board(&self, date: &str) -> (r: Board)
        ensures
            r@ == backend_of(*self, date@),
    {
        let mut columns: Vec<crate::record::Column> = Vec::new();
        let ncols = self.columns.len();
        let mut i: usize = 0;
        while i < ncols
            invariant
                ncols == self.columns.len(),
                i <= ncols,
                columns_views(columns@) =~~= backend_of(*self, date@).columns.subrange(
                    0,
                    i as int,
                ),
            decreases ncols - i,
        {
            let src = &self.columns[i];
            let mut tasks: Vec<crate::record::Task> = Vec::new();
            let ntasks = src.tasks.len();
            let mut j: usize = 0;
            while j < ntasks
                invariant
                    ncols == self.columns.len(),
                    i < ncols,
                    *src == self.columns@[i as int],
                    ntasks == src.tasks.len(),
                    j <= ntasks,
                    tasks_views(tasks@) =~~= backend_of(*self, date@).columns[i as int].tasks.subrange(
                        0,
                        j as int,
                    ),
                decreases ntasks - j,
            {
                let t = &src.tasks[j];
                let impact = match t.priority {
                    Some(v) => v,
                    None => 5,
                };
                let id = task_to_id(t);
                let ghost old_tasks = tasks_views(tasks@);
                tasks.push(
                    crate::record::Task {
                        id,
                        title: t.title.clone(),
                        priority: Some(Priority { impact, urgency: 5, effort: 3 }),
                        tags: Vec::new(),
                        created: Some(date.to_owned()),
                    },
                );
                proof {
                    assert(tasks_views(tasks@) =~~= old_tasks.push(
                        backend_of(*self, date@).columns[i as int].tasks[j as int],
                    ));
                    assert(tasks_views(tasks@) =~~= backend_of(
                        *self,
                        date@,
                    ).columns[i as int].tasks.subrange(0, j + 1));
                }
                j += 1;
            }
            let ghost old_cols = columns_views(columns@);
            columns.push(crate::record::Column { name: src.title.clone(), tasks });
            proof {
                assert(backend_of(*self, date@).columns[i as int].tasks.subrange(
                    0,
                    ntasks as int,
                ) =~= backend_of(*self, date@).columns[i as int].tasks);
                assert(columns_views(columns@) =~= old_cols.push(
                    backend_of(*self, date@).columns[i as int],
                ));
                assert(columns_views(columns@) =~~= backend_of(*self, date@).columns.subrange(
                    0,
                    i + 1,
                ));
            }
            i += 1;
        }
        let b = Board {
            name: self.title.clone(),
            date: date.to_owned(),
            description: "TUI Kanban Board".to_owned(),
            columns,
        };
        proof {
            assert(backend_of(*self, date@).columns.subrange(0, ncols as int) =~= backend_of(
                *self,
                date@,
            ).columns);
            assert(b@ =~~= backend_of(*self, date@));
        }
        b
    }

    /// Takes a stored record in, as `rebuilt_from` describes, keeping
    /// the input mode.
    pub fn update_from_backend_board(&mut self, board: Board)
        requires
            old(self).wf(),
        ensures
            final(self).wf(),
            rebuilt_from(*old(self), *final(self), board@),
            final(self).input_mode == old(self).input_mode,
    {
        let ghost bv = board@;
        let ncols = board.columns.len();
        // re-find the active column by the current title, else clamp
        let mut active: usize = self.active_column;
        let mut found = false;
        if self.columns.len() > 0 {
            let a = self.active_column;
            let name = self.columns[a].title.as_str();
            let mut k: usize = 0;
            while k < ncols && !found
                invariant
                    ncols == board.columns.len(),
                    bv == board@,
                    k <= ncols,
                    name@ == old(self).columns@[old(self).active_column as int].title@,
                    !found ==> forall|m: int| 0 <= m < k ==> bv.columns[m].name != name@,
                    found ==> active < ncols && bv.columns[active as int].name == name@ && (
                    forall|m: int| 0 <= m < active ==> bv.columns[m].name != name@),
                decreases ncols - k + (if found {
                    0int
                } else {
                    1int
                }),
            {
                if str_eq(board.columns[k].name.as_str(), name) {
                    active = k;
                    found = true;
                } else {
                    k += 1;
                }
            }
            proof {
                let nm = old(self).columns@[old(self).active_column as int].title@;
                lemma_find_column_bounds(bv.columns, nm);
                if found {
                    crate::record::lemma_find_column_first(bv.columns, nm, active as int);
                }
            }
        }
        if !found {
            active = self.active_column;
            if ncols == 0 {
                active = 0;
            } else if active >= ncols {
                active = ncols - 1;
            }
        }
        // rebuild the columns from the record, selecting the active
        // column's first task
        let mut cols: Vec<Column> = Vec::new();
        let mut i: usize = 0;
        while i < ncols
            invariant
                ncols == board.columns.len(),
                bv == board@,
                i <= ncols,
                cols.len() == i,
                forall|k: int|
                    0 <= k < i ==> {
                        let c = #[trigger] cols@[k];
                        &&& c.title@ == bv.columns[k].name
                        &&& c.tasks@.len() == bv.columns[k].tasks.len()
                        &&& (forall|j: int|
                            0 <= j < bv.columns[k].tasks.len() ==> {
                                let t = #[trigger] c.tasks@[j];
                                &&& t.title@ == bv.columns[k].tasks[j].title
                                &&& t.description is None
                                &&& t.priority == (match bv.columns[k].tasks[j].priority {
                                    Some(p) => Some(p.impact),
                                    None => None,
                                })
                            })
                        &&& c.selected_task == (if k == active && bv.columns[k].tasks.len() > 0 {
                            Some(0usize)
                        } else {
                            None
                        })
                    },
            decreases ncols - i,
        {
            let src = &board.columns[i];
            let mut tasks: Vec<Task> = Vec::new();
            let ntasks = src.tasks.len();
            let mut j: usize = 0;
            while j < ntasks
                invariant
                    ncols == board.columns.len(),
                    i < ncols,
                    bv == board@,
                    *src == board.columns@[i as int],
                    ntasks == src.tasks.len(),
                    j <= ntasks,
                    tasks.len() == j,
                    forall|m: int|
                        0 <= m < j ==> {
                            let t = #[trigger] tasks@[m];
                            &&& t.title@ == bv.columns[i as int].tasks[m].title
                            &&& t.description is None
                            &&& t.priority == (match bv.columns[i as int].tasks[m].priority {
                                Some(p) => Some(p.impact),
                                None => None,
                            })
                        },
                decreases ntasks - j,
            {
                let bt = &src.tasks[j];
                let priority: Option<u8> = match &bt.priority {
                    Some(p) => Some(p.impact),
                    None => None,
                };
                tasks.push(Task { title: bt.title.clone(), description: None, priority });
                j += 1;
            }
            let sel: Option<usize> = if i == active && tasks.len() > 0 {
                Some(0)
            } else {
                None
            };
            cols.push(Column { title: src.name.clone(), tasks, selected_task: sel });
            i += 1;
        }
        self.columns = cols;
        self.active_column = active;
    }

    /// The stored text this board saves as today, or an error when no
    /// file path is set. The caller writes the text to the file.
    pub fn save_board(&self) -> (r: Result<String, String>)
        ensures
            r is Ok <==> self.file_path is Some,
            r matches Ok(text) ==> exists|d: Seq<char>| text@ == board_text(
                #[trigger] backend_of(*self, d),
            ),
            r matches Err(m) ==> m@ == "No file path set"@,
    {
        match &self.file_path {
            Some(_) => {
                let date = today_string();
                let b = self.to_backend_board(date.as_str());
                let text = b.to_text();
                proof {
                    assert(text@ == board_text(backend_of(*self, date@)));
                }
                Ok(text)
            },
            None => Err("No file path set".to_owned()),
        }
    }

    /// The stored text this board saves as on the given date.
    pub fn save_board_text(&self, date: &str) -> (r: Result<String, String>)
        ensures
            r is Ok <==> self.file_path is Some,
            r matches Ok(text) ==> text@ == board_text(backend_of(*self, date@)),
            r matches Err(m) ==> m@ == "No file path set"@,
    {
        match &self.file_path {
            Some(_) => {
                let b = self.to_backend_board(date);
                Ok(b.to_text())
            },
            None => Err("No file path set".to_owned()),
        }
    }

    /// Takes a board file's text in: the text is read as a stored
    /// record, tolerantly, the board rebuilt from it as `rebuilt_from`
    /// describes, and the normal mode entered.
    pub fn load_board(&mut self, text: &str)
        requires
            old(self).wf(),
        ensures
            final(self).wf(),
            rebuilt_from(*old(self), *final(self), parse_board_spec(text@)),
            final(self).input_mode is Normal,
    {
        let b = Board::from_text(text);
        self.update_from_backend_board(b);
        self.input_mode = InputMode::Normal;
    }
}

} // verus!

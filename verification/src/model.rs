//! The interactive board: columns of tasks, the active column, the
//! selection, and every editing operation the modal interface offers.
//! Persistence is not done here: the caller renders the board to text
//! through `bridge` after a structural change.
use crate::numtext::dec_digits;
use crate::record::str_eq;
use vstd::prelude::*;

verus! {

/// A task as the interface holds it.
#[derive(Debug, Clone)]
pub struct Task {
    pub title: String,
    pub description: Option<String>,
    pub priority: Option<u8>,
}

/// A column as the interface holds it. Only the active column may
/// carry a selection.
#[derive(Debug, Clone)]
pub struct Column {
    pub title: String,
    pub tasks: Vec<Task>,
    pub selected_task: Option<usize>,
}

/// The modal input states.
#[derive(Debug, Clone, Copy, PartialEq, Eq, Structural)]
pub enum InputMode {
    Normal,
    AddingColumn,
    AddingTask,
    RenamingColumn,
    RenamingTask,
    MoveMode,
    ConfirmDeleteColumn,
    BoardSelection,
    AddingBoard,
    ColumnSelectionMode,
    JumpToColumnMode,
    JumpToTaskMode,
}

/// The whole interactive state.
#[derive(Debug)]
pub struct App {
    pub title: String,
    pub columns: Vec<Column>,
    pub active_column: usize,
    pub scroll_offset: usize,
    pub input_mode: InputMode,
    pub input_text: String,
    pub start_index: usize,
    pub file_path: Option<String>,
    pub base_dir: Option<String>,
    pub available_boards: Vec<String>,
    pub selected_board_index: Option<usize>,
    pub pending_chord: Option<char>,
}

/// The sum of the task counts of all columns.
pub open spec fn total_tasks(cols: Seq<Column>) -> nat
    decreases cols.len(),
{
    if cols.len() == 0 {
        0
    } else {
        (cols[0].tasks.len() + total_tasks(cols.drop_first())) as nat
    }
}

/// The number of tasks before task `t` of column `c` in reading order
/// (columns in order, tasks in order inside each).
pub open spec fn flat_index(cols: Seq<Column>, c: int, t: int) -> int {
    total_tasks(cols.subrange(0, c)) + t
}

/// The fields no board-editing operation touches: the board title, the
/// scroll state, the persistence paths, the board list and its
/// highlight, and the pending chord.
pub open spec fn rest_unchanged(pre: App, post: App) -> bool {
    &&& post.title == pre.title
    &&& post.scroll_offset == pre.scroll_offset
    &&& post.start_index == pre.start_index
    &&& post.file_path == pre.file_path
    &&& post.base_dir == pre.base_dir
    &&& post.available_boards == pre.available_boards
    &&& post.selected_board_index == pre.selected_board_index
    &&& post.pending_chord == pre.pending_chord
}

impl App {
    /// The structural soundness of the state: the active column is in
    /// range when columns exist, no other column carries a selection,
    /// and every selection points at a task.
    pub open spec fn wf(self) -> bool {
        &&& self.columns.len() > 0 ==> self.active_column < self.columns.len()
        &&& self.columns.len() == 0 ==> self.active_column == 0
        &&& forall|i: int|
            0 <= i < self.columns.len() && i != self.active_column
                ==> (#[trigger] self.columns@[i]).selected_task is None
        &&& forall|i: int|
            0 <= i < self.columns.len() ==> ((#[trigger] self.columns@[i]).selected_task matches
            Some(t) ==> t < self.columns@[i].tasks.len())
    }

    /// A fresh board: one "To Do" column with two seed tasks, the first
    /// selected, opened in the board-selection screen.
    pub fn new(title: &str) -> (r: App)
        ensures
            r.wf(),
            r.title@ == title@,
            r.columns.len() == 1,
            r.columns@[0].title@ == "To Do"@,
            r.columns@[0].tasks.len() == 2,
            r.columns@[0].tasks@[0].title@ == "Implement UI"@,
            r.columns@[0].tasks@[1].title@ == "Add task functionality"@,
            r.columns@[0].tasks@[0].description is None,
            r.columns@[0].tasks@[1].description is None,
            r.columns@[0].tasks@[0].priority == Some(5u8),
            r.columns@[0].tasks@[1].priority == Some(5u8),
            r.columns@[0].selected_task == Some(0usize),
            r.active_column == 0,
            r.scroll_offset == 0,
            r.start_index == 0,
            r.input_mode is BoardSelection,
            r.input_text@.len() == 0,
            r.file_path is None,
            r.base_dir is None,
            r.available_boards.len() == 0,
            r.selected_board_index == Some(0usize),
            r.pending_chord is None,
    {
        let mut tasks: Vec<Task> = Vec::new();
        tasks.push(
            Task { title: "Implement UI".to_owned(), description: None, priority: Some(5) },
        );
        tasks.push(
            Task {
                title: "Add task functionality".to_owned(),
                description: None,
                priority: Some(5),
            },
        );
        let mut columns: Vec<Column> = Vec::new();
        columns.push(Column { title: "To Do".to_owned(), tasks, selected_task: Some(0) });
        App {
            title: title.to_owned(),
            columns,
            active_column: 0,
            scroll_offset: 0,
            input_mode: InputMode::BoardSelection,
            input_text: String::new(),
            start_index: 0,
            file_path: None,
            base_dir: None,
            available_boards: Vec::new(),
            selected_board_index: Some(0),
            pending_chord: None,
        }
    }

    /// Takes the selection away from every column but the active one.
    pub fn clear_other_selections(&mut self)
        requires
            old(self).columns.len() > 0 ==> old(self).active_column < old(self).columns.len(),
        ensures
            final(self).columns.len() == old(self).columns.len(),
            forall|i: int|
                0 <= i < old(self).columns.len() && i != old(self).active_column ==> {
                    let c = #[trigger] final(self).columns@[i];
                    c.title == old(self).columns@[i].title && c.tasks == old(
                        self,
                    ).columns@[i].tasks && c.selected_task is None
                },
            old(self).columns.len() > 0 ==> final(self).columns@[old(self).active_column as int]
                == old(self).columns@[old(self).active_column as int],
            final(self).title == old(self).title,
            final(self).active_column == old(self).active_column,
            final(self).scroll_offset == old(self).scroll_offset,
            final(self).input_mode == old(self).input_mode,
            final(self).input_text == old(self).input_text,
            final(self).start_index == old(self).start_index,
            final(self).file_path == old(self).file_path,
            final(self).base_dir == old(self).base_dir,
            final(self).available_boards == old(self).available_boards,
            final(self).selected_board_index == old(self).selected_board_index,
            final(self).pending_chord == old(self).pending_chord,
    {
        let n = self.columns.len();
        let mut i: usize = 0;
        while i < n
            invariant
                n == self.columns.len(),
                i <= n,
                self.active_column == old(self).active_column,
                n == old(self).columns.len(),
                forall|k: int|
                    i <= k < n ==> #[trigger] self.columns@[k] == old(self).columns@[k],
                forall|k: int|
                    0 <= k < i && k != old(self).active_column ==> {
                        let c = #[trigger] self.columns@[k];
                        c.title == old(self).columns@[k].title && c.tasks == old(
                            self,
                        ).columns@[k].tasks && c.selected_task is None
                    },
                forall|k: int|
                    0 <= k < i && k == old(self).active_column ==> #[trigger] self.columns@[k]
                        == old(self).columns@[k],
                self.title == old(self).title,
                self.scroll_offset == old(self).scroll_offset,
                self.input_mode == old(self).input_mode,
                self.input_text == old(self).input_text,
                self.start_index == old(self).start_index,
                self.file_path == old(self).file_path,
                self.base_dir == old(self).base_dir,
                self.available_boards == old(self).available_boards,
                self.selected_board_index == old(self).selected_board_index,
                self.pending_chord == old(self).pending_chord,
            decreases n - i,
        {
            if i != self.active_column {
                let col = &mut self.columns[i];
                col.selected_task = None;
            }
            i += 1;
        }
    }

    /// Moves the active column one to the left; at the first column
    /// nothing happens. On a move, only the new active column keeps its
    /// selection.
    pub fn select_prev_column(&mut self)
        requires
            old(self).wf(),
        ensures
            final(self).wf(),
            rest_unchanged(*old(self), *final(self)),
            final(self).input_text == old(self).input_text,
            final(self).input_mode == old(self).input_mode,
            old(self).active_column == 0 ==> *final(self) == *old(self),
            old(self).active_column > 0 ==> {
                &&& final(self).active_column == old(self).active_column - 1
                &&& final(self).columns.len() == old(self).columns.len()
                &&& forall|i: int|
                    0 <= i < final(self).columns.len() && i != final(self).active_column
                        ==> (#[trigger] final(self).columns@[i]).selected_task is None
                &&& final(self).columns@[final(self).active_column as int] == old(
                    self,
                ).columns@[final(self).active_column as int]
                &&& forall|i: int|
                    0 <= i < final(self).columns.len() ==> {
                        let c = #[trigger] final(self).columns@[i];
                        c.title == old(self).columns@[i].title && c.tasks == old(
                            self,
                        ).columns@[i].tasks
                    }
                &&& final(self).title == old(self).title
                &&& final(self).input_mode == old(self).input_mode
            },
    {
        if self.active_column > 0 {
            self.active_column = self.active_column - 1;
            self.clear_other_selections();
        }
    }

    /// Moves the active column one to the right; at the last column
    /// nothing happens. On a move, only the new active column keeps its
    /// selection.
    pub fn select_next_column(&mut self)
        requires
            old(self).wf(),
        ensures
            final(self).wf(),
            rest_unchanged(*old(self), *final(self)),
            final(self).input_text == old(self).input_text,
            final(self).input_mode == old(self).input_mode,
            old(self).columns.len() == 0 || old(self).active_column + 1 >= old(self).columns.len()
                ==> *final(self) == *old(self),
            old(self).columns.len() > 0 && old(self).active_column + 1 < old(self).columns.len()
                ==> {
                &&& final(self).active_column == old(self).active_column + 1
                &&& final(self).columns.len() == old(self).columns.len()
                &&& forall|i: int|
                    0 <= i < final(self).columns.len() && i != final(self).active_column
                        ==> (#[trigger] final(self).columns@[i]).selected_task is None
                &&& final(self).columns@[final(self).active_column as int] == old(
                    self,
                ).columns@[final(self).active_column as int]
                &&& forall|i: int|
                    0 <= i < final(self).columns.len() ==> {
                        let c = #[trigger] final(self).columns@[i];
                        c.title == old(self).columns@[i].title && c.tasks == old(
                            self,
                        ).columns@[i].tasks
                    }
                &&& final(self).title == old(self).title
                &&& final(self).input_mode == old(self).input_mode
            },
    {
        let n = self.columns.len();
        if n > 0 && self.active_column < n - 1 {
            self.active_column = self.active_column + 1;
            self.clear_other_selections();
        }
    }

    /// Moves the board-list highlight up by one, stopping at the top.
    pub fn select_prev_board(&mut self)
        ensures
            ({
                let r = *final(self);
                match old(self).selected_board_index {
                    Some(i) => if i > 0 {
                        r == (App { selected_board_index: Some((i - 1) as usize), ..*old(self) })
                    } else {
                        r == *old(self)
                    },
                    None => r == *old(self),
                }
            }),
    {
        match self.selected_board_index {
            Some(index) => {
                if index > 0 {
                    self.selected_board_index = Some(index - 1);
                }
            },
            None => {},
        }
    }

    /// Moves the board-list highlight down by one, stopping at the last
    /// entry.
    pub fn select_next_board(&mut self)
        ensures
            ({
                let r = *final(self);
                match old(self).selected_board_index {
                    Some(i) => if old(self).available_boards.len() > 0 && i + 1 < old(
                        self,
                    ).available_boards.len() {
                        r == (App { selected_board_index: Some((i + 1) as usize), ..*old(self) })
                    } else {
                        r == *old(self)
                    },
                    None => r == *old(self),
                }
            }),
    {
        match self.selected_board_index {
            Some(index) => {
                let n = self.available_boards.len();
                if n > 0 && index < n - 1 {
                    self.selected_board_index = Some(index + 1);
                }
            },
            None => {},
        }
    }

    /// Moves the selection one task up in the active column; with no
    /// selection, selects the last task; at the first task or with no
    /// tasks, nothing moves.
    pub fn select_prev_task(&mut self)
        requires
            old(self).wf(),
        ensures
            final(self).wf(),
            rest_unchanged(*old(self), *final(self)),
            final(self).input_text == old(self).input_text,
            final(self).input_mode == old(self).input_mode,
            final(self).active_column == old(self).active_column,
            old(self).columns.len() == 0 ==> *final(self) == *old(self),
            old(self).columns.len() > 0 ==> {
                let a = old(self).active_column as int;
                let col = old(self).columns@[a];
                let want: Option<usize> = if col.tasks.len() == 0 {
                    None
                } else {
                    match col.selected_task {
                        Some(cur) => if cur > 0 {
                            Some((cur - 1) as usize)
                        } else {
                            Some(cur)
                        },
                        None => Some((col.tasks.len() - 1) as usize),
                    }
                };
                &&& final(self).columns@ == old(self).columns@.update(
                    a,
                    Column { title: col.title, tasks: col.tasks, selected_task: want },
                )
                &&& final(self).active_column == old(self).active_column
                &&& final(self).title == old(self).title
                &&& final(self).input_mode == old(self).input_mode
            },
    {
        let n = self.columns.len();
        if n == 0 {
            return ;
        }
        let a = self.active_column;
        let col = &mut self.columns[a];
        if col.tasks.len() == 0 {
            col.selected_task = None;
            proof {
                assert(final(self).columns@ =~= old(self).columns@.update(
                    a as int,
                    Column {
                        title: old(self).columns@[a as int].title,
                        tasks: old(self).columns@[a as int].tasks,
                        selected_task: None,
                    },
                ));
            }
            return ;
        }
        match col.selected_task {
            Some(cur) => {
                if cur > 0 {
                    col.selected_task = Some(cur - 1);
                }
            },
            None => {
                let l = col.tasks.len();
                col.selected_task = Some(l - 1);
            },
        }
        proof {
            let a = a as int;
            let col0 = old(self).columns@[a];
            assert(final(self).columns@ =~= old(self).columns@.update(
                a,
                Column {
                    title: col0.title,
                    tasks: col0.tasks,
                    selected_task: final(self).columns@[a].selected_task,
                },
            ));
        }
    }

    /// Moves the selection one task down in the active column; with no
    /// selection, selects the first task; at the last task or with no
    /// tasks, nothing moves.
    pub fn select_next_task(&mut self)
        requires
            old(self).wf(),
        ensures
            final(self).wf(),
            rest_unchanged(*old(self), *final(self)),
            final(self).input_text == old(self).input_text,
            final(self).input_mode == old(self).input_mode,
            final(self).active_column == old(self).active_column,
            old(self).columns.len() == 0 ==> *final(self) == *old(self),
            old(self).columns.len() > 0 ==> {
                let a = old(self).active_column as int;
                let col = old(self).columns@[a];
                let want: Option<usize> = if col.tasks.len() == 0 {
                    None
                } else {
                    match col.selected_task {
                        Some(cur) => if cur + 1 < col.tasks.len() {
                            Some((cur + 1) as usize)
                        } else {
                            Some(cur)
                        },
                        None => Some(0usize),
                    }
                };
                &&& final(self).columns@ == old(self).columns@.update(
                    a,
                    Column { title: col.title, tasks: col.tasks, selected_task: want },
                )
                &&& final(self).active_column == old(self).active_column
                &&& final(self).title == old(self).title
                &&& final(self).input_mode == old(self).input_mode
            },
    {
        let n = self.columns.len();
        if n == 0 {
            return ;
        }
        let a = self.active_column;
        let col = &mut self.columns[a];
        if col.tasks.len() == 0 {
            col.selected_task = None;
            proof {
                assert(final(self).columns@ =~= old(self).columns@.update(
                    a as int,
                    Column {
                        title: old(self).columns@[a as int].title,
                        tasks: old(self).columns@[a as int].tasks,
                        selected_task: None,
                    },
                ));
            }
            return ;
        }
        let l = col.tasks.len();
        match col.selected_task {
            Some(cur) => {
                if cur < l - 1 {
                    col.selected_task = Some(cur + 1);
                }
            },
            None => {
                col.selected_task = Some(0);
            },
        }
        proof {
            let a = a as int;
            let col0 = old(self).columns@[a];
            assert(final(self).columns@ =~= old(self).columns@.update(
                a,
                Column {
                    title: col0.title,
                    tasks: col0.tasks,
                    selected_task: final(self).columns@[a].selected_task,
                },
            ));
        }
    }

    /// Removes the selected task of the active column and re-clamps the
    /// selection: the new last task if the removed one was last, `None`
    /// if the column became empty.
    pub fn delete_current_task(&mut self)
        requires
            old(self).wf(),
        ensures
            final(self).wf(),
            rest_unchanged(*old(self), *final(self)),
            final(self).input_text == old(self).input_text,
            final(self).input_mode == old(self).input_mode,
            final(self).active_column == old(self).active_column,
            ({
                let a = old(self).active_column as int;
                if old(self).columns.len() == 0 || old(
                    self,
                ).columns@[a].selected_task is None {
                    *final(self) == *old(self)
                } else {
                    let col = old(self).columns@[a];
                    let idx = col.selected_task->0 as int;
                    let rest = col.tasks@.remove(idx);
                    let want: Option<usize> = if rest.len() == 0 {
                        None
                    } else if idx >= rest.len() {
                        Some((rest.len() - 1) as usize)
                    } else {
                        col.selected_task
                    };
                    &&& final(self).columns@.len() == old(self).columns@.len()
                    &&& final(self).columns@[a].tasks@ == rest
                    &&& final(self).columns@[a].selected_task == want
                    &&& final(self).columns@[a].title == col.title
                    &&& forall|i: int|
                        0 <= i < old(self).columns@.len() && i != a
                            ==> #[trigger] final(self).columns@[i] == old(self).columns@[i]
                    &&& final(self).active_column == old(self).active_column
                    &&& final(self).title == old(self).title
                    &&& final(self).input_mode == old(self).input_mode
                    &&& final(self).pending_chord == old(self).pending_chord
                }
            }),
    {
        let n = self.columns.len();
        if n == 0 {
            return ;
        }
        let a = self.active_column;
        let sel = self.columns[a].selected_task;
        match sel {
            Some(task_idx) => {
                let col = &mut self.columns[a];
                col.tasks.remove(task_idx);
                if col.tasks.len() == 0 {
                    col.selected_task = None;
                } else if task_idx >= col.tasks.len() {
                    let l = col.tasks.len();
                    col.selected_task = Some(l - 1);
                }
            },
            None => {},
        }
    }

    /// Removes the active column and re-clamps the active index to the
    /// new last column when it pointed past the end.
    pub fn delete_current_column(&mut self)
        requires
            old(self).wf(),
        ensures
            final(self).wf(),
            rest_unchanged(*old(self), *final(self)),
            final(self).input_text == old(self).input_text,
            final(self).input_mode == old(self).input_mode,
            old(self).columns.len() == 0 ==> *final(self) == *old(self),
            old(self).columns.len() > 0 ==> {
                &&& final(self).columns@ == old(self).columns@.remove(
                    old(self).active_column as int,
                )
                &&& final(self).active_column == (if old(self).active_column
                    < final(self).columns@.len() || final(self).columns@.len() == 0 {
                    old(self).active_column as int
                } else {
                    final(self).columns@.len() - 1
                })
                &&& final(self).title == old(self).title
                &&& final(self).input_mode == old(self).input_mode
            },
    {
        let n = self.columns.len();
        if n == 0 {
            return ;
        }
        self.columns.remove(self.active_column);
        let m = self.columns.len();
        if self.active_column >= m && m > 0 {
            self.active_column = m - 1;
        } else if m == 0 {
            self.active_column = 0;
        }
        proof {
            assert forall|i: int|
                0 <= i < self.columns.len() && i != self.active_column implies (
            #[trigger] self.columns@[i]).selected_task is None by {
                if i < old(self).active_column {
                    assert(self.columns@[i] == old(self).columns@[i]);
                } else {
                    assert(self.columns@[i] == old(self).columns@[i + 1]);
                }
            }
            assert forall|i: int|
                0 <= i < self.columns.len() implies ((#[trigger] self.columns@[i]).selected_task
                matches Some(t) ==> t < self.columns@[i].tasks.len()) by {
                if i < old(self).active_column {
                    assert(self.columns@[i] == old(self).columns@[i]);
                } else {
                    assert(self.columns@[i] == old(self).columns@[i + 1]);
                }
            }
        }
    }

    /// The number of tasks on the whole board.
    pub fn total_task_count(&self) -> (r: usize)
        requires
            total_tasks(self.columns@) <= usize::MAX,
        ensures
            r == total_tasks(self.columns@),
    {
        let n = self.columns.len();
        let mut acc: usize = 0;
        let mut i: usize = 0;
        proof {
            lemma_total_split(self.columns@, 0);
        }
        while i < n
            invariant
                n == self.columns.len(),
                i <= n,
                total_tasks(self.columns@) <= usize::MAX,
                acc == total_tasks(self.columns@.subrange(0, i as int)),
            decreases n - i,
        {
            proof {
                lemma_total_split(self.columns@, i as int + 1);
                lemma_total_snoc(self.columns@.subrange(0, i as int + 1));
                assert(self.columns@.subrange(0, i + 1).drop_last() =~= self.columns@.subrange(
                    0,
                    i as int,
                ));
                lemma_total_nonneg(self.columns@.subrange(i as int + 1, n as int));
            }
            acc = acc + self.columns[i].tasks.len();
            i += 1;
        }
        proof {
            assert(self.columns@.subrange(0, n as int) =~= self.columns@);
        }
        acc
    }
}

/// The title the dedup rule tries at attempt `k`: the base title
/// itself first, then `base (1)`, `base (2)`, and so on.
pub open spec fn candidate_title(base: Seq<char>, k: nat) -> Seq<char> {
    if k == 0 {
        base
    } else {
        base + " ("@ + dec_digits(k) + ")"@
    }
}

/// Whether some column already carries `name`.
pub open spec fn title_taken(cols: Seq<Column>, name: Seq<char>) -> bool {
    exists|i: int| 0 <= i < cols.len() && (#[trigger] cols[i]).title@ == name
}

/// Distinct attempts give distinct candidate titles.
proof fn lemma_candidate_injective(base: Seq<char>, j1: nat, j2: nat)
    requires
        j1 != j2,
    ensures
        candidate_title(base, j1) != candidate_title(base, j2),
{
    reveal_strlit(" (");
    reveal_strlit(")");
    crate::numtext::lemma_dec_roundtrip(j1);
    crate::numtext::lemma_dec_roundtrip(j2);
    if j1 == 0 || j2 == 0 {
        assert(candidate_title(base, j1).len() != candidate_title(base, j2).len());
    } else {
        if candidate_title(base, j1) == candidate_title(base, j2) {
            let d1 = dec_digits(j1);
            let d2 = dec_digits(j2);
            assert(candidate_title(base, j1).len() == base.len() + 2 + d1.len() + 1);
            assert(candidate_title(base, j2).len() == base.len() + 2 + d2.len() + 1);
            assert(d1.len() == d2.len());
            let l = base.len() as int;
            assert forall|m: int| 0 <= m < d1.len() implies d1[m] == d2[m] by {
                assert(candidate_title(base, j1)[l + 2 + m] == d1[m]);
                assert(candidate_title(base, j2)[l + 2 + m] == d2[m]);
            }
            assert(d1 =~= d2);
            crate::numtext::lemma_dec_digits_injective(j1, j2);
        }
    }
}

/// If the first `k + 1` candidates are all taken by the `n` existing
/// columns, then `k` is below `n`.
proof fn lemma_candidates_pigeonhole(cols: Seq<Column>, base: Seq<char>, k: nat)
    requires
        forall|j: nat| j <= k ==> title_taken(cols, candidate_title(base, j)),
    ensures
        k < cols.len(),
{
    broadcast use vstd::seq_lib::seq_to_set_is_finite;

    let cands = Seq::new(k + 1, |j: int| candidate_title(base, j as nat));
    let titles = Seq::new(cols.len(), |i: int| cols[i].title@);
    assert forall|p: int, q: int|
        0 <= p < cands.len() && 0 <= q < cands.len() && p != q implies cands[p] != cands[q] by {
        lemma_candidate_injective(base, p as nat, q as nat);
    }
    assert(cands.no_duplicates());
    cands.unique_seq_to_set();
    titles.lemma_cardinality_of_set();
    assert forall|x: Seq<char>| cands.to_set().contains(x) implies titles.to_set().contains(x) by {
        let j = choose|j: int| 0 <= j < cands.len() && cands[j] == x;
        assert(title_taken(cols, candidate_title(base, j as nat)));
        let i = choose|i: int| 0 <= i < cols.len() && (#[trigger] cols[i]).title@ == x;
        assert(titles[i] == x);
    }
    assert(cands.to_set().subset_of(titles.to_set()));
    vstd::set_lib::lemma_len_subset(cands.to_set(), titles.to_set());
}

impl App {
    /// Whether some column already carries `name`.
    fn title_taken_exec(&self, name: &str) -> (r: bool)
        ensures
            r == title_taken(self.columns@, name@),
    {
        let n = self.columns.len();
        let mut i: usize = 0;
        while i < n
            invariant
                n == self.columns.len(),
                i <= n,
                forall|j: int| 0 <= j < i ==> (#[trigger] self.columns@[j]).title@ != name@,
            decreases n - i,
        {
            if str_eq(self.columns[i].title.as_str(), name) {
                return true;
            }
            i += 1;
        }
        false
    }

    /// Appends an empty column whose title is the first unused
    /// candidate: the given title, else `title (1)`, `title (2)`, and
    /// so on. Leaves text entry and returns to the normal mode.
    pub fn add_column(&mut self, title: &str)
        requires
            old(self).wf(),
            old(self).columns.len() < usize::MAX,
        ensures
            final(self).wf(),
            rest_unchanged(*old(self), *final(self)),
            final(self).columns.len() == old(self).columns.len() + 1,
            forall|i: int|
                0 <= i < old(self).columns.len() ==> #[trigger] final(self).columns@[i] == old(
                    self,
                ).columns@[i],
            ({
                let newc = final(self).columns@.last();
                &&& newc.tasks.len() == 0
                &&& newc.selected_task is None
                &&& exists|k: nat|
                    {
                        &&& newc.title@ == candidate_title(title@, k)
                        &&& !title_taken(old(self).columns@, candidate_title(title@, k))
                        &&& forall|j: nat|
                            j < k ==> title_taken(old(self).columns@, candidate_title(title@, j))
                    }
            }),
            final(self).input_mode is Normal,
            final(self).input_text@.len() == 0,
            final(self).active_column == old(self).active_column,
            final(self).title == old(self).title,
            final(self).file_path == old(self).file_path,
            final(self).base_dir == old(self).base_dir,
    {
        let n = self.columns.len();
        let mut name: String = title.to_owned();
        let mut counter: usize = 1;
        let ghost mut k: nat = 0;
        loop
            invariant_except_break
                self == old(self),
                n == self.columns.len(),
                n < usize::MAX,
                counter == k + 1,
                k <= n,
                name@ == candidate_title(title@, k),
                forall|j: nat| j < k ==> title_taken(self.columns@, candidate_title(title@, j)),
            ensures
                self == old(self),
                name@ == candidate_title(title@, k),
                !title_taken(self.columns@, name@),
                forall|j: nat| j < k ==> title_taken(self.columns@, candidate_title(title@, j)),
            decreases n + 1 - k,
        {
            if !self.title_taken_exec(name.as_str()) {
                break ;
            }
            proof {
                assert(forall|j: nat|
                    j <= k ==> title_taken(self.columns@, candidate_title(title@, j)));
                lemma_candidates_pigeonhole(self.columns@, title@, k);
                k = k + 1;
            }
            let mut next = title.to_owned();
            next.append(" (");
            let digits = crate::numtext::usize_to_string(counter);
            next.append(digits.as_str());
            next.append(")");
            proof {
                assert(next@ =~= candidate_title(title@, counter as nat));
            }
            name = next;
            counter = counter + 1;
        }
        self.columns.push(Column { title: name, tasks: Vec::new(), selected_task: None });
        self.input_mode = InputMode::Normal;
        self.input_text = String::new();
        proof {
            let newc = final(self).columns@.last();
            assert(newc.title@ == candidate_title(title@, k));
            assert forall|i: int|
                0 <= i < final(self).columns.len() && i != final(self).active_column implies (
            #[trigger] final(self).columns@[i]).selected_task is None by {
                if i < old(self).columns.len() {
                    assert(final(self).columns@[i] == old(self).columns@[i]);
                }
            }
        }
    }

    /// Appends a task with the given title to the active column and
    /// selects it; with no columns nothing happens. Leaves text entry
    /// and returns to the normal mode on success.
    pub fn add_task(&mut self, title: &str)
        requires
            old(self).wf(),
        ensures
            final(self).wf(),
            rest_unchanged(*old(self), *final(self)),
            old(self).columns.len() == 0 ==> *final(self) == *old(self),
            old(self).columns.len() > 0 ==> {
                let a = old(self).active_column as int;
                let col = old(self).columns@[a];
                let new_task_at = col.tasks.len() as int;
                &&& final(self).columns@.len() == old(self).columns@.len()
                &&& forall|i: int|
                    0 <= i < old(self).columns@.len() && i != a
                        ==> #[trigger] final(self).columns@[i] == old(self).columns@[i]
                &&& final(self).columns@[a].title == col.title
                &&& final(self).columns@[a].tasks.len() == col.tasks.len() + 1
                &&& forall|j: int|
                    0 <= j < col.tasks.len() ==> #[trigger] final(self).columns@[a].tasks@[j]
                        == col.tasks@[j]
                &&& final(self).columns@[a].tasks@[new_task_at].title@ == title@
                &&& final(self).columns@[a].tasks@[new_task_at].description is None
                &&& final(self).columns@[a].tasks@[new_task_at].priority == Some(5u8)
                &&& final(self).columns@[a].selected_task == Some(col.tasks.len() as usize)
                &&& final(self).input_mode is Normal
                &&& final(self).input_text@.len() == 0
                &&& final(self).active_column == old(self).active_column
                &&& final(self).title == old(self).title
            },
    {
        let n = self.columns.len();
        if n == 0 {
            return ;
        }
        let a = self.active_column;
        let col = &mut self.columns[a];
        col.tasks.push(Task { title: title.to_owned(), description: None, priority: Some(5) });
        let l = col.tasks.len();
        col.selected_task = Some(l - 1);
        self.input_mode = InputMode::Normal;
        self.input_text = String::new();
    }

    /// Switches the active column by a `0`-`9` key: `0` names the first
    /// column, `1` through `9` name columns one through nine. Out of
    /// range, nothing happens; on a switch, other selections are
    /// cleared and the normal mode returns.
    pub fn jump_to_column(&mut self, index: usize)
        requires
            old(self).wf(),
        ensures
            final(self).wf(),
            rest_unchanged(*old(self), *final(self)),
            final(self).input_text == old(self).input_text,
            ({
                let target: int = if index == 0 {
                    0
                } else {
                    index - 1
                };
                if target < old(self).columns.len() {
                    &&& final(self).active_column == target
                    &&& final(self).columns.len() == old(self).columns.len()
                    &&& forall|i: int|
                        0 <= i < final(self).columns.len() && i != target ==> {
                            let c = #[trigger] final(self).columns@[i];
                            c.title == old(self).columns@[i].title && c.tasks == old(
                                self,
                            ).columns@[i].tasks && c.selected_task is None
                        }
                    &&& final(self).columns@[target] == old(self).columns@[target]
                    &&& final(self).input_mode is Normal
                    &&& final(self).title == old(self).title
                    &&& final(self).input_text == old(self).input_text
                } else {
                    *final(self) == *old(self)
                }
            }),
    {
        let target = if index == 0 {
            0
        } else {
            index - 1
        };
        if target < self.columns.len() {
            self.active_column = target;
            self.clear_other_selections();
            self.input_mode = InputMode::Normal;
        }
    }

    /// Jumps straight to a task: switches the active column, clears the
    /// other selections, selects the task when its index is real, and
    /// returns to the normal mode. An out-of-range column does nothing.
    pub fn jump_to_task(&mut self, column_idx: usize, task_idx: usize)
        requires
            old(self).wf(),
        ensures
            final(self).wf(),
            rest_unchanged(*old(self), *final(self)),
            final(self).input_text == old(self).input_text,
            column_idx >= old(self).columns.len() ==> *final(self) == *old(self),
            column_idx < old(self).columns.len() ==> {
                &&& final(self).active_column == column_idx
                &&& final(self).columns.len() == old(self).columns.len()
                &&& forall|i: int|
                    0 <= i < final(self).columns.len() && i != column_idx ==> {
                        let c = #[trigger] final(self).columns@[i];
                        c.title == old(self).columns@[i].title && c.tasks == old(
                            self,
                        ).columns@[i].tasks && c.selected_task is None
                    }
                &&& final(self).columns@[column_idx as int].title == old(
                    self,
                ).columns@[column_idx as int].title
                &&& final(self).columns@[column_idx as int].tasks == old(
                    self,
                ).columns@[column_idx as int].tasks
                &&& final(self).columns@[column_idx as int].selected_task == (if task_idx < old(
                    self,
                ).columns@[column_idx as int].tasks.len() {
                    Some(task_idx)
                } else {
                    old(self).columns@[column_idx as int].selected_task
                })
                &&& final(self).input_mode is Normal
                &&& final(self).title == old(self).title
            },
    {
        if column_idx < self.columns.len() {
            self.active_column = column_idx;
            self.clear_other_selections();
            let col = &mut self.columns[column_idx];
            if task_idx < col.tasks.len() {
                col.selected_task = Some(task_idx);
            }
            self.input_mode = InputMode::Normal;
        }
    }

    /// Moves the selected task of the active column to the end of the
    /// named column. Out of range, aimed at the active column itself,
    /// or with nothing selected, nothing happens. The source selection
    /// re-clamps as a deletion does; the target keeps its own
    /// selection.
    pub fn move_task_to_column(&mut self, target_column_idx: usize)
        requires
            old(self).wf(),
        ensures
            final(self).wf(),
            rest_unchanged(*old(self), *final(self)),
            final(self).input_text == old(self).input_text,
            final(self).input_mode == old(self).input_mode,
            ({
                let a = old(self).active_column as int;
                let t = target_column_idx as int;
                if t >= old(self).columns.len() || t == a || old(self).columns.len() == 0 || old(
                    self,
                ).columns@[a].selected_task is None {
                    *final(self) == *old(self)
                } else {
                    let src = old(self).columns@[a];
                    let idx = src.selected_task->0 as int;
                    let moved = src.tasks@[idx];
                    let rest = src.tasks@.remove(idx);
                    let want: Option<usize> = if rest.len() == 0 {
                        None
                    } else if idx >= rest.len() {
                        Some((rest.len() - 1) as usize)
                    } else {
                        src.selected_task
                    };
                    &&& final(self).columns@.len() == old(self).columns@.len()
                    &&& forall|i: int|
                        0 <= i < old(self).columns@.len() && i != a && i != t
                            ==> #[trigger] final(self).columns@[i] == old(self).columns@[i]
                    &&& final(self).columns@[a].tasks@ == rest
                    &&& final(self).columns@[a].selected_task == want
                    &&& final(self).columns@[a].title == src.title
                    &&& final(self).columns@[t].tasks@ == old(self).columns@[t].tasks@.push(moved)
                    &&& final(self).columns@[t].selected_task == old(
                        self,
                    ).columns@[t].selected_task
                    &&& final(self).columns@[t].title == old(self).columns@[t].title
                    &&& final(self).active_column == old(self).active_column
                    &&& final(self).title == old(self).title
                    &&& final(self).input_mode == old(self).input_mode
                }
            }),
    {
        let n = self.columns.len();
        if target_column_idx >= n || target_column_idx == self.active_column {
            return ;
        }
        let a = self.active_column;
        let sel = self.columns[a].selected_task;
        match sel {
            Some(task_idx) => {
                if task_idx < self.columns[a].tasks.len() {
                    let src = &mut self.columns[a];
                    let task = src.tasks.remove(task_idx);
                    if src.tasks.len() == 0 {
                        src.selected_task = None;
                    } else if task_idx >= src.tasks.len() {
                        let l = src.tasks.len();
                        src.selected_task = Some(l - 1);
                    }
                    let target = &mut self.columns[target_column_idx];
                    target.tasks.push(task);
                    if a == target_column_idx {
                        // unreachable under the guard above; kept as the
                        // interface has always behaved
                        let l = target.tasks.len();
                        target.selected_task = Some(l - 1);
                    }
                }
            },
            None => {},
        }
    }

    /// Renames the active column; with no columns nothing happens.
    /// Leaves text entry and returns to the normal mode.
    pub fn rename_current_column(&mut self, new_name: &str)
        requires
            old(self).wf(),
        ensures
            final(self).wf(),
            rest_unchanged(*old(self), *final(self)),
            old(self).columns.len() == 0 ==> *final(self) == *old(self),
            old(self).columns.len() > 0 ==> {
                let a = old(self).active_column as int;
                &&& final(self).columns@.len() == old(self).columns@.len()
                &&& forall|i: int|
                    0 <= i < old(self).columns@.len() && i != a
                        ==> #[trigger] final(self).columns@[i] == old(self).columns@[i]
                &&& final(self).columns@[a].title@ == new_name@
                &&& final(self).columns@[a].tasks == old(self).columns@[a].tasks
                &&& final(self).columns@[a].selected_task == old(self).columns@[a].selected_task
                &&& final(self).input_mode is Normal
                &&& final(self).input_text@.len() == 0
                &&& final(self).active_column == old(self).active_column
                &&& final(self).title == old(self).title
            },
    {
        let n = self.columns.len();
        if n == 0 {
            return ;
        }
        let a = self.active_column;
        let col = &mut self.columns[a];
        col.title = new_name.to_owned();
        self.input_mode = InputMode::Normal;
        self.input_text = String::new();
    }

    /// Renames the selected task of the active column; with nothing
    /// selected nothing happens. Leaves text entry and returns to the
    /// normal mode.
    pub fn rename_current_task(&mut self, new_name: &str)
        requires
            old(self).wf(),
        ensures
            final(self).wf(),
            rest_unchanged(*old(self), *final(self)),
            ({
                let a = old(self).active_column as int;
                if old(self).columns.len() == 0 || old(self).columns@[a].selected_task is None {
                    *final(self) == *old(self)
                } else {
                    let col = old(self).columns@[a];
                    let idx = col.selected_task->0 as int;
                    &&& final(self).columns@.len() == old(self).columns@.len()
                    &&& forall|i: int|
                        0 <= i < old(self).columns@.len() && i != a
                            ==> #[trigger] final(self).columns@[i] == old(self).columns@[i]
                    &&& final(self).columns@[a].title == col.title
                    &&& final(self).columns@[a].selected_task == col.selected_task
                    &&& final(self).columns@[a].tasks@.len() == col.tasks@.len()
                    &&& forall|j: int|
                        0 <= j < col.tasks@.len() && j != idx
                            ==> #[trigger] final(self).columns@[a].tasks@[j] == col.tasks@[j]
                    &&& final(self).columns@[a].tasks@[idx].title@ == new_name@
                    &&& final(self).columns@[a].tasks@[idx].description == col.tasks@[idx].description
                    &&& final(self).columns@[a].tasks@[idx].priority == col.tasks@[idx].priority
                    &&& final(self).input_mode is Normal
                    &&& final(self).input_text@.len() == 0
                    &&& final(self).active_column == old(self).active_column
                    &&& final(self).title == old(self).title
                }
            }),
    {
        let n = self.columns.len();
        if n == 0 {
            return ;
        }
        let a = self.active_column;
        let sel = self.columns[a].selected_task;
        match sel {
            Some(idx) => {
                let col = &mut self.columns[a];
                let tk = &mut col.tasks[idx];
                tk.title = new_name.to_owned();
                self.input_mode = InputMode::Normal;
                self.input_text = String::new();
            },
            None => {},
        }
    }

    /// Puts the active column's title in the text buffer and opens the
    /// column-renaming prompt; with no columns nothing happens.
    pub fn prepare_rename_column(&mut self)
        requires
            old(self).wf(),
        ensures
            final(self).wf(),
            old(self).columns.len() == 0 ==> *final(self) == *old(self),
            old(self).columns.len() > 0 ==> *final(self) == (App {
                input_mode: InputMode::RenamingColumn,
                input_text: final(self).input_text,
                ..*old(self)
            }) && final(self).input_text@ == old(self).columns@[old(
                self,
            ).active_column as int].title@,
    {
        let n = self.columns.len();
        if n == 0 {
            return ;
        }
        let a = self.active_column;
        self.input_text = self.columns[a].title.clone();
        self.input_mode = InputMode::RenamingColumn;
    }

    /// Puts the selected task's title in the text buffer and opens the
    /// task-renaming prompt; with nothing selected nothing happens.
    pub fn prepare_rename_task(&mut self)
        requires
            old(self).wf(),
        ensures
            final(self).wf(),
            ({
                let a = old(self).active_column as int;
                if old(self).columns.len() == 0 || old(self).columns@[a].selected_task is None {
                    *final(self) == *old(self)
                } else {
                    *final(self) == (App {
                        input_mode: InputMode::RenamingTask,
                        input_text: final(self).input_text,
                        ..*old(self)
                    }) && final(self).input_text@ == old(self).columns@[a].tasks@[old(
                        self,
                    ).columns@[a].selected_task->0 as int].title@
                }
            }),
    {
        let n = self.columns.len();
        if n == 0 {
            return ;
        }
        let a = self.active_column;
        let sel = self.columns[a].selected_task;
        match sel {
            Some(idx) => {
                self.input_text = self.columns[a].tasks[idx].title.clone();
                self.input_mode = InputMode::RenamingTask;
            },
            None => {},
        }
    }

    /// Scrolls the column view one to the left, stopping at the start.
    pub fn scroll_left(&mut self)
        ensures
            old(self).scroll_offset > 0 ==> *final(self) == (App {
                scroll_offset: (old(self).scroll_offset - 1) as usize,
                ..*old(self)
            }),
            old(self).scroll_offset == 0 ==> *final(self) == *old(self),
    {
        if self.scroll_offset > 0 {
            self.scroll_offset = self.scroll_offset - 1;
        }
    }

    /// Scrolls the column view one to the right, stopping at the last
    /// column.
    pub fn scroll_right(&mut self)
        ensures
            old(self).columns.len() > 0 && old(self).scroll_offset + 1 < old(self).columns.len()
                ==> *final(self) == (App {
                scroll_offset: (old(self).scroll_offset + 1) as usize,
                ..*old(self)
            }),
            !(old(self).columns.len() > 0 && old(self).scroll_offset + 1 < old(
                self,
            ).columns.len()) ==> *final(self) == *old(self),
    {
        let n = self.columns.len();
        if n > 0 && self.scroll_offset < n - 1 {
            self.scroll_offset = self.scroll_offset + 1;
        }
    }
}

/// The first visible column for a view `max_visible_columns` wide:
/// everything from the start when all columns fit, otherwise the held
/// position nudged right or left just enough to keep the active column
/// in view.
pub fn calculate_start_index(app: &App, max_visible_columns: usize) -> (r: usize)
    requires
        app.start_index + max_visible_columns <= usize::MAX,
        app.active_column < usize::MAX,
    ensures
        r == (if app.columns.len() <= max_visible_columns {
            0
        } else if app.active_column >= app.start_index + max_visible_columns {
            app.active_column + 1 - max_visible_columns
        } else if app.active_column < app.start_index {
            app.active_column as int
        } else {
            app.start_index as int
        }),
{
    if app.columns.len() <= max_visible_columns {
        0
    } else if app.active_column >= app.start_index + max_visible_columns {
        app.active_column + 1 - max_visible_columns
    } else if app.active_column < app.start_index {
        app.active_column
    } else {
        app.start_index
    }
}

/// The twenty-four lowercase labels, skipping the easily confused
/// `l` and `o`.
pub open spec fn lower_labels() -> Seq<char> {
    "abcdefghijkmnpqrstuvwxyz"@
}

/// The twenty-six uppercase labels.
pub open spec fn upper_labels() -> Seq<char> {
    "ABCDEFGHIJKLMNOPQRSTUVWXYZ"@
}

/// The labels available for `total` tasks: the lowercase set, extended
/// with the uppercase letters when the tasks outnumber it.
pub open spec fn labels_spec(total: nat) -> Seq<char> {
    if total > lower_labels().len() {
        lower_labels() + upper_labels()
    } else {
        lower_labels()
    }
}

/// The least position of `c` in the vector, if any.
fn find_char_in(v: &Vec<char>, c: char) -> (r: Option<usize>)
    ensures
        match r {
            Some(k) => crate::textutil::find_ch_spec(v@, c) == k as int,
            None => crate::textutil::find_ch_spec(v@, c) == -1,
        },
{
    let n = v.len();
    let mut i: usize = 0;
    while i < n
        invariant
            n == v.len(),
            i <= n,
            forall|m: int| 0 <= m < i ==> v@[m] != c,
        decreases n - i,
    {
        if v[i] == c {
            proof {
                crate::textutil::lemma_find_ch_first(v@, c, i as int);
            }
            return Some(i);
        }
        i += 1;
    }
    proof {
        crate::textutil::lemma_find_ch_bounds(v@, c);
    }
    None
}

/// The characters of a slice as a vector.
fn str_chars_vec(s: &str) -> (r: Vec<char>)
    ensures
        r@ == s@,
{
    let n = s.unicode_len();
    let mut r: Vec<char> = Vec::new();
    let mut i: usize = 0;
    while i < n
        invariant
            n == s@.len(),
            i <= n,
            r@ == s@.subrange(0, i as int),
        decreases n - i,
    {
        r.push(s.get_char(i));
        proof {
            assert(r@ =~= s@.subrange(0, i + 1));
        }
        i += 1;
    }
    proof {
        assert(s@.subrange(0, n as int) =~= s@);
    }
    r
}

impl App {
    /// The jump labels in order of assignment.
    pub fn get_jump_labels(&self) -> (r: Vec<char>)
        requires
            total_tasks(self.columns@) <= usize::MAX,
        ensures
            r@ == labels_spec(total_tasks(self.columns@)),
    {
        let mut labels = str_chars_vec("abcdefghijkmnpqrstuvwxyz");
        if self.total_task_count() > labels.len() {
            let mut caps = str_chars_vec("ABCDEFGHIJKLMNOPQRSTUVWXYZ");
            labels.append(&mut caps);
        }
        labels
    }

    /// The label of the task at the given position: the `n`th task in
    /// reading order gets the `n`th label, and tasks past the labels
    /// get none. An out-of-range position has no label.
    pub fn get_jump_label_for_task(&self, col_idx: usize, task_idx: usize) -> (r: Option<char>)
        requires
            total_tasks(self.columns@) <= usize::MAX,
        ensures
            ({
                let cols = self.columns@;
                let lab = labels_spec(total_tasks(cols));
                if col_idx < cols.len() && task_idx < cols[col_idx as int].tasks.len() {
                    let f = flat_index(cols, col_idx as int, task_idx as int);
                    r == (if f < lab.len() {
                        Some(lab[f])
                    } else {
                        None
                    })
                } else {
                    r is None
                }
            }),
    {
        let ncols = self.columns.len();
        if col_idx >= ncols {
            return None;
        }
        if task_idx >= self.columns[col_idx].tasks.len() {
            return None;
        }
        let labels = self.get_jump_labels();
        let ghost cols = self.columns@;
        let mut acc: usize = 0;
        let mut c: usize = 0;
        proof {
            lemma_total_split(cols, 0);
            lemma_total_split(cols, col_idx as int);
            lemma_total_nonneg(cols.subrange(col_idx as int, ncols as int));
        }
        while c < col_idx
            invariant
                cols == self.columns@,
                ncols == cols.len(),
                col_idx < ncols,
                c <= col_idx,
                acc == total_tasks(cols.subrange(0, c as int)),
                total_tasks(cols) <= usize::MAX,
                total_tasks(cols.subrange(0, col_idx as int)) <= usize::MAX,
            decreases col_idx - c,
        {
            proof {
                lemma_total_split(cols.subrange(0, col_idx as int), c as int + 1);
                lemma_total_snoc(cols.subrange(0, c as int + 1));
                assert(cols.subrange(0, c + 1).drop_last() =~= cols.subrange(0, c as int));
                assert(cols.subrange(0, col_idx as int).subrange(0, c + 1) =~= cols.subrange(
                    0,
                    c + 1,
                ));
                lemma_total_nonneg(
                    cols.subrange(0, col_idx as int).subrange(c as int + 1, col_idx as int),
                );
            }
            acc = acc + self.columns[c].tasks.len();
            c += 1;
        }
        proof {
            lemma_total_split(cols, col_idx as int + 1);
            lemma_total_snoc(cols.subrange(0, col_idx as int + 1));
            assert(cols.subrange(0, col_idx as int + 1).drop_last() =~= cols.subrange(
                0,
                col_idx as int,
            ));
            lemma_total_nonneg(cols.subrange(col_idx as int + 1, ncols as int));
        }
        let f = acc + task_idx;
        if f < labels.len() {
            Some(labels[f])
        } else {
            None
        }
    }

    /// The position of the task carrying a label: the inverse of the
    /// label assignment. A character that is no assigned label gives
    /// nothing.
    pub fn get_task_by_jump_label(&self, label: char) -> (r: Option<(usize, usize)>)
        requires
            total_tasks(self.columns@) <= usize::MAX,
        ensures
            ({
                let cols = self.columns@;
                let li = crate::textutil::find_ch_spec(labels_spec(total_tasks(cols)), label);
                &&& (r is Some <==> 0 <= li < total_tasks(cols))
                &&& (r matches Some(ct) ==> {
                    &&& ct.0 < cols.len()
                    &&& ct.1 < cols[ct.0 as int].tasks.len()
                    &&& flat_index(cols, ct.0 as int, ct.1 as int) == li
                })
            }),
    {
        let labels = self.get_jump_labels();
        let ghost cols = self.columns@;
        let li = match find_char_in(&labels, label) {
            Some(i) => i,
            None => {
                return None;
            },
        };
        // walk the columns to the one holding reading-order position li
        let ncols = self.columns.len();
        let mut acc: usize = 0;
        let mut c: usize = 0;
        proof {
            lemma_total_split(cols, 0);
        }
        while c < ncols
            invariant
                cols == self.columns@,
                ncols == cols.len(),
                c <= ncols,
                acc == total_tasks(cols.subrange(0, c as int)),
                total_tasks(cols) <= usize::MAX,
                li >= acc,
                crate::textutil::find_ch_spec(labels_spec(total_tasks(cols)), label) == li as int,
            decreases ncols - c,
        {
            proof {
                lemma_total_split(cols, c as int);
                lemma_total_split(cols, c as int + 1);
                lemma_total_snoc(cols.subrange(0, c as int + 1));
                assert(cols.subrange(0, c + 1).drop_last() =~= cols.subrange(0, c as int));
                lemma_total_nonneg(cols.subrange(c as int + 1, ncols as int));
                lemma_total_nonneg(cols.subrange(0, c as int));
            }
            let clen = self.columns[c].tasks.len();
            if li - acc < clen {
                proof {
                    assert(flat_index(cols, c as int, li - acc) == li);
                    assert(li < total_tasks(cols)) by {
                        lemma_total_split(cols, c as int);
                        lemma_total_nonneg(cols.subrange(c as int + 1, ncols as int));
                    }
                }
                return Some((c, li - acc));
            }
            acc = acc + clen;
            c += 1;
        }
        proof {
            assert(cols.subrange(0, ncols as int) =~= cols);
            assert(li >= total_tasks(cols));
        }
        None
    }
}

/// The total over a prefix and the rest splits additively.
pub proof fn lemma_total_split(cols: Seq<Column>, k: int)
    requires
        0 <= k <= cols.len(),
    ensures
        total_tasks(cols) == total_tasks(cols.subrange(0, k)) + total_tasks(
            cols.subrange(k, cols.len() as int),
        ),
    decreases k,
{
    if k == 0 {
        assert(cols.subrange(0, 0) =~= Seq::<Column>::empty());
        assert(cols.subrange(0, cols.len() as int) =~= cols);
    } else {
        let d = cols.drop_first();
        assert(cols.len() > 0);
        lemma_total_split(d, k - 1);
        assert(cols.subrange(0, k).drop_first() =~= d.subrange(0, k - 1));
        assert(cols.subrange(k, cols.len() as int) =~= d.subrange(k - 1, d.len() as int));
        assert(cols.subrange(0, k)[0] == cols[0]);
        assert(total_tasks(cols.subrange(0, k)) == cols[0].tasks.len() + total_tasks(
            d.subrange(0, k - 1),
        ));
    }
}

/// The total of a sequence ending in one more column.
pub proof fn lemma_total_snoc(cols: Seq<Column>)
    requires
        cols.len() > 0,
    ensures
        total_tasks(cols) == total_tasks(cols.drop_last()) + cols.last().tasks.len(),
    decreases cols.len(),
{
    if cols.len() == 1 {
        assert(cols.drop_last() =~= Seq::<Column>::empty());
        assert(cols.drop_first() =~= Seq::<Column>::empty());
    } else {
        let d = cols.drop_first();
        lemma_total_snoc(d);
        assert(cols.drop_last().drop_first() =~= d.drop_last());
        assert(cols.drop_last()[0] == cols[0]);
        assert(d.last() == cols.last());
    }
}

/// Totals are never negative.
pub proof fn lemma_total_nonneg(cols: Seq<Column>)
    ensures
        total_tasks(cols) >= 0,
{
}

} // verus!

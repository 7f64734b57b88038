//! The codec round-trip law: a well-formed board read back from its own
//! rendering is unchanged. `wf_board` states the inputs the format can
//! carry: no newlines or `|` in any stored string, strings already
//! trimmed, no comma inside a tag, and no empty last tag or empty
//! created date (the format writes them, but reads them back trimmed).
use crate::codec::{
    apply_field, board_text, column_text, columns_text, computed_text, flush_state, init_fields,
    init_state, join_tags, nl, parse_board_spec, parse_fields, parse_line, parse_lines,
    parse_task_spec, priority_text, task_line_text, task_lines_text, FieldSt, ParseSt,
};
use crate::numtext::{all_digits, dec_digits, is_digit, lemma_dec_roundtrip};
use crate::record::{BoardV, ColumnV, Priority, TaskV};
use crate::textutil::{
    ends_with_spec, eq_pred, find_ch_spec, find_sub_spec, has_no_ch, is_space, lemma_find_ch_first,
    lemma_find_sub_first, lemma_split_glue, lemma_split_whole, lemma_trim_end_by_at,
    lemma_trim_start_by_at, occurs_at, space_pred, split_ch_spec, starts_with_spec, trim_eq_spec,
    trim_spec,
};
use vstd::prelude::*;

verus! {

/// A string the format stores verbatim: no newline, no `|`, and
/// nothing to trim at either end.
pub open spec fn wf_text(s: Seq<char>) -> bool {
    &&& has_no_ch(s, '\n')
    &&& has_no_ch(s, '|')
    &&& s.len() > 0 ==> !is_space(s[0]) && !is_space(s.last())
}

/// A tag additionally avoids the comma that joins tags.
pub open spec fn wf_tag(s: Seq<char>) -> bool {
    wf_text(s) && has_no_ch(s, ',')
}

/// A task the format can carry and read back unchanged.
pub open spec fn wf_task(t: TaskV) -> bool {
    &&& 0 <= t.id <= usize::MAX
    &&& wf_text(t.title)
    &&& forall|i: int| 0 <= i < t.tags.len() ==> wf_tag(#[trigger] t.tags[i])
    &&& t.tags.len() > 0 ==> t.tags.last().len() > 0
    &&& t.created matches Some(c) ==> wf_text(c) && c.len() > 0
    &&& (t.priority is None && t.tags.len() == 0 && t.created is None) ==> t.title.len() > 0
}

/// A column the format can carry and read back unchanged.
pub open spec fn wf_column(c: ColumnV) -> bool {
    wf_text(c.name) && forall|i: int| 0 <= i < c.tasks.len() ==> wf_task(#[trigger] c.tasks[i])
}

/// A board the format can carry and read back unchanged.
pub open spec fn wf_board(b: BoardV) -> bool {
    &&& wf_text(b.name)
    &&& wf_text(b.date)
    &&& wf_text(b.description)
    &&& forall|i: int| 0 <= i < b.columns.len() ==> wf_column(#[trigger] b.columns[i])
}

// ---- small helpers ----

/// Characters absent from both parts are absent from their concatenation.
proof fn lemma_no_ch_concat(a: Seq<char>, b: Seq<char>, c: char)
    requires
        has_no_ch(a, c),
        has_no_ch(b, c),
    ensures
        has_no_ch(a + b, c),
{
    assert forall|i: int| 0 <= i < (a + b).len() implies (a + b)[i] != c by {
        if i < a.len() {
            assert((a + b)[i] == a[i]);
        } else {
            assert((a + b)[i] == b[i - a.len()]);
        }
    }
}

/// A digit string avoids any non-digit character.
proof fn lemma_digits_no_ch(s: Seq<char>, c: char)
    requires
        all_digits(s),
        !is_digit(c),
    ensures
        has_no_ch(s, c),
{
}

/// Trimming takes away exactly an all-blank prefix and suffix.
proof fn lemma_trim_spaces_around(pre: Seq<char>, c: Seq<char>, post: Seq<char>)
    requires
        forall|i: int| 0 <= i < pre.len() ==> is_space(#[trigger] pre[i]),
        forall|i: int| 0 <= i < post.len() ==> is_space(#[trigger] post[i]),
        c.len() > 0 ==> !is_space(c[0]) && !is_space(c.last()),
    ensures
        trim_spec(pre + c + post) == c,
{
    let s = pre + c + post;
    if c.len() > 0 {
        assert forall|j: int| 0 <= j < pre.len() implies (space_pred())(s[j]) by {
            assert(s[j] == pre[j]);
        }
        assert(s[pre.len() as int] == c[0]);
        lemma_trim_start_by_at(s, space_pred(), pre.len() as int);
        let s2 = s.subrange(pre.len() as int, s.len() as int);
        assert(s2 =~= c + post);
        assert forall|j: int| c.len() <= j < s2.len() implies (space_pred())(s2[j]) by {
            assert(s2[j] == post[j - c.len()]);
        }
        assert(s2[c.len() - 1] == c.last());
        lemma_trim_end_by_at(s2, space_pred(), c.len() as int);
        assert(s2.subrange(0, c.len() as int) =~= c);
    } else {
        assert forall|j: int| 0 <= j < s.len() implies (space_pred())(s[j]) by {
            if j < pre.len() {
                assert(s[j] == pre[j]);
            } else {
                assert(s[j] == post[j - pre.len()]);
            }
        }
        lemma_trim_start_by_at(s, space_pred(), s.len() as int);
        let s2 = s.subrange(s.len() as int, s.len() as int);
        assert(s2 =~= Seq::<char>::empty());
        lemma_trim_end_by_at(s2, space_pred(), 0);
        assert(s2.subrange(0, 0) =~= c);
    }
}

/// A string that starts and ends blank-free trims to itself.
proof fn lemma_trim_clean(c: Seq<char>)
    requires
        c.len() > 0 ==> !is_space(c[0]) && !is_space(c.last()),
    ensures
        trim_spec(c) == c,
{
    lemma_trim_spaces_around(Seq::empty(), c, Seq::empty());
    assert(Seq::<char>::empty() + c + Seq::<char>::empty() =~= c);
}

// ---- no newline in any rendered line ----

proof fn lemma_no_nl_priority(p: Priority)
    ensures
        has_no_ch(priority_text(p), '\n'),
{
    reveal_strlit(" | Impact: ");
    reveal_strlit(" | Urgency: ");
    reveal_strlit(" | Effort: ");
    reveal_strlit(" | Computed: ");
    lemma_dec_roundtrip(p.impact as nat);
    lemma_dec_roundtrip(p.urgency as nat);
    lemma_dec_roundtrip(p.effort as nat);
    assert forall|i: int|
        0 <= i < priority_text(p).len() implies #[trigger] priority_text(p)[i] != '\n' by {
        let s = priority_text(p);
        lemma_digits_no_ch(dec_digits(p.impact as nat), '\n');
        lemma_digits_no_ch(dec_digits(p.urgency as nat), '\n');
        lemma_digits_no_ch(dec_digits(p.effort as nat), '\n');
        if p.effort != 0 {
            let h = crate::record::computed_hundredths_spec(p.impact, p.urgency, p.effort);
            lemma_dec_roundtrip((h / 100) as nat);
            lemma_digits_no_ch(dec_digits((h / 100) as nat), '\n');
        }
    }
}

proof fn lemma_join_tags_no_ch(tags: Seq<Seq<char>>, c: char)
    requires
        forall|i: int| 0 <= i < tags.len() ==> has_no_ch(#[trigger] tags[i], c),
        c != ',',
    ensures
        has_no_ch(join_tags(tags), c),
    decreases tags.len(),
{
    if tags.len() == 0 {
    } else if tags.len() == 1 {
        assert(join_tags(tags) == tags[0]);
    } else {
        assert(forall|i: int|
            0 <= i < tags.drop_last().len() ==> #[trigger] tags.drop_last()[i] == tags[i]);
        lemma_join_tags_no_ch(tags.drop_last(), c);
        lemma_no_ch_concat(join_tags(tags.drop_last()), seq![','], c);
        lemma_no_ch_concat(join_tags(tags.drop_last()) + seq![','], tags.last(), c);
    }
}

proof fn lemma_no_nl_task_head(t: TaskV)
    requires
        wf_task(t),
    ensures
        has_no_ch("* [ID:"@ + dec_digits(t.id as nat) + "] "@ + t.title, '\n'),
{
    reveal_strlit("* [ID:");
    reveal_strlit("] ");
    lemma_dec_roundtrip(t.id as nat);
    lemma_digits_no_ch(dec_digits(t.id as nat), '\n');
    let a = "* [ID:"@ + dec_digits(t.id as nat);
    lemma_no_ch_concat("* [ID:"@, dec_digits(t.id as nat), '\n');
    lemma_no_ch_concat(a, "] "@, '\n');
    lemma_no_ch_concat(a + "] "@, t.title, '\n');
}

proof fn lemma_no_nl_task_tags(t: TaskV)
    requires
        wf_task(t),
    ensures
        has_no_ch(
            if t.tags.len() > 0 {
                " | Tags: "@ + join_tags(t.tags)
            } else {
                Seq::<char>::empty()
            },
            '\n',
        ),
{
    reveal_strlit(" | Tags: ");
    if t.tags.len() > 0 {
        lemma_join_tags_no_ch(t.tags, '\n');
        lemma_no_ch_concat(" | Tags: "@, join_tags(t.tags), '\n');
    }
}

proof fn lemma_no_nl_task_created(t: TaskV)
    requires
        wf_task(t),
    ensures
        has_no_ch(
            match t.created {
                Some(x) => " | Created: "@ + x,
                None => Seq::<char>::empty(),
            },
            '\n',
        ),
{
    reveal_strlit(" | Created: ");
    if t.created is Some {
        lemma_no_ch_concat(" | Created: "@, t.created->0, '\n');
    }
}

proof fn lemma_no_nl_task_line(t: TaskV)
    requires
        wf_task(t),
    ensures
        has_no_ch(task_line_text(t), '\n'),
{
    let b = "* [ID:"@ + dec_digits(t.id as nat) + "] "@ + t.title;
    let pr = match t.priority {
        Some(p) => priority_text(p),
        None => Seq::<char>::empty(),
    };
    let tg: Seq<char> = if t.tags.len() > 0 {
        " | Tags: "@ + join_tags(t.tags)
    } else {
        Seq::<char>::empty()
    };
    let cr: Seq<char> = match t.created {
        Some(x) => " | Created: "@ + x,
        None => Seq::<char>::empty(),
    };
    lemma_no_nl_task_head(t);
    if t.priority is Some {
        lemma_no_nl_priority(t.priority->0);
    }
    lemma_no_nl_task_tags(t);
    lemma_no_nl_task_created(t);
    lemma_no_ch_concat(b, pr, '\n');
    lemma_no_ch_concat(b + pr, tg, '\n');
    lemma_no_ch_concat(b + pr + tg, cr, '\n');
    assert(task_line_text(t) == b + pr + tg + cr);
}

// ---- the lines of a rendered board ----

/// The header line of a column block.
pub open spec fn colhdr_line(name: Seq<char>) -> Seq<char> {
    "== "@ + name + " =="@
}

/// The task lines of a column, as a sequence of lines.
pub open spec fn task_lines_seq(tasks: Seq<TaskV>) -> Seq<Seq<char>> {
    tasks.map_values(|t: TaskV| task_line_text(t))
}

/// The lines of one column block.
pub open spec fn column_lines(c: ColumnV) -> Seq<Seq<char>> {
    seq![colhdr_line(c.name)] + task_lines_seq(c.tasks) + seq![Seq::<char>::empty()]
}

/// The lines of all column blocks.
pub open spec fn columns_lines(cols: Seq<ColumnV>) -> Seq<Seq<char>>
    decreases cols.len(),
{
    if cols.len() == 0 {
        Seq::empty()
    } else {
        column_lines(cols[0]) + columns_lines(cols.drop_first())
    }
}

/// All lines of a rendered board, with the empty piece after the final
/// newline.
pub open spec fn board_lines(b: BoardV) -> Seq<Seq<char>> {
    seq![
        "# TUI Kanban Board: "@ + b.name,
        "Date: "@ + b.date,
        "Description: "@ + b.description,
        Seq::<char>::empty(),
    ] + columns_lines(b.columns) + seq![Seq::<char>::empty()]
}

/// `columns_text` unrolled from the front.
proof fn lemma_columns_text_cons(cols: Seq<ColumnV>)
    requires
        cols.len() > 0,
    ensures
        columns_text(cols) == column_text(cols[0]) + columns_text(cols.drop_first()),
    decreases cols.len(),
{
    if cols.len() == 1 {
        assert(cols.drop_last() =~= Seq::<ColumnV>::empty());
        assert(cols.drop_first() =~= Seq::<ColumnV>::empty());
        assert(columns_text(cols) =~= column_text(cols[0]) + columns_text(cols.drop_first()));
    } else {
        let dl = cols.drop_last();
        lemma_columns_text_cons(dl);
        assert(dl[0] == cols[0]);
        assert(cols.drop_first().drop_last() =~= dl.drop_first());
        assert(cols.drop_first().last() == cols.last());
        assert(columns_text(cols.drop_first()) == columns_text(dl.drop_first()) + column_text(
            cols.last(),
        ));
        assert(columns_text(cols) =~= column_text(cols[0]) + columns_text(cols.drop_first()));
    }
}

/// `task_lines_text` unrolled from the front.
proof fn lemma_task_lines_cons(tasks: Seq<TaskV>)
    requires
        tasks.len() > 0,
    ensures
        task_lines_text(tasks) == task_line_text(tasks[0]) + nl() + task_lines_text(
            tasks.drop_first(),
        ),
    decreases tasks.len(),
{
    if tasks.len() == 1 {
        assert(tasks.drop_last() =~= Seq::<TaskV>::empty());
        assert(tasks.drop_first() =~= Seq::<TaskV>::empty());
        assert(task_lines_text(tasks) =~= task_line_text(tasks[0]) + nl() + task_lines_text(
            tasks.drop_first(),
        ));
    } else {
        let dl = tasks.drop_last();
        lemma_task_lines_cons(dl);
        assert(dl[0] == tasks[0]);
        assert(tasks.drop_first().drop_last() =~= dl.drop_first());
        assert(tasks.drop_first().last() == tasks.last());
        assert(task_lines_text(tasks.drop_first()) == task_lines_text(dl.drop_first())
            + task_line_text(tasks.last()) + nl());
        assert(task_lines_text(tasks) =~= task_line_text(tasks[0]) + nl() + task_lines_text(
            tasks.drop_first(),
        ));
    }
}

/// Splitting the task lines followed by anything else.
proof fn lemma_split_task_lines(tasks: Seq<TaskV>, tail: Seq<char>)
    requires
        forall|i: int| 0 <= i < tasks.len() ==> wf_task(#[trigger] tasks[i]),
    ensures
        split_ch_spec(task_lines_text(tasks) + tail, '\n') == task_lines_seq(tasks)
            + split_ch_spec(tail, '\n'),
    decreases tasks.len(),
{
    if tasks.len() == 0 {
        assert(task_lines_text(tasks) + tail =~= tail);
        assert(task_lines_seq(tasks) =~= Seq::<Seq<char>>::empty());
    } else {
        lemma_task_lines_cons(tasks);
        let rest = task_lines_text(tasks.drop_first()) + tail;
        assert(task_lines_text(tasks) + tail =~= task_line_text(tasks[0]) + seq!['\n'] + rest);
        lemma_no_nl_task_line(tasks[0]);
        lemma_split_glue(task_line_text(tasks[0]), rest, '\n');
        assert(forall|i: int|
            0 <= i < tasks.drop_first().len() ==> #[trigger] tasks.drop_first()[i] == tasks[i
                + 1]);
        lemma_split_task_lines(tasks.drop_first(), tail);
        assert(task_lines_seq(tasks) =~= seq![task_line_text(tasks[0])] + task_lines_seq(
            tasks.drop_first(),
        ));
        assert(split_ch_spec(task_lines_text(tasks) + tail, '\n') =~= task_lines_seq(tasks)
            + split_ch_spec(tail, '\n'));
    }
}

/// Splitting the column blocks followed by nothing.
proof fn lemma_split_columns(cols: Seq<ColumnV>)
    requires
        forall|i: int| 0 <= i < cols.len() ==> wf_column(#[trigger] cols[i]),
    ensures
        split_ch_spec(columns_text(cols), '\n') == columns_lines(cols) + seq![
            Seq::<char>::empty(),
        ],
    decreases cols.len(),
{
    if cols.len() == 0 {
        assert(columns_text(cols) =~= Seq::<char>::empty());
        assert(split_ch_spec(Seq::<char>::empty(), '\n') =~= seq![Seq::<char>::empty()]);
        assert(columns_lines(cols) + seq![Seq::<char>::empty()] =~= seq![Seq::<char>::empty()]);
    } else {
        lemma_columns_text_cons(cols);
        let c = cols[0];
        let rest_text = columns_text(cols.drop_first());
        // column_text(c) + rest = colhdr + '\n' + (task_lines + '\n' + rest)
        let after_hdr = task_lines_text(c.tasks) + nl() + rest_text;
        assert(columns_text(cols) =~= colhdr_line(c.name) + seq!['\n'] + after_hdr);
        reveal_strlit("== ");
        reveal_strlit(" ==");
        lemma_no_ch_concat("== "@, c.name, '\n');
        lemma_no_ch_concat("== "@ + c.name, " =="@, '\n');
        lemma_split_glue(colhdr_line(c.name), after_hdr, '\n');
        // task lines, then '\n' + rest
        assert(after_hdr =~= task_lines_text(c.tasks) + (nl() + rest_text));
        lemma_split_task_lines(c.tasks, nl() + rest_text);
        // '\n' + rest: an empty piece, then rest on its own
        assert(nl() + rest_text =~= Seq::<char>::empty() + seq!['\n'] + rest_text);
        lemma_split_glue(Seq::empty(), rest_text, '\n');
        assert(forall|i: int|
            0 <= i < cols.drop_first().len() ==> #[trigger] cols.drop_first()[i] == cols[i + 1]);
        lemma_split_columns(cols.drop_first());
        assert(split_ch_spec(columns_text(cols), '\n') =~= columns_lines(cols) + seq![
            Seq::<char>::empty(),
        ]);
    }
}

// ---- the pieces of a task line between `|` separators ----

/// The ` | ` separator.
pub open spec fn sepj() -> Seq<char> {
    seq![' ', '|', ' ']
}

/// A head followed by ` | `-separated fields.
pub open spec fn pipe_join(core: Seq<char>, fs: Seq<Seq<char>>) -> Seq<char>
    decreases fs.len(),
{
    if fs.len() == 0 {
        core
    } else {
        pipe_join(core, fs.drop_last()) + sepj() + fs.last()
    }
}

/// What splitting on `|` makes of the fields: each keeps the blank
/// that followed its separator, and all but the last keep the blank
/// before the next separator.
pub open spec fn mid_pieces(fs: Seq<Seq<char>>) -> Seq<Seq<char>>
    decreases fs.len(),
{
    if fs.len() == 0 {
        Seq::empty()
    } else if fs.len() == 1 {
        seq![seq![' '] + fs[0]]
    } else {
        seq![seq![' '] + fs[0] + seq![' ']] + mid_pieces(fs.drop_first())
    }
}

/// The task line's head: everything before the first field.
pub open spec fn task_core(t: TaskV) -> Seq<char> {
    "* [ID:"@ + dec_digits(t.id as nat) + "] "@ + t.title
}

/// The head with any blank tail removed (a blank tail arises only from
/// an empty title).
pub open spec fn task_core_clean(t: TaskV) -> Seq<char> {
    if t.title.len() > 0 {
        task_core(t)
    } else {
        "* [ID:"@ + dec_digits(t.id as nat) + seq![']']
    }
}

/// The field texts the priority contributes.
pub open spec fn prio_fields(po: Option<Priority>) -> Seq<Seq<char>> {
    match po {
        Some(p) => seq![
            "Impact: "@ + dec_digits(p.impact as nat),
            "Urgency: "@ + dec_digits(p.urgency as nat),
            "Effort: "@ + dec_digits(p.effort as nat),
        ] + if p.effort != 0 {
            seq!["Computed: "@ + computed_text(p)]
        } else {
            Seq::<Seq<char>>::empty()
        },
        None => Seq::<Seq<char>>::empty(),
    }
}

/// The field text the tags contribute.
pub open spec fn tags_fields(tags: Seq<Seq<char>>) -> Seq<Seq<char>> {
    if tags.len() > 0 {
        seq!["Tags: "@ + join_tags(tags)]
    } else {
        Seq::<Seq<char>>::empty()
    }
}

/// The field text the created date contributes.
pub open spec fn created_fields(c: Option<Seq<char>>) -> Seq<Seq<char>> {
    match c {
        Some(x) => seq!["Created: "@ + x],
        None => Seq::<Seq<char>>::empty(),
    }
}

/// The field texts of a task line, in the order they are written.
pub open spec fn fields_of(t: TaskV) -> Seq<Seq<char>> {
    prio_fields(t.priority) + tags_fields(t.tags) + created_fields(t.created)
}

/// Appending one field to a joined line.
proof fn lemma_pipe_join_snoc(core: Seq<char>, fs: Seq<Seq<char>>, f: Seq<char>)
    ensures
        pipe_join(core, fs.push(f)) == pipe_join(core, fs) + sepj() + f,
{
    assert(fs.push(f).drop_last() =~= fs);
    assert(fs.push(f).last() == f);
}

/// Joining split field groups one after the other.
proof fn lemma_pipe_join_append(core: Seq<char>, fs1: Seq<Seq<char>>, fs2: Seq<Seq<char>>)
    ensures
        pipe_join(core, fs1 + fs2) == pipe_join(pipe_join(core, fs1), fs2),
    decreases fs2.len(),
{
    if fs2.len() == 0 {
        assert(fs1 + fs2 =~= fs1);
    } else {
        assert((fs1 + fs2).drop_last() =~= fs1 + fs2.drop_last());
        assert((fs1 + fs2).last() == fs2.last());
        lemma_pipe_join_append(core, fs1, fs2.drop_last());
    }
}

/// The priority fields joined equal the rendered priority text.
proof fn lemma_join_prio(core: Seq<char>, po: Option<Priority>)
    ensures
        pipe_join(core, prio_fields(po)) == core + (match po {
            Some(p) => priority_text(p),
            None => Seq::<char>::empty(),
        }),
{
    reveal_strlit(" | Impact: ");
    reveal_strlit(" | Urgency: ");
    reveal_strlit(" | Effort: ");
    reveal_strlit(" | Computed: ");
    reveal_strlit("Impact: ");
    reveal_strlit("Urgency: ");
    reveal_strlit("Effort: ");
    reveal_strlit("Computed: ");
    match po {
        Some(p) => {
            let a = "Impact: "@ + dec_digits(p.impact as nat);
            let b = "Urgency: "@ + dec_digits(p.urgency as nat);
            let c = "Effort: "@ + dec_digits(p.effort as nat);
            let base = seq![a, b, c];
            assert(pipe_join(core, Seq::<Seq<char>>::empty()) == core);
            assert(seq![a].drop_last() =~= Seq::<Seq<char>>::empty());
            assert(pipe_join(core, seq![a]) == pipe_join(core, seq![a].drop_last()) + sepj()
                + seq![a].last());
            assert(pipe_join(core, seq![a]) == core + sepj() + a);
            lemma_pipe_join_snoc(core, seq![a], b);
            assert(seq![a].push(b) =~= seq![a, b]);
            lemma_pipe_join_snoc(core, seq![a, b], c);
            assert(seq![a, b].push(c) =~= base);
            assert(pipe_join(core, base) == core + sepj() + a + sepj() + b + sepj() + c);
            assert(core + sepj() + a + sepj() + b + sepj() + c =~= core + (" | Impact: "@
                + dec_digits(p.impact as nat) + " | Urgency: "@ + dec_digits(p.urgency as nat)
                + " | Effort: "@ + dec_digits(p.effort as nat)));
            if p.effort != 0 {
                let d = "Computed: "@ + computed_text(p);
                lemma_pipe_join_snoc(core, base, d);
                assert(base.push(d) =~= prio_fields(po));
                assert(pipe_join(core, prio_fields(po)) =~= core + priority_text(p));
            } else {
                assert(base =~= prio_fields(po));
                assert(pipe_join(core, prio_fields(po)) =~= core + priority_text(p));
            }
        },
        None => {
            assert(prio_fields(po) =~= Seq::<Seq<char>>::empty());
            assert(core + Seq::<char>::empty() =~= core);
        },
    }
}

/// The tags field joined equals the rendered tags text.
proof fn lemma_join_tags_field(x: Seq<char>, tags: Seq<Seq<char>>)
    ensures
        pipe_join(x, tags_fields(tags)) == x + (if tags.len() > 0 {
            " | Tags: "@ + join_tags(tags)
        } else {
            Seq::<char>::empty()
        }),
{
    reveal_strlit(" | Tags: ");
    reveal_strlit("Tags: ");
    if tags.len() > 0 {
        let f = "Tags: "@ + join_tags(tags);
        assert(seq![f].drop_last() =~= Seq::<Seq<char>>::empty());
        assert(pipe_join(x, Seq::<Seq<char>>::empty()) == x);
        assert(pipe_join(x, seq![f]) == pipe_join(x, seq![f].drop_last()) + sepj()
            + seq![f].last());
        assert(pipe_join(x, tags_fields(tags)) =~= x + (" | Tags: "@ + join_tags(tags)));
    } else {
        assert(x + Seq::<char>::empty() =~= x);
    }
}

/// The created field joined equals the rendered created text.
proof fn lemma_join_created_field(x: Seq<char>, c: Option<Seq<char>>)
    ensures
        pipe_join(x, created_fields(c)) == x + (match c {
            Some(y) => " | Created: "@ + y,
            None => Seq::<char>::empty(),
        }),
{
    reveal_strlit(" | Created: ");
    reveal_strlit("Created: ");
    match c {
        Some(y) => {
            let f = "Created: "@ + y;
            assert(seq![f].drop_last() =~= Seq::<Seq<char>>::empty());
            assert(pipe_join(x, Seq::<Seq<char>>::empty()) == x);
            assert(pipe_join(x, seq![f]) == pipe_join(x, seq![f].drop_last()) + sepj()
                + seq![f].last());
            assert(pipe_join(x, created_fields(c)) =~= x + (" | Created: "@ + y));
        },
        None => {
            assert(x + Seq::<char>::empty() =~= x);
        },
    }
}

/// The task line is its head joined with its fields.
proof fn lemma_task_line_is_join(t: TaskV)
    ensures
        task_line_text(t) == pipe_join(task_core(t), fields_of(t)),
{
    let core = task_core(t);
    lemma_pipe_join_append(core, prio_fields(t.priority), tags_fields(t.tags));
    lemma_pipe_join_append(
        core,
        prio_fields(t.priority) + tags_fields(t.tags),
        created_fields(t.created),
    );
    lemma_join_prio(core, t.priority);
    let x1 = pipe_join(core, prio_fields(t.priority));
    lemma_join_tags_field(x1, t.tags);
    let x2 = pipe_join(x1, tags_fields(t.tags));
    lemma_join_created_field(x2, t.created);
    assert(fields_of(t) == (prio_fields(t.priority) + tags_fields(t.tags)) + created_fields(
        t.created,
    ));
    assert(task_line_text(t) =~= pipe_join(core, fields_of(t)));
}

// ---- joined tags: shape and inverse ----

/// `join_tags` unrolled from the front.
proof fn lemma_join_tags_cons(tags: Seq<Seq<char>>)
    requires
        tags.len() >= 2,
    ensures
        join_tags(tags) == tags[0] + seq![','] + join_tags(tags.drop_first()),
    decreases tags.len(),
{
    if tags.len() == 2 {
        assert(tags.drop_last()[0] == tags[0]);
        assert(join_tags(tags.drop_last()) == tags[0]);
        assert(tags.drop_first().len() == 1);
        assert(tags.drop_first()[0] == tags[1]);
        assert(join_tags(tags.drop_first()) == tags[1]);
    } else {
        let dl = tags.drop_last();
        lemma_join_tags_cons(dl);
        assert(dl[0] == tags[0]);
        assert(tags.drop_first().drop_last() =~= dl.drop_first());
        assert(tags.drop_first().last() == tags.last());
        assert(tags.drop_first().len() >= 2);
        assert(join_tags(tags.drop_first()) == join_tags(dl.drop_first()) + seq![',']
            + tags.last());
        assert(join_tags(tags) =~= tags[0] + seq![','] + join_tags(tags.drop_first()));
    }
}

/// Splitting joined tags on the comma gives the tags back.
proof fn lemma_split_join_tags(tags: Seq<Seq<char>>)
    requires
        tags.len() >= 1,
        forall|i: int| 0 <= i < tags.len() ==> has_no_ch(#[trigger] tags[i], ','),
    ensures
        split_ch_spec(join_tags(tags), ',') == tags,
    decreases tags.len(),
{
    if tags.len() == 1 {
        lemma_split_whole(tags[0], ',');
        assert(split_ch_spec(join_tags(tags), ',') =~= tags);
    } else {
        lemma_join_tags_cons(tags);
        lemma_split_glue(tags[0], join_tags(tags.drop_first()), ',');
        assert(forall|i: int|
            0 <= i < tags.drop_first().len() ==> #[trigger] tags.drop_first()[i] == tags[i + 1]);
        lemma_split_join_tags(tags.drop_first());
        assert(split_ch_spec(join_tags(tags), ',') =~= tags);
    }
}

/// Joined well-formed tags start and end blank-free.
proof fn lemma_join_tags_clean(tags: Seq<Seq<char>>)
    requires
        tags.len() >= 1,
        forall|i: int| 0 <= i < tags.len() ==> wf_tag(#[trigger] tags[i]),
        tags.last().len() > 0,
    ensures
        join_tags(tags).len() > 0,
        !is_space(join_tags(tags)[0]),
        !is_space(join_tags(tags).last()),
    decreases tags.len(),
{
    lemma_join_tags_first(tags);
    if tags.len() == 1 {
    } else {
        let j = join_tags(tags);
        assert(j == join_tags(tags.drop_last()) + seq![','] + tags.last());
        assert(j.last() == tags.last().last());
    }
}

/// A nonempty join of trimmed tags starts blank-free.
proof fn lemma_join_tags_first(tags: Seq<Seq<char>>)
    requires
        forall|i: int| 0 <= i < tags.len() ==> wf_tag(#[trigger] tags[i]),
    ensures
        join_tags(tags).len() > 0 ==> !is_space(join_tags(tags)[0]),
    decreases tags.len(),
{
    if tags.len() == 0 {
    } else if tags.len() == 1 {
        assert(join_tags(tags) == tags[0]);
    } else {
        let dl = tags.drop_last();
        assert(forall|i: int| 0 <= i < dl.len() ==> #[trigger] dl[i] == tags[i]);
        lemma_join_tags_first(dl);
        let j = join_tags(tags);
        assert(j == join_tags(dl) + seq![','] + tags.last());
        if join_tags(dl).len() > 0 {
            assert(j[0] == join_tags(dl)[0]);
        } else {
            assert(j[0] == ',');
        }
    }
}

// ---- splitting a task line on `|` ----

/// Every field text is nonempty and blank-free at both ends, and holds
/// no `|` and no newline.
proof fn lemma_fields_clean(t: TaskV)
    requires
        wf_task(t),
    ensures
        forall|i: int|
            0 <= i < fields_of(t).len() ==> {
                let f = #[trigger] fields_of(t)[i];
                f.len() > 0 && !is_space(f[0]) && !is_space(f.last()) && has_no_ch(f, '|')
            },
{
    reveal_strlit("Impact: ");
    reveal_strlit("Urgency: ");
    reveal_strlit("Effort: ");
    reveal_strlit("Computed: ");
    reveal_strlit("Tags: ");
    reveal_strlit("Created: ");
    let fs = fields_of(t);
    if t.priority is Some {
        let p = t.priority->0;
        lemma_dec_roundtrip(p.impact as nat);
        lemma_dec_roundtrip(p.urgency as nat);
        lemma_dec_roundtrip(p.effort as nat);
        lemma_digits_no_ch(dec_digits(p.impact as nat), '|');
        lemma_digits_no_ch(dec_digits(p.urgency as nat), '|');
        lemma_digits_no_ch(dec_digits(p.effort as nat), '|');
        lemma_no_ch_concat("Impact: "@, dec_digits(p.impact as nat), '|');
        lemma_no_ch_concat("Urgency: "@, dec_digits(p.urgency as nat), '|');
        lemma_no_ch_concat("Effort: "@, dec_digits(p.effort as nat), '|');
        if p.effort != 0 {
            let h = crate::record::computed_hundredths_spec(p.impact, p.urgency, p.effort);
            lemma_dec_roundtrip((h / 100) as nat);
            lemma_digits_no_ch(dec_digits((h / 100) as nat), '|');
            lemma_no_ch_concat(dec_digits((h / 100) as nat), seq!['.'], '|');
            lemma_no_ch_concat(
                dec_digits((h / 100) as nat) + seq!['.'],
                seq![
                    crate::numtext::digit_char(h % 100 / 10),
                    crate::numtext::digit_char(h % 10),
                ],
                '|',
            );
            assert(computed_text(p) == dec_digits((h / 100) as nat) + seq!['.'] + seq![
                crate::numtext::digit_char(h % 100 / 10),
                crate::numtext::digit_char(h % 10),
            ]);
            lemma_no_ch_concat("Computed: "@, computed_text(p), '|');
            crate::numtext::lemma_digit_char_val(h % 100 / 10);
            crate::numtext::lemma_digit_char_val(h % 10);
        }
    }
    if t.tags.len() > 0 {
        lemma_join_tags_clean(t.tags);
        assert forall|i: int| 0 <= i < t.tags.len() implies has_no_ch(#[trigger] t.tags[i], '|')
            by {}
        lemma_join_tags_no_ch(t.tags, '|');
        lemma_no_ch_concat("Tags: "@, join_tags(t.tags), '|');
    }
    if t.created is Some {
        lemma_no_ch_concat("Created: "@, t.created->0, '|');
    }
    assert forall|i: int| 0 <= i < fs.len() implies {
        let f = #[trigger] fs[i];
        f.len() > 0 && !is_space(f[0]) && !is_space(f.last()) && has_no_ch(f, '|')
    } by {
        let pf = prio_fields(t.priority);
        let tf = tags_fields(t.tags);
        let cf = created_fields(t.created);
        if i < pf.len() {
            assert(fs[i] == pf[i]);
        } else if i < pf.len() + tf.len() {
            assert(fs[i] == tf[i - pf.len()]);
        } else {
            assert(fs[i] == cf[i - pf.len() - tf.len()]);
        }
    }
}

/// The head of a task line holds no `|` and no newline after it.
proof fn lemma_core_no_pipe(t: TaskV)
    requires
        wf_task(t),
    ensures
        has_no_ch(task_core(t), '|'),
{
    reveal_strlit("* [ID:");
    reveal_strlit("] ");
    lemma_dec_roundtrip(t.id as nat);
    lemma_digits_no_ch(dec_digits(t.id as nat), '|');
    lemma_no_ch_concat("* [ID:"@, dec_digits(t.id as nat), '|');
    lemma_no_ch_concat("* [ID:"@ + dec_digits(t.id as nat), "] "@, '|');
    lemma_no_ch_concat("* [ID:"@ + dec_digits(t.id as nat) + "] "@, t.title, '|');
}

/// `pipe_join` unrolled from the front.
proof fn lemma_pipe_join_cons(core: Seq<char>, fs: Seq<Seq<char>>)
    requires
        fs.len() > 0,
    ensures
        pipe_join(core, fs) == core + sepj() + pipe_join(fs[0], fs.drop_first()),
    decreases fs.len(),
{
    if fs.len() == 1 {
        assert(fs.drop_last() =~= Seq::<Seq<char>>::empty());
        assert(fs.drop_first() =~= Seq::<Seq<char>>::empty());
        assert(pipe_join(core, fs) == pipe_join(core, fs.drop_last()) + sepj() + fs.last());
    } else {
        let dl = fs.drop_last();
        lemma_pipe_join_cons(core, dl);
        assert(dl[0] == fs[0]);
        assert(fs.drop_first().drop_last() =~= dl.drop_first());
        assert(fs.drop_first().last() == fs.last());
        assert(pipe_join(fs[0], fs.drop_first()) == pipe_join(fs[0], dl.drop_first()) + sepj()
            + fs.last());
        assert(pipe_join(core, fs) =~= core + sepj() + pipe_join(fs[0], fs.drop_first()));
    }
}

/// Splitting the joined fields, after the blank their separator left.
proof fn lemma_split_mid(fs: Seq<Seq<char>>)
    requires
        fs.len() >= 1,
        forall|i: int| 0 <= i < fs.len() ==> has_no_ch(#[trigger] fs[i], '|'),
    ensures
        split_ch_spec(seq![' '] + pipe_join(fs[0], fs.drop_first()), '|') == mid_pieces(fs),
    decreases fs.len(),
{
    if fs.len() == 1 {
        assert(fs.drop_first() =~= Seq::<Seq<char>>::empty());
        assert(pipe_join(fs[0], fs.drop_first()) == fs[0]);
        lemma_no_ch_concat(seq![' '], fs[0], '|');
        lemma_split_whole(seq![' '] + fs[0], '|');
        assert(split_ch_spec(seq![' '] + fs[0], '|') =~= mid_pieces(fs));
    } else {
        let rest = fs.drop_first();
        lemma_pipe_join_cons(fs[0], rest);
        let a = seq![' '] + fs[0] + seq![' '];
        let b = seq![' '] + pipe_join(rest[0], rest.drop_first());
        assert(seq![' '] + pipe_join(fs[0], fs.drop_first()) =~= a + seq!['|'] + b) by {
            assert(pipe_join(fs[0], rest) == fs[0] + sepj() + pipe_join(rest[0], rest.drop_first()));
        }
        lemma_no_ch_concat(seq![' '], fs[0], '|');
        lemma_no_ch_concat(seq![' '] + fs[0], seq![' '], '|');
        lemma_split_glue(a, b, '|');
        assert(forall|i: int| 0 <= i < rest.len() ==> #[trigger] rest[i] == fs[i + 1]);
        lemma_split_mid(rest);
        assert(split_ch_spec(seq![' '] + pipe_join(fs[0], fs.drop_first()), '|') =~= mid_pieces(
            fs,
        ));
    }
}

/// Splitting a whole task line on `|`.
proof fn lemma_split_task_line(t: TaskV)
    requires
        wf_task(t),
    ensures
        fields_of(t).len() == 0 ==> split_ch_spec(task_line_text(t), '|') == seq![task_core(t)],
        fields_of(t).len() > 0 ==> split_ch_spec(task_line_text(t), '|') == seq![
            task_core(t) + seq![' '],
        ] + mid_pieces(fields_of(t)),
{
    lemma_task_line_is_join(t);
    lemma_core_no_pipe(t);
    lemma_fields_clean(t);
    let fs = fields_of(t);
    if fs.len() == 0 {
        assert(task_line_text(t) == task_core(t));
        lemma_split_whole(task_core(t), '|');
    } else {
        lemma_pipe_join_cons(task_core(t), fs);
        let a = task_core(t) + seq![' '];
        let b = seq![' '] + pipe_join(fs[0], fs.drop_first());
        assert(task_line_text(t) =~= a + seq!['|'] + b);
        lemma_no_ch_concat(task_core(t), seq![' '], '|');
        lemma_split_glue(a, b, '|');
        lemma_split_mid(fs);
    }
}

// ---- reading the fields back ----

/// `parse_fields` restarted from a given state.
pub open spec fn fold_fields(st: FieldSt, ps: Seq<Seq<char>>) -> FieldSt
    decreases ps.len(),
{
    if ps.len() == 0 {
        st
    } else {
        apply_field(fold_fields(st, ps.drop_last()), ps.last())
    }
}

proof fn lemma_parse_is_fold(ps: Seq<Seq<char>>)
    ensures
        parse_fields(ps) == fold_fields(init_fields(), ps),
    decreases ps.len(),
{
    if ps.len() > 0 {
        lemma_parse_is_fold(ps.drop_last());
    }
}

proof fn lemma_fold_append(st: FieldSt, ps: Seq<Seq<char>>, qs: Seq<Seq<char>>)
    ensures
        fold_fields(st, ps + qs) == fold_fields(fold_fields(st, ps), qs),
    decreases qs.len(),
{
    if qs.len() == 0 {
        assert(ps + qs =~= ps);
    } else {
        assert((ps + qs).drop_last() =~= ps + qs.drop_last());
        assert((ps + qs).last() == qs.last());
        lemma_fold_append(st, ps, qs.drop_last());
    }
}

/// Reading a segment looks only at its trimmed content.
proof fn lemma_fold_trim_eq(st: FieldSt, ps: Seq<Seq<char>>, qs: Seq<Seq<char>>)
    requires
        ps.len() == qs.len(),
        forall|i: int| 0 <= i < ps.len() ==> trim_spec(#[trigger] ps[i]) == trim_spec(qs[i]),
    ensures
        fold_fields(st, ps) == fold_fields(st, qs),
    decreases ps.len(),
{
    if ps.len() > 0 {
        assert(forall|i: int|
            0 <= i < ps.drop_last().len() ==> #[trigger] ps.drop_last()[i] == ps[i]
                && qs.drop_last()[i] == qs[i]);
        lemma_fold_trim_eq(st, ps.drop_last(), qs.drop_last());
        assert(trim_spec(ps.last()) == trim_spec(qs.last()));
    }
}

/// The split pieces trim to the fields themselves.
proof fn lemma_mid_trims(fs: Seq<Seq<char>>)
    requires
        forall|i: int|
            0 <= i < fs.len() ==> {
                let f = #[trigger] fs[i];
                f.len() > 0 && !is_space(f[0]) && !is_space(f.last())
            },
    ensures
        mid_pieces(fs).len() == fs.len(),
        forall|i: int|
            0 <= i < fs.len() ==> trim_spec(#[trigger] mid_pieces(fs)[i]) == trim_spec(fs[i]),
    decreases fs.len(),
{
    if fs.len() == 0 {
    } else if fs.len() == 1 {
        lemma_trim_spaces_around(seq![' '], fs[0], Seq::empty());
        assert(seq![' '] + fs[0] + Seq::<char>::empty() =~= seq![' '] + fs[0]);
        lemma_trim_clean(fs[0]);
        assert(mid_pieces(fs)[0] == seq![' '] + fs[0]);
    } else {
        let rest = fs.drop_first();
        assert(forall|i: int| 0 <= i < rest.len() ==> #[trigger] rest[i] == fs[i + 1]);
        lemma_mid_trims(rest);
        lemma_trim_spaces_around(seq![' '], fs[0], seq![' ']);
        lemma_trim_clean(fs[0]);
        assert(mid_pieces(fs)[0] == seq![' '] + fs[0] + seq![' ']);
        assert forall|i: int|
            0 <= i < fs.len() implies trim_spec(#[trigger] mid_pieces(fs)[i]) == trim_spec(fs[i])
            by {
            if i > 0 {
                assert(mid_pieces(fs)[i] == mid_pieces(rest)[i - 1]);
            }
        }
    }
}

/// A labelled number field sets exactly its number.
proof fn lemma_apply_number(st: FieldSt, part: Seq<char>, label: int, v: u8)
    requires
        label == 0 ==> trim_spec(part) == "Impact: "@ + dec_digits(v as nat),
        label == 1 ==> trim_spec(part) == "Urgency: "@ + dec_digits(v as nat),
        label == 2 ==> trim_spec(part) == "Effort: "@ + dec_digits(v as nat),
        0 <= label <= 2,
    ensures
        label == 0 ==> apply_field(st, part) == (FieldSt { impact: Some(v), ..st }),
        label == 1 ==> apply_field(st, part) == (FieldSt { urgency: Some(v), ..st }),
        label == 2 ==> apply_field(st, part) == (FieldSt { effort: Some(v), ..st }),
{
    reveal_strlit("Impact: ");
    reveal_strlit("Urgency: ");
    reveal_strlit("Effort: ");
    reveal_strlit("Impact:");
    reveal_strlit("Urgency:");
    reveal_strlit("Effort:");
    reveal_strlit("Tags:");
    reveal_strlit("Created:");
    let p = trim_spec(part);
    lemma_dec_roundtrip(v as nat);
    let d = dec_digits(v as nat);
    if label == 0 {
        assert(p.subrange(0, 7) =~= "Impact:"@);
        assert(starts_with_spec(p, "Impact:"@));
        assert(p.subrange(7, p.len() as int) =~= seq![' '] + d);
        lemma_trim_spaces_around(seq![' '], d, Seq::empty());
        assert(seq![' '] + d + Seq::<char>::empty() =~= seq![' '] + d);
        assert(apply_field(st, part) =~= FieldSt { impact: Some(v), ..st });
    } else if label == 1 {
        assert(p[0] == 'U');
        assert(p.len() >= 7 ==> p.subrange(0, 7)[0] == 'U');
        assert(!starts_with_spec(p, "Impact:"@));
        assert(p.subrange(0, 8) =~= "Urgency:"@);
        assert(starts_with_spec(p, "Urgency:"@));
        assert(p.subrange(8, p.len() as int) =~= seq![' '] + d);
        lemma_trim_spaces_around(seq![' '], d, Seq::empty());
        assert(seq![' '] + d + Seq::<char>::empty() =~= seq![' '] + d);
        assert(apply_field(st, part) =~= FieldSt { urgency: Some(v), ..st });
    } else {
        assert(p[0] == 'E');
        assert(p.len() >= 7 ==> p.subrange(0, 7)[0] == 'E');
        assert(p.len() >= 8 ==> p.subrange(0, 8)[0] == 'E');
        assert(!starts_with_spec(p, "Impact:"@));
        assert(!starts_with_spec(p, "Urgency:"@));
        assert(p.subrange(0, 7) =~= "Effort:"@);
        assert(starts_with_spec(p, "Effort:"@));
        assert(p.subrange(7, p.len() as int) =~= seq![' '] + d);
        lemma_trim_spaces_around(seq![' '], d, Seq::empty());
        assert(seq![' '] + d + Seq::<char>::empty() =~= seq![' '] + d);
        assert(apply_field(st, part) =~= FieldSt { effort: Some(v), ..st });
    }
}

/// The computed field is written but never read.
proof fn lemma_apply_computed(st: FieldSt, part: Seq<char>, tail: Seq<char>)
    requires
        trim_spec(part) == "Computed: "@ + tail,
    ensures
        apply_field(st, part) == st,
{
    reveal_strlit("Computed: ");
    reveal_strlit("Impact:");
    reveal_strlit("Urgency:");
    reveal_strlit("Effort:");
    reveal_strlit("Tags:");
    reveal_strlit("Created:");
    let p = trim_spec(part);
    assert(p[0] == 'C');
    assert(p[1] == 'o');
    assert(p.len() >= 7 ==> p.subrange(0, 7)[0] == 'C');
    assert(p.len() >= 8 ==> p.subrange(0, 8)[0] == 'C');
    assert(p.len() >= 5 ==> p.subrange(0, 5)[0] == 'C');
    assert(p.len() >= 8 ==> p.subrange(0, 8)[1] == 'o');
    assert(!starts_with_spec(p, "Impact:"@));
    assert(!starts_with_spec(p, "Urgency:"@));
    assert(!starts_with_spec(p, "Effort:"@));
    assert(!starts_with_spec(p, "Tags:"@));
    assert(!starts_with_spec(p, "Created:"@));
}

/// The tags field sets exactly the tags.
proof fn lemma_apply_tags(st: FieldSt, part: Seq<char>, tags: Seq<Seq<char>>)
    requires
        tags.len() >= 1,
        forall|i: int| 0 <= i < tags.len() ==> wf_tag(#[trigger] tags[i]),
        tags.last().len() > 0,
        trim_spec(part) == "Tags: "@ + join_tags(tags),
    ensures
        apply_field(st, part) == (FieldSt { tags, ..st }),
{
    reveal_strlit("Tags: ");
    reveal_strlit("Impact:");
    reveal_strlit("Urgency:");
    reveal_strlit("Effort:");
    reveal_strlit("Tags:");
    let p = trim_spec(part);
    assert(p[0] == 'T');
    assert(p.len() >= 7 ==> p.subrange(0, 7)[0] == 'T');
    assert(p.len() >= 8 ==> p.subrange(0, 8)[0] == 'T');
    assert(!starts_with_spec(p, "Impact:"@));
    assert(!starts_with_spec(p, "Urgency:"@));
    assert(!starts_with_spec(p, "Effort:"@));
    assert(p.subrange(0, 5) =~= "Tags:"@);
    assert(starts_with_spec(p, "Tags:"@));
    let j = join_tags(tags);
    assert(p.subrange(5, p.len() as int) =~= seq![' '] + j);
    lemma_join_tags_clean(tags);
    lemma_trim_spaces_around(seq![' '], j, Seq::empty());
    assert(seq![' '] + j + Seq::<char>::empty() =~= seq![' '] + j);
    assert(forall|i: int| 0 <= i < tags.len() ==> has_no_ch(#[trigger] tags[i], ','));
    lemma_split_join_tags(tags);
    let back = split_ch_spec(j, ',').map_values(|x: Seq<char>| trim_spec(x));
    assert forall|i: int| 0 <= i < tags.len() implies back[i] == tags[i] by {
        lemma_trim_clean(tags[i]);
    }
    assert(back =~= tags);
}

/// The created field sets exactly the created date.
proof fn lemma_apply_created(st: FieldSt, part: Seq<char>, c: Seq<char>)
    requires
        wf_text(c),
        c.len() > 0,
        trim_spec(part) == "Created: "@ + c,
    ensures
        apply_field(st, part) == (FieldSt { created: Some(c), ..st }),
{
    reveal_strlit("Created: ");
    reveal_strlit("Impact:");
    reveal_strlit("Urgency:");
    reveal_strlit("Effort:");
    reveal_strlit("Tags:");
    reveal_strlit("Created:");
    let p = trim_spec(part);
    assert(p[0] == 'C');
    assert(p[1] == 'r');
    assert(p.len() >= 7 ==> p.subrange(0, 7)[0] == 'C');
    assert(p.len() >= 8 ==> p.subrange(0, 8)[0] == 'C');
    assert(p.len() >= 5 ==> p.subrange(0, 5)[0] == 'C');
    assert(!starts_with_spec(p, "Impact:"@));
    assert(!starts_with_spec(p, "Urgency:"@));
    assert(!starts_with_spec(p, "Effort:"@));
    assert(!starts_with_spec(p, "Tags:"@));
    assert(p.subrange(0, 8) =~= "Created:"@);
    assert(starts_with_spec(p, "Created:"@));
    assert(p.subrange(8, p.len() as int) =~= seq![' '] + c);
    lemma_trim_spaces_around(seq![' '], c, Seq::empty());
    assert(seq![' '] + c + Seq::<char>::empty() =~= seq![' '] + c);
}

/// Folding the priority group.
proof fn lemma_fold_prio(st: FieldSt, po: Option<Priority>)
    ensures
        fold_fields(st, prio_fields(po)) == (match po {
            Some(p) => FieldSt {
                impact: Some(p.impact),
                urgency: Some(p.urgency),
                effort: Some(p.effort),
                ..st
            },
            None => st,
        }),
{
    match po {
        Some(p) => {
            reveal_strlit("Impact: ");
            reveal_strlit("Urgency: ");
            reveal_strlit("Effort: ");
            reveal_strlit("Computed: ");
            lemma_dec_roundtrip(p.impact as nat);
            lemma_dec_roundtrip(p.urgency as nat);
            lemma_dec_roundtrip(p.effort as nat);
            let a = "Impact: "@ + dec_digits(p.impact as nat);
            let b = "Urgency: "@ + dec_digits(p.urgency as nat);
            let c = "Effort: "@ + dec_digits(p.effort as nat);
            assert(a.last() == dec_digits(p.impact as nat).last());
            assert(b.last() == dec_digits(p.urgency as nat).last());
            assert(c.last() == dec_digits(p.effort as nat).last());
            assert(seq![a].drop_last() =~= Seq::<Seq<char>>::empty());
            assert(seq![a, b].drop_last() =~= seq![a]);
            assert(seq![a, b, c].drop_last() =~= seq![a, b]);
            lemma_field_clean_lit(a);
            lemma_field_clean_lit(b);
            lemma_field_clean_lit(c);
            lemma_apply_number(st, a, 0, p.impact);
            let st1 = FieldSt { impact: Some(p.impact), ..st };
            lemma_apply_number(st1, b, 1, p.urgency);
            let st2 = FieldSt { urgency: Some(p.urgency), ..st1 };
            lemma_apply_number(st2, c, 2, p.effort);
            let st3 = FieldSt { effort: Some(p.effort), ..st2 };
            assert(fold_fields(st, Seq::<Seq<char>>::empty()) == st);
            assert(fold_fields(st, seq![a]) == apply_field(
                fold_fields(st, seq![a].drop_last()),
                a,
            ));
            assert(fold_fields(st, seq![a]) == st1);
            assert(fold_fields(st, seq![a, b]) == apply_field(
                fold_fields(st, seq![a, b].drop_last()),
                b,
            ));
            assert(fold_fields(st, seq![a, b]) == st2);
            assert(fold_fields(st, seq![a, b, c]) == apply_field(
                fold_fields(st, seq![a, b, c].drop_last()),
                c,
            ));
            assert(fold_fields(st, seq![a, b, c]) == st3);
            if p.effort != 0 {
                let h = crate::record::computed_hundredths_spec(p.impact, p.urgency, p.effort);
                let d = "Computed: "@ + computed_text(p);
                assert(prio_fields(po) =~= seq![a, b, c].push(d));
                assert(prio_fields(po).drop_last() =~= seq![a, b, c]);
                crate::numtext::lemma_digit_char_val(h % 10);
                assert(computed_text(p).last() == crate::numtext::digit_char(h % 10));
                assert(d.last() == computed_text(p).last());
                lemma_field_clean_lit(d);
                lemma_apply_computed(st3, d, computed_text(p));
            } else {
                assert(prio_fields(po) =~= seq![a, b, c]);
            }
        },
        None => {
            assert(prio_fields(po) =~= Seq::<Seq<char>>::empty());
        },
    }
}

/// A field text used as its own segment trims to itself.
proof fn lemma_field_clean_lit(f: Seq<char>)
    requires
        f.len() > 0 ==> !is_space(f[0]) && !is_space(f.last()),
    ensures
        trim_spec(f) == f,
{
    lemma_trim_clean(f);
}

/// Folding the tags group.
proof fn lemma_fold_tags(st: FieldSt, tags: Seq<Seq<char>>)
    requires
        forall|i: int| 0 <= i < tags.len() ==> wf_tag(#[trigger] tags[i]),
        tags.len() > 0 ==> tags.last().len() > 0,
    ensures
        fold_fields(st, tags_fields(tags)) == (if tags.len() > 0 {
            FieldSt { tags, ..st }
        } else {
            st
        }),
{
    if tags.len() > 0 {
        let f = "Tags: "@ + join_tags(tags);
        assert(tags_fields(tags) =~= seq![f]);
        assert(seq![f].drop_last() =~= Seq::<Seq<char>>::empty());
        reveal_strlit("Tags: ");
        lemma_join_tags_clean(tags);
        assert(f[0] == 'T');
        assert(f.last() == join_tags(tags).last());
        lemma_field_clean_lit(f);
        lemma_apply_tags(st, f, tags);
        assert(fold_fields(st, Seq::<Seq<char>>::empty()) == st);
        assert(fold_fields(st, seq![f]) == apply_field(fold_fields(st, seq![f].drop_last()), f));
    } else {
        assert(tags_fields(tags) =~= Seq::<Seq<char>>::empty());
        assert(fold_fields(st, tags_fields(tags)) == st);
    }
}

/// Folding the created group.
proof fn lemma_fold_created(st: FieldSt, c: Option<Seq<char>>)
    requires
        c matches Some(x) ==> wf_text(x) && x.len() > 0,
    ensures
        fold_fields(st, created_fields(c)) == (match c {
            Some(x) => FieldSt { created: Some(x), ..st },
            None => st,
        }),
{
    match c {
        Some(x) => {
            let f = "Created: "@ + x;
            assert(created_fields(c) =~= seq![f]);
            assert(seq![f].drop_last() =~= Seq::<Seq<char>>::empty());
            reveal_strlit("Created: ");
            assert(f[0] == 'C');
            assert(f.last() == x.last());
            lemma_field_clean_lit(f);
            lemma_apply_created(st, f, x);
            assert(fold_fields(st, Seq::<Seq<char>>::empty()) == st);
            assert(fold_fields(st, seq![f]) == apply_field(
                fold_fields(st, seq![f].drop_last()),
                f,
            ));
        },
        None => {
            assert(created_fields(c) =~= Seq::<Seq<char>>::empty());
            assert(fold_fields(st, created_fields(c)) == st);
        },
    }
}

/// All fields of a well-formed task read back as written.
proof fn lemma_fields_roundtrip(t: TaskV)
    requires
        wf_task(t),
    ensures
        parse_fields(mid_pieces(fields_of(t))) == (FieldSt {
            impact: match t.priority {
                Some(p) => Some(p.impact),
                None => None,
            },
            urgency: match t.priority {
                Some(p) => Some(p.urgency),
                None => None,
            },
            effort: match t.priority {
                Some(p) => Some(p.effort),
                None => None,
            },
            tags: t.tags,
            created: t.created,
        }),
{
    let fs = fields_of(t);
    lemma_fields_clean(t);
    lemma_mid_trims(fs);
    lemma_parse_is_fold(mid_pieces(fs));
    assert forall|i: int| 0 <= i < fs.len() implies trim_spec(#[trigger] fs[i]) == fs[i] by {
        lemma_trim_clean(fs[i]);
    }
    lemma_fold_trim_eq(init_fields(), mid_pieces(fs), fs);
    lemma_fold_append(init_fields(), prio_fields(t.priority), tags_fields(t.tags));
    lemma_fold_append(
        init_fields(),
        prio_fields(t.priority) + tags_fields(t.tags),
        created_fields(t.created),
    );
    lemma_fold_prio(init_fields(), t.priority);
    let st1 = fold_fields(init_fields(), prio_fields(t.priority));
    lemma_fold_tags(st1, t.tags);
    let st2 = fold_fields(st1, tags_fields(t.tags));
    lemma_fold_created(st2, t.created);
    assert(fs == (prio_fields(t.priority) + tags_fields(t.tags)) + created_fields(t.created));
    assert(fold_fields(init_fields(), fs) =~= FieldSt {
        impact: match t.priority {
            Some(p) => Some(p.impact),
            None => None,
        },
        urgency: match t.priority {
            Some(p) => Some(p.urgency),
            None => None,
        },
        effort: match t.priority {
            Some(p) => Some(p.effort),
            None => None,
        },
        tags: t.tags,
        created: t.created,
    });
}

/// The head with an empty title is the clean head plus one blank.
proof fn lemma_core_shape(t: TaskV)
    requires
        wf_task(t),
    ensures
        t.title.len() > 0 ==> task_core(t) == task_core_clean(t),
        t.title.len() == 0 ==> task_core(t) == task_core_clean(t) + seq![' '],
        task_core_clean(t).len() > 0,
        task_core_clean(t)[0] == '*',
        !is_space(task_core_clean(t)[0]),
        !is_space(task_core_clean(t).last()),
{
    reveal_strlit("* [ID:");
    reveal_strlit("] ");
    lemma_dec_roundtrip(t.id as nat);
    let d = dec_digits(t.id as nat);
    if t.title.len() > 0 {
        assert(task_core_clean(t).last() == t.title.last());
    } else {
        assert(task_core(t) =~= task_core_clean(t) + seq![' ']);
        assert(task_core_clean(t).last() == ']');
    }
}

/// A task line, trimmed, is itself, and announces itself with `*`.
proof fn lemma_trim_task_line(t: TaskV)
    requires
        wf_task(t),
    ensures
        trim_spec(task_line_text(t)) == task_line_text(t),
        task_line_text(t).len() > 0,
        task_line_text(t)[0] == '*',
{
    lemma_task_line_is_join(t);
    lemma_core_shape(t);
    lemma_fields_clean(t);
    let fs = fields_of(t);
    let line = task_line_text(t);
    if fs.len() == 0 {
        assert(prio_fields(t.priority).len() == 0 && tags_fields(t.tags).len() == 0
            && created_fields(t.created).len() == 0);
        assert(t.priority is None && t.tags.len() == 0 && t.created is None);
        assert(t.title.len() > 0);
        assert(line == task_core(t));
        lemma_trim_clean(line);
    } else {
        lemma_pipe_join_cons(task_core(t), fs);
        assert(line[0] == task_core(t)[0]);
        assert(task_core(t)[0] == task_core_clean(t)[0]);
        assert(line == pipe_join(task_core(t), fs.drop_last()) + sepj() + fs.last());
        assert(line.last() == fs.last().last());
        lemma_trim_clean(line);
    }
}

/// Reading a rendered task line gives the task back.
#[verifier::rlimit(60)]
proof fn lemma_parse_task_roundtrip(t: TaskV)
    requires
        wf_task(t),
    ensures
        parse_task_spec(task_line_text(t)) == t,
{
    reveal_strlit("* [ID:");
    reveal_strlit("] ");
    reveal_strlit("[ID:");
    lemma_dec_roundtrip(t.id as nat);
    let d = dec_digits(t.id as nat);
    let dlen = d.len() as int;
    lemma_split_task_line(t);
    lemma_core_shape(t);
    lemma_fields_clean(t);
    let line = task_line_text(t);
    let parts = split_ch_spec(line, '|');
    let fs = fields_of(t);
    let first = task_core_clean(t);
    // the first piece trims to the clean head
    if fs.len() == 0 {
        assert(parts[0] == task_core(t));
        assert(prio_fields(t.priority).len() == 0 && tags_fields(t.tags).len() == 0
            && created_fields(t.created).len() == 0);
        assert(t.priority is None && t.tags.len() == 0 && t.created is None);
        assert(t.title.len() > 0);
        lemma_trim_clean(first);
        assert(trim_spec(parts[0]) == first);
        assert(parts.subrange(1, parts.len() as int) =~= mid_pieces(fs));
    } else {
        assert(parts[0] == task_core(t) + seq![' ']);
        if t.title.len() > 0 {
            assert(task_core(t) + seq![' '] =~= Seq::<char>::empty() + first + seq![' ']);
            lemma_trim_spaces_around(Seq::empty(), first, seq![' ']);
        } else {
            assert(task_core(t) + seq![' '] =~= Seq::<char>::empty() + first + seq![' ', ' ']);
            lemma_trim_spaces_around(Seq::empty(), first, seq![' ', ' ']);
        }
        assert(trim_spec(parts[0]) == first);
        assert(parts.subrange(1, parts.len() as int) =~= mid_pieces(fs));
    }
    // the id
    assert(first.subrange(2, 6) =~= "[ID:"@);
    assert(occurs_at(first, "[ID:"@, 2));
    assert(first[0] == '*' && first[1] == ' ');
    assert forall|k: int| 0 <= k < 2 implies !occurs_at(first, "[ID:"@, k) by {
        if occurs_at(first, "[ID:"@, k) {
            assert(first.subrange(k, k + 4)[0] == first[k]);
        }
    }
    lemma_find_sub_first(first, "[ID:"@, 2);
    lemma_digits_no_ch(d, ']');
    assert(first[6 + dlen] == ']');
    assert forall|k: int| 0 <= k < 6 + dlen implies first[k] != ']' by {
        if 6 <= k {
            assert(first[k] == d[k - 6]);
        }
    }
    lemma_find_ch_first(first, ']', 6 + dlen);
    assert(first.subrange(6, 6 + dlen) =~= d);
    assert(crate::numtext::parse_uint_spec(d, usize::MAX as int) == Some(t.id));
    // the title
    if t.title.len() > 0 {
        assert(first.subrange(7 + dlen, first.len() as int) =~= seq![' '] + t.title);
        assert(seq![' '] + t.title + Seq::<char>::empty() =~= seq![' '] + t.title);
        lemma_trim_spaces_around(seq![' '], t.title, Seq::empty());
    } else {
        assert(first.len() == 7 + dlen);
        assert(first.subrange(7 + dlen, first.len() as int) =~= Seq::<char>::empty());
        lemma_trim_clean(Seq::<char>::empty());
    }
    // the fields
    lemma_fields_roundtrip(t);
    assert(parse_task_spec(line) =~= t);
}

/// The lines of a rendered board.
proof fn lemma_board_text_lines(b: BoardV)
    requires
        wf_board(b),
    ensures
        split_ch_spec(board_text(b), '\n') == board_lines(b),
{
    reveal_strlit("# TUI Kanban Board: ");
    reveal_strlit("Date: ");
    reveal_strlit("Description: ");
    let l1 = "# TUI Kanban Board: "@ + b.name;
    let l2 = "Date: "@ + b.date;
    let l3 = "Description: "@ + b.description;
    let ct = columns_text(b.columns);
    lemma_no_ch_concat("# TUI Kanban Board: "@, b.name, '\n');
    lemma_no_ch_concat("Date: "@, b.date, '\n');
    lemma_no_ch_concat("Description: "@, b.description, '\n');
    let r3 = Seq::<char>::empty() + seq!['\n'] + ct;
    let r2 = l3 + seq!['\n'] + r3;
    let r1 = l2 + seq!['\n'] + r2;
    assert(board_text(b) =~= l1 + seq!['\n'] + r1);
    lemma_split_glue(l1, r1, '\n');
    lemma_split_glue(l2, r2, '\n');
    lemma_split_glue(l3, r3, '\n');
    lemma_split_glue(Seq::empty(), ct, '\n');
    lemma_split_columns(b.columns);
    assert(split_ch_spec(board_text(b), '\n') =~= board_lines(b));
}

// ---- reading the lines back ----

/// `parse_lines` restarted from a given state.
pub open spec fn parse_lines_from(st: ParseSt, lines: Seq<Seq<char>>) -> ParseSt
    decreases lines.len(),
{
    if lines.len() == 0 {
        st
    } else {
        parse_line(parse_lines_from(st, lines.drop_last()), lines.last())
    }
}

proof fn lemma_parse_lines_is_from(lines: Seq<Seq<char>>)
    ensures
        parse_lines(lines) == parse_lines_from(init_state(), lines),
    decreases lines.len(),
{
    if lines.len() > 0 {
        lemma_parse_lines_is_from(lines.drop_last());
    }
}

proof fn lemma_from_append(st: ParseSt, ps: Seq<Seq<char>>, qs: Seq<Seq<char>>)
    ensures
        parse_lines_from(st, ps + qs) == parse_lines_from(parse_lines_from(st, ps), qs),
    decreases qs.len(),
{
    if qs.len() == 0 {
        assert(ps + qs =~= ps);
    } else {
        assert((ps + qs).drop_last() =~= ps + qs.drop_last());
        assert((ps + qs).last() == qs.last());
        lemma_from_append(st, ps, qs.drop_last());
    }
}

/// A blank line changes nothing.
proof fn lemma_step_blank(st: ParseSt)
    ensures
        parse_line(st, Seq::<char>::empty()) == st,
{
    lemma_trim_clean(Seq::<char>::empty());
}

/// The board-name line sets the name.
proof fn lemma_step_header(st: ParseSt, name: Seq<char>)
    requires
        wf_text(name),
    ensures
        parse_line(st, "# TUI Kanban Board: "@ + name) == (ParseSt { name, ..st }),
{
    reveal_strlit("# TUI Kanban Board: ");
    reveal_strlit("TUI Kanban Board:");
    let line = "# TUI Kanban Board: "@ + name;
    let core = if name.len() > 0 {
        line
    } else {
        "# TUI Kanban Board: "@.subrange(0, 19)
    };
    if name.len() > 0 {
        assert(line[0] == '#');
        assert(line.last() == name.last());
        lemma_trim_clean(line);
    } else {
        assert(line =~= Seq::<char>::empty() + core + seq![' ']);
        assert(core[0] == '#');
        assert(core.last() == ':');
        lemma_trim_spaces_around(Seq::empty(), core, seq![' ']);
    }
    let t = trim_spec(line);
    assert(t == core);
    assert(t[0] == '#');
    assert(t.subrange(2, 19) =~= "TUI Kanban Board:"@);
    assert(occurs_at(t, "TUI Kanban Board:"@, 2));
    assert forall|k: int| 0 <= k < 2 implies !occurs_at(t, "TUI Kanban Board:"@, k) by {
        if occurs_at(t, "TUI Kanban Board:"@, k) {
            assert(t.subrange(k, k + 17)[0] == t[k]);
        }
    }
    lemma_find_sub_first(t, "TUI Kanban Board:"@, 2);
    if name.len() > 0 {
        assert(t.subrange(19, t.len() as int) =~= seq![' '] + name);
        assert(seq![' '] + name + Seq::<char>::empty() =~= seq![' '] + name);
        lemma_trim_spaces_around(seq![' '], name, Seq::empty());
    } else {
        assert(t.subrange(19, t.len() as int) =~= Seq::<char>::empty());
        lemma_trim_clean(Seq::<char>::empty());
    }
    assert(parse_line(st, line) =~= (ParseSt { name, ..st }));
}

/// The date line sets the date.
proof fn lemma_step_date(st: ParseSt, date: Seq<char>)
    requires
        wf_text(date),
    ensures
        parse_line(st, "Date: "@ + date) == (ParseSt { date, ..st }),
{
    reveal_strlit("Date: ");
    reveal_strlit("Date:");
    let line = "Date: "@ + date;
    let core = if date.len() > 0 {
        line
    } else {
        "Date: "@.subrange(0, 5)
    };
    if date.len() > 0 {
        assert(line[0] == 'D' && line.last() == date.last());
        lemma_trim_clean(line);
    } else {
        assert(line =~= Seq::<char>::empty() + core + seq![' ']);
        assert(core[0] == 'D' && core.last() == ':');
        lemma_trim_spaces_around(Seq::empty(), core, seq![' ']);
    }
    let t = trim_spec(line);
    assert(t == core);
    assert(t[0] == 'D');
    assert(t.subrange(0, 5) =~= "Date:"@);
    assert(starts_with_spec(t, "Date:"@));
    if date.len() > 0 {
        assert(t.subrange(5, t.len() as int) =~= seq![' '] + date);
        assert(seq![' '] + date + Seq::<char>::empty() =~= seq![' '] + date);
        lemma_trim_spaces_around(seq![' '], date, Seq::empty());
    } else {
        assert(t.subrange(5, t.len() as int) =~= Seq::<char>::empty());
        lemma_trim_clean(Seq::<char>::empty());
    }
    assert(parse_line(st, line) =~= (ParseSt { date, ..st }));
}

/// The description line sets the description.
proof fn lemma_step_desc(st: ParseSt, desc: Seq<char>)
    requires
        wf_text(desc),
    ensures
        parse_line(st, "Description: "@ + desc) == (ParseSt { description: desc, ..st }),
{
    reveal_strlit("Description: ");
    reveal_strlit("Description:");
    reveal_strlit("Date:");
    let line = "Description: "@ + desc;
    let core = if desc.len() > 0 {
        line
    } else {
        "Description: "@.subrange(0, 12)
    };
    if desc.len() > 0 {
        assert(line[0] == 'D' && line.last() == desc.last());
        lemma_trim_clean(line);
    } else {
        assert(line =~= Seq::<char>::empty() + core + seq![' ']);
        assert(core[0] == 'D' && core.last() == ':');
        lemma_trim_spaces_around(Seq::empty(), core, seq![' ']);
    }
    let t = trim_spec(line);
    assert(t == core);
    assert(t[0] == 'D');
    assert(t[2] == 's');
    assert(t.len() >= 5 ==> t.subrange(0, 5)[2] == 's');
    assert(!starts_with_spec(t, "Date:"@));
    assert(t.subrange(0, 12) =~= "Description:"@);
    assert(starts_with_spec(t, "Description:"@));
    if desc.len() > 0 {
        assert(t.subrange(12, t.len() as int) =~= seq![' '] + desc);
        assert(seq![' '] + desc + Seq::<char>::empty() =~= seq![' '] + desc);
        lemma_trim_spaces_around(seq![' '], desc, Seq::empty());
    } else {
        assert(t.subrange(12, t.len() as int) =~= Seq::<char>::empty());
        lemma_trim_clean(Seq::<char>::empty());
    }
    assert(parse_line(st, line) =~= (ParseSt { description: desc, ..st }));
}

/// A column-header line closes the open column and opens the named one.
proof fn lemma_step_colhdr(st: ParseSt, name: Seq<char>)
    requires
        wf_text(name),
    ensures
        parse_line(st, colhdr_line(name)) == (ParseSt {
            done: flush_state(st),
            cur: Some(ColumnV { name, tasks: Seq::empty() }),
            ..st
        }),
{
    reveal_strlit("== ");
    reveal_strlit(" ==");
    reveal_strlit("==");
    reveal_strlit("Date:");
    reveal_strlit("Description:");
    let line = colhdr_line(name);
    assert(line[0] == '=');
    assert(line.last() == '=');
    lemma_trim_clean(line);
    let t = trim_spec(line);
    assert(t == line);
    let n = t.len() as int;
    assert(n == name.len() + 6);
    assert(t[0] == '=');
    assert(t.len() >= 5 ==> t.subrange(0, 5)[0] == '=');
    assert(t.len() >= 12 ==> t.subrange(0, 12)[0] == '=');
    assert(!starts_with_spec(t, "Date:"@));
    assert(!starts_with_spec(t, "Description:"@));
    assert(t.subrange(0, 2) =~= "=="@);
    assert(starts_with_spec(t, "=="@));
    assert(t.subrange(n - 2, n) =~= "=="@);
    assert(ends_with_spec(t, "=="@));
    assert(t[1] == '=' && t[2] == ' ');
    assert(t[n - 3] == ' ' && t[n - 2] == '=' && t[n - 1] == '=');
    assert forall|j: int| 0 <= j < 2 implies (eq_pred())(t[j]) by {}
    lemma_trim_start_by_at(t, eq_pred(), 2);
    let t2 = t.subrange(2, n);
    assert forall|j: int| t2.len() - 2 <= j < t2.len() implies (eq_pred())(t2[j]) by {
        assert(t2[j] == t[j + 2]);
    }
    assert(t2[t2.len() - 3] == t[n - 3]);
    lemma_trim_end_by_at(t2, eq_pred(), t2.len() - 2);
    assert(trim_eq_spec(t) == t2.subrange(0, t2.len() - 2));
    assert(t2.subrange(0, t2.len() - 2) =~= seq![' '] + name + seq![' ']);
    lemma_trim_spaces_around(seq![' '], name, seq![' ']);
    assert(parse_line(st, line) =~= (ParseSt {
        done: flush_state(st),
        cur: Some(ColumnV { name, tasks: Seq::empty() }),
        ..st
    }));
}

/// A task line appends its task to the open column.
proof fn lemma_step_task(st: ParseSt, t: TaskV)
    requires
        wf_task(t),
        st.cur is Some,
    ensures
        parse_line(st, task_line_text(t)) == (ParseSt {
            cur: Some(
                ColumnV { name: st.cur->0.name, tasks: st.cur->0.tasks.push(t) },
            ),
            ..st
        }),
{
    reveal_strlit("Date:");
    reveal_strlit("Description:");
    reveal_strlit("==");
    lemma_trim_task_line(t);
    lemma_parse_task_roundtrip(t);
    let line = task_line_text(t);
    let tr = trim_spec(line);
    assert(tr == line);
    assert(tr[0] == '*');
    assert(tr.len() >= 5 ==> tr.subrange(0, 5)[0] == '*');
    assert(tr.len() >= 12 ==> tr.subrange(0, 12)[0] == '*');
    assert(tr.len() >= 2 ==> tr.subrange(0, 2)[0] == '*');
    assert(!starts_with_spec(tr, "Date:"@));
    assert(!starts_with_spec(tr, "Description:"@));
    assert(!starts_with_spec(tr, "=="@));
    assert(parse_line(st, line) =~= (ParseSt {
        cur: Some(ColumnV { name: st.cur->0.name, tasks: st.cur->0.tasks.push(t) }),
        ..st
    }));
}

/// Reading the task lines of a column extends the open column by them.
proof fn lemma_fold_task_lines(st: ParseSt, tasks: Seq<TaskV>)
    requires
        st.cur is Some,
        forall|i: int| 0 <= i < tasks.len() ==> wf_task(#[trigger] tasks[i]),
    ensures
        parse_lines_from(st, task_lines_seq(tasks)) == (ParseSt {
            cur: Some(
                ColumnV { name: st.cur->0.name, tasks: st.cur->0.tasks + tasks },
            ),
            ..st
        }),
    decreases tasks.len(),
{
    if tasks.len() == 0 {
        assert(task_lines_seq(tasks) =~= Seq::<Seq<char>>::empty());
        assert(st.cur->0.tasks + tasks =~= st.cur->0.tasks);
        assert(parse_lines_from(st, task_lines_seq(tasks)) =~= (ParseSt {
            cur: Some(ColumnV { name: st.cur->0.name, tasks: st.cur->0.tasks + tasks }),
            ..st
        }));
    } else {
        let dl = tasks.drop_last();
        assert(forall|i: int| 0 <= i < dl.len() ==> #[trigger] dl[i] == tasks[i]);
        lemma_fold_task_lines(st, dl);
        let st1 = parse_lines_from(st, task_lines_seq(dl));
        assert(task_lines_seq(tasks).drop_last() =~= task_lines_seq(dl));
        assert(task_lines_seq(tasks).last() == task_line_text(tasks.last()));
        lemma_step_task(st1, tasks.last());
        assert(st.cur->0.tasks + dl + seq![tasks.last()] =~= st.cur->0.tasks + tasks);
        assert(parse_lines_from(st, task_lines_seq(tasks)) =~= (ParseSt {
            cur: Some(ColumnV { name: st.cur->0.name, tasks: st.cur->0.tasks + tasks }),
            ..st
        }));
    }
}

/// Reading one column block: the open column is closed and the block's
/// column becomes the open one.
proof fn lemma_fold_column_block(st: ParseSt, c: ColumnV)
    requires
        wf_column(c),
    ensures
        parse_lines_from(st, column_lines(c)) == (ParseSt {
            done: flush_state(st),
            cur: Some(c),
            ..st
        }),
{
    let ls = column_lines(c);
    assert(ls =~= (seq![colhdr_line(c.name)] + task_lines_seq(c.tasks)) + seq![
        Seq::<char>::empty(),
    ]);
    lemma_from_append(st, seq![colhdr_line(c.name)], task_lines_seq(c.tasks));
    lemma_from_append(
        st,
        seq![colhdr_line(c.name)] + task_lines_seq(c.tasks),
        seq![Seq::<char>::empty()],
    );
    assert(seq![colhdr_line(c.name)].drop_last() =~= Seq::<Seq<char>>::empty());
    lemma_step_colhdr(st, c.name);
    assert(parse_lines_from(st, Seq::<Seq<char>>::empty()) == st);
    assert(parse_lines_from(st, seq![colhdr_line(c.name)]) == parse_line(
        parse_lines_from(st, seq![colhdr_line(c.name)].drop_last()),
        seq![colhdr_line(c.name)].last(),
    ));
    let st1 = parse_lines_from(st, seq![colhdr_line(c.name)]);
    assert(st1 == (ParseSt {
        done: flush_state(st),
        cur: Some(ColumnV { name: c.name, tasks: Seq::empty() }),
        ..st
    }));
    lemma_fold_task_lines(st1, c.tasks);
    let st2 = parse_lines_from(st1, task_lines_seq(c.tasks));
    assert(Seq::<TaskV>::empty() + c.tasks =~= c.tasks);
    assert(st2.cur->0 =~= c);
    assert(seq![Seq::<char>::empty()].drop_last() =~= Seq::<Seq<char>>::empty());
    lemma_step_blank(st2);
    assert(parse_lines_from(st2, Seq::<Seq<char>>::empty()) == st2);
    assert(parse_lines_from(st2, seq![Seq::<char>::empty()]) == parse_line(
        parse_lines_from(st2, seq![Seq::<char>::empty()].drop_last()),
        seq![Seq::<char>::empty()].last(),
    ));
    assert(parse_lines_from(st, ls) =~= (ParseSt { done: flush_state(st), cur: Some(c), ..st }));
}

/// Reading all column blocks in order.
proof fn lemma_fold_columns(st: ParseSt, cols: Seq<ColumnV>)
    requires
        forall|i: int| 0 <= i < cols.len() ==> wf_column(#[trigger] cols[i]),
    ensures
        cols.len() == 0 ==> parse_lines_from(st, columns_lines(cols)) == st,
        cols.len() > 0 ==> parse_lines_from(st, columns_lines(cols)) == (ParseSt {
            done: flush_state(st) + cols.drop_last(),
            cur: Some(cols.last()),
            ..st
        }),
    decreases cols.len(),
{
    if cols.len() == 0 {
        assert(columns_lines(cols) =~= Seq::<Seq<char>>::empty());
    } else {
        let rest = cols.drop_first();
        assert(forall|i: int| 0 <= i < rest.len() ==> #[trigger] rest[i] == cols[i + 1]);
        lemma_from_append(st, column_lines(cols[0]), columns_lines(rest));
        lemma_fold_column_block(st, cols[0]);
        let st1 = parse_lines_from(st, column_lines(cols[0]));
        lemma_fold_columns(st1, rest);
        if rest.len() == 0 {
            assert(cols.drop_last() =~= Seq::<ColumnV>::empty());
            assert(flush_state(st) + cols.drop_last() =~= flush_state(st));
            assert(cols.last() == cols[0]);
            assert(parse_lines_from(st, columns_lines(cols)) =~= (ParseSt {
                done: flush_state(st) + cols.drop_last(),
                cur: Some(cols.last()),
                ..st
            }));
        } else {
            assert(flush_state(st1) =~= flush_state(st).push(cols[0]));
            assert(flush_state(st).push(cols[0]) + rest.drop_last() =~= flush_state(st)
                + cols.drop_last());
            assert(rest.last() == cols.last());
            assert(parse_lines_from(st, columns_lines(cols)) =~= (ParseSt {
                done: flush_state(st) + cols.drop_last(),
                cur: Some(cols.last()),
                ..st
            }));
        }
    }
}

/// The round-trip law: a well-formed board, rendered to its stored text
/// and read back, is unchanged field for field. The written `Computed:`
/// value is derived on the way out and ignored on the way in.
pub proof fn lemma_load_save_roundtrip(b: BoardV)
    requires
        wf_board(b),
    ensures
        parse_board_spec(board_text(b)) == b,
{
    lemma_board_text_lines(b);
    let lines = board_lines(b);
    lemma_parse_lines_is_from(lines);
    let hdr4 = seq![
        "# TUI Kanban Board: "@ + b.name,
        "Date: "@ + b.date,
        "Description: "@ + b.description,
        Seq::<char>::empty(),
    ];
    assert(lines =~= (hdr4 + columns_lines(b.columns)) + seq![Seq::<char>::empty()]);
    lemma_from_append(init_state(), hdr4, columns_lines(b.columns));
    lemma_from_append(
        init_state(),
        hdr4 + columns_lines(b.columns),
        seq![Seq::<char>::empty()],
    );
    // the four metadata lines
    let l1 = hdr4[0];
    let l2 = hdr4[1];
    let l3 = hdr4[2];
    assert(hdr4.drop_last() =~= seq![l1, l2, l3]);
    assert(seq![l1, l2, l3].drop_last() =~= seq![l1, l2]);
    assert(seq![l1, l2].drop_last() =~= seq![l1]);
    assert(seq![l1].drop_last() =~= Seq::<Seq<char>>::empty());
    lemma_step_header(init_state(), b.name);
    let s1 = parse_line(init_state(), l1);
    lemma_step_date(s1, b.date);
    let s2 = parse_line(s1, l2);
    lemma_step_desc(s2, b.description);
    let s3 = parse_line(s2, l3);
    lemma_step_blank(s3);
    let e: Seq<Seq<char>> = Seq::empty();
    assert(parse_lines_from(init_state(), e) == init_state());
    assert(parse_lines_from(init_state(), seq![l1]) == parse_line(
        parse_lines_from(init_state(), seq![l1].drop_last()),
        seq![l1].last(),
    ));
    assert(parse_lines_from(init_state(), seq![l1]) == s1);
    assert(parse_lines_from(init_state(), seq![l1, l2]) == parse_line(
        parse_lines_from(init_state(), seq![l1, l2].drop_last()),
        seq![l1, l2].last(),
    ));
    assert(parse_lines_from(init_state(), seq![l1, l2]) == s2);
    assert(parse_lines_from(init_state(), seq![l1, l2, l3]) == parse_line(
        parse_lines_from(init_state(), seq![l1, l2, l3].drop_last()),
        seq![l1, l2, l3].last(),
    ));
    assert(parse_lines_from(init_state(), seq![l1, l2, l3]) == s3);
    assert(hdr4.last() =~= Seq::<char>::empty());
    assert(parse_lines_from(init_state(), hdr4) == parse_line(
        parse_lines_from(init_state(), hdr4.drop_last()),
        hdr4.last(),
    ));
    let s4 = parse_lines_from(init_state(), hdr4);
    lemma_step_blank(parse_lines_from(init_state(), seq![l1, l2, l3]));
    assert(s4 == s3);
    assert(s4.name == b.name && s4.date == b.date && s4.description == b.description);
    assert(s4.done =~= Seq::<ColumnV>::empty());
    assert(s4.cur is None);
    // the column blocks
    lemma_fold_columns(s4, b.columns);
    let s5 = parse_lines_from(s4, columns_lines(b.columns));
    // the final empty piece
    assert(seq![Seq::<char>::empty()].drop_last() =~= Seq::<Seq<char>>::empty());
    lemma_step_blank(s5);
    assert(parse_lines_from(s5, Seq::<Seq<char>>::empty()) == s5);
    assert(parse_lines_from(s5, seq![Seq::<char>::empty()]) == parse_line(
        parse_lines_from(s5, seq![Seq::<char>::empty()].drop_last()),
        seq![Seq::<char>::empty()].last(),
    ));
    let s6 = parse_lines_from(init_state(), lines);
    assert(s6 == s5);
    if b.columns.len() == 0 {
        assert(flush_state(s6) =~= b.columns);
    } else {
        assert(flush_state(s4) =~= Seq::<ColumnV>::empty());
        assert(s6.done =~= Seq::<ColumnV>::empty() + b.columns.drop_last());
        assert(flush_state(s6) =~= b.columns.drop_last().push(b.columns.last()));
        assert(flush_state(s6) =~= b.columns);
    }
    assert(parse_board_spec(board_text(b)) =~= b);
}

} // verus!

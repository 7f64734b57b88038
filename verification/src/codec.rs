//! The plain-text board file format: a line-oriented rendering of a
//! stored board, and the tolerant parser that reads it back. The
//! round-trip proof is in `roundtrip`.
use crate::numtext::{
    dec_digits, digit_char, parse_u8_range, parse_uint_spec, parse_usize_range, u64_to_string,
    usize_to_string,
};
use crate::record::{
    computed_hundredths_spec, Board, BoardV, Column, ColumnV, Priority, Task, TaskV, columns_views,
    tasks_views,
};
use crate::textutil::{
    ends_with_spec, ends_with_str, find_ch_spec, find_ch_str, find_sub_spec, find_sub_str,
    lemma_find_ch_bounds, lemma_find_sub_bounds, lemma_split_len_pos, split_ch_spec, split_range,
    starts_with_spec, starts_with_str, trim_eq_spec, trim_eq_owned, trim_range, trim_spec,
};
use vstd::prelude::*;

verus! {

/// The line separator of the format.
pub open spec fn nl() -> Seq<char> {
    seq!['\n']
}

/// The two-decimal rendering of the computed priority, for `effort`
/// nonzero: whole part, a point, and two fraction digits.
pub open spec fn computed_text(p: Priority) -> Seq<char>
    recommends
        p.effort != 0,
{
    let h = computed_hundredths_spec(p.impact, p.urgency, p.effort);
    dec_digits((h / 100) as nat) + seq!['.'] + seq![
        digit_char(h % 100 / 10),
        digit_char(h % 10),
    ]
}

/// The priority fields of a task line.
pub open spec fn priority_text(p: Priority) -> Seq<char> {
    " | Impact: "@ + dec_digits(p.impact as nat) + " | Urgency: "@ + dec_digits(p.urgency as nat)
        + " | Effort: "@ + dec_digits(p.effort as nat) + if p.effort != 0 {
        " | Computed: "@ + computed_text(p)
    } else {
        Seq::<char>::empty()
    }
}

/// The tags joined with commas.
pub open spec fn join_tags(tags: Seq<Seq<char>>) -> Seq<char>
    decreases tags.len(),
{
    if tags.len() == 0 {
        Seq::empty()
    } else if tags.len() == 1 {
        tags[0]
    } else {
        join_tags(tags.drop_last()) + seq![','] + tags.last()
    }
}

/// One task line, without its newline.
pub open spec fn task_line_text(t: TaskV) -> Seq<char> {
    "* [ID:"@ + dec_digits(t.id as nat) + "] "@ + t.title + (match t.priority {
        Some(p) => priority_text(p),
        None => Seq::<char>::empty(),
    }) + (if t.tags.len() > 0 {
        " | Tags: "@ + join_tags(t.tags)
    } else {
        Seq::<char>::empty()
    }) + (match t.created {
        Some(c) => " | Created: "@ + c,
        None => Seq::<char>::empty(),
    })
}

/// The task lines of a column, each closed by a newline.
pub open spec fn task_lines_text(tasks: Seq<TaskV>) -> Seq<char>
    decreases tasks.len(),
{
    if tasks.len() == 0 {
        Seq::empty()
    } else {
        task_lines_text(tasks.drop_last()) + task_line_text(tasks.last()) + nl()
    }
}

/// One column block: its header line, its task lines, a blank line.
pub open spec fn column_text(c: ColumnV) -> Seq<char> {
    "== "@ + c.name + " =="@ + nl() + task_lines_text(c.tasks) + nl()
}

/// The column blocks in order.
pub open spec fn columns_text(cols: Seq<ColumnV>) -> Seq<char>
    decreases cols.len(),
{
    if cols.len() == 0 {
        Seq::empty()
    } else {
        columns_text(cols.drop_last()) + column_text(cols.last())
    }
}

/// The three metadata lines and the blank line after them.
pub open spec fn header_text(b: BoardV) -> Seq<char> {
    "# TUI Kanban Board: "@ + b.name + nl() + "Date: "@ + b.date + nl() + "Description: "@
        + b.description + nl() + nl()
}

/// The whole stored rendering of a board.
pub open spec fn board_text(b: BoardV) -> Seq<char> {
    header_text(b) + columns_text(b.columns)
}

/// The two-decimal rendering of the computed priority.
fn computed_string(p: &Priority) -> (r: String)
    requires
        p.effort != 0,
    ensures
        r@ == computed_text(*p),
{
    let h = match p.computed_hundredths() {
        Some(h) => h,
        None => 0,  // unreachable: effort is nonzero
    };
    proof {
        assert(computed_hundredths_spec(p.impact, p.urgency, p.effort) >= 0);
    }
    let mut s = u64_to_string(h / 100);
    s.append(".");
    let frac = h % 100;
    s.append(crate::numtext::digit_str(frac / 10));
    s.append(crate::numtext::digit_str(frac % 10));
    proof {
        reveal_strlit(".");
        let hs = computed_hundredths_spec(p.impact, p.urgency, p.effort);
        assert(h == hs as u64);
        assert(h / 100 == hs / 100 && h % 100 == hs % 100 && h % 10 == hs % 10);
        assert(s@ =~= computed_text(*p));
    }
    s
}

/// Appends one task line (no newline) to `out`.
#[verifier::rlimit(60)]
fn append_task_line(out: &mut String, t: &Task)
    ensures
        final(out)@ == old(out)@ + task_line_text(t@),
{
    out.append("* [ID:");
    let id_s = usize_to_string(t.id);
    out.append(id_s.as_str());
    out.append("] ");
    out.append(t.title.as_str());
    let ghost mid1 = out@;
    if let Some(p) = t.priority {
        out.append(" | Impact: ");
        let a = u64_to_string(p.impact as u64);
        out.append(a.as_str());
        out.append(" | Urgency: ");
        let b = u64_to_string(p.urgency as u64);
        out.append(b.as_str());
        out.append(" | Effort: ");
        let c = u64_to_string(p.effort as u64);
        out.append(c.as_str());
        if p.effort != 0 {
            out.append(" | Computed: ");
            let d = computed_string(&p);
            out.append(d.as_str());
        }
        proof {
            assert(out@ =~= mid1 + priority_text(p));
        }
    }
    let ghost mid2 = out@;
    proof {
        assert(mid2 == mid1 + (match t@.priority {
            Some(p) => priority_text(p),
            None => Seq::<char>::empty(),
        }));
    }
    if t.tags.len() > 0 {
        out.append(" | Tags: ");
        let ghost tags_v = t@.tags;
        let n = t.tags.len();
        let mut k: usize = 0;
        while k < n
            invariant
                n == t.tags.len(),
                tags_v == t@.tags,
                n == tags_v.len(),
                1 <= n,
                k <= n,
                k == 0 ==> out@ == mid2 + " | Tags: "@,
                k > 0 ==> out@ == mid2 + " | Tags: "@ + join_tags(tags_v.subrange(0, k as int)),
            decreases n - k,
        {
            if k > 0 {
                out.append(",");
            }
            out.append(t.tags[k].as_str());
            proof {
                reveal_strlit(",");
                let pre = tags_v.subrange(0, k as int);
                let pre1 = tags_v.subrange(0, k + 1);
                assert(pre1.drop_last() =~= pre);
                assert(pre1.last() == tags_v[k as int]);
                assert(t.tags@[k as int]@ == tags_v[k as int]);
                if k == 0 {
                    assert(pre1.len() == 1);
                    assert(pre1[0] == tags_v[0]);
                    assert(join_tags(pre1) == tags_v[0]);
                } else {
                    assert(join_tags(pre1) == join_tags(pre) + seq![','] + tags_v[k as int]);
                }
                assert(out@ =~= mid2 + " | Tags: "@ + join_tags(pre1));
            }
            k += 1;
        }
        proof {
            assert(tags_v.subrange(0, n as int) =~= tags_v);
        }
    }
    let ghost mid3 = out@;
    proof {
        assert(mid3 == mid2 + (if t@.tags.len() > 0 {
            " | Tags: "@ + join_tags(t@.tags)
        } else {
            Seq::<char>::empty()
        }));
    }
    if let Some(c) = &t.created {
        out.append(" | Created: ");
        out.append(c.as_str());
    }
    proof {
        assert(out@ =~= old(out)@ + task_line_text(t@));
    }
}

impl Board {
    /// The full stored text of this board, exactly as the file holds it.
    pub fn to_text(&self) -> (r: String)
        ensures
            r@ == board_text(self@),
    {
        let mut out = String::new();
        out.append("# TUI Kanban Board: ");
        out.append(self.name.as_str());
        out.append("\n");
        out.append("Date: ");
        out.append(self.date.as_str());
        out.append("\n");
        out.append("Description: ");
        out.append(self.description.as_str());
        out.append("\n");
        out.append("\n");
        proof {
            reveal_strlit("\n");
            assert("\n"@ =~= nl());
            assert(out@ =~= header_text(self@));
        }
        let ghost hdr = out@;
        let ghost cols_v = self@.columns;
        let ncols = self.columns.len();
        let mut i: usize = 0;
        while i < ncols
            invariant
                ncols == self.columns.len(),
                cols_v == self@.columns,
                ncols == cols_v.len(),
                i <= ncols,
                hdr == header_text(self@),
                out@ == hdr + columns_text(cols_v.subrange(0, i as int)),
            decreases ncols - i,
        {
            let ghost colpre = cols_v.subrange(0, i as int);
            let col = &self.columns[i];
            proof {
                assert(col@ == cols_v[i as int]);
            }
            out.append("== ");
            out.append(col.name.as_str());
            out.append(" ==");
            out.append("\n");
            let ghost colhdr_done = out@;
            proof {
                reveal_strlit("\n");
                assert("\n"@ =~= nl());
                assert(colhdr_done =~= hdr + columns_text(colpre) + "== "@ + cols_v[i as int].name
                    + " =="@ + nl());
            }
            let ghost tasks_v = cols_v[i as int].tasks;
            let ntasks = col.tasks.len();
            let mut j: usize = 0;
            while j < ntasks
                invariant
                    ntasks == col.tasks.len(),
                    tasks_v == col@.tasks,
                    ntasks == tasks_v.len(),
                    j <= ntasks,
                    out@ == colhdr_done + task_lines_text(tasks_v.subrange(0, j as int)),
                decreases ntasks - j,
            {
                append_task_line(&mut out, &col.tasks[j]);
                out.append("\n");
                proof {
                    reveal_strlit("\n");
                    assert("\n"@ =~= nl());
                    let pre = tasks_v.subrange(0, j as int);
                    let pre1 = tasks_v.subrange(0, j + 1);
                    assert(pre1.drop_last() =~= pre);
                    assert(pre1.last() == tasks_v[j as int]);
                    assert(col.tasks@[j as int]@ == tasks_v[j as int]);
                    assert(out@ =~= colhdr_done + task_lines_text(pre1));
                }
                j += 1;
            }
            out.append("\n");
            proof {
                reveal_strlit("\n");
                assert("\n"@ =~= nl());
                assert(tasks_v.subrange(0, ntasks as int) =~= tasks_v);
                let pre1 = cols_v.subrange(0, i + 1);
                assert(pre1.drop_last() =~= colpre);
                assert(pre1.last() == cols_v[i as int]);
                assert(out@ =~= hdr + columns_text(colpre) + column_text(cols_v[i as int]));
                assert(out@ =~= hdr + columns_text(pre1));
            }
            i += 1;
        }
        proof {
            assert(cols_v.subrange(0, ncols as int) =~= cols_v);
        }
        out
    }
}

// ---- parsing ----

/// What has been gathered after some lines of a board file were read.
#[verifier::ext_equal]
pub struct ParseSt {
    pub name: Seq<char>,
    pub date: Seq<char>,
    pub description: Seq<char>,
    pub done: Seq<ColumnV>,
    pub cur: Option<ColumnV>,
}

/// The state before any line was read.
pub open spec fn init_state() -> ParseSt {
    ParseSt {
        name: Seq::empty(),
        date: Seq::empty(),
        description: Seq::empty(),
        done: Seq::empty(),
        cur: None,
    }
}

/// The finished columns, the open one closed.
pub open spec fn flush_state(st: ParseSt) -> Seq<ColumnV> {
    match st.cur {
        Some(c) => st.done.push(c),
        None => st.done,
    }
}

/// The optional fields gathered from the segments of one task line.
#[verifier::ext_equal]
pub struct FieldSt {
    pub impact: Option<u8>,
    pub urgency: Option<u8>,
    pub effort: Option<u8>,
    pub tags: Seq<Seq<char>>,
    pub created: Option<Seq<char>>,
}

/// No field seen yet.
pub open spec fn init_fields() -> FieldSt {
    FieldSt { impact: None, urgency: None, effort: None, tags: Seq::empty(), created: None }
}

/// What `str::parse::<u8>` makes of `s`.
pub open spec fn parse_u8_opt(s: Seq<char>) -> Option<u8> {
    match parse_uint_spec(s, 255) {
        Some(v) => Some(v as u8),
        None => None,
    }
}

/// Reading one `|`-separated segment of a task line into the fields:
/// a recognized label overwrites its field, anything else is ignored.
pub open spec fn apply_field(st: FieldSt, part: Seq<char>) -> FieldSt {
    let p = trim_spec(part);
    if starts_with_spec(p, "Impact:"@) {
        FieldSt {
            impact: parse_u8_opt(trim_spec(p.subrange("Impact:"@.len() as int, p.len() as int))),
            ..st
        }
    } else if starts_with_spec(p, "Urgency:"@) {
        FieldSt {
            urgency: parse_u8_opt(trim_spec(p.subrange("Urgency:"@.len() as int, p.len() as int))),
            ..st
        }
    } else if starts_with_spec(p, "Effort:"@) {
        FieldSt {
            effort: parse_u8_opt(trim_spec(p.subrange("Effort:"@.len() as int, p.len() as int))),
            ..st
        }
    } else if starts_with_spec(p, "Tags:"@) {
        FieldSt {
            tags: split_ch_spec(
                trim_spec(p.subrange("Tags:"@.len() as int, p.len() as int)),
                ',',
            ).map_values(|x: Seq<char>| trim_spec(x)),
            ..st
        }
    } else if starts_with_spec(p, "Created:"@) {
        FieldSt {
            created: Some(trim_spec(p.subrange("Created:"@.len() as int, p.len() as int))),
            ..st
        }
    } else {
        st
    }
}

/// The fields after all segments were read in order.
pub open spec fn parse_fields(parts: Seq<Seq<char>>) -> FieldSt
    decreases parts.len(),
{
    if parts.len() == 0 {
        init_fields()
    } else {
        apply_field(parse_fields(parts.drop_last()), parts.last())
    }
}

/// The task a trimmed `*` line describes. A missing or malformed
/// `[ID:...]` gives id 0; the priority exists only when impact,
/// urgency and effort were all read.
pub open spec fn parse_task_spec(t: Seq<char>) -> TaskV {
    let parts = split_ch_spec(t, '|');
    let first = trim_spec(parts[0]);
    let idf = find_sub_spec(first, "[ID:"@);
    let id_start: int = if idf >= 0 {
        idf + 4
    } else {
        0
    };
    let jc = find_ch_spec(first, ']');
    let id_end: int = if jc >= 0 {
        jc
    } else {
        first.len() as int
    };
    let id_str = if id_start <= id_end {
        first.subrange(id_start, id_end)
    } else {
        Seq::<char>::empty()
    };
    let id: int = match parse_uint_spec(id_str, usize::MAX as int) {
        Some(v) => v,
        None => 0,
    };
    let title = if id_end + 1 <= first.len() {
        trim_spec(first.subrange(id_end + 1, first.len() as int))
    } else {
        Seq::<char>::empty()
    };
    let f = parse_fields(parts.subrange(1, parts.len() as int));
    let priority = if f.impact is Some && f.urgency is Some && f.effort is Some {
        Some(Priority { impact: f.impact->0, urgency: f.urgency->0, effort: f.effort->0 })
    } else {
        None
    };
    TaskV { id, title, priority, tags: f.tags, created: f.created }
}

/// Reading one line of the file: blank and unrecognized lines are
/// skipped, metadata lines overwrite their field, a `== name ==` line
/// closes the open column and opens a new one, and a `*` line adds a
/// task to the open column (or is dropped when none is open).
pub open spec fn parse_line(st: ParseSt, line: Seq<char>) -> ParseSt {
    let t = trim_spec(line);
    if t.len() == 0 {
        st
    } else if t[0] == '#' {
        let f = find_sub_spec(t, "TUI Kanban Board:"@);
        if f >= 0 {
            ParseSt {
                name: trim_spec(t.subrange(f + "TUI Kanban Board:"@.len(), t.len() as int)),
                ..st
            }
        } else {
            st
        }
    } else if starts_with_spec(t, "Date:"@) {
        ParseSt { date: trim_spec(t.subrange("Date:"@.len() as int, t.len() as int)), ..st }
    } else if starts_with_spec(t, "Description:"@) {
        ParseSt {
            description: trim_spec(t.subrange("Description:"@.len() as int, t.len() as int)),
            ..st
        }
    } else if starts_with_spec(t, "=="@) && ends_with_spec(t, "=="@) {
        ParseSt {
            done: flush_state(st),
            cur: Some(ColumnV { name: trim_spec(trim_eq_spec(t)), tasks: Seq::empty() }),
            ..st
        }
    } else if t[0] == '*' {
        match st.cur {
            Some(c) => ParseSt {
                cur: Some(ColumnV { name: c.name, tasks: c.tasks.push(parse_task_spec(t)) }),
                ..st
            },
            None => st,
        }
    } else {
        st
    }
}

/// The state after all lines were read in order.
pub open spec fn parse_lines(lines: Seq<Seq<char>>) -> ParseSt
    decreases lines.len(),
{
    if lines.len() == 0 {
        init_state()
    } else {
        parse_line(parse_lines(lines.drop_last()), lines.last())
    }
}

/// The board a whole file text describes.
pub open spec fn parse_board_spec(text: Seq<char>) -> BoardV {
    let st = parse_lines(split_ch_spec(text, '\n'));
    BoardV { name: st.name, date: st.date, description: st.description, columns: flush_state(st) }
}

/// The running exec state of the parser.
struct Parser {
    name: String,
    date: String,
    description: String,
    done: Vec<Column>,
    cur: Option<Column>,
}

impl View for Parser {
    type V = ParseSt;

    closed spec fn view(&self) -> ParseSt {
        ParseSt {
            name: self.name@,
            date: self.date@,
            description: self.description@,
            done: columns_views(self.done@),
            cur: match self.cur {
                Some(c) => Some(c@),
                None => None,
            },
        }
    }
}

/// The fields of a task line as exec values.
struct FieldAcc {
    impact: Option<u8>,
    urgency: Option<u8>,
    effort: Option<u8>,
    tags: Vec<String>,
    created: Option<String>,
}

impl View for FieldAcc {
    type V = FieldSt;

    closed spec fn view(&self) -> FieldSt {
        FieldSt {
            impact: self.impact,
            urgency: self.urgency,
            effort: self.effort,
            tags: self.tags.deep_view(),
            created: match self.created {
                Some(c) => Some(c@),
                None => None,
            },
        }
    }
}

/// Reads one `|` segment into the fields.
fn apply_field_exec(acc: &mut FieldAcc, part: &str)
    ensures
        final(acc)@ == apply_field(old(acc)@, part@),
{
    let part_len = part.unicode_len();
    let p_s = trim_range(part, 0, part_len);
    let p = p_s.as_str();
    let plen = p.unicode_len();
    proof {
        assert(part@.subrange(0, part@.len() as int) =~= part@);
    }
    if starts_with_str(p, "Impact:") {
        let l = "Impact:".unicode_len();
        let v = trim_range(p, l, plen);
        acc.impact = parse_u8_range(v.as_str(), 0, v.as_str().unicode_len());
        proof {
            assert(v@.subrange(0, v@.len() as int) =~= v@);
        }
    } else if starts_with_str(p, "Urgency:") {
        let l = "Urgency:".unicode_len();
        let v = trim_range(p, l, plen);
        acc.urgency = parse_u8_range(v.as_str(), 0, v.as_str().unicode_len());
        proof {
            assert(v@.subrange(0, v@.len() as int) =~= v@);
        }
    } else if starts_with_str(p, "Effort:") {
        let l = "Effort:".unicode_len();
        let v = trim_range(p, l, plen);
        acc.effort = parse_u8_range(v.as_str(), 0, v.as_str().unicode_len());
        proof {
            assert(v@.subrange(0, v@.len() as int) =~= v@);
        }
    } else if starts_with_str(p, "Tags:") {
        let l = "Tags:".unicode_len();
        let v = trim_range(p, l, plen);
        let vlen = v.as_str().unicode_len();
        let raw = split_range(v.as_str(), 0, vlen, ',');
        proof {
            assert(v@.subrange(0, v@.len() as int) =~= v@);
        }
        let ghost raw_v = raw.deep_view();
        let mut ts: Vec<String> = Vec::new();
        let nraw = raw.len();
        let mut m: usize = 0;
        while m < nraw
            invariant
                nraw == raw.len(),
                raw_v == raw.deep_view(),
                nraw == raw_v.len(),
                m <= nraw,
                ts.deep_view().len() == m as int,
                forall|q: int| 0 <= q < m ==> ts.deep_view()[q] == trim_spec(raw_v[q]),
            decreases nraw - m,
        {
            let piece = trim_range(raw[m].as_str(), 0, raw[m].as_str().unicode_len());
            proof {
                assert(raw@[m as int]@ == raw_v[m as int]);
                assert(raw_v[m as int].subrange(0, raw_v[m as int].len() as int) =~= raw_v[
                    m as int
                ]);
            }
            let ghost old_dv = ts.deep_view();
            let ghost piece_v = piece@;
            ts.push(piece);
            proof {
                assert(ts.deep_view() =~= old_dv.push(piece_v));
            }
            m += 1;
        }
        proof {
            assert(ts.deep_view() =~= raw_v.map_values(|x: Seq<char>| trim_spec(x)));
        }
        acc.tags = ts;
    } else if starts_with_str(p, "Created:") {
        let l = "Created:".unicode_len();
        let v = trim_range(p, l, plen);
        acc.created = Some(v);
    }
    proof {
        assert(final(acc)@ =~= apply_field(old(acc)@, part@));
    }
}

/// Reads a trimmed `*` line as a task.
fn parse_task_exec(t: &str) -> (task: Task)
    ensures
        task@ == parse_task_spec(t@),
{
    let tlen = t.unicode_len();
    let parts = split_range(t, 0, tlen, '|');
    proof {
        assert(t@.subrange(0, tlen as int) =~= t@);
        lemma_split_len_pos(t@, '|');
        assert(parts@[0]@ == parts.deep_view()[0]);
    }
    let first_len = parts[0].as_str().unicode_len();
    let first_s = trim_range(parts[0].as_str(), 0, first_len);
    let first = first_s.as_str();
    let flen = first.unicode_len();
    proof {
        assert(parts@[0]@.subrange(0, parts@[0]@.len() as int) =~= parts@[0]@);
    }
    let id_start = match find_sub_str(first, "[ID:") {
        Some(i) => {
            proof {
                lemma_find_sub_bounds(first@, "[ID:"@);
                reveal_strlit("[ID:");
            }
            i + 4
        },
        None => 0,
    };
    let id_end = match find_ch_str(first, ']') {
        Some(j) => j,
        None => flen,
    };
    proof {
        lemma_find_ch_bounds(first@, ']');
        reveal_strlit("[ID:");
    }
    let id = if id_start <= id_end {
        match parse_usize_range(first, id_start, id_end) {
            Some(v) => v,
            None => 0,
        }
    } else {
        0
    };
    let title = if id_end < flen {
        trim_range(first, id_end + 1, flen)
    } else {
        String::new()
    };
    let ghost parts_v = parts.deep_view();
    let mut acc = FieldAcc { impact: None, urgency: None, effort: None, tags: Vec::new(), created: None };
    proof {
        assert(acc@ =~= init_fields());
        assert(parts_v.subrange(1, 1) =~= Seq::<Seq<char>>::empty());
    }
    let nparts = parts.len();
    let mut k: usize = 1;
    while k < nparts
        invariant
            nparts == parts.len(),
            parts_v == parts.deep_view(),
            nparts == parts_v.len(),
            1 <= k <= nparts || (nparts == 0 && k == 1),
            nparts >= 1,
            acc@ == parse_fields(parts_v.subrange(1, k as int)),
        decreases nparts - k,
    {
        apply_field_exec(&mut acc, parts[k].as_str());
        proof {
            let pre = parts_v.subrange(1, k as int);
            let pre1 = parts_v.subrange(1, k + 1);
            assert(pre1.drop_last() =~= pre);
            assert(pre1.last() == parts_v[k as int]);
            assert(parts@[k as int]@ == parts_v[k as int]);
        }
        k += 1;
    }
    proof {
        assert(parts_v.subrange(1, nparts as int) =~= parts_v.subrange(1, parts_v.len() as int));
    }
    let priority = if acc.impact.is_some() && acc.urgency.is_some() && acc.effort.is_some() {
        Some(
            Priority {
                impact: acc.impact.unwrap(),
                urgency: acc.urgency.unwrap(),
                effort: acc.effort.unwrap(),
            },
        )
    } else {
        None
    };
    let task = Task { id, title, priority, tags: acc.tags, created: acc.created };
    proof {
        assert(task@ =~= parse_task_spec(t@));
    }
    task
}

impl Parser {
    /// Reads one line of the file.
    fn step(&mut self, line: &str)
        ensures
            final(self)@ == parse_line(old(self)@, line@),
    {
        let line_len = line.unicode_len();
        let t_s = trim_range(line, 0, line_len);
        let t = t_s.as_str();
        let tlen = t.unicode_len();
        proof {
            assert(line@.subrange(0, line@.len() as int) =~= line@);
        }
        if tlen == 0 {
            return ;
        }
        if t.get_char(0) == '#' {
            match find_sub_str(t, "TUI Kanban Board:") {
                Some(idx) => {
                    proof {
                        lemma_find_sub_bounds(t@, "TUI Kanban Board:"@);
                        reveal_strlit("TUI Kanban Board:");
                    }
                    let l = "TUI Kanban Board:".unicode_len();
                    self.name = trim_range(t, idx + l, tlen);
                },
                None => {},
            }
        } else if starts_with_str(t, "Date:") {
            let l = "Date:".unicode_len();
            self.date = trim_range(t, l, tlen);
        } else if starts_with_str(t, "Description:") {
            let l = "Description:".unicode_len();
            self.description = trim_range(t, l, tlen);
        } else if starts_with_str(t, "==") && ends_with_str(t, "==") {
            match self.cur.take() {
                Some(c) => {
                    self.done.push(c);
                    proof {
                        assert(columns_views(self.done@) =~= flush_state(old(self)@));
                    }
                },
                None => {},
            }
            let eq_s = trim_eq_owned(t);
            let name = trim_range(eq_s.as_str(), 0, eq_s.as_str().unicode_len());
            proof {
                assert(eq_s@.subrange(0, eq_s@.len() as int) =~= eq_s@);
            }
            self.cur = Some(Column { name, tasks: Vec::new() });
            proof {
                assert(tasks_views(Seq::<Task>::empty()) =~= Seq::<TaskV>::empty());
                assert(final(self)@ =~= parse_line(old(self)@, line@));
            }
        } else if t.get_char(0) == '*' {
            let task = parse_task_exec(t);
            match self.cur.take() {
                Some(mut c) => {
                    c.tasks.push(task);
                    self.cur = Some(c);
                    proof {
                        assert(final(self)@.cur->0.tasks =~= old(self)@.cur->0.tasks.push(
                            parse_task_spec(trim_spec(line@)),
                        ));
                        assert(final(self)@ =~= parse_line(old(self)@, line@));
                    }
                },
                None => {},
            }
        }
        proof {
            assert(final(self)@ =~= parse_line(old(self)@, line@));
        }
    }
}

impl Board {
    /// The board a whole file text describes, read tolerantly: see
    /// `parse_board_spec` for the exact reading of every input.
    pub fn from_text(s: &str) -> (b: Board)
        ensures
            b@ == parse_board_spec(s@),
    {
        let slen = s.unicode_len();
        let lines = split_range(s, 0, slen, '\n');
        proof {
            assert(s@.subrange(0, slen as int) =~= s@);
        }
        let ghost lines_v = lines.deep_view();
        let mut p = Parser {
            name: String::new(),
            date: String::new(),
            description: String::new(),
            done: Vec::new(),
            cur: None,
        };
        proof {
            assert(columns_views(Seq::<Column>::empty()) =~= Seq::<ColumnV>::empty());
            assert(p@ =~= init_state());
            assert(lines_v.subrange(0, 0) =~= Seq::<Seq<char>>::empty());
        }
        let nlines = lines.len();
        let mut i: usize = 0;
        while i < nlines
            invariant
                nlines == lines.len(),
                lines_v == lines.deep_view(),
                nlines == lines_v.len(),
                i <= nlines,
                p@ == parse_lines(lines_v.subrange(0, i as int)),
            decreases nlines - i,
        {
            p.step(lines[i].as_str());
            proof {
                let pre = lines_v.subrange(0, i as int);
                let pre1 = lines_v.subrange(0, i + 1);
                assert(pre1.drop_last() =~= pre);
                assert(pre1.last() == lines_v[i as int]);
                assert(lines@[i as int]@ == lines_v[i as int]);
            }
            i += 1;
        }
        proof {
            assert(lines_v.subrange(0, nlines as int) =~= lines_v);
        }
        match p.cur.take() {
            Some(c) => {
                p.done.push(c);
                proof {
                    assert(columns_views(p.done@) =~= flush_state(parse_lines(lines_v)));
                }
            },
            None => {},
        }
        let b = Board {
            name: p.name,
            date: p.date,
            description: p.description,
            columns: p.done,
        };
        proof {
            assert(b@ =~= parse_board_spec(s@));
        }
        b
    }
}

} // verus!

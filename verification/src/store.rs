//! Board discovery and naming: the mapping between a board's display
//! name and its file name, and the sorted list of available boards
//! shown in the board-selection screen. Reading the directory itself is
//! the caller's business; this module turns its file names into the
//! list.
use crate::model::App;
use crate::textutil::{ends_with_spec, ends_with_str};
use vstd::prelude::*;
use vstd::seq_lib::lemma_multiset_commutative;

verus! {

broadcast use vstd::seq_lib::group_to_multiset_ensures;

/// The display name of a file stem: underscores read as spaces.
pub open spec fn display_of(stem: Seq<char>) -> Seq<char> {
    stem.map_values(
        |c: char|
            if c == '_' {
                ' '
            } else {
                c
            },
    )
}

/// The file stem of a display name as `display_to_file` writes it:
/// spaces become underscores (case folding is the caller's step).
pub open spec fn underscored(name: Seq<char>) -> Seq<char> {
    name.map_values(
        |c: char|
            if c == ' ' {
                '_'
            } else {
                c
            },
    )
}

/// Code-point lexicographic order, the order `str` comparison gives.
pub open spec fn lex_le(a: Seq<char>, b: Seq<char>) -> bool
    decreases a.len(),
{
    if a.len() == 0 {
        true
    } else if b.len() == 0 {
        false
    } else if a[0] != b[0] {
        (a[0] as int) < (b[0] as int)
    } else {
        lex_le(a.drop_first(), b.drop_first())
    }
}

/// Any two strings compare one way or the other.
proof fn lemma_lex_total(a: Seq<char>, b: Seq<char>)
    ensures
        lex_le(a, b) || lex_le(b, a),
    decreases a.len(),
{
    if a.len() > 0 && b.len() > 0 && a[0] == b[0] {
        lemma_lex_total(a.drop_first(), b.drop_first());
    }
}

/// The order chains.
proof fn lemma_lex_trans(a: Seq<char>, b: Seq<char>, c: Seq<char>)
    requires
        lex_le(a, b),
        lex_le(b, c),
    ensures
        lex_le(a, c),
    decreases a.len(),
{
    if a.len() > 0 && b.len() > 0 && c.len() > 0 && a[0] == b[0] && b[0] == c[0] {
        lemma_lex_trans(a.drop_first(), b.drop_first(), c.drop_first());
    }
}

/// `a <= b` in code-point order, decided character by character.
pub fn lex_le_str(a: &str, b: &str) -> (r: bool)
    ensures
        r == lex_le(a@, b@),
{
    let la = a.unicode_len();
    let lb = b.unicode_len();
    proof {
        assert(a@.subrange(0, la as int) =~= a@);
        assert(b@.subrange(0, lb as int) =~= b@);
    }
    let mut i: usize = 0;
    while i < la && i < lb
        invariant
            la == a@.len(),
            lb == b@.len(),
            i <= la,
            i <= lb,
            forall|j: int| 0 <= j < i ==> a@[j] == b@[j],
            lex_le(a@, b@) == lex_le(
                a@.subrange(i as int, la as int),
                b@.subrange(i as int, lb as int),
            ),
        decreases la - i,
    {
        let ca = a.get_char(i);
        let cb = b.get_char(i);
        let ghost ra = a@.subrange(i as int, la as int);
        let ghost rb = b@.subrange(i as int, lb as int);
        proof {
            assert(ra[0] == ca && rb[0] == cb);
            assert(ra.drop_first() =~= a@.subrange(i + 1, la as int));
            assert(rb.drop_first() =~= b@.subrange(i + 1, lb as int));
        }
        if ca != cb {
            return (ca as u32) < (cb as u32);
        }
        i += 1;
    }
    proof {
        let ra = a@.subrange(i as int, la as int);
        let rb = b@.subrange(i as int, lb as int);
        if i >= la {
            assert(ra =~= Seq::<char>::empty());
        } else {
            assert(rb =~= Seq::<char>::empty());
            assert(ra.len() > 0);
        }
    }
    la <= lb
}

/// Whether every adjacent pair of the strings is ordered.
pub open spec fn sorted_names(s: Seq<Seq<char>>) -> bool {
    forall|p: int, q: int| 0 <= p < q < s.len() ==> lex_le(#[trigger] s[p], #[trigger] s[q])
}

/// Sorts the strings into code-point order, keeping exactly the same
/// strings.
pub fn sort_strings(v: Vec<String>) -> (r: Vec<String>)
    ensures
        sorted_names(r.deep_view()),
        r.deep_view().to_multiset() == v.deep_view().to_multiset(),
        r.len() == v.len(),
{
    let mut v = v;
    let ghost orig = v.deep_view();
    let n = v.len();
    let mut i: usize = 1;
    proof {
        orig.to_multiset_ensures();
    }
    if n == 0 {
        return v;
    }
    while i < n
        invariant
            n == v.len(),
            1 <= i <= n,
            v.deep_view().to_multiset() == orig.to_multiset(),
            orig.len() == n,
            sorted_names(v.deep_view().subrange(0, i as int)),
        decreases n - i,
    {
        let ghost before = v.deep_view();
        // the first kept element that must come after the new one
        let mut pos: usize = 0;
        while pos < i && lex_le_str(v[pos].as_str(), v[i].as_str())
            invariant
                n == v.len(),
                pos <= i < n,
                forall|j: int| 0 <= j < pos ==> lex_le(v.deep_view()[j], v.deep_view()[i as int]),
                before == v.deep_view(),
            decreases i - pos,
        {
            pos += 1;
        }
        let x = v.remove(i);
        let ghost xv = x@;
        proof {
            assert(before[i as int] == xv);
            before.to_multiset_ensures();
            assert(v.deep_view() =~= before.remove(i as int));
        }
        let ghost mid = v.deep_view();
        v.insert(pos, x);
        proof {
            assert(v.deep_view() =~= mid.insert(pos as int, xv));
            lemma_to_multiset_insert(mid, pos as int, xv);
            assert(v.deep_view().to_multiset() =~= orig.to_multiset());
            // sortedness of the grown prefix
            let now = v.deep_view();
            assert forall|p: int, q: int|
                0 <= p < q < i implies lex_le(#[trigger] before[p], #[trigger] before[q]) by {
                assert(before.subrange(0, i as int)[p] == before[p]);
                assert(before.subrange(0, i as int)[q] == before[q]);
            }
            assert forall|p: int, q: int|
                0 <= p < q < i + 1 implies lex_le(#[trigger] now[p], #[trigger] now[q]) by {
                if p < pos {
                    assert(now[p] == before[p]);
                } else if p == pos {
                    assert(now[p] == xv);
                } else {
                    assert(now[p] == before[p - 1]);
                }
                if q < pos {
                    assert(now[q] == before[q]);
                } else if q == pos {
                    assert(now[q] == xv);
                } else {
                    assert(now[q] == before[q - 1]);
                }
                if q == pos && p < pos {
                    assert(lex_le(before[p], xv));
                } else if p == pos && q > pos {
                    assert(pos < i);
                    assert(!lex_le(before[pos as int], xv));
                    lemma_lex_total(before[pos as int], xv);
                    assert(lex_le(xv, before[pos as int]));
                    if q - 1 > pos {
                        assert(lex_le(before[pos as int], before[q - 1]));
                        lemma_lex_trans(xv, before[pos as int], before[q - 1]);
                    }
                } else if p < pos && q > pos {
                    assert(lex_le(before[p], before[q - 1]));
                } else if p > pos && q > pos {
                    assert(lex_le(before[p - 1], before[q - 1]));
                }
            }
        }
        i += 1;
    }
    proof {
        assert(v.deep_view().subrange(0, n as int) =~= v.deep_view());
    }
    v
}

/// Inserting anywhere adds one occurrence to the multiset.
proof fn lemma_to_multiset_insert(s: Seq<Seq<char>>, pos: int, x: Seq<char>)
    requires
        0 <= pos <= s.len(),
    ensures
        s.insert(pos, x).to_multiset() == s.to_multiset().insert(x),
{
    let left = s.subrange(0, pos);
    let right = s.subrange(pos, s.len() as int);
    assert(s.insert(pos, x) =~= left.push(x) + right);
    assert(s =~= left + right);
    lemma_multiset_commutative(left.push(x), right);
    lemma_multiset_commutative(left, right);
    left.to_multiset_ensures();
    assert(left.push(x).to_multiset() =~= left.to_multiset().insert(x));
    assert(s.insert(pos, x).to_multiset() =~= s.to_multiset().insert(x));
}

/// The sentinel entry that offers to create a new board.
pub fn create_new_entry() -> (r: String)
    ensures
        r@ == "[Create New Board]"@,
{
    "[Create New Board]".to_owned()
}

/// The display names of the `.txt` files among `file_names`, before
/// sorting: each stem with underscores read as spaces.
pub open spec fn board_displays(names: Seq<Seq<char>>) -> Seq<Seq<char>> {
    names.filter(|n: Seq<char>| ends_with_spec(n, ".txt"@)).map_values(
        |n: Seq<char>| display_of(n.subrange(0, n.len() - 4)),
    )
}

/// The board list a directory's file names give: the display name of
/// every `.txt` file, in code-point order, with the create-new entry
/// last.
pub fn available_boards_from_files(file_names: Vec<String>) -> (r: Vec<String>)
    ensures
        r.len() >= 1,
        r.deep_view().last() == "[Create New Board]"@,
        sorted_names(r.deep_view().drop_last()),
        r.deep_view().drop_last().to_multiset() == board_displays(
            file_names.deep_view(),
        ).to_multiset(),
{
    let ghost names_v = file_names.deep_view();
    let n = file_names.len();
    let mut picked: Vec<String> = Vec::new();
    let mut i: usize = 0;
    proof {
        assert(names_v.subrange(0, 0) =~= Seq::<Seq<char>>::empty());
        reveal(Seq::filter);
        assert(Seq::<Seq<char>>::empty().filter(|n: Seq<char>| ends_with_spec(n, ".txt"@))
            =~= Seq::<Seq<char>>::empty());
        assert(picked.deep_view() =~= board_displays(names_v.subrange(0, 0)));
    }
    while i < n
        invariant
            n == file_names.len(),
            names_v == file_names.deep_view(),
            n == names_v.len(),
            i <= n,
            picked.deep_view() == board_displays(names_v.subrange(0, i as int)),
        decreases n - i,
    {
        let name = file_names[i].as_str();
        let nlen = name.unicode_len();
        let ghost pre = names_v.subrange(0, i as int);
        let ghost pre1 = names_v.subrange(0, i + 1);
        proof {
            assert(pre1.drop_last() =~= pre);
            assert(pre1.last() == names_v[i as int]);
            assert(file_names@[i as int]@ == names_v[i as int]);
            lemma_filter_step_names(pre1, |x: Seq<char>| ends_with_spec(x, ".txt"@));
        }
        let is_board = ends_with_str(name, ".txt");
        proof {
            reveal_strlit(".txt");
        }
        if is_board {
            let stem_disp = display_chars(name, nlen - 4);
            let ghost old_dv = picked.deep_view();
            picked.push(stem_disp);
            proof {
                assert(picked.deep_view() =~= old_dv.push(
                    display_of(names_v[i as int].subrange(0, names_v[i as int].len() - 4)),
                ));
                assert(picked.deep_view() =~= board_displays(pre1));
            }
        } else {
            proof {
                assert(picked.deep_view() =~= board_displays(pre1));
            }
        }
        i += 1;
    }
    proof {
        assert(names_v.subrange(0, n as int) =~= names_v);
    }
    let mut r = sort_strings(picked);
    let ghost sorted_dv = r.deep_view();
    r.push(create_new_entry());
    proof {
        assert(r.deep_view() =~= sorted_dv.push("[Create New Board]"@));
        assert(r.deep_view().drop_last() =~= sorted_dv);
    }
    r
}

/// One step of filtering, for the loop above.
proof fn lemma_filter_step_names(s: Seq<Seq<char>>, pred: spec_fn(Seq<char>) -> bool)
    requires
        s.len() > 0,
    ensures
        pred(s.last()) ==> s.filter(pred) == s.drop_last().filter(pred).push(s.last()),
        !pred(s.last()) ==> s.filter(pred) == s.drop_last().filter(pred),
{
    reveal(Seq::filter);
}

/// The first `upto` characters of `s`, underscores read as spaces.
fn display_chars(s: &str, upto: usize) -> (r: String)
    requires
        upto <= s@.len(),
    ensures
        r@ == display_of(s@.subrange(0, upto as int)),
{
    let mut r = String::new();
    let mut i: usize = 0;
    while i < upto
        invariant
            upto <= s@.len(),
            i <= upto,
            r@ == display_of(s@.subrange(0, i as int)),
        decreases upto - i,
    {
        let c = s.get_char(i);
        if c == '_' {
            r.append(" ");
        } else {
            let piece = s.substring_char(i, i + 1);
            r.append(piece);
        }
        proof {
            reveal_strlit(" ");
            assert(r@ =~= display_of(s@.subrange(0, i + 1)));
        }
        i += 1;
    }
    proof {
        assert(s@.subrange(0, upto as int) =~= s@.subrange(0, upto as int));
    }
    r
}

/// A display name with its spaces as underscores.
pub fn underscored_str(name: &str) -> (r: String)
    ensures
        r@ == underscored(name@),
{
    let n = name.unicode_len();
    let mut r = String::new();
    let mut i: usize = 0;
    while i < n
        invariant
            n == name@.len(),
            i <= n,
            r@ == underscored(name@.subrange(0, i as int)),
        decreases n - i,
    {
        let c = name.get_char(i);
        if c == ' ' {
            r.append("_");
        } else {
            let piece = name.substring_char(i, i + 1);
            r.append(piece);
        }
        proof {
            reveal_strlit("_");
            assert(r@ =~= underscored(name@.subrange(0, i + 1)));
        }
        i += 1;
    }
    proof {
        assert(name@.subrange(0, n as int) =~= name@);
    }
    r
}

/// What `str::to_lowercase` gives, named: the same characters always
/// lower the same way.
pub uninterp spec fn lower_of(s: Seq<char>) -> Seq<char>;

/// Relies on `str::to_lowercase`: the result depends on the
/// characters alone, and an empty string stays empty.
#[verifier::external_body]
pub fn lowercase_str(s: &str) -> (r: String)
    ensures
        r@ == lower_of(s@),
        s@.len() == 0 ==> r@.len() == 0,
{
    s.to_lowercase()
}

/// The file name a board with this display name stores under: spaces
/// as underscores, lowercased, with the `.txt` ending.
pub fn display_to_file_name(name: &str) -> (r: String)
    ensures
        r@ == lower_of(underscored(name@)) + ".txt"@,
{
    let u = underscored_str(name);
    let mut r = lowercase_str(u.as_str());
    r.append(".txt");
    r
}

impl App {
    /// Fills the board list from a directory's file names: every `.txt`
    /// file's display name in order, the create-new entry last, and the
    /// highlight on the first entry.
    pub fn set_available_boards(&mut self, file_names: Vec<String>)
        ensures
            final(self).available_boards.len() >= 1,
            final(self).available_boards.deep_view().last() == "[Create New Board]"@,
            sorted_names(final(self).available_boards.deep_view().drop_last()),
            final(self).available_boards.deep_view().drop_last().to_multiset() == board_displays(
                file_names.deep_view(),
            ).to_multiset(),
            final(self).selected_board_index == Some(0usize),
            final(self).columns == old(self).columns,
            final(self).title == old(self).title,
            final(self).active_column == old(self).active_column,
            final(self).input_mode == old(self).input_mode,
            final(self).input_text == old(self).input_text,
            final(self).file_path == old(self).file_path,
            final(self).base_dir == old(self).base_dir,
            final(self).scroll_offset == old(self).scroll_offset,
            final(self).start_index == old(self).start_index,
            final(self).pending_chord == old(self).pending_chord,
    {
        self.available_boards = available_boards_from_files(file_names);
        self.selected_board_index = Some(0);
    }
}

} // verus!

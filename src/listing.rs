//! The pure parts of directory listing: the permission string of a file mode
//! and the column layout of short listings.
use vstd::prelude::*;
use crate::text::{push_char, chars_of};
use crate::lexer::views;

verus! {

/// The character for the file type held in the high bits of `mode`.
pub open spec fn type_char(mode: u32) -> char {
    let t = mode & 0o170000u32;
    if t == 0o040000u32 {
        'd'
    } else if t == 0o100000u32 {
        '-'
    } else if t == 0o120000u32 {
        'l'
    } else if t == 0o140000u32 {
        's'
    } else if t == 0o010000u32 {
        'p'
    } else if t == 0o060000u32 {
        'b'
    } else if t == 0o020000u32 {
        'c'
    } else {
        '?'
    }
}

/// `c` when permission bit `m` of `mode` is set, `-` otherwise.
pub open spec fn perm_char(mode: u32, m: u32, c: char) -> char {
    if mode & m != 0 {
        c
    } else {
        '-'
    }
}

/// The execute position, which also shows the special bit `s` of `mode`:
/// lower-case `set` for both, upper-case `unset` for the special bit alone.
pub open spec fn exec_char(mode: u32, x: u32, s: u32, set: char, unset: char) -> char {
    if mode & x != 0 && mode & s != 0 {
        set
    } else if mode & s != 0 {
        unset
    } else if mode & x != 0 {
        'x'
    } else {
        '-'
    }
}

/// The ten-character permission string of `mode`, as `ls -l` shows it.
pub open spec fn mode_text(mode: u32) -> Seq<char> {
    seq![
        type_char(mode),
        perm_char(mode, 0o400u32, 'r'),
        perm_char(mode, 0o200u32, 'w'),
        exec_char(mode, 0o100u32, 0o4000u32, 's', 'S'),
        perm_char(mode, 0o040u32, 'r'),
        perm_char(mode, 0o020u32, 'w'),
        exec_char(mode, 0o010u32, 0o2000u32, 's', 'S'),
        perm_char(mode, 0o004u32, 'r'),
        perm_char(mode, 0o002u32, 'w'),
        exec_char(mode, 0o001u32, 0o1000u32, 't', 'T'),
    ]
}

fn type_of(mode: u32) -> (c: char)
    ensures
        c == type_char(mode),
{
    let t = mode & 0o170000;
    if t == 0o040000 {
        'd'
    } else if t == 0o100000 {
        '-'
    } else if t == 0o120000 {
        'l'
    } else if t == 0o140000 {
        's'
    } else if t == 0o010000 {
        'p'
    } else if t == 0o060000 {
        'b'
    } else if t == 0o020000 {
        'c'
    } else {
        '?'
    }
}

fn perm_of(mode: u32, m: u32, c: char) -> (r: char)
    ensures
        r == perm_char(mode, m, c),
{
    if mode & m != 0 {
        c
    } else {
        '-'
    }
}

fn exec_of(mode: u32, x: u32, s: u32, set: char, unset: char) -> (r: char)
    ensures
        r == exec_char(mode, x, s, set, unset),
{
    let has_x = mode & x != 0;
    let has_s = mode & s != 0;
    if has_x && has_s {
        set
    } else if has_s {
        unset
    } else if has_x {
        'x'
    } else {
        '-'
    }
}

/// The permission string of `mode`: its file type, then read, write and
/// execute for owner, group and others, with set-user-id, set-group-id and
/// sticky shown in the execute positions.
pub fn mode_string(mode: u32) -> (r: String)
    ensures
        r@ == mode_text(mode),
{
    let mut r = String::new();
    push_char(&mut r, type_of(mode));
    push_char(&mut r, perm_of(mode, 0o400, 'r'));
    push_char(&mut r, perm_of(mode, 0o200, 'w'));
    push_char(&mut r, exec_of(mode, 0o100, 0o4000, 's', 'S'));
    push_char(&mut r, perm_of(mode, 0o040, 'r'));
    push_char(&mut r, perm_of(mode, 0o020, 'w'));
    push_char(&mut r, exec_of(mode, 0o010, 0o2000, 's', 'S'));
    push_char(&mut r, perm_of(mode, 0o004, 'r'));
    push_char(&mut r, perm_of(mode, 0o002, 'w'));
    push_char(&mut r, exec_of(mode, 0o001, 0o1000, 't', 'T'));
    assert(r@ =~= mode_text(mode));
    r
}

/// The length of the longest entry of `es`.
pub open spec fn widest(es: Seq<Seq<char>>) -> nat
    decreases es.len(),
{
    if es.len() == 0 {
        0
    } else {
        let m = widest(es.drop_last());
        if es.last().len() > m {
            es.last().len()
        } else {
            m
        }
    }
}

/// The number of columns: as many cells of width `w` as fit in `width`, at
/// least one, and no more than there are entries (further columns would
/// only hold empty cells).
pub open spec fn column_count(n: nat, w: nat, width: nat) -> nat {
    let c = width / w;
    if c == 0 {
        1
    } else if c > n {
        n
    } else {
        c
    }
}

/// `s` followed by spaces up to width `w`.
pub open spec fn padded(s: Seq<char>, w: nat) -> Seq<char> {
    s + Seq::new((w - s.len()) as nat, |k: int| ' ')
}

/// The cell of `es` in row `row` and column `col` of a layout with `rows`
/// rows filled column by column.
pub open spec fn cell(es: Seq<Seq<char>>, rows: nat, w: nat, row: nat, col: nat) -> Seq<char> {
    let idx = col * rows + row;
    if idx < es.len() {
        padded(es[idx as int], w)
    } else {
        Seq::empty()
    }
}

/// The first `cols` cells of row `row`.
pub open spec fn row_text(es: Seq<Seq<char>>, rows: nat, w: nat, row: nat, cols: nat) -> Seq<char>
    decreases cols,
{
    if cols == 0 {
        Seq::empty()
    } else {
        row_text(es, rows, w, row, (cols - 1) as nat) + cell(es, rows, w, row, (cols - 1) as nat)
    }
}

/// The first `n` rows, each ended by a line break.
pub open spec fn grid_text(es: Seq<Seq<char>>, rows: nat, w: nat, cols: nat, n: nat) -> Seq<char>
    decreases n,
{
    if n == 0 {
        Seq::empty()
    } else {
        grid_text(es, rows, w, cols, (n - 1) as nat) + row_text(es, rows, w, (n - 1) as nat, cols) + "\n"@
    }
}

/// The number of rows that `n` entries fill in `cols` columns.
pub open spec fn row_count(n: nat, cols: nat) -> nat {
    ((n + cols - 1) as int / cols as int) as nat
}

/// The entries `es` laid out in columns for a terminal `width` wide: each
/// cell two wider than the longest entry, filled column by column.
pub open spec fn column_layout(es: Seq<Seq<char>>, width: nat) -> Seq<char> {
    if es.len() == 0 {
        Seq::empty()
    } else {
        let w = widest(es) + 2;
        let cols = column_count(es.len(), w, width);
        let rows = row_count(es.len(), cols);
        grid_text(es, rows, w, cols, rows)
    }
}

proof fn lemma_widest_bound(es: Seq<Seq<char>>, k: int)
    requires
        0 <= k < es.len(),
    ensures
        es[k].len() <= widest(es),
    decreases es.len(),
{
    if k < es.len() - 1 {
        lemma_widest_bound(es.drop_last(), k);
    }
}

/// Cells past the end of the entries add nothing to a row.
proof fn lemma_row_tail(es: Seq<Seq<char>>, rows: nat, w: nat, row: nat, col: nat, cols: nat)
    requires
        col <= cols,
        col * rows + row >= es.len(),
    ensures
        row_text(es, rows, w, row, cols) == row_text(es, rows, w, row, col),
    decreases cols - col,
{
    if col < cols {
        let c = (cols - 1) as nat;
        lemma_row_tail(es, rows, w, row, col, c);
        assert(c * rows >= col * rows) by (nonlinear_arith)
            requires
                c >= col,
        ;
    }
}

fn push_spaces(out: &mut String, n: usize)
    ensures
        final(out)@ == old(out)@ + Seq::new(n as nat, |k: int| ' '),
{
    let mut i: usize = 0;
    while i < n
        invariant
            i <= n,
            out@ == old(out)@ + Seq::new(i as nat, |k: int| ' '),
        decreases n - i,
    {
        push_char(out, ' ');
        i = i + 1;
        assert(out@ =~= old(out)@ + Seq::new(i as nat, |k: int| ' '));
    }
}

/// The text of `entries` laid out in columns for a terminal `term_width`
/// characters wide.
pub fn columns_text(entries: &Vec<String>, term_width: usize) -> (r: String)
    ensures
        r@ == column_layout(views(entries@), term_width as nat),
{
    let ghost es = views(entries@);
    let n = entries.len();
    if n == 0 {
        return String::new();
    }
    let mut widest_len: usize = 0;
    let mut i: usize = 0;
    assert(es.take(0) =~= Seq::<Seq<char>>::empty());
    while i < n
        invariant
            es == views(entries@),
            n == entries@.len(),
            i <= n,
            widest_len == widest(es.take(i as int)),
        decreases n - i,
    {
        assert(es.take(i + 1).drop_last() =~= es.take(i as int));
        let len = entries[i].as_str().unicode_len();
        if len > widest_len {
            widest_len = len;
        }
        i = i + 1;
    }
    assert(es.take(n as int) =~= es);
    let ghost w: nat = widest_len as nat + 2;
    let cols: usize = if term_width < 2 || widest_len > term_width - 2 {
        1
    } else {
        let c = term_width / (widest_len + 2);
        if c == 0 {
            1
        } else if c > n {
            n
        } else {
            c
        }
    };
    assert(cols == column_count(n as nat, w, term_width as nat)) by {
        if term_width < 2 || widest_len > term_width - 2 {
            assert(term_width as nat / w == 0) by (nonlinear_arith)
                requires
                    (term_width as nat) < w,
            ;
        }
    }
    let rows: usize = (n - 1) / cols + 1;
    assert(rows as int == (n as int + cols as int - 1) / cols as int) by (nonlinear_arith)
        requires
            cols > 0,
            n > 0,
            rows as int == (n as int - 1) / cols as int + 1,
    ;
    assert(rows as nat == row_count(n as nat, cols as nat));
    assert(rows <= n) by (nonlinear_arith)
        requires
            cols > 0,
            n > 0,
            rows as int == (n as int - 1) / cols as int + 1,
    ;
    let mut out = String::new();
    let mut row: usize = 0;
    while row < rows
        invariant
            es == views(entries@),
            n == entries@.len(),
            0 < rows <= n,
            0 < cols,
            w == widest_len + 2,
            widest_len == widest(es),
            row <= rows,
            out@ == grid_text(es, rows as nat, w, cols as nat, row as nat),
        decreases rows - row,
    {
        let mut col: usize = 0;
        let mut idx: usize = row;
        let mut line = String::new();
        while col < cols && idx < n
            invariant
                es == views(entries@),
                n == entries@.len(),
                0 < rows <= n,
                row < rows,
                w == widest_len + 2,
                widest_len == widest(es),
                col <= cols,
                idx <= n,
                idx < n ==> idx == col * rows + row,
                idx == n ==> col * rows + row >= n,
                line@ == row_text(es, rows as nat, w, row as nat, col as nat),
            decreases cols - col,
        {
            let e = entries[idx].as_str();
            let len = e.unicode_len();
            proof {
                lemma_widest_bound(es, idx as int);
            }
            line.append(e);
            push_spaces(&mut line, widest_len - len);
            push_spaces(&mut line, 2);
            assert(line@ =~= row_text(es, rows as nat, w, row as nat, (col + 1) as nat));
            col = col + 1;
            if rows >= n - idx {
                assert(col * rows + row >= n) by (nonlinear_arith)
                    requires
                        idx == (col - 1) * rows + row,
                        rows >= n - idx,
                ;
                idx = n;
            } else {
                assert(idx + rows == col * rows + row) by (nonlinear_arith)
                    requires
                        idx == (col - 1) * rows + row,
                ;
                idx = idx + rows;
            }
        }
        proof {
            if col < cols {
                lemma_row_tail(es, rows as nat, w, row as nat, col as nat, cols as nat);
            }
        }
        out.append(line.as_str());
        out.append("\n");
        row = row + 1;
    }
    out
}

/// The message `ls` prints for a path it cannot reach, with the reason.
pub fn access_error(target: &str, reason: &str) -> (r: String)
    ensures
        r@ == "ls: cannot access '"@ + target@ + "': "@ + reason@ + "\n"@,
{
    let mut r = String::from_str("ls: cannot access '");
    r.append(target);
    r.append("': ");
    r.append(reason);
    r.append("\n");
    r
}

/// What kind of file a directory entry is, with the entry's name.
#[derive(Clone, Debug)]
pub enum Types {
    File(String),
    Dir(String),
    Executable(String),
    Symlink(String),
    CharDevice(String),
    BlockDevice(String),
    Socket(String),
    Pipe(String),
    NotSupported,
}

/// `t` is the kind that file mode `mode` gives to the entry named `name`: the
/// file type bits decide, and a regular file with any execute bit is an
/// executable.
pub open spec fn classified_as(mode: u32, name: Seq<char>, t: Types) -> bool {
    let ft = mode & 0o170000u32;
    if ft == 0o120000u32 {
        t matches Types::Symlink(n) && n@ == name
    } else if ft == 0o020000u32 {
        t matches Types::CharDevice(n) && n@ == name
    } else if ft == 0o060000u32 {
        t matches Types::BlockDevice(n) && n@ == name
    } else if ft == 0o140000u32 {
        t matches Types::Socket(n) && n@ == name
    } else if ft == 0o010000u32 {
        t matches Types::Pipe(n) && n@ == name
    } else if ft == 0o100000u32 && mode & 0o111u32 != 0 {
        t matches Types::Executable(n) && n@ == name
    } else if ft == 0o100000u32 {
        t matches Types::File(n) && n@ == name
    } else if ft == 0o040000u32 {
        t matches Types::Dir(n) && n@ == name
    } else {
        t is NotSupported
    }
}

/// The kind of the entry named `name` whose file mode is `mode`.
pub fn check_type(mode: u32, name: String) -> (t: Types)
    ensures
        classified_as(mode, name@, t),
{
    let ft = mode & 0o170000;
    if ft == 0o120000 {
        Types::Symlink(name)
    } else if ft == 0o020000 {
        Types::CharDevice(name)
    } else if ft == 0o060000 {
        Types::BlockDevice(name)
    } else if ft == 0o140000 {
        Types::Socket(name)
    } else if ft == 0o010000 {
        Types::Pipe(name)
    } else if ft == 0o100000 && mode & 0o111 != 0 {
        Types::Executable(name)
    } else if ft == 0o100000 {
        Types::File(name)
    } else if ft == 0o040000 {
        Types::Dir(name)
    } else {
        Types::NotSupported
    }
}

/// How an entry is shown: with `-F` a directory gets `/` and a symbolic link
/// `@`; with `-l` a symbolic link shows its target `link`; sockets and pipes
/// always get `=` and `|`; an unsupported entry shows nothing.
pub open spec fn entry_text(t: Types, link: Seq<char>, flag_f: bool, flag_l: bool) -> Seq<char> {
    match t {
        Types::Dir(n) => if flag_f {
            n@ + "/"@
        } else {
            n@
        },
        Types::Symlink(n) => if flag_l {
            n@ + " -> "@ + link
        } else if flag_f {
            n@ + "@"@
        } else {
            n@
        },
        Types::Socket(n) => n@ + "="@,
        Types::Pipe(n) => n@ + "|"@,
        Types::File(n) => n@,
        Types::Executable(n) => n@,
        Types::CharDevice(n) => n@,
        Types::BlockDevice(n) => n@,
        Types::NotSupported => Seq::empty(),
    }
}

/// The text shown for an entry of kind `entry_type`; `link` is the target of
/// a symbolic link and is not used for other kinds.
pub fn format_entry_name(entry_type: &Types, link: &str, flag_f: bool, flag_l: bool) -> (r: String)
    ensures
        r@ == entry_text(*entry_type, link@, flag_f, flag_l),
{
    match entry_type {
        Types::Dir(n) => {
            let mut r = n.clone();
            if flag_f {
                r.append("/");
            }
            r
        },
        Types::Symlink(n) => {
            let mut r = n.clone();
            if flag_l {
                r.append(" -> ");
                r.append(link);
            } else if flag_f {
                r.append("@");
            }
            r
        },
        Types::Socket(n) => {
            let mut r = n.clone();
            r.append("=");
            r
        },
        Types::Pipe(n) => {
            let mut r = n.clone();
            r.append("|");
            r
        },
        Types::File(n) => n.clone(),
        Types::Executable(n) => n.clone(),
        Types::CharDevice(n) => n.clone(),
        Types::BlockDevice(n) => n.clone(),
        Types::NotSupported => String::new(),
    }
}

/// An entry is listed when hidden entries are shown or its name does not
/// start with a dot.
pub fn is_listed(name: &str, show_all: bool) -> (r: bool)
    ensures
        r == (show_all || !(name@.len() > 0 && name@[0] == '.')),
{
    show_all || !(name.unicode_len() > 0 && name.get_char(0) == '.')
}

/// `w` occurs in `s`.
pub open spec fn has_infix(s: Seq<char>, w: Seq<char>) -> bool {
    exists|i: int| 0 <= i && i + w.len() <= s.len() && #[trigger] s.subrange(i, i + w.len()) == w
}

/// `s` starts with `w`.
pub open spec fn has_prefix(s: Seq<char>, w: Seq<char>) -> bool {
    w.len() <= s.len() && s.take(w.len() as int) == w
}

/// `s` ends with `w`.
pub open spec fn has_suffix(s: Seq<char>, w: Seq<char>) -> bool {
    w.len() <= s.len() && s.skip(s.len() - w.len()) == w
}

/// Whether `w` occurs in `v` at position `i`.
fn occurs_at(v: &Vec<char>, w: &Vec<char>, i: usize) -> (r: bool)
    requires
        i + w@.len() <= v@.len(),
    ensures
        r == (v@.subrange(i as int, i + w@.len()) == w@),
{
    let mut k: usize = 0;
    while k < w.len()
        invariant
            i + w.len() <= v.len(),
            k <= w@.len(),
            forall|q: int| 0 <= q < k ==> v@[i + q] == w@[q],
        decreases w@.len() - k,
    {
        if v[i + k] != w[k] {
            assert(v@.subrange(i as int, i + w@.len())[k as int] != w@[k as int]);
            return false;
        }
        k = k + 1;
    }
    assert(v@.subrange(i as int, i + w@.len()) =~= w@);
    true
}

/// Whether `w` occurs in `s`.
pub fn contains_text(s: &str, w: &str) -> (r: bool)
    ensures
        r == has_infix(s@, w@),
{
    let v = chars_of(s);
    let x = chars_of(w);
    if x.len() > v.len() {
        return false;
    }
    if x.len() == 0 {
        assert(s@.subrange(0, 0 + w@.len() as int) =~= w@);
        return true;
    }
    let last = v.len() - x.len();
    let mut i: usize = 0;
    while i <= last
        invariant
            v@ == s@,
            x@ == w@,
            x@.len() > 0,
            last + x.len() == v.len(),
            i <= last + 1,
            forall|j: int| 0 <= j < i ==> #[trigger] v@.subrange(j, j + x@.len()) != x@,
        decreases last + 1 - i,
    {
        if occurs_at(&v, &x, i) {
            assert(s@.subrange(i as int, i + w@.len()) == w@);
            return true;
        }
        i = i + 1;
    }
    assert forall|j: int| 0 <= j && j + w@.len() <= s@.len() implies #[trigger] s@.subrange(j, j + w@.len()) != w@ by {
        assert(j <= last);
    }
    false
}

/// Whether `s` starts with `w`.
pub fn starts_with_text(s: &str, w: &str) -> (r: bool)
    ensures
        r == has_prefix(s@, w@),
{
    let v = chars_of(s);
    let x = chars_of(w);
    if x.len() > v.len() {
        return false;
    }
    let r = occurs_at(&v, &x, 0);
    assert(v@.subrange(0, x@.len() as int) =~= v@.take(x@.len() as int));
    r
}

/// Whether `s` ends with `w`.
pub fn ends_with_text(s: &str, w: &str) -> (r: bool)
    ensures
        r == has_suffix(s@, w@),
{
    let v = chars_of(s);
    let x = chars_of(w);
    if x.len() > v.len() {
        return false;
    }
    let r = occurs_at(&v, &x, v.len() - x.len());
    assert(v@.subrange(v@.len() - x@.len(), v@.len() as int) =~= v@.skip(v@.len() - x@.len()));
    r
}

/// Where a line of a long listing goes: permission errors first, then the
/// total, then the current and the parent directory, then the entries.
pub open spec fn line_rank(line: Seq<char>) -> u8 {
    if has_infix(line, "Permission denied"@) {
        0
    } else if has_prefix(line, "total: "@) {
        1
    } else if has_suffix(crate::prompt::trim_end(line), " ."@) {
        2
    } else if has_suffix(crate::prompt::trim_end(line), " .."@) {
        3
    } else {
        4
    }
}

/// The rank of a line of a long listing; lines are ordered by rank, then
/// by their text.
pub fn entry_priority(line: &str) -> (r: u8)
    ensures
        r == line_rank(line@),
{
    if contains_text(line, "Permission denied") {
        return 0;
    }
    if starts_with_text(line, "total: ") {
        return 1;
    }
    let trimmed = crate::prompt::trim_end_of(line);
    if ends_with_text(trimmed.as_str(), " .") {
        2
    } else if ends_with_text(trimmed.as_str(), " ..") {
        3
    } else {
        4
    }
}

} // verus!

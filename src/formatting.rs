//! Layout of help pages: word wrapping, indentation and a buffer of text fragments.
use vstd::prelude::*;

verus! {

/// The characters that separate words.
pub open spec fn is_blank(c: char) -> bool {
    c == ' ' || c == '\t' || c == '\n' || c == '\r'
}

pub open spec fn spaces(n: nat) -> Seq<char> {
    Seq::new(n, |_i: int| ' ')
}

/// The text held by each string of a sequence.
pub open spec fn views(v: Seq<String>) -> Seq<Seq<char>> {
    v.map_values(|s: String| s@)
}

/// The words of a text: its maximal runs of characters that are not blank, in order.
pub open spec fn words(s: Seq<char>) -> Seq<Seq<char>>
    decreases s.len(),
{
    if s.len() == 0 {
        Seq::empty()
    } else {
        let w = words(s.drop_last());
        let c = s.last();
        if is_blank(c) {
            w
        } else if s.len() >= 2 && !is_blank(s[s.len() - 2]) {
            w.drop_last().push(w.last().push(c))
        } else {
            w.push(seq![c])
        }
    }
}

/// The number of blank characters that end a text.
pub open spec fn trailing_blanks(s: Seq<char>) -> nat
    decreases s.len(),
{
    if s.len() == 0 {
        0
    } else if is_blank(s.last()) {
        trailing_blanks(s.drop_last()) + 1
    } else {
        0
    }
}

/// For each word of a text, the number of blank characters just before it.
pub open spec fn gaps(s: Seq<char>) -> Seq<nat>
    decreases s.len(),
{
    if s.len() == 0 {
        Seq::empty()
    } else {
        let g = gaps(s.drop_last());
        let c = s.last();
        if is_blank(c) || (s.len() >= 2 && !is_blank(s[s.len() - 2])) {
            g
        } else {
            g.push(trailing_blanks(s.drop_last()))
        }
    }
}

/// Greedy filling: each word goes on the current line, after the blanks that preceded it
/// in the text (as spaces), when the line stays within `width`; otherwise it starts a
/// new line. A word longer than `width` stands alone on its line. `gs[k]` is the gap
/// before word `k`.
pub open spec fn fill_lines(ws: Seq<Seq<char>>, gs: Seq<nat>, width: nat) -> Seq<Seq<char>>
    decreases ws.len(),
{
    if ws.len() == 0 {
        Seq::empty()
    } else {
        let ls = fill_lines(ws.drop_last(), gs, width);
        let w = ws.last();
        let g = gs[ws.len() - 1];
        if ls.len() > 0 && ls.last().len() + g + w.len() <= width {
            ls.drop_last().push(ls.last() + spaces(g) + w)
        } else {
            ls.push(w)
        }
    }
}

/// The lines of a text wrapped to `width` columns.
pub open spec fn text_lines(text: Seq<char>, width: nat) -> Seq<Seq<char>> {
    fill_lines(words(text), gaps(text), width)
}

/// Every filled line fits in `width` columns, but for a line that holds one word longer
/// than `width`.
pub proof fn lemma_lines_fit(ws: Seq<Seq<char>>, gs: Seq<nat>, width: nat)
    ensures
        forall|k: int|
            0 <= k < fill_lines(ws, gs, width).len() ==> (#[trigger] fill_lines(ws, gs, width)[k]).len()
                <= width || ws.contains(fill_lines(ws, gs, width)[k]),
    decreases ws.len(),
{
    if ws.len() > 0 {
        let rest = ws.drop_last();
        lemma_lines_fit(rest, gs, width);
        let ls = fill_lines(rest, gs, width);
        let lines = fill_lines(ws, gs, width);
        assert forall|k: int| 0 <= k < lines.len() implies (#[trigger] lines[k]).len() <= width
            || ws.contains(lines[k]) by {
            if k < ls.len() && !(k == ls.len() - 1 && lines.len() == ls.len()) {
                assert(lines[k] == ls[k]);
                if ls[k].len() > width {
                    let i = choose|i: int| 0 <= i < rest.len() && rest[i] == ls[k];
                    assert(ws[i] == ls[k]);
                }
            } else if lines.len() == ls.len() + 1 {
                assert(lines[k] == ws.last());
                assert(ws[ws.len() - 1] == ws.last());
            }
        }
    }
}

/// Lines joined by newlines, the first preceded by `first`, each other one by `rest`.
pub open spec fn join_lines(lines: Seq<Seq<char>>, first: Seq<char>, rest: Seq<char>) -> Seq<char>
    decreases lines.len(),
{
    if lines.len() == 0 {
        Seq::empty()
    } else if lines.len() == 1 {
        first + lines[0]
    } else {
        join_lines(lines.drop_last(), first, rest) + seq!['\n'] + rest + lines.last()
    }
}

/// A text wrapped to `width` columns, its lines led by the given indents.
pub open spec fn wrapped(text: Seq<char>, width: nat, first: Seq<char>, rest: Seq<char>) -> Seq<
    char,
> {
    join_lines(text_lines(text, width), first, rest)
}

/// The columns left to text once `used` columns are taken, and never fewer than ten.
pub open spec fn text_width(width: nat, used: nat) -> nat {
    if width >= used + 10 {
        (width - used) as nat
    } else {
        10
    }
}

pub fn spaces_string(n: usize) -> (r: String)
    ensures
        r@ == spaces(n as nat),
{
    let mut r = String::new();
    let mut i: usize = 0;
    while i < n
        invariant
            i <= n,
            r@ == spaces(i as nat),
        decreases n - i,
    {
        r.append(" ");
        proof {
            reveal_strlit(" ");
        }
        assert(spaces((i + 1) as nat) =~= spaces(i as nat) + " "@);
        i = i + 1;
    }
    r
}

fn is_blank_char(c: char) -> (r: bool)
    ensures
        r == is_blank(c),
{
    c == ' ' || c == '\t' || c == '\n' || c == '\r'
}

/// The word that a scan has begun at `start` and not yet closed at `i`, if any.
spec fn open_word(s: Seq<char>, start: int, i: int) -> Seq<Seq<char>> {
    if start < i {
        seq![s.subrange(start, i)]
    } else {
        Seq::empty()
    }
}

/// The words before a blank character are the words before and up to it.
proof fn lemma_words_blank(s: Seq<char>, i: int)
    requires
        0 <= i < s.len(),
        is_blank(s[i]),
    ensures
        words(s.take(i + 1)) == words(s.take(i)),
{
    assert(s.take(i + 1).drop_last() =~= s.take(i));
}

/// A character that is not blank extends the open word, or opens one.
proof fn lemma_words_letter(s: Seq<char>, done: Seq<Seq<char>>, start: int, i: int)
    requires
        0 <= start <= i < s.len(),
        !is_blank(s[i]),
        forall|k: int| start <= k < i ==> !is_blank(#[trigger] s[k]),
        start == 0 || is_blank(s[start - 1]),
        done + open_word(s, start, i) == words(s.take(i)),
    ensures
        done + open_word(s, start, i + 1) == words(s.take(i + 1)),
{
    let t = s.take(i + 1);
    let w = words(s.take(i));
    assert(t.drop_last() =~= s.take(i));
    assert(t.last() == s[i]);
    if start < i {
        assert(!is_blank(t[t.len() - 2]));
        assert(w.drop_last() =~= done);
        assert(w.last() == s.subrange(start, i));
        assert(s.subrange(start, i).push(s[i]) =~= s.subrange(start, i + 1));
        assert(done + open_word(s, start, i + 1) =~= w.drop_last().push(w.last().push(s[i])));
    } else {
        assert(i == 0 || is_blank(t[t.len() - 2]));
        assert(w =~= done);
        assert(seq![s[i]] =~= s.subrange(start, i + 1));
        assert(done + open_word(s, start, i + 1) =~= w.push(seq![s[i]]));
    }
}

fn push_text(out: &mut Vec<String>, piece: &str)
    ensures
        final(out)@.len() == old(out)@.len() + 1,
        views(final(out)@) == views(old(out)@).push(piece@),
{
    let ghost before = out@;
    out.push(String::from_str(piece));
    assert(views(out@) =~= views(before).push(piece@));
}

/// Splits a text into its words.
pub fn split_words(text: &str) -> (r: Vec<String>)
    ensures
        views(r@) == words(text@),
{
    let n = text.unicode_len();
    let mut out: Vec<String> = Vec::new();
    let mut start: usize = 0;
    let mut i: usize = 0;
    assert(views(out@) + open_word(text@, 0, 0) =~= words(text@.take(0)));
    while i < n
        invariant
            n == text@.len(),
            start <= i <= n,
            forall|k: int| start <= k < i ==> !is_blank(#[trigger] text@[k]),
            start == 0 || is_blank(text@[start - 1]),
            views(out@) + open_word(text@, start as int, i as int) == words(text@.take(i as int)),
        decreases n - i,
    {
        let c = text.get_char(i);
        if is_blank_char(c) {
            proof {
                lemma_words_blank(text@, i as int);
            }
            if start < i {
                push_text(&mut out, text.substring_char(start, i));
            } else {
                assert(views(out@) + open_word(text@, start as int, i as int) =~= views(out@));
            }
            start = i + 1;
            assert(views(out@) + open_word(text@, start as int, start as int) =~= views(out@));
        } else {
            proof {
                lemma_words_letter(text@, views(out@), start as int, i as int);
            }
        }
        i = i + 1;
    }
    assert(text@.take(n as int) =~= text@);
    if start < n {
        push_text(&mut out, text.substring_char(start, n));
    } else {
        assert(views(out@) + open_word(text@, start as int, n as int) =~= views(out@));
    }
    out
}

/// The gaps of a text one character longer: a letter after a blank opens a word.
proof fn lemma_gaps_step(s: Seq<char>, i: int)
    requires
        0 <= i < s.len(),
    ensures
        gaps(s.take(i + 1)) == (if is_blank(s[i]) || (i >= 1 && !is_blank(s[i - 1])) {
            gaps(s.take(i))
        } else {
            gaps(s.take(i)).push(trailing_blanks(s.take(i)))
        }),
        trailing_blanks(s.take(i + 1)) == (if is_blank(s[i]) {
            trailing_blanks(s.take(i)) + 1
        } else {
            0
        }),
{
    let t = s.take(i + 1);
    assert(t.drop_last() =~= s.take(i));
    assert(t.last() == s[i]);
    if i >= 1 {
        assert(t[t.len() - 2] == s[i - 1]);
    }
}

pub open spec fn nats(v: Seq<usize>) -> Seq<nat> {
    v.map_values(|g: usize| g as nat)
}

/// The gaps before the words of a text.
pub fn split_gaps(text: &str) -> (r: Vec<usize>)
    ensures
        nats(r@) == gaps(text@),
{
    let n = text.unicode_len();
    let mut out: Vec<usize> = Vec::new();
    let mut blanks: usize = 0;
    let mut i: usize = 0;
    let mut prev_blank = true;
    assert(nats(out@) =~= gaps(text@.take(0)));
    while i < n
        invariant
            n == text@.len(),
            i <= n,
            blanks <= i,
            blanks == trailing_blanks(text@.take(i as int)),
            prev_blank == (i == 0 || is_blank(text@[i - 1])),
            nats(out@) == gaps(text@.take(i as int)),
        decreases n - i,
    {
        let c = text.get_char(i);
        proof {
            lemma_gaps_step(text@, i as int);
        }
        if is_blank_char(c) {
            blanks = blanks + 1;
            prev_blank = true;
        } else {
            if prev_blank {
                let ghost before = out@;
                out.push(blanks);
                assert(nats(out@) =~= nats(before).push(blanks as nat));
            }
            blanks = 0;
            prev_blank = false;
        }
        i = i + 1;
    }
    assert(text@.take(n as int) =~= text@);
    out
}

/// Filling one more word keeps the lines built so far, the last possibly extended.
proof fn lemma_fill_step(ws: Seq<Seq<char>>, gs: Seq<nat>, width: nat, i: int)
    requires
        0 < i < ws.len(),
    ensures
        fill_lines(ws.take(i + 1), gs, width) == ({
            let ls = fill_lines(ws.take(i), gs, width);
            if ls.len() > 0 && ls.last().len() + gs[i] + ws[i].len() <= width {
                ls.drop_last().push(ls.last() + spaces(gs[i]) + ws[i])
            } else {
                ls.push(ws[i])
            }
        }),
{
    assert(ws.take(i + 1).drop_last() =~= ws.take(i));
}

/// Fills words into lines of at most `width` columns; `gs[k]` is the gap before word
/// `k`. See `fill_lines`.
pub fn fill(ws: &Vec<String>, gs: &Vec<usize>, width: usize) -> (r: Vec<String>)
    requires
        gs@.len() == ws@.len(),
    ensures
        views(r@) == fill_lines(views(ws@), nats(gs@), width as nat),
{
    let ghost wv = views(ws@);
    let ghost gv = nats(gs@);
    let mut lines: Vec<String> = Vec::new();
    if ws.len() == 0 {
        assert(wv =~= Seq::<Seq<char>>::empty());
        assert(views(lines@) =~= Seq::<Seq<char>>::empty());
        return lines;
    }
    let mut cur: String = ws[0].clone();
    let mut cur_len: usize = ws[0].as_str().unicode_len();
    assert(wv.take(1).drop_last() =~= Seq::<Seq<char>>::empty());
    assert(fill_lines(Seq::<Seq<char>>::empty(), gv, width as nat) =~= Seq::<Seq<char>>::empty());
    assert(wv.take(1).last() == cur@);
    assert(views(lines@).push(cur@) =~= fill_lines(wv.take(1), gv, width as nat));
    let mut i: usize = 1;
    while i < ws.len()
        invariant
            1 <= i <= ws.len(),
            gs@.len() == ws@.len(),
            wv == views(ws@),
            gv == nats(gs@),
            cur_len == cur@.len(),
            views(lines@).push(cur@) == fill_lines(wv.take(i as int), gv, width as nat),
        decreases ws.len() - i,
    {
        proof {
            lemma_fill_step(wv, gv, width as nat, i as int);
        }
        let w = ws[i].as_str();
        let wlen = w.unicode_len();
        let g = gs[i];
        let ghost ls = views(lines@).push(cur@);
        assert(ls.drop_last() =~= views(lines@));
        if cur_len <= width && g <= width - cur_len && wlen <= width - cur_len - g {
            let pad = spaces_string(g);
            cur.append(pad.as_str());
            cur.append(w);
            assert(cur@ =~= ls.last() + spaces(gv[i as int]) + wv[i as int]);
            cur_len = cur_len + g + wlen;
        } else {
            let ghost before = lines@;
            lines.push(cur);
            assert(views(lines@) =~= views(before).push(ls.last()));
            cur = String::from_str(w);
            cur_len = wlen;
        }
        i = i + 1;
    }
    let ghost before = lines@;
    lines.push(cur);
    assert(views(lines@) =~= views(before).push(cur@));
    assert(wv.take(ws.len() as int) =~= wv);
    lines
}

proof fn lemma_words_gaps_len(s: Seq<char>)
    ensures
        words(s).len() == gaps(s).len(),
    decreases s.len(),
{
    if s.len() > 0 {
        lemma_words_gaps_len(s.drop_last());
    }
}

/// Wraps a text to lines of at most `width` columns; see `text_lines`.
pub fn wrap_lines(text: &str, width: usize) -> (r: Vec<String>)
    ensures
        views(r@) == text_lines(text@, width as nat),
{
    let ws = split_words(text);
    let gs = split_gaps(text);
    proof {
        lemma_words_gaps_len(text@);
    }
    assert(gs@.len() == nats(gs@).len());
    fill(&ws, &gs, width)
}

/// Joins lines with newlines, the first led by `first`, each other one by `rest`.
pub fn join(lines: &Vec<String>, first: &str, rest: &str) -> (r: String)
    ensures
        r@ == join_lines(views(lines@), first@, rest@),
{
    let ghost lv = views(lines@);
    let mut out = String::new();
    let mut i: usize = 0;
    assert(lv.take(0) =~= Seq::<Seq<char>>::empty());
    while i < lines.len()
        invariant
            i <= lines.len(),
            lv == views(lines@),
            out@ == join_lines(lv.take(i as int), first@, rest@),
        decreases lines.len() - i,
    {
        let ghost t = lv.take(i + 1);
        assert(t.drop_last() =~= lv.take(i as int));
        if i == 0 {
            out.append(first);
        } else {
            out.append("\n");
            out.append(rest);
            proof {
                reveal_strlit("\n");
                assert("\n"@ =~= seq!['\n']);
            }
            assert("\n"@ =~= seq!['\n']);
        }
        out.append(lines[i].as_str());
        assert(t.last() == lines@[i as int]@);
        i = i + 1;
    }
    assert(lv.take(lines.len() as int) =~= lv);
    out
}

/// Wraps a text to `width` columns; the first line is led by `initial_indent` and
/// each other one by `subsequent_indent`.
pub fn wrap_text(text: &str, width: usize, initial_indent: &str, subsequent_indent: &str) -> (r:
    String)
    ensures
        r@ == wrapped(text@, width as nat, initial_indent@, subsequent_indent@),
{
    let lines = wrap_lines(text, width);
    join(&lines, initial_indent, subsequent_indent)
}

/// Columns between the two columns of a definition list.
pub const COLUMN_GAP: usize = 2;

/// The columns left to text once `a + b` columns are taken; see `text_width`.
fn columns_left(width: usize, a: usize, b: usize) -> (r: usize)
    ensures
        r == text_width(width as nat, (a + b) as nat),
{
    if width >= 10 && width - 10 >= a && width - 10 - a >= b {
        width - a - b
    } else {
        10
    }
}

/// Spaces in the number `a + b`, built without adding the two counts.
fn spaces_sum(a: usize, b: usize) -> (r: String)
    ensures
        r@ == spaces((a + b) as nat),
{
    let mut r = spaces_string(a);
    let more = spaces_string(b);
    r.append(more.as_str());
    assert(spaces((a + b) as nat) =~= spaces(a as nat) + spaces(b as nat));
    r
}

/// A heading on a line of its own, after the current indentation.
pub open spec fn heading_line(indent: nat, heading: Seq<char>) -> Seq<char> {
    spaces(indent) + heading + seq!['\n']
}

/// A paragraph of text wrapped to what the indentation leaves of `width`, each line
/// indented, and ended by a newline.
pub open spec fn text_block(text: Seq<char>, width: nat, indent: nat) -> Seq<char> {
    wrapped(text, text_width(width, indent), spaces(indent), spaces(indent)) + seq!['\n']
}

/// `prefix` and `name`, then the words of `args` after one space, wrapped to the width
/// that remains, each further line indented to stand under the first argument.
pub open spec fn usage_line(name: Seq<char>, args: Seq<char>, prefix: Seq<char>, width: nat) -> Seq<
    char,
> {
    let lead = prefix + name;
    lead + wrapped(args, text_width(width, lead.len() + 1), seq![' '], spaces(lead.len() + 1))
        + seq!['\n']
}

/// The two texts of each row of a definition list.
pub open spec fn row_views(rows: Seq<(String, String)>) -> Seq<(Seq<char>, Seq<char>)> {
    rows.map_values(|r: (String, String)| (r.0@, r.1@))
}

/// The width of the widest first column.
pub open spec fn first_column_width(rows: Seq<(Seq<char>, Seq<char>)>) -> nat
    decreases rows.len(),
{
    if rows.len() == 0 {
        0
    } else {
        let m = first_column_width(rows.drop_last());
        if rows.last().0.len() > m {
            rows.last().0.len()
        } else {
            m
        }
    }
}

/// One row of a definition list: its first column after the indentation, then its
/// second column wrapped to `width`, starting `col` plus the gap columns after the
/// indentation, with each further line indented to that same column.
pub open spec fn definition_row(row: (Seq<char>, Seq<char>), indent: nat, col: nat, width: nat) -> Seq<
    char,
> {
    let lines = text_lines(row.1, width);
    if lines.len() == 0 {
        spaces(indent) + row.0 + seq!['\n']
    } else {
        spaces(indent) + row.0 + spaces((col + COLUMN_GAP - row.0.len()) as nat) + join_lines(
            lines,
            Seq::empty(),
            spaces((indent + col + COLUMN_GAP) as nat),
        ) + seq!['\n']
    }
}

pub open spec fn definition_rows(
    rows: Seq<(Seq<char>, Seq<char>)>,
    indent: nat,
    col: nat,
    width: nat,
) -> Seq<Seq<char>> {
    rows.map_values(|r: (Seq<char>, Seq<char>)| definition_row(r, indent, col, width))
}

/// A two-column table: the second column of all rows starts at one column, past the
/// widest first column and the gap.
pub open spec fn definition_list(rows: Seq<(Seq<char>, Seq<char>)>, indent: nat, width: nat) -> Seq<
    char,
> {
    let col = first_column_width(rows);
    definition_rows(rows, indent, col, text_width(width, (indent + col + COLUMN_GAP) as nat)).flatten()
}

/// A separating newline, unless nothing was written yet.
pub open spec fn with_paragraph(fragments: Seq<Seq<char>>) -> Seq<Seq<char>> {
    if fragments.len() > 0 {
        fragments.push(seq!['\n'])
    } else {
        fragments
    }
}

proof fn lemma_first_column_bound(rows: Seq<(Seq<char>, Seq<char>)>, k: int)
    requires
        0 <= k < rows.len(),
    ensures
        rows[k].0.len() <= first_column_width(rows),
    decreases rows.len(),
{
    if k < rows.len() - 1 {
        lemma_first_column_bound(rows.drop_last(), k);
    }
}

fn first_column(rows: &Vec<(String, String)>) -> (r: usize)
    ensures
        r == first_column_width(row_views(rows@)),
{
    let ghost rv = row_views(rows@);
    let mut col: usize = 0;
    let mut i: usize = 0;
    assert(rv.take(0) =~= Seq::<(Seq<char>, Seq<char>)>::empty());
    while i < rows.len()
        invariant
            i <= rows.len(),
            rv == row_views(rows@),
            col == first_column_width(rv.take(i as int)),
        decreases rows.len() - i,
    {
        assert(rv.take(i + 1).drop_last() =~= rv.take(i as int));
        let len = rows[i].0.as_str().unicode_len();
        if len > col {
            col = len;
        }
        i = i + 1;
    }
    assert(rv.take(rows.len() as int) =~= rv);
    col
}

fn definition_row_text(first: &str, second: &str, indent: usize, col: usize, width: usize) -> (r:
    String)
    requires
        first@.len() <= col,
    ensures
        r@ == definition_row((first@, second@), indent as nat, col as nat, width as nat),
{
    let lines = wrap_lines(second, width);
    let mut row = spaces_string(indent);
    row.append(first);
    proof {
        reveal_strlit("\n");
        assert("\n"@ =~= seq!['\n']);
        reveal_strlit("");
        assert(""@ =~= Seq::<char>::empty());
    }
    if lines.len() == 0 {
        row.append("\n");
    } else {
        let pad = spaces_sum(col - first.unicode_len(), COLUMN_GAP);
        row.append(pad.as_str());
        let mut lead = spaces_sum(indent, col);
        let gap = spaces_string(COLUMN_GAP);
        lead.append(gap.as_str());
        assert(spaces((indent + col + COLUMN_GAP) as nat) =~= spaces((indent + col) as nat) + spaces(
            COLUMN_GAP as nat,
        ));
        let body = join(&lines, "", lead.as_str());
        row.append(body.as_str());
        row.append("\n");
    }
    row
}

/// What a formatter holds: its layout settings and the fragments written so far.
pub struct FormatterState {
    pub width: nat,
    pub indent_increment: nat,
    pub current_indent: nat,
    pub fragments: Seq<Seq<char>>,
}

impl FormatterState {
    /// The text written so far.
    pub open spec fn value(self) -> Seq<char> {
        self.fragments.flatten()
    }
}

/// Lays out help pages: text is wrapped to a fixed width and indented by a level that
/// sections raise and lower.
pub struct HelpFormatter {
    width: usize,
    indent_increment: usize,
    current_indent: usize,
    buffer: Vec<String>,
}

impl View for HelpFormatter {
    type V = FormatterState;

    closed spec fn view(&self) -> FormatterState {
        FormatterState {
            width: self.width as nat,
            indent_increment: self.indent_increment as nat,
            current_indent: self.current_indent as nat,
            fragments: views(self.buffer@),
        }
    }
}

impl HelpFormatter {
    /// A formatter for text of `width` columns, whose sections indent by `indent_increment`.
    pub fn new(width: usize, indent_increment: usize) -> (r: HelpFormatter)
        ensures
            r@ == (FormatterState {
                width: width as nat,
                indent_increment: indent_increment as nat,
                current_indent: 0,
                fragments: Seq::empty(),
            }),
    {
        let r = HelpFormatter { width, indent_increment, current_indent: 0, buffer: Vec::new() };
        assert(views(r.buffer@) =~= Seq::<Seq<char>>::empty());
        r
    }

    /// Increases the indentation.
    pub fn indent(&mut self)
        requires
            old(self)@.current_indent + old(self)@.indent_increment <= usize::MAX,
        ensures
            final(self)@ == (FormatterState {
                current_indent: old(self)@.current_indent + old(self)@.indent_increment,
                ..old(self)@
            }),
    {
        self.current_indent = self.current_indent + self.indent_increment;
    }

    /// Decreases the indentation; it must have been increased before.
    pub fn dedent(&mut self)
        requires
            old(self)@.current_indent >= old(self)@.indent_increment,
        ensures
            final(self)@ == (FormatterState {
                current_indent: (old(self)@.current_indent - old(self)@.indent_increment) as nat,
                ..old(self)@
            }),
    {
        self.current_indent = self.current_indent - self.indent_increment;
    }

    /// Writes a string into the buffer.
    pub fn write(&mut self, s: String)
        ensures
            final(self)@ == (FormatterState {
                fragments: old(self)@.fragments.push(s@),
                ..old(self)@
            }),
    {
        let ghost before = self.buffer@;
        self.buffer.push(s);
        assert(views(self.buffer@) =~= views(before).push(s@));
    }

    /// Separates a new paragraph from what was written before, if anything was.
    pub fn write_paragraph(&mut self)
        ensures
            final(self)@ == (FormatterState {
                fragments: with_paragraph(old(self)@.fragments),
                ..old(self)@
            }),
    {
        if self.buffer.len() > 0 {
            proof {
                reveal_strlit("\n");
                assert("\n"@ =~= seq!['\n']);
            }
            self.write(String::from_str("\n"));
        }
    }

    /// Writes a heading at the current indentation.
    pub fn write_heading(&mut self, heading: &str)
        ensures
            final(self)@ == (FormatterState {
                fragments: old(self)@.fragments.push(
                    heading_line(old(self)@.current_indent, heading@),
                ),
                ..old(self)@
            }),
    {
        let mut line = spaces_string(self.current_indent);
        line.append(heading);
        line.append("\n");
        proof {
            reveal_strlit("\n");
            assert("\n"@ =~= seq!['\n']);
        }
        self.write(line);
    }

    /// Writes a two-column definition list at the current indentation.
    pub fn write_dl(&mut self, rows: Vec<(String, String)>)
        ensures
            final(self)@ == (FormatterState {
                fragments: old(self)@.fragments.push(
                    definition_list(row_views(rows@), old(self)@.current_indent, old(self)@.width),
                ),
                ..old(self)@
            }),
    {
        let ghost rv = row_views(rows@);
        let col = first_column(&rows);
        let width = if col <= usize::MAX - COLUMN_GAP {
            columns_left(self.width, self.current_indent, col + COLUMN_GAP)
        } else {
            10
        };
        let ghost f = definition_rows(rv, self.current_indent as nat, col as nat, width as nat);
        let mut out = String::new();
        let mut i: usize = 0;
        assert(f.take(0) =~= Seq::<Seq<char>>::empty());
        while i < rows.len()
            invariant
                i <= rows.len(),
                rv == row_views(rows@),
                col == first_column_width(rv),
                f == definition_rows(rv, self.current_indent as nat, col as nat, width as nat),
                out@ == f.take(i as int).flatten(),
            decreases rows.len() - i,
        {
            proof {
                lemma_first_column_bound(rv, i as int);
                Seq::lemma_flatten_push(f.take(i as int), f[i as int]);
            }
            assert(f.take(i + 1) =~= f.take(i as int).push(f[i as int]));
            let row = definition_row_text(
                rows[i].0.as_str(),
                rows[i].1.as_str(),
                self.current_indent,
                col,
                width,
            );
            out.append(row.as_str());
            i = i + 1;
        }
        assert(f.take(rows.len() as int) =~= f);
        self.write(out);
    }

    /// Separates a paragraph, writes a heading, and indents what follows.
    pub fn enter_section(&mut self, name: &str)
        requires
            old(self)@.current_indent + old(self)@.indent_increment <= usize::MAX,
        ensures
            final(self)@ == (FormatterState {
                current_indent: old(self)@.current_indent + old(self)@.indent_increment,
                fragments: with_paragraph(old(self)@.fragments).push(
                    heading_line(old(self)@.current_indent, name@),
                ),
                ..old(self)@
            }),
    {
        self.write_paragraph();
        self.write_heading(name);
        self.indent();
    }

    /// Leaves the indentation of a section.
    pub fn exit_section(&mut self)
        requires
            old(self)@.current_indent >= old(self)@.indent_increment,
        ensures
            final(self)@ == (FormatterState {
                current_indent: (old(self)@.current_indent - old(self)@.indent_increment) as nat,
                ..old(self)@
            }),
    {
        self.dedent();
    }

    /// Writes text wrapped to the width that the indentation leaves, each line indented.
    pub fn write_text(&mut self, text: String)
        ensures
            final(self)@ == (FormatterState {
                fragments: old(self)@.fragments.push(
                    text_block(text@, old(self)@.width, old(self)@.current_indent),
                ),
                ..old(self)@
            }),
    {
        let width = columns_left(self.width, self.current_indent, 0);
        let indent = spaces_string(self.current_indent);
        let mut block = wrap_text(text.as_str(), width, indent.as_str(), indent.as_str());
        block.append("\n");
        proof {
            reveal_strlit("\n");
            assert("\n"@ =~= seq!['\n']);
        }
        self.write(block);
    }

    /// Writes a usage line: `prefix` and `name`, then the arguments wrapped to the
    /// remaining width, further lines standing under the first argument.
    pub fn write_usage(&mut self, name: &str, args: String, prefix: &str)
        ensures
            final(self)@ == (FormatterState {
                fragments: old(self)@.fragments.push(
                    usage_line(name@, args@, prefix@, old(self)@.width),
                ),
                ..old(self)@
            }),
    {
        let mut line = String::from_str(prefix);
        line.append(name);
        let used = line.as_str().unicode_len();
        let width = columns_left(self.width, used, 1);
        let indent = spaces_sum(used, 1);
        let body = wrap_text(args.as_str(), width, " ", indent.as_str());
        line.append(body.as_str());
        line.append("\n");
        proof {
            reveal_strlit("\n");
            assert("\n"@ =~= seq!['\n']);
            reveal_strlit(" ");
        }
        assert(" "@ =~= seq![' ']);
        self.write(line);
    }

    /// The text written so far. Reading it changes nothing, so two reads with no write
    /// between them give the same text.
    pub fn getvalue(&self) -> (r: String)
        ensures
            r@ == self@.value(),
    {
        let ghost fr = views(self.buffer@);
        let mut out = String::new();
        let mut i: usize = 0;
        assert(fr.take(0) =~= Seq::<Seq<char>>::empty());
        while i < self.buffer.len()
            invariant
                i <= self.buffer.len(),
                fr == views(self.buffer@),
                out@ == fr.take(i as int).flatten(),
            decreases self.buffer.len() - i,
        {
            proof {
                Seq::lemma_flatten_push(fr.take(i as int), fr[i as int]);
            }
            assert(fr.take(i + 1) =~= fr.take(i as int).push(fr[i as int]));
            out.append(self.buffer[i].as_str());
            i = i + 1;
        }
        assert(fr.take(self.buffer.len() as int) =~= fr);
        out
    }
}

} // verus!

//! Text positions in editor terms: lines, and columns counted in UTF-16 units.

use vstd::prelude::*;
use crate::diagnostic::{Position, Range};
use crate::tags::{fields, lemma_fields_first, lemma_fields_len};
use crate::text::{
    chars_of,
    is_white,
    leading_white,
    lemma_leading_white_exact,
    lemma_trailing_white_bound,
    push_char,
    string_of,
    trailing_white,
    trim_of,
    trim_start_of,
    white,
};

verus! {

/// How many UTF-16 units a character takes.
pub open spec fn utf16_width(c: char) -> int {
    if c as u32 > 0xffff {
        2
    } else {
        1
    }
}

/// The (line, column) at which the character after `s` starts.
pub open spec fn position_after(s: Seq<char>) -> (int, int)
    decreases s.len(),
{
    if s.len() == 0 {
        (0, 0)
    } else {
        let p = position_after(s.drop_last());
        if s.last() == '\n' {
            (p.0 + 1, 0)
        } else {
            (p.0, p.1 + utf16_width(s.last()))
        }
    }
}

/// Whether position `a` comes before position `b`.
pub open spec fn before(a: (int, int), b: (int, int)) -> bool {
    a.0 < b.0 || (a.0 == b.0 && a.1 < b.1)
}

/// Whether a character starting at `p` lies in `r`.
pub open spec fn in_range(p: (int, int), r: Range) -> bool {
    &&& !before(p, (r.start.line as int, r.start.character as int))
    &&& before(p, (r.end.line as int, r.end.character as int))
}

/// The characters among the first `n` of `s` that start inside `r`, in order.
pub open spec fn slice_upto(s: Seq<char>, r: Range, n: int) -> Seq<char>
    decreases n,
{
    if n <= 0 {
        seq![]
    } else {
        slice_upto(s, r, n - 1) + if in_range(position_after(s.take(n - 1)), r) {
            seq![s[n - 1]]
        } else {
            seq![]
        }
    }
}

/// The text of `s` that `r` covers.
pub open spec fn slice_of(s: Seq<char>, r: Range) -> Seq<char> {
    slice_upto(s, r, s.len() as int)
}

/// Returns the part of `source` that `range` covers; columns count UTF-16 units.
pub fn slice_range(source: &str, range: Range) -> (r: String)
    ensures
        r@ == slice_of(source@, range),
{
    let v = chars_of(source);
    let mut out: Vec<char> = Vec::new();
    let mut line: u128 = 0;
    let mut character: u128 = 0;
    let start_line = range.start.line as u128;
    let start_character = range.start.character as u128;
    let end_line = range.end.line as u128;
    let end_character = range.end.character as u128;
    let mut k: usize = 0;
    while k < v.len()
        invariant
            k <= v.len(),
            v@ == source@,
            (line as int, character as int) == position_after(v@.take(k as int)),
            line <= k,
            character <= 2 * k,
            out@ == slice_upto(v@, range, k as int),
            start_line == range.start.line,
            start_character == range.start.character,
            end_line == range.end.line,
            end_character == range.end.character,
        decreases v.len() - k,
    {
        let ch = v[k];
        let ghost pos = position_after(v@.take(k as int));
        let ghost inside = in_range(pos, range);
        if (line > start_line || (line == start_line && character >= start_character)) && (line
            < end_line || (line == end_line && character < end_character)) {
            assert(inside);
            out.push(ch);
        } else {
            assert(!inside);
        }
        assert(slice_upto(v@, range, k + 1) == slice_upto(v@, range, k as int) + if inside {
            seq![v@[k as int]]
        } else {
            seq![]
        });
        assert(out@ == slice_upto(v@, range, k + 1));
        assert(v@.take(k + 1).drop_last() == v@.take(k as int));
        if ch == '\n' {
            line = line + 1;
            character = 0;
        } else if (ch as u32) > 0xffff {
            character = character + 2;
        } else {
            character = character + 1;
        }
        k = k + 1;
    }
    assert(v@.take(v.len() as int) == v@);
    string_of(&out)
}

proof fn lemma_position_steps(s: Seq<char>, k: int)
    requires
        0 <= k < s.len(),
    ensures
        before(position_after(s.take(k)), position_after(s.take(k + 1))),
        position_after(s.take(k)).0 >= 0,
        position_after(s.take(k)).1 >= 0,
    decreases k,
{
    assert(s.take(k + 1).drop_last() == s.take(k));
    if k > 0 {
        lemma_position_steps(s, k - 1);
        assert(s.take(k).drop_last() == s.take(k - 1));
    } else {
        assert(s.take(0).len() == 0);
    }
}

proof fn lemma_position_grows(s: Seq<char>, i: int, j: int)
    requires
        0 <= i < j <= s.len(),
    ensures
        before(position_after(s.take(i)), position_after(s.take(j))),
    decreases j - i,
{
    lemma_position_steps(s, j - 1);
    if i < j - 1 {
        lemma_position_grows(s, i, j - 1);
    }
}

proof fn lemma_all_in(s: Seq<char>, r: Range, n: int)
    requires
        0 <= n <= s.len(),
        forall|k: int| 0 <= k < n ==> in_range(position_after(#[trigger] s.take(k)), r),
    ensures
        slice_upto(s, r, n) == s.take(n),
    decreases n,
{
    if n > 0 {
        lemma_all_in(s, r, n - 1);
        assert(in_range(position_after(s.take(n - 1)), r));
        assert(s.take(n - 1).push(s[n - 1]) == s.take(n));
    } else {
        assert(s.take(0) == Seq::<char>::empty());
    }
}

proof fn lemma_prefix(s: Seq<char>, r: Range, n: int)
    requires
        0 <= n <= s.len(),
        r.start.line == 0 && r.start.character == 0,
    ensures
        slice_upto(s, r, n) == s.take(slice_upto(s, r, n).len() as int),
        slice_upto(s, r, n).len() <= n,
    decreases n,
{
    if n > 0 {
        let p = position_after(s.take(n - 1));
        if in_range(p, r) {
            assert forall|k: int| 0 <= k < n - 1 implies in_range(position_after(#[trigger] s.take(k)), r) by {
                lemma_position_grows(s, k, n - 1);
                lemma_position_steps(s, k);
            }
            lemma_all_in(s, r, n - 1);
            assert(s.take(n - 1).push(s[n - 1]) == s.take(n));
        } else {
            lemma_prefix(s, r, n - 1);
        }
    } else {
        assert(s.take(0) == Seq::<char>::empty());
    }
}

proof fn lemma_none_in(s: Seq<char>, r: Range, n: int)
    requires
        0 <= n <= s.len(),
        forall|k: int| 0 <= k < n ==> !in_range(position_after(#[trigger] s.take(k)), r),
    ensures
        slice_upto(s, r, n) == Seq::<char>::empty(),
    decreases n,
{
    if n > 0 {
        lemma_none_in(s, r, n - 1);
        assert(!in_range(position_after(s.take(n - 1)), r));
        assert(slice_upto(s, r, n) =~= Seq::<char>::empty());
    }
}

proof fn lemma_split_upto(s: Seq<char>, e: Position, n: int)
    requires
        0 <= n <= s.len(),
        forall|k: int|
            0 <= k < s.len() ==> before(
                position_after(#[trigger] s.take(k)),
                (u32::MAX as int, u32::MAX as int),
            ),
    ensures
        slice_upto(s, Range { start: Position { line: 0, character: 0 }, end: e }, n) + slice_upto(
            s,
            Range { start: e, end: Position { line: u32::MAX, character: u32::MAX } },
            n,
        ) == s.take(n),
    decreases n,
{
    let r1 = Range { start: Position { line: 0, character: 0 }, end: e };
    let r2 = Range { start: e, end: Position { line: u32::MAX, character: u32::MAX } };
    if n == 0 {
        assert(s.take(0) =~= Seq::<char>::empty());
        assert(slice_upto(s, r1, 0) + slice_upto(s, r2, 0) =~= Seq::<char>::empty());
    } else {
        lemma_split_upto(s, e, n - 1);
        let a = slice_upto(s, r1, n - 1);
        let b = slice_upto(s, r2, n - 1);
        let c = seq![s[n - 1]];
        let p = position_after(s.take(n - 1));
        lemma_position_steps(s, n - 1);
        assert(s.take(n) =~= s.take(n - 1) + c);
        if before(p, (e.line as int, e.character as int)) {
            assert(in_range(p, r1));
            assert(!in_range(p, r2));
            assert forall|k: int| 0 <= k < n - 1 implies !in_range(position_after(#[trigger] s.take(k)), r2) by {
                lemma_position_grows(s, k, n - 1);
            }
            lemma_none_in(s, r2, n - 1);
            assert(a + c + Seq::<char>::empty() =~= (a + Seq::<char>::empty()) + c);
        } else {
            assert(!in_range(p, r1));
            assert(in_range(p, r2));
            assert(a + (b + c) =~= (a + b) + c);
        }
    }
}

/// Slicing a document from its start up to a position, and from that position to
/// the end (`u32::MAX`, `u32::MAX`), gives two texts that together are the
/// document, for a document whose characters all start before that end.
pub proof fn lemma_slice_split(s: Seq<char>, e: Position)
    requires
        forall|k: int|
            0 <= k < s.len() ==> before(
                position_after(#[trigger] s.take(k)),
                (u32::MAX as int, u32::MAX as int),
            ),
    ensures
        slice_of(s, Range { start: Position { line: 0, character: 0 }, end: e }) + slice_of(
            s,
            Range { start: e, end: Position { line: u32::MAX, character: u32::MAX } },
        ) == s,
{
    lemma_split_upto(s, e, s.len() as int);
    assert(s.take(s.len() as int) == s);
}

/// The text that a range from the start of a document covers is a prefix of the
/// document: followed by the rest of the document, it gives the document back.
pub proof fn lemma_slice_from_start_is_prefix(s: Seq<char>, end: Position)
    ensures
        ({
            let head = slice_of(s, Range { start: Position { line: 0, character: 0 }, end });
            head + s.skip(head.len() as int) == s
        }),
{
    let r = Range { start: Position { line: 0, character: 0 }, end };
    lemma_prefix(s, r, s.len() as int);
    let head = slice_of(s, r);
    assert(head + s.skip(head.len() as int) =~= s);
}

} // verus!

verus! {

/// The lines of `s`, as `str::lines` gives them: split at each `\n`, with a `\r`
/// before a `\n` dropped, and no empty line after a final `\n`.
pub open spec fn lines_of(s: Seq<char>) -> Seq<Seq<char>> {
    if s.len() == 0 {
        seq![]
    } else {
        let f = fields(s, '\n');
        let n = f.len();
        Seq::new(
            (if s.last() == '\n' { n - 1 } else { n as int }) as nat,
            |i: int| if i < n - 1 && f[i].len() > 0 && f[i].last() == '\r' {
                f[i].drop_last()
            } else {
                f[i]
            },
        )
    }
}

/// The smallest indentation among the lines that are not blank, or `bound` if
/// none of the first `n` is below it.
pub open spec fn min_indent_upto(lines: Seq<Seq<char>>, n: int, bound: nat) -> nat
    decreases n,
{
    if n <= 0 {
        bound
    } else {
        let m = min_indent_upto(lines, n - 1, bound);
        let l = lines[n - 1];
        if trim_of(l).len() > 0 && leading_white(l) < m {
            leading_white(l)
        } else {
            m
        }
    }
}

/// The indentation common to the lines that are not blank (0 if all are blank).
pub open spec fn common_indent(lines: Seq<Seq<char>>) -> nat {
    let m = min_indent_upto(lines, lines.len() as int, 0x1_0000_0000_0000_0000);
    if m == 0x1_0000_0000_0000_0000 {
        0
    } else {
        m
    }
}

/// A line without the common indentation (a shorter line stays as it is).
pub open spec fn outdent_line(l: Seq<char>, k: nat) -> Seq<char> {
    if l.len() >= k {
        l.skip(k as int)
    } else {
        l
    }
}

/// The lines of `s` without their common indentation, joined by `\n`.
pub open spec fn outdented(s: Seq<char>) -> Seq<char> {
    let ls = lines_of(s);
    let k = common_indent(ls);
    join_lines(ls.map_values(|l: Seq<char>| outdent_line(l, k)))
}

/// Lines joined by `\n`.
pub open spec fn join_lines(ls: Seq<Seq<char>>) -> Seq<char>
    decreases ls.len(),
{
    if ls.len() == 0 {
        seq![]
    } else if ls.len() == 1 {
        ls[0]
    } else {
        join_lines(ls.drop_last()) + seq!['\n'] + ls.last()
    }
}

/// The pieces of `v` between `\n` characters, each as a list of characters.
fn split_newline_pieces(v: &Vec<char>) -> (r: Vec<Vec<char>>)
    ensures
        r@.len() == fields(v@, '\n').len(),
        forall|i: int| 0 <= i < r@.len() ==> (#[trigger] r@[i])@ == fields(v@, '\n')[i],
    decreases v.len(),
{
    let mut pieces: Vec<Vec<char>> = Vec::new();
    let mut start: usize = 0;
    assert(v@.skip(0) == v@);
    loop
        invariant
            start <= v.len(),
            fields(v@, '\n') == pieces_view(pieces@) + fields(v@.skip(start as int), '\n'),
        decreases v.len() - start,
    {
        let ghost rest = v@.skip(start as int);
        let mut j = start;
        while j < v.len() && v[j] != '\n'
            invariant
                start <= j <= v.len(),
                rest == v@.skip(start as int),
                forall|k: int| start <= k < j ==> v@[k] != '\n',
            decreases v.len() - j,
        {
            j = j + 1;
        }
        proof {
            assert forall|k: int| 0 <= k < j - start implies rest[k] != '\n' by {
                assert(rest[k] == v@[start + k]);
            }
            if j < v.len() {
                assert(rest[j - start] == '\n');
            }
            lemma_fields_first(rest, '\n', j - start);
            assert(rest.take(j - start) == v@.subrange(start as int, j as int));
        }
        let mut piece: Vec<char> = Vec::new();
        let mut k = start;
        while k < j
            invariant
                start <= k <= j <= v.len(),
                piece@ == v@.subrange(start as int, k as int),
            decreases j - k,
        {
            piece.push(v[k]);
            k = k + 1;
        }
        let ghost before = pieces@;
        pieces.push(piece);
        proof {
            let f = fields(rest, '\n');
            assert(pieces_view(pieces@) == pieces_view(before).push(f[0]));
            assert(f == seq![f[0]] + f.drop_first());
        }
        if j == v.len() {
            proof {
                let f = fields(rest, '\n');
                assert(f.drop_first().len() == 0);
                assert(pieces_view(pieces@) == fields(v@, '\n'));
            }
            return pieces;
        }
        proof {
            assert(rest.skip(j - start + 1) == v@.skip(j + 1));
        }
        start = j + 1;
    }
}

pub open spec fn pieces_view(v: Seq<Vec<char>>) -> Seq<Seq<char>> {
    v.map_values(|p: Vec<char>| p@)
}

fn leading_white_count(l: &Vec<char>) -> (r: usize)
    ensures
        r == leading_white(l@),
        r <= l.len(),
        forall|k: int| 0 <= k < r ==> is_white(#[trigger] l@[k]),
        r < l.len() ==> !is_white(l@[r as int]),
{
    let i = skip_white_from(l);
    proof {
        lemma_leading_white_exact(l@, i as int);
    }
    i
}

fn skip_white_from(l: &Vec<char>) -> (r: usize)
    ensures
        r <= l.len(),
        forall|k: int| 0 <= k < r ==> is_white(#[trigger] l@[k]),
        r < l.len() ==> !is_white(l@[r as int]),
{
    let mut i: usize = 0;
    while i < l.len() && white(l[i])
        invariant
            i <= l.len(),
            forall|k: int| 0 <= k < i ==> is_white(#[trigger] l@[k]),
        decreases l.len() - i,
    {
        i = i + 1;
    }
    i
}

/// Removes the indentation common to all lines that are not blank; the lines are
/// joined again by `\n`.
pub fn outdent_text(text: &str) -> (r: String)
    ensures
        r@ == outdented(text@),
{
    let v = chars_of(text);
    let ghost ls = lines_of(text@);
    // The lines, as lists of characters.
    let mut lines: Vec<Vec<char>> = Vec::new();
    if v.len() > 0 {
        let pieces = split_newline_pieces(&v);
        proof {
            lemma_fields_len(v@, '\n');
        }
        let n = pieces.len();
        let count = if v[v.len() - 1] == '\n' { n - 1 } else { n };
        let mut i: usize = 0;
        while i < count
            invariant
                v@ == text@,
                v.len() > 0,
                n == pieces@.len() == fields(v@, '\n').len(),
                forall|a: int| 0 <= a < n ==> (#[trigger] pieces@[a])@ == fields(v@, '\n')[a],
                count == (if v@.last() == '\n' { n - 1 } else { n as int }),
                count <= n,
                i <= count,
                ls == lines_of(v@),
                pieces_view(lines@) == ls.take(i as int),
            decreases count - i,
        {
            let p = &pieces[i];
            let line = if i + 1 < n && p.len() > 0 && p[p.len() - 1] == '\r' {
                let mut q: Vec<char> = Vec::new();
                let mut k: usize = 0;
                while k + 1 < p.len()
                    invariant
                        k + 1 <= p.len(),
                        q@ == p@.take(k as int),
                    decreases p.len() - k,
                {
                    q.push(p[k]);
                    k = k + 1;
                }
                assert(q@ == p@.drop_last());
                q
            } else {
                let mut q: Vec<char> = Vec::new();
                let mut k: usize = 0;
                while k < p.len()
                    invariant
                        k <= p.len(),
                        q@ == p@.take(k as int),
                    decreases p.len() - k,
                {
                    q.push(p[k]);
                    k = k + 1;
                }
                assert(q@ == p@);
                q
            };
            let ghost before = lines@;
            lines.push(line);
            assert(pieces_view(lines@) == pieces_view(before).push(ls[i as int]));
            assert(ls.take(i + 1) == ls.take(i as int).push(ls[i as int]));
            i = i + 1;
        }
        assert(ls.take(count as int) == ls);
    } else {
        assert(ls == Seq::<Seq<char>>::empty());
        assert(pieces_view(lines@) == ls);
    }
    let ghost lv = pieces_view(lines@);
    assert(lv == ls);
    // The common indentation.
    let mut min: u128 = 0x1_0000_0000_0000_0000;
    let mut i: usize = 0;
    while i < lines.len()
        invariant
            i <= lines.len(),
            lv == pieces_view(lines@),
            min == min_indent_upto(lv, i as int, 0x1_0000_0000_0000_0000),
            min == 0x1_0000_0000_0000_0000 || min <= usize::MAX as u128,
        decreases lines.len() - i,
    {
        let l = &lines[i];
        let lead = leading_white_count(l);
        let blank = lead == l.len();
        proof {
            lemma_trim_empty(l@, lead as int);
            assert(lv[i as int] == l@);
        }
        if !blank && (lead as u128) < min {
            min = lead as u128;
        }
        i = i + 1;
    }
    let k: usize = if min == 0x1_0000_0000_0000_0000 { 0 } else { min as usize };
    assert(k == common_indent(lv));
    // The lines without it, joined by newlines.
    let mut out = String::new();
    let ghost outs = lv.map_values(|l: Seq<char>| outdent_line(l, k as nat));
    let mut i: usize = 0;
    while i < lines.len()
        invariant
            i <= lines.len(),
            lv == pieces_view(lines@),
            outs == lv.map_values(|l: Seq<char>| outdent_line(l, k as nat)),
            out@ == join_lines(outs.take(i as int)),
        decreases lines.len() - i,
    {
        if i > 0 {
            push_char(&mut out, '\n');
        }
        let l = &lines[i];
        let from = if l.len() >= k { k } else { 0 };
        let mut j = from;
        let ghost before = out@;
        while j < l.len()
            invariant
                from <= j <= l.len(),
                out@ == before + l@.subrange(from as int, j as int),
            decreases l.len() - j,
        {
            push_char(&mut out, l[j]);
            j = j + 1;
        }
        proof {
            assert(lv[i as int] == l@);
            assert(outs[i as int] == l@.subrange(from as int, l.len() as int));
            let t = outs.take(i + 1);
            assert(t.drop_last() == outs.take(i as int));
            if i == 0 {
                assert(outs.take(0).len() == 0);
            }
        }
        i = i + 1;
    }
    assert(outs.take(lines.len() as int) == outs);
    out
}

proof fn lemma_trim_empty(l: Seq<char>, lead: int)
    requires
        0 <= lead <= l.len(),
        lead == leading_white(l),
        forall|k: int| 0 <= k < lead ==> is_white(#[trigger] l[k]),
        lead < l.len() ==> !is_white(l[lead]),
    ensures
        (trim_of(l).len() == 0) == (lead == l.len()),
{
    let t = trim_start_of(l);
    if lead < l.len() {
        assert(t[0] == l[lead]);
        lemma_trailing_white_bound(t);
        if trailing_white(t) == t.len() {
            assert(is_white(t[0]));
        }
    } else {
        assert(t.len() == 0);
    }
}

} // verus!

//! Parameterized indentation for synthesizer output.

use crate::text::chars_of;
use vstd::prelude::*;

verus! {

/// The indentation convention for a target language.
#[derive(Debug, Clone, Copy, PartialEq, Eq, Structural)]
pub enum IndentStyle {
    /// N spaces per level.
    Spaces(u8),
    /// A single tab per level.
    Tab,
}

impl IndentStyle {
    /// Two-space indent — used by Nix, YAML, Ruby, Rust, TypeScript.
    pub fn two_spaces() -> (style: Self)
        ensures
            style == IndentStyle::Spaces(2),
    {
        IndentStyle::Spaces(2)
    }

    /// Four-space indent — used by Python, SQL.
    pub fn four_spaces() -> (style: Self)
        ensures
            style == IndentStyle::Spaces(4),
    {
        IndentStyle::Spaces(4)
    }

    /// Tab indent — used by Go.
    pub fn tab() -> (style: Self)
        ensures
            style == IndentStyle::Tab,
    {
        IndentStyle::Tab
    }

    /// The character one indentation step is made of.
    pub open spec fn fill(self) -> char {
        match self {
            IndentStyle::Spaces(_) => ' ',
            IndentStyle::Tab => '\t',
        }
    }

    /// How many fill characters one level of indentation takes.
    pub open spec fn width(self) -> nat {
        match self {
            IndentStyle::Spaces(n) => n as nat,
            IndentStyle::Tab => 1,
        }
    }

    /// Number of characters in the prefix for `level` levels.
    pub open spec fn prefix_len(self, level: nat) -> nat {
        level * self.width()
    }

    /// The prefix for `level` levels: `level * width` fill characters.
    pub open spec fn prefix_spec(self, level: nat) -> Seq<char> {
        Seq::new(self.prefix_len(level), |_i: int| self.fill())
    }

    /// Emit the prefix for `level` levels of indentation.
    pub fn prefix(&self, level: usize) -> (out: String)
        requires
            self.prefix_len(level as nat) <= usize::MAX,
        ensures
            out@ == self.prefix_spec(level as nat),
    {
        let (step, count): (&str, usize) = match self {
            IndentStyle::Spaces(n) => (" ", level * (*n as usize)),
            IndentStyle::Tab => ("\t", level),
        };
        proof {
            reveal_strlit(" ");
            reveal_strlit("\t");
            assert(count == self.prefix_len(level as nat));
            assert(step@ == seq![self.fill()]);
        }
        let mut out = String::new();
        let mut i: usize = 0;
        while i < count
            invariant
                i <= count,
                step@ == seq![self.fill()],
                out@ == Seq::new(i as nat, |_j: int| self.fill()),
            decreases count - i,
        {
            out.append(step);
            i = i + 1;
            assert(out@ =~= Seq::new(i as nat, |_j: int| self.fill()));
        }
        out
    }
}

/// Index of the first `'\n'` in `s`, or `s.len()` when there is none.
pub open spec fn line_end(s: Seq<char>) -> nat
    decreases s.len(),
{
    if s.len() == 0 {
        0
    } else if s[0] == '\n' {
        0
    } else {
        1 + line_end(s.drop_first())
    }
}

/// `s` without one trailing carriage return, if it ends with one.
pub open spec fn strip_cr(s: Seq<char>) -> Seq<char> {
    if s.len() > 0 && s.last() == '\r' {
        s.drop_last()
    } else {
        s
    }
}

/// The lines of `s`, as `str::lines` yields them: split at `"\n"` or
/// `"\r\n"`, terminators removed, and a final line ending optional (so a
/// trailing terminator yields no extra empty line, and `""` has no lines).
pub open spec fn lines(s: Seq<char>) -> Seq<Seq<char>>
    decreases s.len(),
{
    if s.len() == 0 {
        seq![]
    } else {
        let k = line_end(s);
        if k >= s.len() {
            seq![s]
        } else {
            seq![strip_cr(s.take(k as int))] + lines(s.skip(k as int + 1))
        }
    }
}

/// `ls` joined with `'\n'` between consecutive items.
pub open spec fn join_lines(ls: Seq<Seq<char>>) -> Seq<char>
    decreases ls.len(),
{
    if ls.len() == 0 {
        seq![]
    } else if ls.len() == 1 {
        ls[0]
    } else {
        join_lines(ls.drop_last()) + seq!['\n'] + ls.last()
    }
}

/// A line after indentation by `prefix`: empty lines stay empty.
pub open spec fn indented_line(prefix: Seq<char>, line: Seq<char>) -> Seq<char> {
    if line.len() == 0 {
        seq![]
    } else {
        prefix + line
    }
}

/// Every line of `ls` indented by `prefix`.
pub open spec fn indented_lines(prefix: Seq<char>, ls: Seq<Seq<char>>) -> Seq<Seq<char>> {
    Seq::new(ls.len(), |i: int| indented_line(prefix, ls[i]))
}

/// Characterizes `line_end`: it is the `k` before which no `'\n'` occurs and
/// at which `s` ends or has a `'\n'`.
pub proof fn lemma_line_end(s: Seq<char>, k: int)
    requires
        0 <= k <= s.len(),
        forall|j: int| 0 <= j < k ==> s[j] != '\n',
        k == s.len() || s[k] == '\n',
    ensures
        line_end(s) == k,
    decreases k,
{
    if k > 0 {
        lemma_line_end(s.drop_first(), k - 1);
    }
}

proof fn lemma_join_push(ls: Seq<Seq<char>>, x: Seq<char>)
    ensures
        join_lines(ls.push(x)) == if ls.len() == 0 {
            x
        } else {
            join_lines(ls) + seq!['\n'] + x
        },
{
    assert(ls.push(x).drop_last() =~= ls);
}

proof fn lemma_indented_push(prefix: Seq<char>, ls: Seq<Seq<char>>, x: Seq<char>)
    ensures
        indented_lines(prefix, ls.push(x)) == indented_lines(prefix, ls).push(
            indented_line(prefix, x),
        ),
{
    assert(indented_lines(prefix, ls.push(x)) =~= indented_lines(prefix, ls).push(
        indented_line(prefix, x),
    ));
}

/// Appends one indented line, after a `'\n'` when `separate` holds.
fn push_line(out: &mut String, separate: bool, prefix: &String, line: &str)
    ensures
        final(out)@ == old(out)@ + (if separate {
            seq!['\n']
        } else {
            seq![]
        }) + indented_line(prefix@, line@),
{
    proof {
        reveal_strlit("\n");
    }
    if separate {
        out.append("\n");
    }
    if line.unicode_len() > 0 {
        out.append(prefix.as_str());
        out.append(line);
    }
    assert(final(out)@ =~= old(out)@ + (if separate {
        seq!['\n']
    } else {
        seq![]
    }) + indented_line(prefix@, line@));
}

impl IndentStyle {
    /// The single-level indent unit (equivalent to `prefix(1)`).
    pub fn unit(&self) -> (out: String)
        ensures
            out@ == self.prefix_spec(1),
    {
        self.prefix(1)
    }

    /// Indent a single line. Appends no newline.
    pub fn indent_line(&self, line: &str, level: usize) -> (out: String)
        requires
            self.prefix_len(level as nat) <= usize::MAX,
        ensures
            out@ == self.prefix_spec(level as nat) + line@,
    {
        let mut out = self.prefix(level);
        out.append(line);
        out
    }

    /// What `indent_block` produces: every line of `body` indented by
    /// `level` levels, empty lines left empty, joined with `'\n'`.
    pub open spec fn indent_block_spec(self, body: Seq<char>, level: nat) -> Seq<char> {
        join_lines(indented_lines(self.prefix_spec(level), lines(body)))
    }

    /// Indent each line of `body` by `level`. Preserves embedded newlines.
    /// Empty lines are left empty (no trailing whitespace pollution).
    pub fn indent_block(&self, body: &str, level: usize) -> (out: String)
        requires
            self.prefix_len(level as nat) <= usize::MAX,
        ensures
            out@ == self.indent_block_spec(body@, level as nat),
    {
        let prefix = self.prefix(level);
        let cs = chars_of(body);
        let n = cs.len();
        let mut out = String::new();
        let mut start: usize = 0;
        let mut i: usize = 0;
        let mut any = false;
        let ghost mut done: Seq<Seq<char>> = seq![];
        assert(body@.subrange(0, n as int) =~= body@);
        assert(done + lines(body@) =~= lines(body@));
        while i < n
            invariant
                n == cs@.len(),
                cs@ == body@,
                prefix@ == self.prefix_spec(level as nat),
                start <= i <= n,
                any == (done.len() > 0),
                forall|j: int| start <= j < i ==> cs@[j] != '\n',
                lines(body@) == done + lines(body@.subrange(start as int, n as int)),
                out@ == join_lines(indented_lines(prefix@, done)),
            decreases n - i,
        {
            if cs[i] == '\n' {
                let end = if i > start && cs[i - 1] == '\r' {
                    i - 1
                } else {
                    i
                };
                let ghost rest = body@.subrange(start as int, n as int);
                let ghost line = body@.subrange(start as int, end as int);
                proof {
                    lemma_line_end(rest, i - start);
                    assert(rest.take(i - start) =~= body@.subrange(start as int, i as int));
                    assert(rest.skip(i - start + 1) =~= body@.subrange(i + 1, n as int));
                    assert(strip_cr(body@.subrange(start as int, i as int)) =~= line);
                    assert(lines(rest) == seq![line] + lines(body@.subrange(i + 1, n as int)));
                    lemma_join_push(indented_lines(prefix@, done), indented_line(prefix@, line));
                    lemma_indented_push(prefix@, done, line);
                    assert(done + lines(rest) =~= done.push(line) + lines(
                        body@.subrange(i + 1, n as int),
                    ));
                }
                let text = body.substring_char(start, end);
                push_line(&mut out, any, &prefix, text);
                proof {
                    done = done.push(line);
                }
                any = true;
                start = i + 1;
            }
            i = i + 1;
        }
        if start < n {
            let ghost line = body@.subrange(start as int, n as int);
            proof {
                lemma_line_end(line, line.len() as int);
                lemma_join_push(indented_lines(prefix@, done), indented_line(prefix@, line));
                lemma_indented_push(prefix@, done, line);
            }
            let text = body.substring_char(start, n);
            push_line(&mut out, any, &prefix, text);
            proof {
                done = done.push(line);
            }
        } else {
            assert(body@.subrange(start as int, n as int) =~= Seq::<char>::empty());
        }
        assert(lines(body@) =~= done);
        out
    }
}

/// `line_end` stays within `s`, no `'\n'` comes before it, and it stops at
/// a `'\n'` when it stops early.
pub proof fn lemma_line_end_bounds(s: Seq<char>)
    ensures
        line_end(s) <= s.len(),
        forall|j: int| 0 <= j < line_end(s) ==> s[j] != '\n',
        line_end(s) < s.len() ==> s[line_end(s) as int] == '\n',
    decreases s.len(),
{
    if s.len() > 0 && s[0] != '\n' {
        lemma_line_end_bounds(s.drop_first());
        assert forall|j: int| 0 <= j < line_end(s) implies s[j] != '\n' by {
            if j > 0 {
                assert(s[j] == s.drop_first()[j - 1]);
            }
        }
    }
}

/// A final `'\n'` after a line that ends in neither `'\n'` nor `'\r'`
/// adds no line.
pub proof fn lemma_lines_push_newline(s: Seq<char>)
    requires
        s.len() > 0,
        s.last() != '\n',
        s.last() != '\r',
    ensures
        lines(s.push('\n')) == lines(s),
    decreases s.len(),
{
    let t = s.push('\n');
    let k = line_end(s);
    lemma_line_end_bounds(s);
    lemma_line_end(t, k as int);
    if k >= s.len() {
        assert(t.take(k as int) =~= s);
        assert(t.skip(k as int + 1) =~= Seq::<char>::empty());
        assert(strip_cr(s) == s);
        assert(lines(t.skip(k as int + 1)) == Seq::<Seq<char>>::empty());
        assert(lines(t) == seq![s] + Seq::<Seq<char>>::empty());
        assert(lines(t) =~= lines(s));
    } else {
        let rest = s.skip(k as int + 1);
        assert(t.take(k as int) =~= s.take(k as int));
        assert(t.skip(k as int + 1) =~= rest.push('\n'));
        assert(rest.last() == s.last());
        lemma_lines_push_newline(rest);
    }
}

/// When `s` holds no `'\r'`, its lines hold neither `'\n'` nor `'\r'`, and
/// when `s` does not end with `'\n'` its last line is not empty.
pub proof fn lemma_lines_clean(s: Seq<char>)
    requires
        forall|j: int| 0 <= j < s.len() ==> s[j] != '\r',
    ensures
        forall|i: int, j: int|
            0 <= i < lines(s).len() && 0 <= j < lines(s)[i].len() ==> #[trigger] lines(s)[i][j]
                != '\n' && lines(s)[i][j] != '\r',
        s.len() > 0 && s.last() != '\n' ==> lines(s).len() > 0 && lines(s).last().len() > 0,
    decreases s.len(),
{
    if s.len() > 0 {
        let k = line_end(s);
        lemma_line_end_bounds(s);
        if k < s.len() {
            let rest = s.skip(k as int + 1);
            lemma_lines_clean(rest);
            let head = s.take(k as int);
            assert(strip_cr(head) == head);
            let ls = lines(s);
            assert(ls == seq![head] + lines(rest));
            assert forall|i: int, j: int|
                0 <= i < ls.len() && 0 <= j < ls[i].len() implies #[trigger] ls[i][j] != '\n'
                && ls[i][j] != '\r' by {
                if i > 0 {
                    assert(ls[i] == lines(rest)[i - 1]);
                }
            }
            if s.last() != '\n' {
                assert(rest.len() > 0);
                assert(rest.last() == s.last());
            }
        }
    }
}

/// `ls` joined: the first item, a `'\n'`, then the others joined.
pub proof fn lemma_join_front(ls: Seq<Seq<char>>)
    requires
        ls.len() >= 2,
    ensures
        join_lines(ls) == ls[0] + seq!['\n'] + join_lines(ls.drop_first()),
    decreases ls.len(),
{
    if ls.len() > 2 {
        lemma_join_front(ls.drop_last());
        let middle = ls.drop_last().drop_first();
        assert(middle =~= ls.drop_first().drop_last());
        assert(ls.drop_first().last() == ls.last());
        assert(ls.drop_last()[0] == ls[0]);
        assert(join_lines(ls.drop_first()) == join_lines(middle) + seq!['\n'] + ls.last());
        assert(join_lines(ls.drop_last()) == ls[0] + seq!['\n'] + join_lines(middle));
        assert(join_lines(ls) =~= ls[0] + seq!['\n'] + join_lines(ls.drop_first()));
    } else {
        assert(ls.drop_first() =~= seq![ls[1]]);
        assert(ls.drop_last() =~= seq![ls[0]]);
        assert(join_lines(ls.drop_first()) == ls[1]);
        assert(join_lines(ls.drop_last()) == ls[0]);
    }
}

/// Splitting joined lines gives them back, when no line holds a `'\n'` or
/// ends with `'\r'`, and the last line is not empty.
pub proof fn lemma_lines_of_join(ls: Seq<Seq<char>>)
    requires
        forall|i: int, j: int|
            0 <= i < ls.len() && 0 <= j < ls[i].len() ==> #[trigger] ls[i][j] != '\n',
        forall|i: int| 0 <= i < ls.len() && ls[i].len() > 0 ==> #[trigger] ls[i].last() != '\r',
        ls.len() > 0 ==> ls.last().len() > 0,
    ensures
        lines(join_lines(ls)) == ls,
    decreases ls.len(),
{
    if ls.len() == 1 {
        lemma_line_end(ls[0], ls[0].len() as int);
        assert(lines(join_lines(ls)) =~= ls);
    } else if ls.len() >= 2 {
        let a = ls[0];
        let tail = ls.drop_first();
        lemma_join_front(ls);
        assert forall|i: int, j: int|
            0 <= i < tail.len() && 0 <= j < tail[i].len() implies #[trigger] tail[i][j]
            != '\n' by {
            assert(tail[i] == ls[i + 1]);
        }
        assert forall|i: int| 0 <= i < tail.len() && tail[i].len() > 0 implies #[trigger] tail[i].last()
            != '\r' by {
            assert(tail[i] == ls[i + 1]);
        }
        lemma_lines_of_join(tail);
        let rest = join_lines(tail);
        let s = a + seq!['\n'] + rest;
        assert(s[a.len() as int] == '\n');
        assert forall|j: int| 0 <= j < a.len() implies s[j] != '\n' by {
            assert(s[j] == ls[0][j]);
        }
        lemma_line_end(s, a.len() as int);
        assert(s.take(a.len() as int) =~= a);
        assert(s.skip(a.len() as int + 1) =~= rest);
        assert(strip_cr(a) == a);
        assert(lines(s) =~= seq![a] + tail);
        assert(seq![a] + tail =~= ls);
    }
}

impl IndentStyle {
    /// The prefix of `a` levels followed by that of `c` levels is the prefix
    /// of `a + c` levels.
    pub proof fn lemma_prefix_add(self, a: nat, c: nat)
        ensures
            self.prefix_spec(c) + self.prefix_spec(a) == self.prefix_spec(a + c),
    {
        assert((a + c) * self.width() == c * self.width() + a * self.width()) by (nonlinear_arith);
        assert(self.prefix_spec(c) + self.prefix_spec(a) =~= self.prefix_spec(a + c));
    }

    /// One final `'\n'` is dropped, not kept: indenting `body + "\n"` gives
    /// what indenting `body` gives, when `body` is empty or ends in neither
    /// `'\n'` nor `'\r'`.
    pub proof fn trailing_newline_law(self, body: Seq<char>, level: nat)
        requires
            body.len() == 0 || (body.last() != '\n' && body.last() != '\r'),
        ensures
            self.indent_block_spec(body.push('\n'), level) == self.indent_block_spec(body, level),
    {
        if body.len() == 0 {
            let t = body.push('\n');
            assert(t.take(0) =~= Seq::<char>::empty());
            assert(t.skip(1) =~= Seq::<char>::empty());
            assert(t[0] == '\n');
            assert(line_end(t) == 0);
            assert(strip_cr(Seq::<char>::empty()) == Seq::<char>::empty());
            assert(lines(t.skip(1)) == Seq::<Seq<char>>::empty());
            assert(lines(t) =~= seq![Seq::<char>::empty()]);
            assert(indented_lines(self.prefix_spec(level), lines(t)) =~= seq![Seq::<char>::empty()]);
            assert(indented_lines(self.prefix_spec(level), lines(body)) =~= Seq::<Seq<char>>::empty());
        } else {
            lemma_lines_push_newline(body);
        }
    }

    /// `Spaces(n)` indents by exactly `n` spaces per level, for every `n`:
    /// the prefix for `level` levels is `level * n` spaces.
    pub proof fn spaces_prefix_law(n: u8, level: nat)
        ensures
            IndentStyle::Spaces(n).prefix_spec(level).len() == level * (n as nat),
            forall|i: int|
                0 <= i < level * (n as nat) ==> #[trigger] IndentStyle::Spaces(n).prefix_spec(
                    level,
                )[i] == ' ',
    {
    }

    /// `Tab` indents by exactly one tab per level: the prefix for `level`
    /// levels is `level` tabs.
    pub proof fn tab_prefix_law(level: nat)
        ensures
            IndentStyle::Tab.prefix_spec(level).len() == level,
            forall|i: int| 0 <= i < level ==> #[trigger] IndentStyle::Tab.prefix_spec(level)[i] == '\t',
    {
    }

    /// Every line of the block is indented the same way whatever it holds:
    /// the output is the lines of `body`, each non-empty one preceded by the
    /// prefix for `level` levels and each empty one left empty, joined with
    /// `'\n'`.
    pub proof fn every_line_indented_law(self, body: Seq<char>, level: nat)
        ensures
            self.indent_block_spec(body, level) == join_lines(
                Seq::new(
                    lines(body).len(),
                    |i: int|
                        if lines(body)[i].len() == 0 {
                            Seq::<char>::empty()
                        } else {
                            self.prefix_spec(level) + lines(body)[i]
                        },
                ),
            ),
    {
        let ls = lines(body);
        assert(indented_lines(self.prefix_spec(level), ls) =~= Seq::new(
            ls.len(),
            |i: int|
                if ls[i].len() == 0 {
                    Seq::<char>::empty()
                } else {
                    self.prefix_spec(level) + ls[i]
                },
        ));
    }

    /// Splitting the output into lines gives back the lines of `body`, each
    /// non-empty one preceded by the prefix and each empty one left empty,
    /// when `body` holds no `'\r'` and does not end with `'\n'`.
    pub proof fn output_lines_law(self, body: Seq<char>, level: nat)
        requires
            forall|j: int| 0 <= j < body.len() ==> body[j] != '\r',
            body.len() == 0 || body.last() != '\n',
        ensures
            lines(self.indent_block_spec(body, level)).len() == lines(body).len(),
            forall|i: int|
                0 <= i < lines(body).len() ==> #[trigger] lines(self.indent_block_spec(body, level))[i]
                    == if lines(body)[i].len() == 0 {
                    Seq::<char>::empty()
                } else {
                    self.prefix_spec(level) + lines(body)[i]
                },
    {
        let ls = lines(body);
        let pa = self.prefix_spec(level);
        let inner = indented_lines(pa, ls);
        lemma_lines_clean(body);
        assert(self.fill() != '\n' && self.fill() != '\r');
        assert forall|i: int, j: int|
            0 <= i < inner.len() && 0 <= j < inner[i].len() implies #[trigger] inner[i][j]
            != '\n' by {
            if j >= pa.len() {
                assert(inner[i][j] == ls[i][j - pa.len()]);
            }
        }
        assert forall|i: int| 0 <= i < inner.len() && inner[i].len() > 0 implies #[trigger] inner[i].last()
            != '\r' by {
            assert(ls[i].len() > 0);
            assert(inner[i].last() == ls[i].last());
            assert(ls[i].last() == ls[i][ls[i].len() - 1]);
        }
        if body.len() > 0 {
            assert(inner.last() == indented_line(pa, ls.last()));
        }
        lemma_lines_of_join(inner);
    }

    /// Indenting an indented block by `c` more levels is indenting the
    /// original block by `a + c` levels, when the block holds no `'\r'` and
    /// does not end with `'\n'`.
    pub proof fn nested_indent_law(self, body: Seq<char>, a: nat, c: nat)
        requires
            forall|j: int| 0 <= j < body.len() ==> body[j] != '\r',
            body.len() == 0 || body.last() != '\n',
        ensures
            self.indent_block_spec(self.indent_block_spec(body, a), c) == self.indent_block_spec(
                body,
                a + c,
            ),
    {
        let ls = lines(body);
        let pa = self.prefix_spec(a);
        let pc = self.prefix_spec(c);
        let inner = indented_lines(pa, ls);
        lemma_lines_clean(body);
        assert(self.fill() != '\n' && self.fill() != '\r');
        assert forall|i: int, j: int|
            0 <= i < inner.len() && 0 <= j < inner[i].len() implies #[trigger] inner[i][j]
            != '\n' by {
            if j >= pa.len() {
                assert(inner[i][j] == ls[i][j - pa.len()]);
            }
        }
        assert forall|i: int| 0 <= i < inner.len() && inner[i].len() > 0 implies #[trigger] inner[i].last()
            != '\r' by {
            assert(ls[i].len() > 0);
            assert(inner[i].last() == ls[i].last());
            assert(ls[i].last() == ls[i][ls[i].len() - 1]);
        }
        if body.len() > 0 {
            assert(inner.last() == indented_line(pa, ls.last()));
        }
        lemma_lines_of_join(inner);
        self.lemma_prefix_add(a, c);
        assert forall|i: int| 0 <= i < ls.len() implies #[trigger] indented_lines(pc, inner)[i]
            == indented_lines(self.prefix_spec(a + c), ls)[i] by {
            if ls[i].len() > 0 {
                assert(pc + (pa + ls[i]) =~= (pc + pa) + ls[i]);
            }
        }
        assert(indented_lines(pc, inner) =~= indented_lines(self.prefix_spec(a + c), ls));
    }
}

} // verus!

//! The output of one run of an injected binary: groups of fields read
//! from its text output.

use vstd::prelude::*;
use crate::text::{push_str, str_contains, seq_contains};

verus! {

#[verifier::external_type_specification]
#[verifier::external_body]
pub struct ExIoError(std::io::Error);

/// Why a run's output could not be read as results.
#[derive(Debug)]
pub enum ParseError {
    /// The run crashed, or left no complete group of results.
    Crashed,
    /// The run was stopped for taking too long.
    Looped,
    /// The output could not be read.
    Internal(std::io::Error),
}

impl From<std::io::Error> for ParseError {
    fn from(e: std::io::Error) -> (r: Self) {
        ParseError::Internal(e)
    }
}

impl vstd::std_specs::convert::FromSpecImpl<std::io::Error> for ParseError {
    open spec fn obeys_from_spec() -> bool {
        true
    }

    open spec fn from_spec(e: std::io::Error) -> Self {
        ParseError::Internal(e)
    }
}

/// The fields of one group of output lines.
#[derive(Clone, Debug, PartialEq, Eq)]
pub struct Fields(pub Vec<String>);

pub open spec fn strs(v: Seq<String>) -> Seq<Seq<char>> {
    v.map_values(|s: String| s@)
}

impl View for Fields {
    type V = Seq<Seq<char>>;

    open spec fn view(&self) -> Seq<Seq<char>> {
        strs(self.0@)
    }
}

/// The concatenation of the strings, in order.
pub open spec fn concat_all(xs: Seq<Seq<char>>) -> Seq<char>
    decreases xs.len(),
{
    if xs.len() == 0 {
        seq![]
    } else {
        concat_all(xs.drop_last()) + xs.last()
    }
}

/// Chunks of `c` lines from position `p` on (the last may be shorter), each
/// concatenated.
pub open spec fn chunks_from(buf: Seq<Seq<char>>, c: int, p: int) -> Seq<Seq<char>>
    decreases buf.len() - p,
{
    if c <= 0 || p < 0 || p >= buf.len() {
        seq![]
    } else {
        let end = if p + c < buf.len() {
            p + c
        } else {
            buf.len() as int
        };
        seq![concat_all(buf.subrange(p, end))] + chunks_from(buf, c, end)
    }
}

/// The fields of a group of lines: none when there are fewer lines than
/// `group_size`; otherwise the lines cut into chunks of
/// `lines / group_size` lines, each chunk concatenated.
pub open spec fn group_fields(buf: Seq<Seq<char>>, group_size: nat) -> Seq<Seq<char>> {
    if buf.len() == 0 || buf.len() < group_size {
        seq![]
    } else {
        chunks_from(buf, (buf.len() / group_size) as int, 0)
    }
}

fn concat_range(buf: &[String], from: usize, to: usize) -> (s: String)
    requires
        from <= to <= buf@.len(),
    ensures
        s@ == concat_all(strs(buf@).subrange(from as int, to as int)),
{
    let mut s = String::new();
    let mut k = from;
    while k < to
        invariant
            from <= k <= to <= buf@.len(),
            s@ == concat_all(strs(buf@).subrange(from as int, k as int)),
        decreases to - k,
    {
        push_str(&mut s, buf[k].as_str());
        assert(strs(buf@).subrange(from as int, k + 1).drop_last() =~= strs(buf@).subrange(
            from as int,
            k as int,
        ));
        k = k + 1;
    }
    s
}

impl Fields {
    /// The fields of a group of output lines: none when there are fewer
    /// lines than `group_size`; otherwise the lines cut into chunks of
    /// `lines / group_size` lines, each chunk concatenated.
    pub fn from_text_vec_unchecked(buf: &[String], group_size: usize) -> (r: Self)
        requires
            buf@.len() == 0 || group_size > 0,
        ensures
            r@ == group_fields(strs(buf@), group_size as nat),
    {
        let n = buf.len();
        let mut out: Vec<String> = Vec::new();
        if n == 0 || n < group_size {
            assert(strs(out@) =~= seq![]);
            return Fields(out);
        }
        let c = n / group_size;
        assert(c > 0) by (nonlinear_arith)
            requires
                n >= group_size,
                group_size > 0,
                c == n / group_size,
        ;
        let mut p: usize = 0;
        while p < n
            invariant
                n == buf@.len(),
                c > 0,
                p <= n,
                strs(out@) + chunks_from(strs(buf@), c as int, p as int) == chunks_from(
                    strs(buf@),
                    c as int,
                    0,
                ),
            decreases n - p,
        {
            let end = if n - p > c {
                p + c
            } else {
                n
            };
            let chunk = concat_range(buf, p, end);
            let ghost before = strs(out@);
            let ghost rest = chunks_from(strs(buf@), c as int, end as int);
            out.push(chunk);
            assert(strs(out@) =~= before.push(chunk@));
            assert(before + (seq![chunk@] + rest) =~= strs(out@) + rest);
            p = end;
        }
        assert(strs(out@) + seq![] =~= strs(out@));
        Fields(out)
    }

    /// Whether there are no fields.
    pub fn is_empty(&self) -> (r: bool)
        ensures
            r == (self@.len() == 0),
    {
        self.0.len() == 0
    }

    /// The number of fields.
    pub fn len(&self) -> (r: usize)
        ensures
            r == self@.len(),
    {
        self.0.len()
    }

    /// The field at `idx`.
    pub fn index(&self, idx: usize) -> (r: &String)
        requires
            idx < self@.len(),
        ensures
            r@ == self@[idx as int],
    {
        &self.0[idx]
    }
}

/// What one output line says.
pub enum LineKind {
    Looped,
    Crashed,
    Blank,
    Text,
}

pub open spec fn looped_marker() -> Seq<char> {
    "TERM"@
}

/// The line is one of the ways a crash shows in the output.
pub open spec fn crash_line(l: Seq<char>) -> bool {
    ||| seq_contains(l, "the monitored command dumped core"@)
    ||| seq_contains(l, "监视的命令已核心转储"@)
    ||| seq_contains(l, "egmentation"@)
    ||| seq_contains(l, "Warning: using insecure memory!"@)
}

pub open spec fn line_kind(l: Seq<char>) -> LineKind {
    if seq_contains(l, looped_marker()) {
        LineKind::Looped
    } else if crash_line(l) {
        LineKind::Crashed
    } else if l.len() == 0 {
        LineKind::Blank
    } else {
        LineKind::Text
    }
}

/// How reading output lines ends.
pub enum ScanEnd {
    Looped,
    Crashed,
    Groups(Seq<Seq<Seq<char>>>),
}

/// Reads lines from `i` on, with `buf` the lines of the current group and
/// `acc` the groups read so far: a blank line closes a group; a line of an
/// unfinished group at the end is dropped.
pub open spec fn scan(
    lines: Seq<Seq<char>>,
    gs: nat,
    i: int,
    buf: Seq<Seq<char>>,
    acc: Seq<Seq<Seq<char>>>,
) -> ScanEnd
    decreases lines.len() - i,
{
    if i < 0 || i >= lines.len() {
        ScanEnd::Groups(acc)
    } else {
        match line_kind(lines[i]) {
            LineKind::Looped => ScanEnd::Looped,
            LineKind::Crashed => ScanEnd::Crashed,
            LineKind::Blank => scan(lines, gs, i + 1, seq![], acc.push(group_fields(buf, gs))),
            LineKind::Text => scan(lines, gs, i + 1, buf.push(lines[i]), acc),
        }
    }
}

/// Reading lines from `i` on never closes a non-empty group with a group
/// size of zero.
pub open spec fn scan_defined(lines: Seq<Seq<char>>, gs: nat, i: int, buf: Seq<Seq<char>>) -> bool
    decreases lines.len() - i,
{
    if i < 0 || i >= lines.len() {
        true
    } else {
        match line_kind(lines[i]) {
            LineKind::Looped => true,
            LineKind::Crashed => true,
            LineKind::Blank => (buf.len() == 0 || gs > 0) && scan_defined(lines, gs, i + 1, seq![]),
            LineKind::Text => scan_defined(lines, gs, i + 1, buf.push(lines[i])),
        }
    }
}

pub enum LinesOutcome {
    Looped,
    Crashed,
    Groups(Seq<Seq<Seq<char>>>),
}

/// The groups of fields that output lines hold, or why there are none.
pub open spec fn from_lines_spec(lines: Seq<Seq<char>>, gs: nat) -> LinesOutcome {
    match scan(lines, gs, 0, seq![], seq![]) {
        ScanEnd::Looped => LinesOutcome::Looped,
        ScanEnd::Crashed => LinesOutcome::Crashed,
        ScanEnd::Groups(g) => if g.len() == 0 {
            LinesOutcome::Crashed
        } else {
            LinesOutcome::Groups(g)
        },
    }
}

pub open spec fn fields_seq(v: Seq<Fields>) -> Seq<Seq<Seq<char>>> {
    v.map_values(|f: Fields| f@)
}

fn classify_line(l: &str) -> (k: LineKind)
    ensures
        k == line_kind(l@),
{
    if str_contains(l, "TERM") {
        LineKind::Looped
    } else if str_contains(l, "the monitored command dumped core") || str_contains(
        l,
        "监视的命令已核心转储",
    ) || str_contains(l, "egmentation") || str_contains(l, "Warning: using insecure memory!") {
        LineKind::Crashed
    } else if l.is_empty() {
        LineKind::Blank
    } else {
        LineKind::Text
    }
}

impl Fields {
    /// Reads the lines of a run's output: a line with `TERM` means the run
    /// was stopped (`Looped`); a crash message means `Crashed`; a blank line
    /// closes a group of lines, whose fields are then taken; lines after the
    /// last blank line are dropped; no group at all means `Crashed`.
    pub fn from_lines(lines: &Vec<String>, group_size: usize) -> (r: Result<Vec<Fields>, ParseError>)
        requires
            scan_defined(strs(lines@), group_size as nat, 0, seq![]),
        ensures
            from_lines_spec(strs(lines@), group_size as nat) matches LinesOutcome::Looped ==> r
                matches Err(ParseError::Looped),
            from_lines_spec(strs(lines@), group_size as nat) matches LinesOutcome::Crashed ==> r
                matches Err(ParseError::Crashed),
            from_lines_spec(strs(lines@), group_size as nat) matches LinesOutcome::Groups(g) ==> r
                matches Ok(v) && fields_seq(v@) == g,
    {
        let ghost ls = strs(lines@);
        let mut res: Vec<Fields> = Vec::new();
        let mut buf: Vec<String> = Vec::new();
        let mut i: usize = 0;
        assert(strs(buf@) =~= seq![]);
        assert(fields_seq(res@) =~= seq![]);
        while i < lines.len()
            invariant
                ls == strs(lines@),
                i <= lines@.len(),
                scan(ls, group_size as nat, i as int, strs(buf@), fields_seq(res@)) == scan(
                    ls,
                    group_size as nat,
                    0,
                    seq![],
                    seq![],
                ),
                scan_defined(ls, group_size as nat, i as int, strs(buf@)),
            decreases lines@.len() - i,
        {
            let s = &lines[i];
            match classify_line(s.as_str()) {
                LineKind::Looped => {
                    return Err(ParseError::Looped);
                },
                LineKind::Crashed => {
                    return Err(ParseError::Crashed);
                },
                LineKind::Blank => {
                    let f = Fields::from_text_vec_unchecked(buf.as_slice(), group_size);
                    let ghost before = fields_seq(res@);
                    res.push(f);
                    assert(fields_seq(res@) =~= before.push(f@));
                    buf = Vec::new();
                    assert(strs(buf@) =~= seq![]);
                },
                LineKind::Text => {
                    let ghost before = strs(buf@);
                    buf.push(s.clone());
                    assert(strs(buf@) =~= before.push(ls[i as int]));
                },
            }
            i = i + 1;
        }
        if res.len() == 0 {
            Err(ParseError::Crashed)
        } else {
            Ok(res)
        }
    }

    /// Whether `from_lines` can read these lines with this group size: no
    /// blank line closes a non-empty group while the group size is zero.
    pub fn lines_ok(lines: &Vec<String>, group_size: usize) -> (r: bool)
        ensures
            r == scan_defined(strs(lines@), group_size as nat, 0, seq![]),
    {
        let ghost ls = strs(lines@);
        let ghost mut buf: Seq<Seq<char>> = seq![];
        let mut open = false;
        let mut i: usize = 0;
        while i < lines.len()
            invariant
                ls == strs(lines@),
                i <= lines@.len(),
                open == (buf.len() > 0),
                scan_defined(ls, group_size as nat, i as int, buf) == scan_defined(
                    ls,
                    group_size as nat,
                    0,
                    seq![],
                ),
            decreases lines@.len() - i,
        {
            match classify_line(lines[i].as_str()) {
                LineKind::Looped => {
                    return true;
                },
                LineKind::Crashed => {
                    return true;
                },
                LineKind::Blank => {
                    if open && group_size == 0 {
                        return false;
                    }
                    proof {
                        buf = seq![];
                    }
                    open = false;
                },
                LineKind::Text => {
                    proof {
                        buf = buf.push(ls[i as int]);
                    }
                    open = true;
                },
            }
            i = i + 1;
        }
        true
    }
}


/// How many of the first `k` lines are blank.
pub open spec fn blanks_before(lines: Seq<Seq<char>>, k: int) -> nat
    decreases k,
{
    if k <= 0 {
        0
    } else {
        blanks_before(lines, k - 1) + if lines[k - 1].len() == 0 {
            1nat
        } else {
            0nat
        }
    }
}

/// The position of the last blank line before `k`, or -1 when there is none.
pub open spec fn last_blank_before(lines: Seq<Seq<char>>, k: int) -> int
    decreases k,
{
    if k <= 0 {
        -1
    } else if lines[k - 1].len() == 0 {
        k - 1
    } else {
        last_blank_before(lines, k - 1)
    }
}

/// The line says neither that the run was stopped nor that it crashed.
pub open spec fn plain_line(l: Seq<char>) -> bool {
    !seq_contains(l, looped_marker()) && !crash_line(l)
}

/// The groups read so far, after `i` lines: one per blank line, holding the
/// fields of the lines since the blank line before it.
pub open spec fn groups_upto(lines: Seq<Seq<char>>, gs: nat, i: int, acc: Seq<Seq<Seq<char>>>) -> bool {
    &&& acc.len() == blanks_before(lines, i)
    &&& forall|k: int|
        0 <= k < i && (#[trigger] lines[k]).len() == 0 ==> acc[blanks_before(lines, k) as int]
            == group_fields(lines.subrange(last_blank_before(lines, k) + 1, k), gs)
}

proof fn lemma_blank_counts(lines: Seq<Seq<char>>, a: int, b: int)
    requires
        0 <= a <= b,
    ensures
        blanks_before(lines, a) <= blanks_before(lines, b),
        a < b && a < lines.len() && lines[a].len() == 0 ==> blanks_before(lines, a) < blanks_before(
            lines,
            b,
        ),
    decreases b - a,
{
    if a < b {
        lemma_blank_counts(lines, a, b - 1);
    }
}

proof fn lemma_last_blank(lines: Seq<Seq<char>>, k: int)
    requires
        0 <= k,
    ensures
        -1 <= last_blank_before(lines, k) < k,
    decreases k,
{
    if k > 0 {
        lemma_last_blank(lines, k - 1);
    }
}

proof fn lemma_scan_groups(lines: Seq<Seq<char>>, gs: nat, i: int, acc: Seq<Seq<Seq<char>>>)
    requires
        0 <= i <= lines.len(),
        forall|j: int| 0 <= j < lines.len() ==> plain_line(#[trigger] lines[j]),
        groups_upto(lines, gs, i, acc),
    ensures
        scan(lines, gs, i, lines.subrange(last_blank_before(lines, i) + 1, i), acc) matches ScanEnd::Groups(g)
            && groups_upto(lines, gs, lines.len() as int, g),
    decreases lines.len() - i,
{
    lemma_last_blank(lines, i);
    if i < lines.len() {
        let l = lines[i];
        let buf = lines.subrange(last_blank_before(lines, i) + 1, i);
        assert(plain_line(l));
        if l.len() == 0 {
            assert(!seq_contains(l, looped_marker()));
            assert(line_kind(l) is Blank);
            let acc2 = acc.push(group_fields(buf, gs));
            assert(lines.subrange(last_blank_before(lines, i + 1) + 1, i + 1) =~= Seq::<Seq<char>>::empty());
            assert forall|k: int|
                0 <= k < i + 1 && (#[trigger] lines[k]).len() == 0 implies acc2[blanks_before(lines, k) as int]
                == group_fields(lines.subrange(last_blank_before(lines, k) + 1, k), gs) by {
                if k < i {
                    lemma_blank_counts(lines, k, i);
                }
            }
            lemma_scan_groups(lines, gs, i + 1, acc2);
        } else {
            assert(line_kind(l) is Text);
            assert(buf.push(l) =~= lines.subrange(last_blank_before(lines, i + 1) + 1, i + 1));
            lemma_scan_groups(lines, gs, i + 1, acc);
        }
    }
}

/// Law: when no line says the run was stopped or crashed, reading the lines
/// gives one group per blank line, in order: the `j`-th holds the fields of
/// the lines between the blank line before it and the `j`-th blank line;
/// lines after the last blank line are dropped; with no blank line at all
/// the run counts as crashed.
pub proof fn law_output_groups(lines: Seq<Seq<char>>, gs: nat)
    requires
        forall|j: int| 0 <= j < lines.len() ==> plain_line(#[trigger] lines[j]),
    ensures
        blanks_before(lines, lines.len() as int) == 0 ==> from_lines_spec(lines, gs) is Crashed,
        blanks_before(lines, lines.len() as int) > 0 ==> (from_lines_spec(lines, gs) matches LinesOutcome::Groups(g)
            && g.len() == blanks_before(lines, lines.len() as int) && forall|k: int|
            0 <= k < lines.len() && (#[trigger] lines[k]).len() == 0 ==> g[blanks_before(lines, k) as int]
                == group_fields(lines.subrange(last_blank_before(lines, k) + 1, k), gs)),
{
    assert(lines.subrange(last_blank_before(lines, 0) + 1, 0) =~= Seq::<Seq<char>>::empty());
    lemma_scan_groups(lines, gs, 0, seq![]);
}

spec fn says_crashed(l: Seq<char>) -> bool {
    ||| seq_contains(l, "the monitored command dumped core"@)
    ||| seq_contains(l, "监视的命令已核心转储"@)
    ||| seq_contains(l, "egmentation"@)
    ||| seq_contains(l, "Warning: using insecure memory!"@)
}

proof fn lemma_scan_crashed(lines: Seq<Seq<char>>, gs: nat, i: int, c: int, buf: Seq<Seq<char>>, acc: Seq<Seq<Seq<char>>>)
    requires
        0 <= i <= c < lines.len(),
        says_crashed(lines[c]),
        forall|j: int| i <= j <= c ==> !seq_contains(#[trigger] lines[j], "TERM"@),
    ensures
        scan(lines, gs, i, buf, acc) is Crashed,
    decreases c - i,
{
    if i < c {
        match line_kind(lines[i]) {
            LineKind::Blank => lemma_scan_crashed(lines, gs, i + 1, c, seq![], acc.push(group_fields(buf, gs))),
            LineKind::Text => lemma_scan_crashed(lines, gs, i + 1, c, buf.push(lines[i]), acc),
            _ => {},
        }
    }
}

proof fn lemma_scan_looped(lines: Seq<Seq<char>>, gs: nat, i: int, t: int, buf: Seq<Seq<char>>, acc: Seq<Seq<Seq<char>>>)
    requires
        0 <= i <= t < lines.len(),
        seq_contains(lines[t], "TERM"@),
        forall|j: int| i <= j < t ==> !says_crashed(#[trigger] lines[j]),
    ensures
        scan(lines, gs, i, buf, acc) is Looped,
    decreases t - i,
{
    if i < t {
        match line_kind(lines[i]) {
            LineKind::Blank => lemma_scan_looped(lines, gs, i + 1, t, seq![], acc.push(group_fields(buf, gs))),
            LineKind::Text => lemma_scan_looped(lines, gs, i + 1, t, buf.push(lines[i]), acc),
            _ => {},
        }
    }
}

/// Law: a line that says the command crashed makes the run crashed, unless
/// a line up to it says the run was stopped (`TERM`).
pub proof fn law_crash_marker(lines: Seq<Seq<char>>, gs: nat, c: int)
    requires
        0 <= c < lines.len(),
        seq_contains(lines[c], "the monitored command dumped core"@) || seq_contains(
            lines[c],
            "监视的命令已核心转储"@,
        ) || seq_contains(lines[c], "egmentation"@) || seq_contains(
            lines[c],
            "Warning: using insecure memory!"@,
        ),
        forall|j: int| 0 <= j <= c ==> !seq_contains(#[trigger] lines[j], "TERM"@),
    ensures
        from_lines_spec(lines, gs) is Crashed,
{
    lemma_scan_crashed(lines, gs, 0, c, seq![], seq![]);
}

/// Law: a line that says the run was stopped (`TERM`) makes the run looped,
/// unless a line before it says the command crashed.
pub proof fn law_term_marker(lines: Seq<Seq<char>>, gs: nat, t: int)
    requires
        0 <= t < lines.len(),
        seq_contains(lines[t], "TERM"@),
        forall|j: int|
            0 <= j < t ==> !seq_contains(#[trigger] lines[j], "the monitored command dumped core"@)
                && !seq_contains(lines[j], "监视的命令已核心转储"@) && !seq_contains(
                lines[j],
                "egmentation"@,
            ) && !seq_contains(lines[j], "Warning: using insecure memory!"@),
    ensures
        from_lines_spec(lines, gs) is Looped,
{
    lemma_scan_looped(lines, gs, 0, t, seq![], seq![]);
}

proof fn lemma_concat_all_add(x: Seq<Seq<char>>, y: Seq<Seq<char>>)
    ensures
        concat_all(x + y) == concat_all(x) + concat_all(y),
    decreases y.len(),
{
    if y.len() == 0 {
        assert(x + y =~= x);
    } else {
        lemma_concat_all_add(x, y.drop_last());
        assert((x + y).drop_last() =~= x + y.drop_last());
        assert((x + y).last() == y.last());
    }
}

proof fn lemma_concat_all_cons(a: Seq<char>, y: Seq<Seq<char>>)
    ensures
        concat_all(seq![a] + y) == a + concat_all(y),
{
    lemma_concat_all_add(seq![a], y);
    assert(seq![a].drop_last() =~= Seq::<Seq<char>>::empty());
    assert(concat_all(Seq::<Seq<char>>::empty()) == Seq::<char>::empty());
    assert(concat_all(seq![a]) =~= a);
}

proof fn lemma_chunks_cover(buf: Seq<Seq<char>>, c: int, p: int)
    requires
        c > 0,
        0 <= p <= buf.len(),
    ensures
        concat_all(chunks_from(buf, c, p)) == concat_all(buf.subrange(p, buf.len() as int)),
    decreases buf.len() - p,
{
    if p < buf.len() {
        let end = if p + c < buf.len() {
            p + c
        } else {
            buf.len() as int
        };
        lemma_chunks_cover(buf, c, end);
        lemma_concat_all_cons(concat_all(buf.subrange(p, end)), chunks_from(buf, c, end));
        lemma_concat_all_add(buf.subrange(p, end), buf.subrange(end, buf.len() as int));
        assert(buf.subrange(p, end) + buf.subrange(end, buf.len() as int) =~= buf.subrange(
            p,
            buf.len() as int,
        ));
    } else {
        assert(buf.subrange(p, buf.len() as int) =~= Seq::<Seq<char>>::empty());
    }
}

/// Law: when a group has at least `group_size` lines, its fields are all
/// of its lines, in order: concatenated, the fields give the concatenated lines.
pub proof fn law_fields_cover_lines(buf: Seq<Seq<char>>, group_size: nat)
    requires
        0 < group_size <= buf.len(),
    ensures
        concat_all(group_fields(buf, group_size)) == concat_all(buf),
{
    let c = (buf.len() / group_size) as int;
    assert(c > 0) by (nonlinear_arith)
        requires
            0 < group_size <= buf.len(),
            c == buf.len() / group_size,
    ;
    lemma_chunks_cover(buf, c, 0);
    assert(buf.subrange(0, buf.len() as int) =~= buf);
}

} // verus!

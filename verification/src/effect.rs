//! Effects of faults on runs, and the summary of effects over many runs.

use vstd::prelude::*;
use vstd::string::*;
use crate::fields::{Fields, ParseError};
use crate::text::{push_str, push_char, push_padded_right, push_dec_padded_left, pad_right, pad_left, dec_nat};

verus! {

/// An effect model: how the results of one faulty run compare with the
/// expected results.
pub trait Effect: Sized {
    /// Whether the model compares with expected results.
    fn has_expect() -> bool;

    fn check(expect: &Option<Vec<Fields>>, res: &[Fields]) -> Self;
}

/// What a summary counts of one run: the name of its effect, or the index
/// of its read error (`Crashed`, `Looped`, `Internal`).
pub open spec fn outcome(e: (String, Result<String, ParseError>)) -> Result<Seq<char>, nat> {
    match e.1 {
        Ok(name) => Ok(name@),
        Err(ParseError::Crashed) => Err(0),
        Err(ParseError::Looped) => Err(1),
        Err(ParseError::Internal(_)) => Err(2),
    }
}

pub open spec fn outcomes(v: Seq<(String, Result<String, ParseError>)>) -> Seq<Result<Seq<char>, nat>> {
    v.map_values(|e: (String, Result<String, ParseError>)| outcome(e))
}

/// The first position of `name` in `names` from `i` on, or `names.len()`.
pub open spec fn first_index(names: Seq<Seq<char>>, name: Seq<char>, i: int) -> int
    decreases names.len() - i,
{
    if 0 <= i < names.len() && names[i] != name {
        first_index(names, name, i + 1)
    } else {
        i
    }
}

/// How many outcomes are effects whose name is first listed at `k`.
pub open spec fn count_effect(os: Seq<Result<Seq<char>, nat>>, names: Seq<Seq<char>>, k: int) -> nat
    decreases os.len(),
{
    if os.len() == 0 {
        0
    } else {
        count_effect(os.drop_last(), names, k) + match os.last() {
            Ok(n) => if first_index(names, n, 0) == k {
                1nat
            } else {
                0nat
            },
            Err(_) => 0nat,
        }
    }
}

/// How many outcomes are read errors with index `k`.
pub open spec fn count_error(os: Seq<Result<Seq<char>, nat>>, k: nat) -> nat
    decreases os.len(),
{
    if os.len() == 0 {
        0
    } else {
        count_error(os.drop_last(), k) + (if os.last() == Err::<Seq<char>, nat>(k) {
            1nat
        } else {
            0nat
        })
    }
}

/// One line of the summary: the class padded to 20 characters, its count
/// right-aligned in 5, the number of runs right-aligned in 4.
pub open spec fn stats_row(name: Seq<char>, v: nat, all: nat) -> Seq<char> {
    pad_right(name, 20) + seq![',', ' '] + pad_left(dec_nat(v), 5) + seq![',', ' '] + pad_left(
        dec_nat(all),
        4,
    ) + seq!['\n']
}

/// The lines of the classes with a non-zero count, in order.
pub open spec fn stats_rows(names: Seq<Seq<char>>, counts: Seq<nat>, all: nat) -> Seq<char>
    decreases names.len(),
{
    if names.len() == 0 || counts.len() < names.len() {
        seq![]
    } else {
        stats_rows(names.drop_last(), counts, all) + (if counts[names.len() - 1] > 0 {
            stats_row(names.last(), counts[names.len() - 1], all)
        } else {
            seq![]
        })
    }
}

pub open spec fn error_names() -> Seq<Seq<char>> {
    seq!["Crashed"@, "Looped"@, "Internal"@]
}

pub open spec fn stats_header() -> Seq<char> {
    "Class               , Count, All\n"@
}

/// The summary table of a list of runs.
pub open spec fn stats_spec(
    names: Seq<Seq<char>>,
    effects: Seq<(String, Result<String, ParseError>)>,
) -> Seq<char> {
    let os = outcomes(effects);
    stats_header() + stats_rows(
        names,
        Seq::new(names.len(), |k: int| count_effect(os, names, k)),
        effects.len(),
    ) + stats_rows(error_names(), Seq::new(3, |k: int| count_error(os, k as nat)), effects.len())
}

pub open spec fn strs(v: Seq<String>) -> Seq<Seq<char>> {
    v.map_values(|s: String| s@)
}

fn position(names: &Vec<String>, name: &String) -> (r: usize)
    ensures
        r == first_index(strs(names@), name@, 0),
{
    let mut i: usize = 0;
    while i < names.len() && !(names[i] == *name)
        invariant
            i <= names@.len(),
            first_index(strs(names@), name@, i as int) == first_index(strs(names@), name@, 0),
        decreases names@.len() - i,
    {
        i = i + 1;
    }
    i
}

fn error_index(e: &ParseError) -> (r: usize)
    ensures
        r < 3,
        r == match *e {
            ParseError::Crashed => 0nat,
            ParseError::Looped => 1nat,
            ParseError::Internal(_) => 2nat,
        },
{
    match e {
        ParseError::Crashed => 0,
        ParseError::Looped => 1,
        ParseError::Internal(_) => 2,
    }
}

fn push_row(out: &mut String, name: &String, v: usize, all: usize)
    ensures
        final(out)@ == old(out)@ + stats_row(name@, v as nat, all as nat),
{
    push_padded_right(out, name.as_str(), 20);
    push_char(out, ',');
    push_char(out, ' ');
    push_dec_padded_left(out, v as u64, 5);
    push_char(out, ',');
    push_char(out, ' ');
    push_dec_padded_left(out, all as u64, 4);
    push_char(out, '\n');
    assert(final(out)@ =~= old(out)@ + stats_row(name@, v as nat, all as nat));
}

proof fn lemma_rows_step(names: Seq<Seq<char>>, counts: Seq<nat>, all: nat, k: int)
    requires
        0 <= k < names.len(),
        counts.len() == names.len(),
    ensures
        stats_rows(names.take(k + 1), counts, all) == stats_rows(names.take(k), counts, all) + (
        if counts[k] > 0 {
            stats_row(names[k], counts[k], all)
        } else {
            seq![]
        }),
{
    assert(names.take(k + 1).drop_last() =~= names.take(k));
}

fn push_rows(out: &mut String, names: &Vec<String>, counts: &Vec<usize>, all: usize)
    requires
        counts@.len() == names@.len(),
    ensures
        final(out)@ == old(out)@ + stats_rows(
            strs(names@),
            counts@.map_values(|c: usize| c as nat),
            all as nat,
        ),
{
    let ghost cs = counts@.map_values(|c: usize| c as nat);
    let ghost ns = strs(names@);
    let mut k: usize = 0;
    assert(ns.take(0) =~= seq![]);
    assert(out@ =~= old(out)@ + seq![]);
    while k < names.len()
        invariant
            counts@.len() == names@.len(),
            cs == counts@.map_values(|c: usize| c as nat),
            ns == strs(names@),
            k <= names@.len(),
            out@ == old(out)@ + stats_rows(ns.take(k as int), cs, all as nat),
        decreases names@.len() - k,
    {
        proof {
            lemma_rows_step(ns, cs, all as nat, k as int);
        }
        let ghost before = out@;
        let v = counts[k];
        if v > 0 {
            push_row(out, &names[k], v, all);
        }
        assert(out@ =~= before + (if cs[k as int] > 0 {
            stats_row(ns[k as int], cs[k as int], all as nat)
        } else {
            seq![]
        }));
        k = k + 1;
    }
    assert(ns.take(names@.len() as int) =~= ns);
}

/// The summary of a list of runs: a header line, then for each effect class
/// (in the order given) and then each read error (`Crashed`, `Looped`,
/// `Internal`) with at least one run, its name, its count and the number of
/// runs.  A run counts for the first class of its effect's name.
pub fn stats(t_variants: &Vec<String>, effects: &Vec<(String, Result<String, ParseError>)>) -> (r:
    String)
    ensures
        r@ == stats_spec(strs(t_variants@), effects@),
{
    let ghost names = strs(t_variants@);
    let ghost os = outcomes(effects@);
    let nv = t_variants.len();
    let mut stat_ef: Vec<usize> = Vec::new();
    let mut j: usize = 0;
    while j < nv
        invariant
            nv == t_variants@.len(),
            j <= nv,
            stat_ef@.len() == j,
            forall|k: int| 0 <= k < j ==> stat_ef@[k] == 0,
        decreases nv - j,
    {
        stat_ef.push(0);
        j = j + 1;
    }
    let mut stat_er: Vec<usize> = Vec::new();
    stat_er.push(0);
    stat_er.push(0);
    stat_er.push(0);
    let cnt = effects.len();
    let mut i: usize = 0;
    while i < cnt
        invariant
            names == strs(t_variants@),
            os == outcomes(effects@),
            cnt == effects@.len(),
            i <= cnt,
            stat_ef@.len() == nv,
            nv == t_variants@.len(),
            stat_er@.len() == 3,
            forall|k: int| 0 <= k < nv ==> stat_ef@[k] == count_effect(os.take(i as int), names, k),
            forall|k: int| 0 <= k < 3 ==> stat_er@[k] == count_error(os.take(i as int), k as nat),
            forall|k: int| 0 <= k < nv ==> stat_ef@[k] <= i,
            forall|k: int| 0 <= k < 3 ==> stat_er@[k] <= i,
        decreases cnt - i,
    {
        assert(os.take(i + 1).drop_last() =~= os.take(i as int));
        assert(os.take(i + 1).last() == outcome(effects@[i as int]));
        match &effects[i].1 {
            Ok(ef) => {
                let n = position(t_variants, ef);
                if n < nv {
                    let v = stat_ef[n];
                    stat_ef.set(n, v + 1);
                }
            },
            Err(er) => {
                let n = error_index(er);
                let v = stat_er[n];
                stat_er.set(n, v + 1);
            },
        }
        i = i + 1;
    }
    assert(os.take(cnt as int) =~= os);
    let mut res = String::new();
    push_str(&mut res, "Class               , Count, All\n");
    assert(stat_ef@.map_values(|c: usize| c as nat) =~= Seq::new(
        names.len(),
        |k: int| count_effect(os, names, k),
    ));
    push_rows(&mut res, t_variants, &stat_ef, cnt);
    let mut err_names: Vec<String> = Vec::new();
    err_names.push(String::from_str("Crashed"));
    err_names.push(String::from_str("Looped"));
    err_names.push(String::from_str("Internal"));
    assert(strs(err_names@) =~= error_names());
    assert(stat_er@.map_values(|c: usize| c as nat) =~= Seq::new(
        3,
        |k: int| count_error(os, k as nat),
    ));
    push_rows(&mut res, &err_names, &stat_er, cnt);
    res
}


/// The position of the last `/` before position `n` of `p`, or -1.
pub open spec fn last_slash(p: Seq<char>, n: int) -> int
    decreases n,
{
    if n <= 0 {
        -1
    } else if p[n - 1] == '/' {
        n - 1
    } else {
        last_slash(p, n - 1)
    }
}

/// The part of a path after its last `/`.
pub open spec fn last_segment(p: Seq<char>) -> Seq<char> {
    p.subrange(last_slash(p, p.len() as int) + 1, p.len() as int)
}

/// What the detailed report shows of one run: its path and, when its effect
/// is one to show, the effect's name and its text.
pub type InspectEntry = (String, Option<(String, String)>);

/// The line of a shown run: the file name padded to 48, then `:  ` and
/// the effect's text.
pub open spec fn inspect_line(path: Seq<char>, shown: Seq<char>) -> Seq<char> {
    pad_right(last_segment(path), 48) + seq![':', ' ', ' '] + shown + seq!['\n']
}

/// The lines, in order, of the shown runs whose effect name is first listed at `k`.
pub open spec fn group_lines(entries: Seq<InspectEntry>, names: Seq<Seq<char>>, k: int) -> Seq<char>
    decreases entries.len(),
{
    if entries.len() == 0 {
        seq![]
    } else {
        group_lines(entries.drop_last(), names, k) + match entries.last().1 {
            Some((n, t)) => if first_index(names, n@, 0) == k {
                inspect_line(entries.last().0@, t@)
            } else {
                seq![]
            },
            None => seq![],
        }
    }
}

/// For each effect class in order whose group has lines: its name and `:`,
/// then the lines.
pub open spec fn inspect_spec(names: Seq<Seq<char>>, entries: Seq<InspectEntry>) -> Seq<char>
    decreases names.len(),
{
    if names.len() == 0 {
        seq![]
    } else {
        let k = names.len() - 1;
        let g = group_lines(entries, names, k);
        inspect_spec(names.drop_last(), entries) + (if g.len() > 0 {
            names[k] + seq![':', '\n'] + g
        } else {
            seq![]
        })
    }
}

/// Every shown run's effect is one of the classes.
pub open spec fn inspect_defined(names: Seq<Seq<char>>, entries: Seq<InspectEntry>) -> bool {
    forall|i: int|
        0 <= i < entries.len() ==> ((#[trigger] entries[i]).1 matches Some((n, _))
            ==> first_index(names, n@, 0) < names.len())
}

fn last_segment_exec(p: &String) -> (r: String)
    ensures
        r@ == last_segment(p@),
{
    let cs = crate::text::chars_of(p.as_str());
    let mut n = cs.len();
    while n > 0 && cs[n - 1] != '/'
        invariant
            cs@ == p@,
            n <= cs@.len(),
            last_slash(p@, n as int) == last_slash(p@, p@.len() as int),
        decreases n,
    {
        n = n - 1;
    }
    crate::text::string_of_range(&cs, n, cs.len())
}

fn group_text(names: &Vec<String>, entries: &Vec<InspectEntry>, k: usize) -> (r: String)
    ensures
        r@ == group_lines(entries@, strs(names@), k as int),
{
    let mut g = String::new();
    let mut i: usize = 0;
    while i < entries.len()
        invariant
            i <= entries@.len(),
            g@ == group_lines(entries@.take(i as int), strs(names@), k as int),
        decreases entries@.len() - i,
    {
        assert(entries@.take(i + 1).drop_last() =~= entries@.take(i as int));
        assert(entries@.take(i + 1).last() == entries@[i as int]);
        match &entries[i].1 {
            Some((n, t)) => {
                if position(names, n) == k {
                    let seg = last_segment_exec(&entries[i].0);
                    let ghost before = g@;
                    push_padded_right(&mut g, seg.as_str(), 48);
                    push_char(&mut g, ':');
                    push_char(&mut g, ' ');
                    push_char(&mut g, ' ');
                    push_str(&mut g, t.as_str());
                    push_char(&mut g, '\n');
                    assert(g@ =~= before + inspect_line(entries@[i as int].0@, t@));
                }
            },
            None => {},
        }
        i = i + 1;
    }
    assert(entries@.take(entries@.len() as int) =~= entries@);
    g
}

/// The detailed report of a list of runs: for each effect class, in the
/// order given, that has runs to show, its name and `:` on a line, then
/// one line per shown run of that class, in order, with the run's file name
/// padded to 48 characters, `:  ` and the effect's text.
pub fn inspect(t_variants: &Vec<String>, effects: &Vec<InspectEntry>) -> (r: String)
    requires
        inspect_defined(strs(t_variants@), effects@),
    ensures
        r@ == inspect_spec(strs(t_variants@), effects@),
{
    let ghost names = strs(t_variants@);
    let mut res = String::new();
    let mut k: usize = 0;
    while k < t_variants.len()
        invariant
            names == strs(t_variants@),
            k <= t_variants@.len(),
            res@ == inspect_spec(names.take(k as int), effects@),
        decreases t_variants@.len() - k,
    {
        let g = group_text(t_variants, effects, k);
        let ghost before = res@;
        proof {
            lemma_groups_prefix(names, effects@, k as int);
        }
        if !g.as_str().is_empty() {
            push_str(&mut res, t_variants[k].as_str());
            push_char(&mut res, ':');
            push_char(&mut res, '\n');
            push_str(&mut res, g.as_str());
        }
        assert(names.take(k + 1).drop_last() =~= names.take(k as int));
        assert(res@ =~= before + (if g@.len() > 0 {
            names[k as int] + seq![':', '\n'] + g@
        } else {
            seq![]
        }));
        k = k + 1;
    }
    assert(names.take(t_variants@.len() as int) =~= names);
    res
}

/// The lines of a class's group do not depend on the classes listed after it.
proof fn lemma_groups_prefix(names: Seq<Seq<char>>, entries: Seq<InspectEntry>, k: int)
    requires
        0 <= k < names.len(),
    ensures
        group_lines(entries, names.take(k + 1), k) == group_lines(entries, names, k),
    decreases entries.len(),
{
    if entries.len() > 0 {
        lemma_groups_prefix(names, entries.drop_last(), k);
        match entries.last().1 {
            Some((n, t)) => {
                lemma_first_index_prefix(names, n@, k);
            },
            None => {},
        }
    }
}

proof fn lemma_first_index_prefix(names: Seq<Seq<char>>, name: Seq<char>, k: int)
    requires
        0 <= k < names.len(),
    ensures
        (first_index(names.take(k + 1), name, 0) == k) == (first_index(names, name, 0) == k),
{
    lemma_first_index_from(names.take(k + 1), names, name, 0, k);
}

proof fn lemma_first_index_from(a: Seq<Seq<char>>, b: Seq<Seq<char>>, name: Seq<char>, i: int, k: int)
    requires
        0 <= i <= k,
        k < a.len() == k + 1,
        k < b.len(),
        forall|j: int| 0 <= j <= k ==> a[j] == b[j],
    ensures
        (first_index(a, name, i) == k) == (first_index(b, name, i) == k),
        first_index(a, name, i) <= k ==> first_index(a, name, i) == first_index(b, name, i),
        first_index(b, name, i) <= k ==> first_index(a, name, i) == first_index(b, name, i),
    decreases k - i,
{
    if i < k && a[i] != name {
        lemma_first_index_from(a, b, name, i + 1, k);
    } else if i == k && a[i] != name {
        lemma_first_index_ge(b, name, i + 1);
        assert(first_index(a, name, i + 1) == i + 1);
        assert(b[i] == a[i]);
        assert(first_index(b, name, i) == first_index(b, name, i + 1));
    } else {
        assert(b[i] == a[i]);
    }
}

proof fn lemma_first_index_ge(names: Seq<Seq<char>>, name: Seq<char>, i: int)
    ensures
        first_index(names, name, i) >= i,
    decreases names.len() - i,
{
    if 0 <= i < names.len() && names[i] != name {
        lemma_first_index_ge(names, name, i + 1);
    }
}

} // verus!

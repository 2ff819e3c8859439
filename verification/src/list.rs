//! Directory listings: which entries are shown, in which order, where the
//! listing descends, and how an entry's line looks.

use vstd::prelude::*;
use crate::text::{push_str, str_eq, string_push};

verus! {

/// What kind of file an entry is (from its own metadata, links not followed).
#[derive(PartialEq, Eq, Structural, Debug, Clone, Copy)]
pub enum EntryKind {
    File,
    Dir,
    Symlink,
    Other,
}

/// The line that shows an entry named `name`: plain, with a `/` after a
/// directory; or in color (white files, green directories with a `/`, blue
/// links, yellow for anything else).
pub open spec fn entry_line_of(name: Seq<char>, kind: EntryKind, colorful: bool) -> Seq<char> {
    if !colorful {
        if kind == EntryKind::Dir {
            name + "/"@
        } else {
            name
        }
    } else {
        match kind {
            EntryKind::File => "\x1b[1;37m"@ + name + "\x1b[0m"@,
            EntryKind::Dir => "\x1b[1;32m"@ + name + "/\x1b[0m"@,
            EntryKind::Symlink => "\x1b[1;34m"@ + name + "\x1b[0m"@,
            EntryKind::Other => "\x1b[1;33m"@ + name + "\x1b[0m"@,
        }
    }
}

/// Writes the line that shows an entry (see [`entry_line_of`]).
pub fn colorprint(name: &str, kind: EntryKind, colorful: bool) -> (line: String)
    ensures
        line@ == entry_line_of(name@, kind, colorful),
{
    let mut line = String::new();
    if !colorful {
        push_str(&mut line, name);
        if kind == EntryKind::Dir {
            push_str(&mut line, "/");
        }
    } else {
        match kind {
            EntryKind::File => {
                push_str(&mut line, "\x1b[1;37m");
                push_str(&mut line, name);
                push_str(&mut line, "\x1b[0m");
            },
            EntryKind::Dir => {
                push_str(&mut line, "\x1b[1;32m");
                push_str(&mut line, name);
                push_str(&mut line, "/\x1b[0m");
            },
            EntryKind::Symlink => {
                push_str(&mut line, "\x1b[1;34m");
                push_str(&mut line, name);
                push_str(&mut line, "\x1b[0m");
            },
            EntryKind::Other => {
                push_str(&mut line, "\x1b[1;33m");
                push_str(&mut line, name);
                push_str(&mut line, "\x1b[0m");
            },
        }
    }
    line
}

/// Lexicographic order of character sequences, by code point.
pub open spec fn seq_lt(a: Seq<char>, b: Seq<char>) -> bool
    decreases a.len(),
{
    if b.len() == 0 {
        false
    } else if a.len() == 0 {
        true
    } else if a[0] != b[0] {
        (a[0] as u32) < (b[0] as u32)
    } else {
        seq_lt(a.drop_first(), b.drop_first())
    }
}

pub proof fn lemma_seq_lt_irreflexive(a: Seq<char>)
    ensures
        !seq_lt(a, a),
    decreases a.len(),
{
    if a.len() > 0 {
        lemma_seq_lt_irreflexive(a.drop_first());
    }
}

pub proof fn lemma_seq_lt_total(a: Seq<char>, b: Seq<char>)
    ensures
        a != b ==> seq_lt(a, b) || seq_lt(b, a),
        !(seq_lt(a, b) && seq_lt(b, a)),
    decreases a.len(),
{
    if a.len() > 0 && b.len() > 0 && a[0] != b[0] {
        vstd::utf8::char_u32_cast(a[0], a[0] as u32);
        vstd::utf8::char_u32_cast(b[0], b[0] as u32);
    }
    if a.len() > 0 && b.len() > 0 && a[0] == b[0] {
        lemma_seq_lt_total(a.drop_first(), b.drop_first());
        if a != b {
            assert(a.drop_first() != b.drop_first()) by {
                if a.drop_first() == b.drop_first() {
                    assert(a =~= seq![a[0]] + a.drop_first());
                    assert(b =~= seq![b[0]] + b.drop_first());
                }
            }
        }
    } else if a.len() == 0 && b.len() == 0 {
        assert(a =~= b);
    }
}

pub proof fn lemma_seq_lt_transitive(a: Seq<char>, b: Seq<char>, c: Seq<char>)
    requires
        seq_lt(a, b),
        seq_lt(b, c),
    ensures
        seq_lt(a, c),
    decreases a.len(),
{
    if a.len() > 0 && b.len() > 0 && c.len() > 0 && a[0] == b[0] && b[0] == c[0] {
        lemma_seq_lt_transitive(a.drop_first(), b.drop_first(), c.drop_first());
    }
}

/// Whether `a` comes before `b` (see [`seq_lt`]).
pub fn str_lt(a: &str, b: &str) -> (r: bool)
    ensures
        r == seq_lt(a@, b@),
{
    let n = a.unicode_len();
    let m = b.unicode_len();
    let mut i: usize = 0;
    proof {
        assert(a@.subrange(0, n as int) =~= a@);
        assert(b@.subrange(0, m as int) =~= b@);
    }
    while i < n && i < m && a.get_char(i) == b.get_char(i)
        invariant
            i <= n,
            i <= m,
            n == a@.len(),
            m == b@.len(),
            seq_lt(a@, b@) == seq_lt(a@.subrange(i as int, n as int), b@.subrange(i as int, m as int)),
        decreases n - i,
    {
        proof {
            let x = a@.subrange(i as int, n as int);
            let y = b@.subrange(i as int, m as int);
            assert(x.drop_first() =~= a@.subrange(i + 1, n as int));
            assert(y.drop_first() =~= b@.subrange(i + 1, m as int));
        }
        i = i + 1;
    }
    if i == m {
        false
    } else if i == n {
        true
    } else {
        (a.get_char(i) as u32) < (b.get_char(i) as u32)
    }
}

/// An entry's name starts with a dot.
pub open spec fn is_hidden_name(name: Seq<char>) -> bool {
    name.len() > 0 && name[0] == '.'
}

/// Whether entry `i` is listed.
pub open spec fn visible(names: Seq<Seq<char>>, hidden: bool, i: int) -> bool {
    hidden || !is_hidden_name(names[i])
}

/// Entry `i` comes before entry `j` in a sorted listing: by name, then by position.
pub open spec fn entry_before(names: Seq<Seq<char>>, i: int, j: int) -> bool {
    seq_lt(names[i], names[j]) || (names[i] == names[j] && i < j)
}

/// A step of a listing.
#[derive(PartialEq, Eq, Structural, Debug, Clone, Copy)]
pub enum ListStep {
    /// Show entry `i`.
    Print(usize),
    /// List the directory that entry `i` is, before going on.
    Descend(usize),
}

/// The steps for a listed entry `i`: show it, then, when it is a directory
/// and the listing is recursive, list its contents right after its line.
pub open spec fn item_steps(is_dir: Seq<bool>, i: int, rec: bool) -> Seq<ListStep> {
    seq![ListStep::Print(i as usize)] + (if is_dir[i] && rec {
        seq![ListStep::Descend(i as usize)]
    } else {
        Seq::empty()
    })
}

/// The steps for entry `i` while walking the directory unsorted.
pub open spec fn entry_steps(names: Seq<Seq<char>>, is_dir: Seq<bool>, i: int, hidden: bool, rec: bool) -> Seq<ListStep> {
    if visible(names, hidden, i) {
        item_steps(is_dir, i, rec)
    } else {
        Seq::empty()
    }
}

/// The steps of the unsorted walk over entries `0..k`.
pub open spec fn walk_steps(names: Seq<Seq<char>>, is_dir: Seq<bool>, k: int, hidden: bool, rec: bool) -> Seq<ListStep>
    decreases k,
{
    if k <= 0 {
        Seq::empty()
    } else {
        walk_steps(names, is_dir, k - 1, hidden, rec) + entry_steps(names, is_dir, k - 1, hidden, rec)
    }
}

/// The steps for the listed entries taken in the order `order`.
pub open spec fn order_steps(order: Seq<usize>, is_dir: Seq<bool>, rec: bool) -> Seq<ListStep>
    decreases order.len(),
{
    if order.len() == 0 {
        Seq::empty()
    } else {
        order_steps(order.drop_last(), is_dir, rec) + item_steps(is_dir, order.last() as int, rec)
    }
}

/// The plan for listing a directory: its steps, and (when sorting) the
/// listed entries in sorted order.
pub struct ListPlan {
    pub steps: Vec<ListStep>,
    pub sorted: Vec<usize>,
}

/// `order` holds exactly the listed entries, in sorted order.
pub open spec fn sorted_listing(names: Seq<Seq<char>>, hidden: bool, order: Seq<usize>) -> bool {
    &&& forall|a: int, b: int| 0 <= a < b < order.len() ==> entry_before(names, order[a] as int, order[b] as int)
    &&& forall|x: usize| order.contains(x) <==> (x < names.len() && visible(names, hidden, x as int))
}

/// Plans the listing of a directory whose entries (in the order the system
/// gives them) are named `names`, with `is_dir` telling the directories.
/// Hidden entries are left out unless `hidden`. Each listed entry is shown,
/// and with `rec` a listed directory's contents follow its line. Without
/// `sort` the entries come in the system's order; with `sort` they come
/// sorted by name, so the whole listing is in order, a directory before
/// what it holds.
pub fn showdir(names: &Vec<String>, is_dir: &Vec<bool>, hidden: bool, rec: bool, sort: bool) -> (plan: ListPlan)
    requires
        names@.len() == is_dir@.len(),
    ensures
        !sort ==> plan.steps@ == walk_steps(names.deep_view(), is_dir@, names@.len() as int, hidden, rec),
        !sort ==> plan.sorted@.len() == 0,
        sort ==> sorted_listing(names.deep_view(), hidden, plan.sorted@),
        sort ==> plan.steps@ == order_steps(plan.sorted@, is_dir@, rec),
{
    let ghost ns = names.deep_view();
    let n = names.len();
    let mut steps: Vec<ListStep> = Vec::new();
    let mut sorted: Vec<usize> = Vec::new();
    let mut i: usize = 0;
    while i < n
        invariant
            n == names@.len(),
            n == is_dir@.len(),
            ns == names.deep_view(),
            i <= n,
            !sort ==> steps@ == walk_steps(ns, is_dir@, i as int, hidden, rec),
            sort ==> steps@.len() == 0,
            !sort ==> sorted@.len() == 0,
            sort ==> forall|a: int, b: int| 0 <= a < b < sorted@.len() ==> entry_before(ns, sorted@[a] as int, sorted@[b] as int),
            sort ==> forall|x: usize| sorted@.contains(x) <==> (x < i && visible(ns, hidden, x as int)),
        decreases n - i,
    {
        let name = names[i].as_str();
        assert(ns[i as int] == name@);
        let hidden_name = name.unicode_len() > 0 && name.get_char(0) == '.';
        let ghost before = steps@;
        if hidden || !hidden_name {
            if sort {
                insert_sorted(&mut sorted, names, i, Ghost(hidden));
            } else {
                steps.push(ListStep::Print(i));
                if is_dir[i] && rec {
                    steps.push(ListStep::Descend(i));
                }
            }
        }
        proof {
            if !sort {
                assert(steps@ =~= before + entry_steps(ns, is_dir@, i as int, hidden, rec));
            }
        }
        i = i + 1;
    }
    if sort {
        let mut k: usize = 0;
        while k < sorted.len()
            invariant
                n == is_dir@.len(),
                n == names@.len(),
                ns == names.deep_view(),
                k <= sorted@.len(),
                forall|x: usize| sorted@.contains(x) ==> x < n,
                steps@ == order_steps(sorted@.subrange(0, k as int), is_dir@, rec),
            decreases sorted@.len() - k,
        {
            let e = sorted[k];
            assert(sorted@.contains(e));
            let ghost before = steps@;
            steps.push(ListStep::Print(e));
            if is_dir[e] && rec {
                steps.push(ListStep::Descend(e));
            }
            proof {
                let pre = sorted@.subrange(0, k + 1);
                assert(pre.drop_last() =~= sorted@.subrange(0, k as int));
                assert(pre.last() == e);
                assert(steps@ =~= before + item_steps(is_dir@, e as int, rec));
            }
            k = k + 1;
        }
        assert(sorted@.subrange(0, sorted@.len() as int) =~= sorted@);
    }
    ListPlan { steps, sorted }
}

/// Inserts entry `i` into the sorted listing of entries before it.
fn insert_sorted(sorted: &mut Vec<usize>, names: &Vec<String>, i: usize, Ghost(hidden): Ghost<bool>)
    requires
        i < names@.len(),
        visible(names.deep_view(), hidden, i as int),
        forall|a: int, b: int| 0 <= a < b < old(sorted)@.len() ==> entry_before(names.deep_view(), old(sorted)@[a] as int, old(sorted)@[b] as int),
        forall|x: usize| old(sorted)@.contains(x) <==> (x < i && visible(names.deep_view(), hidden, x as int)),
    ensures
        forall|a: int, b: int| 0 <= a < b < final(sorted)@.len() ==> entry_before(names.deep_view(), final(sorted)@[a] as int, final(sorted)@[b] as int),
        forall|x: usize| final(sorted)@.contains(x) <==> (x <= i && visible(names.deep_view(), hidden, x as int)),
{
    let ghost ns = names.deep_view();
    let ghost s0 = sorted@;
    let mut p: usize = 0;
    proof {
        assert forall|q: int| 0 <= q < s0.len() implies s0[q] < i by {
            assert(s0.contains(s0[q]));
        }
    }
    while p < sorted.len() && !str_lt(names[i].as_str(), names[sorted[p]].as_str())
        invariant
            p <= sorted@.len(),
            sorted@ == s0,
            ns == names.deep_view(),
            i < names@.len(),
            forall|x: usize| s0.contains(x) ==> x < i,
            forall|q: int| 0 <= q < s0.len() ==> s0[q] < i,
            forall|q: int| 0 <= q < p ==> entry_before(ns, s0[q] as int, i as int),
        decreases sorted@.len() - p,
    {
        let e = sorted[p];
        proof {
            assert(s0.contains(e));
            assert(names@[e as int]@ == ns[e as int]);
            assert(names@[i as int]@ == ns[i as int]);
            lemma_seq_lt_total(ns[e as int], ns[i as int]);
        }
        p = p + 1;
    }
    proof {
        if p < s0.len() {
            let e = s0[p as int];
            assert(s0.contains(e));
            assert(seq_lt(ns[i as int], ns[e as int]));
        }
    }
    sorted.insert(p, i);
    proof {
        let s1 = sorted@;
        assert(s1 =~= s0.subrange(0, p as int).push(i) + s0.subrange(p as int, s0.len() as int));
        assert forall|a: int, b: int| 0 <= a < b < s1.len() implies entry_before(ns, s1[a] as int, s1[b] as int) by {
            if b < p {
                assert(s1[a] == s0[a] && s1[b] == s0[b]);
            } else if b == p {
                assert(s1[a] == s0[a]);
            } else if a == p {
                let e = s0[b - 1];
                assert(s1[b] == e);
                assert(seq_lt(ns[i as int], ns[s0[p as int] as int]));
                if b - 1 > p {
                    assert(entry_before(ns, s0[p as int] as int, e as int));
                    if seq_lt(ns[s0[p as int] as int], ns[e as int]) {
                        lemma_seq_lt_transitive(ns[i as int], ns[s0[p as int] as int], ns[e as int]);
                    }
                }
            } else if a < p {
                let e = s0[b - 1];
                assert(s1[a] == s0[a] && s1[b] == e);
                assert(entry_before(ns, s0[a] as int, e as int));
            } else {
                assert(s1[a] == s0[a - 1] && s1[b] == s0[b - 1]);
            }
        }
        assert forall|x: usize| s1.contains(x) <==> (x <= i && visible(ns, hidden, x as int)) by {
            if s1.contains(x) {
                let k = choose|k: int| 0 <= k < s1.len() && s1[k] == x;
                if k < p {
                    assert(s0[k] == x);
                    assert(s0.contains(x));
                } else if k > p {
                    assert(s0[k - 1] == x);
                    assert(s0.contains(x));
                }
            }
            if x <= i && visible(ns, hidden, x as int) {
                if x == i {
                    assert(s1[p as int] == i);
                } else {
                    assert(s0.contains(x));
                    let k = choose|k: int| 0 <= k < s0.len() && s0[k] == x;
                    if k < p {
                        assert(s1[k] == x);
                    } else {
                        assert(s1[k + 1] == x);
                    }
                }
            }
        }
    }
}

/// Without colors an entry's line is its name, with a `/` added exactly when
/// the entry is a directory; with colors the name stands between a color
/// code and the reset code, again with a `/` after it exactly for a
/// directory, and directories, files, links and other entries each get a
/// color of their own.
pub proof fn law_entry_line_marks_directories(name: Seq<char>, kind: EntryKind)
    ensures
        kind != EntryKind::Dir ==> entry_line_of(name, kind, false) == name,
        kind == EntryKind::Dir ==> entry_line_of(name, kind, false) == name.push('/'),
        ({
            let line = entry_line_of(name, kind, true);
            let reset = "\x1b[0m"@;
            &&& line.subrange(7, 7 + name.len() as int) == name
            &&& (kind == EntryKind::Dir ==> line.subrange(7 + name.len() as int, line.len() as int) == seq!['/'] + reset)
            &&& (kind != EntryKind::Dir ==> line.subrange(7 + name.len() as int, line.len() as int) == reset)
        }),
        entry_line_of(name, EntryKind::File, true).subrange(0, 7) != entry_line_of(name, EntryKind::Dir, true).subrange(0, 7),
        entry_line_of(name, EntryKind::File, true).subrange(0, 7) != entry_line_of(name, EntryKind::Symlink, true).subrange(0, 7),
        entry_line_of(name, EntryKind::File, true).subrange(0, 7) != entry_line_of(name, EntryKind::Other, true).subrange(0, 7),
        entry_line_of(name, EntryKind::Dir, true).subrange(0, 7) != entry_line_of(name, EntryKind::Symlink, true).subrange(0, 7),
        entry_line_of(name, EntryKind::Dir, true).subrange(0, 7) != entry_line_of(name, EntryKind::Other, true).subrange(0, 7),
        entry_line_of(name, EntryKind::Symlink, true).subrange(0, 7) != entry_line_of(name, EntryKind::Other, true).subrange(0, 7),
{
    reveal_strlit("/");
    reveal_strlit("\x1b[1;37m");
    reveal_strlit("\x1b[1;32m");
    reveal_strlit("\x1b[1;34m");
    reveal_strlit("\x1b[1;33m");
    reveal_strlit("\x1b[0m");
    reveal_strlit("/\x1b[0m");
    assert(name + "/"@ =~= name.push('/'));
    let line = entry_line_of(name, kind, true);
    assert(line.subrange(7, 7 + name.len() as int) =~= name);
    if kind == EntryKind::Dir {
        assert(line.subrange(7 + name.len() as int, line.len() as int) =~= seq!['/'] + "\x1b[0m"@);
    } else {
        assert(line.subrange(7 + name.len() as int, line.len() as int) =~= "\x1b[0m"@);
    }
    let f = entry_line_of(name, EntryKind::File, true).subrange(0, 7);
    let d = entry_line_of(name, EntryKind::Dir, true).subrange(0, 7);
    let l = entry_line_of(name, EntryKind::Symlink, true).subrange(0, 7);
    let o = entry_line_of(name, EntryKind::Other, true).subrange(0, 7);
    assert(f[5] == '7' && d[5] == '2' && l[5] == '4' && o[5] == '3');
}

/// Entry `i` is among the first `n` and is listed.
pub open spec fn listed(names: Seq<Seq<char>>, hidden: bool, n: int, i: int) -> bool {
    0 <= i < n && visible(names, hidden, i)
}

/// Steps that only show or descend into entries listed among the first `n`,
/// descend only into directories and only when recursive, each right after
/// the entry's own line.
pub open spec fn steps_well_placed(
    steps: Seq<ListStep>,
    is_dir: Seq<bool>,
    rec: bool,
    names: Seq<Seq<char>>,
    hidden: bool,
    n: int,
) -> bool {
    &&& forall|j: int|
        0 <= j < steps.len() && (#[trigger] steps[j]) is Print ==> listed(names, hidden, n, steps[j]->Print_0 as int)
    &&& forall|j: int|
        0 <= j < steps.len() && (#[trigger] steps[j]) is Descend ==> {
            let x = steps[j]->Descend_0;
            &&& rec && is_dir[x as int] && listed(names, hidden, n, x as int)
            &&& j > 0 && steps[j - 1] == ListStep::Print(x)
        }
}

proof fn lemma_item_steps_placed(
    steps: Seq<ListStep>,
    is_dir: Seq<bool>,
    rec: bool,
    names: Seq<Seq<char>>,
    hidden: bool,
    n: int,
    i: int,
)
    requires
        steps_well_placed(steps, is_dir, rec, names, hidden, n),
        listed(names, hidden, n, i),
        0 <= i <= usize::MAX,
    ensures
        steps_well_placed(steps + item_steps(is_dir, i, rec), is_dir, rec, names, hidden, n),
        (steps + item_steps(is_dir, i, rec)).contains(ListStep::Print(i as usize)),
{
    let t = steps + item_steps(is_dir, i, rec);
    assert(t[steps.len() as int] == ListStep::Print(i as usize));
    assert forall|j: int| 0 <= j < t.len() && (#[trigger] t[j]) is Descend implies ({
        let x = t[j]->Descend_0;
        &&& rec && is_dir[x as int] && listed(names, hidden, n, x as int)
        &&& j > 0 && t[j - 1] == ListStep::Print(x)
    }) by {
        if j < steps.len() {
            assert(t[j] == steps[j]);
            assert(t[j - 1] == steps[j - 1]);
        }
    }
    assert forall|j: int| 0 <= j < t.len() && (#[trigger] t[j]) is Print implies listed(
        names,
        hidden,
        n,
        t[j]->Print_0 as int,
    ) by {
        if j < steps.len() {
            assert(t[j] == steps[j]);
        }
    }
}

proof fn lemma_walk_steps(names: Seq<Seq<char>>, is_dir: Seq<bool>, k: int, hidden: bool, rec: bool)
    requires
        0 <= k <= names.len(),
        k <= usize::MAX,
    ensures
        steps_well_placed(walk_steps(names, is_dir, k, hidden, rec), is_dir, rec, names, hidden, k),
        forall|i: int| #[trigger] listed(names, hidden, k, i) ==> walk_steps(names, is_dir, k, hidden, rec).contains(
            ListStep::Print(i as usize),
        ),
    decreases k,
{
    if k > 0 {
        lemma_walk_steps(names, is_dir, k - 1, hidden, rec);
        let prev = walk_steps(names, is_dir, k - 1, hidden, rec);
        assert(steps_well_placed(prev, is_dir, rec, names, hidden, k)) by {
            assert forall|j: int| 0 <= j < prev.len() && (#[trigger] prev[j]) is Print implies listed(
                names,
                hidden,
                k,
                prev[j]->Print_0 as int,
            ) by {
                assert(listed(names, hidden, k - 1, prev[j]->Print_0 as int));
            }
            assert forall|j: int| 0 <= j < prev.len() && (#[trigger] prev[j]) is Descend implies ({
                let x = prev[j]->Descend_0;
                &&& rec && is_dir[x as int] && listed(names, hidden, k, x as int)
                &&& j > 0 && prev[j - 1] == ListStep::Print(x)
            }) by {
                assert(listed(names, hidden, k - 1, prev[j]->Descend_0 as int));
            }
        }
        if visible(names, hidden, k - 1) {
            lemma_item_steps_placed(prev, is_dir, rec, names, hidden, k, k - 1);
            let t = prev + item_steps(is_dir, k - 1, rec);
            assert forall|i: int| #[trigger] listed(names, hidden, k, i) implies t.contains(ListStep::Print(i as usize)) by {
                if i < k - 1 {
                    assert(listed(names, hidden, k - 1, i));
                    let j = choose|j: int| 0 <= j < prev.len() && prev[j] == ListStep::Print(i as usize);
                    assert(t[j] == prev[j]);
                }
            }
        } else {
            assert(walk_steps(names, is_dir, k, hidden, rec) =~= prev);
            assert forall|i: int| #[trigger] listed(names, hidden, k, i) implies prev.contains(ListStep::Print(i as usize)) by {
                assert(listed(names, hidden, k - 1, i));
            }
        }
    }
}

#[verifier::rlimit(30)]
proof fn lemma_order_steps(names: Seq<Seq<char>>, is_dir: Seq<bool>, hidden: bool, rec: bool, order: Seq<usize>, k: int)
    requires
        names.len() <= usize::MAX,
        sorted_listing(names, hidden, order),
        0 <= k <= order.len(),
    ensures
        steps_well_placed(
            order_steps(order.subrange(0, k), is_dir, rec),
            is_dir,
            rec,
            names,
            hidden,
            names.len() as int,
        ),
        forall|a: int| 0 <= a < k ==> order_steps(order.subrange(0, k), is_dir, rec).contains(
            ListStep::Print(#[trigger] order[a]),
        ),
    decreases k,
{
    let pre = order.subrange(0, k);
    if k > 0 {
        lemma_order_steps(names, is_dir, hidden, rec, order, k - 1);
        let prev = order_steps(order.subrange(0, k - 1), is_dir, rec);
        assert(pre.drop_last() =~= order.subrange(0, k - 1));
        assert(pre.last() == order[k - 1]);
        assert(order.contains(order[k - 1]));
        lemma_item_steps_placed(prev, is_dir, rec, names, hidden, names.len() as int, order[k - 1] as int);
        let t = prev + item_steps(is_dir, order[k - 1] as int, rec);
        assert(order_steps(pre, is_dir, rec) == t);
        assert forall|a: int| 0 <= a < k implies t.contains(ListStep::Print(#[trigger] order[a])) by {
            if a < k - 1 {
                let j = choose|j: int| 0 <= j < prev.len() && prev[j] == ListStep::Print(order[a]);
                assert(t[j] == prev[j]);
            }
        }
    } else {
        assert(order_steps(pre, is_dir, rec) =~= Seq::<ListStep>::empty());
    }
}

proof fn lemma_sorted_names_ascend(names: Seq<Seq<char>>, hidden: bool, order: Seq<usize>)
    requires
        sorted_listing(names, hidden, order),
    ensures
        forall|a: int, b: int| 0 <= a < b < order.len() ==> !seq_lt(names[order[b] as int], names[order[a] as int]),
{
    assert forall|a: int, b: int| 0 <= a < b < order.len() implies !seq_lt(names[order[b] as int], names[order[a] as int]) by {
        assert(entry_before(names, order[a] as int, order[b] as int));
        lemma_seq_lt_total(names[order[a] as int], names[order[b] as int]);
        lemma_seq_lt_irreflexive(names[order[a] as int]);
    }
}

/// A listing shows only entries that are listed (no hidden one unless
/// asked), shows every listed entry, and descends only into listed
/// directories, only when recursive, right after the directory's own line;
/// sorted or not. Sorted, it shows the entries in order of their names.
pub proof fn law_listing_shows_what_is_listed(
    names: Seq<Seq<char>>,
    is_dir: Seq<bool>,
    hidden: bool,
    rec: bool,
    order: Seq<usize>,
)
    requires
        names.len() <= usize::MAX,
        sorted_listing(names, hidden, order),
    ensures
        steps_well_placed(
            walk_steps(names, is_dir, names.len() as int, hidden, rec),
            is_dir,
            rec,
            names,
            hidden,
            names.len() as int,
        ),
        forall|i: int| #[trigger] listed(names, hidden, names.len() as int, i) ==> walk_steps(
            names,
            is_dir,
            names.len() as int,
            hidden,
            rec,
        ).contains(ListStep::Print(i as usize)),
        steps_well_placed(order_steps(order, is_dir, rec), is_dir, rec, names, hidden, names.len() as int),
        forall|i: int| #[trigger] listed(names, hidden, names.len() as int, i) ==> order_steps(
            order,
            is_dir,
            rec,
        ).contains(ListStep::Print(i as usize)),
        forall|a: int, b: int| 0 <= a < b < order.len() ==> !seq_lt(names[order[b] as int], names[order[a] as int]),
{
    lemma_walk_steps(names, is_dir, names.len() as int, hidden, rec);
    lemma_order_steps(names, is_dir, hidden, rec, order, order.len() as int);
    assert(order.subrange(0, order.len() as int) =~= order);
    let os = order_steps(order, is_dir, rec);
    assert forall|i: int| #[trigger] listed(names, hidden, names.len() as int, i) implies os.contains(
        ListStep::Print(i as usize),
    ) by {
        assert(order.contains(i as usize));
        let a = choose|a: int| 0 <= a < order.len() && order[a] == i as usize;
        assert(os.contains(ListStep::Print(order[a])));
    }
    lemma_sorted_names_ascend(names, hidden, order);
}

} // verus!

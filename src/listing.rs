//! Listings of name/value pairs: sorted by name, stable, with some names hidden.
use vstd::prelude::*;
use crate::model::NameValue;
use crate::text::{chars_of, padded, push_chars, push_padded, string_of};

verus! {

/// Width of the name column in a listing.
pub const NAME_WIDTH: usize = 20;

/// `a` comes strictly before `b`, comparing characters by code point.
pub open spec fn name_lt(a: Seq<char>, b: Seq<char>) -> bool
    decreases a.len(),
{
    if a.len() == 0 {
        b.len() > 0
    } else if b.len() == 0 {
        false
    } else if a[0] != b[0] {
        (a[0] as u32) < (b[0] as u32)
    } else {
        name_lt(a.drop_first(), b.drop_first())
    }
}

/// How many pairs named by `order` have a name that does not come after `x`.
pub open spec fn count_not_after(nvs: Seq<NameValue>, order: Seq<usize>, x: Seq<char>) -> nat
    decreases order.len(),
{
    if order.len() == 0 {
        0
    } else {
        count_not_after(nvs, order.drop_last(), x) + if name_lt(x, nvs[order.last() as int].name@) {
            0nat
        } else {
            1nat
        }
    }
}

/// Positions of the first `n` pairs in display order: each pair in turn is
/// placed after every earlier pair whose name does not come after its own,
/// so pairs are ordered by name and equal names keep their original order.
pub open spec fn sort_order(nvs: Seq<NameValue>, n: nat) -> Seq<usize>
    decreases n,
{
    if n == 0 {
        Seq::empty()
    } else {
        let o = sort_order(nvs, (n - 1) as nat);
        o.insert(count_not_after(nvs, o, nvs[n - 1].name@) as int, (n - 1) as usize)
    }
}

/// Whether `name` is hidden by `excludes` (exact, case-sensitive match).
pub open spec fn is_excluded(name: Seq<char>, excludes: Option<Seq<Seq<char>>>) -> bool {
    match excludes {
        Some(ex) => ex.contains(name),
        None => false,
    }
}

/// The pairs named by `order` whose names are not excluded, in that order.
pub open spec fn shown_pairs(
    nvs: Seq<NameValue>,
    order: Seq<usize>,
    excludes: Option<Seq<Seq<char>>>,
) -> Seq<NameValue>
    decreases order.len(),
{
    if order.len() == 0 {
        Seq::empty()
    } else {
        let rest = shown_pairs(nvs, order.drop_last(), excludes);
        let nv = nvs[order.last() as int];
        if is_excluded(nv.name@, excludes) {
            rest
        } else {
            rest.push(nv)
        }
    }
}

/// The line for one pair: indented, name and colon padded to the column, value.
pub open spec fn pair_line(nv: NameValue) -> Seq<char> {
    Seq::new(8, |i: int| ' ') + padded(nv.name@.push(':'), NAME_WIDTH as nat) + seq![' ']
        + nv.value@
}

/// The listing of `nvs`: sorted by name, stable, excluded names left out.
pub open spec fn listing(nvs: Seq<NameValue>, excludes: Option<Seq<Seq<char>>>) -> Seq<Seq<char>> {
    shown_pairs(nvs, sort_order(nvs, nvs.len()), excludes).map_values(|nv: NameValue| pair_line(nv))
}

/// The names of an exclude list.
pub open spec fn names_view(excludes: Option<&Vec<String>>) -> Option<Seq<Seq<char>>> {
    match excludes {
        Some(v) => Some(v@.map_values(|s: String| s@)),
        None => None,
    }
}

/// Views of a sequence of lines.
pub open spec fn lines_view(lines: Seq<String>) -> Seq<Seq<char>> {
    lines.map_values(|s: String| s@)
}

/// Whether `a` comes strictly before `b`.
pub fn less(a: &Vec<char>, b: &Vec<char>) -> (r: bool)
    ensures
        r == name_lt(a@, b@),
{
    let mut i: usize = 0;
    assert(a@.subrange(0, a.len() as int) =~= a@);
    assert(b@.subrange(0, b.len() as int) =~= b@);
    while i < a.len() && i < b.len() && a[i] == b[i]
        invariant
            i <= a.len(),
            i <= b.len(),
            name_lt(a@, b@) == name_lt(a@.subrange(i as int, a.len() as int), b@.subrange(i as int, b.len() as int)),
        decreases a.len() - i,
    {
        let ghost sa = a@.subrange(i as int, a.len() as int);
        let ghost sb = b@.subrange(i as int, b.len() as int);
        assert(sa.drop_first() =~= a@.subrange(i + 1, a.len() as int));
        assert(sb.drop_first() =~= b@.subrange(i + 1, b.len() as int));
        i = i + 1;
    }
    if i == a.len() {
        i < b.len()
    } else if i == b.len() {
        false
    } else {
        (a[i] as u32) < (b[i] as u32)
    }
}

proof fn lemma_count_bounded(nvs: Seq<NameValue>, order: Seq<usize>, x: Seq<char>)
    ensures
        count_not_after(nvs, order, x) <= order.len(),
    decreases order.len(),
{
    if order.len() > 0 {
        lemma_count_bounded(nvs, order.drop_last(), x);
    }
}

/// The display order of `nvs` (see `sort_order`).
pub fn sorted_positions(nvs: &Vec<NameValue>) -> (r: Vec<usize>)
    ensures
        r@ == sort_order(nvs@, nvs@.len()),
        r@.len() == nvs@.len(),
        forall|j: int| 0 <= j < r@.len() ==> r@[j] < nvs@.len(),
        ordered(nvs@, r@, nvs@.len()),
{
    let mut names: Vec<Vec<char>> = Vec::new();
    let mut k: usize = 0;
    while k < nvs.len()
        invariant
            k <= nvs.len(),
            names@.len() == k,
            forall|j: int| 0 <= j < k ==> names@[j]@ == nvs@[j].name@,
        decreases nvs.len() - k,
    {
        names.push(chars_of(nvs[k].name.as_str()));
        k = k + 1;
    }
    let mut order: Vec<usize> = Vec::new();
    let mut n: usize = 0;
    while n < nvs.len()
        invariant
            n <= nvs.len(),
            names@.len() == nvs@.len(),
            forall|j: int| 0 <= j < nvs.len() ==> names@[j]@ == nvs@[j].name@,
            order@ == sort_order(nvs@, n as nat),
            order@.len() == n,
            forall|j: int| 0 <= j < n ==> order@[j] < n,
        decreases nvs.len() - n,
    {
        let ghost o = order@;
        let mut pos: usize = 0;
        let mut j: usize = 0;
        while j < order.len()
            invariant
                j <= order.len(),
                order@ == o,
                o.len() == n,
                n < nvs.len(),
                names@.len() == nvs@.len(),
                forall|q: int| 0 <= q < nvs.len() ==> names@[q]@ == nvs@[q].name@,
                forall|q: int| 0 <= q < n ==> o[q] < n,
                pos == count_not_after(nvs@, o.subrange(0, j as int), nvs@[n as int].name@),
                pos <= j,
            decreases order.len() - j,
        {
            let ghost p = o.subrange(0, j + 1);
            assert(p.drop_last() =~= o.subrange(0, j as int));
            if !less(&names[n], &names[order[j]]) {
                pos = pos + 1;
            }
            j = j + 1;
        }
        assert(o.subrange(0, n as int) =~= o);
        proof {
            lemma_count_bounded(nvs@, o, nvs@[n as int].name@);
        }
        order.insert(pos, n);
        n = n + 1;
        assert forall|j: int| 0 <= j < n implies order@[j] < n by {
            if j < pos {
                assert(order@[j] == o[j]);
            } else if j > pos {
                assert(order@[j] == o[j - 1]);
            }
        }
    }
    proof {
        lemma_sort_order_sorted(nvs@, nvs@.len());
    }
    order
}

/// Whether `name` is one of `names`.
pub fn contains_name(names: &Vec<String>, name: &String) -> (r: bool)
    ensures
        r == names@.map_values(|s: String| s@).contains(name@),
{
    let ghost view = names@.map_values(|s: String| s@);
    let mut i: usize = 0;
    while i < names.len()
        invariant
            i <= names.len(),
            view == names@.map_values(|s: String| s@),
            forall|j: int| 0 <= j < i ==> view[j] != name@,
        decreases names.len() - i,
    {
        if names[i] == *name {
            assert(view[i as int] == name@);
            return true;
        }
        i = i + 1;
    }
    assert(!view.contains(name@));
    false
}

/// The line for one pair (see `pair_line`).
pub fn format_pair(nv: &NameValue) -> (r: String)
    ensures
        r@ == pair_line(*nv),
{
    let mut out: Vec<char> = Vec::new();
    let mut k: usize = 0;
    while k < 8
        invariant
            k <= 8,
            out@ == Seq::new(k as nat, |i: int| ' '),
        decreases 8 - k,
    {
        out.push(' ');
        k = k + 1;
        assert(out@ =~= Seq::new(k as nat, |i: int| ' '));
    }
    let mut label = chars_of(nv.name.as_str());
    label.push(':');
    push_padded(&mut out, &label, NAME_WIDTH);
    out.push(' ');
    let value = chars_of(nv.value.as_str());
    push_chars(&mut out, &value);
    assert(out@ =~= pair_line(*nv));
    string_of(&out)
}

/// The listing of `nvs`, one line per shown pair: sorted by name with equal
/// names in their original order, and without the pairs whose name is in
/// `excludes`.
pub fn name_value_lines(nvs: &Vec<NameValue>, excludes: Option<&Vec<String>>) -> (r: Vec<String>)
    ensures
        lines_view(r@) == listing(nvs@, names_view(excludes)),
{
    let order = sorted_positions(nvs);
    let ghost ex = names_view(excludes);
    let ghost shown = Seq::<NameValue>::empty();
    let mut out: Vec<String> = Vec::new();
    let mut i: usize = 0;
    while i < order.len()
        invariant
            i <= order.len(),
            order@ == sort_order(nvs@, nvs@.len()),
            forall|j: int| 0 <= j < order.len() ==> order@[j] < nvs.len(),
            ex == names_view(excludes),
            lines_view(out@) == shown_pairs(nvs@, order@.subrange(0, i as int), ex).map_values(|nv: NameValue| pair_line(nv)),
        decreases order.len() - i,
    {
        let nv = &nvs[order[i]];
        let ghost p = order@.subrange(0, i + 1);
        assert(p.drop_last() =~= order@.subrange(0, i as int));
        let hidden = match excludes {
            Some(names) => contains_name(names, &nv.name),
            None => false,
        };
        proof {
            assert(p.last() == order@[i as int]);
            assert(hidden == is_excluded(nv.name@, ex));
        }
        let ghost before = out@;
        if !hidden {
            let line = format_pair(nv);
            out.push(line);
            assert(lines_view(out@) =~= lines_view(before).push(pair_line(*nv)));
        } else {
            assert(out@ == before);
        }
        assert(lines_view(out@) =~= shown_pairs(nvs@, p, ex).map_values(|nv: NameValue| pair_line(nv)));
        i = i + 1;
    }
    assert(order@.subrange(0, order.len() as int) =~= order@);
    out
}

/// A name in the exclude list never appears in a listing: every pair that is
/// shown has a name outside the list.
pub proof fn lemma_excluded_never_shown(
    nvs: Seq<NameValue>,
    order: Seq<usize>,
    excludes: Option<Seq<Seq<char>>>,
    name: Seq<char>,
)
    requires
        is_excluded(name, excludes),
    ensures
        forall|k: int|
            0 <= k < shown_pairs(nvs, order, excludes).len() ==> (#[trigger] shown_pairs(nvs, order, excludes)[k]).name@
                != name,
    decreases order.len(),
{
    if order.len() > 0 {
        lemma_excluded_never_shown(nvs, order.drop_last(), excludes, name);
        let rest = shown_pairs(nvs, order.drop_last(), excludes);
        let nv = nvs[order.last() as int];
        if !is_excluded(nv.name@, excludes) {
            assert(nv.name@ != name);
            assert forall|k: int| 0 <= k < rest.len() + 1 implies (#[trigger] rest.push(nv)[k]).name@ != name by {
                if k < rest.len() {
                    assert(rest.push(nv)[k] == rest[k]);
                }
            }
        }
    }
}

proof fn lemma_code_distinct(c: char, d: char)
    ensures
        c != d ==> (c as u32) != (d as u32),
{
}

proof fn lemma_lt_asymmetric(a: Seq<char>, b: Seq<char>)
    ensures
        !(name_lt(a, b) && name_lt(b, a)),
        !name_lt(a, a),
    decreases a.len(),
{
    if a.len() > 0 && b.len() > 0 && a[0] == b[0] {
        lemma_lt_asymmetric(a.drop_first(), b.drop_first());
    }
    if a.len() > 0 {
        lemma_lt_asymmetric(a.drop_first(), a.drop_first());
    }
}

proof fn lemma_lt_total(a: Seq<char>, b: Seq<char>)
    ensures
        name_lt(a, b) || name_lt(b, a) || a == b,
    decreases a.len(),
{
    if a.len() > 0 && b.len() > 0 && a[0] == b[0] {
        lemma_lt_total(a.drop_first(), b.drop_first());
        if a.drop_first() == b.drop_first() {
            assert(a =~= seq![a[0]] + a.drop_first());
            assert(b =~= seq![b[0]] + b.drop_first());
        }
    } else if a.len() > 0 && b.len() > 0 {
        lemma_code_distinct(a[0], b[0]);
    } else if a.len() == 0 && b.len() == 0 {
        assert(a =~= b);
    }
}

proof fn lemma_lt_transitive(a: Seq<char>, b: Seq<char>, c: Seq<char>)
    requires
        name_lt(a, b),
        name_lt(b, c),
    ensures
        name_lt(a, c),
    decreases a.len(),
{
    if a.len() > 0 && b.len() > 0 && c.len() > 0 && a[0] == b[0] && b[0] == c[0] {
        lemma_lt_transitive(a.drop_first(), b.drop_first(), c.drop_first());
    }
}

/// Pair `i` goes before pair `j`: a smaller name, or the same name and an
/// earlier position.
pub open spec fn goes_before(nvs: Seq<NameValue>, i: usize, j: usize) -> bool {
    name_lt(nvs[i as int].name@, nvs[j as int].name@) || (nvs[i as int].name@ == nvs[j as int].name@
        && i < j)
}

/// `order` lists positions below `n`, each pair before the next.
pub open spec fn ordered(nvs: Seq<NameValue>, order: Seq<usize>, n: nat) -> bool {
    &&& forall|k: int| 0 <= k < order.len() ==> order[k] < n
    &&& forall|j: int, k: int|
        0 <= j < k < order.len() ==> #[trigger] goes_before(nvs, order[j], order[k]) && #[trigger] order[j]
            != order[k]
}

proof fn lemma_count_splits(nvs: Seq<NameValue>, order: Seq<usize>, n: nat, x: Seq<char>)
    requires
        ordered(nvs, order, n),
    ensures
        forall|k: int|
            0 <= k < order.len() ==> (k < count_not_after(nvs, order, x) <==> !name_lt(
                x,
                #[trigger] nvs[order[k] as int].name@,
            )),
    decreases order.len(),
{
    lemma_count_bounded(nvs, order, x);
    if order.len() > 0 {
        let o = order.drop_last();
        assert forall|j: int, k: int| 0 <= j < k < o.len() implies #[trigger] goes_before(nvs, o[j], o[k])
            && #[trigger] o[j] != o[k] by {
            assert(goes_before(nvs, order[j], order[k]));
            assert(order[j] != order[k]);
        }
        lemma_count_splits(nvs, o, n, x);
        lemma_count_bounded(nvs, o, x);
        let last = order.len() - 1;
        let nl = nvs[order[last] as int].name@;
        if !name_lt(x, nl) {
            assert forall|k: int| 0 <= k < last implies !name_lt(x, #[trigger] nvs[order[k] as int].name@) by {
                let nk = nvs[order[k] as int].name@;
                assert(goes_before(nvs, order[k], order[last]));
                if name_lt(x, nk) {
                    if name_lt(nk, nl) {
                        lemma_lt_transitive(x, nk, nl);
                    }
                }
                assert(o[k] == order[k]);
            }
        } else {
            assert forall|k: int| 0 <= k < last implies (k < count_not_after(nvs, o, x) <==> !name_lt(
                x,
                #[trigger] nvs[order[k] as int].name@,
            )) by {
                assert(o[k] == order[k]);
            }
        }
        assert forall|k: int| 0 <= k < order.len() implies (k < count_not_after(nvs, order, x) <==> !name_lt(
            x,
            #[trigger] nvs[order[k] as int].name@,
        )) by {
            if k < last {
                assert(o[k] == order[k]);
            }
        }
    }
}

/// The display order lists every position exactly once, sorted by name,
/// with pairs of equal names in their original order.
pub proof fn lemma_sort_order_sorted(nvs: Seq<NameValue>, n: nat)
    requires
        n <= nvs.len(),
        nvs.len() <= usize::MAX,
    ensures
        sort_order(nvs, n).len() == n,
        ordered(nvs, sort_order(nvs, n), n),
    decreases n,
{
    if n > 0 {
        let m = (n - 1) as nat;
        lemma_sort_order_sorted(nvs, m);
        let o = sort_order(nvs, m);
        let x = nvs[m as int].name@;
        let c = count_not_after(nvs, o, x) as int;
        lemma_count_bounded(nvs, o, x);
        lemma_count_splits(nvs, o, m, x);
        let r = o.insert(c, m as usize);
        assert(r == sort_order(nvs, n));
        assert forall|k: int| 0 <= k < r.len() implies r[k] < n by {
            if k < c {
                assert(r[k] == o[k]);
            } else if k > c {
                assert(r[k] == o[k - 1]);
            }
        }
        assert forall|j: int, k: int| 0 <= j < k < r.len() implies #[trigger] goes_before(nvs, r[j], r[k])
            && #[trigger] r[j] != r[k] by {
            let oj = if j < c { j } else { j - 1 };
            let ok = if k < c { k } else { k - 1 };
            if j != c && k != c {
                assert(r[j] == o[oj]);
                assert(r[k] == o[ok]);
                assert(goes_before(nvs, o[oj], o[ok]));
                assert(o[oj] != o[ok]);
            } else if j == c {
                assert(r[j] == m);
                assert(r[k] == o[k - 1]);
                let nk = nvs[o[k - 1] as int].name@;
                assert(name_lt(x, nk));
            } else {
                assert(r[k] == m);
                assert(r[j] == o[j]);
                let nj = nvs[o[j] as int].name@;
                assert(!name_lt(x, nj));
                lemma_lt_total(x, nj);
            }
        }
    }
}

/// The positions named by `order` whose names are not excluded, in that order.
pub open spec fn shown_positions(
    nvs: Seq<NameValue>,
    order: Seq<usize>,
    excludes: Option<Seq<Seq<char>>>,
) -> Seq<usize>
    decreases order.len(),
{
    if order.len() == 0 {
        Seq::empty()
    } else {
        let rest = shown_positions(nvs, order.drop_last(), excludes);
        if is_excluded(nvs[order.last() as int].name@, excludes) {
            rest
        } else {
            rest.push(order.last())
        }
    }
}

proof fn lemma_shown_positions(
    nvs: Seq<NameValue>,
    order: Seq<usize>,
    excludes: Option<Seq<Seq<char>>>,
    n: nat,
)
    requires
        ordered(nvs, order, n),
    ensures
        shown_pairs(nvs, order, excludes) == shown_positions(nvs, order, excludes).map_values(
            |i: usize| nvs[i as int],
        ),
        ordered(nvs, shown_positions(nvs, order, excludes), n),
        forall|m: int|
            0 <= m < shown_positions(nvs, order, excludes).len() ==> exists|k: int|
                0 <= k < order.len() && order[k] == #[trigger] shown_positions(nvs, order, excludes)[m],
        forall|k: int|
            0 <= k < order.len() && !is_excluded(nvs[order[k] as int].name@, excludes)
                ==> shown_positions(nvs, order, excludes).contains(#[trigger] order[k]),
    decreases order.len(),
{
    if order.len() > 0 {
        let o = order.drop_last();
        assert forall|j: int, k: int| 0 <= j < k < o.len() implies #[trigger] goes_before(nvs, o[j], o[k])
            && #[trigger] o[j] != o[k] by {
            assert(goes_before(nvs, order[j], order[k]));
            assert(order[j] != order[k]);
        }
        lemma_shown_positions(nvs, o, excludes, n);
        let rest = shown_positions(nvs, o, excludes);
        let last = order.last();
        let sp = shown_positions(nvs, order, excludes);
        assert forall|m: int| 0 <= m < rest.len() implies exists|k: int|
            0 <= k < order.len() && order[k] == #[trigger] rest[m] by {
            let k = choose|k: int| 0 <= k < o.len() && o[k] == rest[m];
            assert(order[k] == rest[m]);
        }
        if !is_excluded(nvs[last as int].name@, excludes) {
            assert(shown_pairs(nvs, order, excludes) =~= sp.map_values(|i: usize| nvs[i as int]));
            assert forall|j: int, k: int| 0 <= j < k < sp.len() implies #[trigger] goes_before(nvs, sp[j], sp[k])
                && #[trigger] sp[j] != sp[k] by {
                if k < rest.len() {
                    assert(sp[j] == rest[j] && sp[k] == rest[k]);
                } else {
                    assert(sp[j] == rest[j]);
                    let kk = choose|kk: int| 0 <= kk < o.len() && o[kk] == rest[j];
                    assert(goes_before(nvs, order[kk], order[order.len() - 1]));
                    assert(order[kk] != order[order.len() - 1]);
                }
            }
            assert forall|m: int| 0 <= m < sp.len() implies exists|k: int|
                0 <= k < order.len() && order[k] == #[trigger] sp[m] by {
                if m < rest.len() {
                    assert(sp[m] == rest[m]);
                } else {
                    assert(order[order.len() - 1] == sp[m]);
                }
            }
            assert forall|k: int| 0 <= k < order.len() && !is_excluded(nvs[order[k] as int].name@, excludes)
                implies sp.contains(#[trigger] order[k]) by {
                if k < o.len() {
                    assert(o[k] == order[k]);
                    let m = choose|m: int| 0 <= m < rest.len() && rest[m] == o[k];
                    assert(sp[m] == rest[m]);
                } else {
                    assert(sp[sp.len() - 1] == order[k]);
                }
            }
        } else {
            assert forall|k: int| 0 <= k < order.len() && !is_excluded(nvs[order[k] as int].name@, excludes)
                implies sp.contains(#[trigger] order[k]) by {
                assert(k < o.len());
                assert(o[k] == order[k]);
            }
        }
    }
}

proof fn lemma_sort_order_complete(nvs: Seq<NameValue>, n: nat)
    requires
        n <= nvs.len(),
        nvs.len() <= usize::MAX,
    ensures
        forall|i: usize| i < n ==> #[trigger] sort_order(nvs, n).contains(i),
    decreases n,
{
    if n > 0 {
        let m = (n - 1) as nat;
        lemma_sort_order_complete(nvs, m);
        let o = sort_order(nvs, m);
        let x = nvs[m as int].name@;
        let c = count_not_after(nvs, o, x) as int;
        lemma_count_bounded(nvs, o, x);
        let r = o.insert(c, m as usize);
        assert forall|i: usize| i < n implies #[trigger] r.contains(i) by {
            if i == m {
                assert(r[c] == m as usize);
            } else {
                assert(o.contains(i));
                let k = choose|k: int| 0 <= k < o.len() && o[k] == i;
                if k < c {
                    assert(r[k] == o[k]);
                } else {
                    assert(r[k + 1] == o[k]);
                }
            }
        }
    }
}

/// A listing shows exactly the pairs whose names are not excluded, each
/// once: `shown` lists their positions without repeats, sorted by name with
/// equal names in their original order, and the listing is their lines.
pub proof fn lemma_listing_exact(nvs: Seq<NameValue>, excludes: Option<Seq<Seq<char>>>)
    requires
        nvs.len() <= usize::MAX,
    ensures
        ({
            let shown = shown_positions(nvs, sort_order(nvs, nvs.len()), excludes);
            &&& listing(nvs, excludes) == shown.map_values(|i: usize| pair_line(nvs[i as int]))
            &&& ordered(nvs, shown, nvs.len())
            &&& forall|i: usize|
                i < nvs.len() ==> (#[trigger] shown.contains(i) <==> !is_excluded(nvs[i as int].name@, excludes))
        }),
{
    let n = nvs.len();
    let o = sort_order(nvs, n);
    lemma_sort_order_sorted(nvs, n);
    lemma_sort_order_complete(nvs, n);
    lemma_shown_positions(nvs, o, excludes, n);
    let shown = shown_positions(nvs, o, excludes);
    assert(listing(nvs, excludes) =~= shown.map_values(|i: usize| pair_line(nvs[i as int])));
    assert forall|i: usize| i < n implies (#[trigger] shown.contains(i) <==> !is_excluded(nvs[i as int].name@, excludes)) by {
        assert(o.contains(i));
        let k = choose|k: int| 0 <= k < o.len() && o[k] == i;
        if shown.contains(i) {
            lemma_shown_excluded_absent(nvs, o, excludes, i);
        }
    }
}

proof fn lemma_shown_excluded_absent(
    nvs: Seq<NameValue>,
    order: Seq<usize>,
    excludes: Option<Seq<Seq<char>>>,
    i: usize,
)
    requires
        shown_positions(nvs, order, excludes).contains(i),
    ensures
        !is_excluded(nvs[i as int].name@, excludes),
    decreases order.len(),
{
    if order.len() > 0 {
        let rest = shown_positions(nvs, order.drop_last(), excludes);
        if rest.contains(i) {
            lemma_shown_excluded_absent(nvs, order.drop_last(), excludes, i);
        } else {
            let sp = shown_positions(nvs, order, excludes);
            let m = choose|m: int| 0 <= m < sp.len() && sp[m] == i;
            if !is_excluded(nvs[order.last() as int].name@, excludes) {
                if m < rest.len() {
                    assert(sp[m] == rest[m]);
                }
            }
        }
    }
}

} // verus!

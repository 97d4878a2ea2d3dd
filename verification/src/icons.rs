//! The distinct icons of a workspace's windows, in the order of their paths.
//! A path is held as its components, each written as a tag byte (0 for the
//! root, 1 for `.`, 2 for `..`, 3 for a name) followed by the name's bytes;
//! paths are ordered component by component, and components byte by byte.
use vstd::prelude::*;

verus! {

/// Byte strings in dictionary order (a proper prefix comes first).
pub open spec fn bytes_lt(a: Seq<u8>, b: Seq<u8>) -> bool
    decreases a.len(),
{
    if a.len() == 0 {
        b.len() > 0
    } else if b.len() == 0 {
        false
    } else if a[0] < b[0] {
        true
    } else if a[0] > b[0] {
        false
    } else {
        bytes_lt(a.drop_first(), b.drop_first())
    }
}

/// Paths in dictionary order of their components.
pub open spec fn path_lt(a: Seq<Seq<u8>>, b: Seq<Seq<u8>>) -> bool
    decreases a.len(),
{
    if a.len() == 0 {
        b.len() > 0
    } else if b.len() == 0 {
        false
    } else if bytes_lt(a[0], b[0]) {
        true
    } else if a[0] == b[0] {
        path_lt(a.drop_first(), b.drop_first())
    } else {
        false
    }
}

proof fn lemma_bytes_irreflexive(a: Seq<u8>)
    ensures
        !bytes_lt(a, a),
    decreases a.len(),
{
    if a.len() > 0 {
        lemma_bytes_irreflexive(a.drop_first());
    }
}

proof fn lemma_bytes_transitive(a: Seq<u8>, b: Seq<u8>, c: Seq<u8>)
    requires
        bytes_lt(a, b),
        bytes_lt(b, c),
    ensures
        bytes_lt(a, c),
    decreases a.len(),
{
    if a.len() > 0 && a[0] == b[0] && b[0] == c[0] {
        lemma_bytes_transitive(a.drop_first(), b.drop_first(), c.drop_first());
    }
}

proof fn lemma_bytes_total(a: Seq<u8>, b: Seq<u8>)
    requires
        a != b,
    ensures
        bytes_lt(a, b) || bytes_lt(b, a),
    decreases a.len(),
{
    if a.len() == 0 {
        if b.len() == 0 {
            assert(a =~= b);
        }
    } else if b.len() > 0 && a[0] == b[0] {
        if a.drop_first() == b.drop_first() {
            assert(a =~= seq![a[0]] + a.drop_first());
            assert(b =~= seq![b[0]] + b.drop_first());
        }
        lemma_bytes_total(a.drop_first(), b.drop_first());
    }
}

proof fn lemma_path_irreflexive(a: Seq<Seq<u8>>)
    ensures
        !path_lt(a, a),
    decreases a.len(),
{
    if a.len() > 0 {
        lemma_bytes_irreflexive(a[0]);
        lemma_path_irreflexive(a.drop_first());
    }
}

proof fn lemma_path_transitive(a: Seq<Seq<u8>>, b: Seq<Seq<u8>>, c: Seq<Seq<u8>>)
    requires
        path_lt(a, b),
        path_lt(b, c),
    ensures
        path_lt(a, c),
    decreases a.len(),
{
    if a.len() > 0 {
        if bytes_lt(a[0], b[0]) && bytes_lt(b[0], c[0]) {
            lemma_bytes_transitive(a[0], b[0], c[0]);
        } else if a[0] == b[0] && b[0] == c[0] {
            lemma_path_transitive(a.drop_first(), b.drop_first(), c.drop_first());
        }
    }
}

proof fn lemma_path_total(a: Seq<Seq<u8>>, b: Seq<Seq<u8>>)
    requires
        a != b,
    ensures
        path_lt(a, b) || path_lt(b, a),
    decreases a.len(),
{
    if a.len() == 0 {
        if b.len() == 0 {
            assert(a =~= b);
        }
    } else if b.len() > 0 {
        if a[0] == b[0] {
            if a.drop_first() == b.drop_first() {
                assert(a =~= seq![a[0]] + a.drop_first());
                assert(b =~= seq![b[0]] + b.drop_first());
            }
            lemma_path_total(a.drop_first(), b.drop_first());
        } else {
            lemma_bytes_total(a[0], b[0]);
        }
    }
}

/// The order of paths is a strict total order: no path precedes itself, it
/// is transitive, and of two different paths one precedes the other.
pub proof fn law_path_order_is_total(a: Seq<Seq<u8>>, b: Seq<Seq<u8>>, c: Seq<Seq<u8>>)
    ensures
        !path_lt(a, a),
        path_lt(a, b) && path_lt(b, c) ==> path_lt(a, c),
        a != b ==> path_lt(a, b) || path_lt(b, a),
{
    lemma_path_irreflexive(a);
    if path_lt(a, b) && path_lt(b, c) {
        lemma_path_transitive(a, b, c);
    }
    if a != b {
        lemma_path_total(a, b);
    }
}

/// Paths are in dictionary order of components: a path precedes every
/// longer path that begins with it, and otherwise the first component where
/// two paths differ decides.
pub proof fn law_path_order_is_dictionary_order(a: Seq<Seq<u8>>, b: Seq<Seq<u8>>, i: int)
    requires
        0 <= i <= a.len(),
        i <= b.len(),
        forall|j: int| 0 <= j < i ==> a[j] == b[j],
    ensures
        i == a.len() && i < b.len() ==> path_lt(a, b),
        i < a.len() && i < b.len() && bytes_lt(a[i], b[i]) ==> path_lt(a, b),
{
    lemma_path_skip(a, b, i);
    if i < a.len() && i < b.len() {
        assert(a.skip(i)[0] == a[i]);
        assert(b.skip(i)[0] == b[i]);
    }
}

/// Components are in dictionary order of bytes: a component precedes every
/// longer one that begins with it, and otherwise the first byte where two
/// components differ decides.
pub proof fn law_byte_order_is_dictionary_order(x: Seq<u8>, y: Seq<u8>, k: int)
    requires
        0 <= k <= x.len(),
        k <= y.len(),
        forall|j: int| 0 <= j < k ==> x[j] == y[j],
    ensures
        k == x.len() && k < y.len() ==> bytes_lt(x, y),
        k < x.len() && k < y.len() && x[k] < y[k] ==> bytes_lt(x, y),
{
    lemma_bytes_skip(x, y, k);
    if k < x.len() && k < y.len() {
        assert(x.skip(k)[0] == x[k]);
        assert(y.skip(k)[0] == y[k]);
    }
}

/// An icon with the path it was read from.
pub struct PathIcon<T> {
    /// The path's components, tagged as described above.
    pub path: Vec<Vec<u8>>,
    pub icon: T,
}

/// A path held as components, as a value.
pub open spec fn path_view(path: Vec<Vec<u8>>) -> Seq<Seq<u8>> {
    path@.map_values(|c: Vec<u8>| c@)
}

/// The paths of icons.
pub open spec fn paths_of<T>(icons: Seq<PathIcon<T>>) -> Seq<Seq<Seq<u8>>> {
    icons.map_values(|i: PathIcon<T>| path_view(i.path))
}

/// Each path precedes every later one.
pub open spec fn strictly_sorted(paths: Seq<Seq<Seq<u8>>>) -> bool {
    forall|i: int, j: int| 0 <= i < j < paths.len() ==> path_lt(paths[i], paths[j])
}

/// `out` holds each path of `input` once, in order.
pub open spec fn sorted_distinct_of(out: Seq<Seq<Seq<u8>>>, input: Seq<Seq<Seq<u8>>>) -> bool {
    &&& strictly_sorted(out)
    &&& forall|x: Seq<Seq<u8>>| out.contains(x) ==> input.contains(x)
    &&& forall|x: Seq<Seq<u8>>| input.contains(x) ==> out.contains(x)
}

/// Where one value stands in an order relative to another.
#[derive(Clone, Copy, Debug, PartialEq, Eq, Structural)]
pub enum Precedes {
    Before,
    Same,
    After,
}

proof fn lemma_bytes_skip(a: Seq<u8>, b: Seq<u8>, i: int)
    requires
        0 <= i <= a.len(),
        i <= b.len(),
        forall|j: int| 0 <= j < i ==> a[j] == b[j],
    ensures
        bytes_lt(a, b) == bytes_lt(a.skip(i), b.skip(i)),
    decreases i,
{
    if i > 0 {
        assert(a[0] == b[0]);
        lemma_bytes_skip(a.drop_first(), b.drop_first(), i - 1);
        assert(a.drop_first().skip(i - 1) =~= a.skip(i));
        assert(b.drop_first().skip(i - 1) =~= b.skip(i));
    } else {
        assert(a.skip(0) =~= a);
        assert(b.skip(0) =~= b);
    }
}

proof fn lemma_path_skip(a: Seq<Seq<u8>>, b: Seq<Seq<u8>>, i: int)
    requires
        0 <= i <= a.len(),
        i <= b.len(),
        forall|j: int| 0 <= j < i ==> a[j] == b[j],
    ensures
        path_lt(a, b) == path_lt(a.skip(i), b.skip(i)),
    decreases i,
{
    if i > 0 {
        assert(a[0] == b[0]);
        lemma_bytes_irreflexive(a[0]);
        lemma_path_skip(a.drop_first(), b.drop_first(), i - 1);
        assert(a.drop_first().skip(i - 1) =~= a.skip(i));
        assert(b.drop_first().skip(i - 1) =~= b.skip(i));
    } else {
        assert(a.skip(0) =~= a);
        assert(b.skip(0) =~= b);
    }
}

/// Compares two byte strings in dictionary order.
fn compare_bytes(a: &Vec<u8>, b: &Vec<u8>) -> (r: Precedes)
    ensures
        r == Precedes::Before ==> bytes_lt(a@, b@),
        r == Precedes::Same ==> a@ == b@,
        r == Precedes::After ==> bytes_lt(b@, a@),
{
    let mut i: usize = 0;
    while i < a.len() && i < b.len()
        invariant
            i <= a@.len(),
            i <= b@.len(),
            forall|j: int| 0 <= j < i ==> a@[j] == b@[j],
        decreases a@.len() - i,
    {
        if a[i] < b[i] {
            proof {
                lemma_bytes_skip(a@, b@, i as int);
                assert(a@.skip(i as int)[0] == a@[i as int]);
                assert(b@.skip(i as int)[0] == b@[i as int]);
            }
            return Precedes::Before;
        } else if a[i] > b[i] {
            proof {
                lemma_bytes_skip(b@, a@, i as int);
                assert(a@.skip(i as int)[0] == a@[i as int]);
                assert(b@.skip(i as int)[0] == b@[i as int]);
            }
            return Precedes::After;
        }
        i = i + 1;
    }
    proof {
        lemma_bytes_skip(a@, b@, i as int);
        lemma_bytes_skip(b@, a@, i as int);
    }
    if i == a.len() && i == b.len() {
        assert(a@ =~= b@);
        Precedes::Same
    } else if i == a.len() {
        Precedes::Before
    } else {
        Precedes::After
    }
}

/// Compares two paths in dictionary order of their components.
fn compare_paths(a: &Vec<Vec<u8>>, b: &Vec<Vec<u8>>) -> (r: Precedes)
    ensures
        r == Precedes::Before ==> path_lt(path_view(*a), path_view(*b)),
        r == Precedes::Same ==> path_view(*a) == path_view(*b),
        r == Precedes::After ==> path_lt(path_view(*b), path_view(*a)),
{
    let ghost va = path_view(*a);
    let ghost vb = path_view(*b);
    let mut i: usize = 0;
    while i < a.len() && i < b.len()
        invariant
            va == path_view(*a),
            vb == path_view(*b),
            i <= a@.len(),
            i <= b@.len(),
            forall|j: int| 0 <= j < i ==> va[j] == vb[j],
        decreases a@.len() - i,
    {
        assert(va[i as int] == a@[i as int]@);
        assert(vb[i as int] == b@[i as int]@);
        match compare_bytes(&a[i], &b[i]) {
            Precedes::Before => {
                proof {
                    lemma_path_skip(va, vb, i as int);
                    assert(va.skip(i as int)[0] == va[i as int]);
                    assert(vb.skip(i as int)[0] == vb[i as int]);
                }
                return Precedes::Before;
            },
            Precedes::After => {
                proof {
                    lemma_path_skip(vb, va, i as int);
                    assert(va.skip(i as int)[0] == va[i as int]);
                    assert(vb.skip(i as int)[0] == vb[i as int]);
                    lemma_bytes_irreflexive(vb[i as int]);
                    lemma_bytes_irreflexive(va[i as int]);
                    if va[i as int] == vb[i as int] {
                        assert(false);
                    }
                }
                return Precedes::After;
            },
            Precedes::Same => {},
        }
        i = i + 1;
    }
    proof {
        lemma_path_skip(va, vb, i as int);
        lemma_path_skip(vb, va, i as int);
    }
    if i == a.len() && i == b.len() {
        assert(va =~= vb);
        Precedes::Same
    } else if i == a.len() {
        Precedes::Before
    } else {
        Precedes::After
    }
}

/// The distinct icons, ordered by their paths: each path of `icons` once,
/// with an icon read from that path (of several icons with one path, which
/// one stays is left open).
pub fn distinct_icons<T>(icons: Vec<PathIcon<T>>) -> (out: Vec<PathIcon<T>>)
    ensures
        sorted_distinct_of(paths_of(out@), paths_of(icons@)),
        forall|i: int| 0 <= i < out@.len() ==> icons@.contains(#[trigger] out@[i]),
{
    let ghost input = icons@;
    let ghost keys = paths_of(icons@);
    let total_len = icons.len();
    let mut rest = icons;
    let mut out: Vec<PathIcon<T>> = Vec::new();
    let mut done: usize = 0;
    while rest.len() > 0
        invariant
            total_len == input.len(),
            keys == paths_of(input),
            done + rest@.len() == total_len,
            rest@ == input.skip(done as int),
            strictly_sorted(paths_of(out@)),
            forall|x: Seq<Seq<u8>>| paths_of(out@).contains(x) ==> keys.take(done as int).contains(x),
            forall|x: Seq<Seq<u8>>| keys.take(done as int).contains(x) ==> paths_of(out@).contains(x),
            forall|i: int| 0 <= i < out@.len() ==> input.contains(#[trigger] out@[i]),
        decreases rest@.len(),
    {
        let item = rest.remove(0);
        let ghost k = path_view(item.path);
        assert(input[done as int] == item);
        assert(keys[done as int] == k);
        let ghost next = keys.take(done + 1);
        let ghost prev = keys.take(done as int);
        assert(next =~= prev.push(k));
        let ghost before = out@;
        let mut m: usize = 0;
        let mut at_place = false;
        let mut duplicate = false;
        while m < out.len() && !at_place && !duplicate
            invariant
                out@ == before,
                k == path_view(item.path),
                m <= out@.len(),
                forall|q: int| 0 <= q < m ==> path_lt(#[trigger] paths_of(out@)[q], k),
                at_place ==> m < out@.len() && path_lt(k, paths_of(out@)[m as int]),
                duplicate ==> m < out@.len() && paths_of(out@)[m as int] == k,
            decreases out@.len() - m + (if at_place || duplicate { 0int } else { 1int }),
        {
            assert(paths_of(out@)[m as int] == path_view(out@[m as int].path));
            match compare_paths(&item.path, &out[m].path) {
                Precedes::Before => {
                    at_place = true;
                },
                Precedes::Same => {
                    duplicate = true;
                },
                Precedes::After => {
                    m = m + 1;
                },
            }
        }
        let ghost old_keys = paths_of(before);
        assert(forall|x: Seq<Seq<u8>>| old_keys.contains(x) ==> prev.contains(x));
        assert(forall|x: Seq<Seq<u8>>| prev.contains(x) ==> old_keys.contains(x));
        if duplicate {
            assert(old_keys[m as int] == k);
            assert(old_keys.contains(k));
            assert forall|x: Seq<Seq<u8>>| next.contains(x) implies paths_of(out@).contains(
                x,
            ) by {
                if x == k {
                    assert(paths_of(out@)[m as int] == k);
                } else {
                    let j = choose|j: int| 0 <= j < next.len() && next[j] == x;
                    assert(prev[j] == x);
                }
            }
        } else {
            proof {
                assert(input.contains(item));
            }
            out.insert(m, item);
            let ghost new_keys = paths_of(out@);
            assert(new_keys =~= old_keys.insert(m as int, k));
            assert forall|i: int, j: int| 0 <= i < j < new_keys.len() implies path_lt(
                new_keys[i],
                new_keys[j],
            ) by {
                if j < m {
                    assert(new_keys[i] == old_keys[i] && new_keys[j] == old_keys[j]);
                } else if j == m {
                    assert(new_keys[i] == old_keys[i]);
                } else if i == m {
                    assert(new_keys[j] == old_keys[j - 1]);
                    if j - 1 > m {
                        lemma_path_transitive(k, old_keys[m as int], old_keys[j - 1]);
                    }
                } else if i < m {
                    assert(new_keys[i] == old_keys[i]);
                    assert(new_keys[j] == old_keys[j - 1]);
                } else {
                    assert(new_keys[i] == old_keys[i - 1]);
                    assert(new_keys[j] == old_keys[j - 1]);
                }
            }
            assert forall|x: Seq<Seq<u8>>| new_keys.contains(x) implies next.contains(x) by {
                let j = choose|j: int| 0 <= j < new_keys.len() && new_keys[j] == x;
                if j != m {
                    let oj = if j < m { j } else { j - 1 };
                    assert(old_keys[oj] == x);
                    assert(old_keys.contains(x));
                    let t = choose|t: int| 0 <= t < prev.len() && prev[t] == x;
                    assert(next[t] == x);
                } else {
                    assert(next[done as int] == k);
                }
            }
            assert forall|x: Seq<Seq<u8>>| next.contains(x) implies new_keys.contains(x) by {
                if x == k {
                    assert(new_keys[m as int] == k);
                } else {
                    let j = choose|j: int| 0 <= j < next.len() && next[j] == x;
                    assert(prev[j] == x);
                    assert(old_keys.contains(x));
                    let t = choose|t: int| 0 <= t < old_keys.len() && old_keys[t] == x;
                    let nt = if t < m { t } else { t + 1 };
                    assert(new_keys[nt] == x);
                }
            }
            assert forall|i: int| 0 <= i < out@.len() implies input.contains(#[trigger] out@[i]) by {
                if i < m {
                    assert(out@[i] == before[i]);
                } else if i > m {
                    assert(out@[i] == before[i - 1]);
                }
            }
        }
        assert(rest@ =~= input.skip(done + 1));
        done = done + 1;
    }
    assert(keys.take(total_len as int) =~= keys);
    out
}

/// Two strictly sorted lists of paths with the same members are the same.
proof fn lemma_sorted_unique(a: Seq<Seq<Seq<u8>>>, b: Seq<Seq<Seq<u8>>>)
    requires
        strictly_sorted(a),
        strictly_sorted(b),
        forall|x: Seq<Seq<u8>>| a.contains(x) <==> b.contains(x),
    ensures
        a == b,
    decreases a.len(),
{
    if a.len() == 0 {
        if b.len() > 0 {
            assert(b.contains(b[0]));
        }
        assert(a =~= b);
    } else {
        assert(a.contains(a[0]));
        assert(b.len() > 0);
        assert(b.contains(b[0]));
        if a[0] != b[0] {
            let k = choose|k: int| 0 <= k < b.len() && b[k] == a[0];
            let l = choose|l: int| 0 <= l < a.len() && a[l] == b[0];
            assert(path_lt(b[0], a[0]));
            assert(path_lt(a[0], b[0]));
            lemma_path_transitive(a[0], b[0], a[0]);
            lemma_path_irreflexive(a[0]);
        }
        let a1 = a.drop_first();
        let b1 = b.drop_first();
        assert forall|x: Seq<Seq<u8>>| a1.contains(x) <==> b1.contains(x) by {
            if a1.contains(x) {
                let j = choose|j: int| 0 <= j < a1.len() && a1[j] == x;
                assert(a[j + 1] == x);
                assert(path_lt(a[0], x));
                lemma_path_irreflexive(x);
                assert(b.contains(x));
                let t = choose|t: int| 0 <= t < b.len() && b[t] == x;
                assert(t != 0);
                assert(b1[t - 1] == x);
            }
            if b1.contains(x) {
                let j = choose|j: int| 0 <= j < b1.len() && b1[j] == x;
                assert(b[j + 1] == x);
                assert(path_lt(b[0], x));
                lemma_path_irreflexive(x);
                assert(a.contains(x));
                let t = choose|t: int| 0 <= t < a.len() && a[t] == x;
                assert(t != 0);
                assert(a1[t - 1] == x);
            }
        }
        lemma_sorted_unique(a1, b1);
        assert forall|i: int| 0 <= i < a.len() implies a[i] == b[i] by {
            if i > 0 {
                assert(a[i] == a1[i - 1]);
                assert(b[i] == b1[i - 1]);
            }
        }
        assert(a =~= b);
    }
}

/// The icons shown depend only on which paths were read, not on their order
/// or how often each was read: two lists with the same paths give the same
/// paths, in the same order.
pub proof fn law_icons_depend_on_paths_only(
    out1: Seq<Seq<Seq<u8>>>,
    in1: Seq<Seq<Seq<u8>>>,
    out2: Seq<Seq<Seq<u8>>>,
    in2: Seq<Seq<Seq<u8>>>,
)
    requires
        sorted_distinct_of(out1, in1),
        sorted_distinct_of(out2, in2),
        forall|x: Seq<Seq<u8>>| in1.contains(x) <==> in2.contains(x),
    ensures
        out1 == out2,
{
    lemma_sorted_unique(out1, out2);
}

} // verus!

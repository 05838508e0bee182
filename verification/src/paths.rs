//! Script paths: their order (the order of `Path` values), which of them are
//! JavaScript files, and sorting.
use vstd::prelude::*;
use vstd::relations::*;
use vstd::multiset::Multiset;
use crate::text::{char_vec, same_text, string_views, joined, join, push_char};

verus! {

/// Code-point order of characters, which for UTF-8 text is the byte order
/// in which `OsStr` values compare.
pub open spec fn char_order() -> spec_fn(char, char) -> bool {
    |x: char, y: char| (x as int) <= (y as int)
}

/// Lexicographic order of sequences, element by element under `le`; a
/// proper prefix comes first.
pub open spec fn lex_le<T>(a: Seq<T>, b: Seq<T>, le: spec_fn(T, T) -> bool) -> bool
    decreases a.len(),
{
    if a.len() == 0 {
        true
    } else if b.len() == 0 {
        false
    } else if a[0] != b[0] {
        le(a[0], b[0])
    } else {
        lex_le(a.drop_first(), b.drop_first(), le)
    }
}

/// Order of path components.
pub open spec fn text_le(a: Seq<char>, b: Seq<char>) -> bool {
    lex_le(a, b, char_order())
}

pub open spec fn text_order() -> spec_fn(Seq<char>, Seq<char>) -> bool {
    |x: Seq<char>, y: Seq<char>| text_le(x, y)
}

/// Order of paths, component by component, as `Path` values compare.
pub open spec fn path_le(a: Seq<Seq<char>>, b: Seq<Seq<char>>) -> bool {
    lex_le(a, b, text_order())
}

pub open spec fn path_order() -> spec_fn(Seq<Seq<char>>, Seq<Seq<char>>) -> bool {
    |x: Seq<Seq<char>>, y: Seq<Seq<char>>| path_le(x, y)
}

/// A path given by its components.
pub open spec fn path_view(p: Vec<String>) -> Seq<Seq<char>> {
    string_views(p@)
}

/// `paths` is in ascending path order.
pub open spec fn paths_sorted(paths: Seq<Vec<String>>) -> bool {
    forall|i: int, j: int|
        0 <= i < j < paths.len() ==> path_le(path_view(#[trigger] paths[i]), path_view(
            #[trigger] paths[j],
        ))
}

proof fn lemma_lex_reflexive<T>(a: Seq<T>, le: spec_fn(T, T) -> bool)
    ensures
        lex_le(a, a, le),
    decreases a.len(),
{
    if a.len() > 0 {
        lemma_lex_reflexive(a.drop_first(), le);
    }
}

proof fn lemma_lex_antisymmetric<T>(a: Seq<T>, b: Seq<T>, le: spec_fn(T, T) -> bool)
    requires
        antisymmetric(le),
        lex_le(a, b, le),
        lex_le(b, a, le),
    ensures
        a == b,
    decreases a.len(),
{
    if a.len() == 0 {
        assert(b.len() == 0);
        assert(a =~= b);
    } else {
        assert(b.len() > 0);
        if a[0] != b[0] {
            assert(le(a[0], b[0]) && le(b[0], a[0]));
        } else {
            lemma_lex_antisymmetric(a.drop_first(), b.drop_first(), le);
            assert(a =~= seq![a[0]] + a.drop_first());
            assert(b =~= seq![b[0]] + b.drop_first());
        }
    }
}

proof fn lemma_lex_transitive<T>(a: Seq<T>, b: Seq<T>, c: Seq<T>, le: spec_fn(T, T) -> bool)
    requires
        antisymmetric(le),
        transitive(le),
        lex_le(a, b, le),
        lex_le(b, c, le),
    ensures
        lex_le(a, c, le),
    decreases a.len(),
{
    if a.len() > 0 {
        assert(b.len() > 0);
        assert(c.len() > 0);
        if a[0] != b[0] {
            if b[0] != c[0] {
                assert(le(a[0], b[0]) && le(b[0], c[0]));
                assert(le(a[0], c[0]));
                if a[0] == c[0] {
                    assert(le(b[0], a[0]));
                }
            }
        } else if b[0] != c[0] {
        } else {
            lemma_lex_transitive(a.drop_first(), b.drop_first(), c.drop_first(), le);
        }
    }
}

proof fn lemma_lex_total<T>(a: Seq<T>, b: Seq<T>, le: spec_fn(T, T) -> bool)
    requires
        strongly_connected(le),
    ensures
        lex_le(a, b, le) || lex_le(b, a, le),
    decreases a.len(),
{
    if a.len() > 0 && b.len() > 0 {
        if a[0] != b[0] {
            assert(le(a[0], b[0]) || le(b[0], a[0]));
        } else {
            lemma_lex_total(a.drop_first(), b.drop_first(), le);
        }
    }
}

/// The lexicographic extension of a total order is a total order.
pub proof fn lemma_lex_total_ordering<T>(le: spec_fn(T, T) -> bool)
    requires
        total_ordering(le),
    ensures
        total_ordering(|x: Seq<T>, y: Seq<T>| lex_le(x, y, le)),
{
    let r = |x: Seq<T>, y: Seq<T>| lex_le(x, y, le);
    assert forall|x: Seq<T>| #[trigger] r(x, x) by {
        lemma_lex_reflexive(x, le);
    }
    assert forall|x: Seq<T>, y: Seq<T>| #[trigger] r(x, y) && #[trigger] r(y, x) implies x == y by {
        lemma_lex_antisymmetric(x, y, le);
    }
    assert forall|x: Seq<T>, y: Seq<T>, z: Seq<T>| #[trigger] r(x, y) && #[trigger] r(y, z) implies r(
        x,
        z,
    ) by {
        lemma_lex_transitive(x, y, z, le);
    }
    assert forall|x: Seq<T>, y: Seq<T>| #[trigger] r(x, y) || #[trigger] r(y, x) by {
        lemma_lex_total(x, y, le);
    }
}

/// Law: paths are totally ordered: the order is reflexive, antisymmetric,
/// transitive and relates any two paths.
pub proof fn lemma_path_order_total()
    ensures
        total_ordering(text_order()),
        total_ordering(path_order()),
{
    let c = char_order();
    assert(total_ordering(c)) by {
        assert forall|x: char, y: char| #[trigger] c(x, y) && #[trigger] c(y, x) implies x == y by {
            assert((x as int) == (y as int));
        }
    }
    lemma_lex_total_ordering(c);
    assert(text_order() =~= (|x: Seq<char>, y: Seq<char>| lex_le(x, y, c)));
    lemma_lex_total_ordering(text_order());
    assert(path_order() =~= (|x: Seq<Seq<char>>, y: Seq<Seq<char>>| lex_le(x, y, text_order())));
}

proof fn lemma_path_le_facts()
    ensures
        forall|a: Seq<Seq<char>>| #[trigger] path_le(a, a),
        forall|a: Seq<Seq<char>>, b: Seq<Seq<char>>|
            #[trigger] path_le(a, b) || #[trigger] path_le(b, a),
        forall|a: Seq<Seq<char>>, b: Seq<Seq<char>>, c: Seq<Seq<char>>|
            #[trigger] path_le(a, b) && #[trigger] path_le(b, c) ==> path_le(a, c),
{
    lemma_path_order_total();
    let r = path_order();
    assert forall|a: Seq<Seq<char>>| #[trigger] path_le(a, a) by {
        assert(r(a, a));
    }
    assert forall|a: Seq<Seq<char>>, b: Seq<Seq<char>>|
        #[trigger] path_le(a, b) || #[trigger] path_le(b, a) by {
        assert(r(a, b) || r(b, a));
    }
    assert forall|a: Seq<Seq<char>>, b: Seq<Seq<char>>, c: Seq<Seq<char>>|
        #[trigger] path_le(a, b) && #[trigger] path_le(b, c) implies path_le(a, c) by {
        assert(r(a, b) && r(b, c) ==> r(a, c));
    }
}

/// Whether component `a` comes no later than component `b`.
fn text_le_exec(a: &Vec<char>, b: &Vec<char>) -> (r: bool)
    ensures
        r == text_le(a@, b@),
{
    let mut i: usize = 0;
    assert(a@.skip(0) =~= a@);
    assert(b@.skip(0) =~= b@);
    while i < a.len() && i < b.len()
        invariant
            i <= a.len(),
            i <= b.len(),
            text_le(a@, b@) == lex_le(a@.skip(i as int), b@.skip(i as int), char_order()),
        decreases a.len() - i,
    {
        assert(a@.skip(i as int)[0] == a@[i as int]);
        assert(b@.skip(i as int)[0] == b@[i as int]);
        let x = a[i];
        let y = b[i];
        if x != y {
            let r = x <= y;
            assert(r == ((x as int) <= (y as int)));
            assert(lex_le(a@.skip(i as int), b@.skip(i as int), char_order()) == char_order()(x, y));
            return r;
        }
        assert(a@.skip(i as int).drop_first() =~= a@.skip(i + 1));
        assert(b@.skip(i as int).drop_first() =~= b@.skip(i + 1));
        i = i + 1;
    }
    i == a.len()
}

/// Whether path `a` comes no later than path `b`.
pub fn path_le_exec(a: &Vec<String>, b: &Vec<String>) -> (r: bool)
    ensures
        r == path_le(path_view(*a), path_view(*b)),
{
    let ghost pa = path_view(*a);
    let ghost pb = path_view(*b);
    let mut i: usize = 0;
    assert(pa.skip(0) =~= pa);
    assert(pb.skip(0) =~= pb);
    while i < a.len() && i < b.len()
        invariant
            pa == path_view(*a),
            pb == path_view(*b),
            i <= a.len(),
            i <= b.len(),
            path_le(pa, pb) == lex_le(pa.skip(i as int), pb.skip(i as int), text_order()),
        decreases a.len() - i,
    {
        assert(pa.skip(i as int)[0] == a@[i as int]@);
        assert(pb.skip(i as int)[0] == b@[i as int]@);
        if !same_text(a[i].as_str(), b[i].as_str()) {
            let x = char_vec(a[i].as_str());
            let y = char_vec(b[i].as_str());
            return text_le_exec(&x, &y);
        }
        assert(pa.skip(i as int).drop_first() =~= pa.skip(i + 1));
        assert(pb.skip(i as int).drop_first() =~= pb.skip(i + 1));
        i = i + 1;
    }
    i == a.len()
}

proof fn lemma_insert_to_multiset<A>(s: Seq<A>, k: int, x: A)
    requires
        0 <= k <= s.len(),
    ensures
        s.insert(k, x).to_multiset() == s.to_multiset().insert(x),
{
    broadcast use vstd::seq_lib::group_to_multiset_ensures;
    broadcast use vstd::multiset::group_multiset_axioms;
    let t = s.insert(k, x);
    assert(t.remove(k) =~= s);
    assert(t[k] == x);
    assert(t.contains(x));
    assert(t.to_multiset().remove(x) == s.to_multiset());
    assert(t.to_multiset() =~= s.to_multiset().insert(x));
}

/// The paths in ascending path order.
pub fn sort_paths(paths: Vec<Vec<String>>) -> (r: Vec<Vec<String>>)
    ensures
        paths_sorted(r@),
        r@.to_multiset() == paths@.to_multiset(),
{
    proof {
        lemma_path_le_facts();
    }
    let ghost original = paths@;
    let mut rest = paths;
    let mut out: Vec<Vec<String>> = Vec::new();
    proof {
        broadcast use vstd::seq_lib::group_to_multiset_ensures;
        broadcast use vstd::multiset::group_multiset_axioms;
        assert(out@.to_multiset() =~= Multiset::empty());
        assert(out@.to_multiset().add(rest@.to_multiset()) =~= original.to_multiset());
    }
    while rest.len() > 0
        invariant
            paths_sorted(out@),
            out@.to_multiset().add(rest@.to_multiset()) == original.to_multiset(),
            forall|a: Seq<Seq<char>>| #[trigger] path_le(a, a),
            forall|a: Seq<Seq<char>>, b: Seq<Seq<char>>|
                #[trigger] path_le(a, b) || #[trigger] path_le(b, a),
            forall|a: Seq<Seq<char>>, b: Seq<Seq<char>>, c: Seq<Seq<char>>|
                #[trigger] path_le(a, b) && #[trigger] path_le(b, c) ==> path_le(a, c),
        decreases rest.len(),
    {
        let ghost before = rest@;
        let x = rest.pop().unwrap();
        proof {
            broadcast use vstd::seq_lib::group_to_multiset_ensures;
            assert(before =~= rest@.push(x));
        }
        let mut k: usize = 0;
        while k < out.len() && !path_le_exec(&x, &out[k])
            invariant
                k <= out.len(),
                forall|j: int| 0 <= j < k ==> !path_le(path_view(x), path_view(#[trigger] out@[j])),
            decreases out.len() - k,
        {
            k = k + 1;
        }
        let ghost old_out = out@;
        out.insert(k, x);
        proof {
            broadcast use vstd::multiset::group_multiset_axioms;
            lemma_insert_to_multiset(old_out, k as int, x);
            assert(out@ == old_out.insert(k as int, x));
            assert(out@.to_multiset().add(rest@.to_multiset()) =~= original.to_multiset());
            assert forall|i: int, j: int| 0 <= i < j < out@.len() implies path_le(
                path_view(#[trigger] out@[i]),
                path_view(#[trigger] out@[j]),
            ) by {
                if j < k {
                    assert(out@[i] == old_out[i] && out@[j] == old_out[j]);
                } else if j == k {
                    assert(out@[i] == old_out[i]);
                    assert(!path_le(path_view(x), path_view(old_out[i])));
                } else if i > k {
                    assert(out@[i] == old_out[i - 1] && out@[j] == old_out[j - 1]);
                } else if i == k {
                    assert(out@[j] == old_out[j - 1]);
                    assert(path_le(path_view(x), path_view(old_out[k as int])));
                    if j - 1 > k {
                        assert(path_le(path_view(old_out[k as int]), path_view(old_out[j - 1])));
                    }
                } else {
                    assert(out@[i] == old_out[i] && out@[j] == old_out[j - 1]);
                }
            }
        }
    }
    proof {
        broadcast use vstd::seq_lib::group_to_multiset_ensures;
        broadcast use vstd::multiset::group_multiset_axioms;
        assert(rest@ =~= Seq::<Vec<String>>::empty());
        assert(out@.to_multiset().add(rest@.to_multiset()) =~= out@.to_multiset());
    }
    out
}

/// The component views of a list of paths.
pub open spec fn path_views(paths: Seq<Vec<String>>) -> Seq<Seq<Seq<char>>> {
    paths.map_values(|p: Vec<String>| path_view(p))
}

/// Sequences that are permutations of each other stay so under a map.
pub proof fn lemma_map_preserves_multiset<A, B>(s1: Seq<A>, s2: Seq<A>, f: spec_fn(A) -> B)
    requires
        s1.to_multiset() == s2.to_multiset(),
    ensures
        s1.map_values(f).to_multiset() == s2.map_values(f).to_multiset(),
    decreases s1.len(),
{
    broadcast use vstd::seq_lib::group_to_multiset_ensures;
    broadcast use vstd::multiset::group_multiset_axioms;
    assert(s1.len() == s1.to_multiset().len());
    assert(s2.len() == s2.to_multiset().len());
    if s1.len() == 0 {
        assert(s2.len() == 0);
        assert(s1.map_values(f) =~= s2.map_values(f));
    } else {
        let x = s1.last();
        let init = s1.drop_last();
        assert(s1 =~= init.push(x));
        assert(s1.contains(x));
        assert(s1.to_multiset().count(x) > 0);
        assert(s2.to_multiset().count(x) > 0);
        assert(s2.contains(x));
        let j = choose|j: int| 0 <= j < s2.len() && s2[j] == x;
        let rest = s2.remove(j);
        assert(rest.to_multiset() == s2.to_multiset().remove(x));
        assert(init.to_multiset() =~= s1.to_multiset().remove(x));
        lemma_map_preserves_multiset(init, rest, f);
        assert(s1.map_values(f) =~= init.map_values(f).push(f(x)));
        assert(s2.map_values(f).remove(j) =~= rest.map_values(f));
        assert(s2.map_values(f)[j] == f(x));
        assert(s2.map_values(f).to_multiset().remove(f(x)) == rest.map_values(f).to_multiset());
        assert(s2.map_values(f).contains(f(x)));
        assert(s2.map_values(f).to_multiset() =~= rest.map_values(f).to_multiset().insert(f(x)));
    }
}

/// Sorted arrangements of the same paths are equal.
pub proof fn lemma_sorted_views_equal(a: Seq<Seq<Seq<char>>>, b: Seq<Seq<Seq<char>>>)
    requires
        forall|i: int, j: int| 0 <= i < j < a.len() ==> path_le(#[trigger] a[i], #[trigger] a[j]),
        forall|i: int, j: int| 0 <= i < j < b.len() ==> path_le(#[trigger] b[i], #[trigger] b[j]),
        a.to_multiset() == b.to_multiset(),
    ensures
        a == b,
    decreases a.len(),
{
    broadcast use vstd::seq_lib::group_to_multiset_ensures;
    broadcast use vstd::multiset::group_multiset_axioms;
    lemma_path_le_facts();
    lemma_path_order_total();
    assert(a.len() == a.to_multiset().len());
    assert(b.len() == b.to_multiset().len());
    if a.len() == 0 {
        assert(b.len() == 0);
        assert(a =~= b);
    } else {
        let x = a[0];
        assert(b.len() == a.len());
        assert(a.contains(x));
        assert(a.to_multiset().count(x) > 0);
        assert(b.to_multiset().count(x) > 0);
        assert(b.contains(x));
        let j = choose|j: int| 0 <= j < b.len() && b[j] == x;
        assert(b.contains(b[0]));
        assert(b.to_multiset().count(b[0]) > 0);
        assert(a.to_multiset().count(b[0]) > 0);
        assert(a.contains(b[0]));
        let m = choose|m: int| 0 <= m < a.len() && a[m] == b[0];
        // x is no later than b[0] in a, and b[0] no later than x in b.
        assert(path_le(x, b[0]));
        assert(path_le(b[0], x));
        lemma_lex_antisymmetric(x, b[0], text_order());
        assert(b[0] == x);
        assert(a.remove(0) =~= a.drop_first());
        assert(b.remove(0) =~= b.drop_first());
        assert(a.drop_first().to_multiset() == a.to_multiset().remove(x));
        assert(b.drop_first().to_multiset() == b.to_multiset().remove(x));
        let a2 = a.drop_first();
        let b2 = b.drop_first();
        assert forall|i: int, k: int| 0 <= i < k < a2.len() implies path_le(
            #[trigger] a2[i],
            #[trigger] a2[k],
        ) by {
            assert(a2[i] == a[i + 1] && a2[k] == a[k + 1]);
        }
        assert forall|i: int, k: int| 0 <= i < k < b2.len() implies path_le(
            #[trigger] b2[i],
            #[trigger] b2[k],
        ) by {
            assert(b2[i] == b[i + 1] && b2[k] == b[k + 1]);
        }
        lemma_sorted_views_equal(a2, b2);
        assert(a =~= seq![x] + a2);
        assert(b =~= seq![x] + b2);
    }
}

/// Law: the load order does not depend on the order in which a directory
/// listing came: two sorted arrangements of the same paths are identical.
pub proof fn lemma_load_order_is_determined(a: Seq<Vec<String>>, b: Seq<Vec<String>>)
    requires
        paths_sorted(a),
        paths_sorted(b),
        a.to_multiset() == b.to_multiset(),
    ensures
        path_views(a) == path_views(b),
{
    lemma_map_preserves_multiset(a, b, |p: Vec<String>| path_view(p));
    let va = path_views(a);
    let vb = path_views(b);
    assert forall|i: int, j: int| 0 <= i < j < va.len() implies path_le(#[trigger] va[i], #[trigger] va[j]) by {
        assert(va[i] == path_view(a[i]) && va[j] == path_view(a[j]));
    }
    assert forall|i: int, j: int| 0 <= i < j < vb.len() implies path_le(#[trigger] vb[i], #[trigger] vb[j]) by {
        assert(vb[i] == path_view(b[i]) && vb[j] == path_view(b[j]));
    }
    lemma_sorted_views_equal(va, vb);
}

/// A file name with the extension `js`, as `Path::extension` reads it: the
/// name ends in `.js` and something stands before that dot.
pub open spec fn has_js_extension(name: Seq<char>) -> bool {
    &&& name.len() > 3
    &&& name[name.len() - 3] == '.'
    &&& name[name.len() - 2] == 'j'
    &&& name[name.len() - 1] == 's'
}

/// A path, given by its components, whose file name has the extension `js`.
pub open spec fn is_js_path(p: Seq<String>) -> bool {
    p.len() > 0 && has_js_extension(p.last()@)
}

pub open spec fn js_pred() -> spec_fn(Vec<String>) -> bool {
    |p: Vec<String>| is_js_path(p@)
}

fn is_js_file(p: &Vec<String>) -> (r: bool)
    ensures
        r == is_js_path(p@),
{
    if p.len() == 0 {
        return false;
    }
    let name = char_vec(p[p.len() - 1].as_str());
    let n = name.len();
    n > 3 && name[n - 3] == '.' && name[n - 2] == 'j' && name[n - 1] == 's'
}

/// Law: whether a path is kept depends on its file name alone: two paths
/// with the same last component are kept or dropped together, whatever
/// their depth.
pub proof fn lemma_js_depends_on_name_only(p: Seq<String>, q: Seq<String>)
    requires
        p.len() > 0,
        q.len() > 0,
        p.last()@ == q.last()@,
    ensures
        is_js_path(p) == is_js_path(q),
{
}

/// Law: every listed file whose name ends in `.js` after at least one
/// other character is among the files kept, at any depth.
pub proof fn lemma_js_file_kept_at_any_depth(files: Seq<Vec<String>>, i: int)
    requires
        0 <= i < files.len(),
        files[i]@.len() > 0,
        files[i]@.last()@.len() > 3,
        files[i]@.last()@.skip(files[i]@.last()@.len() - 3) == seq!['.', 'j', 's'],
    ensures
        files.filter(js_pred()).contains(files[i]),
{
    let name = files[i]@.last()@;
    assert(name[name.len() - 3] == name.skip(name.len() - 3)[0]);
    assert(name[name.len() - 2] == name.skip(name.len() - 3)[1]);
    assert(name[name.len() - 1] == name.skip(name.len() - 3)[2]);
    assert(js_pred()(files[i]));
    broadcast use vstd::seq_lib::group_filter_ensures;
    assert(files.contains(files[i]));
    files.lemma_filter_contains_rev(js_pred(), files[i]);
}

/// The JavaScript files among `files`, in path order (the files of a
/// scripts directory, found at any depth, as they are loaded).
pub fn collect_js_scripts(files: Vec<Vec<String>>) -> (r: Vec<Vec<String>>)
    ensures
        paths_sorted(r@),
        r@.to_multiset() == files@.filter(js_pred()).to_multiset(),
{
    let ghost original = files@;
    let mut rest = files;
    let mut kept: Vec<Vec<String>> = Vec::new();
    proof {
        broadcast use vstd::seq_lib::group_to_multiset_ensures;
        broadcast use vstd::multiset::group_multiset_axioms;
        assert(kept@.to_multiset() =~= Multiset::empty());
        assert(kept@.to_multiset().add(rest@.filter(js_pred()).to_multiset()) =~= original.filter(
            js_pred(),
        ).to_multiset());
    }
    while rest.len() > 0
        invariant
            kept@.to_multiset().add(rest@.filter(js_pred()).to_multiset()) == original.filter(
                js_pred(),
            ).to_multiset(),
        decreases rest.len(),
    {
        let ghost before = rest@;
        let x = rest.pop().unwrap();
        proof {
            broadcast use vstd::seq_lib::group_to_multiset_ensures;
            broadcast use vstd::multiset::group_multiset_axioms;
            assert(before =~= rest@.push(x));
            rest@.lemma_filter_push(x, js_pred());
        }
        let keep = is_js_file(&x);
        let ghost old_kept = kept@;
        if keep {
            kept.push(x);
        }
        proof {
            broadcast use vstd::seq_lib::group_to_multiset_ensures;
            broadcast use vstd::multiset::group_multiset_axioms;
            if keep {
                assert(kept@ == old_kept.push(x));
                assert(before.filter(js_pred()) == rest@.filter(js_pred()).push(x));
            }
            assert(kept@.to_multiset().add(rest@.filter(js_pred()).to_multiset()) =~= original.filter(
                js_pred(),
            ).to_multiset());
        }
    }
    proof {
        broadcast use vstd::multiset::group_multiset_axioms;
        broadcast use vstd::seq_lib::group_to_multiset_ensures;
        reveal(Seq::filter);
        assert(rest@.filter(js_pred()) =~= Seq::<Vec<String>>::empty());
        assert(kept@.to_multiset().add(rest@.filter(js_pred()).to_multiset()) =~= kept@.to_multiset());
    }
    sort_paths(kept)
}

/// A character with a backslash turned into a slash.
pub open spec fn slash(c: char) -> char {
    if c == '\\' {
        '/'
    } else {
        c
    }
}

/// The text of a path with `/` between components and every backslash
/// turned into a slash.
pub open spec fn normalized_path(components: Seq<Seq<char>>) -> Seq<char> {
    joined(components, seq!['/']).map_values(|c: char| slash(c))
}

/// The text of a path, with `/` as the separator whatever the platform.
pub fn normalize_path(components: &Vec<String>) -> (r: String)
    ensures
        r@ == normalized_path(string_views(components@)),
{
    let text = join(components, "/");
    proof {
        reveal_strlit("/");
        assert("/"@ =~= seq!['/']);
    }
    let cs = char_vec(text.as_str());
    let mut r = String::new();
    let n = cs.len();
    let mut i: usize = 0;
    while i < n
        invariant
            n == cs.len(),
            i <= n,
            r@ == cs@.take(i as int).map_values(|c: char| slash(c)),
        decreases n - i,
    {
        let c = cs[i];
        let d = if c == '\\' {
            '/'
        } else {
            c
        };
        push_char(&mut r, d);
        assert(cs@.take(i + 1).map_values(|c: char| slash(c)) =~= cs@.take(i as int).map_values(
            |c: char| slash(c),
        ).push(d));
        i = i + 1;
    }
    assert(cs@.take(n as int) =~= cs@);
    assert(cs@ == joined(string_views(components@), seq!['/']));
    r
}

/// Law: a normalized path holds no backslash.
pub proof fn lemma_normalized_has_no_backslash(components: Seq<Seq<char>>)
    ensures
        !normalized_path(components).contains('\\'),
{
}

} // verus!

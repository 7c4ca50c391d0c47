//! Orders on strings and paths: strings by their characters, paths component by
//! component, as `Ord` for `str` and `Path` compare them.
use vstd::prelude::*;
use crate::paths::{components, components_of, views, root_component, cur_component, parent_component};

verus! {

/// Whether `a` comes no later than `b` in lexicographic order of characters (the order of
/// `str`, since UTF-8 keeps the order of code points).
pub open spec fn lex_le(a: Seq<char>, b: Seq<char>) -> bool
    decreases a.len(),
{
    if a.len() == 0 {
        true
    } else if b.len() == 0 {
        false
    } else if a[0] != b[0] {
        (a[0] as int) < (b[0] as int)
    } else {
        lex_le(a.drop_first(), b.drop_first())
    }
}

/// Any two strings compare.
pub proof fn lemma_lex_total(a: Seq<char>, b: Seq<char>)
    ensures
        lex_le(a, b) || lex_le(b, a),
    decreases a.len(),
{
    if a.len() > 0 && b.len() > 0 && a[0] == b[0] {
        lemma_lex_total(a.drop_first(), b.drop_first());
    }
}

/// The lexicographic order is transitive.
pub proof fn lemma_lex_trans(a: Seq<char>, b: Seq<char>, c: Seq<char>)
    requires
        lex_le(a, b),
        lex_le(b, c),
    ensures
        lex_le(a, c),
    decreases a.len(),
{
    if a.len() > 0 && b.len() > 0 && c.len() > 0 && a[0] == b[0] && b[0] == c[0] {
        lemma_lex_trans(a.drop_first(), b.drop_first(), c.drop_first());
    }
}

/// Strings that each come no later than the other are equal.
pub proof fn lemma_lex_antisym(a: Seq<char>, b: Seq<char>)
    requires
        lex_le(a, b),
        lex_le(b, a),
    ensures
        a == b,
    decreases a.len(),
{
    if a.len() > 0 && b.len() > 0 {
        if a[0] == b[0] {
            lemma_lex_antisym(a.drop_first(), b.drop_first());
            assert(a =~= seq![a[0]] + a.drop_first());
            assert(b =~= seq![b[0]] + b.drop_first());
        }
    } else {
        assert(a =~= b);
    }
}

/// Whether `a` comes no later than `b` in lexicographic order.
pub fn chars_le(a: &Vec<char>, b: &Vec<char>) -> (r: bool)
    ensures
        r == lex_le(a@, b@),
{
    let mut i: usize = 0;
    assert(a@.skip(0) =~= a@);
    assert(b@.skip(0) =~= b@);
    while i < a.len() && i < b.len() && a[i] == b[i]
        invariant
            i <= a.len(),
            i <= b.len(),
            lex_le(a@, b@) == lex_le(a@.skip(i as int), b@.skip(i as int)),
        decreases a.len() - i,
    {
        proof {
            assert(a@.skip(i as int).drop_first() =~= a@.skip(i + 1));
            assert(b@.skip(i as int).drop_first() =~= b@.skip(i + 1));
        }
        i = i + 1;
    }
    if i == a.len() {
        true
    } else if i == b.len() {
        false
    } else {
        assert(a@.skip(i as int)[0] == a@[i as int]);
        assert(b@.skip(i as int)[0] == b@[i as int]);
        a[i] < b[i]
    }
}

/// The rank of a component in the order of component kinds: root, `.`, `..`, names.
pub open spec fn component_rank(c: Seq<char>) -> int {
    if c == root_component() {
        0
    } else if c == cur_component() {
        1
    } else if c == parent_component() {
        2
    } else {
        3
    }
}

/// Whether component `a` comes no later than `b`: by kind, names by their characters.
pub open spec fn component_le(a: Seq<char>, b: Seq<char>) -> bool {
    component_rank(a) < component_rank(b) || (component_rank(a) == component_rank(b) && (
    component_rank(a) < 3 || lex_le(a, b)))
}

proof fn lemma_component_total(a: Seq<char>, b: Seq<char>)
    ensures
        component_le(a, b) || component_le(b, a),
{
    lemma_lex_total(a, b);
}

proof fn lemma_component_trans(a: Seq<char>, b: Seq<char>, c: Seq<char>)
    requires
        component_le(a, b),
        component_le(b, c),
    ensures
        component_le(a, c),
{
    if component_rank(a) == 3 && component_rank(b) == 3 && component_rank(c) == 3 {
        lemma_lex_trans(a, b, c);
    }
}

proof fn lemma_component_antisym(a: Seq<char>, b: Seq<char>)
    requires
        component_le(a, b),
        component_le(b, a),
    ensures
        a == b,
{
    if component_rank(a) == 3 {
        lemma_lex_antisym(a, b);
    }
}

/// Whether component list `a` comes no later than `b` in lexicographic order of components.
pub open spec fn components_le(a: Seq<Seq<char>>, b: Seq<Seq<char>>) -> bool
    decreases a.len(),
{
    if a.len() == 0 {
        true
    } else if b.len() == 0 {
        false
    } else if a[0] != b[0] {
        component_le(a[0], b[0])
    } else {
        components_le(a.drop_first(), b.drop_first())
    }
}

proof fn lemma_components_total(a: Seq<Seq<char>>, b: Seq<Seq<char>>)
    ensures
        components_le(a, b) || components_le(b, a),
    decreases a.len(),
{
    if a.len() > 0 && b.len() > 0 {
        if a[0] == b[0] {
            lemma_components_total(a.drop_first(), b.drop_first());
        } else {
            lemma_component_total(a[0], b[0]);
        }
    }
}

proof fn lemma_components_trans(a: Seq<Seq<char>>, b: Seq<Seq<char>>, c: Seq<Seq<char>>)
    requires
        components_le(a, b),
        components_le(b, c),
    ensures
        components_le(a, c),
    decreases a.len(),
{
    if a.len() > 0 && b.len() > 0 && c.len() > 0 {
        if a[0] == b[0] && b[0] == c[0] {
            lemma_components_trans(a.drop_first(), b.drop_first(), c.drop_first());
        } else if a[0] == b[0] {
        } else if b[0] == c[0] {
        } else {
            lemma_component_trans(a[0], b[0], c[0]);
            if a[0] == c[0] {
                lemma_component_antisym(a[0], b[0]);
            }
        }
    }
}

proof fn lemma_components_antisym(a: Seq<Seq<char>>, b: Seq<Seq<char>>)
    requires
        components_le(a, b),
        components_le(b, a),
    ensures
        a == b,
    decreases a.len(),
{
    if a.len() > 0 && b.len() > 0 {
        if a[0] == b[0] {
            lemma_components_antisym(a.drop_first(), b.drop_first());
            assert(a =~= seq![a[0]] + a.drop_first());
            assert(b =~= seq![b[0]] + b.drop_first());
        } else {
            lemma_component_antisym(a[0], b[0]);
        }
    } else {
        assert(a =~= b);
    }
}

/// Whether path `a` comes no later than path `b`, comparing component by component
/// (the order of `Path`).
pub open spec fn path_le(a: Seq<char>, b: Seq<char>) -> bool {
    components_le(components(a), components(b))
}

/// Any two paths compare.
pub proof fn lemma_path_total(a: Seq<char>, b: Seq<char>)
    ensures
        path_le(a, b) || path_le(b, a),
{
    lemma_components_total(components(a), components(b));
}

/// The order of paths is transitive.
pub proof fn lemma_path_trans(a: Seq<char>, b: Seq<char>, c: Seq<char>)
    requires
        path_le(a, b),
        path_le(b, c),
    ensures
        path_le(a, c),
{
    lemma_components_trans(components(a), components(b), components(c));
}

/// Paths that each come no later than the other have the same components.
pub proof fn lemma_path_antisym(a: Seq<char>, b: Seq<char>)
    requires
        path_le(a, b),
        path_le(b, a),
    ensures
        components(a) == components(b),
{
    lemma_components_antisym(components(a), components(b));
}

fn component_le_exec(a: &Vec<char>, b: &Vec<char>) -> (r: bool)
    ensures
        r == component_le(a@, b@),
{
    let ra = component_rank_exec(a);
    let rb = component_rank_exec(b);
    if ra < rb {
        true
    } else if ra > rb {
        false
    } else if ra < 3 {
        true
    } else {
        chars_le(a, b)
    }
}

fn component_rank_exec(c: &Vec<char>) -> (r: u8)
    ensures
        r as int == component_rank(c@),
{
    let is_root = c.len() == 1 && c[0] == '/';
    let is_cur = c.len() == 1 && c[0] == '.';
    let is_parent = c.len() == 2 && c[0] == '.' && c[1] == '.';
    proof {
        if is_root { assert(c@ =~= root_component()); }
        if is_cur { assert(c@ =~= cur_component()); }
        if is_parent { assert(c@ =~= parent_component()); }
        if c@ == root_component() { assert(is_root); }
        if c@ == cur_component() { assert(is_cur); }
        if c@ == parent_component() { assert(is_parent); }
    }
    if is_root {
        0
    } else if is_cur {
        1
    } else if is_parent {
        2
    } else {
        3
    }
}

/// Whether path `a` comes no later than path `b`.
pub fn path_le_exec(a: &Vec<char>, b: &Vec<char>) -> (r: bool)
    ensures
        r == path_le(a@, b@),
{
    let ac = components_of(a);
    let bc = components_of(b);
    let ghost av = views(ac@);
    let ghost bv = views(bc@);
    let mut i: usize = 0;
    assert(av.skip(0) =~= av);
    assert(bv.skip(0) =~= bv);
    while i < ac.len() && i < bc.len() && crate::text::chars_eq(&ac[i], &bc[i])
        invariant
            i <= ac.len(),
            i <= bc.len(),
            av == views(ac@),
            bv == views(bc@),
            components_le(av, bv) == components_le(av.skip(i as int), bv.skip(i as int)),
        decreases ac.len() - i,
    {
        proof {
            assert(av.skip(i as int).drop_first() =~= av.skip(i + 1));
            assert(bv.skip(i as int).drop_first() =~= bv.skip(i + 1));
            assert(av.skip(i as int)[0] == av[i as int]);
            assert(bv.skip(i as int)[0] == bv[i as int]);
        }
        i = i + 1;
    }
    if i == ac.len() {
        true
    } else if i == bc.len() {
        false
    } else {
        assert(av.skip(i as int)[0] == av[i as int]);
        assert(bv.skip(i as int)[0] == bv[i as int]);
        assert(av[i as int] != bv[i as int]);
        component_le_exec(&ac[i], &bc[i])
    }
}

} // verus!

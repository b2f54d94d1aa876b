//! The import index of style sheets: for each style sheet, the style sheets
//! it imports, and whether it has already been handed out.

use vstd::prelude::*;
use vstd::set_lib::lemma_len_subset;

use super::parser::{ends_with, has_suffix, DEFAULT_INPUT_CSS_EXTENSION};
use super::text::{push_str, str_chars, str_eq};

verus! {

/// A path without the style sheet extension, where it ends with one.
pub open spec fn spec_drop_css_extension(path: Seq<char>) -> Seq<char> {
    let ext = DEFAULT_INPUT_CSS_EXTENSION@;
    if has_suffix(path, ext) {
        path.subrange(0, path.len() - ext.len())
    } else {
        path
    }
}

/// Drops the style sheet extension from the end of `path`, where it is
/// there.
pub fn drop_css_extension(path: &str) -> (r: &str)
    ensures
        r@ == spec_drop_css_extension(path@),
{
    let chars = str_chars(path);
    let ext = str_chars(DEFAULT_INPUT_CSS_EXTENSION);
    if ends_with(chars.as_slice(), ext.as_slice()) {
        path.substring_char(0, chars.len() - ext.len())
    } else {
        path
    }
}

/// The chars of each string.
pub open spec fn strings_view(s: Seq<String>) -> Seq<Seq<char>> {
    s.map_values(|x: String| x@)
}

/// The map of the import index: for each style sheet path, its direct
/// imports and whether it has been handed out ("marked").
pub type DepsModel = Map<Seq<char>, (Seq<Seq<char>>, bool)>;

/// The `hashbrown` map that the import index keeps its entries in.
#[verifier::external_body]
pub struct DepsMap {
    map: hashbrown::HashMap<String, (Vec<String>, bool)>,
}

/// What a `DepsMap` holds.
pub uninterp spec fn deps_entries(m: DepsMap) -> DepsModel;

/// An empty map (`HashMap::new`).
#[verifier::external_body]
fn deps_new() -> (m: DepsMap)
    ensures
        deps_entries(m) == DepsModel::empty(),
{
    DepsMap { map: hashbrown::HashMap::new() }
}

/// The number of entries (`HashMap::len`).
#[verifier::external_body]
fn deps_len(m: &DepsMap) -> (n: usize)
    ensures
        n == deps_entries(*m).dom().len(),
{
    m.map.len()
}

/// The entry of `key` (`HashMap::get`), copied out.
#[verifier::external_body]
fn deps_get(m: &DepsMap, key: &str) -> (r: Option<(Vec<String>, bool)>)
    ensures
        match r {
            Some((d, marked)) => deps_entries(*m).dom().contains(key@) && deps_entries(*m)[key@] == (
                strings_view(d@),
                marked,
            ),
            None => !deps_entries(*m).dom().contains(key@),
        },
{
    match m.map.get(key) {
        Some((d, marked)) => Some((d.clone(), *marked)),
        None => None,
    }
}

/// Marks the entry of `key`, where there is one (`HashMap::get_mut`).
#[verifier::external_body]
fn deps_mark(m: &mut DepsMap, key: &str)
    ensures
        deps_entries(*old(m)).dom().contains(key@) ==> deps_entries(*final(m)) == deps_entries(
            *old(m),
        ).insert(key@, (deps_entries(*old(m))[key@].0, true)),
        !deps_entries(*old(m)).dom().contains(key@) ==> deps_entries(*final(m)) == deps_entries(
            *old(m),
        ),
{
    if let Some(entry) = m.map.get_mut(key) {
        entry.1 = true;
    }
}

/// Sets the entry of `key` (`HashMap::insert`).
#[verifier::external_body]
fn deps_insert(m: &mut DepsMap, key: String, deps: Vec<String>, marked: bool)
    ensures
        deps_entries(*final(m)) == deps_entries(*old(m)).insert(key@, (strings_view(deps@), marked)),
{
    m.map.insert(key, (deps, marked));
}


/// Hands out `path` and, before it, its imports in depth-first order: each
/// style sheet that is in the index and not yet marked is marked and listed
/// after its own imports. At most `fuel` style sheets are visited in depth.
pub open spec fn spec_mark_visit(fuel: nat, m: DepsModel, path: Seq<char>) -> (DepsModel, Seq<Seq<char>>)
    decreases fuel, 0nat,
{
    if fuel > 0 && m.dom().contains(path) && !m[path].1 {
        let m1 = m.insert(path, (m[path].0, true));
        let (m2, out) = spec_mark_visit_list((fuel - 1) as nat, m1, m[path].0);
        (m2, out.push(path))
    } else {
        (m, Seq::empty())
    }
}

/// `spec_mark_visit` of each path of `xs` in turn.
pub open spec fn spec_mark_visit_list(fuel: nat, m: DepsModel, xs: Seq<Seq<char>>) -> (DepsModel, Seq<Seq<char>>)
    decreases fuel, xs.len(),
{
    if xs.len() == 0 {
        (m, Seq::empty())
    } else {
        let (m1, o1) = spec_mark_visit(fuel, m, xs[0]);
        let (m2, o2) = spec_mark_visit_list(fuel, m1, xs.subrange(1, xs.len() as int));
        (m2, o1 + o2)
    }
}

/// Lists `path` and, where `recursive`, before it the listings of its
/// imports, each skipped where it is not in the index or is already being
/// listed (`stack`). At most `fuel` style sheets are listed in depth.
pub open spec fn spec_list_deps(
    fuel: nat,
    m: DepsModel,
    stack: Seq<Seq<char>>,
    path: Seq<char>,
    recursive: bool,
) -> Seq<Seq<char>>
    decreases fuel, 0nat,
{
    if fuel > 0 && m.dom().contains(path) && !stack.contains(path) {
        let inner = if recursive {
            spec_list_deps_all((fuel - 1) as nat, m, stack.push(path), m[path].0, recursive)
        } else {
            Seq::empty()
        };
        inner.push(path)
    } else {
        Seq::empty()
    }
}

/// `spec_list_deps` of each path of `xs`, concatenated.
pub open spec fn spec_list_deps_all(
    fuel: nat,
    m: DepsModel,
    stack: Seq<Seq<char>>,
    xs: Seq<Seq<char>>,
    recursive: bool,
) -> Seq<Seq<char>>
    decreases fuel, xs.len(),
{
    if xs.len() == 0 {
        Seq::empty()
    } else {
        spec_list_deps(fuel, m, stack, xs[0], recursive) + spec_list_deps_all(
            fuel,
            m,
            stack,
            xs.subrange(1, xs.len() as int),
            recursive,
        )
    }
}

/// Import information of style sheets.
pub struct StyleSheetImportIndex {
    deps: DepsMap,
}

impl View for StyleSheetImportIndex {
    type V = DepsModel;

    closed spec fn view(&self) -> DepsModel {
        deps_entries(self.deps)
    }
}

/// Appends `path` to `ret`.
fn push_path(ret: &mut Vec<String>, path: &str)
    ensures
        strings_view(final(ret)@) == strings_view(old(ret)@).push(path@),
{
    let mut s = String::new();
    push_str(&mut s, path);
    ret.push(s);
    assert(strings_view(ret@) =~= strings_view(old(ret)@).push(path@));
}

/// Marks and lists `path` and its unmarked imports; see `spec_mark_visit`.
fn mark_dependencies(deps: &mut DepsMap, path: &str, fuel: usize, ret: &mut Vec<String>)
    ensures
        ({
            let (m, out) = spec_mark_visit(fuel as nat, deps_entries(*old(deps)), path@);
            deps_entries(*final(deps)) == m && strings_view(final(ret)@) == strings_view(old(ret)@) + out
        }),
    decreases fuel,
{
    if fuel == 0 {
        assert(strings_view(ret@) =~= strings_view(ret@) + Seq::<Seq<char>>::empty());
        return;
    }
    let entry = deps_get(deps, path);
    let (imports, marked) = match entry {
        Some(e) => e,
        None => {
            assert(strings_view(ret@) =~= strings_view(ret@) + Seq::<Seq<char>>::empty());
            return;
        },
    };
    if marked {
        assert(strings_view(ret@) =~= strings_view(ret@) + Seq::<Seq<char>>::empty());
        return;
    }
    deps_mark(deps, path);
    let ghost m1 = deps_entries(*deps);
    let ghost xs = strings_view(imports@);
    let ghost full = spec_mark_visit_list((fuel - 1) as nat, m1, xs);
    let ghost ret0 = strings_view(ret@);
    let ghost mut acc: Seq<Seq<char>> = Seq::empty();
    let mut i: usize = 0;
    assert(xs.subrange(0, xs.len() as int) =~= xs);
    assert(Seq::<Seq<char>>::empty() + full.1 =~= full.1);
    while i < imports.len()
        invariant
            fuel > 0,
            i <= imports@.len(),
            xs == strings_view(imports@),
            ({
                let cur = spec_mark_visit_list((fuel - 1) as nat, deps_entries(*deps), xs.subrange(i as int, xs.len() as int));
                full.0 == cur.0 && full.1 == acc + cur.1
            }),
            strings_view(ret@) == ret0 + acc,
        decreases imports@.len() - i,
    {
        let ghost rest = xs.subrange(i as int, xs.len() as int);
        let ghost before = deps_entries(*deps);
        assert(rest[0] == imports@[i as int]@);
        assert(rest.subrange(1, rest.len() as int) =~= xs.subrange(i + 1, xs.len() as int));
        let ghost step = spec_mark_visit((fuel - 1) as nat, before, rest[0]);
        let ghost tail = spec_mark_visit_list((fuel - 1) as nat, step.0, xs.subrange(i + 1, xs.len() as int));
        mark_dependencies(deps, imports[i].as_str(), fuel - 1, ret);
        proof {
            assert(acc + (step.1 + tail.1) =~= (acc + step.1) + tail.1);
            acc = acc + step.1;
            assert(strings_view(ret@) =~= ret0 + acc);
        }
        i = i + 1;
    }
    push_path(ret, path);
    proof {
        assert(xs.subrange(xs.len() as int, xs.len() as int) =~= Seq::<Seq<char>>::empty());
        assert(full.1 =~= acc);
        assert(strings_view(ret@) =~= ret0 + full.1.push(path@));
    }
}


/// Whether `path` is in `stack`.
fn stack_contains(stack: &Vec<String>, path: &str) -> (r: bool)
    ensures
        r == strings_view(stack@).contains(path@),
{
    let mut i: usize = 0;
    while i < stack.len()
        invariant
            i <= stack@.len(),
            forall|j: int| 0 <= j < i ==> stack@[j]@ != path@,
        decreases stack@.len() - i,
    {
        if str_eq(stack[i].as_str(), path) {
            assert(strings_view(stack@)[i as int] == path@);
            return true;
        }
        i = i + 1;
    }
    proof {
        if strings_view(stack@).contains(path@) {
            let j = choose|j: int| 0 <= j < strings_view(stack@).len() && strings_view(stack@)[j] == path@;
            assert(stack@[j]@ == path@);
        }
    }
    false
}

/// Lists `path` and, where `recursive`, its imports; see `spec_list_deps`.
fn list_deps(
    deps: &DepsMap,
    stack: &mut Vec<String>,
    path: &str,
    fuel: usize,
    recursive: bool,
    ret: &mut Vec<String>,
)
    ensures
        final(stack)@ == old(stack)@,
        strings_view(final(ret)@) == strings_view(old(ret)@) + spec_list_deps(
            fuel as nat,
            deps_entries(*deps),
            strings_view(old(stack)@),
            path@,
            recursive,
        ),
    decreases fuel,
{
    let ghost m = deps_entries(*deps);
    if fuel == 0 {
        assert(strings_view(ret@) =~= strings_view(ret@) + Seq::<Seq<char>>::empty());
        return;
    }
    let imports = match deps_get(deps, path) {
        Some((d, _)) => d,
        None => {
            assert(strings_view(ret@) =~= strings_view(ret@) + Seq::<Seq<char>>::empty());
            return;
        },
    };
    if stack_contains(stack, path) {
        assert(strings_view(ret@) =~= strings_view(ret@) + Seq::<Seq<char>>::empty());
        return;
    }
    let ghost stack0 = stack@;
    let ghost ret0 = strings_view(ret@);
    let mut own = String::new();
    push_str(&mut own, path);
    stack.push(own);
    let ghost inner_stack = strings_view(stack@);
    assert(inner_stack =~= strings_view(stack0).push(path@));
    let ghost xs = strings_view(imports@);
    let ghost mut acc: Seq<Seq<char>> = Seq::empty();
    if recursive {
        let mut i: usize = 0;
        while i < imports.len()
            invariant
                fuel > 0,
                i <= imports@.len(),
                xs == strings_view(imports@),
                strings_view(stack@) == inner_stack,
                stack@ == stack0.push(stack@.last()),
                stack@.len() == stack0.len() + 1,
                acc == spec_list_deps_all((fuel - 1) as nat, m, inner_stack, xs.subrange(0, i as int), recursive),
                strings_view(ret@) == ret0 + acc,
                m == deps_entries(*deps),
            decreases imports@.len() - i,
        {
            let ghost pre = xs.subrange(0, i as int);
            let ghost item = spec_list_deps((fuel - 1) as nat, m, inner_stack, xs[i as int], recursive);
            list_deps(deps, stack, imports[i].as_str(), fuel - 1, recursive, ret);
            proof {
                lemma_list_all_snoc((fuel - 1) as nat, m, inner_stack, xs, i as int, recursive);
                acc = acc + item;
                assert(strings_view(ret@) =~= ret0 + acc);
            }
            i = i + 1;
        }
        assert(xs.subrange(0, xs.len() as int) =~= xs);
    }
    let _ = stack.pop();
    assert(stack@ =~= stack0);
    push_path(ret, path);
    proof {
        assert(strings_view(ret@) =~= ret0 + acc.push(path@));
    }
}

/// Listing the first `i + 1` paths is listing the first `i` and then the
/// next one.
proof fn lemma_list_all_snoc(
    fuel: nat,
    m: DepsModel,
    stack: Seq<Seq<char>>,
    xs: Seq<Seq<char>>,
    i: int,
    recursive: bool,
)
    requires
        0 <= i < xs.len(),
    ensures
        spec_list_deps_all(fuel, m, stack, xs.subrange(0, i + 1), recursive) == spec_list_deps_all(
            fuel,
            m,
            stack,
            xs.subrange(0, i),
            recursive,
        ) + spec_list_deps(fuel, m, stack, xs[i], recursive),
    decreases i,
{
    let a = xs.subrange(0, i + 1);
    if i == 0 {
        assert(a.subrange(1, a.len() as int) =~= Seq::<Seq<char>>::empty());
        assert(xs.subrange(0, 0) =~= Seq::<Seq<char>>::empty());
        let x = spec_list_deps(fuel, m, stack, xs[0], recursive);
        assert(x + Seq::<Seq<char>>::empty() =~= x);
        assert(Seq::<Seq<char>>::empty() + x =~= x);
    } else {
        let t = xs.subrange(1, xs.len() as int);
        lemma_list_all_snoc(fuel, m, stack, t, i - 1, recursive);
        assert(a.subrange(1, a.len() as int) =~= t.subrange(0, i));
        assert(xs.subrange(0, i).subrange(1, i) =~= t.subrange(0, i - 1));
        assert(t[i - 1] == xs[i]);
        assert(xs.subrange(0, i)[0] == xs[0]);
        let h = spec_list_deps(fuel, m, stack, xs[0], recursive);
        let p = spec_list_deps_all(fuel, m, stack, t.subrange(0, i - 1), recursive);
        let x = spec_list_deps(fuel, m, stack, xs[i], recursive);
        assert(h + (p + x) =~= (h + p) + x);
    }
}


impl StyleSheetImportIndex {
    #[verifier::type_invariant]
    spec fn inv(self) -> bool {
        deps_entries(self.deps).dom().finite()
    }

    /// An empty index.
    pub fn new() -> (r: Self)
        ensures
            r@ == DepsModel::empty(),
            r@.dom().finite(),
    {
        StyleSheetImportIndex { deps: deps_new() }
    }

    /// Records the direct imports of the style sheet at `path` (kept without
    /// its extension), not yet handed out.
    pub fn insert(&mut self, path: &str, imports: Vec<String>)
        ensures
            final(self)@ == old(self)@.insert(spec_drop_css_extension(path@), (strings_view(imports@), false)),
            final(self)@.dom().finite(),
    {
        proof {
            use_type_invariant(&*self);
        }
        let key = drop_css_extension(path);
        let mut owned = String::new();
        push_str(&mut owned, key);
        let mut deps = deps_new();
        std::mem::swap(&mut deps, &mut self.deps);
        deps_insert(&mut deps, owned, imports, false);
        self.deps = deps;
    }

    /// Lists the `@import` sources of the style sheet at `path`, direct and
    /// indirect, each after its own imports, and marks them all "visited".
    /// Style sheets already visited are neither listed nor followed, so a
    /// later call never lists them again.
    pub fn query_and_mark_dependencies(&mut self, path: &str) -> (r: Vec<String>)
        ensures
            (final(self)@, strings_view(r@)) == spec_mark_visit(
                old(self)@.dom().len(),
                old(self)@,
                spec_drop_css_extension(path@),
            ),
            final(self)@.dom().finite(),
    {
        proof {
            use_type_invariant(&*self);
        }
        let mut ret: Vec<String> = Vec::new();
        let key = drop_css_extension(path);
        let fuel = deps_len(&self.deps);
        let mut deps = deps_new();
        std::mem::swap(&mut deps, &mut self.deps);
        mark_dependencies(&mut deps, key, fuel, &mut ret);
        proof {
            lemma_mark_visit_keeps(fuel as nat, old(self)@, key@);
            assert(strings_view(ret@) =~= Seq::<Seq<char>>::empty() + strings_view(ret@));
        }
        self.deps = deps;
        ret
    }

    /// Lists the `@import` sources of the style sheet at `path`: where
    /// `recursive`, direct and indirect ones, each after its own imports and
    /// followed by the style sheet itself; otherwise its direct imports, as
    /// recorded. Nothing is marked.
    pub fn list_dependencies(&self, path: &str, recursive: bool) -> (r: Vec<String>)
        ensures
            strings_view(r@) == spec_list_dependencies(self@, spec_drop_css_extension(path@), recursive),
    {
        let key = drop_css_extension(path);
        if !recursive {
            return match deps_get(&self.deps, key) {
                Some((d, _)) => d,
                None => Vec::new(),
            };
        }
        let mut ret: Vec<String> = Vec::new();
        let mut stack: Vec<String> = Vec::new();
        let fuel = deps_len(&self.deps);
        assert(strings_view(stack@) =~= Seq::<Seq<char>>::empty());
        list_deps(&self.deps, &mut stack, key, fuel, true, &mut ret);
        assert(strings_view(ret@) =~= Seq::<Seq<char>>::empty() + strings_view(ret@));
        ret
    }
}

/// What `list_dependencies` gives: with `recursive`, the depth-first listing
/// of `spec_list_deps`; without it, the direct imports of `path`.
pub open spec fn spec_list_dependencies(m: DepsModel, path: Seq<char>, recursive: bool) -> Seq<Seq<char>> {
    if recursive {
        spec_list_deps(m.dom().len(), m, Seq::empty(), path, true)
    } else if m.dom().contains(path) {
        m[path].0
    } else {
        Seq::empty()
    }
}

/// Marking keeps the paths of the index and what each imports; it only
/// sets marks.
pub proof fn lemma_mark_visit_keeps(fuel: nat, m: DepsModel, path: Seq<char>)
    ensures
        spec_mark_visit(fuel, m, path).0.dom() == m.dom(),
        forall|k: Seq<char>| #[trigger] m.dom().contains(k) ==> spec_mark_visit(fuel, m, path).0[k].0 == m[k].0,
        forall|k: Seq<char>| #[trigger] m.dom().contains(k) && m[k].1 ==> spec_mark_visit(fuel, m, path).0[k].1,
    decreases fuel, 0nat,
{
    if fuel > 0 && m.dom().contains(path) && !m[path].1 {
        let m1 = m.insert(path, (m[path].0, true));
        assert(m1.dom() =~= m.dom());
        lemma_mark_visit_list_keeps((fuel - 1) as nat, m1, m[path].0);
    }
}

/// `lemma_mark_visit_keeps` for a list of paths.
pub proof fn lemma_mark_visit_list_keeps(fuel: nat, m: DepsModel, xs: Seq<Seq<char>>)
    ensures
        spec_mark_visit_list(fuel, m, xs).0.dom() == m.dom(),
        forall|k: Seq<char>| #[trigger] m.dom().contains(k) ==> spec_mark_visit_list(fuel, m, xs).0[k].0 == m[k].0,
        forall|k: Seq<char>| #[trigger] m.dom().contains(k) && m[k].1 ==> spec_mark_visit_list(fuel, m, xs).0[k].1,
    decreases fuel, xs.len(),
{
    if xs.len() > 0 {
        lemma_mark_visit_keeps(fuel, m, xs[0]);
        let m1 = spec_mark_visit(fuel, m, xs[0]).0;
        lemma_mark_visit_list_keeps(fuel, m1, xs.subrange(1, xs.len() as int));
    }
}


/// Whether every path of `out` was in `m` unmarked and is marked in `m2`,
/// and no path occurs twice.
pub open spec fn handed_out(m: DepsModel, m2: DepsModel, out: Seq<Seq<char>>) -> bool {
    &&& forall|i: int| 0 <= i < out.len() ==> m.dom().contains(#[trigger] out[i]) && !m[out[i]].1 && m2[out[i]].1
    &&& out.no_duplicates()
}

/// A query hands out only style sheets of the index that were not marked,
/// marks each of them, and hands none out twice.
pub proof fn law_query_hands_out_unmarked_once(fuel: nat, m: DepsModel, path: Seq<char>)
    ensures
        handed_out(m, spec_mark_visit(fuel, m, path).0, spec_mark_visit(fuel, m, path).1),
    decreases fuel, 0nat,
{
    if fuel > 0 && m.dom().contains(path) && !m[path].1 {
        let m1 = m.insert(path, (m[path].0, true));
        let (m2, o) = spec_mark_visit_list((fuel - 1) as nat, m1, m[path].0);
        lemma_list_hands_out((fuel - 1) as nat, m1, m[path].0);
        lemma_mark_visit_list_keeps((fuel - 1) as nat, m1, m[path].0);
        let out = o.push(path);
        assert forall|i: int| 0 <= i < out.len() implies m.dom().contains(#[trigger] out[i]) && !m[out[i]].1
            && m2[out[i]].1 by {
            assert(m1[path].1);
            if i < o.len() {
                assert(out[i] == o[i]);
                assert(m1.dom().contains(o[i]) && !m1[o[i]].1);
                assert(o[i] != path);
                assert(m1[o[i]] == m[o[i]]);
            } else {
                assert(out[i] == path);
                assert(m1.dom().contains(path));
            }
        }
        assert forall|i: int, j: int| 0 <= i < out.len() && 0 <= j < out.len() && i != j implies out[i] != out[j] by {
            if i < o.len() && j < o.len() {
                assert(out[i] == o[i] && out[j] == o[j]);
            } else if i < o.len() {
                assert(out[i] == o[i]);
            } else {
                assert(out[j] == o[j]);
            }
        }
    }
}

/// `law_query_hands_out_unmarked_once` for a list of paths.
proof fn lemma_list_hands_out(fuel: nat, m: DepsModel, xs: Seq<Seq<char>>)
    ensures
        handed_out(m, spec_mark_visit_list(fuel, m, xs).0, spec_mark_visit_list(fuel, m, xs).1),
    decreases fuel, xs.len(),
{
    if xs.len() > 0 {
        let rest = xs.subrange(1, xs.len() as int);
        let (m1, o1) = spec_mark_visit(fuel, m, xs[0]);
        let (m2, o2) = spec_mark_visit_list(fuel, m1, rest);
        law_query_hands_out_unmarked_once(fuel, m, xs[0]);
        lemma_mark_visit_keeps(fuel, m, xs[0]);
        lemma_list_hands_out(fuel, m1, rest);
        lemma_mark_visit_list_keeps(fuel, m1, rest);
        let out = o1 + o2;
        assert forall|i: int| 0 <= i < out.len() implies m.dom().contains(#[trigger] out[i]) && !m[out[i]].1
            && m2[out[i]].1 by {
            if i < o1.len() {
                assert(out[i] == o1[i]);
                assert(m1.dom().contains(o1[i]) && m1[o1[i]].1);
            } else {
                assert(out[i] == o2[i - o1.len()]);
                assert(m1.dom().contains(out[i]));
                if m[out[i]].1 {
                    assert(m1[out[i]].1);
                }
            }
        }
        assert forall|i: int, j: int| 0 <= i < out.len() && 0 <= j < out.len() && i != j implies out[i] != out[j] by {
            if i < o1.len() && j < o1.len() {
                assert(out[i] == o1[i] && out[j] == o1[j]);
            } else if i >= o1.len() && j >= o1.len() {
                assert(out[i] == o2[i - o1.len()] && out[j] == o2[j - o1.len()]);
            } else if i < o1.len() {
                assert(out[i] == o1[i] && out[j] == o2[j - o1.len()]);
                assert(m1[o1[i]].1);
            } else {
                assert(out[j] == o1[j] && out[i] == o2[i - o1.len()]);
                assert(m1[o1[j]].1);
            }
        }
    }
}

/// Once a query has handed out a style sheet, a later query never hands it
/// out again.
pub proof fn law_no_path_handed_out_twice(m: DepsModel, first: Seq<char>, second: Seq<char>)
    ensures
        ({
            let (m1, r1) = spec_mark_visit(m.dom().len(), m, first);
            let (m2, r2) = spec_mark_visit(m1.dom().len(), m1, second);
            forall|i: int, j: int| 0 <= i < r1.len() && 0 <= j < r2.len() ==> r1[i] != r2[j]
        }),
{
    let (m1, r1) = spec_mark_visit(m.dom().len(), m, first);
    let (m2, r2) = spec_mark_visit(m1.dom().len(), m1, second);
    law_query_hands_out_unmarked_once(m.dom().len(), m, first);
    law_query_hands_out_unmarked_once(m1.dom().len(), m1, second);
    assert forall|i: int, j: int| 0 <= i < r1.len() && 0 <= j < r2.len() implies r1[i] != r2[j] by {
        assert(m1[r1[i]].1);
        assert(!m1[r2[j]].1);
    }
}


/// The paths of the index that are not marked.
pub open spec fn unmarked(m: DepsModel) -> Set<Seq<char>> {
    m.dom().filter(|k: Seq<char>| !m[k].1)
}

/// A query may follow imports as deep as the index has entries: following
/// deeper changes nothing, since every style sheet on the way gets marked.
pub proof fn law_query_depth_suffices(m: DepsModel, path: Seq<char>, g: nat)
    requires
        m.dom().finite(),
        g >= m.dom().len(),
    ensures
        spec_mark_visit(g, m, path) == spec_mark_visit(m.dom().len(), m, path),
{
    m.dom().lemma_len_filter(|k: Seq<char>| !m[k].1);
    lemma_mark_fuel(m.dom().len(), g, m, path);
}

proof fn lemma_mark_fuel(f: nat, g: nat, m: DepsModel, path: Seq<char>)
    requires
        m.dom().finite(),
        unmarked(m).len() <= f <= g,
    ensures
        spec_mark_visit(g, m, path) == spec_mark_visit(f, m, path),
    decreases f, 0nat,
{
    m.dom().lemma_len_filter(|k: Seq<char>| !m[k].1);
    if m.dom().contains(path) && !m[path].1 {
        let m1 = m.insert(path, (m[path].0, true));
        assert(unmarked(m).contains(path));
        assert(unmarked(m1) =~= unmarked(m).remove(path));
        assert(m1.dom() =~= m.dom());
        lemma_mark_list_fuel((f - 1) as nat, (g - 1) as nat, m1, m[path].0);
    }
}

proof fn lemma_mark_list_fuel(f: nat, g: nat, m: DepsModel, xs: Seq<Seq<char>>)
    requires
        m.dom().finite(),
        unmarked(m).len() <= f <= g,
    ensures
        spec_mark_visit_list(g, m, xs) == spec_mark_visit_list(f, m, xs),
    decreases f, xs.len(),
{
    if xs.len() > 0 {
        lemma_mark_fuel(f, g, m, xs[0]);
        let m1 = spec_mark_visit(f, m, xs[0]).0;
        lemma_mark_visit_keeps(f, m, xs[0]);
        m.dom().lemma_len_filter(|k: Seq<char>| !m[k].1);
        assert(unmarked(m1).subset_of(unmarked(m))) by {
            assert forall|k: Seq<char>| unmarked(m1).contains(k) implies unmarked(m).contains(k) by {
                assert(m.dom().contains(k));
                if m[k].1 {
                    assert(m1[k].1);
                }
            }
        }
        lemma_len_subset(unmarked(m1), unmarked(m));
        lemma_mark_list_fuel(f, g, m1, xs.subrange(1, xs.len() as int));
    }
}

/// The paths of the index that are not being listed.
pub open spec fn unlisted(m: DepsModel, stack: Seq<Seq<char>>) -> Set<Seq<char>> {
    m.dom().filter(|k: Seq<char>| !stack.contains(k))
}

/// A listing may follow imports as deep as the index has entries: following
/// deeper changes nothing, since no style sheet is entered twice on one
/// chain.
pub proof fn law_list_depth_suffices(m: DepsModel, path: Seq<char>, recursive: bool, g: nat)
    requires
        m.dom().finite(),
        g >= m.dom().len(),
    ensures
        spec_list_deps(g, m, Seq::empty(), path, recursive) == spec_list_deps(
            m.dom().len(),
            m,
            Seq::empty(),
            path,
            recursive,
        ),
{
    assert(unlisted(m, Seq::empty()) =~= m.dom());
    lemma_list_fuel(m.dom().len(), g, m, Seq::empty(), path, recursive);
}

proof fn lemma_list_fuel(f: nat, g: nat, m: DepsModel, stack: Seq<Seq<char>>, path: Seq<char>, recursive: bool)
    requires
        m.dom().finite(),
        unlisted(m, stack).len() <= f <= g,
    ensures
        spec_list_deps(g, m, stack, path, recursive) == spec_list_deps(f, m, stack, path, recursive),
    decreases f, 0nat,
{
    m.dom().lemma_len_filter(|k: Seq<char>| !stack.contains(k));
    if m.dom().contains(path) && !stack.contains(path) {
        let inner = stack.push(path);
        assert(unlisted(m, stack).contains(path));
        assert(unlisted(m, inner) =~= unlisted(m, stack).remove(path)) by {
            assert forall|k: Seq<char>| #[trigger] inner.contains(k) <==> stack.contains(k) || k == path by {
                if inner.contains(k) {
                    let i = choose|i: int| 0 <= i < inner.len() && inner[i] == k;
                    if i < stack.len() {
                        assert(stack[i] == k);
                    }
                }
                if stack.contains(k) {
                    let i = choose|i: int| 0 <= i < stack.len() && stack[i] == k;
                    assert(inner[i] == k);
                }
                if k == path {
                    assert(inner[stack.len() as int] == k);
                }
            }
        }
        if recursive {
            lemma_list_all_fuel((f - 1) as nat, (g - 1) as nat, m, inner, m[path].0, recursive);
        }
    }
}

proof fn lemma_list_all_fuel(
    f: nat,
    g: nat,
    m: DepsModel,
    stack: Seq<Seq<char>>,
    xs: Seq<Seq<char>>,
    recursive: bool,
)
    requires
        m.dom().finite(),
        unlisted(m, stack).len() <= f <= g,
    ensures
        spec_list_deps_all(g, m, stack, xs, recursive) == spec_list_deps_all(f, m, stack, xs, recursive),
    decreases f, xs.len(),
{
    if xs.len() > 0 {
        lemma_list_fuel(f, g, m, stack, xs[0], recursive);
        lemma_list_all_fuel(f, g, m, stack, xs.subrange(1, xs.len() as int), recursive);
    }
}

/// Without `recursive`, a listing is the direct imports of the style sheet,
/// where the index has it, and nothing otherwise.
pub proof fn law_list_not_recursive(m: DepsModel, path: Seq<char>)
    ensures
        spec_list_dependencies(m, path, false) == if m.dom().contains(path) {
            m[path].0
        } else {
            Seq::<Seq<char>>::empty()
        },
{
}

/// A listing names only style sheets of the index, and ends with the style
/// sheet it was asked for where the index has it.
pub proof fn law_list_names_indexed(
    fuel: nat,
    m: DepsModel,
    stack: Seq<Seq<char>>,
    path: Seq<char>,
    recursive: bool,
)
    ensures
        forall|i: int|
            0 <= i < spec_list_deps(fuel, m, stack, path, recursive).len() ==> m.dom().contains(
                #[trigger] spec_list_deps(fuel, m, stack, path, recursive)[i],
            ),
        spec_list_deps(fuel, m, stack, path, recursive).len() > 0 ==> spec_list_deps(
            fuel,
            m,
            stack,
            path,
            recursive,
        ).last() == path,
    decreases fuel, 0nat,
{
    if fuel > 0 && m.dom().contains(path) && !stack.contains(path) {
        let inner = if recursive {
            spec_list_deps_all((fuel - 1) as nat, m, stack.push(path), m[path].0, recursive)
        } else {
            Seq::empty()
        };
        if recursive {
            lemma_list_all_names_indexed((fuel - 1) as nat, m, stack.push(path), m[path].0, recursive);
        }
        let r = inner.push(path);
        assert forall|i: int| 0 <= i < r.len() implies m.dom().contains(#[trigger] r[i]) by {
            if i < inner.len() {
                assert(r[i] == inner[i]);
            }
        }
    }
}

proof fn lemma_list_all_names_indexed(
    fuel: nat,
    m: DepsModel,
    stack: Seq<Seq<char>>,
    xs: Seq<Seq<char>>,
    recursive: bool,
)
    ensures
        forall|i: int|
            0 <= i < spec_list_deps_all(fuel, m, stack, xs, recursive).len() ==> m.dom().contains(
                #[trigger] spec_list_deps_all(fuel, m, stack, xs, recursive)[i],
            ),
    decreases fuel, xs.len(),
{
    if xs.len() > 0 {
        let a = spec_list_deps(fuel, m, stack, xs[0], recursive);
        let rest = xs.subrange(1, xs.len() as int);
        let b = spec_list_deps_all(fuel, m, stack, rest, recursive);
        law_list_names_indexed(fuel, m, stack, xs[0], recursive);
        lemma_list_all_names_indexed(fuel, m, stack, rest, recursive);
        assert forall|i: int| 0 <= i < (a + b).len() implies m.dom().contains(#[trigger] (a + b)[i]) by {
            if i < a.len() {
                assert((a + b)[i] == a[i]);
            } else {
                assert((a + b)[i] == b[i - a.len()]);
            }
        }
    }
}


/// Whether `c` is a chain of imports in `m` through style sheets that are in
/// the index and not marked: each one imports the next.
pub open spec fn unmarked_chain(m: DepsModel, c: Seq<Seq<char>>) -> bool {
    &&& c.len() >= 1
    &&& forall|i: int| 0 <= i < c.len() ==> m.dom().contains(#[trigger] c[i]) && !m[c[i]].1
    &&& forall|i: int| 0 <= i < c.len() - 1 ==> (#[trigger] m[c[i]]).0.contains(c[i + 1])
}

/// Whether `k` can be reached from `from` in `m` by a chain of imports
/// through unmarked style sheets of the index.
pub open spec fn reachable_unmarked(m: DepsModel, from: Seq<char>, k: Seq<char>) -> bool {
    exists|c: Seq<Seq<char>>| #[trigger] unmarked_chain(m, c) && c[0] == from && c.last() == k
}

/// Whether `k` can be reached so from one of `xs`.
pub open spec fn reachable_from_any(m: DepsModel, xs: Seq<Seq<char>>, k: Seq<char>) -> bool {
    exists|x: Seq<char>| xs.contains(x) && reachable_unmarked(m, x, k)
}

/// A chain through unmarked style sheets of `m2` is one of `m` too, where
/// `m2` has the same style sheets and imports and only more marks.
proof fn lemma_chain_fewer_marks(m: DepsModel, m2: DepsModel, c: Seq<Seq<char>>)
    requires
        unmarked_chain(m2, c),
        m2.dom() == m.dom(),
        forall|k: Seq<char>| #[trigger] m.dom().contains(k) ==> m2[k].0 == m[k].0,
        forall|k: Seq<char>| #[trigger] m.dom().contains(k) && m[k].1 ==> m2[k].1,
    ensures
        unmarked_chain(m, c),
{
    assert forall|i: int| 0 <= i < c.len() implies m.dom().contains(#[trigger] c[i]) && !m[c[i]].1 by {
        assert(m2.dom().contains(c[i]));
    }
    assert forall|i: int| 0 <= i < c.len() - 1 implies (#[trigger] m[c[i]]).0.contains(c[i + 1]) by {
        assert(m2.dom().contains(c[i]));
        assert(m2[c[i]].0.contains(c[i + 1]));
    }
}

/// A query hands out only style sheets reachable from the one it was asked
/// for, through imports of style sheets that were in the index and not yet
/// marked.
pub proof fn law_query_hands_out_reachable(fuel: nat, m: DepsModel, path: Seq<char>)
    ensures
        forall|i: int|
            0 <= i < spec_mark_visit(fuel, m, path).1.len() ==> reachable_unmarked(
                m,
                path,
                #[trigger] spec_mark_visit(fuel, m, path).1[i],
            ),
    decreases fuel, 0nat,
{
    if fuel > 0 && m.dom().contains(path) && !m[path].1 {
        let m1 = m.insert(path, (m[path].0, true));
        let xs = m[path].0;
        let (m2, o) = spec_mark_visit_list((fuel - 1) as nat, m1, xs);
        lemma_list_hands_out_reachable((fuel - 1) as nat, m1, xs);
        let out = o.push(path);
        assert forall|i: int| 0 <= i < out.len() implies reachable_unmarked(m, path, #[trigger] out[i]) by {
            if i == o.len() {
                let c = seq![path];
                assert(unmarked_chain(m, c));
            } else {
                let k = out[i];
                assert(k == o[i]);
                assert(reachable_from_any(m1, xs, k));
                let x = choose|x: Seq<char>| xs.contains(x) && reachable_unmarked(m1, x, k);
                let c = choose|c: Seq<Seq<char>>| #[trigger] unmarked_chain(m1, c) && c[0] == x && c.last() == k;
                let d = seq![path] + c;
                assert(d[0] == path);
                assert(d.last() == k);
                assert forall|j: int| 0 <= j < d.len() implies m.dom().contains(#[trigger] d[j]) && !m[d[j]].1 by {
                    if j > 0 {
                        assert(d[j] == c[j - 1]);
                        assert(m1.dom().contains(c[j - 1]) && !m1[c[j - 1]].1);
                    }
                }
                assert forall|j: int| 0 <= j < d.len() - 1 implies (#[trigger] m[d[j]]).0.contains(d[j + 1]) by {
                    if j == 0 {
                        assert(d[1] == c[0]);
                    } else {
                        assert(d[j] == c[j - 1] && d[j + 1] == c[j]);
                        assert(m1.dom().contains(c[j - 1]) && !m1[c[j - 1]].1);
                        assert(m1[c[j - 1]].0.contains(c[j]));
                    }
                }
                assert(unmarked_chain(m, d));
            }
        }
    }
}

/// For a list of paths: each style sheet handed out is reachable from one
/// of them.
proof fn lemma_list_hands_out_reachable(fuel: nat, m: DepsModel, xs: Seq<Seq<char>>)
    ensures
        forall|i: int|
            0 <= i < spec_mark_visit_list(fuel, m, xs).1.len() ==> reachable_from_any(
                m,
                xs,
                #[trigger] spec_mark_visit_list(fuel, m, xs).1[i],
            ),
    decreases fuel, xs.len(),
{
    if xs.len() > 0 {
        let rest = xs.subrange(1, xs.len() as int);
        let (m1, o1) = spec_mark_visit(fuel, m, xs[0]);
        let (m2, o2) = spec_mark_visit_list(fuel, m1, rest);
        law_query_hands_out_reachable(fuel, m, xs[0]);
        lemma_mark_visit_keeps(fuel, m, xs[0]);
        lemma_list_hands_out_reachable(fuel, m1, rest);
        let out = o1 + o2;
        assert(spec_mark_visit_list(fuel, m, xs).1 == out);
        assert forall|i: int| 0 <= i < out.len() implies reachable_from_any(m, xs, #[trigger] out[i]) by {
            if i < o1.len() {
                assert(out[i] == o1[i]);
                assert(xs.contains(xs[0]));
                assert(reachable_unmarked(m, xs[0], out[i]));
            } else {
                let k = out[i];
                assert(k == o2[i - o1.len()]);
                assert(reachable_from_any(m1, rest, k));
                let x = choose|x: Seq<char>| rest.contains(x) && reachable_unmarked(m1, x, k);
                let c = choose|c: Seq<Seq<char>>| #[trigger] unmarked_chain(m1, c) && c[0] == x && c.last() == k;
                lemma_chain_fewer_marks(m, m1, c);
                let j = choose|j: int| 0 <= j < rest.len() && rest[j] == x;
                assert(xs[j + 1] == x);
                assert(xs.contains(x));
                assert(reachable_unmarked(m, x, k));
            }
        }
    } else {
        assert(spec_mark_visit_list(fuel, m, xs).1.len() == 0);
    }
}


/// A query marks exactly the style sheets it hands out.
proof fn lemma_marks_are_handed_out(fuel: nat, m: DepsModel, path: Seq<char>)
    ensures
        forall|k: Seq<char>|
            #[trigger] m.dom().contains(k) ==> (spec_mark_visit(fuel, m, path).0[k].1 <==> (m[k].1
                || spec_mark_visit(fuel, m, path).1.contains(k))),
    decreases fuel, 0nat,
{
    if fuel > 0 && m.dom().contains(path) && !m[path].1 {
        let m1 = m.insert(path, (m[path].0, true));
        let (m2, o) = spec_mark_visit_list((fuel - 1) as nat, m1, m[path].0);
        lemma_list_marks_are_handed_out((fuel - 1) as nat, m1, m[path].0);
        assert(m1.dom() =~= m.dom());
        let out = o.push(path);
        assert forall|k: Seq<char>| #[trigger] m.dom().contains(k) implies (m2[k].1 <==> (m[k].1 || out.contains(k))) by {
            assert(m1.dom().contains(k));
            if out.contains(k) && k != path {
                let i = choose|i: int| 0 <= i < out.len() && out[i] == k;
                assert(o[i] == k);
            }
            if o.contains(k) {
                let i = choose|i: int| 0 <= i < o.len() && o[i] == k;
                assert(out[i] == k);
            }
            if k == path {
                assert(out[o.len() as int] == k);
            }
        }
    } else {
        assert forall|k: Seq<char>| #[trigger] m.dom().contains(k) implies !spec_mark_visit(fuel, m, path).1.contains(k) by {}
    }
}

/// `lemma_marks_are_handed_out` for a list of paths.
proof fn lemma_list_marks_are_handed_out(fuel: nat, m: DepsModel, xs: Seq<Seq<char>>)
    ensures
        forall|k: Seq<char>|
            #[trigger] m.dom().contains(k) ==> (spec_mark_visit_list(fuel, m, xs).0[k].1 <==> (m[k].1
                || spec_mark_visit_list(fuel, m, xs).1.contains(k))),
    decreases fuel, xs.len(),
{
    if xs.len() > 0 {
        let rest = xs.subrange(1, xs.len() as int);
        let (m1, o1) = spec_mark_visit(fuel, m, xs[0]);
        let (m2, o2) = spec_mark_visit_list(fuel, m1, rest);
        lemma_marks_are_handed_out(fuel, m, xs[0]);
        lemma_mark_visit_keeps(fuel, m, xs[0]);
        lemma_list_marks_are_handed_out(fuel, m1, rest);
        let out = o1 + o2;
        assert(spec_mark_visit_list(fuel, m, xs).1 == out);
        assert forall|k: Seq<char>| #[trigger] m.dom().contains(k) implies (m2[k].1 <==> (m[k].1 || out.contains(k))) by {
            assert(m1.dom().contains(k));
            if out.contains(k) {
                let i = choose|i: int| 0 <= i < out.len() && out[i] == k;
                if i < o1.len() {
                    assert(o1[i] == k);
                } else {
                    assert(o2[i - o1.len()] == k);
                }
            }
            if o1.contains(k) {
                let i = choose|i: int| 0 <= i < o1.len() && o1[i] == k;
                assert(out[i] == k);
            }
            if o2.contains(k) {
                let i = choose|i: int| 0 <= i < o2.len() && o2[i] == k;
                assert(out[o1.len() + i] == k);
            }
        }
    }
}

/// A chain from `p` can be cut so that it never comes back to `p`.
proof fn lemma_chain_leaves_start(m: DepsModel, c: Seq<Seq<char>>)
    requires
        unmarked_chain(m, c),
    ensures
        exists|d: Seq<Seq<char>>|
            #[trigger] unmarked_chain(m, d) && d[0] == c[0] && d.last() == c.last() && forall|i: int|
                0 < i < d.len() ==> d[i] != c[0],
    decreases c.len(),
{
    if exists|i: int| 0 < i < c.len() && #[trigger] c[i] == c[0] {
        let i = choose|i: int| 0 < i < c.len() && #[trigger] c[i] == c[0];
        let t = c.subrange(i, c.len() as int);
        assert forall|j: int| 0 <= j < t.len() implies m.dom().contains(#[trigger] t[j]) && !m[t[j]].1 by {
            assert(t[j] == c[i + j]);
        }
        assert forall|j: int| 0 <= j < t.len() - 1 implies (#[trigger] m[t[j]]).0.contains(t[j + 1]) by {
            assert(t[j] == c[i + j] && t[j + 1] == c[i + j + 1]);
            assert(m[c[i + j]].0.contains(c[i + j + 1]));
        }
        lemma_chain_leaves_start(m, t);
    } else {
        assert(unmarked_chain(m, c));
    }
}

/// Joins a chain from `a` to `b` with a chain from `b` to `k`.
proof fn lemma_chain_join(m: DepsModel, c: Seq<Seq<char>>, d: Seq<Seq<char>>)
    requires
        unmarked_chain(m, c),
        unmarked_chain(m, d),
        c.last() == d[0],
    ensures
        unmarked_chain(m, c + d.subrange(1, d.len() as int)),
        (c + d.subrange(1, d.len() as int))[0] == c[0],
        (c + d.subrange(1, d.len() as int)).last() == d.last(),
{
    let e = c + d.subrange(1, d.len() as int);
    assert forall|j: int| 0 <= j < e.len() implies m.dom().contains(#[trigger] e[j]) && !m[e[j]].1 by {
        if j < c.len() {
            assert(e[j] == c[j]);
        } else {
            assert(e[j] == d[j - c.len() + 1]);
        }
    }
    assert forall|j: int| 0 <= j < e.len() - 1 implies (#[trigger] m[e[j]]).0.contains(e[j + 1]) by {
        if j < c.len() - 1 {
            assert(e[j] == c[j] && e[j + 1] == c[j + 1]);
        } else if j == c.len() - 1 {
            assert(e[j] == d[0] && e[j + 1] == d[1]);
        } else {
            assert(e[j] == d[j - c.len() + 1] && e[j + 1] == d[j - c.len() + 2]);
        }
    }
    if d.len() == 1 {
        assert(e =~= c);
    }
}

/// With enough depth, a query hands out every style sheet reachable from
/// the one it was asked for through unmarked style sheets of the index.
proof fn lemma_query_hands_out_all(fuel: nat, m: DepsModel, path: Seq<char>, k: Seq<char>)
    requires
        m.dom().finite(),
        unmarked(m).len() <= fuel,
        reachable_unmarked(m, path, k),
    ensures
        spec_mark_visit(fuel, m, path).1.contains(k),
    decreases fuel, 0nat,
{
    let c = choose|c: Seq<Seq<char>>| #[trigger] unmarked_chain(m, c) && c[0] == path && c.last() == k;
    assert(m.dom().contains(c[0]) && !m[c[0]].1);
    m.dom().lemma_len_filter(|x: Seq<char>| !m[x].1);
    assert(unmarked(m).contains(path));
    let m1 = m.insert(path, (m[path].0, true));
    let xs = m[path].0;
    let (m2, o) = spec_mark_visit_list((fuel - 1) as nat, m1, xs);
    let out = o.push(path);
    if k == path {
        assert(out[o.len() as int] == k);
    } else {
        lemma_chain_leaves_start(m, c);
        let d = choose|d: Seq<Seq<char>>| #[trigger] unmarked_chain(m, d) && d[0] == c[0] && d.last() == c.last()
            && forall|i: int| 0 < i < d.len() ==> d[i] != c[0];
        assert(d.len() > 1);
        let t = d.subrange(1, d.len() as int);
        assert(m[d[0]].0.contains(d[1]));
        assert forall|j: int| 0 <= j < t.len() implies m1.dom().contains(#[trigger] t[j]) && !m1[t[j]].1 by {
            assert(t[j] == d[j + 1]);
        }
        assert forall|j: int| 0 <= j < t.len() - 1 implies (#[trigger] m1[t[j]]).0.contains(t[j + 1]) by {
            assert(t[j] == d[j + 1] && t[j + 1] == d[j + 2]);
            assert(m[d[j + 1]].0.contains(d[j + 2]));
        }
        assert(unmarked_chain(m1, t));
        assert(reachable_unmarked(m1, t[0], k));
        assert(reachable_from_any(m1, xs, k));
        assert(unmarked(m1) =~= unmarked(m).remove(path));
        assert(m1.dom() =~= m.dom());
        lemma_list_hands_out_all((fuel - 1) as nat, m1, xs, k);
        let i = choose|i: int| 0 <= i < o.len() && o[i] == k;
        assert(out[i] == k);
    }
}

/// `lemma_query_hands_out_all` for a list of paths.
proof fn lemma_list_hands_out_all(fuel: nat, m: DepsModel, xs: Seq<Seq<char>>, k: Seq<char>)
    requires
        m.dom().finite(),
        unmarked(m).len() <= fuel,
        reachable_from_any(m, xs, k),
    ensures
        spec_mark_visit_list(fuel, m, xs).1.contains(k),
    decreases fuel, xs.len(),
{
    let x = choose|x: Seq<char>| xs.contains(x) && reachable_unmarked(m, x, k);
    let rest = xs.subrange(1, xs.len() as int);
    let (m1, o1) = spec_mark_visit(fuel, m, xs[0]);
    let (m2, o2) = spec_mark_visit_list(fuel, m1, rest);
    let out = o1 + o2;
    assert(spec_mark_visit_list(fuel, m, xs).1 == out);
    lemma_mark_visit_keeps(fuel, m, xs[0]);
    if x == xs[0] {
        lemma_query_hands_out_all(fuel, m, xs[0], k);
        let i = choose|i: int| 0 <= i < o1.len() && o1[i] == k;
        assert(out[i] == k);
    } else {
        let j = choose|j: int| 0 <= j < xs.len() && xs[j] == x;
        assert(j > 0);
        assert(rest[j - 1] == x);
        let c = choose|c: Seq<Seq<char>>| #[trigger] unmarked_chain(m, c) && c[0] == x && c.last() == k;
        lemma_marks_are_handed_out(fuel, m, xs[0]);
        if exists|i: int| 0 <= i < c.len() && o1.contains(#[trigger] c[i]) {
            let i = choose|i: int| 0 <= i < c.len() && o1.contains(#[trigger] c[i]);
            let t = c.subrange(i, c.len() as int);
            assert forall|q: int| 0 <= q < t.len() implies m.dom().contains(#[trigger] t[q]) && !m[t[q]].1 by {
                assert(t[q] == c[i + q]);
            }
            assert forall|q: int| 0 <= q < t.len() - 1 implies (#[trigger] m[t[q]]).0.contains(t[q + 1]) by {
                assert(t[q] == c[i + q] && t[q + 1] == c[i + q + 1]);
                assert(m[c[i + q]].0.contains(c[i + q + 1]));
            }
            let w = c[i];
            let p = choose|p: int| 0 <= p < o1.len() && o1[p] == w;
            law_query_hands_out_reachable(fuel, m, xs[0]);
            assert(reachable_unmarked(m, xs[0], o1[p]));
            let a = choose|a: Seq<Seq<char>>| #[trigger] unmarked_chain(m, a) && a[0] == xs[0] && a.last() == w;
            lemma_chain_join(m, a, t);
            let e = a + t.subrange(1, t.len() as int);
            assert(reachable_unmarked(m, xs[0], k));
            lemma_query_hands_out_all(fuel, m, xs[0], k);
            let q = choose|q: int| 0 <= q < o1.len() && o1[q] == k;
            assert(out[q] == k);
        } else {
            assert forall|q: int| 0 <= q < c.len() implies m1.dom().contains(#[trigger] c[q]) && !m1[c[q]].1 by {
                assert(m.dom().contains(c[q]));
                assert(!o1.contains(c[q]));
            }
            assert forall|q: int| 0 <= q < c.len() - 1 implies (#[trigger] m1[c[q]]).0.contains(c[q + 1]) by {
                assert(m.dom().contains(c[q]));
                assert(m[c[q]].0.contains(c[q + 1]));
            }
            assert(unmarked_chain(m1, c));
            assert(reachable_unmarked(m1, x, k));
            assert(rest.contains(x));
            assert(reachable_from_any(m1, rest, k));
            assert(unmarked(m1).subset_of(unmarked(m))) by {
                assert forall|y: Seq<char>| unmarked(m1).contains(y) implies unmarked(m).contains(y) by {
                    assert(m.dom().contains(y));
                    if m[y].1 {
                        assert(m1[y].1);
                    }
                }
            }
            m.dom().lemma_len_filter(|y: Seq<char>| !m[y].1);
            lemma_len_subset(unmarked(m1), unmarked(m));
            lemma_list_hands_out_all(fuel, m1, rest, k);
            let i = choose|i: int| 0 <= i < o2.len() && o2[i] == k;
            assert(out[o1.len() + i] == k);
        }
    }
}

/// A query hands out every style sheet reachable from the one it was asked
/// for through imports of style sheets that are in the index and not yet
/// marked; with `law_query_hands_out_reachable`, exactly those.
pub proof fn law_query_hands_out_all_reachable(m: DepsModel, path: Seq<char>, k: Seq<char>)
    requires
        m.dom().finite(),
        reachable_unmarked(m, path, k),
    ensures
        spec_mark_visit(m.dom().len(), m, path).1.contains(k),
{
    m.dom().lemma_len_filter(|x: Seq<char>| !m[x].1);
    lemma_query_hands_out_all(m.dom().len(), m, path, k);
}

} // verus!
